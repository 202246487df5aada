use vstd::prelude::*;
use std::collections::HashMap;
use crate::asset::{FontAsset, Fonts, ImageDims, Images, wf_dims, wf_metrics};
use crate::element::{
    Axis, Edit, Element, ElementV, Formula, Frame, FrameV, Genus, GenusV, Gravity, Image, ImageV,
    Size, SizePair, Text, TextV, eval_formula, wf_elem, wf_frame, wf_size,
};
use crate::geom::{
    Bound, Overflow, Pad, Vec2, DIM_MAX, LIT_MAX, POS_MAX, outside_window, wf_bound, wf_pad,
};
use crate::io::{Io, Message};
use crate::style::{Color, PadVal, resolve_pad_in, wf_pad_val};

verus! {

/// The caller-supplied listener registry: the layout pass hands it each
/// node that carries a listener identifier, once per frame, before the
/// node's children are measured; whatever it returns is enqueued on the
/// frame's signal queue. Implementations are unverified.
pub trait Listeners {
    fn notify(&mut self, id: u64, element: &Element, io: &Io) -> Option<(u64, Message)>;
}

/// A registry with no listeners at all.
pub struct NoListeners;

impl Listeners for NoListeners {
    fn notify(&mut self, id: u64, element: &Element, io: &Io) -> Option<(u64, Message)> {
        None
    }
}

/// The per-frame context the passes read: environment snapshot and the two
/// asset caches.
pub struct Cache {
    pub io: Io,
    pub image: Images,
    pub font: Fonts,
}

impl Cache {
    pub open spec fn wf(self) -> bool {
        &&& self.io.wf()
        &&& self.image.wf()
        &&& self.font.wf()
    }

    pub fn new() -> (r: Cache)
        ensures
            r.io.window_size == (Vec2 { x: 0, y: 0 }),
            r.io.queue@ == Seq::<(u64, Message)>::empty(),
            r.image.img@ == Map::<u64, ImageDims>::empty(),
            r.font.fonts@ == Map::<u64, FontAsset>::empty(),
            r.wf(),
    {
        Cache { io: Io::new(), image: Images::new(), font: Fonts::new() }
    }

    /// The culling test: false exactly when the box lies entirely outside
    /// the viewport.
    pub fn inside_window(&self, bound: &Bound) -> (r: bool)
        requires
            wf_bound(*bound),
            self.io.wf(),
        ensures
            r == !outside_window(*bound, self.io.window_size),
    {
        if bound.pos.x > self.io.window_size.x || bound.pos.y > self.io.window_size.y {
            return false;
        }
        if bound.pos.x + bound.dim.x < 0 {
            return false;
        }
        if bound.pos.y + bound.dim.y < 0 {
            return false;
        }
        true
    }
}

/// The mathematical environment a frame is laid out against: the viewport
/// and the contents of the sheet and the asset caches.
pub struct EnvV {
    pub win: Vec2,
    pub colors: Map<u64, Color>,
    pub pads: Map<u64, Pad>,
    pub fonts_sheet: Map<u64, u64>,
    pub images: Map<u64, ImageDims>,
    pub fonts: Map<u64, FontAsset>,
}

pub open spec fn env_of(c: Cache, s: crate::style::Sheet) -> EnvV {
    EnvV {
        win: c.io.window_size,
        colors: s.colors@,
        pads: s.pads@,
        fonts_sheet: s.fonts@,
        images: c.image.img@,
        fonts: c.font.fonts@,
    }
}

pub open spec fn env_wf(e: EnvV) -> bool {
    &&& 0 <= e.win.x <= LIT_MAX
    &&& 0 <= e.win.y <= LIT_MAX
    &&& forall|id: u64| e.pads.contains_key(id) ==> wf_pad(#[trigger] e.pads[id])
    &&& forall|id: u64| e.images.contains_key(id) ==> wf_dims(#[trigger] e.images[id])
    &&& forall|id: u64| e.fonts.contains_key(id) ==> wf_metrics(#[trigger] e.fonts[id])
}

/// The pad an element's own style resolves to; it becomes the element's
/// shadow in the measure pass.
pub open spec fn pad_of(e: ElementV, env: EnvV) -> Pad {
    match e.genus {
        GenusV::Frame(f) => resolve_pad_in(env.pads, f.style.pad),
        GenusV::Float(f) => resolve_pad_in(env.pads, f.style.pad),
        GenusV::Cult(f) => resolve_pad_in(env.pads, f.style.pad),
        GenusV::Text(t) => resolve_pad_in(env.pads, t.style.pad),
        GenusV::Img(i) => resolve_pad_in(env.pads, i.style.pad),
        GenusV::Input(ed) => resolve_pad_in(env.pads, ed.pad),
    }
}

/// A measured child's contribution to a fit-content width: its extent plus
/// its horizontal insets.
pub open spec fn contrib_x(c: ElementV) -> int {
    c.bound.dim.x + c.bound.shadow.left + c.bound.shadow.right
}

/// Its contribution to a fit-content height: extent plus vertical insets.
pub open spec fn contrib_y(c: ElementV) -> int {
    c.bound.dim.y + c.bound.shadow.top + c.bound.shadow.low
}

/// The sum of the first `k` children's width contributions.
pub open spec fn kids_w(s: Seq<ElementV>, k: int) -> int
    decreases k,
{
    if k <= 0 || k > s.len() {
        0
    } else {
        kids_w(s, k - 1) + contrib_x(s[k - 1])
    }
}

/// The sum of the first `k` children's height contributions.
pub open spec fn kids_h(s: Seq<ElementV>, k: int) -> int
    decreases k,
{
    if k <= 0 || k > s.len() {
        0
    } else {
        kids_h(s, k - 1) + contrib_y(s[k - 1])
    }
}

pub proof fn lemma_kids_nonneg(s: Seq<ElementV>, k: int)
    requires
        forall|j: int| 0 <= j < s.len() ==> wf_bound((#[trigger] s[j]).bound),
        0 <= k <= s.len(),
    ensures
        0 <= kids_w(s, k),
        0 <= kids_h(s, k),
    decreases k,
{
    if k > 0 {
        lemma_kids_nonneg(s, k - 1);
    }
}

pub proof fn lemma_kids_w_bounds(s: Seq<ElementV>, k: int)
    requires
        forall|j: int| 0 <= j < s.len() ==> wf_bound((#[trigger] s[j]).bound),
        0 <= k <= s.len(),
    ensures
        0 <= kids_w(s, k) <= kids_w(s, s.len() as int),
        0 <= kids_h(s, k) <= kids_h(s, s.len() as int),
    decreases s.len() - k,
{
    lemma_kids_nonneg(s, k);
    if k < s.len() {
        lemma_kids_w_bounds(s, k + 1);
    }
}

/// What one sizing policy yields, given the fit-content sum of the axis.
pub open spec fn axis_len(s: Size, win_ax: int, kids_sum: int, env: EnvV) -> int {
    match s {
        Size::Window => win_ax,
        Size::Man(v) => v as int,
        Size::Child => kids_sum,
        Size::Func(f) => eval_formula(f, env.win),
    }
}

/// What a ceiling policy resolves to; a fit-content ceiling does not bind.
pub open spec fn ceil_len(s: Size, win_ax: int, env: EnvV) -> Option<int> {
    match s {
        Size::Window => Some(win_ax),
        Size::Man(v) => Some(v as int),
        Size::Child => None,
        Size::Func(f) => Some(eval_formula(f, env.win)),
    }
}

/// A container's measured extents and overflow policy: the sizing policy
/// per axis, then each axis independently clamped to the ceiling; clamping
/// on either axis forces the policy to clip.
pub open spec fn frame_result(f: FrameV, env: EnvV) -> (int, int, Overflow) {
    let n = f.children.len() as int;
    let raw_x = axis_len(f.size.x, env.win.x as int, kids_w(f.children, n), env);
    let raw_y = axis_len(f.size.y, env.win.y as int, kids_h(f.children, n), env);
    let cx = match f.ceil {
        Some(c) => ceil_len(c.x, env.win.x as int, env),
        None => None,
    };
    let cy = match f.ceil {
        Some(c) => ceil_len(c.y, env.win.y as int, env),
        None => None,
    };
    let clamp_x = match cx {
        Some(c) => c < raw_x,
        None => false,
    };
    let clamp_y = match cy {
        Some(c) => c < raw_y,
        None => false,
    };
    let dim_x = if clamp_x {
        cx->Some_0
    } else {
        raw_x
    };
    let dim_y = if clamp_y {
        cy->Some_0
    } else {
        raw_y
    };
    let ov = if clamp_x || clamp_y {
        Overflow::Clip
    } else {
        f.overflow
    };
    (dim_x, dim_y, ov)
}

/// The extent a text node measures to: its byte count times the font's
/// advance, by the font's line height. A missing font keeps the box the
/// node already had.
pub open spec fn text_dims(t: TextV, prev: Vec2, env: EnvV) -> (int, int) {
    let key = crate::style::resolve_font_in(env.fonts_sheet, t.style.font);
    if env.fonts.contains_key(key) {
        let m = env.fonts[key];
        (t.text.len() * m.advance, m.height as int)
    } else {
        (prev.x as int, prev.y as int)
    }
}

// ------------------------------------------------------------------
// The measure pass, mathematically: what one frame's measurement makes of
// the tree. Children are measured before their container (fit-content sums
// need them); a subtree whose previous-frame box lies entirely outside the
// viewport is skipped unless the pass is silent; a silent pass also fires
// no listeners. Measurement writes extents and resolved insets; positions
// and rotation are the arrange pass's business and stay untouched.
// ------------------------------------------------------------------

/// A placeholder node for out-of-range sequence constructions; never the
/// value of any real index.
pub open spec fn blank_elem() -> ElementV {
    ElementV {
        genus: GenusV::Input(
            crate::element::EditV {
                lines: Seq::empty(),
                split: 0,
                char_size: Vec2 { x: 0, y: 0 },
                frame_size: Vec2 { x: 0, y: 0 },
                offset: Vec2 { x: 0, y: 0 },
                cursor: crate::element::Cursor { col: crate::style::ColorVal::Id(0), width: 0 },
                font: crate::style::FontVal::Id(0),
                pad: PadVal::Id(0),
                dirt: crate::element::Dirt::Clean,
            },
        ),
        bound: Bound::start(),
        listener: None,
    }
}

/// Every child measured.
pub open spec fn m_kids(s: Seq<ElementV>, env: EnvV, silent: bool) -> Seq<ElementV>
    decreases s, 0int,
{
    Seq::new(
        s.len(),
        |i: int|
            if 0 <= i < s.len() {
                m_tree(s[i], env, silent)
            } else {
                blank_elem()
            },
    )
}

/// A container's payload and extents after measurement: children first,
/// then the sizing policy against their sums, then the ceiling clamp.
pub open spec fn m_frame(f: FrameV, env: EnvV, kid_silent: bool) -> (FrameV, int, int)
    decreases f, 1int,
{
    let kids2 = m_kids(f.children, env, kid_silent);
    let f2 = FrameV {
        children: kids2,
        size: f.size,
        ceil: f.ceil,
        gravity: f.gravity,
        overflow: f.overflow,
        child_offset: f.child_offset,
        style: f.style,
    };
    let r = frame_result(f2, env);
    (
        FrameV {
            children: kids2,
            size: f.size,
            ceil: f.ceil,
            gravity: f.gravity,
            overflow: r.2,
            child_offset: f.child_offset,
            style: f.style,
        },
        r.0,
        r.1,
    )
}

/// The element after its box is computed, culling aside.
pub open spec fn m_compute(e: ElementV, env: EnvV, silent: bool) -> ElementV
    decreases e, 2int,
{
    let pad = pad_of(e, env);
    match e.genus {
        GenusV::Frame(f) => {
            let r = m_frame(f, env, silent);
            ElementV {
                genus: GenusV::Frame(r.0),
                bound: Bound {
                    pos: e.bound.pos,
                    dim: Vec2 { x: r.1 as i64, y: r.2 as i64 },
                    shadow: pad,
                    angle: e.bound.angle,
                },
                listener: e.listener,
            }
        },
        GenusV::Float(f) => {
            let r = m_frame(f, env, silent);
            ElementV {
                genus: GenusV::Float(r.0),
                bound: Bound {
                    pos: e.bound.pos,
                    dim: Vec2 { x: r.1 as i64, y: r.2 as i64 },
                    shadow: pad,
                    angle: e.bound.angle,
                },
                listener: e.listener,
            }
        },
        GenusV::Cult(f) => {
            let r = m_frame(f, env, true);
            ElementV {
                genus: GenusV::Cult(r.0),
                bound: Bound {
                    pos: e.bound.pos,
                    dim: Vec2 { x: r.1 as i64, y: r.2 as i64 },
                    shadow: pad,
                    angle: e.bound.angle,
                },
                listener: e.listener,
            }
        },
        GenusV::Text(t) => {
            let d = text_dims(t, e.bound.dim, env);
            ElementV {
                genus: e.genus,
                bound: Bound {
                    pos: e.bound.pos,
                    dim: Vec2 { x: d.0 as i64, y: d.1 as i64 },
                    shadow: pad,
                    angle: e.bound.angle,
                },
                listener: e.listener,
            }
        },
        GenusV::Img(im) => {
            if env.images.contains_key(im.src) {
                let d = env.images[im.src];
                ElementV {
                    genus: e.genus,
                    bound: Bound {
                        pos: e.bound.pos,
                        dim: Vec2 { x: d.w, y: d.h },
                        shadow: pad,
                        angle: e.bound.angle,
                    },
                    listener: e.listener,
                }
            } else {
                let fb2 = m_tree(*im.fallback, env, true);
                ElementV {
                    genus: GenusV::Img(
                        ImageV { src: im.src, fallback: Box::new(fb2), style: im.style },
                    ),
                    bound: Bound {
                        pos: e.bound.pos,
                        dim: fb2.bound.dim,
                        shadow: pad,
                        angle: e.bound.angle,
                    },
                    listener: e.listener,
                }
            }
        },
        GenusV::Input(ed) => {
            ElementV {
                genus: e.genus,
                bound: Bound {
                    pos: e.bound.pos,
                    dim: ed.frame_size,
                    shadow: pad,
                    angle: e.bound.angle,
                },
                listener: e.listener,
            }
        },
    }
}

/// The element after the measure pass: skipped whole when a non-silent
/// pass finds its previous-frame box entirely outside the viewport.
pub open spec fn m_tree(e: ElementV, env: EnvV, silent: bool) -> ElementV
    decreases e, 3int,
{
    if !silent && outside_window(e.bound, env.win) {
        e
    } else {
        m_compute(e, env, silent)
    }
}

/// The machine-limit conditions under which the measure pass's sums fit in
/// its integers: every fit-content sum of measured children stays within
/// the extent bound, along the path the pass actually takes.
pub open spec fn m_fits(e: ElementV, env: EnvV, silent: bool) -> bool
    decreases e, 3int,
{
    if !silent && outside_window(e.bound, env.win) {
        true
    } else {
        match e.genus {
            GenusV::Frame(f) => frame_fits(f, env, silent),
            GenusV::Float(f) => frame_fits(f, env, silent),
            GenusV::Cult(f) => frame_fits(f, env, true),
            GenusV::Text(t) => true,
            GenusV::Img(im) => env.images.contains_key(im.src) || m_fits(*im.fallback, env, true),
            GenusV::Input(ed) => true,
        }
    }
}

pub open spec fn frame_fits(f: FrameV, env: EnvV, kid_silent: bool) -> bool
    decreases f, 2int,
{
    let kids2 = m_kids(f.children, env, kid_silent);
    let n = f.children.len() as int;
    &&& forall|i: int|
        0 <= i < f.children.len() ==> m_fits(#[trigger] f.children[i], env, kid_silent)
    &&& (f.size.x is Child ==> kids_w(kids2, n) <= DIM_MAX)
    &&& (f.size.y is Child ==> kids_h(kids2, n) <= DIM_MAX)
}

/// Measurement keeps the tree well formed, leaves positions, rotation,
/// listeners and all configuration in place, and yields extents within
/// bounds.
pub proof fn lemma_m_tree_wf(e: ElementV, env: EnvV, silent: bool)
    requires
        wf_elem(e),
        env_wf(env),
        m_fits(e, env, silent),
    ensures
        wf_elem(m_tree(e, env, silent)),
        m_tree(e, env, silent).bound.pos == e.bound.pos,
        m_tree(e, env, silent).bound.angle == e.bound.angle,
        m_tree(e, env, silent).listener == e.listener,
    decreases e,
{
    if !silent && outside_window(e.bound, env.win) {
    } else {
        let pad = pad_of(e, env);
        assert(wf_pad(pad)) by {
            match e.genus {
                GenusV::Frame(f) => {
                    assert(wf_frame(f));
                    crate::style::lemma_resolved_pad_wf(env.pads, f.style.pad);
                },
                GenusV::Float(f) => {
                    assert(wf_frame(f));
                    crate::style::lemma_resolved_pad_wf(env.pads, f.style.pad);
                },
                GenusV::Cult(f) => {
                    assert(wf_frame(f));
                    crate::style::lemma_resolved_pad_wf(env.pads, f.style.pad);
                },
                GenusV::Text(t) => crate::style::lemma_resolved_pad_wf(env.pads, t.style.pad),
                GenusV::Img(i) => crate::style::lemma_resolved_pad_wf(env.pads, i.style.pad),
                GenusV::Input(ed) => crate::style::lemma_resolved_pad_wf(env.pads, ed.pad),
            }
        }
        match e.genus {
            GenusV::Frame(f) => {
                lemma_m_frame_wf(f, env, silent);
            },
            GenusV::Float(f) => {
                lemma_m_frame_wf(f, env, silent);
            },
            GenusV::Cult(f) => {
                lemma_m_frame_wf(f, env, true);
            },
            GenusV::Text(t) => {
                let key = crate::style::resolve_font_in(env.fonts_sheet, t.style.font);
                if env.fonts.contains_key(key) {
                    let m = env.fonts[key];
                    assert(0 <= t.text.len() * m.advance <= DIM_MAX) by (nonlinear_arith)
                        requires
                            0 <= t.text.len() <= LIT_MAX,
                            0 <= m.advance <= LIT_MAX,
                    ;
                }
            },
            GenusV::Img(im) => {
                if !env.images.contains_key(im.src) {
                    lemma_m_tree_wf(*im.fallback, env, true);
                }
            },
            GenusV::Input(ed) => {},
        }
    }
}

pub proof fn lemma_m_frame_wf(f: FrameV, env: EnvV, kid_silent: bool)
    requires
        wf_frame(f),
        env_wf(env),
        frame_fits(f, env, kid_silent),
    ensures
        ({
            let r = m_frame(f, env, kid_silent);
            &&& wf_frame(r.0)
            &&& 0 <= r.1 <= DIM_MAX
            &&& 0 <= r.2 <= DIM_MAX
        }),
    decreases f,
{
    let kids2 = m_kids(f.children, env, kid_silent);
    let n = f.children.len() as int;
    assert forall|i: int| 0 <= i < kids2.len() implies wf_elem(#[trigger] kids2[i]) by {
        lemma_m_tree_wf(f.children[i], env, kid_silent);
    }
    assert forall|i: int| 0 <= i < kids2.len() implies wf_bound((#[trigger] kids2[i]).bound) by {
        assert(wf_elem(kids2[i]));
    }
    lemma_kids_nonneg(kids2, n);
}

// ------------------------------------------------------------------
// The measure pass, executably.
// ------------------------------------------------------------------

/// An element's own box computed from its current (already measured)
/// children: the non-recursive step of the measure pass.
pub open spec fn own_box(e: ElementV, env: EnvV) -> ElementV {
    let pad = pad_of(e, env);
    match e.genus {
        GenusV::Frame(f) => {
            let r = frame_result(f, env);
            ElementV {
                genus: GenusV::Frame(
                    FrameV {
                        children: f.children,
                        size: f.size,
                        ceil: f.ceil,
                        gravity: f.gravity,
                        overflow: r.2,
                        child_offset: f.child_offset,
                        style: f.style,
                    },
                ),
                bound: Bound {
                    pos: e.bound.pos,
                    dim: Vec2 { x: r.0 as i64, y: r.1 as i64 },
                    shadow: pad,
                    angle: e.bound.angle,
                },
                listener: e.listener,
            }
        },
        GenusV::Float(f) => {
            let r = frame_result(f, env);
            ElementV {
                genus: GenusV::Float(
                    FrameV {
                        children: f.children,
                        size: f.size,
                        ceil: f.ceil,
                        gravity: f.gravity,
                        overflow: r.2,
                        child_offset: f.child_offset,
                        style: f.style,
                    },
                ),
                bound: Bound {
                    pos: e.bound.pos,
                    dim: Vec2 { x: r.0 as i64, y: r.1 as i64 },
                    shadow: pad,
                    angle: e.bound.angle,
                },
                listener: e.listener,
            }
        },
        GenusV::Cult(f) => {
            let r = frame_result(f, env);
            ElementV {
                genus: GenusV::Cult(
                    FrameV {
                        children: f.children,
                        size: f.size,
                        ceil: f.ceil,
                        gravity: f.gravity,
                        overflow: r.2,
                        child_offset: f.child_offset,
                        style: f.style,
                    },
                ),
                bound: Bound {
                    pos: e.bound.pos,
                    dim: Vec2 { x: r.0 as i64, y: r.1 as i64 },
                    shadow: pad,
                    angle: e.bound.angle,
                },
                listener: e.listener,
            }
        },
        GenusV::Text(t) => {
            let d = text_dims(t, e.bound.dim, env);
            ElementV {
                genus: e.genus,
                bound: Bound {
                    pos: e.bound.pos,
                    dim: Vec2 { x: d.0 as i64, y: d.1 as i64 },
                    shadow: pad,
                    angle: e.bound.angle,
                },
                listener: e.listener,
            }
        },
        GenusV::Img(im) => {
            let d = if env.images.contains_key(im.src) {
                Vec2 { x: env.images[im.src].w, y: env.images[im.src].h }
            } else {
                im.fallback.bound.dim
            };
            ElementV {
                genus: e.genus,
                bound: Bound { pos: e.bound.pos, dim: d, shadow: pad, angle: e.bound.angle },
                listener: e.listener,
            }
        },
        GenusV::Input(ed) => {
            ElementV {
                genus: e.genus,
                bound: Bound {
                    pos: e.bound.pos,
                    dim: ed.frame_size,
                    shadow: pad,
                    angle: e.bound.angle,
                },
                listener: e.listener,
            }
        },
    }
}

/// The element with its children (or its fallback subtree) replaced by
/// their measured versions, everything else untouched.
pub open spec fn with_kids(e: ElementV, env: EnvV, silent: bool) -> ElementV {
    match e.genus {
        GenusV::Frame(f) => ElementV {
            genus: GenusV::Frame(
                FrameV {
                    children: m_kids(f.children, env, silent),
                    size: f.size,
                    ceil: f.ceil,
                    gravity: f.gravity,
                    overflow: f.overflow,
                    child_offset: f.child_offset,
                    style: f.style,
                },
            ),
            bound: e.bound,
            listener: e.listener,
        },
        GenusV::Float(f) => ElementV {
            genus: GenusV::Float(
                FrameV {
                    children: m_kids(f.children, env, silent),
                    size: f.size,
                    ceil: f.ceil,
                    gravity: f.gravity,
                    overflow: f.overflow,
                    child_offset: f.child_offset,
                    style: f.style,
                },
            ),
            bound: e.bound,
            listener: e.listener,
        },
        GenusV::Cult(f) => ElementV {
            genus: GenusV::Cult(
                FrameV {
                    children: m_kids(f.children, env, true),
                    size: f.size,
                    ceil: f.ceil,
                    gravity: f.gravity,
                    overflow: f.overflow,
                    child_offset: f.child_offset,
                    style: f.style,
                },
            ),
            bound: e.bound,
            listener: e.listener,
        },
        GenusV::Img(im) => if env.images.contains_key(im.src) {
            e
        } else {
            ElementV {
                genus: GenusV::Img(
                    ImageV {
                        src: im.src,
                        fallback: Box::new(m_tree(*im.fallback, env, true)),
                        style: im.style,
                    },
                ),
                bound: e.bound,
                listener: e.listener,
            }
        },
        _ => e,
    }
}

/// Measuring decomposes: children first, then the node's own box.
pub proof fn lemma_m_decompose(e: ElementV, env: EnvV, silent: bool)
    ensures
        m_compute(e, env, silent) == own_box(with_kids(e, env, silent), env),
{
    match e.genus {
        GenusV::Frame(f) => {
            assert(m_compute(e, env, silent) =~~= own_box(with_kids(e, env, silent), env));
        },
        GenusV::Float(f) => {
            assert(m_compute(e, env, silent) =~~= own_box(with_kids(e, env, silent), env));
        },
        GenusV::Cult(f) => {
            assert(m_compute(e, env, silent) =~~= own_box(with_kids(e, env, silent), env));
        },
        GenusV::Text(t) => {
            assert(m_compute(e, env, silent) =~~= own_box(with_kids(e, env, silent), env));
        },
        GenusV::Img(im) => {
            assert(m_compute(e, env, silent) =~~= own_box(with_kids(e, env, silent), env));
        },
        GenusV::Input(ed) => {
            assert(m_compute(e, env, silent) =~~= own_box(with_kids(e, env, silent), env));
        },
    }
}

/// The machine-limit conditions of the non-recursive step alone.
pub open spec fn own_fits(e: ElementV, env: EnvV) -> bool {
    match e.genus {
        GenusV::Frame(f) => frame_own_fits(f),
        GenusV::Float(f) => frame_own_fits(f),
        GenusV::Cult(f) => frame_own_fits(f),
        _ => true,
    }
}

pub open spec fn frame_own_fits(f: FrameV) -> bool {
    &&& (f.size.x is Child ==> kids_w(f.children, f.children.len() as int) <= DIM_MAX)
    &&& (f.size.y is Child ==> kids_h(f.children, f.children.len() as int) <= DIM_MAX)
}

/// Computes this node's own box against its current children: the sizing
/// policy, the ceiling clamp, the resolved insets.
fn measure_node(element: &mut Element, cache: &Cache, sheet: &crate::style::Sheet)
    requires
        wf_elem(old(element).deep()),
        cache.wf(),
        sheet.wf(),
        own_fits(old(element).deep(), env_of(*cache, *sheet)),
    ensures
        final(element).deep() == own_box(old(element).deep(), env_of(*cache, *sheet)),
{
    let ghost env = env_of(*cache, *sheet);
    let win = cache.io.window_size;
    let prev_dim = element.bound.dim;
    let pv = match &element.genus {
        Genus::Frame(f) => f.style.pad,
        Genus::Float(f) => f.style.pad,
        Genus::Cult(f) => f.style.pad,
        Genus::Text(t) => t.style.pad,
        Genus::Img(i) => i.style.pad,
        Genus::Input(ed) => ed.pad,
    };
    let pad = sheet.resolve_pad(pv);
    let dims: Vec2 = match &mut element.genus {
        Genus::Frame(f) => {
            proof {
                assert(wf_frame(frame_of(old(element).deep())));
            }
            calc_frame_dims(f, win, Ghost(env))
        },
        Genus::Float(f) => {
            proof {
                assert(wf_frame(frame_of(old(element).deep())));
            }
            calc_frame_dims(f, win, Ghost(env))
        },
        Genus::Cult(f) => {
            proof {
                assert(wf_frame(frame_of(old(element).deep())));
            }
            calc_frame_dims(f, win, Ghost(env))
        },
        Genus::Text(t) => {
            let key = sheet.resolve_font(t.style.font);
            match cache.font.load_asset(key) {
                Some(m) => {
                    proof {
                        assert(wf_metrics(m));
                        assert(0 <= (t.text@.len() as int) * (m.advance as int)
                            <= 0x1_0000_0000_0000) by (nonlinear_arith)
                            requires
                                0 <= t.text@.len() <= 0x100_0000,
                                0 <= m.advance <= 0x100_0000,
                        ;
                    }
                    Vec2 { x: (t.text.len() as i64) * m.advance, y: m.height }
                },
                None => prev_dim,
            }
        },
        Genus::Img(im) => {
            match cache.image.load(im.src) {
                Some(d) => Vec2 { x: d.w, y: d.h },
                None => im.fallback.bound.dim,
            }
        },
        Genus::Input(ed) => ed.frame_size,
    };
    element.bound = Bound {
        pos: element.bound.pos,
        dim: dims,
        shadow: pad,
        angle: element.bound.angle,
    };
    proof {
        let o = old(element).deep();
        let nv = element.deep();
        match o.genus {
            GenusV::Frame(f) => {
                assert(element.genus is Frame);
                assert(element.genus->Frame_0.children@ == old(element).genus->Frame_0.children@);
                assert(nv.genus == GenusV::Frame(element.genus->Frame_0.deep()));
                assert(frame_of(nv) == element.genus->Frame_0.deep());
                assert(frame_of(nv).children.len() == element.genus->Frame_0.children@.len());
                assert(f.children.len() == old(element).genus->Frame_0.children@.len());
                assert(frame_of(nv).children.len() == f.children.len());
                assert forall|i: int| 0 <= i < f.children.len() implies frame_of(nv).children[i]
                    == f.children[i] by {
                    assert(frame_of(nv).children[i] == element.genus->Frame_0.children@[i].deep());
                    assert(f.children[i] == old(element).genus->Frame_0.children@[i].deep());
                }
                assert(frame_of(nv).children =~= f.children);
                assert(nv =~~= own_box(o, env));
            },
            GenusV::Float(f) => {
                assert(element.genus is Float);
                assert(element.genus->Float_0.children@ == old(element).genus->Float_0.children@);
                assert(nv.genus == GenusV::Float(element.genus->Float_0.deep()));
                assert(frame_of(nv) == element.genus->Float_0.deep());
                assert(frame_of(nv).children.len() == element.genus->Float_0.children@.len());
                assert(f.children.len() == old(element).genus->Float_0.children@.len());
                assert(frame_of(nv).children.len() == f.children.len());
                assert forall|i: int| 0 <= i < f.children.len() implies frame_of(nv).children[i]
                    == f.children[i] by {
                    assert(frame_of(nv).children[i] == element.genus->Float_0.children@[i].deep());
                    assert(f.children[i] == old(element).genus->Float_0.children@[i].deep());
                }
                assert(frame_of(nv).children =~= f.children);
                assert(nv =~~= own_box(o, env));
            },
            GenusV::Cult(f) => {
                assert(element.genus is Cult);
                assert(element.genus->Cult_0.children@ == old(element).genus->Cult_0.children@);
                assert(nv.genus == GenusV::Cult(element.genus->Cult_0.deep()));
                assert(frame_of(nv) == element.genus->Cult_0.deep());
                assert(frame_of(nv).children.len() == element.genus->Cult_0.children@.len());
                assert(f.children.len() == old(element).genus->Cult_0.children@.len());
                assert(frame_of(nv).children.len() == f.children.len());
                assert forall|i: int| 0 <= i < f.children.len() implies frame_of(nv).children[i]
                    == f.children[i] by {
                    assert(frame_of(nv).children[i] == element.genus->Cult_0.children@[i].deep());
                    assert(f.children[i] == old(element).genus->Cult_0.children@[i].deep());
                }
                assert(frame_of(nv).children =~= f.children);
                assert(nv =~~= own_box(o, env));
            },
            GenusV::Text(t) => {
                assert(nv =~~= own_box(o, env));
            },
            GenusV::Img(im) => {
                assert(element.genus == old(element).genus);
                assert(nv.genus == GenusV::Img(
                    ImageV {
                        src: element.genus->Img_0.src,
                        fallback: Box::new(element.genus->Img_0.fallback.deep()),
                        style: element.genus->Img_0.style,
                    },
                ));
                assert(im.fallback.bound == old(element).genus->Img_0.fallback.deep().bound);
                assert(im.fallback.bound == old(element).genus->Img_0.fallback.bound);
                assert(nv =~~= own_box(o, env));
            },
            GenusV::Input(ed) => {
                assert(nv =~~= own_box(o, env));
            },
        }
    }
}

/// The container payload of a container element's view.
pub open spec fn frame_of(e: ElementV) -> FrameV {
    match e.genus {
        GenusV::Frame(f) => f,
        GenusV::Float(f) => f,
        GenusV::Cult(f) => f,
        _ => arbitrary(),
    }
}

/// The container's extents under its sizing policy and ceiling; sets the
/// overflow policy to clip when a ceiling clamps.
fn calc_frame_dims(f: &mut Frame, win: Vec2, Ghost(env): Ghost<EnvV>) -> (d: Vec2)
    requires
        wf_frame(old(f).deep()),
        frame_own_fits(old(f).deep()),
        env.win == win,
        0 <= win.x <= LIT_MAX,
        0 <= win.y <= LIT_MAX,
    ensures
        ({
            let r = frame_result(old(f).deep(), env);
            &&& d.x == r.0
            &&& d.y == r.1
            &&& final(f).overflow == r.2
            &&& final(f).children@ == old(f).children@
            &&& final(f).size == old(f).size
            &&& final(f).ceil == old(f).ceil
            &&& final(f).gravity == old(f).gravity
            &&& final(f).child_offset == old(f).child_offset
            &&& final(f).style == old(f).style
        }),
{
    let ghost f0 = *f;
    let ghost kv = f0.deep().children;
    proof {
        assert forall|j: int| 0 <= j < kv.len() implies wf_bound((#[trigger] kv[j]).bound) by {
            assert(wf_elem(kv[j]));
        }
    }
    let n = f.children.len();
    let raw_x: i64 = match f.size.x {
        Size::Window => win.x,
        Size::Man(v) => v,
        Size::Func(fo) => {
            proof {
                assert(wf_size(f0.deep().size.x));
            }
            fo.eval(win)
        },
        Size::Child => {
            let mut acc: i64 = 0;
            let mut i: usize = 0;
            while i < n
                invariant
                    *f == f0,
                    kv == f0.deep().children,
                    n == f.children@.len(),
                    kv.len() == n,
                    i <= n,
                    forall|j: int| 0 <= j < kv.len() ==> wf_bound((#[trigger] kv[j]).bound),
                    kids_w(kv, n as int) <= DIM_MAX,
                    acc == kids_w(kv, i as int),
                    0 <= acc <= DIM_MAX,
                decreases n - i,
            {
                proof {
                    assert(kv[i as int] == f.children@[i as int].deep());
                    lemma_kids_w_bounds(kv, i + 1);
                }
                let c = &f.children[i];
                acc = acc + c.bound.dim.x + c.bound.shadow.left + c.bound.shadow.right;
                i += 1;
            }
            acc
        },
    };
    let raw_y: i64 = match f.size.y {
        Size::Window => win.y,
        Size::Man(v) => v,
        Size::Func(fo) => {
            proof {
                assert(wf_size(f0.deep().size.y));
            }
            fo.eval(win)
        },
        Size::Child => {
            let mut acc: i64 = 0;
            let mut i: usize = 0;
            while i < n
                invariant
                    *f == f0,
                    kv == f0.deep().children,
                    n == f.children@.len(),
                    kv.len() == n,
                    i <= n,
                    forall|j: int| 0 <= j < kv.len() ==> wf_bound((#[trigger] kv[j]).bound),
                    kids_h(kv, n as int) <= DIM_MAX,
                    acc == kids_h(kv, i as int),
                    0 <= acc <= DIM_MAX,
                decreases n - i,
            {
                proof {
                    assert(kv[i as int] == f.children@[i as int].deep());
                    lemma_kids_w_bounds(kv, i + 1);
                }
                let c = &f.children[i];
                acc = acc + c.bound.dim.y + c.bound.shadow.top + c.bound.shadow.low;
                i += 1;
            }
            acc
        },
    };
    let mut dim_x = raw_x;
    let mut dim_y = raw_y;
    match f.ceil {
        Some(c) => {
            let cx: Option<i64> = match c.x {
                Size::Window => Some(win.x),
                Size::Man(v) => Some(v),
                Size::Func(fo) => {
                    proof {
                        assert(wf_size_pair_of(f0.deep().ceil));
                    }
                    Some(fo.eval(win))
                },
                Size::Child => None,
            };
            match cx {
                Some(cv) => {
                    if cv < dim_x {
                        dim_x = cv;
                        f.overflow.make_clip();
                    }
                },
                None => {},
            }
            let cy: Option<i64> = match c.y {
                Size::Window => Some(win.y),
                Size::Man(v) => Some(v),
                Size::Func(fo) => {
                    proof {
                        assert(wf_size_pair_of(f0.deep().ceil));
                    }
                    Some(fo.eval(win))
                },
                Size::Child => None,
            };
            match cy {
                Some(cv) => {
                    if cv < dim_y {
                        dim_y = cv;
                        f.overflow.make_clip();
                    }
                },
                None => {},
            }
        },
        None => {},
    }
    Vec2 { x: dim_x, y: dim_y }
}

/// Well-formedness of an optional ceiling.
pub open spec fn wf_size_pair_of(c: Option<SizePair>) -> bool {
    match c {
        Some(p) => crate::element::wf_size_pair(p),
        None => true,
    }
}

/// The container payload of a container element.
pub open spec fn frame_payload(e: Element) -> Frame {
    match e.genus {
        Genus::Frame(f) => f,
        Genus::Float(f) => f,
        Genus::Cult(f) => f,
        _ => arbitrary(),
    }
}

pub open spec fn is_container(e: Element) -> bool {
    e.genus is Frame || e.genus is Float || e.genus is Cult
}

/// The silent measure pass: no listeners fire and no subtree is skipped by
/// culling. Used for fallback-content probing, where side effects must not
/// happen.
pub fn silent_first_pass(element: &mut Element, cache: &Cache, sheet: &crate::style::Sheet)
    requires
        wf_elem(old(element).deep()),
        cache.wf(),
        sheet.wf(),
        m_fits(old(element).deep(), env_of(*cache, *sheet), true),
    ensures
        final(element).deep() == m_tree(old(element).deep(), env_of(*cache, *sheet), true),
        wf_elem(final(element).deep()),
    decreases *old(element), 1int,
{
    let ghost env = env_of(*cache, *sheet);
    let ghost o = old(element).deep();
    let ghost oe = *old(element);
    proof {
        lemma_env_wf(*cache, *sheet);
    }
    match &mut element.genus {
        Genus::Frame(f) => {
            proof {
                assert(frame_fits(o.genus->Frame_0, env, true));
                assert(o.genus->Frame_0 == oe.genus->Frame_0.deep());
            }
            measure_kids_silent(f, cache, sheet, Ghost(oe), Ghost(env));
        },
        Genus::Float(f) => {
            proof {
                assert(frame_fits(o.genus->Float_0, env, true));
                assert(o.genus->Float_0 == oe.genus->Float_0.deep());
            }
            measure_kids_silent(f, cache, sheet, Ghost(oe), Ghost(env));
        },
        Genus::Cult(f) => {
            proof {
                assert(frame_fits(o.genus->Cult_0, env, true));
                assert(o.genus->Cult_0 == oe.genus->Cult_0.deep());
            }
            measure_kids_silent(f, cache, sheet, Ghost(oe), Ghost(env));
        },
        Genus::Img(im) => {
            let hit = cache.image.load(im.src);
            match hit {
                Some(_) => {},
                None => {
                    proof {
                        assert(wf_elem(*o.genus->Img_0.fallback));
                        assert(m_fits(*o.genus->Img_0.fallback, env, true));
                        assert(decreases_to!(oe => *oe.genus->Img_0.fallback));
                    }
                    silent_first_pass(&mut im.fallback, cache, sheet);
                },
            }
        },
        Genus::Text(_) => {},
        Genus::Input(_) => {},
    }
    proof {
        let wk = with_kids(o, env, true);
        let nv = element.deep();
        match o.genus {
            GenusV::Frame(f) => {
                assert(nv =~~= wk);
            },
            GenusV::Float(f) => {
                assert(nv =~~= wk);
            },
            GenusV::Cult(f) => {
                assert(nv =~~= wk);
            },
            GenusV::Text(t) => {
                assert(nv =~~= wk);
            },
            GenusV::Img(im) => {
                assert(nv =~~= wk);
            },
            GenusV::Input(ed) => {
                assert(nv =~~= wk);
            },
        }
        assert(wf_elem(wk)) by {
            lemma_with_kids_wf(o, env, true);
        }
        assert(own_fits(wk, env)) by {
            lemma_with_kids_fits(o, env, true);
        }
    }
    measure_node(element, cache, sheet);
    proof {
        lemma_m_decompose(o, env, true);
        lemma_m_tree_wf(o, env, true);
    }
}

/// Measures every child of a container silently, in order.
fn measure_kids_silent(
    f: &mut Frame,
    cache: &Cache,
    sheet: &crate::style::Sheet,
    Ghost(oe): Ghost<Element>,
    Ghost(env): Ghost<EnvV>,
)
    requires
        env == env_of(*cache, *sheet),
        cache.wf(),
        sheet.wf(),
        wf_frame(old(f).deep()),
        forall|i: int|
            0 <= i < old(f).deep().children.len() ==> m_fits(
                #[trigger] old(f).deep().children[i],
                env,
                true,
            ),
        is_container(oe),
        frame_payload(oe) == *old(f),
    ensures
        final(f).deep().children == m_kids(old(f).deep().children, env, true),
        final(f).size == old(f).size,
        final(f).ceil == old(f).ceil,
        final(f).gravity == old(f).gravity,
        final(f).overflow == old(f).overflow,
        final(f).child_offset == old(f).child_offset,
        final(f).style == old(f).style,
        wf_frame(final(f).deep()),
    decreases oe, 0int,
{
    let ghost f0 = old(f).deep();
    let n = f.children.len();
    let mut i: usize = 0;
    while i < n
        invariant
            env == env_of(*cache, *sheet),
            cache.wf(),
            sheet.wf(),
            n == f.children@.len(),
            n == f0.children.len(),
            f0 == old(f).deep(),
            i <= n,
            f.size == old(f).size,
            f.ceil == old(f).ceil,
            f.gravity == old(f).gravity,
            f.overflow == old(f).overflow,
            f.child_offset == old(f).child_offset,
            f.style == old(f).style,
            forall|j: int| 0 <= j < f0.children.len() ==> wf_elem(#[trigger] f0.children[j]),
            forall|j: int|
                0 <= j < f0.children.len() ==> m_fits(#[trigger] f0.children[j], env, true),
            forall|j: int| i <= j < n ==> f.children@[j] == old(f).children@[j],
            forall|j: int|
                0 <= j < i ==> (#[trigger] f.children@[j].deep()) == m_tree(
                    f0.children[j],
                    env,
                    true,
                ),
            forall|j: int| 0 <= j < i ==> wf_elem(#[trigger] f.children@[j].deep()),
            is_container(oe),
            frame_payload(oe) == *old(f),
        decreases n - i,
    {
        proof {
            assert(f.children@[i as int] == old(f).children@[i as int]);
            assert(f.children@[i as int].deep() == f0.children[i as int]);
            assert(wf_elem(f.children@[i as int].deep()));
            assert(m_fits(f.children@[i as int].deep(), env, true));
            if oe.genus is Frame {
                assert(decreases_to!(oe => oe.genus->Frame_0.children@[i as int]));
            } else if oe.genus is Float {
                assert(decreases_to!(oe => oe.genus->Float_0.children@[i as int]));
            } else {
                assert(decreases_to!(oe => oe.genus->Cult_0.children@[i as int]));
            }
            assert(frame_payload(oe).children@[i as int] == f.children@[i as int]);
        }
        silent_first_pass(&mut f.children[i], cache, sheet);
        i += 1;
    }
    proof {
        let fin = f.deep();
        assert(fin.children.len() == m_kids(f0.children, env, true).len());
        assert forall|j: int| 0 <= j < fin.children.len() implies fin.children[j] == m_kids(
            f0.children,
            env,
            true,
        )[j] by {
            assert(fin.children[j] == f.children@[j].deep());
        }
        assert(fin.children =~= m_kids(f0.children, env, true));
        assert(wf_frame(f0));
        assert forall|j: int| 0 <= j < fin.children.len() implies wf_elem(
            #[trigger] fin.children[j],
        ) by {
            assert(fin.children[j] == f.children@[j].deep());
        }
        assert(wf_frame(fin));
    }
}

pub proof fn lemma_env_wf(c: Cache, s: crate::style::Sheet)
    requires
        c.wf(),
        s.wf(),
    ensures
        env_wf(env_of(c, s)),
{
}

/// Measuring the children keeps the node well formed.
pub proof fn lemma_with_kids_wf(e: ElementV, env: EnvV, silent: bool)
    requires
        wf_elem(e),
        env_wf(env),
        m_fits(e, env, silent),
        silent || !outside_window(e.bound, env.win),
    ensures
        wf_elem(with_kids(e, env, silent)),
{
    match e.genus {
        GenusV::Frame(f) => {
            assert(wf_frame(f));
            assert(frame_fits(f, env, silent));
            let kids2 = m_kids(f.children, env, silent);
            assert forall|i: int| 0 <= i < kids2.len() implies wf_elem(#[trigger] kids2[i]) by {
                assert(m_fits(f.children[i], env, silent));
                lemma_m_tree_wf(f.children[i], env, silent);
            }
            assert(wf_frame(frame_of(with_kids(e, env, silent))));
        },
        GenusV::Float(f) => {
            assert(wf_frame(f));
            assert(frame_fits(f, env, silent));
            let kids2 = m_kids(f.children, env, silent);
            assert forall|i: int| 0 <= i < kids2.len() implies wf_elem(#[trigger] kids2[i]) by {
                assert(m_fits(f.children[i], env, silent));
                lemma_m_tree_wf(f.children[i], env, silent);
            }
            assert(wf_frame(frame_of(with_kids(e, env, silent))));
        },
        GenusV::Cult(f) => {
            assert(wf_frame(f));
            assert(frame_fits(f, env, true));
            let kids2 = m_kids(f.children, env, true);
            assert forall|i: int| 0 <= i < kids2.len() implies wf_elem(#[trigger] kids2[i]) by {
                assert(m_fits(f.children[i], env, true));
                lemma_m_tree_wf(f.children[i], env, true);
            }
            assert(wf_frame(frame_of(with_kids(e, env, silent))));
        },
        GenusV::Img(im) => {
            if !env.images.contains_key(im.src) {
                lemma_m_tree_wf(*im.fallback, env, true);
            }
        },
        _ => {},
    }
}

/// After the children are measured, the node's own sums fit.
pub proof fn lemma_with_kids_fits(e: ElementV, env: EnvV, silent: bool)
    requires
        m_fits(e, env, silent),
        silent || !outside_window(e.bound, env.win),
    ensures
        own_fits(with_kids(e, env, silent), env),
{
    match e.genus {
        GenusV::Frame(f) => {
            assert(frame_fits(f, env, silent));
            assert(frame_own_fits(frame_of(with_kids(e, env, silent))));
        },
        GenusV::Float(f) => {
            assert(frame_fits(f, env, silent));
            assert(frame_own_fits(frame_of(with_kids(e, env, silent))));
        },
        GenusV::Cult(f) => {
            assert(frame_fits(f, env, true));
            assert(frame_own_fits(frame_of(with_kids(e, env, silent))));
        },
        _ => {},
    }
}

/// The measure pass. Fires the node's listener (even on a culled node),
/// then, unless the previous-frame box lies entirely outside the viewport,
/// measures the children depth-first and computes the node's own box.
/// Whatever listeners enqueue is appended to the frame's signal queue;
/// boxes do not depend on them.
pub fn first_pass<L: Listeners>(
    element: &mut Element,
    cache: &mut Cache,
    listeners: &mut L,
    sheet: &crate::style::Sheet,
)
    requires
        wf_elem(old(element).deep()),
        old(cache).wf(),
        sheet.wf(),
        m_fits(old(element).deep(), env_of(*old(cache), *sheet), false),
    ensures
        final(element).deep() == m_tree(old(element).deep(), env_of(*old(cache), *sheet), false),
        wf_elem(final(element).deep()),
        final(cache).io.window_size == old(cache).io.window_size,
        final(cache).io.input@ == old(cache).io.input@,
        final(cache).io.scroll == old(cache).io.scroll,
        final(cache).image == old(cache).image,
        final(cache).font == old(cache).font,
        old(cache).io.queue@.is_prefix_of(final(cache).io.queue@),
        final(cache).wf(),
    decreases *old(element), 1int,
{
    let ghost env = env_of(*old(cache), *sheet);
    let ghost o = old(element).deep();
    let ghost oe = *old(element);
    proof {
        lemma_env_wf(*old(cache), *sheet);
    }
    let lid = element.listener;
    match lid {
        Some(id) => {
            let sig = listeners.notify(id, element, &cache.io);
            match sig {
                Some(s) => {
                    cache.io.queue.push(s);
                    proof {
                        assert(old(cache).io.queue@.is_prefix_of(cache.io.queue@));
                    }
                },
                None => {},
            }
        },
        None => {},
    }
    let inside = cache.inside_window(&element.bound);
    if !inside {
        return ;
    }
    match &mut element.genus {
        Genus::Frame(f) => {
            proof {
                assert(frame_fits(o.genus->Frame_0, env, false));
                assert(o.genus->Frame_0 == oe.genus->Frame_0.deep());
            }
            measure_kids::<L>(f, cache, listeners, sheet, Ghost(oe), Ghost(env));
        },
        Genus::Float(f) => {
            proof {
                assert(frame_fits(o.genus->Float_0, env, false));
                assert(o.genus->Float_0 == oe.genus->Float_0.deep());
            }
            measure_kids::<L>(f, cache, listeners, sheet, Ghost(oe), Ghost(env));
        },
        Genus::Cult(f) => {
            proof {
                assert(frame_fits(o.genus->Cult_0, env, true));
                assert(o.genus->Cult_0 == oe.genus->Cult_0.deep());
            }
            measure_kids_silent(f, cache, sheet, Ghost(oe), Ghost(env));
        },
        Genus::Img(im) => {
            let hit = cache.image.load(im.src);
            match hit {
                Some(_) => {},
                None => {
                    proof {
                        assert(wf_elem(*o.genus->Img_0.fallback));
                        assert(m_fits(*o.genus->Img_0.fallback, env, true));
                        assert(decreases_to!(oe => *oe.genus->Img_0.fallback));
                    }
                    silent_first_pass(&mut im.fallback, cache, sheet);
                },
            }
        },
        Genus::Text(_) => {},
        Genus::Input(_) => {},
    }
    proof {
        let wk = with_kids(o, env, false);
        let nv = element.deep();
        match o.genus {
            GenusV::Frame(f) => {
                assert(nv =~~= wk);
            },
            GenusV::Float(f) => {
                assert(nv =~~= wk);
            },
            GenusV::Cult(f) => {
                assert(nv =~~= wk);
            },
            GenusV::Text(t) => {
                assert(nv =~~= wk);
            },
            GenusV::Img(im) => {
                assert(nv =~~= wk);
            },
            GenusV::Input(ed) => {
                assert(nv =~~= wk);
            },
        }
        assert(wf_elem(wk)) by {
            lemma_with_kids_wf(o, env, false);
        }
        assert(own_fits(wk, env)) by {
            lemma_with_kids_fits(o, env, false);
        }
        assert(env_of(*cache, *sheet) == env);
    }
    measure_node(element, cache, sheet);
    proof {
        lemma_m_decompose(o, env, false);
        lemma_m_tree_wf(o, env, false);
    }
}

/// Measures every child of a container with listeners live, in order.
fn measure_kids<L: Listeners>(
    f: &mut Frame,
    cache: &mut Cache,
    listeners: &mut L,
    sheet: &crate::style::Sheet,
    Ghost(oe): Ghost<Element>,
    Ghost(env): Ghost<EnvV>,
)
    requires
        env == env_of(*old(cache), *sheet),
        old(cache).wf(),
        sheet.wf(),
        wf_frame(old(f).deep()),
        forall|i: int|
            0 <= i < old(f).deep().children.len() ==> m_fits(
                #[trigger] old(f).deep().children[i],
                env,
                false,
            ),
        is_container(oe),
        frame_payload(oe) == *old(f),
    ensures
        final(f).deep().children == m_kids(old(f).deep().children, env, false),
        final(f).size == old(f).size,
        final(f).ceil == old(f).ceil,
        final(f).gravity == old(f).gravity,
        final(f).overflow == old(f).overflow,
        final(f).child_offset == old(f).child_offset,
        final(f).style == old(f).style,
        wf_frame(final(f).deep()),
        final(cache).io.window_size == old(cache).io.window_size,
        final(cache).io.input@ == old(cache).io.input@,
        final(cache).io.scroll == old(cache).io.scroll,
        final(cache).image == old(cache).image,
        final(cache).font == old(cache).font,
        old(cache).io.queue@.is_prefix_of(final(cache).io.queue@),
        final(cache).wf(),
    decreases oe, 0int,
{
    let ghost f0 = old(f).deep();
    let n = f.children.len();
    let mut i: usize = 0;
    while i < n
        invariant
            env == env_of(*cache, *sheet),
            cache.wf(),
            sheet.wf(),
            cache.io.window_size == old(cache).io.window_size,
            cache.io.input@ == old(cache).io.input@,
            cache.io.scroll == old(cache).io.scroll,
            cache.image == old(cache).image,
            cache.font == old(cache).font,
            old(cache).io.queue@.is_prefix_of(cache.io.queue@),
            n == f.children@.len(),
            n == f0.children.len(),
            f0 == old(f).deep(),
            i <= n,
            f.size == old(f).size,
            f.ceil == old(f).ceil,
            f.gravity == old(f).gravity,
            f.overflow == old(f).overflow,
            f.child_offset == old(f).child_offset,
            f.style == old(f).style,
            forall|j: int| 0 <= j < f0.children.len() ==> wf_elem(#[trigger] f0.children[j]),
            forall|j: int|
                0 <= j < f0.children.len() ==> m_fits(#[trigger] f0.children[j], env, false),
            forall|j: int| i <= j < n ==> f.children@[j] == old(f).children@[j],
            forall|j: int|
                0 <= j < i ==> (#[trigger] f.children@[j].deep()) == m_tree(
                    f0.children[j],
                    env,
                    false,
                ),
            forall|j: int| 0 <= j < i ==> wf_elem(#[trigger] f.children@[j].deep()),
            is_container(oe),
            frame_payload(oe) == *old(f),
        decreases n - i,
    {
        proof {
            assert(f.children@[i as int] == old(f).children@[i as int]);
            assert(f.children@[i as int].deep() == f0.children[i as int]);
            assert(wf_elem(f.children@[i as int].deep()));
            assert(m_fits(f.children@[i as int].deep(), env, false));
            if oe.genus is Frame {
                assert(decreases_to!(oe => oe.genus->Frame_0.children@[i as int]));
            } else if oe.genus is Float {
                assert(decreases_to!(oe => oe.genus->Float_0.children@[i as int]));
            } else {
                assert(decreases_to!(oe => oe.genus->Cult_0.children@[i as int]));
            }
            assert(frame_payload(oe).children@[i as int] == f.children@[i as int]);
        }
        let ghost pre_queue = cache.io.queue@;
        first_pass::<L>(&mut f.children[i], cache, listeners, sheet);
        proof {
            assert(old(cache).io.queue@.is_prefix_of(cache.io.queue@));
        }
        i += 1;
    }
    proof {
        let fin = f.deep();
        assert(fin.children.len() == m_kids(f0.children, env, false).len());
        assert forall|j: int| 0 <= j < fin.children.len() implies fin.children[j] == m_kids(
            f0.children,
            env,
            false,
        )[j] by {
            assert(fin.children[j] == f.children@[j].deep());
        }
        assert(fin.children =~= m_kids(f0.children, env, false));
        assert(wf_frame(f0));
        assert forall|j: int| 0 <= j < fin.children.len() implies wf_elem(
            #[trigger] fin.children[j],
        ) by {
            assert(fin.children[j] == f.children@[j].deep());
        }
        assert(wf_frame(fin));
    }
}

// ------------------------------------------------------------------
// Laws of the measure pass.
// ------------------------------------------------------------------

/// Law: the measure pass is a function of the tree and the environment
/// alone. With a fixed tree, fixed environment and unchanged caches,
/// repeated passes compute identical boxes.
pub proof fn lemma_measure_deterministic(
    e1: ElementV,
    e2: ElementV,
    env1: EnvV,
    env2: EnvV,
    silent: bool,
)
    requires
        e1 == e2,
        env1 == env2,
    ensures
        m_tree(e1, env1, silent) == m_tree(e2, env2, silent),
{
}

/// Law: a fit-content container's extent along an axis is exactly the sum
/// of its measured children's extents plus their insets on that axis, and
/// zero when it has no children (stated for an unceiled container; a
/// ceiling may clamp the sum).
pub proof fn lemma_fit_content_additivity(e: ElementV, env: EnvV, silent: bool)
    requires
        wf_elem(e),
        env_wf(env),
        m_fits(e, env, silent),
        silent || !outside_window(e.bound, env.win),
        e.genus is Frame,
        frame_of(e).ceil is None,
    ensures
        frame_of(e).size.x is Child ==> ({
            let kids2 = m_kids(frame_of(e).children, env, silent);
            m_tree(e, env, silent).bound.dim.x == kids_w(kids2, kids2.len() as int)
        }),
        frame_of(e).size.y is Child ==> ({
            let kids2 = m_kids(frame_of(e).children, env, silent);
            m_tree(e, env, silent).bound.dim.y == kids_h(kids2, kids2.len() as int)
        }),
        frame_of(e).size.x is Child && frame_of(e).children.len() == 0 ==> m_tree(
            e,
            env,
            silent,
        ).bound.dim.x == 0,
        frame_of(e).size.y is Child && frame_of(e).children.len() == 0 ==> m_tree(
            e,
            env,
            silent,
        ).bound.dim.y == 0,
{
    let f = frame_of(e);
    let kids2 = m_kids(f.children, env, silent);
    let n = f.children.len() as int;
    assert(frame_fits(f, env, silent));
    assert(wf_frame(f));
    assert forall|i: int| 0 <= i < kids2.len() implies wf_bound((#[trigger] kids2[i]).bound) by {
        assert(m_fits(f.children[i], env, silent));
        assert(wf_elem(f.children[i]));
        lemma_m_tree_wf(f.children[i], env, silent);
    }
    lemma_kids_nonneg(kids2, n);
    let r = m_frame(f, env, silent);
    assert(m_tree(e, env, silent).bound.dim.x == r.1 as i64);
    assert(m_tree(e, env, silent).bound.dim.y == r.2 as i64);
}

/// Law: ceiling monotonicity. A resolved ceiling below the unclamped size
/// clamps the axis to the ceiling exactly and forces the overflow policy
/// to clip; a ceiling at or above it leaves the size alone, and if neither
/// axis clamps, the overflow policy is untouched.
pub proof fn lemma_ceiling_monotonic(f: FrameV, env: EnvV)
    ensures
        ({
            let n = f.children.len() as int;
            let raw_x = axis_len(f.size.x, env.win.x as int, kids_w(f.children, n), env);
            let raw_y = axis_len(f.size.y, env.win.y as int, kids_h(f.children, n), env);
            let cx = match f.ceil {
                Some(c) => ceil_len(c.x, env.win.x as int, env),
                None => None,
            };
            let cy = match f.ceil {
                Some(c) => ceil_len(c.y, env.win.y as int, env),
                None => None,
            };
            let r = frame_result(f, env);
            &&& (match cx {
                Some(c) => (c < raw_x ==> r.0 == c && r.2 is Clip) && (c >= raw_x ==> r.0 == raw_x),
                None => r.0 == raw_x,
            })
            &&& (match cy {
                Some(c) => (c < raw_y ==> r.1 == c && r.2 is Clip) && (c >= raw_y ==> r.1 == raw_y),
                None => r.1 == raw_y,
            })
            &&& ({
                let clamp_x = match cx {
                    Some(c) => c < raw_x,
                    None => false,
                };
                let clamp_y = match cy {
                    Some(c) => c < raw_y,
                    None => false,
                };
                !clamp_x && !clamp_y ==> r.2 == f.overflow
            })
        }),
{
}

/// Law: an image node whose source is not in the asset cache measures to
/// exactly the extent its fallback subtree measures to.
pub proof fn lemma_fallback_substitution(e: ElementV, env: EnvV, silent: bool)
    requires
        e.genus is Img,
        !env.images.contains_key(e.genus->Img_0.src),
        silent || !outside_window(e.bound, env.win),
    ensures
        m_tree(e, env, silent).bound.dim == m_tree(*e.genus->Img_0.fallback, env, true).bound.dim,
{
}

/// Law: a node whose previous-frame box lies entirely outside the viewport
/// is skipped whole by the non-silent measure pass: nothing of it changes.
pub proof fn lemma_culling_skips(e: ElementV, env: EnvV)
    requires
        outside_window(e.bound, env.win),
    ensures
        m_tree(e, env, false) == e,
{
}

/// Law: the silent pass never skips: it always computes, wherever the
/// previous-frame box lies.
pub proof fn lemma_silent_never_skips(e: ElementV, env: EnvV)
    ensures
        m_tree(e, env, true) == m_compute(e, env, true),
{
}

// ------------------------------------------------------------------
// An executable check of the measure pass's fit conditions, so an embedder
// can establish them (and fail fast) before calling the pass.
// ------------------------------------------------------------------

/// Dry-runs the measurement of one subtree: the extent and insets the
/// measure pass would write, or nothing exactly when some fit-content sum
/// along the way would exceed the extent bound.
pub fn measure_fits_check(
    e: &Element,
    cache: &Cache,
    sheet: &crate::style::Sheet,
    silent: bool,
) -> (r: Option<(Vec2, Pad)>)
    requires
        wf_elem(e.deep()),
        cache.wf(),
        sheet.wf(),
    ensures
        r is Some <==> m_fits(e.deep(), env_of(*cache, *sheet), silent),
        r is Some ==> r->Some_0.0 == m_tree(e.deep(), env_of(*cache, *sheet), silent).bound.dim
            && r->Some_0.1 == m_tree(e.deep(), env_of(*cache, *sheet), silent).bound.shadow,
    decreases *e, 1int,
{
    let ghost env = env_of(*cache, *sheet);
    let ghost o = e.deep();
    let ghost oe = *e;
    proof {
        lemma_env_wf(*cache, *sheet);
    }
    if !silent {
        let inside = cache.inside_window(&e.bound);
        if !inside {
            return Some((e.bound.dim, e.bound.shadow));
        }
    }
    let pv = match &e.genus {
        Genus::Frame(f) => f.style.pad,
        Genus::Float(f) => f.style.pad,
        Genus::Cult(f) => f.style.pad,
        Genus::Text(t) => t.style.pad,
        Genus::Img(i) => i.style.pad,
        Genus::Input(ed) => ed.pad,
    };
    let pad = sheet.resolve_pad(pv);
    let d: Option<Vec2> = match &e.genus {
        Genus::Frame(f) => {
            proof {
                assert(wf_frame(o.genus->Frame_0));
                assert(o.genus->Frame_0 == oe.genus->Frame_0.deep());
            }
            frame_fits_dims(f, cache, sheet, silent, Ghost(oe))
        },
        Genus::Float(f) => {
            proof {
                assert(wf_frame(o.genus->Float_0));
                assert(o.genus->Float_0 == oe.genus->Float_0.deep());
            }
            frame_fits_dims(f, cache, sheet, silent, Ghost(oe))
        },
        Genus::Cult(f) => {
            proof {
                assert(wf_frame(o.genus->Cult_0));
                assert(o.genus->Cult_0 == oe.genus->Cult_0.deep());
            }
            frame_fits_dims(f, cache, sheet, true, Ghost(oe))
        },
        Genus::Text(t) => {
            let key = sheet.resolve_font(t.style.font);
            match cache.font.load_asset(key) {
                Some(m) => {
                    proof {
                        assert(wf_metrics(m));
                        assert(0 <= (t.text@.len() as int) * (m.advance as int)
                            <= 0x1_0000_0000_0000) by (nonlinear_arith)
                            requires
                                0 <= t.text@.len() <= 0x100_0000,
                                0 <= m.advance <= 0x100_0000,
                        ;
                    }
                    Some(Vec2 { x: (t.text.len() as i64) * m.advance, y: m.height })
                },
                None => Some(e.bound.dim),
            }
        },
        Genus::Img(im) => {
            match cache.image.load(im.src) {
                Some(di) => Some(Vec2 { x: di.w, y: di.h }),
                None => {
                    proof {
                        assert(wf_elem(*o.genus->Img_0.fallback));
                        assert(decreases_to!(oe => *oe.genus->Img_0.fallback));
                    }
                    match measure_fits_check(&im.fallback, cache, sheet, true) {
                        Some((fd, _)) => Some(fd),
                        None => None,
                    }
                },
            }
        },
        Genus::Input(ed) => Some(ed.frame_size),
    };
    proof {
        if d is Some {
            lemma_m_decompose(o, env, silent);
        }
    }
    match d {
        Some(dim) => Some((dim, pad)),
        None => None,
    }
}

/// Dry-runs a container's sizing against its dry-run children: the clamped
/// extents, or nothing when a child does not fit or a fit-content sum
/// would exceed the extent bound.
fn frame_fits_dims(
    f: &Frame,
    cache: &Cache,
    sheet: &crate::style::Sheet,
    kid_silent: bool,
    Ghost(oe): Ghost<Element>,
) -> (r: Option<Vec2>)
    requires
        wf_frame(f.deep()),
        cache.wf(),
        sheet.wf(),
        is_container(oe),
        frame_payload(oe) == *f,
    ensures
        r is Some <==> frame_fits(f.deep(), env_of(*cache, *sheet), kid_silent),
        r is Some ==> {
            let m = m_frame(f.deep(), env_of(*cache, *sheet), kid_silent);
            r->Some_0.x == m.1 && r->Some_0.y == m.2
        },
    decreases oe, 0int,
{
    let ghost env = env_of(*cache, *sheet);
    let ghost f0 = f.deep();
    let ghost kids2 = m_kids(f0.children, env, kid_silent);
    proof {
        lemma_env_wf(*cache, *sheet);
    }
    let need_x = match f.size.x {
        Size::Child => true,
        _ => false,
    };
    let need_y = match f.size.y {
        Size::Child => true,
        _ => false,
    };
    let n = f.children.len();
    let mut acc_x: i64 = 0;
    let mut acc_y: i64 = 0;
    let mut i: usize = 0;
    while i < n
        invariant
            env == env_of(*cache, *sheet),
            cache.wf(),
            sheet.wf(),
            env_wf(env),
            n == f.children@.len(),
            n == f0.children.len(),
            f0 == f.deep(),
            kids2 == m_kids(f0.children, env, kid_silent),
            i <= n,
            wf_frame(f0),
            forall|j: int| 0 <= j < f0.children.len() ==> wf_elem(#[trigger] f0.children[j]),
            forall|j: int| 0 <= j < i ==> m_fits(#[trigger] f0.children[j], env, kid_silent),
            forall|j: int| 0 <= j < i ==> wf_bound((#[trigger] kids2[j]).bound),
            need_x == (f0.size.x is Child),
            need_y == (f0.size.y is Child),
            need_x ==> acc_x == kids_w(kids2, i as int),
            need_y ==> acc_y == kids_h(kids2, i as int),
            0 <= acc_x <= DIM_MAX,
            0 <= acc_y <= DIM_MAX,
            is_container(oe),
            frame_payload(oe) == *f,
        decreases n - i,
    {
        proof {
            assert(f.children@[i as int].deep() == f0.children[i as int]);
            assert(wf_elem(f0.children[i as int]));
            if oe.genus is Frame {
                assert(decreases_to!(oe => oe.genus->Frame_0.children@[i as int]));
            } else if oe.genus is Float {
                assert(decreases_to!(oe => oe.genus->Float_0.children@[i as int]));
            } else {
                assert(decreases_to!(oe => oe.genus->Cult_0.children@[i as int]));
            }
        }
        let c = match measure_fits_check(&f.children[i], cache, sheet, kid_silent) {
            Some(c) => c,
            None => {
                proof {
                    assert(!m_fits(f0.children[i as int], env, kid_silent));
                    assert(!frame_fits(f0, env, kid_silent));
                }
                return None;
            },
        };
        proof {
            lemma_m_tree_wf(f0.children[i as int], env, kid_silent);
            assert(kids2[i as int] == m_tree(f0.children[i as int], env, kid_silent));
            assert(kids_w(kids2, i + 1) == kids_w(kids2, i as int) + contrib_x(kids2[i as int]));
            assert(kids_h(kids2, i + 1) == kids_h(kids2, i as int) + contrib_y(kids2[i as int]));
        }
        let cx = c.0.x + c.1.left + c.1.right;
        let cy = c.0.y + c.1.top + c.1.low;
        if need_x {
            if acc_x > DIM_MAX - cx {
                proof {
                    lemma_kids_fits_partial(kids2, f0, env, kid_silent, i + 1);
                }
                return None;
            }
            acc_x = acc_x + cx;
        }
        if need_y {
            if acc_y > DIM_MAX - cy {
                proof {
                    lemma_kids_fits_partial(kids2, f0, env, kid_silent, i + 1);
                }
                return None;
            }
            acc_y = acc_y + cy;
        }
        i += 1;
    }
    proof {
        assert forall|j: int| 0 <= j < f0.children.len() implies m_fits(
            #[trigger] f0.children[j],
            env,
            kid_silent,
        ) by {}
        assert(frame_fits(f0, env, kid_silent));
    }
    let win = cache.io.window_size;
    let raw_x: i64 = match f.size.x {
        Size::Window => win.x,
        Size::Man(v) => v,
        Size::Func(fo) => {
            proof {
                assert(wf_size(f0.size.x));
            }
            fo.eval(win)
        },
        Size::Child => acc_x,
    };
    let raw_y: i64 = match f.size.y {
        Size::Window => win.y,
        Size::Man(v) => v,
        Size::Func(fo) => {
            proof {
                assert(wf_size(f0.size.y));
            }
            fo.eval(win)
        },
        Size::Child => acc_y,
    };
    let mut dim_x = raw_x;
    let mut dim_y = raw_y;
    match f.ceil {
        Some(c) => {
            let cx: Option<i64> = match c.x {
                Size::Window => Some(win.x),
                Size::Man(v) => Some(v),
                Size::Func(fo) => {
                    proof {
                        assert(wf_size_pair_of(f0.ceil));
                    }
                    Some(fo.eval(win))
                },
                Size::Child => None,
            };
            match cx {
                Some(cv) => {
                    if cv < dim_x {
                        dim_x = cv;
                    }
                },
                None => {},
            }
            let cy: Option<i64> = match c.y {
                Size::Window => Some(win.y),
                Size::Man(v) => Some(v),
                Size::Func(fo) => {
                    proof {
                        assert(wf_size_pair_of(f0.ceil));
                    }
                    Some(fo.eval(win))
                },
                Size::Child => None,
            };
            match cy {
                Some(cv) => {
                    if cv < dim_y {
                        dim_y = cv;
                    }
                },
                None => {},
            }
        },
        None => {},
    }
    Some(Vec2 { x: dim_x, y: dim_y })
}

/// A partial fit-content sum already over the bound condemns the whole
/// container on that axis.
proof fn lemma_kids_fits_partial(
    kids2: Seq<ElementV>,
    f0: FrameV,
    env: EnvV,
    kid_silent: bool,
    k: int,
)
    requires
        kids2 == m_kids(f0.children, env, kid_silent),
        forall|j: int| 0 <= j < f0.children.len() ==> wf_elem(#[trigger] f0.children[j]),
        env_wf(env),
        0 <= k <= kids2.len(),
        (f0.size.x is Child && kids_w(kids2, k) > DIM_MAX) || (f0.size.y is Child && kids_h(
            kids2,
            k,
        ) > DIM_MAX),
    ensures
        !frame_fits(f0, env, kid_silent),
{
    if frame_fits(f0, env, kid_silent) {
        assert forall|j: int| 0 <= j < kids2.len() implies wf_bound(
            (#[trigger] kids2[j]).bound,
        ) by {
            assert(m_fits(f0.children[j], env, kid_silent));
            lemma_m_tree_wf(f0.children[j], env, kid_silent);
            assert(kids2[j] == m_tree(f0.children[j], env, kid_silent));
        }
        lemma_kids_w_bounds(kids2, k);
        assert(false);
    }
}

/// The shape the measure pass leaves a tree in when no subtree was skipped
/// by culling: every node (silent subtrees aside) lies at least partly in
/// the viewport, and every node's box is exactly what its own sizing
/// computes from its current children.
pub open spec fn m_fixed(t: ElementV, env: EnvV, silent: bool) -> bool
    decreases t, 1int,
{
    &&& (silent || !outside_window(t.bound, env.win))
    &&& own_box(t, env) == t
    &&& match t.genus {
        GenusV::Frame(f) => forall|i: int|
            0 <= i < f.children.len() ==> m_fixed(#[trigger] f.children[i], env, silent),
        GenusV::Float(f) => forall|i: int|
            0 <= i < f.children.len() ==> m_fixed(#[trigger] f.children[i], env, silent),
        GenusV::Cult(f) => forall|i: int|
            0 <= i < f.children.len() ==> m_fixed(#[trigger] f.children[i], env, true),
        GenusV::Img(im) => env.images.contains_key(im.src) || m_fixed(*im.fallback, env, true),
        _ => true,
    }
}

/// Law: a measured tree in the fixed shape is a fixpoint of the measure
/// pass — re-measuring computes bit-identical boxes. (A subtree that the
/// first measure skipped off-screen and a later arrange moved into view is
/// not in this shape: the next measure computes it afresh.)
pub proof fn lemma_measure_fixpoint(t: ElementV, env: EnvV, silent: bool)
    requires
        m_fixed(t, env, silent),
    ensures
        m_tree(t, env, silent) == t,
    decreases t,
{
    lemma_m_decompose(t, env, silent);
    match t.genus {
        GenusV::Frame(f) => {
            assert forall|i: int| 0 <= i < f.children.len() implies m_tree(
                #[trigger] f.children[i],
                env,
                silent,
            ) == f.children[i] by {
                lemma_measure_fixpoint(f.children[i], env, silent);
            }
            assert(m_kids(f.children, env, silent) =~= f.children);
            assert(with_kids(t, env, silent) =~~= t);
        },
        GenusV::Float(f) => {
            assert forall|i: int| 0 <= i < f.children.len() implies m_tree(
                #[trigger] f.children[i],
                env,
                silent,
            ) == f.children[i] by {
                lemma_measure_fixpoint(f.children[i], env, silent);
            }
            assert(m_kids(f.children, env, silent) =~= f.children);
            assert(with_kids(t, env, silent) =~~= t);
        },
        GenusV::Cult(f) => {
            assert forall|i: int| 0 <= i < f.children.len() implies m_tree(
                #[trigger] f.children[i],
                env,
                true,
            ) == f.children[i] by {
                lemma_measure_fixpoint(f.children[i], env, true);
            }
            assert(m_kids(f.children, env, true) =~= f.children);
            assert(with_kids(t, env, silent) =~~= t);
        },
        GenusV::Img(im) => {
            if !env.images.contains_key(im.src) {
                lemma_measure_fixpoint(*im.fallback, env, true);
                assert(with_kids(t, env, silent) =~~= t);
            } else {
                assert(with_kids(t, env, silent) == t);
            }
        },
        _ => {
            assert(with_kids(t, env, silent) == t);
        },
    }
}

} // verus!
