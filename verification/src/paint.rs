use vstd::prelude::*;
use crate::element::{Cursor, CursorState, EditV, Element, ElementV, FrameV, Genus, GenusV, Gravity, ImageV, wf_elem, wf_frame, wf_edit, wf_line};
use crate::geom::{Bound, Overflow, Pad, Vec2, DIM_MAX, LIT_MAX, POS_MAX, outside_window, wf_bound};
use crate::highlight::{SpanV, line_spans, render_line};
use crate::layout::{Cache, EnvV, contrib_x, contrib_y, env_of, env_wf, kids_w, kids_h, frame_of, lemma_kids_nonneg, lemma_kids_w_bounds, lemma_env_wf};
use crate::style::{Color, ColorVal, resolve_color_in, resolve_font_in};

verus! {

// ------------------------------------------------------------------
// The drawing surface. The paint pass issues a sequence of plain commands;
// the embedding renderer interprets them. Rotation is carried as an angle
// in degrees on the command itself, pivoting about the command's own box
// center (for glyph runs, about the given pivot point). `Save`/`Restore`
// scope a `Clip` to the commands between them and are always balanced.
// ------------------------------------------------------------------

/// One drawing command.
#[derive(Clone, PartialEq, Eq, Debug)]
pub enum Cmd {
    Save,
    Restore,
    /// Intersect the clip with this (possibly rotated) rectangle.
    Clip { x: i64, y: i64, w: i64, h: i64, angle: i64 },
    /// A filled rectangle.
    Rect { x: i64, y: i64, w: i64, h: i64, angle: i64, color: Color },
    /// An image blit into a rectangle.
    Blit { src: u64, x: i64, y: i64, w: i64, h: i64, angle: i64, color: Color },
    /// A glyph run at a baseline position, rotated about the given pivot.
    Glyphs {
        bytes: Vec<u8>,
        x: i64,
        y: i64,
        font: u64,
        color: Color,
        angle: i64,
        px: i64,
        py: i64,
    },
}

/// A drawing command, mathematically.
#[verifier::ext_equal]
pub enum CmdV {
    Save,
    Restore,
    Clip { x: int, y: int, w: int, h: int, angle: int },
    Rect { x: int, y: int, w: int, h: int, angle: int, color: Color },
    Blit { src: u64, x: int, y: int, w: int, h: int, angle: int, color: Color },
    Glyphs {
        bytes: Seq<u8>,
        x: int,
        y: int,
        font: u64,
        color: Color,
        angle: int,
        px: int,
        py: int,
    },
}

pub open spec fn cmd_v(c: Cmd) -> CmdV {
    match c {
        Cmd::Save => CmdV::Save,
        Cmd::Restore => CmdV::Restore,
        Cmd::Clip { x, y, w, h, angle } => CmdV::Clip {
            x: x as int,
            y: y as int,
            w: w as int,
            h: h as int,
            angle: angle as int,
        },
        Cmd::Rect { x, y, w, h, angle, color } => CmdV::Rect {
            x: x as int,
            y: y as int,
            w: w as int,
            h: h as int,
            angle: angle as int,
            color,
        },
        Cmd::Blit { src, x, y, w, h, angle, color } => CmdV::Blit {
            src,
            x: x as int,
            y: y as int,
            w: w as int,
            h: h as int,
            angle: angle as int,
            color,
        },
        Cmd::Glyphs { bytes, x, y, font, color, angle, px, py } => CmdV::Glyphs {
            bytes: bytes@,
            x: x as int,
            y: y as int,
            font,
            color,
            angle: angle as int,
            px: px as int,
            py: py as int,
        },
    }
}

/// The recording surface the paint pass draws onto.
pub struct Canvas {
    pub ops: Vec<Cmd>,
}

impl Canvas {
    pub open spec fn view_ops(self) -> Seq<CmdV> {
        Seq::new(
            self.ops@.len(),
            |i: int|
                if 0 <= i < self.ops@.len() {
                    cmd_v(self.ops@[i])
                } else {
                    CmdV::Save
                },
        )
    }

    pub fn new() -> (r: Canvas)
        ensures
            r.ops@ == Seq::<Cmd>::empty(),
            r.view_ops() == Seq::<CmdV>::empty(),
    {
        let r = Canvas { ops: Vec::new() };
        proof {
            assert(r.view_ops() =~= Seq::<CmdV>::empty());
        }
        r
    }
}

impl View for Canvas {
    type V = Seq<CmdV>;

    open spec fn view(&self) -> Seq<CmdV> {
        self.view_ops()
    }
}

// ------------------------------------------------------------------
// The arrange-and-paint pass, mathematically. The parent hands each node
// its position; a container then walks its children along the gravity
// axis, a running offset advancing by leading inset, extent and trailing
// inset, and hands each child its place. A node whose freshly positioned
// box lies entirely outside the viewport is skipped, subtree and paint
// both. A measurement-only container contributes nothing to paint and its
// subtree keeps its stale boxes.
// ------------------------------------------------------------------

/// The box a node gets when the pass places it at `(px, py)`.
pub open spec fn placed_bound(b: Bound, px: int, py: int) -> Bound {
    Bound {
        pos: Vec2 { x: px as i64, y: py as i64 },
        dim: b.dim,
        shadow: b.shadow,
        angle: b.angle,
    }
}

/// Where child `i` of a container with content origin `(bx, by)` is placed.
pub open spec fn child_place(f: FrameV, bx: int, by: int, i: int) -> (int, int) {
    let c = f.children[i];
    match f.gravity {
        Gravity::Horizontal => (
            bx + kids_w(f.children, i) + c.bound.shadow.left,
            by + c.bound.shadow.top,
        ),
        Gravity::Vertical => (
            bx + c.bound.shadow.left,
            by + kids_h(f.children, i) + c.bound.shadow.top,
        ),
    }
}

/// The subtree after the pass places it at `(px, py)`.
pub open spec fn a_tree(e: ElementV, env: EnvV, px: int, py: int) -> ElementV
    decreases e, 1int,
{
    let b2 = placed_bound(e.bound, px, py);
    if outside_window(b2, env.win) {
        ElementV { genus: e.genus, bound: b2, listener: e.listener }
    } else {
        match e.genus {
            GenusV::Frame(f) => ElementV {
                genus: GenusV::Frame(a_frame(f, env, b2, px, py)),
                bound: b2,
                listener: e.listener,
            },
            GenusV::Float(f) => ElementV {
                genus: GenusV::Float(a_frame(f, env, b2, px, py)),
                bound: b2,
                listener: e.listener,
            },
            GenusV::Img(im) => if env.images.contains_key(im.src) {
                ElementV { genus: e.genus, bound: b2, listener: e.listener }
            } else {
                ElementV {
                    genus: GenusV::Img(
                        ImageV {
                            src: im.src,
                            fallback: Box::new(a_tree(*im.fallback, env, px, py)),
                            style: im.style,
                        },
                    ),
                    bound: b2,
                    listener: e.listener,
                }
            },
            _ => ElementV { genus: e.genus, bound: b2, listener: e.listener },
        }
    }
}

/// A container's payload after its children are placed and arranged.
pub open spec fn a_frame(f: FrameV, env: EnvV, b2: Bound, px: int, py: int) -> FrameV
    decreases f, 0int,
{
    let bx = px + f.child_offset.x;
    let by = py + f.child_offset.y;
    FrameV {
        children: Seq::new(
            f.children.len(),
            |i: int|
                if 0 <= i < f.children.len() {
                    a_tree(f.children[i], env, child_place(f, bx, by, i).0, child_place(f, bx, by, i).1)
                } else {
                    crate::layout::blank_elem()
                },
        ),
        size: f.size,
        ceil: f.ceil,
        gravity: f.gravity,
        overflow: f.overflow,
        child_offset: f.child_offset,
        style: f.style,
    }
}

/// The filled rectangle a container or cursor paints.
pub open spec fn rect_cmd(b2: Bound, color: Color) -> CmdV {
    CmdV::Rect {
        x: b2.pos.x as int,
        y: b2.pos.y as int,
        w: b2.dim.x as int,
        h: b2.dim.y as int,
        angle: b2.angle as int,
        color,
    }
}

/// Every command the subtree paints when placed at `(px, py)`.
pub open spec fn p_ops(e: ElementV, env: EnvV, px: int, py: int) -> Seq<CmdV>
    decreases e, 2int, 0int,
{
    let b2 = placed_bound(e.bound, px, py);
    if outside_window(b2, env.win) {
        Seq::empty()
    } else {
        match e.genus {
            GenusV::Frame(f) => frame_ops(f, env, b2, px, py),
            GenusV::Float(f) => frame_ops(f, env, b2, px, py),
            GenusV::Cult(f) => Seq::empty(),
            GenusV::Text(t) => text_ops(t, env, b2),
            GenusV::Img(im) => if env.images.contains_key(im.src) {
                seq![
                    CmdV::Blit {
                        src: im.src,
                        x: b2.pos.x as int,
                        y: b2.pos.y as int,
                        w: b2.dim.x as int,
                        h: b2.dim.y as int,
                        angle: b2.angle as int,
                        color: resolve_color_in(env.colors, im.style.color),
                    },
                ]
            } else {
                p_ops(*im.fallback, env, px, py)
            },
            GenusV::Input(ed) => input_ops(ed, env, b2),
        }
    }
}

/// A container's paint: its own rectangle, then a saved scope holding the
/// clip (when the container clips) and the children in order.
pub open spec fn frame_ops(f: FrameV, env: EnvV, b2: Bound, px: int, py: int) -> Seq<CmdV>
    decreases f, 1int, 0int,
{
    let clip: Seq<CmdV> = if f.overflow is Clip {
        seq![
            CmdV::Clip {
                x: b2.pos.x as int,
                y: b2.pos.y as int,
                w: b2.dim.x as int,
                h: b2.dim.y as int,
                angle: b2.angle as int,
            },
        ]
    } else {
        Seq::empty()
    };
    seq![rect_cmd(b2, resolve_color_in(env.colors, f.style.color))] + seq![CmdV::Save] + clip
        + kids_ops(f, env, px + f.child_offset.x, py + f.child_offset.y, f.children.len() as int)
        + seq![CmdV::Restore]
}

/// The first `k` children's paint, each at its place.
pub open spec fn kids_ops(f: FrameV, env: EnvV, bx: int, by: int, k: int) -> Seq<CmdV>
    decreases f, 0int, k,
{
    if k <= 0 || k > f.children.len() {
        Seq::empty()
    } else {
        kids_ops(f, env, bx, by, k - 1) + p_ops(
            f.children[k - 1],
            env,
            child_place(f, bx, by, k - 1).0,
            child_place(f, bx, by, k - 1).1,
        )
    }
}

/// A text node's paint: one glyph run on the baseline, or nothing while
/// its font is not loaded.
pub open spec fn text_ops(t: crate::element::TextV, env: EnvV, b2: Bound) -> Seq<CmdV> {
    let key = resolve_font_in(env.fonts_sheet, t.style.font);
    if env.fonts.contains_key(key) {
        seq![
            CmdV::Glyphs {
                bytes: t.text,
                x: b2.pos.x as int,
                y: b2.pos.y + env.fonts[key].ascent,
                font: key,
                color: resolve_color_in(env.colors, t.style.color),
                angle: b2.angle as int,
                px: b2.pos.x + b2.dim.x / 2,
                py: b2.pos.y + b2.dim.y / 2,
            },
        ]
    } else {
        Seq::empty()
    }
}

/// The cursor or selection rectangle of one line.
pub open spec fn cursor_ops(
    st: CursorState,
    cur: Cursor,
    env: EnvV,
    lx: int,
    ly: int,
    char_size: Vec2,
) -> Seq<CmdV> {
    match st {
        CursorState::Hidden => Seq::empty(),
        CursorState::Display { char_idx } => seq![
            CmdV::Rect {
                x: lx + char_idx * char_size.x,
                y: ly,
                w: cur.width as int,
                h: char_size.y as int,
                angle: 0,
                color: resolve_color_in(env.colors, cur.col),
            },
        ],
        CursorState::Span { start_idx, length } => seq![
            CmdV::Rect {
                x: lx + start_idx * char_size.x,
                y: ly,
                w: cur.width * length,
                h: char_size.y as int,
                angle: 0,
                color: resolve_color_in(env.colors, cur.col),
            },
        ],
    }
}

/// The glyph runs of one line's rendered spans.
pub open spec fn spans_ops(
    spans: Seq<SpanV>,
    bytes: Seq<u8>,
    env: EnvV,
    key: u64,
    lx: int,
    ly: int,
    char_w: int,
) -> Seq<CmdV> {
    Seq::new(
        spans.len(),
        |j: int|
            if 0 <= j < spans.len() {
                let sp = spans[j];
                CmdV::Glyphs {
                    bytes: if 0 <= sp.idx0 <= sp.idx1 <= bytes.len() {
                        bytes.subrange(sp.idx0, sp.idx1)
                    } else {
                        Seq::empty()
                    },
                    x: lx + sp.cell * char_w,
                    y: ly,
                    font: key,
                    color: resolve_color_in(env.colors, ColorVal::Id(sp.col)),
                    angle: 0,
                    px: lx + sp.cell * char_w,
                    py: ly,
                }
            } else {
                CmdV::Save
            },
    )
}

/// One line's paint: nothing when the line's top is outside the node's
/// box, else its cursor rectangle and its span runs.
pub open spec fn line_ops(ed: EditV, env: EnvV, b2: Bound, key: u64, k: int) -> Seq<CmdV> {
    let line = ed.lines[k];
    let lx = b2.pos.x + ed.offset.x;
    let ly = b2.pos.y + ed.offset.y + k * ed.char_size.y;
    if !b2.spec_inside_y(ly) {
        Seq::empty()
    } else {
        cursor_ops(line.cursor_state, ed.cursor, env, lx, ly, ed.char_size) + spans_ops(
            line_spans(line.ctxs, line.buffer.len() as int),
            line.buffer,
            env,
            key,
            lx,
            ly,
            ed.char_size.x as int,
        )
    }
}

/// The first `k` lines' paint.
pub open spec fn lines_ops(ed: EditV, env: EnvV, b2: Bound, key: u64, k: int) -> Seq<CmdV>
    decreases k,
{
    if k <= 0 || k > ed.lines.len() {
        Seq::empty()
    } else {
        lines_ops(ed, env, b2, key, k - 1) + line_ops(ed, env, b2, key, k - 1)
    }
}

/// An editable node's paint: a clipped scope holding, per line inside the
/// vertical viewport, the cursor rectangle and the line's rendered spans.
/// While the node's font is not loaded it paints nothing.
pub open spec fn input_ops(ed: EditV, env: EnvV, b2: Bound) -> Seq<CmdV> {
    let key = resolve_font_in(env.fonts_sheet, ed.font);
    if !env.fonts.contains_key(key) {
        Seq::empty()
    } else {
        seq![
            CmdV::Save,
            CmdV::Clip {
                x: b2.pos.x as int,
                y: b2.pos.y as int,
                w: b2.dim.x as int,
                h: b2.dim.y as int,
                angle: b2.angle as int,
            },
        ] + lines_ops(ed, env, b2, key, ed.lines.len() as int) + seq![CmdV::Restore]
    }
}

/// The machine-limit conditions of the arrange-and-paint pass: every
/// container's content origin and fit sums keep the children's places
/// within the position bound, along the path the pass takes.
pub open spec fn p_fits(e: ElementV, env: EnvV, px: int, py: int) -> bool
    decreases e, 2int, 0int,
{
    let b2 = placed_bound(e.bound, px, py);
    &&& -POS_MAX <= px <= POS_MAX
    &&& -POS_MAX <= py <= POS_MAX
    &&& if outside_window(b2, env.win) {
        true
    } else {
        match e.genus {
            GenusV::Frame(f) => frame_p_fits(f, env, px, py),
            GenusV::Float(f) => frame_p_fits(f, env, px, py),
            GenusV::Cult(f) => true,
            GenusV::Text(t) => true,
            GenusV::Img(im) => env.images.contains_key(im.src) || p_fits(
                *im.fallback,
                env,
                px,
                py,
            ),
            GenusV::Input(ed) => true,
        }
    }
}

pub open spec fn frame_p_fits(f: FrameV, env: EnvV, px: int, py: int) -> bool
    decreases f, 1int, 0int,
{
    let bx = px + f.child_offset.x;
    let by = py + f.child_offset.y;
    let n = f.children.len() as int;
    &&& -POS_MAX <= bx
    &&& bx + kids_w(f.children, n) <= POS_MAX
    &&& -POS_MAX <= by
    &&& by + kids_h(f.children, n) <= POS_MAX
    &&& forall|i: int|
        0 <= i < f.children.len() ==> p_fits(
            #[trigger] f.children[i],
            env,
            child_place(f, bx, by, i).0,
            child_place(f, bx, by, i).1,
        )
}

/// Arranging keeps the tree well formed and does not touch extents,
/// insets, rotation or configuration.
pub proof fn lemma_a_tree_wf(e: ElementV, env: EnvV, px: int, py: int)
    requires
        wf_elem(e),
        env_wf(env),
        p_fits(e, env, px, py),
    ensures
        wf_elem(a_tree(e, env, px, py)),
        a_tree(e, env, px, py).bound.dim == e.bound.dim,
        a_tree(e, env, px, py).bound.shadow == e.bound.shadow,
        a_tree(e, env, px, py).bound.angle == e.bound.angle,
        a_tree(e, env, px, py).bound.pos.x == px,
        a_tree(e, env, px, py).bound.pos.y == py,
    decreases e,
{
    let b2 = placed_bound(e.bound, px, py);
    if outside_window(b2, env.win) {
    } else {
        match e.genus {
            GenusV::Frame(f) => {
                assert(wf_frame(f));
                assert(frame_p_fits(f, env, px, py));
                lemma_a_frame_wf(f, env, b2, px, py);
            },
            GenusV::Float(f) => {
                assert(wf_frame(f));
                assert(frame_p_fits(f, env, px, py));
                lemma_a_frame_wf(f, env, b2, px, py);
            },
            GenusV::Img(im) => {
                if !env.images.contains_key(im.src) {
                    lemma_a_tree_wf(*im.fallback, env, px, py);
                }
            },
            _ => {},
        }
    }
}

pub proof fn lemma_a_frame_wf(f: FrameV, env: EnvV, b2: Bound, px: int, py: int)
    requires
        wf_frame(f),
        env_wf(env),
        frame_p_fits(f, env, px, py),
    ensures
        wf_frame(a_frame(f, env, b2, px, py)),
        a_frame(f, env, b2, px, py).gravity == f.gravity,
    decreases f,
{
    let bx = px + f.child_offset.x;
    let by = py + f.child_offset.y;
    let g = a_frame(f, env, b2, px, py);
    assert forall|j: int| 0 <= j < f.children.len() implies wf_bound(
        (#[trigger] f.children[j]).bound,
    ) by {
        assert(wf_elem(f.children[j]));
    }
    assert forall|i: int| 0 <= i < g.children.len() implies wf_elem(#[trigger] g.children[i]) by {
        let p = child_place(f, bx, by, i);
        lemma_kids_w_bounds(f.children, i);
        lemma_kids_w_bounds(f.children, f.children.len() as int);
        assert(contrib_x(f.children[i]) <= kids_w(f.children, f.children.len() as int)
            - kids_w(f.children, i)) by {
            lemma_kids_w_bounds(f.children, i + 1);
        }
        assert(contrib_y(f.children[i]) <= kids_h(f.children, f.children.len() as int)
            - kids_h(f.children, i)) by {
            lemma_kids_w_bounds(f.children, i + 1);
        }
        assert(p_fits(f.children[i], env, p.0, p.1));
        lemma_a_tree_wf(f.children[i], env, p.0, p.1);
    }
    assert(wf_frame(g));
}

// ------------------------------------------------------------------
// The arrange-and-paint pass, executably.
// ------------------------------------------------------------------

/// The arrange-and-paint pass: positions the node at the place its parent
/// already wrote into its box, then walks and paints the subtree.
pub fn second_pass(
    element: &mut Element,
    canvas: &mut Canvas,
    cache: &Cache,
    sheet: &crate::style::Sheet,
)
    requires
        wf_elem(old(element).deep()),
        cache.wf(),
        sheet.wf(),
        p_fits(
            old(element).deep(),
            env_of(*cache, *sheet),
            old(element).bound.pos.x as int,
            old(element).bound.pos.y as int,
        ),
    ensures
        final(element).deep() == a_tree(
            old(element).deep(),
            env_of(*cache, *sheet),
            old(element).bound.pos.x as int,
            old(element).bound.pos.y as int,
        ),
        final(canvas)@ == old(canvas)@ + p_ops(
            old(element).deep(),
            env_of(*cache, *sheet),
            old(element).bound.pos.x as int,
            old(element).bound.pos.y as int,
        ),
        wf_elem(final(element).deep()),
{
    let px = element.bound.pos.x;
    let py = element.bound.pos.y;
    place_pass(element, canvas, cache, sheet, px, py);
}

/// Places the node at `(px, py)` and paints the subtree.
#[verifier::rlimit(100)]
fn place_pass(
    element: &mut Element,
    canvas: &mut Canvas,
    cache: &Cache,
    sheet: &crate::style::Sheet,
    px: i64,
    py: i64,
)
    requires
        wf_elem(old(element).deep()),
        cache.wf(),
        sheet.wf(),
        p_fits(old(element).deep(), env_of(*cache, *sheet), px as int, py as int),
    ensures
        final(element).deep() == a_tree(
            old(element).deep(),
            env_of(*cache, *sheet),
            px as int,
            py as int,
        ),
        final(canvas)@ == old(canvas)@ + p_ops(
            old(element).deep(),
            env_of(*cache, *sheet),
            px as int,
            py as int,
        ),
        wf_elem(final(element).deep()),
    decreases *old(element), 1int,
{
    let ghost env = env_of(*cache, *sheet);
    let ghost o = old(element).deep();
    let ghost oe = *old(element);
    let ghost c0 = canvas@;
    proof {
        lemma_env_wf(*cache, *sheet);
    }
    element.bound = Bound {
        pos: Vec2 { x: px, y: py },
        dim: element.bound.dim,
        shadow: element.bound.shadow,
        angle: element.bound.angle,
    };
    proof {
        assert(element.bound == placed_bound(o.bound, px as int, py as int));
    }
    let inside = cache.inside_window(&element.bound);
    if !inside {
        proof {
            assert(element.deep() =~~= a_tree(o, env, px as int, py as int));
            assert(canvas@ =~= c0 + p_ops(o, env, px as int, py as int));
            lemma_a_tree_wf(o, env, px as int, py as int);
        }
        return ;
    }
    let b = element.bound;
    match &mut element.genus {
        Genus::Frame(f) => {
            proof {
                assert(wf_frame(o.genus->Frame_0));
                assert(frame_p_fits(o.genus->Frame_0, env, px as int, py as int));
                assert(o.genus->Frame_0 == oe.genus->Frame_0.deep());
            }
            pos_box(b, canvas, cache, f, sheet, Ghost(oe), Ghost(env), px, py);
        },
        Genus::Float(f) => {
            proof {
                assert(wf_frame(o.genus->Float_0));
                assert(frame_p_fits(o.genus->Float_0, env, px as int, py as int));
                assert(o.genus->Float_0 == oe.genus->Float_0.deep());
            }
            pos_box(b, canvas, cache, f, sheet, Ghost(oe), Ghost(env), px, py);
        },
        Genus::Cult(_) => {},
        Genus::Text(t) => {
            pos_text(b, canvas, cache, t, sheet);
        },
        Genus::Img(im) => {
            let hit = cache.image.load(im.src);
            match hit {
                Some(_) => {
                    let col = sheet.resolve_color(im.style.color);
                    canvas.ops.push(
                        Cmd::Blit {
                            src: im.src,
                            x: b.pos.x,
                            y: b.pos.y,
                            w: b.dim.x,
                            h: b.dim.y,
                            angle: b.angle,
                            color: col,
                        },
                    );
                },
                None => {
                    proof {
                        assert(wf_elem(*o.genus->Img_0.fallback));
                        assert(p_fits(*o.genus->Img_0.fallback, env, px as int, py as int));
                        assert(decreases_to!(oe => *oe.genus->Img_0.fallback));
                    }
                    place_pass(&mut im.fallback, canvas, cache, sheet, px, py);
                },
            }
        },
        Genus::Input(ed) => {
            pos_input(b, canvas, cache, ed, sheet);
        },
    }
    proof {
        let nv = element.deep();
        let at = a_tree(o, env, px as int, py as int);
        match o.genus {
            GenusV::Frame(f) => {
                assert(nv =~~= at);
                assert(canvas@ =~= c0 + p_ops(o, env, px as int, py as int));
            },
            GenusV::Float(f) => {
                assert(nv =~~= at);
                assert(canvas@ =~= c0 + p_ops(o, env, px as int, py as int));
            },
            GenusV::Cult(f) => {
                assert(nv =~~= at);
                assert(canvas@ =~= c0 + p_ops(o, env, px as int, py as int));
            },
            GenusV::Text(t) => {
                assert(nv =~~= at);
                assert(canvas@ =~= c0 + p_ops(o, env, px as int, py as int));
            },
            GenusV::Img(im) => {
                assert(element.genus is Img);
                assert(nv.genus == GenusV::Img(
                    ImageV {
                        src: element.genus->Img_0.src,
                        fallback: Box::new(element.genus->Img_0.fallback.deep()),
                        style: element.genus->Img_0.style,
                    },
                ));
                assert(nv =~~= at);
                if env.images.contains_key(im.src) {
                    assert(canvas@ =~= c0 + p_ops(o, env, px as int, py as int));
                } else {
                    assert(canvas@ =~= c0 + p_ops(o, env, px as int, py as int));
                }
            },
            GenusV::Input(ed) => {
                assert(nv =~~= at);
                assert(canvas@ =~= c0 + p_ops(o, env, px as int, py as int));
            },
        }
        lemma_a_tree_wf(o, env, px as int, py as int);
    }
}

/// Paints a container: its rectangle, then a saved scope in which the clip
/// is applied when needed and each child is placed along the gravity axis
/// and painted in turn.
#[verifier::rlimit(100)]
#[verifier::spinoff_prover]
fn pos_box(
    b: Bound,
    canvas: &mut Canvas,
    cache: &Cache,
    f: &mut crate::element::Frame,
    sheet: &crate::style::Sheet,
    Ghost(oe): Ghost<Element>,
    Ghost(env): Ghost<EnvV>,
    px: i64,
    py: i64,
)
    requires
        env == env_of(*cache, *sheet),
        cache.wf(),
        sheet.wf(),
        wf_frame(old(f).deep()),
        frame_p_fits(old(f).deep(), env, px as int, py as int),
        crate::layout::is_container(oe),
        crate::layout::frame_payload(oe) == *old(f),
        wf_bound(b),
        b.pos.x == px,
        b.pos.y == py,
    ensures
        final(f).deep() == a_frame(old(f).deep(), env, b, px as int, py as int),
        final(canvas)@ == old(canvas)@ + frame_ops(old(f).deep(), env, b, px as int, py as int),
        wf_frame(final(f).deep()),
    decreases oe, 0int,
{
    let ghost f0 = old(f).deep();
    let ghost c0 = canvas@;
    let col = sheet.resolve_color(f.style.color);
    canvas.ops.push(
        Cmd::Rect { x: b.pos.x, y: b.pos.y, w: b.dim.x, h: b.dim.y, angle: b.angle, color: col },
    );
    canvas.ops.push(Cmd::Save);
    let ghost clip_ops: Seq<CmdV> = if f0.overflow is Clip {
        seq![
            CmdV::Clip {
                x: b.pos.x as int,
                y: b.pos.y as int,
                w: b.dim.x as int,
                h: b.dim.y as int,
                angle: b.angle as int,
            },
        ]
    } else {
        Seq::<CmdV>::empty()
    };
    if f.overflow.need_clip() {
        canvas.ops.push(
            Cmd::Clip { x: b.pos.x, y: b.pos.y, w: b.dim.x, h: b.dim.y, angle: b.angle },
        );
    }
    let ghost head = c0 + seq![rect_cmd(b, resolve_color_in(env.colors, f0.style.color))] + seq![
        CmdV::Save,
    ] + clip_ops;
    proof {
        assert(canvas@ =~= head);
        assert forall|j: int| 0 <= j < f0.children.len() implies wf_bound(
            (#[trigger] f0.children[j]).bound,
        ) by {
            assert(wf_elem(f0.children[j]));
        }
    }
    let bx = b.pos.x + f.child_offset.x;
    let by = b.pos.y + f.child_offset.y;
    let n = f.children.len();
    let is_horizontal = match f.gravity {
        Gravity::Horizontal => true,
        Gravity::Vertical => false,
    };
    let mut offv: i64 = if is_horizontal {
        bx
    } else {
        by
    };
    let mut i: usize = 0;
    while i < n
        invariant
            env == env_of(*cache, *sheet),
            cache.wf(),
            sheet.wf(),
            n == f.children@.len(),
            n == f0.children.len(),
            f0 == old(f).deep(),
            i <= n,
            f.size == old(f).size,
            f.ceil == old(f).ceil,
            f.gravity == old(f).gravity,
            f.overflow == old(f).overflow,
            f.child_offset == old(f).child_offset,
            f.style == old(f).style,
            is_horizontal == (f0.gravity is Horizontal),
            bx == px + f0.child_offset.x,
            by == py + f0.child_offset.y,
            -POS_MAX <= bx as int,
            bx + kids_w(f0.children, n as int) <= POS_MAX,
            -POS_MAX <= by as int,
            by + kids_h(f0.children, n as int) <= POS_MAX,
            offv as int == if is_horizontal {
                bx + kids_w(f0.children, i as int)
            } else {
                by + kids_h(f0.children, i as int)
            },
            forall|j: int| 0 <= j < f0.children.len() ==> wf_elem(#[trigger] f0.children[j]),
            forall|j: int| 0 <= j < f0.children.len() ==> wf_bound((#[trigger] f0.children[j]).bound),
            forall|j: int|
                0 <= j < f0.children.len() ==> p_fits(
                    #[trigger] f0.children[j],
                    env,
                    child_place(f0, bx as int, by as int, j).0,
                    child_place(f0, bx as int, by as int, j).1,
                ),
            forall|j: int| i <= j < n ==> f.children@[j] == old(f).children@[j],
            forall|j: int|
                0 <= j < i ==> (#[trigger] f.children@[j].deep()) == a_tree(
                    f0.children[j],
                    env,
                    child_place(f0, bx as int, by as int, j).0,
                    child_place(f0, bx as int, by as int, j).1,
                ),
            forall|j: int| 0 <= j < i ==> wf_elem(#[trigger] f.children@[j].deep()),
            canvas@ =~= head + kids_ops(f0, env, bx as int, by as int, i as int),
            crate::layout::is_container(oe),
            crate::layout::frame_payload(oe) == *old(f),
        decreases n - i,
    {
        proof {
            assert(f.children@[i as int] == old(f).children@[i as int]);
            assert(f.children@[i as int].deep() == f0.children[i as int]);
            lemma_kids_nonneg(f0.children, i as int);
            lemma_kids_w_bounds(f0.children, i as int);
            lemma_kids_w_bounds(f0.children, i + 1);
            assert(kids_w(f0.children, i + 1) == kids_w(f0.children, i as int) + contrib_x(
                f0.children[i as int],
            ));
            assert(kids_h(f0.children, i + 1) == kids_h(f0.children, i as int) + contrib_y(
                f0.children[i as int],
            ));
        }
        let cl = f.children[i].bound.shadow.left;
        let ct = f.children[i].bound.shadow.top;
        let cdx = f.children[i].bound.dim.x;
        let cdy = f.children[i].bound.dim.y;
        let cr = f.children[i].bound.shadow.right;
        let cb = f.children[i].bound.shadow.low;
        let cx: i64;
        let cy: i64;
        if is_horizontal {
            cx = offv + cl;
            cy = by + ct;
        } else {
            cx = bx + cl;
            cy = offv + ct;
        }
        proof {
            assert(cx as int == child_place(f0, bx as int, by as int, i as int).0);
            assert(cy as int == child_place(f0, bx as int, by as int, i as int).1);
            assert(p_fits(f0.children[i as int], env, cx as int, cy as int));
            if oe.genus is Frame {
                assert(decreases_to!(oe => oe.genus->Frame_0.children@[i as int]));
            } else if oe.genus is Float {
                assert(decreases_to!(oe => oe.genus->Float_0.children@[i as int]));
            } else {
                assert(decreases_to!(oe => oe.genus->Cult_0.children@[i as int]));
            }
            assert(crate::layout::frame_payload(oe).children@[i as int] == f.children@[i as int]);
        }
        let ghost pre_child = canvas@;
        place_pass(&mut f.children[i], canvas, cache, sheet, cx, cy);
        if is_horizontal {
            offv = offv + cl + cdx + cr;
        } else {
            offv = offv + ct + cdy + cb;
        }
        proof {
            assert(kids_ops(f0, env, bx as int, by as int, i + 1) =~= kids_ops(
                f0,
                env,
                bx as int,
                by as int,
                i as int,
            ) + p_ops(f0.children[i as int], env, cx as int, cy as int));
            assert(canvas@ =~= head + kids_ops(f0, env, bx as int, by as int, i + 1));
        }
        i += 1;
    }
    let ghost pre_restore = canvas@;
    canvas.ops.push(Cmd::Restore);
    proof {
        assert(canvas@ =~= pre_restore + seq![CmdV::Restore]);
        let fin = f.deep();
        let af = a_frame(f0, env, b, px as int, py as int);
        assert(fin.children.len() == af.children.len());
        assert forall|j: int| 0 <= j < fin.children.len() implies fin.children[j]
            == af.children[j] by {
            assert(fin.children[j] == f.children@[j].deep());
        }
        assert(fin.children =~= af.children);
        assert(fin =~~= af);
        assert(canvas@ =~= old(canvas)@ + frame_ops(f0, env, b, px as int, py as int));
        assert forall|j: int| 0 <= j < fin.children.len() implies wf_elem(
            #[trigger] fin.children[j],
        ) by {
            assert(fin.children[j] == f.children@[j].deep());
        }
        assert(wf_frame(f0));
        assert(wf_frame(fin));
    }
}

/// Paints a text node: one glyph run against the resolved font's baseline,
/// or nothing while the font is not loaded.
fn pos_text(
    b: Bound,
    canvas: &mut Canvas,
    cache: &Cache,
    t: &crate::element::Text,
    sheet: &crate::style::Sheet,
)
    requires
        cache.wf(),
        sheet.wf(),
        wf_bound(b),
    ensures
        final(canvas)@ == old(canvas)@ + text_ops(
            crate::element::TextV { text: t.text@, style: t.style },
            env_of(*cache, *sheet),
            b,
        ),
{
    let ghost env = env_of(*cache, *sheet);
    let key = sheet.resolve_font(t.style.font);
    match cache.font.load_asset(key) {
        Some(m) => {
            proof {
                assert(crate::asset::wf_metrics(m));
            }
            let col = sheet.resolve_color(t.style.color);
            let bytes = crate::highlight::copy_range(&t.text, 0, t.text.len());
            canvas.ops.push(
                Cmd::Glyphs {
                    bytes,
                    x: b.pos.x,
                    y: b.pos.y + m.ascent,
                    font: key,
                    color: col,
                    angle: b.angle,
                    px: b.pos.x + b.dim.x / 2,
                    py: b.pos.y + b.dim.y / 2,
                },
            );
            proof {
                assert(t.text@.subrange(0, t.text@.len() as int) =~= t.text@);
                assert(canvas@ =~= old(canvas)@ + text_ops(
                    crate::element::TextV { text: t.text@, style: t.style },
                    env,
                    b,
                ));
            }
        },
        None => {
            proof {
                assert(canvas@ =~= old(canvas)@ + text_ops(
                    crate::element::TextV { text: t.text@, style: t.style },
                    env,
                    b,
                ));
            }
        },
    }
}

pub proof fn lemma_mul_lit(a: int, b: int)
    requires
        0 <= a <= LIT_MAX,
        0 <= b <= LIT_MAX,
    ensures
        0 <= a * b <= 0x1_0000_0000_0000,
{
    assert(0 <= a * b <= 0x1_0000_0000_0000) by (nonlinear_arith)
        requires
            0 <= a <= 0x100_0000,
            0 <= b <= 0x100_0000,
    ;
}

/// Paints an editable node: within a clipped scope, each line whose top
/// falls inside the box gets its cursor rectangle and its rendered spans.
/// While the node's font is not loaded, nothing is painted.
#[verifier::rlimit(100)]
fn pos_input(
    b: Bound,
    canvas: &mut Canvas,
    cache: &Cache,
    ed: &crate::element::Edit,
    sheet: &crate::style::Sheet,
)
    requires
        cache.wf(),
        sheet.wf(),
        wf_bound(b),
        wf_edit(ed.deep()),
    ensures
        final(canvas)@ == old(canvas)@ + input_ops(ed.deep(), env_of(*cache, *sheet), b),
{
    let ghost env = env_of(*cache, *sheet);
    let ghost edv = ed.deep();
    let key = sheet.resolve_font(ed.font);
    match cache.font.load_asset(key) {
        None => {
            proof {
                assert(canvas@ =~= old(canvas)@ + input_ops(edv, env, b));
            }
        },
        Some(m) => {
            canvas.ops.push(Cmd::Save);
            canvas.ops.push(
                Cmd::Clip { x: b.pos.x, y: b.pos.y, w: b.dim.x, h: b.dim.y, angle: b.angle },
            );
            let ghost head = old(canvas)@ + seq![
                CmdV::Save,
                CmdV::Clip {
                    x: b.pos.x as int,
                    y: b.pos.y as int,
                    w: b.dim.x as int,
                    h: b.dim.y as int,
                    angle: b.angle as int,
                },
            ];
            proof {
                assert(canvas@ =~= head);
            }
            let lx = b.pos.x + ed.offset.x;
            let nl = ed.left.len();
            let nr = ed.right.len();
            proof {
                assert(edv.lines.len() == ed.left@.len() + ed.right@.len());
            }
            let total = nl + nr;
            let mut k: usize = 0;
            while k < total
                invariant
                    env == env_of(*cache, *sheet),
                    cache.wf(),
                    sheet.wf(),
                    wf_bound(b),
                    edv == ed.deep(),
                    wf_edit(edv),
                    key == resolve_font_in(env.fonts_sheet, edv.font),
                    env.fonts.contains_key(key),
                    nl == ed.left@.len(),
                    nr == ed.right@.len(),
                    total == nl + nr,
                    total == edv.lines.len(),
                    total <= LIT_MAX,
                    k <= total,
                    lx as int == b.pos.x + edv.offset.x,
                    canvas@ =~= head + lines_ops(edv, env, b, key, k as int),
                decreases total - k,
            {
                let line: &crate::element::Line = if k < nl {
                    &ed.left[k]
                } else {
                    &ed.right[nr - 1 - (k - nl)]
                };
                proof {
                    if k < nl {
                        assert(edv.lines[k as int] == ed.left@[k as int].deep());
                    } else {
                        let j = nr - 1 - (k - nl);
                        assert(edv.lines[k as int] == ed.right@.map(
                            |i: int, l: crate::element::Line| l.deep(),
                        ).reverse()[k - nl]);
                        assert(edv.lines[k as int] == ed.right@[j as int].deep());
                    }
                    assert(line.deep() == edv.lines[k as int]);
                    assert(wf_line(edv.lines[k as int]));
                    lemma_mul_lit(k as int, edv.char_size.y as int);
                }
                let ly = b.pos.y + ed.offset.y + (k as i64) * ed.char_size.y;
                let ghost lv = edv.lines[k as int];
                let ghost line_base = canvas@;
                if b.inside_y(ly) {
                    match line.cursor_state {
                        crate::element::CursorState::Hidden => {},
                        crate::element::CursorState::Display { char_idx } => {
                            proof {
                                lemma_mul_lit(char_idx as int, edv.char_size.x as int);
                            }
                            let col = sheet.resolve_color(ed.cursor.col);
                            canvas.ops.push(
                                Cmd::Rect {
                                    x: lx + (char_idx as i64) * ed.char_size.x,
                                    y: ly,
                                    w: ed.cursor.width,
                                    h: ed.char_size.y,
                                    angle: 0,
                                    color: col,
                                },
                            );
                        },
                        crate::element::CursorState::Span { start_idx, length } => {
                            proof {
                                lemma_mul_lit(start_idx as int, edv.char_size.x as int);
                                lemma_mul_lit(edv.cursor.width as int, length as int);
                            }
                            let col = sheet.resolve_color(ed.cursor.col);
                            canvas.ops.push(
                                Cmd::Rect {
                                    x: lx + (start_idx as i64) * ed.char_size.x,
                                    y: ly,
                                    w: ed.cursor.width * (length as i64),
                                    h: ed.char_size.y,
                                    angle: 0,
                                    color: col,
                                },
                            );
                        },
                    }
                    let ghost cur_base = line_base + cursor_ops(
                        lv.cursor_state,
                        edv.cursor,
                        env,
                        lx as int,
                        ly as int,
                        edv.char_size,
                    );
                    proof {
                        assert(canvas@ =~= cur_base);
                    }
                    let spans = render_line(&line.ctx_buffer, line.buffer.len());
                    let ghost spec_spans = line_spans(lv.ctxs, lv.buffer.len() as int);
                    let ghost sops = spans_ops(
                        spec_spans,
                        lv.buffer,
                        env,
                        key,
                        lx as int,
                        ly as int,
                        edv.char_size.x as int,
                    );
                    let ns = spans.len();
                    let mut j: usize = 0;
                    while j < ns
                        invariant
                            env == env_of(*cache, *sheet),
                            sheet.wf(),
                            ns == spans@.len(),
                            ns == spec_spans.len(),
                            crate::highlight::span_runs_v(spans@) == spec_spans,
                            forall|t: int|
                                0 <= t < spans@.len() ==> 0 <= (#[trigger] spans@[t]).cell
                                    <= LIT_MAX,
                            forall|t: int|
                                0 <= t < spans@.len() ==> (#[trigger] spans@[t]).idx0
                                    <= spans@[t].idx1 <= lv.buffer.len(),
                            line.deep() == lv,
                            lv.buffer.len() <= LIT_MAX,
                            edv == ed.deep(),
                            0 <= edv.char_size.x <= LIT_MAX,
                            wf_bound(b),
                            lx as int == b.pos.x + edv.offset.x,
                            -LIT_MAX <= edv.offset.x <= LIT_MAX,
                            j <= ns,
                            sops == spans_ops(
                                spec_spans,
                                lv.buffer,
                                env,
                                key,
                                lx as int,
                                ly as int,
                                edv.char_size.x as int,
                            ),
                            canvas@ =~= cur_base + sops.subrange(0, j as int),
                        decreases ns - j,
                    {
                        let sp = spans[j];
                        proof {
                            assert(crate::highlight::span_run_v(spans@[j as int])
                                == spec_spans[j as int]);
                            assert(0 <= sp.cell <= LIT_MAX);
                            assert(sp.idx0 <= sp.idx1 <= lv.buffer.len());
                            assert(0 <= ed.char_size.x <= LIT_MAX);
                            lemma_mul_lit(sp.cell as int, ed.char_size.x as int);
                        }
                        let bytes = crate::highlight::copy_range(&line.buffer, sp.idx0, sp.idx1);
                        let col = sheet.resolve_color(crate::style::ColorVal::Id(sp.col));
                        let x = lx + sp.cell * ed.char_size.x;
                        let g = Cmd::Glyphs {
                            bytes,
                            x,
                            y: ly,
                            font: key,
                            color: col,
                            angle: 0,
                            px: x,
                            py: ly,
                        };
                        proof {
                            assert(cmd_v(g) == sops[j as int]);
                        }
                        let ghost pre = canvas@;
                        canvas.ops.push(g);
                        proof {
                            assert(canvas@ =~= pre + seq![cmd_v(g)]);
                            assert(sops.subrange(0, j + 1) =~= sops.subrange(0, j as int)
                                + seq![sops[j as int]]);
                            assert(canvas@ =~= cur_base + sops.subrange(0, j + 1));
                        }
                        j += 1;
                    }
                    proof {
                        assert(sops.subrange(0, ns as int) =~= sops);
                        assert(line_ops(edv, env, b, key, k as int) == cursor_ops(
                            lv.cursor_state,
                            edv.cursor,
                            env,
                            lx as int,
                            ly as int,
                            edv.char_size,
                        ) + sops);
                        assert(canvas@ =~= head + lines_ops(edv, env, b, key, k + 1));
                    }
                } else {
                    proof {
                        assert(line_ops(edv, env, b, key, k as int) =~= Seq::<CmdV>::empty());
                        assert(canvas@ =~= head + lines_ops(edv, env, b, key, k + 1));
                    }
                }
                k += 1;
            }
            let ghost pre_restore = canvas@;
            canvas.ops.push(Cmd::Restore);
            proof {
                assert(canvas@ =~= pre_restore + seq![CmdV::Restore]);
                assert(canvas@ =~= old(canvas)@ + input_ops(edv, env, b));
            }
        },
    }
}

// ------------------------------------------------------------------
// Laws of the arrange-and-paint pass.
// ------------------------------------------------------------------

/// Law: siblings never overlap along the gravity axis. After a container
/// is arranged, each child's position plus its extent plus its trailing
/// inset is at most the next child's position, with equality exactly when
/// the next child has no leading inset.
pub proof fn lemma_sibling_non_overlap(
    f: FrameV,
    env: EnvV,
    b2: Bound,
    px: int,
    py: int,
    i: int,
)
    requires
        wf_frame(f),
        env_wf(env),
        frame_p_fits(f, env, px, py),
        0 <= i,
        i + 1 < f.children.len(),
    ensures
        ({
            let g = a_frame(f, env, b2, px, py);
            let a = g.children[i];
            let c = g.children[i + 1];
            &&& (f.gravity is Horizontal ==> a.bound.pos.x + a.bound.dim.x + a.bound.shadow.right
                <= c.bound.pos.x)
            &&& (f.gravity is Horizontal && c.bound.shadow.left == 0 ==> a.bound.pos.x
                + a.bound.dim.x + a.bound.shadow.right == c.bound.pos.x)
            &&& (f.gravity is Vertical ==> a.bound.pos.y + a.bound.dim.y + a.bound.shadow.low
                <= c.bound.pos.y)
            &&& (f.gravity is Vertical && c.bound.shadow.top == 0 ==> a.bound.pos.y
                + a.bound.dim.y + a.bound.shadow.low == c.bound.pos.y)
        }),
{
    let bx = px + f.child_offset.x;
    let by = py + f.child_offset.y;
    let g = a_frame(f, env, b2, px, py);
    let n = f.children.len() as int;
    assert forall|j: int| 0 <= j < n implies wf_bound((#[trigger] f.children[j]).bound) by {
        assert(wf_elem(f.children[j]));
    }
    lemma_kids_nonneg(f.children, i);
    lemma_kids_w_bounds(f.children, i);
    lemma_kids_w_bounds(f.children, i + 1);
    lemma_kids_w_bounds(f.children, i + 2);
    let pi = child_place(f, bx, by, i);
    let pc = child_place(f, bx, by, i + 1);
    assert(p_fits(f.children[i], env, pi.0, pi.1));
    assert(p_fits(f.children[i + 1], env, pc.0, pc.1));
    lemma_a_tree_wf(f.children[i], env, pi.0, pi.1);
    lemma_a_tree_wf(f.children[i + 1], env, pc.0, pc.1);
    assert(g.children[i] == a_tree(f.children[i], env, pi.0, pi.1));
    assert(g.children[i + 1] == a_tree(f.children[i + 1], env, pc.0, pc.1));
    assert(kids_w(f.children, i + 1) == kids_w(f.children, i) + contrib_x(f.children[i]));
    assert(kids_h(f.children, i + 1) == kids_h(f.children, i) + contrib_y(f.children[i]));
}

/// Law: an image node whose source is absent from the asset cache paints
/// exactly its fallback subtree's paint, positioned at the image node's
/// own place, and the fallback subtree is what gets arranged.
pub proof fn lemma_fallback_paint(e: ElementV, env: EnvV, px: int, py: int)
    requires
        e.genus is Img,
        !env.images.contains_key(e.genus->Img_0.src),
        !outside_window(placed_bound(e.bound, px, py), env.win),
    ensures
        p_ops(e, env, px, py) == p_ops(*e.genus->Img_0.fallback, env, px, py),
        a_tree(e, env, px, py).genus->Img_0.fallback == Box::new(
            a_tree(*e.genus->Img_0.fallback, env, px, py),
        ),
{
}

/// Law: a node placed entirely outside the viewport paints nothing and
/// its subtree is left alone; only its own position is written.
pub proof fn lemma_paint_culling(e: ElementV, env: EnvV, px: int, py: int)
    requires
        outside_window(placed_bound(e.bound, px, py), env.win),
    ensures
        p_ops(e, env, px, py) == Seq::<CmdV>::empty(),
        a_tree(e, env, px, py) == (ElementV {
            genus: e.genus,
            bound: placed_bound(e.bound, px, py),
            listener: e.listener,
        }),
{
}

/// Law: a measurement-only container is excluded from paint: it emits no
/// commands and its subtree keeps its stale boxes.
pub proof fn lemma_cult_excluded(e: ElementV, env: EnvV, px: int, py: int)
    requires
        e.genus is Cult,
    ensures
        p_ops(e, env, px, py) == Seq::<CmdV>::empty(),
        a_tree(e, env, px, py).genus == e.genus,
{
}

/// Law: the arrange-and-paint pass is a function of the tree, the
/// environment and the handed-down place alone: with those fixed, repeated
/// passes position identically and record identical commands.
pub proof fn lemma_paint_deterministic(
    e1: ElementV,
    e2: ElementV,
    env1: EnvV,
    env2: EnvV,
    px: int,
    py: int,
)
    requires
        e1 == e2,
        env1 == env2,
    ensures
        a_tree(e1, env1, px, py) == a_tree(e2, env2, px, py),
        p_ops(e1, env1, px, py) == p_ops(e2, env2, px, py),
{
}

// ------------------------------------------------------------------
// An executable check of the paint pass's fit conditions.
// ------------------------------------------------------------------

/// Checks that placing the subtree at `(px, py)` keeps every computed
/// position within the library's position bound, so an embedder can
/// establish the paint pass's fit condition (and fail fast) beforehand.
/// Run it on the measured tree, at the root's position.
pub fn place_fits_check(
    e: &Element,
    cache: &Cache,
    sheet: &crate::style::Sheet,
    px: i64,
    py: i64,
) -> (r: bool)
    requires
        wf_elem(e.deep()),
        cache.wf(),
        sheet.wf(),
    ensures
        r == p_fits(e.deep(), env_of(*cache, *sheet), px as int, py as int),
    decreases *e, 1int,
{
    let ghost env = env_of(*cache, *sheet);
    let ghost o = e.deep();
    let ghost oe = *e;
    if px < -POS_MAX || px > POS_MAX || py < -POS_MAX || py > POS_MAX {
        return false;
    }
    let b2 = Bound {
        pos: Vec2 { x: px, y: py },
        dim: e.bound.dim,
        shadow: e.bound.shadow,
        angle: e.bound.angle,
    };
    proof {
        assert(b2 == placed_bound(o.bound, px as int, py as int));
    }
    let inside = cache.inside_window(&b2);
    if !inside {
        return true;
    }
    match &e.genus {
        Genus::Frame(f) => {
            proof {
                assert(wf_frame(o.genus->Frame_0));
                assert(o.genus->Frame_0 == oe.genus->Frame_0.deep());
            }
            frame_place_check(f, cache, sheet, px, py, Ghost(oe))
        },
        Genus::Float(f) => {
            proof {
                assert(wf_frame(o.genus->Float_0));
                assert(o.genus->Float_0 == oe.genus->Float_0.deep());
            }
            frame_place_check(f, cache, sheet, px, py, Ghost(oe))
        },
        Genus::Cult(_) => true,
        Genus::Text(_) => true,
        Genus::Img(im) => {
            match cache.image.load(im.src) {
                Some(_) => true,
                None => {
                    proof {
                        assert(wf_elem(*o.genus->Img_0.fallback));
                        assert(decreases_to!(oe => *oe.genus->Img_0.fallback));
                    }
                    place_fits_check(&im.fallback, cache, sheet, px, py)
                },
            }
        },
        Genus::Input(_) => true,
    }
}

/// Checks a container's content origin and child places.
#[verifier::rlimit(100)]
#[verifier::spinoff_prover]
fn frame_place_check(
    f: &crate::element::Frame,
    cache: &Cache,
    sheet: &crate::style::Sheet,
    px: i64,
    py: i64,
    Ghost(oe): Ghost<Element>,
) -> (r: bool)
    requires
        wf_frame(f.deep()),
        cache.wf(),
        sheet.wf(),
        -POS_MAX <= px <= POS_MAX,
        -POS_MAX <= py <= POS_MAX,
        crate::layout::is_container(oe),
        crate::layout::frame_payload(oe) == *f,
    ensures
        r == frame_p_fits(f.deep(), env_of(*cache, *sheet), px as int, py as int),
    decreases oe, 0int,
{
    let ghost env = env_of(*cache, *sheet);
    let ghost f0 = f.deep();
    proof {
        assert forall|j: int| 0 <= j < f0.children.len() implies wf_bound(
            (#[trigger] f0.children[j]).bound,
        ) by {
            assert(wf_elem(f0.children[j]));
        }
    }
    let bx = px + f.child_offset.x;
    let by = py + f.child_offset.y;
    if bx < -POS_MAX || by < -POS_MAX {
        return false;
    }
    let n = f.children.len();
    if bx > POS_MAX || by > POS_MAX {
        proof {
            lemma_kids_nonneg(f0.children, n as int);
        }
        return false;
    }
    let mut acc_x: i64 = 0;
    let mut acc_y: i64 = 0;
    let mut i: usize = 0;
    while i < n
        invariant
            env == env_of(*cache, *sheet),
            n == f.children@.len(),
            n == f0.children.len(),
            f0 == f.deep(),
            i <= n,
            forall|j: int| 0 <= j < f0.children.len() ==> wf_bound(
                (#[trigger] f0.children[j]).bound,
            ),
            bx == px + f0.child_offset.x,
            by == py + f0.child_offset.y,
            -POS_MAX <= bx <= POS_MAX,
            -POS_MAX <= by <= POS_MAX,
            acc_x == kids_w(f0.children, i as int),
            acc_y == kids_h(f0.children, i as int),
            bx + acc_x <= POS_MAX,
            by + acc_y <= POS_MAX,
            0 <= acc_x,
            0 <= acc_y,
        decreases n - i,
    {
        proof {
            lemma_kids_nonneg(f0.children, i as int);
            assert(kids_w(f0.children, i + 1) == kids_w(f0.children, i as int) + contrib_x(
                f0.children[i as int],
            ));
            assert(kids_h(f0.children, i + 1) == kids_h(f0.children, i as int) + contrib_y(
                f0.children[i as int],
            ));
        }
        let c = &f.children[i];
        let cx = c.bound.dim.x + c.bound.shadow.left + c.bound.shadow.right;
        let cy = c.bound.dim.y + c.bound.shadow.top + c.bound.shadow.low;
        if acc_x > POS_MAX - bx - cx {
            proof {
                lemma_place_partial(f0, px as int, py as int, i + 1, env);
            }
            return false;
        }
        if acc_y > POS_MAX - by - cy {
            proof {
                lemma_place_partial(f0, px as int, py as int, i + 1, env);
            }
            return false;
        }
        acc_x = acc_x + cx;
        acc_y = acc_y + cy;
        i += 1;
    }
    let is_horizontal = match f.gravity {
        Gravity::Horizontal => true,
        Gravity::Vertical => false,
    };
    let mut off_x: i64 = 0;
    let mut off_y: i64 = 0;
    let mut k: usize = 0;
    while k < n
        invariant
            n == f.children@.len(),
            n == f0.children.len(),
            f0 == f.deep(),
            k <= n,
            cache.wf(),
            sheet.wf(),
            env == env_of(*cache, *sheet),
            wf_frame(f0),
            forall|j: int| 0 <= j < f0.children.len() ==> wf_bound(
                (#[trigger] f0.children[j]).bound,
            ),
            bx == px + f0.child_offset.x,
            by == py + f0.child_offset.y,
            -POS_MAX <= px <= POS_MAX,
            -POS_MAX <= py <= POS_MAX,
            -POS_MAX <= bx as int,
            -POS_MAX <= by as int,
            is_horizontal == (f0.gravity is Horizontal),
            bx + kids_w(f0.children, n as int) <= POS_MAX,
            by + kids_h(f0.children, n as int) <= POS_MAX,
            off_x == kids_w(f0.children, k as int),
            off_y == kids_h(f0.children, k as int),
            0 <= off_x,
            0 <= off_y,
            forall|j: int|
                0 <= j < k ==> p_fits(
                    #[trigger] f0.children[j],
                    env,
                    child_place(f0, bx as int, by as int, j).0,
                    child_place(f0, bx as int, by as int, j).1,
                ),
            crate::layout::is_container(oe),
            crate::layout::frame_payload(oe) == *f,
        decreases n - k,
    {
        proof {
            lemma_kids_nonneg(f0.children, k as int);
            lemma_kids_w_bounds(f0.children, k as int);
            lemma_kids_w_bounds(f0.children, k + 1);
            assert(kids_w(f0.children, k + 1) == kids_w(f0.children, k as int) + contrib_x(
                f0.children[k as int],
            ));
            assert(kids_h(f0.children, k + 1) == kids_h(f0.children, k as int) + contrib_y(
                f0.children[k as int],
            ));
            assert(f.children@[k as int].deep() == f0.children[k as int]);
            assert(wf_elem(f0.children[k as int]));
            if oe.genus is Frame {
                assert(decreases_to!(oe => oe.genus->Frame_0.children@[k as int]));
            } else if oe.genus is Float {
                assert(decreases_to!(oe => oe.genus->Float_0.children@[k as int]));
            } else {
                assert(decreases_to!(oe => oe.genus->Cult_0.children@[k as int]));
            }
        }
        let c = &f.children[k];
        let cx: i64;
        let cy: i64;
        if is_horizontal {
            cx = bx + off_x + c.bound.shadow.left;
            cy = by + c.bound.shadow.top;
        } else {
            cx = bx + c.bound.shadow.left;
            cy = by + off_y + c.bound.shadow.top;
        }
        proof {
            assert(cx as int == child_place(f0, bx as int, by as int, k as int).0);
            assert(cy as int == child_place(f0, bx as int, by as int, k as int).1);
        }
        if !place_fits_check(&f.children[k], cache, sheet, cx, cy) {
            return false;
        }
        off_x = off_x + c.bound.dim.x + c.bound.shadow.left + c.bound.shadow.right;
        off_y = off_y + c.bound.dim.y + c.bound.shadow.top + c.bound.shadow.low;
        k += 1;
    }
    true
}

/// A partial extent sum already past the position bound condemns the
/// container's placement.
proof fn lemma_place_partial(f0: FrameV, px: int, py: int, k: int, env: EnvV)
    requires
        forall|j: int| 0 <= j < f0.children.len() ==> wf_bound((#[trigger] f0.children[j]).bound),
        0 <= k <= f0.children.len(),
        (px + f0.child_offset.x) + kids_w(f0.children, k) > POS_MAX || (py + f0.child_offset.y)
            + kids_h(f0.children, k) > POS_MAX,
    ensures
        !frame_p_fits(f0, env, px, py),
{
    lemma_kids_w_bounds(f0.children, k);
}

/// The shape the arrange pass leaves a tree in: below every node that lies
/// at least partly in the viewport, each child already sits exactly at the
/// place the gravity walk computes for it.
pub open spec fn a_fixed(t: ElementV, env: EnvV) -> bool
    decreases t, 1int,
{
    if outside_window(t.bound, env.win) {
        true
    } else {
        match t.genus {
            GenusV::Frame(f) => a_frame_fixed(f, env, t.bound),
            GenusV::Float(f) => a_frame_fixed(f, env, t.bound),
            GenusV::Img(im) => env.images.contains_key(im.src) || (im.fallback.bound.pos
                == t.bound.pos && a_fixed(*im.fallback, env)),
            _ => true,
        }
    }
}

pub open spec fn a_frame_fixed(f: FrameV, env: EnvV, b: Bound) -> bool
    decreases f, 0int,
{
    let bx = b.pos.x + f.child_offset.x;
    let by = b.pos.y + f.child_offset.y;
    forall|i: int|
        0 <= i < f.children.len() ==> {
            let c = #[trigger] f.children[i];
            let p = child_place(f, bx as int, by as int, i);
            &&& c.bound.pos.x == p.0
            &&& c.bound.pos.y == p.1
            &&& a_fixed(c, env)
        }
}

/// Law: an arranged tree in the fixed shape is a fixpoint of the arrange
/// walk — re-arranging at the node's own position writes bit-identical
/// positions everywhere.
pub proof fn lemma_arrange_fixpoint(t: ElementV, env: EnvV)
    requires
        a_fixed(t, env),
    ensures
        a_tree(t, env, t.bound.pos.x as int, t.bound.pos.y as int) == t,
    decreases t,
{
    let px = t.bound.pos.x as int;
    let py = t.bound.pos.y as int;
    let b2 = placed_bound(t.bound, px, py);
    assert(b2 == t.bound);
    if outside_window(b2, env.win) {
        assert(a_tree(t, env, px, py) =~~= t);
    } else {
        match t.genus {
            GenusV::Frame(f) => {
                lemma_a_frame_fixpoint(f, env, t.bound);
                assert(a_tree(t, env, px, py) =~~= t);
            },
            GenusV::Float(f) => {
                lemma_a_frame_fixpoint(f, env, t.bound);
                assert(a_tree(t, env, px, py) =~~= t);
            },
            GenusV::Img(im) => {
                if !env.images.contains_key(im.src) {
                    lemma_arrange_fixpoint(*im.fallback, env);
                    assert(a_tree(t, env, px, py) =~~= t);
                } else {
                    assert(a_tree(t, env, px, py) =~~= t);
                }
            },
            _ => {
                assert(a_tree(t, env, px, py) =~~= t);
            },
        }
    }
}

proof fn lemma_a_frame_fixpoint(f: FrameV, env: EnvV, b: Bound)
    requires
        a_frame_fixed(f, env, b),
    ensures
        a_frame(f, env, b, b.pos.x as int, b.pos.y as int) == f,
    decreases f,
{
    let bx = b.pos.x + f.child_offset.x;
    let by = b.pos.y + f.child_offset.y;
    let g = a_frame(f, env, b, b.pos.x as int, b.pos.y as int);
    assert forall|i: int| 0 <= i < f.children.len() implies g.children[i] == f.children[i] by {
        let c = f.children[i];
        let p = child_place(f, bx as int, by as int, i);
        assert(c.bound.pos.x == p.0 && c.bound.pos.y == p.1 && a_fixed(c, env));
        lemma_arrange_fixpoint(c, env);
        assert(a_tree(c, env, p.0, p.1) == c);
    }
    assert(g.children =~= f.children);
    assert(g =~~= f);
}

/// Law: once a tree is in both fixed shapes, a repeated measure-and-arrange
/// pair computes bit-identical boxes: the tree is a fixpoint of the whole
/// frame. The first pair leaves the tree in these shapes whenever no
/// subtree was skipped by culling along the way; a subtree skipped while
/// off-screen and then arranged into view is measured afresh instead.
pub proof fn lemma_rerun_stable(t: ElementV, env: EnvV)
    requires
        crate::layout::m_fixed(t, env, false),
        a_fixed(t, env),
    ensures
        crate::layout::m_tree(t, env, false) == t,
        a_tree(
            crate::layout::m_tree(t, env, false),
            env,
            t.bound.pos.x as int,
            t.bound.pos.y as int,
        ) == t,
{
    crate::layout::lemma_measure_fixpoint(t, env, false);
    lemma_arrange_fixpoint(t, env);
}

} // verus!
