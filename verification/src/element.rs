use vstd::prelude::*;
use crate::geom::{Bound, Overflow, Pad, Vec2, DIM_MAX, LIT_MAX, POS_MAX, wf_bound, wf_pad};
use crate::style::{ColorVal, FontVal, PadVal, wf_pad_val};

verus! {

/// The single axis along which a container lays its children out.
#[derive(Clone, Copy, PartialEq, Eq, Structural, Debug)]
pub enum Gravity {
    Horizontal,
    Vertical,
}

/// The viewport axis a sizing formula reads.
#[derive(Clone, Copy, PartialEq, Eq, Structural, Debug)]
pub enum Axis {
    W,
    H,
}

/// A pure, environment-driven sizing rule: the chosen viewport axis scaled
/// by `num / den`, shifted by `off`, clamped to a valid extent.
#[derive(Clone, Copy, PartialEq, Eq, Structural, Debug)]
pub struct Formula {
    pub axis: Axis,
    pub num: i64,
    pub den: i64,
    pub off: i64,
}

pub open spec fn wf_formula(f: Formula) -> bool {
    &&& 0 <= f.num <= LIT_MAX
    &&& 1 <= f.den <= LIT_MAX
    &&& -LIT_MAX <= f.off <= LIT_MAX
}

/// What the evaluated formula yields against a viewport, as an extent.
pub open spec fn eval_formula(f: Formula, win: Vec2) -> int {
    let base: int = match f.axis {
        Axis::W => win.x as int,
        Axis::H => win.y as int,
    };
    let raw = base * (f.num as int) / (f.den as int) + (f.off as int);
    if raw < 0 {
        0
    } else if raw > DIM_MAX {
        DIM_MAX as int
    } else {
        raw
    }
}

impl Formula {
    pub fn eval(&self, win: Vec2) -> (r: i64)
        requires
            wf_formula(*self),
            0 <= win.x <= LIT_MAX,
            0 <= win.y <= LIT_MAX,
        ensures
            r == eval_formula(*self, win),
            0 <= r <= DIM_MAX,
    {
        let base: i64 = match self.axis {
            Axis::W => win.x,
            Axis::H => win.y,
        };
        proof {
            let b = base as int;
            let nm = self.num as int;
            let dn = self.den as int;
            assert(0 <= b * nm <= 0x1_0000_0000_0000) by (nonlinear_arith)
                requires
                    0 <= b <= 0x100_0000,
                    0 <= nm <= 0x100_0000,
            ;
            assert(0 <= b * nm / dn <= b * nm) by (nonlinear_arith)
                requires
                    0 <= b * nm,
                    1 <= dn,
            ;
        }
        let raw = base * self.num / self.den;
        let shifted = raw + self.off;
        if shifted < 0 {
            0
        } else if shifted > DIM_MAX {
            DIM_MAX
        } else {
            shifted
        }
    }
}

/// A container's sizing policy along one axis.
#[derive(Clone, Copy, PartialEq, Eq, Structural, Debug)]
pub enum Size {
    /// Fill the viewport axis.
    Window,
    /// A fixed length.
    Man(i64),
    /// Fit the children: the sum of their extents plus insets.
    Child,
    /// Computed from the environment by a pure formula.
    Func(Formula),
}

pub open spec fn wf_size(s: Size) -> bool {
    match s {
        Size::Man(v) => 0 <= v <= LIT_MAX,
        Size::Func(f) => wf_formula(f),
        _ => true,
    }
}

/// A sizing policy per axis.
#[derive(Clone, Copy, PartialEq, Eq, Structural, Debug)]
pub struct SizePair {
    pub x: Size,
    pub y: Size,
}

/// Color and pad of a container or image.
#[derive(Clone, Copy, PartialEq, Eq, Structural, Debug)]
pub struct BoxStyle {
    pub color: ColorVal,
    pub pad: PadVal,
}

/// Color, pad and font of a text run.
#[derive(Clone, Copy, PartialEq, Eq, Structural, Debug)]
pub struct TextStyle {
    pub color: ColorVal,
    pub pad: PadVal,
    pub font: FontVal,
}

/// A container node's payload.
pub struct Frame {
    pub children: Vec<Element>,
    pub size: SizePair,
    pub ceil: Option<SizePair>,
    pub gravity: Gravity,
    pub overflow: Overflow,
    pub child_offset: Vec2,
    pub style: BoxStyle,
}

/// A text node's payload. The content is a byte string measured against the
/// resolved font's advance.
pub struct Text {
    pub text: Vec<u8>,
    pub style: TextStyle,
}

/// An image node's payload: a source identifier into the asset cache and the
/// fallback subtree substituted while the source is not decoded yet.
pub struct Image {
    pub src: u64,
    pub fallback: Box<Element>,
    pub style: BoxStyle,
}

/// How a line displays its cursor or selection.
#[derive(Clone, Copy, PartialEq, Eq, Structural, Debug)]
pub enum CursorState {
    Hidden,
    Display { char_idx: usize },
    Span { start_idx: usize, length: usize },
}

/// Cursor paint settings of an editable node.
#[derive(Clone, Copy, PartialEq, Eq, Structural, Debug)]
pub struct Cursor {
    pub col: ColorVal,
    pub width: i64,
}

/// One cached span record of a classified line. Colors are symbolic style
/// identifiers; `idx0..idx1` is a byte range of the line.
#[derive(Clone, Copy, PartialEq, Eq, Structural, Debug)]
pub enum Ctx {
    /// Render the range now with the given color.
    Put { idx0: usize, idx1: usize, col: u64 },
    /// Defer the range: it becomes the single pending span.
    Hold { idx0: usize, idx1: usize },
    /// Render now with `col_self`; flush a pending held span with `col_prev`.
    Pull { idx0: usize, idx1: usize, col_self: u64, col_prev: u64 },
    /// Render now with `col_self`; override the next span's color with `col_next`.
    Future { idx0: usize, idx1: usize, col_self: u64, col_next: u64 },
    /// Whitespace: advances the cursor by one cell.
    Gap,
}

/// Which lines of an editable buffer need re-classification.
#[derive(Clone, Copy, PartialEq, Eq, Structural, Debug)]
pub enum Dirt {
    /// The span cache is valid.
    Clean,
    /// One line, by logical index.
    On(usize),
    /// The lines in `[start, end)`, by logical index.
    Range(usize, usize),
    /// Every line.
    All,
}

/// One line of an editable buffer: its bytes, its cached span records and
/// its cursor display state.
pub struct Line {
    pub buffer: Vec<u8>,
    pub ctx_buffer: Vec<Ctx>,
    pub cursor_state: CursorState,
}

/// An editable text node: a gap buffer of lines (`left` above the gap,
/// `right` below it, stored bottom-up), a character grid, a scroll offset
/// and the dirt marker driving re-classification.
pub struct Edit {
    pub left: Vec<Line>,
    pub right: Vec<Line>,
    pub char_size: Vec2,
    pub frame_size: Vec2,
    pub offset: Vec2,
    pub cursor: Cursor,
    pub font: FontVal,
    pub pad: PadVal,
    pub dirt: Dirt,
}

/// A node's kind together with its payload.
pub enum Genus {
    /// An ordinary container.
    Frame(Frame),
    /// A container out of the document flow; laid out like `Frame`.
    Float(Frame),
    /// A container that takes part in measurement only: its children are
    /// measured silently and the subtree is excluded from paint.
    Cult(Frame),
    Text(Text),
    Img(Image),
    Input(Edit),
}

/// One node of the UI tree.
pub struct Element {
    pub genus: Genus,
    pub bound: Bound,
    pub listener: Option<u64>,
}

impl Element {
    pub fn new(genus: Genus) -> (r: Element)
        ensures
            r.genus == genus,
            r.bound == Bound::start(),
            r.listener == Option::<u64>::None,
    {
        Element { genus, bound: Bound::new(), listener: None }
    }
}

// ------------------------------------------------------------------
// Mathematical views of the tree.
// ------------------------------------------------------------------

/// View of a line.
#[verifier::ext_equal]
pub struct LineV {
    pub buffer: Seq<u8>,
    pub ctxs: Seq<Ctx>,
    pub cursor_state: CursorState,
}

/// View of an editable node: the lines in logical top-to-bottom order,
/// with the gap position remembered in `split`.
#[verifier::ext_equal]
pub struct EditV {
    pub lines: Seq<LineV>,
    pub split: int,
    pub char_size: Vec2,
    pub frame_size: Vec2,
    pub offset: Vec2,
    pub cursor: Cursor,
    pub font: FontVal,
    pub pad: PadVal,
    pub dirt: Dirt,
}

#[verifier::ext_equal]
pub struct FrameV {
    pub children: Seq<ElementV>,
    pub size: SizePair,
    pub ceil: Option<SizePair>,
    pub gravity: Gravity,
    pub overflow: Overflow,
    pub child_offset: Vec2,
    pub style: BoxStyle,
}

#[verifier::ext_equal]
pub struct TextV {
    pub text: Seq<u8>,
    pub style: TextStyle,
}

#[verifier::ext_equal]
pub struct ImageV {
    pub src: u64,
    pub fallback: Box<ElementV>,
    pub style: BoxStyle,
}

#[verifier::ext_equal]
pub enum GenusV {
    Frame(FrameV),
    Float(FrameV),
    Cult(FrameV),
    Text(TextV),
    Img(ImageV),
    Input(EditV),
}

#[verifier::ext_equal]
pub struct ElementV {
    pub genus: GenusV,
    pub bound: Bound,
    pub listener: Option<u64>,
}

impl Line {
    pub open spec fn deep(self) -> LineV {
        LineV { buffer: self.buffer@, ctxs: self.ctx_buffer@, cursor_state: self.cursor_state }
    }
}

impl View for Line {
    type V = LineV;

    open spec fn view(&self) -> LineV {
        self.deep()
    }
}

impl Edit {
    /// The lines in logical order: those above the gap, then those below it
    /// (stored bottom-up, hence reversed).
    pub open spec fn deep(self) -> EditV {
        EditV {
            lines: self.left@.map(|i: int, l: Line| l.deep()) + self.right@.map(
                |i: int, l: Line| l.deep(),
            ).reverse(),
            split: self.left@.len() as int,
            char_size: self.char_size,
            frame_size: self.frame_size,
            offset: self.offset,
            cursor: self.cursor,
            font: self.font,
            pad: self.pad,
            dirt: self.dirt,
        }
    }
}

impl View for Edit {
    type V = EditV;

    open spec fn view(&self) -> EditV {
        self.deep()
    }
}

impl Element {
    pub open spec fn deep(self) -> ElementV
        decreases self,
    {
        ElementV { genus: self.genus.deep(), bound: self.bound, listener: self.listener }
    }
}

impl Genus {
    pub open spec fn deep(self) -> GenusV
        decreases self,
    {
        match self {
            Genus::Frame(f) => GenusV::Frame(f.deep()),
            Genus::Float(f) => GenusV::Float(f.deep()),
            Genus::Cult(f) => GenusV::Cult(f.deep()),
            Genus::Text(t) => GenusV::Text(TextV { text: t.text@, style: t.style }),
            Genus::Img(i) => GenusV::Img(
                ImageV { src: i.src, fallback: Box::new(i.fallback.deep()), style: i.style },
            ),
            Genus::Input(e) => GenusV::Input(e.deep()),
        }
    }
}

impl Frame {
    pub open spec fn deep(self) -> FrameV
        decreases self,
    {
        FrameV {
            children: Seq::new(
                self.children@.len(),
                |i: int|
                    if 0 <= i < self.children@.len() {
                        self.children@[i].deep()
                    } else {
                        ElementV {
                            genus: GenusV::Text(
                                TextV {
                                    text: Seq::empty(),
                                    style: TextStyle {
                                        color: crate::style::ColorVal::Id(0),
                                        pad: crate::style::PadVal::Id(0),
                                        font: crate::style::FontVal::Id(0),
                                    },
                                },
                            ),
                            bound: Bound::start(),
                            listener: None,
                        }
                    },
            ),
            size: self.size,
            ceil: self.ceil,
            gravity: self.gravity,
            overflow: self.overflow,
            child_offset: self.child_offset,
            style: self.style,
        }
    }
}

impl View for Element {
    type V = ElementV;

    open spec fn view(&self) -> ElementV {
        self.deep()
    }
}

// ------------------------------------------------------------------
// Well-formedness: the static ranges every configured value must keep so
// the passes' arithmetic stays within machine integers.
// ------------------------------------------------------------------

pub open spec fn wf_size_pair(p: SizePair) -> bool {
    wf_size(p.x) && wf_size(p.y)
}

pub open spec fn wf_box_style(s: BoxStyle) -> bool {
    wf_pad_val(s.pad)
}

pub open spec fn wf_text_style(s: TextStyle) -> bool {
    wf_pad_val(s.pad)
}

pub open spec fn wf_cursor_state(c: CursorState) -> bool {
    match c {
        CursorState::Hidden => true,
        CursorState::Display { char_idx } => char_idx <= LIT_MAX,
        CursorState::Span { start_idx, length } => start_idx <= LIT_MAX && length <= LIT_MAX,
    }
}

pub open spec fn wf_line(l: LineV) -> bool {
    &&& l.buffer.len() <= LIT_MAX
    &&& l.ctxs.len() <= LIT_MAX
    &&& wf_cursor_state(l.cursor_state)
}

pub open spec fn wf_edit(e: EditV) -> bool {
    &&& e.lines.len() <= LIT_MAX
    &&& forall|i: int| 0 <= i < e.lines.len() ==> wf_line(#[trigger] e.lines[i])
    &&& 0 <= e.char_size.x <= LIT_MAX
    &&& 0 <= e.char_size.y <= LIT_MAX
    &&& 0 <= e.frame_size.x <= LIT_MAX
    &&& 0 <= e.frame_size.y <= LIT_MAX
    &&& -LIT_MAX <= e.offset.x <= LIT_MAX
    &&& -LIT_MAX <= e.offset.y <= LIT_MAX
    &&& 0 <= e.cursor.width <= LIT_MAX
    &&& wf_pad_val(e.pad)
}

pub open spec fn wf_frame(f: FrameV) -> bool
    decreases f,
{
    &&& wf_size_pair(f.size)
    &&& match f.ceil {
        Some(c) => wf_size_pair(c),
        None => true,
    }
    &&& wf_box_style(f.style)
    &&& -LIT_MAX <= f.child_offset.x <= LIT_MAX
    &&& -LIT_MAX <= f.child_offset.y <= LIT_MAX
    &&& forall|i: int| 0 <= i < f.children.len() ==> wf_elem(#[trigger] f.children[i])
}

pub open spec fn wf_elem(e: ElementV) -> bool
    decreases e,
{
    &&& wf_bound(e.bound)
    &&& match e.genus {
        GenusV::Frame(f) => wf_frame(f),
        GenusV::Float(f) => wf_frame(f),
        GenusV::Cult(f) => wf_frame(f),
        GenusV::Text(t) => t.text.len() <= LIT_MAX && wf_text_style(t.style),
        GenusV::Img(i) => wf_box_style(i.style) && wf_elem(*i.fallback),
        GenusV::Input(ed) => wf_edit(ed),
    }
}

// ------------------------------------------------------------------
// A runtime check of well-formedness, so an embedder can fail fast on a
// malformed node configuration before a pass runs.
// ------------------------------------------------------------------

fn check_pad(p: &Pad) -> (r: bool)
    ensures
        r == wf_pad(*p),
{
    0 <= p.left && p.left <= LIT_MAX && 0 <= p.right && p.right <= LIT_MAX && 0 <= p.top && p.top
        <= LIT_MAX && 0 <= p.low && p.low <= LIT_MAX
}

fn check_pad_val(v: &PadVal) -> (r: bool)
    ensures
        r == wf_pad_val(*v),
{
    match v {
        PadVal::Lit(p) => check_pad(p),
        PadVal::Id(_) => true,
    }
}

fn check_size(s: &Size) -> (r: bool)
    ensures
        r == wf_size(*s),
{
    match s {
        Size::Man(v) => 0 <= *v && *v <= LIT_MAX,
        Size::Func(f) => 0 <= f.num && f.num <= LIT_MAX && 1 <= f.den && f.den <= LIT_MAX
            && -LIT_MAX <= f.off && f.off <= LIT_MAX,
        _ => true,
    }
}

fn check_size_pair(p: &SizePair) -> (r: bool)
    ensures
        r == wf_size_pair(*p),
{
    check_size(&p.x) && check_size(&p.y)
}

fn check_bound(b: &Bound) -> (r: bool)
    ensures
        r == wf_bound(*b),
{
    -POS_MAX <= b.pos.x && b.pos.x <= POS_MAX && -POS_MAX <= b.pos.y && b.pos.y <= POS_MAX && 0
        <= b.dim.x && b.dim.x <= DIM_MAX && 0 <= b.dim.y && b.dim.y <= DIM_MAX && check_pad(
        &b.shadow,
    )
}

fn check_line(l: &Line) -> (r: bool)
    ensures
        r == wf_line(l.deep()),
{
    let lim: usize = 0x100_0000;
    l.buffer.len() <= lim && l.ctx_buffer.len() <= lim && (match l.cursor_state {
        CursorState::Hidden => true,
        CursorState::Display { char_idx } => char_idx <= lim,
        CursorState::Span { start_idx, length } => start_idx <= lim && length <= lim,
    })
}

fn check_edit(e: &Edit) -> (r: bool)
    ensures
        r == wf_edit(e.deep()),
{
    let lim: usize = 0x100_0000;
    let nl = e.left.len();
    let nr = e.right.len();
    if nl > lim || nr > lim - nl {
        assert(e.deep().lines.len() > LIT_MAX);
        return false;
    }
    proof {
        assert(e.deep().lines.len() == nl + nr);
    }
    let mut i: usize = 0;
    while i < nl
        invariant
            i <= nl,
            nl == e.left@.len(),
            forall|j: int| 0 <= j < i ==> wf_line(#[trigger] e.left@[j].deep()),
        decreases nl - i,
    {
        if !check_line(&e.left[i]) {
            proof {
                assert(e.deep().lines[i as int] == e.left@[i as int].deep());
                assert(!wf_edit(e.deep()));
            }
            return false;
        }
        i += 1;
    }
    let mut k: usize = 0;
    while k < nr
        invariant
            k <= nr,
            nl == e.left@.len(),
            nr == e.right@.len(),
            nl + nr <= 0x100_0000,
            forall|j: int| 0 <= j < k ==> wf_line(#[trigger] e.right@[j].deep()),
        decreases nr - k,
    {
        if !check_line(&e.right[k]) {
            proof {
                let vi = nl + (nr - 1 - k);
                assert(e.deep().lines[vi as int] == e.right@.map(
                    |i: int, l: Line| l.deep(),
                ).reverse()[vi - nl]);
                assert(e.deep().lines[vi as int] == e.right@[k as int].deep());
                assert(!wf_edit(e.deep()));
            }
            return false;
        }
        k += 1;
    }
    let ok = 0 <= e.char_size.x && e.char_size.x <= LIT_MAX && 0 <= e.char_size.y && e.char_size.y
        <= LIT_MAX && 0 <= e.frame_size.x && e.frame_size.x <= LIT_MAX && 0 <= e.frame_size.y
        && e.frame_size.y <= LIT_MAX && -LIT_MAX <= e.offset.x && e.offset.x <= LIT_MAX && -LIT_MAX
        <= e.offset.y && e.offset.y <= LIT_MAX && 0 <= e.cursor.width && e.cursor.width <= LIT_MAX
        && check_pad_val(&e.pad);
    proof {
        if ok {
            assert forall|j: int| 0 <= j < e.deep().lines.len() implies wf_line(
                #[trigger] e.deep().lines[j],
            ) by {
                if j < nl {
                    assert(e.deep().lines[j] == e.left@[j].deep());
                } else {
                    assert(e.deep().lines[j] == e.right@.map(
                        |i: int, l: Line| l.deep(),
                    ).reverse()[j - nl]);
                    assert(e.deep().lines[j] == e.right@[nr - 1 - (j - nl)].deep());
                }
            }
        }
    }
    ok
}

impl Element {
    /// True exactly when the node and its whole subtree keep every
    /// configured value within the library's documented bounds. The layout
    /// passes ask for this; an embedder may fail fast on a tree that does
    /// not satisfy it, as a tree-construction bug.
    pub fn well_formed(&self) -> (r: bool)
        ensures
            r == wf_elem(self.deep()),
        decreases *self,
    {
        if !check_bound(&self.bound) {
            return false;
        }
        match &self.genus {
            Genus::Frame(f) => check_frame(f, Ghost(*self)),
            Genus::Float(f) => check_frame(f, Ghost(*self)),
            Genus::Cult(f) => check_frame(f, Ghost(*self)),
            Genus::Text(t) => {
                let lim: usize = 0x100_0000;
                t.text.len() <= lim && check_pad_val(&t.style.pad)
            },
            Genus::Img(i) => {
                proof {
                    assert(decreases_to!(*self => *self.genus->Img_0.fallback));
                }
                check_pad_val(&i.style.pad) && i.fallback.well_formed()
            },
            Genus::Input(ed) => check_edit(ed),
        }
    }
}

fn check_frame(f: &Frame, Ghost(oe): Ghost<Element>) -> (r: bool)
    requires
        oe.genus is Frame || oe.genus is Float || oe.genus is Cult,
        (match oe.genus {
            Genus::Frame(g) => g == *f,
            Genus::Float(g) => g == *f,
            Genus::Cult(g) => g == *f,
            _ => false,
        }),
    ensures
        r == wf_frame(f.deep()),
    decreases oe, 0int,
{
    if !(check_size_pair(&f.size) && (match &f.ceil {
        Some(c) => check_size_pair(c),
        None => true,
    }) && check_pad_val(&f.style.pad) && -LIT_MAX <= f.child_offset.x && f.child_offset.x
        <= LIT_MAX && -LIT_MAX <= f.child_offset.y && f.child_offset.y <= LIT_MAX) {
        return false;
    }
    let n = f.children.len();
    let mut i: usize = 0;
    while i < n
        invariant
            i <= n,
            n == f.children@.len(),
            forall|j: int| 0 <= j < i ==> wf_elem(#[trigger] f.children@[j].deep()),
            oe.genus is Frame || oe.genus is Float || oe.genus is Cult,
            (match oe.genus {
                Genus::Frame(g) => g == *f,
                Genus::Float(g) => g == *f,
                Genus::Cult(g) => g == *f,
                _ => false,
            }),
        decreases n - i,
    {
        proof {
            if oe.genus is Frame {
                assert(decreases_to!(oe => oe.genus->Frame_0.children@[i as int]));
            } else if oe.genus is Float {
                assert(decreases_to!(oe => oe.genus->Float_0.children@[i as int]));
            } else {
                assert(decreases_to!(oe => oe.genus->Cult_0.children@[i as int]));
            }
        }
        if !f.children[i].well_formed() {
            proof {
                assert(f.deep().children[i as int] == f.children@[i as int].deep());
                assert(!wf_frame(f.deep()));
            }
            return false;
        }
        i += 1;
    }
    proof {
        assert forall|j: int| 0 <= j < f.deep().children.len() implies wf_elem(
            #[trigger] f.deep().children[j],
        ) by {
            assert(f.deep().children[j] == f.children@[j].deep());
        }
    }
    true
}

} // verus!
