use vstd::prelude::*;
use crate::element::{Ctx, Dirt, Edit, EditV, Line, LineV};
use crate::geom::LIT_MAX;
use crate::style::DEFAULT;

verus! {

/// What the caller-supplied classifier says of one token.
#[derive(Clone, Copy, PartialEq, Eq, Structural, Debug)]
pub enum Cls {
    /// Render the token now with this color.
    Put(u64),
    /// Defer the token as the pending span.
    Hold,
    /// Render now; a pending held span flushes with the second color.
    Pull(u64, u64),
    /// Render now; the next span's color is overridden by the second color.
    Future(u64, u64),
    /// Whitespace.
    Gap,
}

/// A caller-supplied token classifier. It is unverified: the engine states
/// what it does with whatever tags come back.
pub trait Classifier {
    fn classify(&mut self, token: &Vec<u8>) -> Cls;
}

// ------------------------------------------------------------------
// Tokenization: a line's bytes split into classifier tokens. A maximal run
// of non-space bytes is one token; every space byte is a token of its own.
// ------------------------------------------------------------------

/// The first position at or after `i` that ends a word: a space, or the end
/// of the line.
pub open spec fn word_end(bytes: Seq<u8>, i: int) -> int
    decreases bytes.len() - i when 0 <= i <= bytes.len()
{
    if i >= bytes.len() {
        bytes.len() as int
    } else if bytes[i] == 32u8 {
        i
    } else {
        word_end(bytes, i + 1)
    }
}

pub proof fn lemma_word_end(bytes: Seq<u8>, i: int)
    requires
        0 <= i <= bytes.len(),
    ensures
        i <= word_end(bytes, i) <= bytes.len(),
        i < bytes.len() && bytes[i] != 32u8 ==> word_end(bytes, i) > i,
    decreases bytes.len() - i,
{
    if i < bytes.len() && bytes[i] != 32u8 {
        lemma_word_end(bytes, i + 1);
    }
}

/// The token ranges of a line from position `i` on.
pub open spec fn toks_from(bytes: Seq<u8>, i: int) -> Seq<(int, int)>
    decreases bytes.len() - i when 0 <= i <= bytes.len() via toks_from_dec
{
    if i >= bytes.len() {
        Seq::empty()
    } else if bytes[i] == 32u8 {
        seq![(i, i + 1)] + toks_from(bytes, i + 1)
    } else {
        seq![(i, word_end(bytes, i))] + toks_from(bytes, word_end(bytes, i))
    }
}

#[via_fn]
proof fn toks_from_dec(bytes: Seq<u8>, i: int) {
    if 0 <= i < bytes.len() {
        lemma_word_end(bytes, i);
    }
}

/// All token ranges of a line.
pub open spec fn tokens_of(bytes: Seq<u8>) -> Seq<(int, int)> {
    toks_from(bytes, 0)
}

pub proof fn lemma_toks_in_range(bytes: Seq<u8>, i: int)
    requires
        0 <= i <= bytes.len(),
    ensures
        forall|k: int|
            0 <= k < toks_from(bytes, i).len() ==> {
                let t = #[trigger] toks_from(bytes, i)[k];
                i <= t.0 < t.1 <= bytes.len()
            },
    decreases bytes.len() - i,
{
    if i < bytes.len() {
        let j: int = if bytes[i] == 32u8 {
            i + 1
        } else {
            word_end(bytes, i)
        };
        lemma_word_end(bytes, i);
        lemma_toks_in_range(bytes, j);
        assert forall|k: int| 0 <= k < toks_from(bytes, i).len() implies {
            let t = #[trigger] toks_from(bytes, i)[k];
            i <= t.0 < t.1 <= bytes.len()
        } by {
            if k > 0 {
                assert(toks_from(bytes, i)[k] == toks_from(bytes, j)[k - 1]);
            }
        }
    }
}

/// Scans to the end of the word starting at `i`.
fn scan_word(bytes: &Vec<u8>, i: usize) -> (j: usize)
    requires
        i <= bytes@.len(),
    ensures
        j == word_end(bytes@, i as int),
    decreases bytes@.len() - i,
{
    proof {
        lemma_word_end(bytes@, i as int);
    }
    if i >= bytes.len() {
        bytes.len()
    } else if bytes[i] == 32u8 {
        i
    } else {
        scan_word(bytes, i + 1)
    }
}

/// Splits a line into its token ranges.
pub fn tokenize(bytes: &Vec<u8>) -> (r: Vec<(usize, usize)>)
    ensures
        r@.len() == tokens_of(bytes@).len(),
        forall|k: int|
            0 <= k < r@.len() ==> (#[trigger] r@[k]).0 == tokens_of(bytes@)[k].0 && r@[k].1
                == tokens_of(bytes@)[k].1,
{
    let mut r: Vec<(usize, usize)> = Vec::new();
    let mut i: usize = 0;
    let n = bytes.len();
    while i < n
        invariant
            i <= n,
            n == bytes@.len(),
            tokens_of(bytes@) =~= toks_map(r@) + toks_from(bytes@, i as int),
            i == n ==> toks_from(bytes@, i as int) =~= Seq::<(int, int)>::empty(),
        decreases n - i,
    {
        proof {
            lemma_word_end(bytes@, i as int);
        }
        let j = if bytes[i] == 32u8 {
            i + 1
        } else {
            scan_word(bytes, i)
        };
        r.push((i, j));
        proof {
            assert(toks_map(r@) =~= toks_map(r@.drop_last()) + seq![(i as int, j as int)]);
            assert(toks_map(r@) + toks_from(bytes@, j as int) =~= toks_map(r@.drop_last()) + (
            seq![(i as int, j as int)] + toks_from(bytes@, j as int)));
        }
        i = j;
    }
    proof {
        assert(tokens_of(bytes@) =~= toks_map(r@));
        assert forall|k: int| 0 <= k < r@.len() implies (#[trigger] r@[k]).0 == tokens_of(
            bytes@,
        )[k].0 && r@[k].1 == tokens_of(bytes@)[k].1 by {
            assert(toks_map(r@)[k] == (r@[k].0 as int, r@[k].1 as int));
        }
    }
    r
}

/// The exec token list seen as mathematical ranges.
pub open spec fn toks_map(r: Seq<(usize, usize)>) -> Seq<(int, int)> {
    Seq::new(r.len(), |k: int| if 0 <= k < r.len() { (r[k].0 as int, r[k].1 as int) } else { (0int, 0int) })
}


/// The span record cached for the `k`-th token, given its range and tag.
pub open spec fn ctx_of_tok(t: (int, int), tag: Cls) -> Ctx {
    match tag {
        Cls::Put(col) => Ctx::Put { idx0: t.0 as usize, idx1: t.1 as usize, col },
        Cls::Hold => Ctx::Hold { idx0: t.0 as usize, idx1: t.1 as usize },
        Cls::Pull(col_self, col_prev) => Ctx::Pull {
            idx0: t.0 as usize,
            idx1: t.1 as usize,
            col_self,
            col_prev,
        },
        Cls::Future(col_self, col_next) => Ctx::Future {
            idx0: t.0 as usize,
            idx1: t.1 as usize,
            col_self,
            col_next,
        },
        Cls::Gap => Ctx::Gap,
    }
}

/// The span cache a line gets from its bytes and the classifier's tags,
/// one record per token.
pub open spec fn ctx_of(bytes: Seq<u8>, tags: Seq<Cls>) -> Seq<Ctx> {
    let toks = tokens_of(bytes);
    let n = if tags.len() < toks.len() { tags.len() as int } else { toks.len() as int };
    Seq::new(n as nat, |k: int| if 0 <= k < n { ctx_of_tok(toks[k], tags[k]) } else { Ctx::Gap })
}

/// Builds the span cache of one line from its bytes and the tags the
/// classifier returned for its tokens, in token order.
pub fn classify_line(bytes: &Vec<u8>, tags: &Vec<Cls>) -> (r: Vec<Ctx>)
    ensures
        r@ == ctx_of(bytes@, tags@),
{
    let toks = tokenize(bytes);
    let n = if tags.len() < toks.len() {
        tags.len()
    } else {
        toks.len()
    };
    let mut r: Vec<Ctx> = Vec::new();
    let mut k: usize = 0;
    while k < n
        invariant
            k <= n,
            n == if tags@.len() < toks@.len() { tags@.len() } else { toks@.len() },
            toks@.len() == tokens_of(bytes@).len(),
            forall|j: int|
                0 <= j < toks@.len() ==> (#[trigger] toks@[j]).0 == tokens_of(bytes@)[j].0
                    && toks@[j].1 == tokens_of(bytes@)[j].1,
            r@.len() == k,
            forall|j: int|
                0 <= j < k ==> r@[j] == ctx_of(bytes@, tags@)[j],
        decreases n - k,
    {
        let t = toks[k];
        let c = match tags[k] {
            Cls::Put(col) => Ctx::Put { idx0: t.0, idx1: t.1, col },
            Cls::Hold => Ctx::Hold { idx0: t.0, idx1: t.1 },
            Cls::Pull(col_self, col_prev) => Ctx::Pull { idx0: t.0, idx1: t.1, col_self, col_prev },
            Cls::Future(col_self, col_next) => Ctx::Future {
                idx0: t.0,
                idx1: t.1,
                col_self,
                col_next,
            },
            Cls::Gap => Ctx::Gap,
        };
        r.push(c);
        k += 1;
    }
    proof {
        assert(r@ =~= ctx_of(bytes@, tags@));
    }
    r
}

// ------------------------------------------------------------------
// The span-rendering automaton. Per line, left to right, it carries at most
// one pending held span and at most one pending color override; both are
// cleared at the line break (a pending held span flushes with the default
// color so its bytes still paint). The cursor column is counted in character
// cells and saturates at the configured-length bound. A span record whose
// byte range does not fit the line is treated as a gap: skipped, advancing
// one cell, never a failure.
// ------------------------------------------------------------------

/// One span as the automaton renders it: a byte range of the line, the
/// symbolic color it gets, and the character cell it starts at.
pub struct SpanV {
    pub idx0: int,
    pub idx1: int,
    pub col: u64,
    pub cell: int,
}

/// The carried state: the pending held span (range and origin cell) and the
/// pending color override.
pub struct HlSt {
    pub hold: Option<(int, int, int)>,
    pub fut: Option<u64>,
}

pub open spec fn hl_init() -> HlSt {
    HlSt { hold: None, fut: None }
}

/// True when the record's byte range fits a line of length `len`.
pub open spec fn valid_ctx(c: Ctx, len: int) -> bool {
    match c {
        Ctx::Put { idx0, idx1, .. } => idx0 <= idx1 <= len,
        Ctx::Hold { idx0, idx1 } => idx0 <= idx1 <= len,
        Ctx::Pull { idx0, idx1, .. } => idx0 <= idx1 <= len,
        Ctx::Future { idx0, idx1, .. } => idx0 <= idx1 <= len,
        Ctx::Gap => true,
    }
}

/// What a flushed-without-color held span is painted with.
pub open spec fn flush_col() -> u64 {
    DEFAULT
}

pub open spec fn flush_hold(st: HlSt, col: u64) -> Seq<SpanV> {
    match st.hold {
        Some(h) => seq![SpanV { idx0: h.0, idx1: h.1, col, cell: h.2 }],
        None => Seq::empty(),
    }
}

/// The saturating cell advance.
pub open spec fn cell_adv(cell: int, adv: int) -> int {
    if cell + adv > LIT_MAX {
        LIT_MAX as int
    } else {
        cell + adv
    }
}

/// One automaton step: the next state, the spans emitted, and the cell
/// advance.
pub open spec fn hl_step(st: HlSt, c: Ctx, cell: int, len: int) -> (HlSt, Seq<SpanV>, int) {
    if !valid_ctx(c, len) {
        (st, Seq::empty(), 1)
    } else {
        match c {
            Ctx::Gap => (st, Seq::empty(), 1),
            Ctx::Put { idx0, idx1, col } => {
                let eff: u64 = match st.fut {
                    Some(n) => n,
                    None => col,
                };
                (
                    hl_init(),
                    flush_hold(st, flush_col()) + seq![
                        SpanV { idx0: idx0 as int, idx1: idx1 as int, col: eff, cell },
                    ],
                    idx1 - idx0,
                )
            },
            Ctx::Hold { idx0, idx1 } => {
                match st.fut {
                    Some(n) => (
                        HlSt { hold: st.hold, fut: None },
                        seq![SpanV { idx0: idx0 as int, idx1: idx1 as int, col: n, cell }],
                        idx1 - idx0,
                    ),
                    None => (
                        HlSt { hold: Some((idx0 as int, idx1 as int, cell)), fut: None },
                        flush_hold(st, flush_col()),
                        idx1 - idx0,
                    ),
                }
            },
            Ctx::Pull { idx0, idx1, col_self, col_prev } => {
                let eff: u64 = match st.fut {
                    Some(n) => n,
                    None => col_self,
                };
                (
                    hl_init(),
                    flush_hold(st, col_prev) + seq![
                        SpanV { idx0: idx0 as int, idx1: idx1 as int, col: eff, cell },
                    ],
                    idx1 - idx0,
                )
            },
            Ctx::Future { idx0, idx1, col_self, col_next } => {
                let eff: u64 = match st.fut {
                    Some(n) => n,
                    None => col_self,
                };
                (
                    HlSt { hold: None, fut: Some(col_next) },
                    flush_hold(st, flush_col()) + seq![
                        SpanV { idx0: idx0 as int, idx1: idx1 as int, col: eff, cell },
                    ],
                    idx1 - idx0,
                )
            },
        }
    }
}

/// The spans the automaton renders from record `k` on, given the carried
/// state and cell; the line break flushes a pending held span.
pub open spec fn hl_run_from(ctxs: Seq<Ctx>, k: int, st: HlSt, cell: int, len: int) -> Seq<SpanV>
    decreases ctxs.len() - k when 0 <= k <= ctxs.len()
{
    if k >= ctxs.len() {
        flush_hold(st, flush_col())
    } else {
        let (st2, out, adv) = hl_step(st, ctxs[k], cell, len);
        out + hl_run_from(ctxs, k + 1, st2, cell_adv(cell, adv), len)
    }
}

/// Every span a line's cached records render, in order.
pub open spec fn line_spans(ctxs: Seq<Ctx>, len: int) -> Seq<SpanV> {
    hl_run_from(ctxs, 0, hl_init(), 0, len)
}

/// One rendered span, executable form: byte range, symbolic color, starting
/// character cell.
#[derive(Clone, Copy, PartialEq, Eq, Structural, Debug)]
pub struct SpanRun {
    pub idx0: usize,
    pub idx1: usize,
    pub col: u64,
    pub cell: i64,
}

pub open spec fn span_run_v(r: SpanRun) -> SpanV {
    SpanV { idx0: r.idx0 as int, idx1: r.idx1 as int, col: r.col, cell: r.cell as int }
}

pub open spec fn span_runs_v(r: Seq<SpanRun>) -> Seq<SpanV> {
    Seq::new(
        r.len(),
        |k: int|
            if 0 <= k < r.len() {
                span_run_v(r[k])
            } else {
                SpanV { idx0: 0, idx1: 0, col: 0, cell: 0 }
            },
    )
}

/// Renders one line's cached span records into concrete spans.
pub fn render_line(ctxs: &Vec<Ctx>, len: usize) -> (r: Vec<SpanRun>)
    requires
        len <= LIT_MAX,
    ensures
        span_runs_v(r@) == line_spans(ctxs@, len as int),
        forall|k: int| 0 <= k < r@.len() ==> 0 <= (#[trigger] r@[k]).cell <= LIT_MAX,
        forall|k: int| 0 <= k < r@.len() ==> (#[trigger] r@[k]).idx0 <= r@[k].idx1 <= len,
{
    let n = ctxs.len();
    let mut r: Vec<SpanRun> = Vec::new();
    let mut k: usize = 0;
    let mut cell: i64 = 0;
    let mut hold: Option<(usize, usize, i64)> = None;
    let mut fut: Option<u64> = None;
    while k < n
        invariant
            k <= n,
            n == ctxs@.len(),
            len <= LIT_MAX,
            0 <= cell <= LIT_MAX,
            (match hold {
                Some(h) => h.0 <= h.1 <= len && 0 <= h.2 <= LIT_MAX,
                None => true,
            }),
            forall|j: int| 0 <= j < r@.len() ==> 0 <= (#[trigger] r@[j]).cell <= LIT_MAX,
            forall|j: int|
                0 <= j < r@.len() ==> (#[trigger] r@[j]).idx0 <= r@[j].idx1 <= len,
            line_spans(ctxs@, len as int) == span_runs_v(r@) + hl_run_from(
                ctxs@,
                k as int,
                cur_st(hold, fut),
                cell as int,
                len as int,
            ),
        decreases n - k,
    {
        let ghost pre_spans = r@;
        let ghost pre_st = cur_st(hold, fut);
        let ghost pre_cell = cell as int;
        let c = ctxs[k];
        let valid = match c {
            Ctx::Put { idx0, idx1, .. } => idx0 <= idx1 && idx1 <= len,
            Ctx::Hold { idx0, idx1 } => idx0 <= idx1 && idx1 <= len,
            Ctx::Pull { idx0, idx1, .. } => idx0 <= idx1 && idx1 <= len,
            Ctx::Future { idx0, idx1, .. } => idx0 <= idx1 && idx1 <= len,
            Ctx::Gap => true,
        };
        let mut adv: i64 = 1;
        if valid {
            match c {
                Ctx::Gap => {},
                Ctx::Put { idx0, idx1, col } => {
                    match hold {
                        Some(h) => r.push(
                            SpanRun { idx0: h.0, idx1: h.1, col: DEFAULT, cell: h.2 },
                        ),
                        None => {},
                    }
                    let eff = match fut {
                        Some(nx) => nx,
                        None => col,
                    };
                    r.push(SpanRun { idx0, idx1, col: eff, cell });
                    hold = None;
                    fut = None;
                    adv = (idx1 - idx0) as i64;
                },
                Ctx::Hold { idx0, idx1 } => {
                    match fut {
                        Some(nx) => {
                            r.push(SpanRun { idx0, idx1, col: nx, cell });
                            fut = None;
                        },
                        None => {
                            match hold {
                                Some(h) => r.push(
                                    SpanRun { idx0: h.0, idx1: h.1, col: DEFAULT, cell: h.2 },
                                ),
                                None => {},
                            }
                            hold = Some((idx0, idx1, cell));
                        },
                    }
                    adv = (idx1 - idx0) as i64;
                },
                Ctx::Pull { idx0, idx1, col_self, col_prev } => {
                    match hold {
                        Some(h) => r.push(
                            SpanRun { idx0: h.0, idx1: h.1, col: col_prev, cell: h.2 },
                        ),
                        None => {},
                    }
                    let eff = match fut {
                        Some(nx) => nx,
                        None => col_self,
                    };
                    r.push(SpanRun { idx0, idx1, col: eff, cell });
                    hold = None;
                    fut = None;
                    adv = (idx1 - idx0) as i64;
                },
                Ctx::Future { idx0, idx1, col_self, col_next } => {
                    match hold {
                        Some(h) => r.push(
                            SpanRun { idx0: h.0, idx1: h.1, col: DEFAULT, cell: h.2 },
                        ),
                        None => {},
                    }
                    let eff = match fut {
                        Some(nx) => nx,
                        None => col_self,
                    };
                    r.push(SpanRun { idx0, idx1, col: eff, cell });
                    hold = None;
                    fut = Some(col_next);
                    adv = (idx1 - idx0) as i64;
                },
            }
        }
        if cell + adv > LIT_MAX {
            cell = LIT_MAX;
        } else {
            cell = cell + adv;
        }
        proof {
            let step = hl_step(pre_st, ctxs@[k as int], pre_cell, len as int);
            assert(span_runs_v(r@) =~= span_runs_v(pre_spans) + step.1);
            assert(cur_st(hold, fut) == step.0);
            assert(cell as int == cell_adv(pre_cell, step.2));
            assert(span_runs_v(pre_spans) + hl_run_from(
                ctxs@,
                k as int,
                pre_st,
                pre_cell,
                len as int,
            ) =~= span_runs_v(r@) + hl_run_from(
                ctxs@,
                k + 1,
                step.0,
                cell_adv(pre_cell, step.2),
                len as int,
            ));
        }
        k += 1;
    }
    match hold {
        Some(h) => r.push(SpanRun { idx0: h.0, idx1: h.1, col: DEFAULT, cell: h.2 }),
        None => {},
    }
    proof {
        assert(span_runs_v(r@) =~= line_spans(ctxs@, len as int));
    }
    r
}

/// The automaton state the executable loop carries, seen mathematically.
pub open spec fn cur_st(hold: Option<(usize, usize, i64)>, fut: Option<u64>) -> HlSt {
    HlSt {
        hold: match hold {
            Some(h) => Some((h.0 as int, h.1 as int, h.2 as int)),
            None => None,
        },
        fut,
    }
}

// ------------------------------------------------------------------
// Dirt-driven re-classification.
// ------------------------------------------------------------------

/// Whether the marker names logical line `k` for re-classification.
pub open spec fn is_dirty(d: Dirt, k: int) -> bool {
    match d {
        Dirt::Clean => false,
        Dirt::On(i) => k == i,
        Dirt::Range(a, b) => a <= k < b,
        Dirt::All => true,
    }
}

/// Copies the byte range `[a, b)` out of a line.
pub fn copy_range(src: &Vec<u8>, a: usize, b: usize) -> (r: Vec<u8>)
    requires
        a <= b <= src@.len(),
    ensures
        r@ == src@.subrange(a as int, b as int),
{
    let mut r: Vec<u8> = Vec::new();
    let mut i: usize = a;
    while i < b
        invariant
            a <= i <= b <= src@.len(),
            r@ =~= src@.subrange(a as int, i as int),
        decreases b - i,
    {
        r.push(src[i]);
        proof {
            assert(r@ =~= src@.subrange(a as int, i + 1));
        }
        i += 1;
    }
    r
}

/// Asks the classifier for one tag per token of the line, in token order.
/// The tags themselves are whatever the unverified classifier returns.
pub fn gather_tags<C: Classifier>(cls: &mut C, bytes: &Vec<u8>) -> (r: Vec<Cls>)
    ensures
        r@.len() == tokens_of(bytes@).len(),
{
    let toks = tokenize(bytes);
    proof {
        lemma_toks_in_range(bytes@, 0);
    }
    let mut r: Vec<Cls> = Vec::new();
    let mut k: usize = 0;
    let n = toks.len();
    while k < n
        invariant
            k <= n,
            n == toks@.len(),
            n == tokens_of(bytes@).len(),
            forall|j: int|
                0 <= j < n ==> (#[trigger] toks@[j]).0 == tokens_of(bytes@)[j].0 && toks@[j].1
                    == tokens_of(bytes@)[j].1,
            forall|j: int|
                0 <= j < tokens_of(bytes@).len() ==> {
                    let t = #[trigger] tokens_of(bytes@)[j];
                    0 <= t.0 < t.1 <= bytes@.len()
                },
            r@.len() == k,
        decreases n - k,
    {
        let t = toks[k];
        let word = copy_range(bytes, t.0, t.1);
        let tag = cls.classify(&word);
        r.push(tag);
        k += 1;
    }
    r
}

/// What recomputing leaves of one dirty line: bytes and cursor state kept,
/// the span cache rebuilt from the bytes and a tag sequence holding one
/// classifier answer per token — so the cache has exactly one record per
/// token, whatever the classifier said.
pub open spec fn reclassified(o: LineV, n: LineV) -> bool {
    &&& n.buffer == o.buffer
    &&& n.cursor_state == o.cursor_state
    &&& exists|tags: Seq<Cls>|
        tags.len() == tokens_of(o.buffer).len() && n.ctxs == #[trigger] ctx_of(o.buffer, tags)
}

/// Everything of an editable node except its lines and dirt marker.
pub open spec fn same_edit_shell(o: EditV, n: EditV) -> bool {
    &&& n.split == o.split
    &&& n.char_size == o.char_size
    &&& n.frame_size == o.frame_size
    &&& n.offset == o.offset
    &&& n.cursor == o.cursor
    &&& n.font == o.font
    &&& n.pad == o.pad
}

/// Re-classifies logical line `k` of the buffer.
fn recompute_line<C: Classifier>(edit: &mut Edit, cls: &mut C, k: usize)
    requires
        k < old(edit).left@.len() + old(edit).right@.len(),
    ensures
        ({
            let o = old(edit).deep();
            let nv = final(edit).deep();
            &&& same_edit_shell(o, nv)
            &&& nv.dirt == o.dirt
            &&& nv.lines.len() == o.lines.len()
            &&& forall|j: int| 0 <= j < o.lines.len() && j != k ==> nv.lines[j] == o.lines[j]
            &&& reclassified(o.lines[k as int], nv.lines[k as int])
        }),
{
    let nl = edit.left.len();
    let ghost o = edit.deep();
    if k < nl {
        let tags = gather_tags(cls, &edit.left[k].buffer);
        let ctxs = classify_line(&edit.left[k].buffer, &tags);
        let ghost tagsv = tags@;
        let line = &mut edit.left[k];
        line.ctx_buffer = ctxs;
        proof {
            assert(o.lines[k as int] == old(edit).left@[k as int].deep());
            assert(final(edit).deep().lines =~= o.lines.update(
                k as int,
                final(edit).left@[k as int].deep(),
            ));
            assert(final(edit).deep().lines[k as int].ctxs == ctx_of(
                o.lines[k as int].buffer,
                tagsv,
            ));
        }
    } else {
        let j = edit.right.len() - 1 - (k - nl);
        let tags = gather_tags(cls, &edit.right[j].buffer);
        let ctxs = classify_line(&edit.right[j].buffer, &tags);
        let ghost tagsv = tags@;
        let line = &mut edit.right[j];
        line.ctx_buffer = ctxs;
        proof {
            assert(o.lines[k as int] == old(edit).right@[j as int].deep());
            assert(final(edit).deep().lines =~= o.lines.update(
                k as int,
                final(edit).right@[j as int].deep(),
            ));
            assert(final(edit).deep().lines[k as int].ctxs == ctx_of(
                o.lines[k as int].buffer,
                tagsv,
            ));
        }
    }
}

/// Re-classifies the lines the dirt marker names and resets it: one line,
/// a half-open range, every line, or nothing when the cache is valid.
/// A named line that the buffer does not have is skipped.
pub fn recompute<C: Classifier>(edit: &mut Edit, cls: &mut C)
    requires
        old(edit).left@.len() + old(edit).right@.len() <= usize::MAX,
    ensures
        ({
            let o = old(edit).deep();
            let nv = final(edit).deep();
            &&& same_edit_shell(o, nv)
            &&& nv.dirt == Dirt::Clean
            &&& nv.lines.len() == o.lines.len()
            &&& forall|j: int|
                0 <= j < o.lines.len() && !is_dirty(o.dirt, j) ==> nv.lines[j] == o.lines[j]
            &&& forall|j: int|
                0 <= j < o.lines.len() && is_dirty(o.dirt, j) ==> reclassified(
                    o.lines[j],
                    #[trigger] nv.lines[j],
                )
        }),
        old(edit).dirt is Clean ==> *final(cls) == *old(cls),
{
    let total = edit.left.len() + edit.right.len();
    let d = edit.dirt;
    let ghost o = edit.deep();
    match d {
        Dirt::Clean => {},
        Dirt::On(i) => {
            if i < total {
                recompute_line(edit, cls, i);
            }
        },
        Dirt::Range(a, b) => {
            let e = if b < total {
                b
            } else {
                total
            };
            let mut k: usize = if a < e {
                a
            } else {
                e
            };
            while k < e
                invariant
                    k <= e,
                    a <= k || k == e,
                    e <= total,
                    total == edit.left@.len() + edit.right@.len(),
                    same_edit_shell(o, edit.deep()),
                    edit.deep().dirt == o.dirt,
                    edit.deep().lines.len() == o.lines.len(),
                    forall|j: int|
                        0 <= j < o.lines.len() && !(a <= j < k) ==> edit.deep().lines[j]
                            == o.lines[j],
                    forall|j: int|
                        a <= j < k ==> reclassified(o.lines[j], #[trigger] edit.deep().lines[j]),
                decreases e - k,
            {
                recompute_line(edit, cls, k);
                k += 1;
            }
        },
        Dirt::All => {
            let mut k: usize = 0;
            while k < total
                invariant
                    k <= total,
                    total == edit.left@.len() + edit.right@.len(),
                    same_edit_shell(o, edit.deep()),
                    edit.deep().dirt == o.dirt,
                    edit.deep().lines.len() == o.lines.len(),
                    forall|j: int|
                        k <= j < o.lines.len() ==> edit.deep().lines[j] == o.lines[j],
                    forall|j: int|
                        0 <= j < k ==> reclassified(o.lines[j], #[trigger] edit.deep().lines[j]),
                decreases total - k,
            {
                recompute_line(edit, cls, k);
                k += 1;
            }
        },
    }
    edit.dirt = Dirt::Clean;
}

/// Law: the span cache a recomputation installs depends on the line's bytes
/// and the classifier's tags alone, never on the cache it replaces. So
/// recomputing an already-recomputed line with the same tags changes
/// nothing, and recomputing every line twice yields the same caches both
/// times.
pub proof fn lemma_highlight_idempotent(l: LineV, tags: Seq<Cls>)
    ensures
        ({
            let once = LineV { buffer: l.buffer, ctxs: ctx_of(l.buffer, tags), cursor_state: l.cursor_state };
            let twice = LineV {
                buffer: once.buffer,
                ctxs: ctx_of(once.buffer, tags),
                cursor_state: once.cursor_state,
            };
            twice == once
        }),
{
}

/// Law: a pending color override survives whitespace and colors the next
/// span immediately. If an override is pending and the records from `k` to
/// `m` are gaps followed by a deferrable span with a valid range, the run
/// renders that span at once with the override's color — it is not
/// deferred, the pending held span (if any) stays held — and the override
/// is spent; each gap only advances the cursor one cell.
pub proof fn lemma_future_override(
    ctxs: Seq<Ctx>,
    k: int,
    m: int,
    st: HlSt,
    cell: int,
    len: int,
)
    requires
        st.fut is Some,
        0 <= k <= m < ctxs.len(),
        forall|j: int| k <= j < m ==> ctxs[j] is Gap,
        ctxs[m] is Hold,
        valid_ctx(ctxs[m], len),
        0 <= cell <= LIT_MAX,
    ensures
        ({
            let c2: int = if cell + (m - k) > LIT_MAX {
                LIT_MAX as int
            } else {
                cell + (m - k)
            };
            let a = ctxs[m]->Hold_idx0 as int;
            let b = ctxs[m]->Hold_idx1 as int;
            hl_run_from(ctxs, k, st, cell, len) == seq![
                SpanV { idx0: a, idx1: b, col: st.fut->Some_0, cell: c2 },
            ] + hl_run_from(
                ctxs,
                m + 1,
                HlSt { hold: st.hold, fut: None },
                cell_adv(c2, b - a),
                len,
            )
        }),
    decreases m - k,
{
    if k < m {
        lemma_future_override(ctxs, k + 1, m, st, cell_adv(cell, 1), len);
    } else {
        let a = ctxs[m]->Hold_idx0 as int;
        let b = ctxs[m]->Hold_idx1 as int;
        assert(hl_run_from(ctxs, m, st, cell, len) =~= seq![
            SpanV { idx0: a, idx1: b, col: st.fut->Some_0, cell },
        ] + hl_run_from(
            ctxs,
            m + 1,
            HlSt { hold: st.hold, fut: None },
            cell_adv(cell, b - a),
            len,
        ));
    }
}

} // verus!
