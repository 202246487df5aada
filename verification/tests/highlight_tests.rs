use retained_ui::element::{Ctx, CursorState, Dirt, Edit, Line, Cursor};
use retained_ui::geom::Vec2;
use retained_ui::highlight::{
    classify_line, recompute, render_line, tokenize, Classifier, Cls, SpanRun,
};
use retained_ui::style::{ColorVal, FontVal, PadVal, DEFAULT};

fn line(bytes: &[u8]) -> Line {
    Line { buffer: bytes.to_vec(), ctx_buffer: Vec::new(), cursor_state: CursorState::Hidden }
}

fn edit_of(lines: Vec<Line>, dirt: Dirt) -> Edit {
    Edit {
        left: lines,
        right: Vec::new(),
        char_size: Vec2 { x: 8, y: 16 },
        frame_size: Vec2 { x: 100, y: 100 },
        offset: Vec2 { x: 0, y: 0 },
        cursor: Cursor { col: ColorVal::Id(0), width: 2 },
        font: FontVal::Key(0),
        pad: PadVal::Id(0),
        dirt,
    }
}

/// The classifier of the span-transition scenario: `struct` announces a
/// color for the next span, `fn` draws, a space is a gap, all else holds.
struct Scenario;

impl Classifier for Scenario {
    fn classify(&mut self, token: &Vec<u8>) -> Cls {
        if token.as_slice() == b"struct" {
            Cls::Future(2, 3)
        } else if token.as_slice() == b"fn" {
            Cls::Put(2)
        } else if token.as_slice() == b" " {
            Cls::Gap
        } else {
            Cls::Hold
        }
    }
}

#[test]
fn tokenize_words_and_spaces() {
    let toks = tokenize(&b"struct mm  ".to_vec());
    assert_eq!(toks, vec![(0, 6), (6, 7), (7, 9), (9, 10), (10, 11)]);
}

#[test]
fn tokenize_empty_line() {
    let toks = tokenize(&Vec::new());
    assert!(toks.is_empty());
}

#[test]
fn classify_line_pairs_tokens_with_tags() {
    let bytes = b"ab c".to_vec();
    let tags = vec![Cls::Put(5), Cls::Gap, Cls::Hold];
    let ctxs = classify_line(&bytes, &tags);
    assert_eq!(ctxs.len(), 3);
    assert!(matches!(ctxs[0], Ctx::Put { idx0: 0, idx1: 2, col: 5 }));
    assert!(matches!(ctxs[1], Ctx::Gap));
    assert!(matches!(ctxs[2], Ctx::Hold { idx0: 3, idx1: 4 }));
}

#[test]
fn recompute_clean_is_a_no_op() {
    let mut edit = edit_of(vec![line(b"struct mm")], Dirt::Clean);
    let mut cls = Scenario;
    recompute(&mut edit, &mut cls);
    assert!(edit.left[0].ctx_buffer.is_empty());
    assert!(matches!(edit.dirt, Dirt::Clean));
}

#[test]
fn recompute_on_touches_one_line_only() {
    let mut edit = edit_of(vec![line(b"fn a"), line(b"fn b")], Dirt::On(1));
    let mut cls = Scenario;
    recompute(&mut edit, &mut cls);
    assert!(edit.left[0].ctx_buffer.is_empty());
    assert_eq!(edit.left[1].ctx_buffer.len(), 3);
    assert!(matches!(edit.dirt, Dirt::Clean));
}

#[test]
fn recompute_range_is_half_open() {
    let mut edit = edit_of(vec![line(b"x"), line(b"y"), line(b"z")], Dirt::Range(0, 2));
    let mut cls = Scenario;
    recompute(&mut edit, &mut cls);
    assert_eq!(edit.left[0].ctx_buffer.len(), 1);
    assert_eq!(edit.left[1].ctx_buffer.len(), 1);
    assert!(edit.left[2].ctx_buffer.is_empty());
}

#[test]
fn recompute_all_covers_gap_buffer_halves() {
    let mut edit = edit_of(vec![line(b"fn a")], Dirt::All);
    edit.right.push(line(b"fn b"));
    let mut cls = Scenario;
    recompute(&mut edit, &mut cls);
    assert_eq!(edit.left[0].ctx_buffer.len(), 3);
    assert_eq!(edit.right[0].ctx_buffer.len(), 3);
}

#[test]
fn recompute_all_twice_yields_same_caches() {
    let mut edit = edit_of(vec![line(b"struct mm  "), line(b"fn x")], Dirt::All);
    let mut cls = Scenario;
    recompute(&mut edit, &mut cls);
    let once: Vec<Vec<Ctx>> = edit.left.iter().map(|l| l.ctx_buffer.clone()).collect();
    edit.dirt = Dirt::All;
    recompute(&mut edit, &mut cls);
    let twice: Vec<Vec<Ctx>> = edit.left.iter().map(|l| l.ctx_buffer.clone()).collect();
    assert_eq!(once, twice);
}

#[test]
fn span_transitions_of_the_scenario_line() {
    // tokens of "struct mm  ": "struct", " ", "mm", " ", " "
    let bytes = b"struct mm  ".to_vec();
    let mut cls = Scenario;
    let mut edit = edit_of(vec![Line {
        buffer: bytes.clone(),
        ctx_buffer: Vec::new(),
        cursor_state: CursorState::Hidden,
    }], Dirt::All);
    recompute(&mut edit, &mut cls);
    let spans = render_line(&edit.left[0].ctx_buffer, bytes.len());
    // "struct" renders with its own color 2; the pending override colors
    // "mm" with 3; the gaps render nothing.
    assert_eq!(
        spans,
        vec![
            SpanRun { idx0: 0, idx1: 6, col: 2, cell: 0 },
            SpanRun { idx0: 7, idx1: 9, col: 3, cell: 7 },
        ]
    );
}

#[test]
fn put_flushes_a_pending_hold_with_default() {
    let ctxs = vec![
        Ctx::Hold { idx0: 0, idx1: 2 },
        Ctx::Put { idx0: 3, idx1: 4, col: 9 },
    ];
    let spans = render_line(&ctxs, 4);
    assert_eq!(
        spans,
        vec![
            SpanRun { idx0: 0, idx1: 2, col: DEFAULT, cell: 0 },
            SpanRun { idx0: 3, idx1: 4, col: 9, cell: 2 },
        ]
    );
}

#[test]
fn pull_flushes_a_pending_hold_with_its_color() {
    let ctxs = vec![
        Ctx::Hold { idx0: 0, idx1: 2 },
        Ctx::Pull { idx0: 3, idx1: 4, col_self: 7, col_prev: 8 },
    ];
    let spans = render_line(&ctxs, 4);
    assert_eq!(
        spans,
        vec![
            SpanRun { idx0: 0, idx1: 2, col: 8, cell: 0 },
            SpanRun { idx0: 3, idx1: 4, col: 7, cell: 2 },
        ]
    );
}

#[test]
fn line_break_flushes_a_pending_hold_with_default() {
    let ctxs = vec![Ctx::Hold { idx0: 1, idx1: 3 }];
    let spans = render_line(&ctxs, 3);
    assert_eq!(spans, vec![SpanRun { idx0: 1, idx1: 3, col: DEFAULT, cell: 0 }]);
}

#[test]
fn invalid_span_record_is_treated_as_gap() {
    // the range reaches past the line: skipped, advancing one cell
    let ctxs = vec![
        Ctx::Put { idx0: 0, idx1: 99, col: 5 },
        Ctx::Put { idx0: 0, idx1: 2, col: 6 },
    ];
    let spans = render_line(&ctxs, 4);
    assert_eq!(spans, vec![SpanRun { idx0: 0, idx1: 2, col: 6, cell: 1 }]);
}

#[test]
fn gap_advances_one_cell() {
    let ctxs = vec![Ctx::Gap, Ctx::Gap, Ctx::Put { idx0: 0, idx1: 1, col: 1 }];
    let spans = render_line(&ctxs, 2);
    assert_eq!(spans, vec![SpanRun { idx0: 0, idx1: 1, col: 1, cell: 2 }]);
}

#[test]
fn future_overrides_the_next_span_after_gaps() {
    let ctxs = vec![
        Ctx::Future { idx0: 0, idx1: 2, col_self: 1, col_next: 4 },
        Ctx::Gap,
        Ctx::Put { idx0: 3, idx1: 5, col: 9 },
    ];
    let spans = render_line(&ctxs, 5);
    assert_eq!(
        spans,
        vec![
            SpanRun { idx0: 0, idx1: 2, col: 1, cell: 0 },
            SpanRun { idx0: 3, idx1: 5, col: 4, cell: 3 },
        ]
    );
}

#[test]
fn reversed_range_recomputes_nothing() {
    let mut edit = edit_of(vec![line(b"x"), line(b"y")], Dirt::Range(2, 1));
    let mut cls = Scenario;
    recompute(&mut edit, &mut cls);
    assert!(edit.left[0].ctx_buffer.is_empty());
    assert!(edit.left[1].ctx_buffer.is_empty());
    assert!(matches!(edit.dirt, Dirt::Clean));
}

#[test]
fn on_out_of_range_is_skipped() {
    let mut edit = edit_of(vec![line(b"x")], Dirt::On(9));
    let mut cls = Scenario;
    recompute(&mut edit, &mut cls);
    assert!(edit.left[0].ctx_buffer.is_empty());
    assert!(matches!(edit.dirt, Dirt::Clean));
}
