use retained_ui::asset::{FontAsset, ImageDims};
use retained_ui::element::{
    Axis, BoxStyle, Ctx, Cursor, CursorState, Dirt, Edit, Element, Formula, Frame, Genus, Gravity,
    Image, Line, Size, SizePair, Text, TextStyle,
};
use retained_ui::geom::{Bound, Overflow, Pad, Vec2};
use retained_ui::io::Io;
use retained_ui::layout::{first_pass, measure_fits_check, silent_first_pass, Cache, NoListeners};
use retained_ui::paint::{place_fits_check, second_pass, Canvas, Cmd};
use retained_ui::io::Message;
use retained_ui::layout::Listeners;
use retained_ui::style::{Color, ColorVal, FontVal, PadVal, Sheet};

fn box_style() -> BoxStyle {
    BoxStyle { color: ColorVal::Lit(Color { a: 255, r: 9, g: 9, b: 9 }), pad: PadVal::Id(0) }
}

fn frame(children: Vec<Element>, sx: Size, sy: Size, gravity: Gravity) -> Element {
    Element::new(Genus::Frame(Frame {
        children,
        size: SizePair { x: sx, y: sy },
        ceil: None,
        gravity,
        overflow: Overflow::Leak,
        child_offset: Vec2 { x: 0, y: 0 },
        style: box_style(),
    }))
}

fn leaf(w: i64, h: i64) -> Element {
    frame(Vec::new(), Size::Man(w), Size::Man(h), Gravity::Horizontal)
}

fn env() -> (Cache, Sheet) {
    let mut cache = Cache::new();
    cache.io.window_size = Vec2 { x: 800, y: 600 };
    (cache, Sheet::new())
}

#[test]
fn fixed_size_measures_exactly() {
    let (mut cache, sheet) = env();
    let mut l = NoListeners;
    let mut e = leaf(100, 50);
    first_pass(&mut e, &mut cache, &mut l, &sheet);
    assert_eq!(e.bound.dim, Vec2 { x: 100, y: 50 });
}

#[test]
fn window_size_fills_viewport() {
    let (mut cache, sheet) = env();
    let mut l = NoListeners;
    let mut e = frame(Vec::new(), Size::Window, Size::Window, Gravity::Horizontal);
    first_pass(&mut e, &mut cache, &mut l, &sheet);
    assert_eq!(e.bound.dim, Vec2 { x: 800, y: 600 });
}

#[test]
fn formula_size_is_exact() {
    let (mut cache, sheet) = env();
    let mut l = NoListeners;
    // half the viewport width, shifted by 10: 800 * 1 / 2 + 10 = 410
    let fx = Formula { axis: Axis::W, num: 1, den: 2, off: 10 };
    let mut e = frame(Vec::new(), Size::Func(fx), Size::Man(5), Gravity::Horizontal);
    first_pass(&mut e, &mut cache, &mut l, &sheet);
    assert_eq!(e.bound.dim, Vec2 { x: 410, y: 5 });
}

#[test]
fn fit_content_sums_children_and_insets() {
    let (mut cache, mut sheet) = env();
    sheet.set_pad(1, Pad { left: 3, right: 4, top: 1, low: 2 });
    let mut l = NoListeners;
    let mut a = leaf(10, 20);
    let mut b = leaf(30, 40);
    match &mut a.genus {
        Genus::Frame(f) => f.style.pad = PadVal::Id(1),
        _ => unreachable!(),
    }
    match &mut b.genus {
        Genus::Frame(f) => f.style.pad = PadVal::Id(1),
        _ => unreachable!(),
    }
    let mut parent = frame(vec![a, b], Size::Child, Size::Child, Gravity::Horizontal);
    first_pass(&mut parent, &mut cache, &mut l, &sheet);
    // width: (3 + 10 + 4) + (3 + 30 + 4) = 54; height: (1 + 20 + 2) + (1 + 40 + 2) = 66
    assert_eq!(parent.bound.dim, Vec2 { x: 54, y: 66 });
}

#[test]
fn fit_content_empty_is_zero() {
    let (mut cache, sheet) = env();
    let mut l = NoListeners;
    let mut e = frame(Vec::new(), Size::Child, Size::Child, Gravity::Vertical);
    first_pass(&mut e, &mut cache, &mut l, &sheet);
    assert_eq!(e.bound.dim, Vec2 { x: 0, y: 0 });
}

#[test]
fn ceiling_below_size_clamps_and_clips() {
    let (mut cache, sheet) = env();
    let mut l = NoListeners;
    let mut e = frame(Vec::new(), Size::Man(100), Size::Man(100), Gravity::Horizontal);
    match &mut e.genus {
        Genus::Frame(f) => f.ceil = Some(SizePair { x: Size::Man(60), y: Size::Man(200) }),
        _ => unreachable!(),
    }
    first_pass(&mut e, &mut cache, &mut l, &sheet);
    assert_eq!(e.bound.dim, Vec2 { x: 60, y: 100 });
    match &e.genus {
        Genus::Frame(f) => assert!(matches!(f.overflow, Overflow::Clip)),
        _ => unreachable!(),
    }
}

#[test]
fn ceiling_at_or_above_size_changes_nothing() {
    let (mut cache, sheet) = env();
    let mut l = NoListeners;
    let mut e = frame(Vec::new(), Size::Man(100), Size::Man(100), Gravity::Horizontal);
    match &mut e.genus {
        Genus::Frame(f) => f.ceil = Some(SizePair { x: Size::Man(100), y: Size::Man(300) }),
        _ => unreachable!(),
    }
    first_pass(&mut e, &mut cache, &mut l, &sheet);
    assert_eq!(e.bound.dim, Vec2 { x: 100, y: 100 });
    match &e.genus {
        Genus::Frame(f) => assert!(matches!(f.overflow, Overflow::Leak)),
        _ => unreachable!(),
    }
}

#[test]
fn text_measures_against_font_metrics() {
    let (mut cache, sheet) = env();
    cache.font.insert(0, FontAsset { advance: 7, ascent: 9, height: 12 });
    let mut l = NoListeners;
    let mut e = Element::new(Genus::Text(Text {
        text: b"abc".to_vec(),
        style: TextStyle {
            color: ColorVal::Id(0),
            pad: PadVal::Id(0),
            font: FontVal::Key(0),
        },
    }));
    first_pass(&mut e, &mut cache, &mut l, &sheet);
    assert_eq!(e.bound.dim, Vec2 { x: 21, y: 12 });
}

#[test]
fn text_with_missing_font_keeps_stale_box() {
    let (mut cache, sheet) = env();
    let mut l = NoListeners;
    let mut e = Element::new(Genus::Text(Text {
        text: b"abc".to_vec(),
        style: TextStyle {
            color: ColorVal::Id(0),
            pad: PadVal::Id(0),
            font: FontVal::Key(77),
        },
    }));
    e.bound.dim = Vec2 { x: 5, y: 6 };
    first_pass(&mut e, &mut cache, &mut l, &sheet);
    assert_eq!(e.bound.dim, Vec2 { x: 5, y: 6 });
}

fn image_with_fallback(src: u64, fw: i64, fh: i64) -> Element {
    Element::new(Genus::Img(Image {
        src,
        fallback: Box::new(leaf(fw, fh)),
        style: box_style(),
    }))
}

#[test]
fn image_hit_uses_decoded_dims() {
    let (mut cache, sheet) = env();
    cache.image.insert(4, ImageDims { w: 120, h: 80 });
    let mut l = NoListeners;
    let mut e = image_with_fallback(4, 10, 10);
    first_pass(&mut e, &mut cache, &mut l, &sheet);
    assert_eq!(e.bound.dim, Vec2 { x: 120, y: 80 });
}

#[test]
fn image_miss_measures_to_fallback_extent() {
    let (mut cache, sheet) = env();
    let mut l = NoListeners;
    let mut e = image_with_fallback(4, 33, 44);
    first_pass(&mut e, &mut cache, &mut l, &sheet);
    assert_eq!(e.bound.dim, Vec2 { x: 33, y: 44 });
}

#[test]
fn culled_node_is_skipped_whole() {
    let (mut cache, sheet) = env();
    let mut l = NoListeners;
    let mut e = leaf(100, 50);
    e.bound.pos = Vec2 { x: 5000, y: 0 };
    first_pass(&mut e, &mut cache, &mut l, &sheet);
    assert_eq!(e.bound.dim, Vec2 { x: 0, y: 0 });
}

#[test]
fn silent_pass_never_skips() {
    let (cache, sheet) = env();
    let mut e = leaf(100, 50);
    e.bound.pos = Vec2 { x: 5000, y: 0 };
    silent_first_pass(&mut e, &cache, &sheet);
    assert_eq!(e.bound.dim, Vec2 { x: 100, y: 50 });
}

fn sample_tree() -> Element {
    let a = leaf(10, 20);
    let b = leaf(30, 40);
    frame(vec![a, b], Size::Child, Size::Child, Gravity::Horizontal)
}

#[test]
fn repeated_passes_yield_identical_boxes() {
    let (mut cache1, sheet1) = env();
    let (mut cache2, sheet2) = env();
    let mut l = NoListeners;
    let mut e1 = sample_tree();
    let mut e2 = sample_tree();
    first_pass(&mut e1, &mut cache1, &mut l, &sheet1);
    first_pass(&mut e2, &mut cache2, &mut l, &sheet2);
    let mut c1 = Canvas::new();
    let mut c2 = Canvas::new();
    second_pass(&mut e1, &mut c1, &cache1, &sheet1);
    second_pass(&mut e2, &mut c2, &cache2, &sheet2);
    assert_eq!(e1.bound, e2.bound);
    match (&e1.genus, &e2.genus) {
        (Genus::Frame(f1), Genus::Frame(f2)) => {
            assert_eq!(f1.children.len(), f2.children.len());
            for (k1, k2) in f1.children.iter().zip(f2.children.iter()) {
                assert_eq!(k1.bound, k2.bound);
            }
        },
        _ => unreachable!(),
    }
    assert_eq!(c1.ops.len(), c2.ops.len());
}

#[test]
fn horizontal_siblings_are_packed_without_overlap() {
    let (mut cache, mut sheet) = env();
    sheet.set_pad(1, Pad { left: 2, right: 3, top: 0, low: 0 });
    let mut l = NoListeners;
    let mut a = leaf(10, 20);
    match &mut a.genus {
        Genus::Frame(f) => f.style.pad = PadVal::Id(1),
        _ => unreachable!(),
    }
    let b = leaf(30, 40);
    let mut parent = frame(vec![a, b], Size::Child, Size::Child, Gravity::Horizontal);
    first_pass(&mut parent, &mut cache, &mut l, &sheet);
    let mut canvas = Canvas::new();
    second_pass(&mut parent, &mut canvas, &cache, &sheet);
    match &parent.genus {
        Genus::Frame(f) => {
            let a = &f.children[0];
            let b = &f.children[1];
            // first child placed after its leading inset
            assert_eq!(a.bound.pos, Vec2 { x: 2, y: 0 });
            // second child starts where the first one's extent and insets end
            assert_eq!(b.bound.pos, Vec2 { x: 2 + 10 + 3, y: 0 });
            assert!(a.bound.pos.x + a.bound.dim.x + a.bound.shadow.right <= b.bound.pos.x);
        },
        _ => unreachable!(),
    }
}

#[test]
fn vertical_siblings_advance_on_y() {
    let (mut cache, sheet) = env();
    let mut l = NoListeners;
    let a = leaf(10, 20);
    let b = leaf(30, 40);
    let mut parent = frame(vec![a, b], Size::Child, Size::Child, Gravity::Vertical);
    first_pass(&mut parent, &mut cache, &mut l, &sheet);
    let mut canvas = Canvas::new();
    second_pass(&mut parent, &mut canvas, &cache, &sheet);
    match &parent.genus {
        Genus::Frame(f) => {
            assert_eq!(f.children[0].bound.pos, Vec2 { x: 0, y: 0 });
            assert_eq!(f.children[1].bound.pos, Vec2 { x: 0, y: 20 });
        },
        _ => unreachable!(),
    }
}

#[test]
fn container_paint_is_rect_then_balanced_scope() {
    let (mut cache, sheet) = env();
    let mut l = NoListeners;
    let mut e = leaf(100, 50);
    first_pass(&mut e, &mut cache, &mut l, &sheet);
    let mut canvas = Canvas::new();
    second_pass(&mut e, &mut canvas, &cache, &sheet);
    assert_eq!(canvas.ops.len(), 3);
    assert!(matches!(canvas.ops[0], Cmd::Rect { x: 0, y: 0, w: 100, h: 50, .. }));
    assert!(matches!(canvas.ops[1], Cmd::Save));
    assert!(matches!(canvas.ops[2], Cmd::Restore));
}

#[test]
fn clipping_container_emits_clip() {
    let (mut cache, sheet) = env();
    let mut l = NoListeners;
    let mut e = frame(Vec::new(), Size::Man(100), Size::Man(100), Gravity::Horizontal);
    match &mut e.genus {
        Genus::Frame(f) => f.ceil = Some(SizePair { x: Size::Man(60), y: Size::Man(200) }),
        _ => unreachable!(),
    }
    first_pass(&mut e, &mut cache, &mut l, &sheet);
    let mut canvas = Canvas::new();
    second_pass(&mut e, &mut canvas, &cache, &sheet);
    assert!(matches!(canvas.ops[2], Cmd::Clip { x: 0, y: 0, w: 60, h: 100, .. }));
}

#[test]
fn image_miss_paints_fallback_at_image_box() {
    let (mut cache, sheet) = env();
    let mut l = NoListeners;
    let mut img = image_with_fallback(4, 33, 44);
    first_pass(&mut img, &mut cache, &mut l, &sheet);
    let mut canvas = Canvas::new();
    second_pass(&mut img, &mut canvas, &cache, &sheet);
    // the fallback is a plain container: its rectangle at the image's box
    assert!(matches!(canvas.ops[0], Cmd::Rect { x: 0, y: 0, w: 33, h: 44, .. }));
}

#[test]
fn image_hit_paints_blit() {
    let (mut cache, sheet) = env();
    cache.image.insert(4, ImageDims { w: 120, h: 80 });
    let mut l = NoListeners;
    let mut img = image_with_fallback(4, 33, 44);
    first_pass(&mut img, &mut cache, &mut l, &sheet);
    let mut canvas = Canvas::new();
    second_pass(&mut img, &mut canvas, &cache, &sheet);
    assert_eq!(canvas.ops.len(), 1);
    assert!(matches!(canvas.ops[0], Cmd::Blit { src: 4, w: 120, h: 80, .. }));
}

#[test]
fn cult_subtree_is_measured_but_not_painted() {
    let (mut cache, sheet) = env();
    let mut l = NoListeners;
    let inner = leaf(10, 10);
    let mut e = Element::new(Genus::Cult(Frame {
        children: vec![inner],
        size: SizePair { x: Size::Child, y: Size::Child },
        ceil: None,
        gravity: Gravity::Horizontal,
        overflow: Overflow::Leak,
        child_offset: Vec2 { x: 0, y: 0 },
        style: box_style(),
    }));
    first_pass(&mut e, &mut cache, &mut l, &sheet);
    assert_eq!(e.bound.dim, Vec2 { x: 10, y: 10 });
    let mut canvas = Canvas::new();
    second_pass(&mut e, &mut canvas, &cache, &sheet);
    assert!(canvas.ops.is_empty());
}

#[test]
fn culled_node_paints_nothing() {
    let (mut cache, sheet) = env();
    let mut l = NoListeners;
    let mut e = leaf(100, 50);
    first_pass(&mut e, &mut cache, &mut l, &sheet);
    e.bound.pos = Vec2 { x: -500, y: 0 };
    let mut canvas = Canvas::new();
    second_pass(&mut e, &mut canvas, &cache, &sheet);
    assert!(canvas.ops.is_empty());
}

#[test]
fn input_node_measures_to_its_grid() {
    let (mut cache, sheet) = env();
    let mut l = NoListeners;
    let mut e = Element::new(Genus::Input(Edit {
        left: Vec::new(),
        right: Vec::new(),
        char_size: Vec2 { x: 8, y: 16 },
        frame_size: Vec2 { x: 240, y: 160 },
        offset: Vec2 { x: 0, y: 0 },
        cursor: Cursor { col: ColorVal::Id(0), width: 2 },
        font: FontVal::Key(0),
        pad: PadVal::Id(0),
        dirt: Dirt::Clean,
    }));
    first_pass(&mut e, &mut cache, &mut l, &sheet);
    assert_eq!(e.bound.dim, Vec2 { x: 240, y: 160 });
}

#[test]
fn listener_enqueues_signal_in_preorder() {
    struct Echo;

    impl Listeners for Echo {
        fn notify(&mut self, id: u64, _element: &Element, _io: &Io) -> Option<(u64, Message)> {
            Some((id, Message::Num(id as i64)))
        }
    }

    let (mut cache, sheet) = env();
    let mut l = Echo;
    let mut child = leaf(10, 10);
    child.listener = Some(2);
    let mut parent = frame(vec![child], Size::Child, Size::Child, Gravity::Horizontal);
    parent.listener = Some(1);
    first_pass(&mut parent, &mut cache, &mut l, &sheet);
    assert_eq!(cache.io.queue.len(), 2);
    assert!(matches!(cache.io.queue[0], (1, Message::Num(1))));
    assert!(matches!(cache.io.queue[1], (2, Message::Num(2))));
}

#[test]
fn input_paints_clip_cursor_and_spans() {
    let (mut cache, sheet) = env();
    cache.font.insert(0, FontAsset { advance: 8, ascent: 12, height: 16 });
    let mut l = NoListeners;
    let line = Line {
        buffer: b"ab".to_vec(),
        ctx_buffer: vec![Ctx::Put { idx0: 0, idx1: 2, col: 5 }],
        cursor_state: CursorState::Display { char_idx: 1 },
    };
    let mut e = Element::new(Genus::Input(Edit {
        left: vec![line],
        right: Vec::new(),
        char_size: Vec2 { x: 8, y: 16 },
        frame_size: Vec2 { x: 100, y: 100 },
        offset: Vec2 { x: 0, y: 0 },
        cursor: Cursor { col: ColorVal::Id(0), width: 2 },
        font: FontVal::Key(0),
        pad: PadVal::Id(0),
        dirt: Dirt::Clean,
    }));
    first_pass(&mut e, &mut cache, &mut l, &sheet);
    let mut canvas = Canvas::new();
    second_pass(&mut e, &mut canvas, &cache, &sheet);
    assert_eq!(canvas.ops.len(), 5);
    assert!(matches!(canvas.ops[0], Cmd::Save));
    assert!(matches!(canvas.ops[1], Cmd::Clip { x: 0, y: 0, w: 100, h: 100, .. }));
    assert!(matches!(canvas.ops[2], Cmd::Rect { x: 8, y: 0, w: 2, h: 16, .. }));
    match &canvas.ops[3] {
        Cmd::Glyphs { bytes, x, y, font, .. } => {
            assert_eq!(bytes.as_slice(), b"ab");
            assert_eq!((*x, *y, *font), (0, 0, 0));
        },
        _ => panic!("expected a glyph run"),
    }
    assert!(matches!(canvas.ops[4], Cmd::Restore));
}

#[test]
fn input_with_missing_font_paints_nothing() {
    let (mut cache, sheet) = env();
    let mut l = NoListeners;
    let mut e = Element::new(Genus::Input(Edit {
        left: Vec::new(),
        right: Vec::new(),
        char_size: Vec2 { x: 8, y: 16 },
        frame_size: Vec2 { x: 100, y: 100 },
        offset: Vec2 { x: 0, y: 0 },
        cursor: Cursor { col: ColorVal::Id(0), width: 2 },
        font: FontVal::Key(31),
        pad: PadVal::Id(0),
        dirt: Dirt::Clean,
    }));
    first_pass(&mut e, &mut cache, &mut l, &sheet);
    let mut canvas = Canvas::new();
    second_pass(&mut e, &mut canvas, &cache, &sheet);
    assert!(canvas.ops.is_empty());
}

#[test]
fn rotated_container_carries_its_angle() {
    let (mut cache, sheet) = env();
    let mut l = NoListeners;
    let mut e = leaf(40, 40);
    e.bound.angle = 45;
    first_pass(&mut e, &mut cache, &mut l, &sheet);
    let mut canvas = Canvas::new();
    second_pass(&mut e, &mut canvas, &cache, &sheet);
    assert!(matches!(canvas.ops[0], Cmd::Rect { angle: 45, .. }));
}

#[test]
fn well_formed_accepts_valid_and_rejects_oversized() {
    let e = sample_tree();
    assert!(e.well_formed());
    let mut bad = leaf(0x200_0000, 10);
    assert!(!bad.well_formed());
    bad = leaf(10, 10);
    bad.bound.dim = Vec2 { x: -1, y: 0 };
    assert!(!bad.well_formed());
}

#[test]
fn float_lays_out_like_frame() {
    let (mut cache, sheet) = env();
    let mut l = NoListeners;
    let mut e = Element::new(Genus::Float(Frame {
        children: vec![leaf(10, 20)],
        size: SizePair { x: Size::Child, y: Size::Child },
        ceil: None,
        gravity: Gravity::Horizontal,
        overflow: Overflow::Leak,
        child_offset: Vec2 { x: 0, y: 0 },
        style: box_style(),
    }));
    first_pass(&mut e, &mut cache, &mut l, &sheet);
    assert_eq!(e.bound.dim, Vec2 { x: 10, y: 20 });
}

#[test]
fn child_offset_shifts_the_content_origin() {
    let (mut cache, sheet) = env();
    let mut l = NoListeners;
    let mut parent = frame(vec![leaf(10, 10)], Size::Man(100), Size::Man(100), Gravity::Horizontal);
    match &mut parent.genus {
        Genus::Frame(f) => f.child_offset = Vec2 { x: 7, y: 11 },
        _ => unreachable!(),
    }
    first_pass(&mut parent, &mut cache, &mut l, &sheet);
    let mut canvas = Canvas::new();
    second_pass(&mut parent, &mut canvas, &cache, &sheet);
    match &parent.genus {
        Genus::Frame(f) => assert_eq!(f.children[0].bound.pos, Vec2 { x: 7, y: 11 }),
        _ => unreachable!(),
    }
}

#[test]
fn input_skips_lines_outside_its_box() {
    let (mut cache, sheet) = env();
    cache.font.insert(0, FontAsset { advance: 8, ascent: 12, height: 16 });
    let mut l = NoListeners;
    let lines: Vec<Line> = (0..4)
        .map(|_| Line {
            buffer: b"x".to_vec(),
            ctx_buffer: vec![Ctx::Put { idx0: 0, idx1: 1, col: 1 }],
            cursor_state: CursorState::Hidden,
        })
        .collect();
    let mut e = Element::new(Genus::Input(Edit {
        left: lines,
        right: Vec::new(),
        char_size: Vec2 { x: 8, y: 16 },
        // two 16-pixel lines fit the 32-pixel box; the later two are culled
        frame_size: Vec2 { x: 100, y: 32 },
        offset: Vec2 { x: 0, y: 0 },
        cursor: Cursor { col: ColorVal::Id(0), width: 2 },
        font: FontVal::Key(0),
        pad: PadVal::Id(0),
        dirt: Dirt::Clean,
    }));
    first_pass(&mut e, &mut cache, &mut l, &sheet);
    let mut canvas = Canvas::new();
    second_pass(&mut e, &mut canvas, &cache, &sheet);
    let glyph_runs = canvas
        .ops
        .iter()
        .filter(|c| matches!(c, Cmd::Glyphs { .. }))
        .count();
    // line tops 0, 16 and 32 fall inside the box; 48 does not
    assert_eq!(glyph_runs, 3);
}

#[test]
fn fit_checks_predict_the_passes() {
    let (mut cache, sheet) = env();
    let mut l = NoListeners;
    let mut e = sample_tree();
    let checked = measure_fits_check(&e, &cache, &sheet, false);
    first_pass(&mut e, &mut cache, &mut l, &sheet);
    assert_eq!(checked.map(|c| c.0), Some(e.bound.dim));
    assert!(place_fits_check(&e, &cache, &sheet, e.bound.pos.x, e.bound.pos.y));
}

#[test]
fn place_check_rejects_an_origin_past_the_bound() {
    let (cache, sheet) = env();
    let e = leaf(10, 10);
    assert!(!place_fits_check(&e, &cache, &sheet, i64::MAX, 0));
}

#[test]
fn rerun_of_a_visible_layout_is_bit_identical() {
    let (mut cache, sheet) = env();
    let mut l = NoListeners;
    let mut e = sample_tree();
    first_pass(&mut e, &mut cache, &mut l, &sheet);
    let mut c1 = Canvas::new();
    second_pass(&mut e, &mut c1, &cache, &sheet);
    let before = e.bound;
    let kids_before: Vec<Bound> = match &e.genus {
        Genus::Frame(f) => f.children.iter().map(|c| c.bound).collect(),
        _ => unreachable!(),
    };
    first_pass(&mut e, &mut cache, &mut l, &sheet);
    let mut c2 = Canvas::new();
    second_pass(&mut e, &mut c2, &cache, &sheet);
    assert_eq!(e.bound, before);
    match &e.genus {
        Genus::Frame(f) => {
            for (c, b) in f.children.iter().zip(kids_before.iter()) {
                assert_eq!(c.bound, *b);
            }
        },
        _ => unreachable!(),
    }
    assert_eq!(c1.ops, c2.ops);
}
