use retained_ui::asset::{FontAsset, Fonts, ImageDims, Images, Pick};
use retained_ui::geom::Pad;
use retained_ui::io::{Dev, Io, Key, On};
use retained_ui::style::{Color, ColorVal, FontVal, PadVal, Sheet, DEFAULT};

fn color(a: u8, r: u8, g: u8, b: u8) -> Color {
    Color { a, r, g, b }
}

#[test]
fn literal_color_wins() {
    let sheet = Sheet::new();
    let c = sheet.resolve_color(ColorVal::Lit(color(1, 2, 3, 4)));
    assert_eq!(c, color(1, 2, 3, 4));
}

#[test]
fn symbolic_color_resolves() {
    let mut sheet = Sheet::new();
    sheet.set_color(7, color(255, 10, 20, 30));
    assert_eq!(sheet.resolve_color(ColorVal::Id(7)), color(255, 10, 20, 30));
}

#[test]
fn missing_color_falls_back_to_black() {
    let sheet = Sheet::new();
    assert_eq!(sheet.resolve_color(ColorVal::Id(99)), color(255, 0, 0, 0));
}

#[test]
fn missing_pad_falls_back_to_zero() {
    let sheet = Sheet::new();
    let p = sheet.resolve_pad(PadVal::Id(42));
    assert_eq!(p, Pad { left: 0, right: 0, top: 0, low: 0 });
}

#[test]
fn symbolic_pad_resolves() {
    let mut sheet = Sheet::new();
    sheet.set_pad(3, Pad { left: 1, right: 2, top: 3, low: 4 });
    assert_eq!(sheet.resolve_pad(PadVal::Id(3)), Pad { left: 1, right: 2, top: 3, low: 4 });
}

#[test]
fn missing_font_falls_back_to_default_key() {
    let sheet = Sheet::new();
    assert_eq!(sheet.resolve_font(FontVal::Id(5)), DEFAULT);
    assert_eq!(sheet.resolve_font(FontVal::Key(9)), 9);
}

#[test]
fn image_cache_miss_then_delivery() {
    let mut images = Images::new();
    assert_eq!(images.load(1), None);
    images.insert(1, ImageDims { w: 64, h: 32 });
    assert_eq!(images.load(1), Some(ImageDims { w: 64, h: 32 }));
}

#[test]
fn image_invalidate_one_and_all() {
    let mut images = Images::new();
    images.insert(1, ImageDims { w: 1, h: 1 });
    images.insert(2, ImageDims { w: 2, h: 2 });
    images.invalidate(Pick::One(1));
    assert_eq!(images.load(1), None);
    assert_eq!(images.load(2), Some(ImageDims { w: 2, h: 2 }));
    images.invalidate(Pick::All);
    assert_eq!(images.load(2), None);
}

#[test]
fn font_cache_lookup_and_invalidate() {
    let mut fonts = Fonts::new();
    assert_eq!(fonts.load_asset(0), None);
    fonts.insert(0, FontAsset { advance: 8, ascent: 10, height: 14 });
    assert_eq!(fonts.load_asset(0), Some(FontAsset { advance: 8, ascent: 10, height: 14 }));
    fonts.invalidate(Pick::All);
    assert_eq!(fonts.load_asset(0), None);
}

#[test]
fn io_pool_and_clean() {
    let mut io = Io::new();
    io.pool(On::Press(Dev::Key(Key::A)));
    io.pool(On::Release(Dev::Key(Key::A)));
    assert!(io.saw(On::Press(Dev::Key(Key::A))));
    assert!(!io.saw(On::Press(Dev::Key(Key::B))));
    io.clean();
    assert!(!io.saw(On::Press(Dev::Key(Key::A))));
}
