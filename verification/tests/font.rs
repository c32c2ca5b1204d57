use embedded_graphics::image::{ImageDrawable, ImageRaw};
use embedded_graphics::mock_display::MockDisplay;
use embedded_graphics::pixelcolor::BinaryColor;
use embedded_graphics::prelude::{Drawable, Primitive};
use embedded_graphics::primitives::PrimitiveStyle;
use embedded_graphics::Pixel;
use mogeefont::text_style::DrawPlan;
use mogeefont::{
    Baseline, Charset, CodepointIndex, Font, GlyphIndex, Kerning, MogeeTextStyle, Point, Rectangle,
    SideBearings, Size, StrLigatureSubstitution,
};

const ATLAS: [u8; 752] = [
    0x02, 0x80, 0x20, 0x00, 0x08, 0x00, 0x80, 0x00, 0x01, 0x00, 0x00, 0x00, 0x00, 0x00, 0x00, 0x00,
    0x0a, 0x80, 0x72, 0x23, 0x08, 0xa2, 0xa0, 0x00, 0x01, 0x70, 0x9c, 0xf1, 0xbc, 0x6f, 0x73, 0x80,
    0x08, 0x14, 0x95, 0x24, 0x81, 0x11, 0xc0, 0x00, 0x02, 0x49, 0x92, 0x12, 0xa0, 0x81, 0x4a, 0x40,
    0x08, 0x3e, 0x82, 0x44, 0x01, 0x12, 0xa2, 0x00, 0x02, 0x4a, 0x82, 0x64, 0xb9, 0x01, 0x4a, 0x40,
    0x08, 0x14, 0x60, 0x83, 0x22, 0x08, 0x82, 0x00, 0x04, 0x48, 0x84, 0x14, 0x85, 0xc2, 0x31, 0xd2,
    0x08, 0x3e, 0x11, 0x24, 0xa2, 0x08, 0x0f, 0x87, 0x84, 0x48, 0x88, 0x17, 0x85, 0x24, 0x48, 0x40,
    0x00, 0x14, 0x92, 0x54, 0x42, 0x08, 0x02, 0x00, 0x08, 0x48, 0x90, 0x90, 0xa5, 0x24, 0x48, 0x80,
    0x08, 0x00, 0xe2, 0x23, 0xa1, 0x10, 0x02, 0x10, 0x28, 0x3b, 0xde, 0x70, 0x9c, 0xe4, 0x3b, 0x12,
    0x00, 0x00, 0x40, 0x00, 0x01, 0x10, 0x00, 0x10, 0x00, 0x00, 0x00, 0x00, 0x00, 0x00, 0x00, 0x02,
    0x00, 0x00, 0x00, 0x00, 0x00, 0xa0, 0x00, 0x20, 0x00, 0x00, 0x00, 0x00, 0x00, 0x00, 0x00, 0x04,
    0x00, 0x00, 0x00, 0x00, 0x00, 0x00, 0x00, 0x00, 0x00, 0x00, 0x00, 0x00, 0x00, 0x00, 0x00, 0x00,
    0x00, 0x00, 0x00, 0x00, 0x00, 0x00, 0x00, 0x00, 0x00, 0x00, 0x00, 0x00, 0x00, 0x00, 0x00, 0x00,
    0x00, 0x00, 0x00, 0x00, 0x00, 0x00, 0x00, 0x00, 0x00, 0x00, 0x00, 0x00, 0x00, 0x00, 0x00, 0x00,
    0x00, 0x00, 0x30, 0x01, 0x9c, 0x77, 0x3b, 0x9d, 0x2e, 0x14, 0xa2, 0x29, 0x33, 0x8c, 0xe3, 0xbe,
    0x00, 0x00, 0x48, 0xf2, 0x52, 0x94, 0xa2, 0x25, 0x24, 0x14, 0xa2, 0x29, 0x4a, 0x52, 0x94, 0x88,
    0x18, 0x18, 0x09, 0x0a, 0x52, 0x84, 0xa2, 0x21, 0x24, 0x15, 0x23, 0x6d, 0x4a, 0x52, 0x94, 0x08,
    0x63, 0xc6, 0x32, 0x6a, 0x5c, 0x84, 0xbb, 0xad, 0xe4, 0x16, 0x22, 0xab, 0x4a, 0x52, 0xe3, 0x08,
    0x80, 0x01, 0x22, 0xab, 0xd2, 0x84, 0xa2, 0x25, 0x24, 0x15, 0x22, 0xa9, 0x4b, 0x92, 0xa0, 0x88,
    0x63, 0xc6, 0x02, 0xaa, 0x52, 0x94, 0xa2, 0x25, 0x24, 0x94, 0xa2, 0x29, 0x4a, 0x12, 0x94, 0x88,
    0x18, 0x18, 0x22, 0x72, 0x5c, 0x67, 0x3a, 0x19, 0x2e, 0x64, 0xba, 0x29, 0x32, 0x0c, 0x97, 0x08,
    0x00, 0x00, 0x01, 0x00, 0x00, 0x00, 0x00, 0x00, 0x00, 0x00, 0x00, 0x00, 0x00, 0x02, 0x00, 0x00,
    0x00, 0x00, 0x00, 0xe0, 0x00, 0x00, 0x00, 0x00, 0x00, 0x00, 0x00, 0x00, 0x00, 0x00, 0x00, 0x00,
    0x00, 0x00, 0x00, 0x00, 0x00, 0x00, 0x00, 0x00, 0x00, 0x00, 0x00, 0x00, 0x00, 0x00, 0x00, 0x00,
    0x00, 0x00, 0x00, 0x00, 0x00, 0x00, 0x00, 0x00, 0x00, 0x00, 0x00, 0x00, 0x00, 0x00, 0x00, 0x00,
    0x00, 0x00, 0x00, 0x00, 0x02, 0x00, 0x01, 0x00, 0x00, 0x00, 0x00, 0x00, 0x00, 0x00, 0x00, 0x00,
    0x94, 0xa4, 0xa2, 0x8b, 0xda, 0x19, 0x00, 0x82, 0x00, 0x80, 0xc1, 0x11, 0x44, 0x00, 0x00, 0x00,
    0x94, 0xa4, 0xa2, 0x88, 0x51, 0x0a, 0x80, 0x02, 0x00, 0x81, 0x01, 0x00, 0x44, 0x00, 0x00, 0x00,
    0x94, 0xa4, 0x94, 0x50, 0x91, 0x08, 0x00, 0x33, 0x31, 0x9b, 0x8d, 0x91, 0x55, 0xe6, 0x63, 0x66,
    0x94, 0xa4, 0x88, 0x51, 0x90, 0x88, 0x00, 0x0a, 0xaa, 0xa9, 0x15, 0x51, 0x55, 0x55, 0x55, 0x55,
    0x94, 0xa4, 0x94, 0x21, 0x10, 0x88, 0x00, 0x3a, 0xa2, 0xb9, 0x15, 0x51, 0x65, 0x55, 0x55, 0x55,
    0x95, 0x2d, 0x22, 0x22, 0x10, 0x48, 0x00, 0x2a, 0xaa, 0xa1, 0x09, 0x51, 0x55, 0x55, 0x55, 0x54,
    0x62, 0x12, 0x22, 0x23, 0xd0, 0x48, 0x00, 0x19, 0x9b, 0x19, 0x11, 0x51, 0x55, 0x55, 0x36, 0x34,
    0x00, 0x00, 0x00, 0x00, 0x10, 0x08, 0x00, 0x00, 0x00, 0x01, 0x0c, 0x01, 0x00, 0x00, 0x04, 0x10,
    0x00, 0x00, 0x00, 0x00, 0x18, 0x18, 0x00, 0x00, 0x00, 0x01, 0x04, 0x01, 0x00, 0x00, 0x04, 0x10,
    0x00, 0x00, 0x00, 0x00, 0x00, 0x00, 0x3c, 0x00, 0x00, 0x01, 0x18, 0x06, 0x00, 0x00, 0x04, 0x10,
    0x00, 0x00, 0x00, 0x00, 0x00, 0x00, 0x00, 0x00, 0x00, 0x00, 0x00, 0x00, 0x00, 0x00, 0x00, 0x00,
    0x00, 0x00, 0x00, 0x00, 0x00, 0x00, 0x00, 0x00, 0x00, 0x00, 0x00, 0x00, 0x00, 0x00, 0x00, 0x00,
    0x00, 0x00, 0x00, 0x00, 0x0a, 0x80, 0x16, 0x2c, 0x63, 0x04, 0x50, 0x00, 0x80, 0x00, 0x00, 0x00,
    0x08, 0x00, 0x00, 0x00, 0x12, 0x40, 0x28, 0x50, 0x84, 0x00, 0x00, 0x00, 0x00, 0x00, 0x00, 0x00,
    0x6e, 0xaa, 0xaa, 0xab, 0x92, 0x40, 0x7e, 0xf9, 0xef, 0x34, 0x53, 0x6a, 0x80, 0x00, 0x00, 0x00,
    0x88, 0xaa, 0xaa, 0xa8, 0x92, 0x45, 0x2a, 0x50, 0xa5, 0x54, 0x54, 0x8a, 0x80, 0x00, 0x00, 0x00,
    0x4a, 0xaa, 0xa9, 0x29, 0x22, 0x2a, 0x2a, 0x50, 0xa5, 0x54, 0x52, 0x4a, 0x80, 0x00, 0x00, 0x00,
    0x2a, 0xaa, 0xaa, 0xaa, 0x12, 0x40, 0x2a, 0x50, 0xa5, 0x24, 0x51, 0x2a, 0x80, 0x00, 0x00, 0x00,
    0xc6, 0xec, 0xd2, 0x9b, 0x92, 0x40, 0x2a, 0x50, 0xa5, 0x44, 0x56, 0xc6, 0x80, 0x00, 0x00, 0x00,
    0x00, 0x00, 0x00, 0x08, 0x12, 0x40, 0x28, 0x50, 0x85, 0x34, 0x50, 0x02, 0x80, 0x00, 0x00, 0x00,
    0x00, 0x00, 0x00, 0x08, 0x0a, 0x80, 0x28, 0x50, 0x81, 0x14, 0x50, 0x02, 0x80, 0x00, 0x00, 0x00,
    0x00, 0x00, 0x00, 0x30, 0x02, 0x00, 0x28, 0x50, 0x86, 0x69, 0xa0, 0x0d, 0x00, 0x00, 0x00, 0x00,
];

const GLYPH_DATA: [u8; 515] = [
    0x00, 0x00, 0xb3, 0x00, 0x00, 0x04, 0x00, 0xb1, 0x00, 0x00, 0x06, 0x00, 0xb3, 0x00, 0x06,
    0x0a, 0x00, 0xb5, 0x00, 0x00, 0x10, 0x00, 0xb4, 0x00, 0x00, 0x15, 0x00, 0xb7, 0x00, 0x00,
    0x1d, 0x00, 0xb6, 0x00, 0x00, 0x24, 0x00, 0xb1, 0x00, 0x06, 0x26, 0x00, 0xb3, 0x00, 0x00,
    0x2a, 0x00, 0xb3, 0x00, 0x00, 0x2e, 0x00, 0xb5, 0x00, 0x00, 0x34, 0x00, 0xb5, 0x00, 0x00,
    0x3a, 0x00, 0xb2, 0x00, 0x0e, 0x3d, 0x00, 0xb4, 0x00, 0x00, 0x42, 0x00, 0xb1, 0x00, 0x00,
    0x44, 0x00, 0xb4, 0x00, 0x02, 0x49, 0x00, 0xb4, 0x00, 0x00, 0x4e, 0x00, 0xb4, 0x00, 0x00,
    0x53, 0x00, 0xb4, 0x00, 0x00, 0x58, 0x00, 0xb4, 0x00, 0x00, 0x5d, 0x00, 0xb4, 0x00, 0x00,
    0x62, 0x00, 0xb4, 0x00, 0x00, 0x67, 0x00, 0xb4, 0x00, 0x00, 0x6c, 0x00, 0xb4, 0x00, 0x00,
    0x71, 0x00, 0xb4, 0x00, 0x00, 0x76, 0x00, 0xb4, 0x00, 0x00, 0x7b, 0x00, 0xb1, 0x00, 0x00,
    0x7d, 0x00, 0xb2, 0x00, 0x00, 0x00, 0x0c, 0xb5, 0x00, 0x00, 0x06, 0x0c, 0xb4, 0x00, 0x00,
    0x0b, 0x0c, 0xb5, 0x00, 0x00, 0x11, 0x0c, 0xb4, 0x00, 0x00, 0x16, 0x0c, 0xb7, 0x00, 0x00,
    0x1e, 0x0c, 0xb4, 0x00, 0x00, 0x23, 0x0c, 0xb4, 0x00, 0x00, 0x28, 0x0c, 0xb4, 0x00, 0x00,
    0x2d, 0x0c, 0xb4, 0x00, 0x00, 0x32, 0x0c, 0xb3, 0x00, 0x00, 0x36, 0x0c, 0xb3, 0x00, 0x00,
    0x3a, 0x0c, 0xb4, 0x00, 0x00, 0x3f, 0x0c, 0xb4, 0x00, 0x00, 0x44, 0x0c, 0xb3, 0x00, 0x00,
    0x48, 0x0c, 0xb4, 0x00, 0x00, 0x4d, 0x0c, 0xb4, 0x00, 0x00, 0x52, 0x0c, 0xb3, 0x00, 0x00,
    0x56, 0x0c, 0xb5, 0x00, 0x00, 0x5c, 0x0c, 0xb4, 0x00, 0x00, 0x61, 0x0c, 0xb4, 0x00, 0x00,
    0x66, 0x0c, 0xb4, 0x00, 0x00, 0x6b, 0x0c, 0xb4, 0x00, 0x00, 0x70, 0x0c, 0xb4, 0x00, 0x00,
    0x75, 0x0c, 0xb4, 0x00, 0x00, 0x7a, 0x0c, 0xb5, 0x04, 0x00, 0x00, 0x18, 0xb4, 0x00, 0x00,
    0x05, 0x18, 0xb4, 0x00, 0x00, 0x0a, 0x18, 0xb7, 0x00, 0x00, 0x12, 0x18, 0xb5, 0x00, 0x00,
    0x18, 0x18, 0xb5, 0x00, 0x0e, 0x1e, 0x18, 0xb4, 0x00, 0x00, 0x23, 0x18, 0xb2, 0x00, 0x00,
    0x26, 0x18, 0xb4, 0x00, 0x00, 0x2b, 0x18, 0xb2, 0x00, 0x00, 0x2e, 0x18, 0xb3, 0x00, 0x00,
    0x32, 0x18, 0xb4, 0x00, 0x00, 0x37, 0x18, 0xb2, 0x00, 0x0e, 0x3a, 0x18, 0xb3, 0x00, 0x00,
    0x3e, 0x18, 0xb3, 0x00, 0x00, 0x42, 0x18, 0xb3, 0x00, 0x00, 0x46, 0x18, 0xb3, 0x00, 0x00,
    0x4a, 0x18, 0xb3, 0x00, 0x00, 0x4e, 0x18, 0xb4, 0x05, 0x00, 0x53, 0x18, 0xb3, 0x00, 0x00,
    0x57, 0x18, 0xb3, 0x00, 0x00, 0x5b, 0x18, 0xb1, 0x00, 0x00, 0x5d, 0x18, 0xb3, 0x00, 0x00,
    0x61, 0x18, 0xb3, 0x00, 0x00, 0x65, 0x18, 0xb1, 0x00, 0x00, 0x67, 0x18, 0xb5, 0x00, 0x00,
    0x6d, 0x18, 0xb3, 0x00, 0x00, 0x71, 0x18, 0xb3, 0x10, 0x03, 0x75, 0x18, 0xb3, 0x00, 0x00,
    0x79, 0x18, 0xb3, 0x00, 0x00, 0x7d, 0x18, 0xb3, 0x00, 0x00, 0x00, 0x24, 0xb3, 0x0d, 0x00,
    0x04, 0x24, 0xb3, 0x00, 0x00, 0x08, 0x24, 0xb3, 0x00, 0x00, 0x0c, 0x24, 0xb3, 0x00, 0x00,
    0x10, 0x24, 0xb5, 0x00, 0x00, 0x16, 0x24, 0xb3, 0x00, 0x00, 0x1a, 0x24, 0xb3, 0x00, 0x00,
    0x1e, 0x24, 0xb3, 0x00, 0x00, 0x22, 0x24, 0xb3, 0x00, 0x00, 0x26, 0x24, 0xb1, 0x00, 0x00,
    0x28, 0x24, 0xb3, 0x00, 0x00, 0x2c, 0x24, 0xb4, 0x00, 0x00, 0x31, 0x24, 0xb6, 0x00, 0x00,
    0x38, 0x24, 0xb6, 0x00, 0x00, 0x3f, 0x24, 0xb4, 0x00, 0x00, 0x44, 0x24, 0xb4, 0x00, 0x00,
    0x49, 0x24, 0xb5, 0x00, 0x00, 0x4f, 0x24, 0xb5, 0x00, 0x00, 0x55, 0x24, 0xb6, 0x00, 0x00,
    0x5c, 0x24, 0xb5, 0x00, 0x00,
];

const BEARINGS: [(u32, i32, i32); 5] = [(0, 0, 0), (12, 0, 1), (27, 0, 1), (74, -2, 1), (100, -2, 1)];

const KERNING_PAIRS: [(u8, u8, i32); 42] = [
    (1, 14, -1), (2, 2, -1), (2, 6, 0), (2, 10, -1), (2, 13, -1), (2, 14, -1), (3, 3, -1),
    (3, 7, -1), (3, 14, -1), (4, 2, -2), (4, 4, -1), (4, 6, -1), (4, 7, -1), (4, 10, -1),
    (4, 13, -2), (4, 14, -2), (5, 3, -1), (5, 14, -1), (6, 2, -2), (6, 3, -1), (6, 4, -1),
    (6, 5, -1), (6, 6, -1), (6, 7, -2), (6, 13, -2), (6, 14, -2), (7, 3, -1), (7, 7, 0),
    (8, 7, 0), (13, 2, -1), (13, 14, -1), (14, 2, -1), (14, 6, -1), (14, 10, -1), (14, 14, -1),
    (15, 2, -1), (15, 13, -1), (16, 3, -1), (16, 7, -1), (16, 9, -1), (16, 14, -1), (17, 14, -1),
];

const KERNING_OVERRIDES: [(usize, usize, i32); 9] = [
    (15, 15, -2), (35, 70, -1), (41, 70, -1), (60, 60, -2), (70, 52, -2), (81, 70, -1),
    (81, 95, -1), (81, 96, -1), (81, 97, -1),
];

const LIGATURES: &str = "\0\u{66}\u{66}\u{69}\0\u{66}\u{66}\0\u{66}\u{69}\0\u{66}\u{6a}\0\u{67}\u{6a}\0\u{6a}\u{6a}\0\u{73}\u{73}\0\u{79}\u{6a}";

fn mogeefont() -> Font<'static> {
    Font {
        atlas: &ATLAS,
        glyph_mapping: CodepointIndex::new("\0\u{20}\u{7e}", 31),
        glyph_data: &GLYPH_DATA,
        side_bearings: SideBearings::new(&BEARINGS, (0, 1)),
        kerning: Kerning::new(&KERNING_PAIRS, &KERNING_OVERRIDES),
        ligatures: StrLigatureSubstitution::new(LIGATURES, 95),
        line_height: 11,
        baseline: 8,
    }
}

fn ascii() -> Charset {
    mogeefont()
}

fn eg_point(p: Point) -> embedded_graphics::geometry::Point {
    embedded_graphics::geometry::Point::new(p.x, p.y)
}

fn eg_rect(r: Rectangle) -> embedded_graphics::primitives::Rectangle {
    embedded_graphics::primitives::Rectangle::new(
        eg_point(r.top_left),
        embedded_graphics::geometry::Size::new(r.size.width, r.size.height),
    )
}

fn atlas_ink(x: u32, y: u32) -> bool {
    ATLAS[(y * 16 + x / 8) as usize] & (0x80 >> (x % 8)) != 0
}

/// Carries out a plan on a display: the background first, then the ink of each glyph.
fn carry_out(
    plan: &DrawPlan,
    display: &mut MockDisplay<BinaryColor>,
    text_color: Option<BinaryColor>,
    background_color: Option<BinaryColor>,
) {
    if let (Some(area), Some(color)) = (plan.background, background_color) {
        eg_rect(area)
            .into_styled(PrimitiveStyle::with_fill(color))
            .draw(display)
            .unwrap();
    }
    if let Some(color) = text_color {
        for glyph in plan.glyphs.iter() {
            for y in 0..glyph.area.size.height {
                for x in 0..glyph.area.size.width {
                    let ax = glyph.area.top_left.x as u32 + x;
                    let ay = glyph.area.top_left.y as u32 + y;
                    if atlas_ink(ax, ay) {
                        let at = embedded_graphics::geometry::Point::new(
                            glyph.position.x + x as i32,
                            glyph.position.y + y as i32,
                        );
                        Pixel(at, color).draw(display).unwrap();
                    }
                }
            }
        }
    }
}

const TEXT_POS: Point = Point { x: 4, y: 6 };

#[test]
fn fixture_is_well_formed() {
    assert!(mogeefont().is_wf());
    assert_eq!(mogeefont().glyph_count(), 103);
    assert!(Font::new(
        &ATLAS,
        CodepointIndex::new("\0\u{20}\u{7e}", 31),
        &GLYPH_DATA,
        StrLigatureSubstitution::new(LIGATURES, 95),
        SideBearings::new(&BEARINGS, (0, 1)),
        Kerning::new(&KERNING_PAIRS, &KERNING_OVERRIDES),
        11,
        8,
    )
    .is_ok());
}

#[test]
fn charset_test_glyph() {
    let charset = ascii();
    let area = charset.glyph_area(charset.glyph_index('a'));
    let image: ImageRaw<BinaryColor> = ImageRaw::new(charset.atlas, 128);
    let mut display = MockDisplay::new();
    image.draw_sub_image(&mut display, &eg_rect(area)).unwrap();
    display.assert_pattern(&[
        "...", //
        "...", //
        "...", //
        "##.", //
        "..#", //
        "###", //
        "#.#", //
        ".##", //
        "...", //
        "...", //
        "...", //
    ]);
}

#[test]
fn font_test_glyph() {
    let font = mogeefont();
    let area = font.glyph_area(font.glyph_index('a'));
    let image: ImageRaw<BinaryColor> = ImageRaw::new(font.atlas, 128);
    let mut display = MockDisplay::new();
    image.draw_sub_image(&mut display, &eg_rect(area)).unwrap();
    display.assert_pattern(&[
        "...", //
        "...", //
        "...", //
        "##.", //
        "..#", //
        "###", //
        "#.#", //
        ".##", //
        "...", //
        "...", //
        "...", //
    ]);
}

#[test]
fn charset_test_glyph_area() {
    let charset = ascii();
    assert_eq!(
        charset.glyph_area(charset.glyph_index('a')),
        Rectangle::new(Point::new(58, 24), Size::new(3, 11))
    );
    assert_eq!(
        charset.glyph_area(charset.glyph_index('!')),
        Rectangle::new(Point::new(4, 0), Size::new(1, 11))
    );
    assert_eq!(
        charset.glyph_area(charset.glyph_index('熊')),
        charset.glyph_area(charset.glyph_index('?'))
    );
}

#[test]
fn font_test_glyph_area() {
    let font = mogeefont();
    assert_eq!(
        font.glyph_area(font.glyph_index('a')),
        Rectangle::new(Point::new(58, 24), Size::new(3, 11))
    );
    assert_eq!(
        font.glyph_area(font.glyph_index('!')),
        Rectangle::new(Point::new(4, 0), Size::new(1, 11))
    );
    assert_eq!(
        font.glyph_area(font.glyph_index('熊')),
        font.glyph_area(font.glyph_index('?'))
    );
    // The index of this font ends at U+007E and its atlas has 47 rows: it
    // holds no Cyrillic glyph, and so none at (123, 60), where a font with the
    // full set of glyphs has its 'ё'. Here 'ё' is shown as the substitute.
    assert_eq!(
        font.glyph_area(font.glyph_index('ё')),
        font.glyph_area(font.glyph_index('?'))
    );
    assert_ne!(
        font.glyph_area(font.glyph_index('ё')),
        Rectangle::new(Point::new(123, 60), Size::new(3, 11))
    );
}

#[test]
fn charset_test_ligature_substitution_in_text() {
    let charset = ascii();
    let text = "虫ffifijjjssyj";
    let ligatures_offset = charset.ligatures.first_index();
    let glyphs = charset.glyph_indices(text);
    let mut glyphs = glyphs.into_iter();
    assert_eq!(glyphs.next(), Some(charset.glyph_index('虫')));
    assert_eq!(glyphs.next(), Some(GlyphIndex(ligatures_offset + 0))); // ffi
    assert_eq!(glyphs.next(), Some(GlyphIndex(ligatures_offset + 2))); // fi
    assert_eq!(glyphs.next(), Some(GlyphIndex(ligatures_offset + 5))); // jj
    assert_eq!(glyphs.next(), Some(charset.glyph_index('j')));
    assert_eq!(glyphs.next(), Some(GlyphIndex(ligatures_offset + 6))); // ss
    assert_eq!(glyphs.next(), Some(GlyphIndex(ligatures_offset + 7))); // yj
    assert_eq!(glyphs.next(), None);
}

#[test]
fn font_test_ligature_substitution_in_text() {
    let font = mogeefont();
    let text = "虫ffifijjjssyj";
    let ligatures_offset = font.ligatures.first_index();
    let glyphs = font.glyph_indices(text);
    let mut glyphs = glyphs.into_iter();
    assert_eq!(glyphs.next(), Some(font.glyph_index('虫')));
    assert_eq!(glyphs.next(), Some(GlyphIndex(ligatures_offset + 0))); // ffi
    assert_eq!(glyphs.next(), Some(GlyphIndex(ligatures_offset + 2))); // fi
    assert_eq!(glyphs.next(), Some(GlyphIndex(ligatures_offset + 5))); // jj
    assert_eq!(glyphs.next(), Some(font.glyph_index('j')));
    assert_eq!(glyphs.next(), Some(GlyphIndex(ligatures_offset + 6))); // ss
    assert_eq!(glyphs.next(), Some(GlyphIndex(ligatures_offset + 7))); // yj
    assert_eq!(glyphs.next(), None);
}

#[test]
fn charset_test_letter_spacing() {
    let charset = ascii();
    assert_eq!(
        charset.spacing(Some(charset.glyph_index('o')), charset.glyph_index(',')),
        0
    );
    assert_eq!(
        charset.kerning(charset.glyph_index('f'), charset.glyph_index('o')),
        Some(-1)
    );
}

#[test]
fn font_test_letter_spacing() {
    let font = mogeefont();
    assert_eq!(
        font.spacing(Some(font.glyph_index('o')), font.glyph_index(',')),
        0
    );
    assert_eq!(
        font.kerning(font.glyph_index('f'), font.glyph_index('o')),
        Some(-1)
    );
}

#[test]
fn charset_test_kerning() {
    let charset = ascii();
    assert_eq!(
        charset.kerning(charset.glyph_index('s'), charset.glyph_index('`')),
        Some(-1)
    );
    assert_eq!(
        charset.kerning(charset.glyph_index('f'), charset.glyph_index('o')),
        Some(-1)
    );
    assert_eq!(
        charset.kerning(charset.glyph_index('T'), charset.glyph_index('/')),
        Some(-2)
    );
    assert_eq!(
        charset.kerning(charset.glyph_index('/'), charset.glyph_index('/')),
        Some(-2)
    );
    assert_eq!(
        charset.kerning(charset.glyph_index('o'), charset.glyph_index(',')),
        Some(-1)
    );
    assert_eq!(
        charset.kerning(charset.glyph_index('u'), charset.glyph_index('s')),
        None
    );
}

#[test]
fn font_test_kerning() {
    let font = mogeefont();
    assert_eq!(
        font.kerning(font.glyph_index('s'), font.glyph_index('`')),
        Some(-1)
    );
    assert_eq!(
        font.kerning(font.glyph_index('f'), font.glyph_index('o')),
        Some(-1)
    );
    assert_eq!(
        font.kerning(font.glyph_index('T'), font.glyph_index('/')),
        Some(-2)
    );
    assert_eq!(
        font.kerning(font.glyph_index('/'), font.glyph_index('/')),
        Some(-2)
    );
    assert_eq!(
        font.kerning(font.glyph_index('o'), font.glyph_index(',')),
        Some(-1)
    );
    assert_eq!(
        font.kerning(font.glyph_index('u'), font.glyph_index('s')),
        None
    );
}

#[test]
fn charset_test_kerning_classes() {
    let charset = ascii();
    assert_eq!(
        charset.right_kerning_class(charset.glyph_index('Y')),
        charset.right_kerning_class(charset.glyph_index('`'))
    );
    assert_eq!(
        charset.right_kerning_class(charset.glyph_index('"')),
        charset.right_kerning_class(charset.glyph_index('\''))
    );
    assert_eq!(charset.left_kerning_class(charset.glyph_index('o')), 16);
    assert_eq!(charset.right_kerning_class(charset.glyph_index(',')), 14);
}

#[test]
fn font_test_kerning_classes() {
    let font = mogeefont();
    assert_eq!(
        font.right_kerning_class(font.glyph_index('Y')),
        font.right_kerning_class(font.glyph_index('`'))
    );
    assert_eq!(
        font.right_kerning_class(font.glyph_index('"')),
        font.right_kerning_class(font.glyph_index('\''))
    );
    assert_eq!(font.left_kerning_class(font.glyph_index('o')), 16);
    assert_eq!(font.right_kerning_class(font.glyph_index(',')), 14);
}

#[test]
fn charset_test_side_bearings() {
    let charset = ascii();
    assert_eq!(charset.side_bearings.left(charset.glyph_index(',')), 0);
    assert_eq!(charset.side_bearings.right(charset.glyph_index('o')), 1);
}

#[test]
fn font_test_side_bearings() {
    let font = mogeefont();
    assert_eq!(font.side_bearings.left(font.glyph_index(',')), 0);
    assert_eq!(font.side_bearings.right(font.glyph_index('o')), 1);
}

#[test]
fn test_draw_string() {
    let font = mogeefont();
    let style = MogeeTextStyle::new(BinaryColor::On, &font);
    let mut display = MockDisplay::new();
    let plan = style
        .draw_string("Hello, World!", Point::zero(), Baseline::Top)
        .unwrap();
    carry_out(&plan, &mut display, style.text_color, style.background_color);
    assert_eq!(plan.next_position, Point::new(45, 0));
    assert_eq!(
        display,
        MockDisplay::from_pattern(&[
            "                                             ",
            "#  #     # #          #  #  #         #   # #",
            "#  #     # #          #  #  #         #   # #",
            "#  #  ## # # ##       #  #  # ##  ##  #  ## #",
            "#### # # # # # #      #  #  # # # # # # # # #",
            "#  # ### # # # #      #  #  # # # # # # # # #",
            "#  # #   # # # #      # ## #  # # #   # # #  ",
            "#  #  ## # #  ## #     #  #    ## #   # ##  #",
            "                 #                           ",
            "                #                            ",
        ])
    );
}

#[test]
fn measured_position_should_be_same_as_drawn_for_all_baselines_and_styles() {
    let text = "just a test!";
    let font = mogeefont();
    let default = MogeeTextStyle::new(BinaryColor::On, &font);
    let background = {
        let mut s = MogeeTextStyle::new(BinaryColor::On, &font);
        s.set_text_color(None);
        s.set_background_color(Some(BinaryColor::On));
        s
    };
    let transparent = {
        let mut s = MogeeTextStyle::new(BinaryColor::On, &font);
        s.set_text_color(None);
        s
    };

    let mut display = MockDisplay::new();
    let text_pos = Point::new(2, 15); // bottom aligned text needs more space
    display.set_allow_overdraw(true);
    for baseline in [
        Baseline::Top,
        Baseline::Bottom,
        Baseline::Alphabetic,
        Baseline::Middle,
    ] {
        for style in &[default, transparent, background] {
            let plan = style.draw_string(text, text_pos, baseline).unwrap();
            carry_out(&plan, &mut display, style.text_color, style.background_color);
            let text_metrics = style.measure_string(text, text_pos, baseline).unwrap();
            assert_eq!(plan.next_position, text_metrics.next_position);
        }
    }
}

#[test]
fn test_draw_string_with_background() {
    let font = mogeefont();
    let mut style = MogeeTextStyle::new(BinaryColor::On, &font);
    style.set_background_color(Some(BinaryColor::Off));
    let mut display = MockDisplay::new();
    display.set_allow_overdraw(true);
    // Offset the text position by 2 because of negative left side bearing of letter 'j'
    let plan = style
        .draw_string("just a test", Point::new(2, 1), Baseline::Top)
        .unwrap();
    carry_out(&plan, &mut display, style.text_color, style.background_color);
    assert_eq!(plan.next_position, Point::new(41, 1));

    // Background shouldn't be drawn to the left of letter 'j',
    // because it has a negative left side bearing.
    assert_eq!(
        display,
        MockDisplay::from_pattern(&[
            "                                         ",
            "  .......................................",
            "  #......................................",
            "  ..........#.............#...........#..",
            "  #.#.#..##.###....##.....###..##..##.###",
            "  #.#.#.#...#........#....#...#.#.#...#..",
            "  #.#.#..#..#.#....###....#.#.###..#..#.#",
            "  #.#.#...#.#.#....#.#....#.#.#.....#.#.#",
            "  #.###.##...##.....##.....##..##.##...##",
            "  #......................................",
            "  #......................................",
            "##.......................................",
        ])
    );
}

#[test]
fn test_measure_string() {
    let font = mogeefont();
    let style = MogeeTextStyle::new(BinaryColor::On, &font);
    let metrics = style
        .measure_string("Hello, World!", TEXT_POS, Baseline::Top)
        .unwrap();
    assert_eq!(metrics.bounding_box.top_left, TEXT_POS);
    assert_eq!(metrics.bounding_box.size, Size::new(45, 11));
    assert_eq!(
        metrics.next_position,
        Point::new(TEXT_POS.x + 45, TEXT_POS.y)
    );
}

#[test]
fn test_measure_string_negative_left_bearing() {
    let font = mogeefont();
    let style = MogeeTextStyle::new(BinaryColor::On, &font);
    let metrics = style.measure_string("j", TEXT_POS, Baseline::Top).unwrap();
    assert_eq!(
        Point::new(
            metrics.bounding_box.top_left.x - TEXT_POS.x,
            metrics.bounding_box.top_left.y - TEXT_POS.y
        ),
        Point::new(-2, 0)
    );
    assert_eq!(metrics.bounding_box.size, Size::new(3, 11));
    assert_eq!(
        Point::new(
            metrics.next_position.x - TEXT_POS.x,
            metrics.next_position.y - TEXT_POS.y
        ),
        Point::new(1, 0)
    );
    assert_eq!(metrics.bounding_box.top_left.x, 2);
}

#[test]
fn test_measure_string_baseline_bottom() {
    let font = mogeefont();
    let style = MogeeTextStyle::new(BinaryColor::On, &font);
    let metrics = style
        .measure_string("Hello, World!", TEXT_POS, Baseline::Bottom)
        .unwrap();
    assert_eq!(
        metrics.bounding_box.top_left,
        Point::new(0 + TEXT_POS.x, -10 + TEXT_POS.y)
    );
}

#[test]
fn test_measure_string_baseline_middle() {
    let font = mogeefont();
    let style = MogeeTextStyle::new(BinaryColor::On, &font);
    let metrics = style
        .measure_string("Hello, World!", TEXT_POS, Baseline::Middle)
        .unwrap();
    assert_eq!(
        metrics.bounding_box.top_left,
        Point::new(TEXT_POS.x + 0, TEXT_POS.y + -5)
    );
}

#[test]
fn test_measure_string_baseline_alphabetic() {
    let font = mogeefont();
    let style = MogeeTextStyle::new(BinaryColor::On, &font);
    let metrics = style
        .measure_string("Hello, World!", TEXT_POS, Baseline::Alphabetic)
        .unwrap();
    assert_eq!(
        metrics.bounding_box.top_left,
        Point::new(TEXT_POS.x + 0, TEXT_POS.y + -8)
    );
}

#[test]
fn advance_and_whitespace() {
    let font = mogeefont();
    let mut style = MogeeTextStyle::new(BinaryColor::On, &font);
    assert_eq!(style.line_height(), 11);
    assert_eq!(style.advance_position("Hello, World!", 0), Some(45));
    assert_eq!(style.advance_position("", 7), Some(7));
    assert_eq!(style.advance_position("j", i32::MAX), None);
    assert_eq!(
        style.draw_whitespace(5, Point::new(3, 9), Baseline::Bottom),
        Some((None, Point::new(8, 9)))
    );
    style.set_background_color(Some(BinaryColor::Off));
    assert_eq!(
        style.draw_whitespace(5, Point::new(3, 9), Baseline::Alphabetic),
        Some((
            Some(Rectangle::new(Point::new(3, 1), Size::new(5, 11))),
            Point::new(8, 9)
        ))
    );
    assert_eq!(
        style.draw_whitespace(5, Point::new(i32::MAX, 9), Baseline::Top),
        None
    );
    assert!(style
        .draw_string("j", Point::new(i32::MIN, 0), Baseline::Top)
        .is_none());
    assert!(style
        .measure_string("j", Point::new(i32::MIN, 0), Baseline::Top)
        .is_none());
    assert_eq!(style.baseline_offset(Baseline::Top), 0);
    assert_eq!(style.baseline_offset(Baseline::Bottom), 10);
    assert_eq!(style.baseline_offset(Baseline::Middle), 5);
    assert_eq!(style.baseline_offset(Baseline::Alphabetic), 8);
}

#[test]
fn malformed_assets_are_refused() {
    let build = |atlas: &'static [u8],
                 mapping: &'static str,
                 substitute: usize,
                 glyph_data: &'static [u8],
                 ligature_offset: usize,
                 line_height: u32| {
        Font::new(
            atlas,
            CodepointIndex::new(mapping, substitute),
            glyph_data,
            StrLigatureSubstitution::new(LIGATURES, ligature_offset),
            SideBearings::new(&BEARINGS, (0, 1)),
            Kerning::new(&KERNING_PAIRS, &KERNING_OVERRIDES),
            line_height,
            8,
        )
        .err()
    };
    let malformed = Some(mogeefont::FontError::MalformedAsset);
    assert_eq!(build(&ATLAS, "\0\u{20}\u{7e}", 31, &GLYPH_DATA, 95, 11), None);
    // records that are not whole
    assert_eq!(build(&ATLAS, "\0\u{20}\u{7e}", 31, &GLYPH_DATA[..514], 95, 11), malformed);
    // an atlas that ends within a row, or above a glyph
    assert_eq!(build(&ATLAS[..751], "\0\u{20}\u{7e}", 31, &GLYPH_DATA, 95, 11), malformed);
    assert_eq!(build(&ATLAS[..736], "\0\u{20}\u{7e}", 31, &GLYPH_DATA, 95, 11), malformed);
    // an index that reaches beyond the records
    assert_eq!(build(&ATLAS, "\0\u{20}\u{ff}", 31, &GLYPH_DATA, 95, 11), malformed);
    assert_eq!(build(&ATLAS, "\0\u{20}\u{7e}", 103, &GLYPH_DATA, 95, 11), malformed);
    // ligatures beyond the records
    assert_eq!(build(&ATLAS, "\0\u{20}\u{7e}", 31, &GLYPH_DATA, 96, 11), malformed);
    // a line without height
    assert_eq!(build(&ATLAS, "\0\u{20}\u{7e}", 31, &GLYPH_DATA, 95, 0), malformed);
    // tables that are not sorted
    let unsorted = Font::new(
        &ATLAS,
        CodepointIndex::new("\0\u{20}\u{7e}", 31),
        &GLYPH_DATA,
        StrLigatureSubstitution::new(LIGATURES, 95),
        SideBearings::new(&[(3, 0, 0), (2, 0, 0)], (0, 1)),
        Kerning::new(&KERNING_PAIRS, &KERNING_OVERRIDES),
        11,
        8,
    );
    assert_eq!(unsorted.err(), malformed);
    let unsorted = Font::new(
        &ATLAS,
        CodepointIndex::new("\0\u{20}\u{7e}", 31),
        &GLYPH_DATA,
        StrLigatureSubstitution::new(LIGATURES, 95),
        SideBearings::new(&BEARINGS, (0, 1)),
        Kerning::new(&[(2, 1, 0), (1, 9, 0)], &[]),
        11,
        8,
    );
    assert_eq!(unsorted.err(), malformed);
}
