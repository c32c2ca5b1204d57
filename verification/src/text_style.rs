//! Laying out a line of text: where each glyph is drawn, how far the line
//! reaches, and the box around it.

use crate::font::Font;
use crate::geometry::{Point, Rectangle, Size};
use crate::glyph_index::GlyphIndex;
use vstd::prelude::*;

verus! {

/// The line of a text that a position refers to.
#[derive(Debug, Clone, Copy, PartialEq, Eq, Structural)]
pub enum Baseline {
    /// The top edge of the line.
    Top,
    /// The bottom edge of the line.
    Bottom,
    /// The middle of the line.
    Middle,
    /// The line on which the letters stand.
    Alphabetic,
}

/// What measuring a text gives: the box around it, and where the next text starts.
#[derive(Debug, Clone, Copy, PartialEq, Eq, Structural)]
pub struct TextMetrics {
    pub bounding_box: Rectangle,
    pub next_position: Point,
}

/// A glyph to draw: where on the target, and which part of the atlas.
#[derive(Debug, Clone, Copy, PartialEq, Eq, Structural)]
pub struct GlyphPlacement {
    pub position: Point,
    pub area: Rectangle,
}

/// What drawing a text comes to: the background to fill first, if any, the
/// glyphs to draw over it in order, and where the next text starts.
#[derive(Debug)]
pub struct DrawPlan {
    pub background: Option<Rectangle>,
    pub glyphs: Vec<GlyphPlacement>,
    pub next_position: Point,
}

/// The glyph before glyph `k` of a line, if there is one.
pub open spec fn prev_glyph(glyphs: Seq<GlyphIndex>, k: int) -> Option<GlyphIndex> {
    if k <= 0 {
        None
    } else {
        Some(glyphs[k - 1])
    }
}

/// How far right of the start of a line the pen is behind its first `k` glyphs.
pub open spec fn pen_after(font: &Font, glyphs: Seq<GlyphIndex>, k: int) -> int
    decreases k, 0int,
{
    if k <= 0 {
        0
    } else {
        glyph_x(font, glyphs, k - 1) + font.record(glyphs[k - 1].0 as int).width
    }
}

/// How far right of the start of a line glyph `k` is drawn: behind the
/// glyphs before it and its spacing.
pub open spec fn glyph_x(font: &Font, glyphs: Seq<GlyphIndex>, k: int) -> int
    decreases k, 1int,
{
    if k < 0 {
        0
    } else {
        pen_after(font, glyphs, k) + font.spec_spacing(prev_glyph(glyphs, k), glyphs[k])
    }
}

/// Whether a number is one that `i32` holds.
pub open spec fn fits_i32(v: int) -> bool {
    i32::MIN <= v <= i32::MAX
}

/// What a number of 32 bits is as an unsigned one of as many bits.
pub open spec fn wrap_u32(v: int) -> u32 {
    if v >= 0 {
        v as u32
    } else {
        (v + 0x1_0000_0000) as u32
    }
}

/// The number as `i32`, where that holds it.
fn to_i32(v: i128) -> (r: Option<i32>)
    ensures
        r == if fits_i32(v as int) {
            Some(v as i32)
        } else {
            None::<i32>
        },
{
    if v < i32::MIN as i128 || v > i32::MAX as i128 {
        None
    } else {
        Some(v as i32)
    }
}

/// A number of 32 bits as an unsigned one of as many bits.
fn to_u32_wrapping(v: i32) -> (r: u32)
    ensures
        r == wrap_u32(v as int),
{
    if v >= 0 {
        v as u32
    } else {
        (v as i64 + 0x1_0000_0000) as u32
    }
}

/// How far right of the start of the line each glyph is drawn, and how far
/// the pen is behind the last.
pub fn pen_positions(font: &Font, glyphs: &[GlyphIndex]) -> (r: (Vec<i128>, i128))
    requires
        font.wf(),
        forall|k: int| 0 <= k < glyphs@.len() ==> (#[trigger] glyphs@[k]).0 < font.count(),
    ensures
        r.0@.len() == glyphs@.len(),
        forall|k: int| 0 <= k < glyphs@.len() ==> #[trigger] r.0@[k] == glyph_x(font, glyphs@, k),
        r.1 == pen_after(font, glyphs@, glyphs@.len() as int),
{
    let mut xs: Vec<i128> = Vec::new();
    let mut x: i128 = 0;
    let mut prev: Option<GlyphIndex> = None;
    let mut k: usize = 0;
    while k < glyphs.len()
        invariant
            k <= glyphs@.len(),
            font.wf(),
            forall|i: int| 0 <= i < glyphs@.len() ==> (#[trigger] glyphs@[i]).0 < font.count(),
            xs@.len() == k,
            forall|i: int| 0 <= i < k ==> #[trigger] xs@[i] == glyph_x(font, glyphs@, i),
            x == pen_after(font, glyphs@, k as int),
            prev == prev_glyph(glyphs@, k as int),
            -(k * 0x2_0000_0000) <= x <= k * 0x2_0000_0000,
        decreases glyphs@.len() - k,
    {
        let glyph = glyphs[k];
        let at: i128 = x + font.wide_spacing(prev, glyph) as i128;
        xs.push(at);
        x = at + font.glyph_width(glyph) as i128;
        prev = Some(glyph);
        k += 1;
    }
    (xs, x)
}

/// Style of a text that is drawn with a font: the colour of the text, the
/// colour behind it, and the font.
#[derive(Debug, Clone, Copy, PartialEq)]
pub struct TextStyle<'a, C> {
    /// Text colour; no glyph is drawn where there is none.
    pub text_color: Option<C>,
    /// Background colour; no background is filled where there is none.
    pub background_color: Option<C>,
    /// The font.
    pub charset: &'a Font<'a>,
}

impl<'a, C> TextStyle<'a, C> {
    /// A style with the given text colour and no background.
    pub fn new(text_color: C, charset: &'a Font<'a>) -> (s: Self)
        ensures
            s.text_color == Some(text_color),
            s.background_color is None,
            s.charset == charset,
    {
        Self { text_color: Some(text_color), background_color: None, charset }
    }

    /// Sets the text colour.
    pub fn set_text_color(&mut self, text_color: Option<C>)
        ensures
            final(self).text_color == text_color,
            final(self).background_color == old(self).background_color,
            final(self).charset == old(self).charset,
    {
        self.text_color = text_color;
    }

    /// Sets the background colour.
    pub fn set_background_color(&mut self, background_color: Option<C>)
        ensures
            final(self).background_color == background_color,
            final(self).text_color == old(self).text_color,
            final(self).charset == old(self).charset,
    {
        self.background_color = background_color;
    }

    /// The height of a line.
    pub fn line_height(&self) -> (r: u32)
        ensures
            r == self.charset.line_height,
    {
        self.charset.line_height
    }

    /// How far below the top of the line a baseline lies.
    pub open spec fn spec_baseline_offset(&self, baseline: Baseline) -> int {
        match baseline {
            Baseline::Top => 0,
            Baseline::Bottom => self.charset.line_height - 1,
            Baseline::Middle => (self.charset.line_height - 1) / 2,
            Baseline::Alphabetic => self.charset.baseline as int,
        }
    }

    /// How far right of its start a text reaches.
    pub open spec fn spec_advance(&self, text: Seq<char>) -> int {
        let glyphs = self.charset.glyphs_of(text);
        pen_after(self.charset, glyphs, glyphs.len() as int)
    }

    /// How far right of the position the box around a text starts: by the
    /// spacing of its first glyph, which may be negative.
    pub open spec fn spec_box_left(&self, text: Seq<char>) -> int {
        let glyphs = self.charset.glyphs_of(text);
        if glyphs.len() > 0 {
            self.charset.spec_spacing(None, glyphs[0])
        } else {
            0
        }
    }

    /// What measuring a text gives; nothing where a coordinate is beyond `i32`.
    pub open spec fn spec_measure(&self, text: Seq<char>, position: Point, baseline: Baseline) -> Option<
        TextMetrics,
    > {
        let left = self.spec_box_left(text);
        let advance = self.spec_advance(text);
        let top = position.y - self.spec_baseline_offset(baseline);
        if fits_i32(position.x + left) && fits_i32(top) && fits_i32(advance - left) && fits_i32(
            position.x + advance,
        ) {
            Some(
                TextMetrics {
                    bounding_box: Rectangle {
                        top_left: Point { x: (position.x + left) as i32, y: top as i32 },
                        size: Size {
                            width: wrap_u32(advance - left),
                            height: self.charset.line_height,
                        },
                    },
                    next_position: Point { x: (position.x + advance) as i32, y: position.y },
                },
            )
        } else {
            None
        }
    }

    /// Where glyph `k` of a text is drawn, and which part of the atlas.
    pub open spec fn spec_placement(
        &self,
        text: Seq<char>,
        position: Point,
        baseline: Baseline,
        k: int,
    ) -> GlyphPlacement {
        let glyphs = self.charset.glyphs_of(text);
        let record = self.charset.record(glyphs[k].0 as int);
        GlyphPlacement {
            position: Point {
                x: (position.x + glyph_x(self.charset, glyphs, k)) as i32,
                y: (position.y - self.spec_baseline_offset(baseline)) as i32,
            },
            area: Rectangle {
                top_left: Point { x: record.left as i32, y: record.top as i32 },
                size: Size { width: record.width as u32, height: record.height as u32 },
            },
        }
    }

    /// Whether a text can be drawn at a position: every coordinate is one
    /// that `i32` holds.
    pub open spec fn drawable(&self, text: Seq<char>, position: Point, baseline: Baseline) -> bool {
        let glyphs = self.charset.glyphs_of(text);
        &&& fits_i32(position.y - self.spec_baseline_offset(baseline))
        &&& fits_i32(self.spec_advance(text))
        &&& fits_i32(position.x + self.spec_advance(text))
        &&& self.text_color is Some ==> forall|k: int|
            0 <= k < glyphs.len() ==> fits_i32(position.x + #[trigger] glyph_x(self.charset, glyphs, k))
    }

    /// How far below the top of the line a baseline lies.
    pub fn baseline_offset(&self, baseline: Baseline) -> (r: i32)
        requires
            self.charset.wf(),
        ensures
            r == self.spec_baseline_offset(baseline),
            0 <= r,
    {
        match baseline {
            Baseline::Top => 0,
            Baseline::Bottom => (self.charset.line_height - 1) as i32,
            Baseline::Middle => ((self.charset.line_height - 1) / 2) as i32,
            Baseline::Alphabetic => self.charset.baseline as i32,
        }
    }

    /// Where a pen that starts at `x` is behind a text; nothing where that
    /// is beyond `i32`.
    pub fn advance_position(&self, text: &str, x: i32) -> (r: Option<i32>)
        requires
            self.charset.wf(),
        ensures
            r == if fits_i32(x + self.spec_advance(text@)) {
                Some((x + self.spec_advance(text@)) as i32)
            } else {
                None::<i32>
            },
    {
        let glyphs = self.charset.glyph_indices(text);
        let count: usize = glyphs.len();
        let (_, advance) = pen_positions(self.charset, glyphs.as_slice());
        proof {
            lemma_pen_bounds(self.charset, glyphs@, glyphs@.len() as int);
        }
        to_i32(x as i128 + advance)
    }

    /// The box around a text and the position behind it; nothing where a
    /// coordinate is beyond `i32`.
    ///
    /// The box starts where the first glyph starts, which is left of the
    /// position where that glyph has a negative left bearing, and is as wide
    /// as the text reaches from there.
    pub fn measure_string(&self, text: &str, position: Point, baseline: Baseline) -> (r: Option<
        TextMetrics,
    >)
        requires
            self.charset.wf(),
        ensures
            r == self.spec_measure(text@, position, baseline),
    {
        let glyphs = self.charset.glyph_indices(text);
        let count: usize = glyphs.len();
        let (xs, advance) = pen_positions(self.charset, glyphs.as_slice());
        proof {
            lemma_pen_bounds(self.charset, glyphs@, glyphs@.len() as int);
            if glyphs@.len() > 0 {
                assert(xs@[0] == glyph_x(self.charset, glyphs@, 0));
                assert(pen_after(self.charset, glyphs@, 0) == 0);
            }
        }
        let left: i128 = if xs.len() > 0 {
            xs[0]
        } else {
            0
        };
        let offset = self.baseline_offset(baseline);
        let box_x = to_i32(position.x as i128 + left);
        let box_y = to_i32(position.y as i128 - offset as i128);
        let width = to_i32(advance - left);
        let next_x = to_i32(position.x as i128 + advance);
        match (box_x, box_y, width, next_x) {
            (Some(x), Some(y), Some(w), Some(next)) => Some(
                TextMetrics {
                    bounding_box: Rectangle::new(
                        Point::new(x, y),
                        Size::new(to_u32_wrapping(w), self.charset.line_height),
                    ),
                    next_position: Point::new(next, position.y),
                },
            ),
            _ => None,
        }
    }

    /// What drawing a text at a position comes to; nothing where a
    /// coordinate is beyond `i32`.
    ///
    /// With a background colour, the background is a rectangle from the
    /// position on, as wide as the text reaches and as high as the line.
    /// With a text colour, each glyph is drawn behind its spacing. The next
    /// position is the one that measuring the text gives.
    pub fn draw_string(&self, text: &str, position: Point, baseline: Baseline) -> (r: Option<
        DrawPlan,
    >)
        requires
            self.charset.wf(),
        ensures
            r is Some <==> self.drawable(text@, position, baseline),
            r matches Some(plan) ==> {
                &&& plan.next_position == (Point {
                    x: (position.x + self.spec_advance(text@)) as i32,
                    y: position.y,
                })
                &&& plan.background == if self.background_color is Some {
                    Some(
                        Rectangle {
                            top_left: Point {
                                x: position.x,
                                y: (position.y - self.spec_baseline_offset(baseline)) as i32,
                            },
                            size: Size {
                                width: wrap_u32(self.spec_advance(text@)),
                                height: self.charset.line_height,
                            },
                        },
                    )
                } else {
                    None::<Rectangle>
                }
                &&& plan.glyphs@.len() == if self.text_color is Some {
                    self.charset.glyphs_of(text@).len()
                } else {
                    0
                }
                &&& forall|k: int|
                    0 <= k < plan.glyphs@.len() ==> #[trigger] plan.glyphs@[k]
                        == self.spec_placement(text@, position, baseline, k)
            },
    {
        let glyphs = self.charset.glyph_indices(text);
        let count: usize = glyphs.len();
        let (xs, advance) = pen_positions(self.charset, glyphs.as_slice());
        proof {
            lemma_pen_bounds(self.charset, glyphs@, glyphs@.len() as int);
        }
        let offset = self.baseline_offset(baseline);
        let y = match to_i32(position.y as i128 - offset as i128) {
            Some(y) => y,
            None => {
                return None;
            },
        };
        let reach = match to_i32(advance) {
            Some(v) => v,
            None => {
                return None;
            },
        };
        let next_x = match to_i32(position.x as i128 + advance) {
            Some(v) => v,
            None => {
                return None;
            },
        };
        let background = match self.background_color {
            Some(_) => Some(
                Rectangle::new(
                    Point::new(position.x, y),
                    Size::new(to_u32_wrapping(reach), self.charset.line_height),
                ),
            ),
            None => None,
        };
        let mut placed: Vec<GlyphPlacement> = Vec::new();
        if self.text_color.is_some() {
            let mut k: usize = 0;
            while k < glyphs.len()
                invariant
                    k <= glyphs@.len(),
                    self.charset.wf(),
                    self.text_color is Some,
                    glyphs@ == self.charset.glyphs_of(text@),
                    xs@.len() == glyphs@.len(),
                    forall|i: int| 0 <= i < glyphs@.len() ==> (#[trigger] glyphs@[i]).0
                        < self.charset.count(),
                    forall|i: int|
                        0 <= i < glyphs@.len() ==> #[trigger] xs@[i] == glyph_x(
                            self.charset,
                            glyphs@,
                            i,
                        ),
                    y == position.y - self.spec_baseline_offset(baseline),
                    placed@.len() == k,
                    forall|i: int|
                        0 <= i < k ==> fits_i32(position.x + #[trigger] glyph_x(self.charset, glyphs@, i)),
                    forall|i: int|
                        0 <= i < k ==> #[trigger] placed@[i] == self.spec_placement(
                            text@,
                            position,
                            baseline,
                            i,
                        ),
                decreases glyphs@.len() - k,
            {
                proof {
                    lemma_pen_bounds(self.charset, glyphs@, k as int);
                }
                let x = match to_i32(position.x as i128 + xs[k]) {
                    Some(x) => x,
                    None => {
                        assert(!fits_i32(
                            position.x + glyph_x(
                                self.charset,
                                self.charset.glyphs_of(text@),
                                k as int,
                            ),
                        ));
                        return None;
                    },
                };
                let area = self.charset.glyph_area(glyphs[k]);
                placed.push(GlyphPlacement { position: Point::new(x, y), area });
                k += 1;
            }
        }
        Some(DrawPlan { background, glyphs: placed, next_position: Point::new(next_x, position.y) })
    }

    /// What drawing white space of a given width comes to: the background to
    /// fill, if there is a background colour, and the position behind the
    /// space; nothing where a coordinate is beyond `i32`.
    pub fn draw_whitespace(&self, width: u32, position: Point, baseline: Baseline) -> (r: Option<
        (Option<Rectangle>, Point),
    >)
        requires
            self.charset.wf(),
        ensures
            r is Some <==> fits_i32(position.y - self.spec_baseline_offset(baseline)) && fits_i32(
                position.x + wrap_i32(width),
            ),
            r matches Some((background, next)) ==> {
                &&& next == (Point { x: (position.x + wrap_i32(width)) as i32, y: position.y })
                &&& background == if self.background_color is Some {
                    Some(
                        Rectangle {
                            top_left: Point {
                                x: position.x,
                                y: (position.y - self.spec_baseline_offset(baseline)) as i32,
                            },
                            size: Size { width, height: self.charset.line_height },
                        },
                    )
                } else {
                    None::<Rectangle>
                }
            },
    {
        let offset = self.baseline_offset(baseline);
        let y = match to_i32(position.y as i128 - offset as i128) {
            Some(y) => y,
            None => {
                return None;
            },
        };
        let step: i64 = if width <= i32::MAX as u32 {
            width as i64
        } else {
            width as i64 - 0x1_0000_0000
        };
        let next_x = match to_i32(position.x as i128 + step as i128) {
            Some(x) => x,
            None => {
                return None;
            },
        };
        let background = match self.background_color {
            Some(_) => Some(
                Rectangle::new(Point::new(position.x, y), Size::new(width, self.charset.line_height)),
            ),
            None => None,
        };
        Some((background, Point::new(next_x, position.y)))
    }
}

/// What an unsigned number of 32 bits is as a signed one of as many bits.
pub open spec fn wrap_i32(v: u32) -> int {
    if v <= i32::MAX {
        v as int
    } else {
        v - 0x1_0000_0000
    }
}

/// The pen moves by less than 2^33 for each glyph.
pub proof fn lemma_pen_bounds(font: &Font, glyphs: Seq<GlyphIndex>, k: int)
    requires
        0 <= k <= glyphs.len(),
    ensures
        -(k * 0x2_0000_0000) <= pen_after(font, glyphs, k) <= k * 0x2_0000_0000,
        k < glyphs.len() ==> -((k + 1) * 0x2_0000_0000) <= glyph_x(font, glyphs, k) <= (k + 1)
            * 0x2_0000_0000,
    decreases k,
{
    if k > 0 {
        lemma_pen_bounds(font, glyphs, k - 1);
    }
}

/// Where the next text starts is the same for a text that is measured and
/// one that is drawn, whatever the baseline and the colours.
pub proof fn lemma_drawn_as_measured<C>(
    style: TextStyle<C>,
    text: Seq<char>,
    position: Point,
    baseline: Baseline,
)
    requires
        style.drawable(text, position, baseline),
        style.spec_measure(text, position, baseline) is Some,
    ensures
        style.spec_measure(text, position, baseline).unwrap().next_position == (Point {
            x: (position.x + style.spec_advance(text)) as i32,
            y: position.y,
        }),
{
}

} // verus!
