//! A compact pixel-font engine: variable-width glyphs packed into a 1-bit
//! atlas, with kerning, side bearings and ligatures, and the tables that
//! resolve text into positioned glyphs.

pub mod assemble;
pub mod atlas;
pub mod atlas_bitmap;
pub mod code_point;
pub mod codepoint_index;
pub mod elm_file_data;
pub mod elm_source;
pub mod encode;
pub mod error;
pub mod file_stem;
pub mod font;
pub mod font_asset;
pub mod font_data;
pub mod geometry;
pub mod glyph_images;
pub mod glyph_index;
pub mod glyph_record;
pub mod glyph_set;
pub mod kerning;
pub mod keyed;
pub mod laws;
pub mod ligature_substitution;
pub mod metrics;
pub mod numerals;
pub mod preview;
pub mod side_bearings;
pub mod sorting;
pub mod source;
pub mod source_text;
pub mod specimen_text;
pub mod table;
pub mod text;
pub mod text_style;
pub mod tokens;

pub use code_point::CodePoint;
pub use codepoint_index::CodepointIndex;
pub use elm_file_data::ElmFileData;
pub use error::FontError;
pub use font::{Charset, Font};
pub use geometry::{Point, Rectangle, Size};
pub use glyph_images::{GlyphBitmap, GlyphImages};
pub use glyph_index::GlyphIndex;
pub use kerning::Kerning;
pub use ligature_substitution::StrLigatureSubstitution;
pub use side_bearings::SideBearings;
pub use source::Subset;
pub use text_style::TextStyle as MogeeTextStyle;
pub use text_style::{Baseline, TextMetrics, TextStyle};
