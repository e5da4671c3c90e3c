use vstd::prelude::*;

verus! {

/// A byte offset into a font source text.
#[derive(Debug, PartialEq, Eq, PartialOrd, Ord, Clone, Copy, Hash)]
pub struct Location {
    pub offset: usize,
}

/// A range of a font source text.
#[derive(Debug, PartialEq, Eq, PartialOrd, Ord, Clone, Copy, Hash)]
pub struct Span {
    pub start: Location,
    pub end: Location,
}

/// What can go wrong when reading a bitmap font.
#[derive(Debug, Clone, PartialEq, Eq, PartialOrd, Ord, Hash)]
pub enum ParserError {
    DuplicateGlobalProperty(&'static str),
    InvalidGlobalProperty(String),
    MissingGlobalProperty(&'static str),
    DuplicateGlyphProperty(String, &'static str),
    InvalidGlyphProperty(String, String),
    MissingGlyphProperty(String, &'static str),
    InvalidArgument(Span),
    UnclosedString(Span),
    UnexpectedEof,
}

/// The code point of a glyph, in the Adobe standard encoding or not.
#[derive(Debug, Clone, Copy, PartialEq, Eq, PartialOrd, Ord, Hash)]
pub enum Encoding {
    AdobeStandard(u32),
    NonStandard(Option<i32>),
}

/// The point size of a font and the resolution it was designed for.
#[derive(Debug, Clone, Copy, PartialEq, Eq, PartialOrd, Ord, Hash)]
pub struct Size {
    pub point_size: i32,
    pub x_res: i32,
    pub y_res: i32,
}

/// The extent of a glyph's bitmap and its offset from the origin.
#[derive(Debug, Clone, Copy, PartialEq, Eq, PartialOrd, Ord, Hash)]
pub struct FontBoundingBox {
    pub width: u32,
    pub height: u32,
    pub x_off: i32,
    pub y_off: i32,
}

/// A pair of values along the two axes of a font.
#[derive(Debug, Clone, Copy, PartialEq, PartialOrd)]
pub struct Vector2<T> {
    pub width: T,
    pub height: T,
}

} // verus!
