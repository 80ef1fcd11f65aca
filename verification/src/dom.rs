//! The document tree a MIME-type module returns: a titled dimension holding
//! canvases of styled text. Only what is needed to route and validate
//! messages is modeled here; rendering is outside this crate.

use vstd::prelude::*;

verus! {

/// An RGB color for text.
#[derive(Debug)]
pub struct TextColor {
    pub r: u8,
    pub g: u8,
    pub b: u8,
}

impl TextColor {
    /// Black, the default text color.
    pub fn black() -> (c: TextColor)
        ensures
            c.r == 0 && c.g == 0 && c.b == 0,
    {
        TextColor { r: 0, g: 0, b: 0 }
    }
}

/// The slant of a span of text.
#[derive(Debug)]
pub enum Style {
    Normal,
    Italic,
    Oblique,
}

/// One run of text with uniform styling.
#[derive(Debug)]
pub struct TextSpan {
    pub text: String,
    pub color: Option<TextColor>,
    pub style: Style,
    pub weight: u16,
}

/// The mathematical value of a [`TextSpan`].
#[verifier::ext_equal]
pub struct TextSpanV {
    pub text: Seq<char>,
    pub color: Option<TextColor>,
    pub style: Style,
    pub weight: u16,
}

impl View for TextSpan {
    type V = TextSpanV;

    open spec fn view(&self) -> TextSpanV {
        TextSpanV { text: self.text@, color: self.color, style: self.style, weight: self.weight }
    }
}

/// A block of text: its spans plus block-level layout attributes. Sizes are
/// in thousandths of a layout unit, so the wire format carries only
/// fixed-width integers.
#[derive(Debug)]
pub struct Text {
    pub spans: Vec<TextSpan>,
    pub font_size_milli: u64,
    pub line_height_milli: u64,
    pub color: TextColor,
}

/// The mathematical value of a [`Text`].
#[verifier::ext_equal]
pub struct TextV {
    pub spans: Seq<TextSpanV>,
    pub font_size_milli: u64,
    pub line_height_milli: u64,
    pub color: TextColor,
}

impl View for Text {
    type V = TextV;

    open spec fn view(&self) -> TextV {
        TextV {
            spans: self.spans@.map_values(|s: TextSpan| s@),
            font_size_milli: self.font_size_milli,
            line_height_milli: self.line_height_milli,
            color: self.color,
        }
    }
}

/// A drawing surface holding text blocks.
#[derive(Debug)]
pub struct Canvas {
    pub texts: Vec<Text>,
}

/// The mathematical value of a [`Canvas`].
#[verifier::ext_equal]
pub struct CanvasV {
    pub texts: Seq<TextV>,
}

impl View for Canvas {
    type V = CanvasV;

    open spec fn view(&self) -> CanvasV {
        CanvasV { texts: self.texts@.map_values(|t: Text| t@) }
    }
}

/// One child of a dimension.
#[derive(Debug)]
pub enum Element {
    Canvas(Canvas),
}

/// The mathematical value of an [`Element`].
#[verifier::ext_equal]
pub enum ElementV {
    Canvas(CanvasV),
}

impl View for Element {
    type V = ElementV;

    open spec fn view(&self) -> ElementV {
        match self {
            Element::Canvas(c) => ElementV::Canvas(c@),
        }
    }
}

/// A document as returned by a MIME-type module: a title and its children.
#[derive(Debug)]
pub struct Dimension {
    pub title: String,
    pub children: Vec<Element>,
}

/// The mathematical value of a [`Dimension`].
#[verifier::ext_equal]
pub struct DimensionV {
    pub title: Seq<char>,
    pub children: Seq<ElementV>,
}

impl View for Dimension {
    type V = DimensionV;

    open spec fn view(&self) -> DimensionV {
        DimensionV {
            title: self.title@,
            children: self.children@.map_values(|e: Element| e@),
        }
    }
}

} // verus!
