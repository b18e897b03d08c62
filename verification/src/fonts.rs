//! Which face of a font family a run of text is set in.

use vstd::prelude::*;
use crate::text::str_eq;

verus! {

/// Upright or slanted.
#[derive(Debug, Clone, Copy, PartialEq, Eq, Structural)]
pub enum FontStyle {
    Roman,
    Italic,
}

/// Light or heavy.
#[derive(Debug, Clone, Copy, PartialEq, Eq, Structural)]
pub enum FontWeight {
    Normal,
    Bold,
}

/// The four faces of a font family, and the style and weight that are in
/// use. `F` is whatever the renderer keeps for one face.
pub struct BrowserFont<F> {
    pub roman: F,
    pub italic: F,
    pub bold: F,
    pub bold_italic: F,
    pub font_weight: FontWeight,
    pub font_style: FontStyle,
}

/// The style and weight that text is set in after a tag: `i` and `/i` turn
/// the slant on and off, `b` and `/b` the heavy weight, and every other tag
/// leaves both as they are.
pub open spec fn style_after_tag_spec(style: FontStyle, weight: FontWeight, tag: Seq<char>) -> (
    FontStyle,
    FontWeight,
) {
    if tag == "i"@ {
        (FontStyle::Italic, weight)
    } else if tag == "/i"@ {
        (FontStyle::Roman, weight)
    } else if tag == "b"@ {
        (style, FontWeight::Bold)
    } else if tag == "/b"@ {
        (style, FontWeight::Normal)
    } else {
        (style, weight)
    }
}

/// The style and weight that text is set in after the tag `tag`.
pub fn style_after_tag(style: FontStyle, weight: FontWeight, tag: &str) -> (r: (
    FontStyle,
    FontWeight,
))
    ensures
        r == style_after_tag_spec(style, weight, tag@),
{
    if str_eq(tag, "i") {
        (FontStyle::Italic, weight)
    } else if str_eq(tag, "/i") {
        (FontStyle::Roman, weight)
    } else if str_eq(tag, "b") {
        (style, FontWeight::Bold)
    } else if str_eq(tag, "/b") {
        (style, FontWeight::Normal)
    } else {
        (style, weight)
    }
}

impl<F> BrowserFont<F> {
    /// The face for a style and a weight.
    pub open spec fn face_spec(&self, style: FontStyle, weight: FontWeight) -> F {
        match (style, weight) {
            (FontStyle::Roman, FontWeight::Normal) => self.roman,
            (FontStyle::Roman, FontWeight::Bold) => self.bold,
            (FontStyle::Italic, FontWeight::Normal) => self.italic,
            (FontStyle::Italic, FontWeight::Bold) => self.bold_italic,
        }
    }

    /// The face for a style and a weight.
    pub fn face(&self, style: FontStyle, weight: FontWeight) -> (r: &F)
        ensures
            *r == self.face_spec(style, weight),
    {
        match (style, weight) {
            (FontStyle::Roman, FontWeight::Normal) => &self.roman,
            (FontStyle::Roman, FontWeight::Bold) => &self.bold,
            (FontStyle::Italic, FontWeight::Normal) => &self.italic,
            (FontStyle::Italic, FontWeight::Bold) => &self.bold_italic,
        }
    }

    /// The face for the style and weight that are in use.
    pub fn get_font_and_metadata(&self) -> (r: &F)
        ensures
            *r == self.face_spec(self.font_style, self.font_weight),
    {
        self.face(self.font_style, self.font_weight)
    }

    /// Puts another weight in use.
    pub fn set_weight(&mut self, weight: FontWeight)
        ensures
            *final(self) == (BrowserFont { font_weight: weight, ..*old(self) }),
    {
        self.font_weight = weight;
    }

    /// Puts another style in use.
    pub fn set_style(&mut self, style: FontStyle)
        ensures
            *final(self) == (BrowserFont { font_style: style, ..*old(self) }),
    {
        self.font_style = style;
    }
}

} // verus!
