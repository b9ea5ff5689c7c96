//! The colours of labels.

use vstd::prelude::*;
use ansi_term::Colour;
use ansi_term::Style;
use crate::entry::Category;

verus! {

/// `ansi_term::Colour`, with its variants as the crate declares them: all of
/// them are public and hold nothing but bytes.
#[verifier::external_type_specification]
pub struct ExColour(Colour);

/// `ansi_term::Style`, with its fields as the crate declares them: all of
/// them are public, two optional colours and eight flags.
#[verifier::external_type_specification]
pub struct ExStyle(Style);

/// The style that sets nothing.
pub open spec fn plain() -> Style {
    Style {
        foreground: None,
        background: None,
        is_bold: false,
        is_dimmed: false,
        is_italic: false,
        is_underline: false,
        is_blink: false,
        is_reverse: false,
        is_hidden: false,
        is_strikethrough: false,
    }
}

/// The style that sets a foreground colour and bold, and nothing else.
pub open spec fn bold_in(colour: Colour) -> Style {
    Style { foreground: Some(colour), is_bold: true, ..plain() }
}

/// `Colour::bold` returns the style in which the colour is the foreground,
/// bold is set and every other property is as in the default style.
pub assume_specification[ Colour::bold ](colour: Colour) -> (style: Style)
    ensures
        style == bold_in(colour),
;

/// `Style::default` returns the style with no property set.
pub assume_specification[ <Style as core::default::Default>::default ]() -> (style: Style)
    ensures
        style == plain(),
;

/// What an `ANSIString` made by `Style::paint` displays: the text between the
/// escape codes that switch the style on and off.
pub uninterp spec fn painted(style: Style, text: Seq<char>) -> Seq<char>;

/// `Style::paint` on a string slice, written out with `to_string`. The result
/// is a function of the style and the text. In the style that sets nothing it
/// is the text itself, as the crate documents for `Style::default`.
#[verifier::external_body]
fn paint(style: Style, text: &str) -> (r: String)
    ensures
        r@ == painted(style, text@),
        style == plain() ==> r@ == text@,
{
    style.paint(text).to_string()
}

/// The style in which the labels of a category are shown.
pub open spec fn style_of(category: Category) -> Style {
    match category {
        Category::Directory => bold_in(Colour::Blue),
        Category::Image => bold_in(Colour::RGB(255, 105, 180)),
        Category::Video => bold_in(Colour::Purple),
        Category::Data => bold_in(Colour::Yellow),
        Category::Archive => bold_in(Colour::Red),
        Category::Executable => bold_in(Colour::Green),
        Category::Other => plain(),
    }
}

/// A label as it is shown: painted in the style of its category. A label of
/// the category `Other` is shown as it is.
pub open spec fn painted_label(category: Category, label: Seq<char>) -> Seq<char> {
    if category == Category::Other {
        label
    } else {
        painted(style_of(category), label)
    }
}

/// The style in which the labels of a category are shown.
pub fn style_for(category: Category) -> (style: Style)
    ensures
        style == style_of(category),
{
    match category {
        Category::Directory => Colour::Blue.bold(),
        Category::Image => Colour::RGB(255, 105, 180).bold(),
        Category::Video => Colour::Purple.bold(),
        Category::Data => Colour::Yellow.bold(),
        Category::Archive => Colour::Red.bold(),
        Category::Executable => Colour::Green.bold(),
        Category::Other => Style::default(),
    }
}

/// Paints a label in the style of its category.
pub fn paint_label(category: Category, label: &str) -> (r: String)
    ensures
        r@ == painted_label(category, label@),
{
    paint(style_for(category), label)
}

} // verus!
