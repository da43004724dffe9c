//! The resolved style of a node: colours, display, font size and decoration.
//!
//! Every property is optional until the style has been defaulted. Reading a
//! property that is still unset is a fault of the caller, so each getter asks
//! for the property to be there.

use crate::constants::{BLACK, WHITE};
use crate::error::{Error, ErrorModel};
use crate::renderer::dom::node::{ElementKind, NodeKind, NodeKindModel};
use crate::text::{chars_of, str_is};
use vstd::prelude::*;
use vstd::string::StringExecFns;

verus! {

/// A colour, held as `0xRRGGBB`.
#[derive(Debug, Clone, Copy, PartialEq, Eq, Structural)]
pub struct Color {
    pub code: u32,
}

/// The table of colour names.
pub open spec fn color_of_name(name: Seq<char>) -> Option<u32> {
    if name == "black"@ {
        Some(0x000000u32)
    } else if name == "silver"@ {
        Some(0xc0c0c0u32)
    } else if name == "gray"@ {
        Some(0x808080u32)
    } else if name == "white"@ {
        Some(0xffffffu32)
    } else if name == "maroon"@ {
        Some(0x800000u32)
    } else if name == "red"@ {
        Some(0xff0000u32)
    } else if name == "purple"@ {
        Some(0x800080u32)
    } else if name == "fuchsia"@ {
        Some(0xff00ffu32)
    } else if name == "green"@ {
        Some(0x008000u32)
    } else if name == "lime"@ {
        Some(0x00ff00u32)
    } else if name == "olive"@ {
        Some(0x808000u32)
    } else if name == "yellow"@ {
        Some(0xffff00u32)
    } else if name == "navy"@ {
        Some(0x000080u32)
    } else if name == "blue"@ {
        Some(0x0000ffu32)
    } else if name == "teal"@ {
        Some(0x008080u32)
    } else if name == "aqua"@ {
        Some(0x00ffffu32)
    } else if name == "orange"@ {
        Some(0xffa500u32)
    } else if name == "lightgray"@ {
        Some(0xd3d3d3u32)
    } else {
        None
    }
}

/// The value of a hexadecimal digit, in either case.
pub open spec fn hex_digit(c: char) -> Option<int> {
    if '0' <= c <= '9' {
        Some(c as int - '0' as int)
    } else if 'a' <= c <= 'f' {
        Some(c as int - 'a' as int + 10)
    } else if 'A' <= c <= 'F' {
        Some(c as int - 'A' as int + 10)
    } else {
        None
    }
}

/// The colour that a code of the form `#rrggbb` denotes.
pub open spec fn color_of_code(code: Seq<char>) -> Option<u32> {
    if code.len() == 7 && code[0] == '#' && hex_digit(code[1]) is Some && hex_digit(code[2]) is Some
        && hex_digit(code[3]) is Some && hex_digit(code[4]) is Some && hex_digit(code[5]) is Some
        && hex_digit(code[6]) is Some {
        Some(
            (((((hex_digit(code[1])->0 * 16 + hex_digit(code[2])->0) * 16 + hex_digit(code[3])->0)
                * 16 + hex_digit(code[4])->0) * 16 + hex_digit(code[5])->0) * 16 + hex_digit(
                code[6],
            )->0) as u32,
        )
    } else {
        None
    }
}

pub open spec fn unknown_color_name_message(name: Seq<char>) -> Seq<char> {
    "color name "@ + name + " is not supported yet"@
}

pub open spec fn invalid_color_code_message(code: Seq<char>) -> Seq<char> {
    "invalid color code "@ + code
}

fn hex_value(c: char) -> (r: Option<u32>)
    ensures
        match hex_digit(c) {
            Some(v) => r == Some(v as u32) && 0 <= v < 16,
            None => r is None,
        },
{
    if '0' <= c && c <= '9' {
        Some(c as u32 - '0' as u32)
    } else if 'a' <= c && c <= 'f' {
        Some(c as u32 - 'a' as u32 + 10)
    } else if 'A' <= c && c <= 'F' {
        Some(c as u32 - 'A' as u32 + 10)
    } else {
        None
    }
}

impl Color {
    /// The colour with the given name.
    pub fn from_name(name: &String) -> (r: Result<Color, Error>)
        ensures
            match color_of_name(name@) {
                Some(code) => r == Ok::<Color, Error>(Color { code }),
                None => r is Err && r->Err_0@ == ErrorModel::UnexpectedInput(
                    unknown_color_name_message(name@),
                ),
            },
    {
        let code: u32 = if str_is(name, "black") {
            0x000000
        } else if str_is(name, "silver") {
            0xc0c0c0
        } else if str_is(name, "gray") {
            0x808080
        } else if str_is(name, "white") {
            0xffffff
        } else if str_is(name, "maroon") {
            0x800000
        } else if str_is(name, "red") {
            0xff0000
        } else if str_is(name, "purple") {
            0x800080
        } else if str_is(name, "fuchsia") {
            0xff00ff
        } else if str_is(name, "green") {
            0x008000
        } else if str_is(name, "lime") {
            0x00ff00
        } else if str_is(name, "olive") {
            0x808000
        } else if str_is(name, "yellow") {
            0xffff00
        } else if str_is(name, "navy") {
            0x000080
        } else if str_is(name, "blue") {
            0x0000ff
        } else if str_is(name, "teal") {
            0x008080
        } else if str_is(name, "aqua") {
            0x00ffff
        } else if str_is(name, "orange") {
            0xffa500
        } else if str_is(name, "lightgray") {
            0xd3d3d3
        } else {
            let mut message = String::from_str("color name ");
            message.append(name.as_str());
            message.append(" is not supported yet");
            return Err(Error::UnexpectedInput(message));
        };
        Ok(Color { code })
    }

    /// The colour with the given code, which has the form `#rrggbb`.
    pub fn from_code(code: &String) -> (r: Result<Color, Error>)
        ensures
            match color_of_code(code@) {
                Some(value) => r == Ok::<Color, Error>(Color { code: value }),
                None => r is Err && r->Err_0@ == ErrorModel::UnexpectedInput(
                    invalid_color_code_message(code@),
                ),
            },
    {
        let chars = chars_of(code.as_str());
        if chars.len() == 7 && chars[0] == '#' {
            let mut value: u32 = 0;
            let mut i: usize = 1;
            while i < 7
                invariant
                    chars@ == code@,
                    chars.len() == 7,
                    chars[0] == '#',
                    1 <= i <= 7,
                    forall|j: int| 1 <= j < i ==> hex_digit(chars[j]) is Some,
                    value < 0x1000000,
                    i == 1 ==> value == 0,
                    i == 2 ==> value == hex_digit(chars[1])->0,
                    i == 3 ==> value == hex_digit(chars[1])->0 * 16 + hex_digit(chars[2])->0,
                    i == 4 ==> value == (hex_digit(chars[1])->0 * 16 + hex_digit(chars[2])->0) * 16
                        + hex_digit(chars[3])->0,
                    i == 5 ==> value == ((hex_digit(chars[1])->0 * 16 + hex_digit(chars[2])->0)
                        * 16 + hex_digit(chars[3])->0) * 16 + hex_digit(chars[4])->0,
                    i == 6 ==> value == (((hex_digit(chars[1])->0 * 16 + hex_digit(chars[2])->0)
                        * 16 + hex_digit(chars[3])->0) * 16 + hex_digit(chars[4])->0) * 16
                        + hex_digit(chars[5])->0,
                    i == 7 ==> value == ((((hex_digit(chars[1])->0 * 16 + hex_digit(chars[2])->0)
                        * 16 + hex_digit(chars[3])->0) * 16 + hex_digit(chars[4])->0) * 16
                        + hex_digit(chars[5])->0) * 16 + hex_digit(chars[6])->0,
                decreases 7 - i,
            {
                match hex_value(chars[i]) {
                    Some(d) => {
                        value = value * 16 + d;
                        i += 1;
                    },
                    None => {
                        let mut message = String::from_str("invalid color code ");
                        message.append(code.as_str());
                        return Err(Error::UnexpectedInput(message));
                    },
                }
            }
            return Ok(Color { code: value });
        }
        let mut message = String::from_str("invalid color code ");
        message.append(code.as_str());
        Err(Error::UnexpectedInput(message))
    }

    pub fn white() -> (c: Color)
        ensures
            c == (Color { code: WHITE }),
    {
        Color { code: WHITE }
    }

    pub fn black() -> (c: Color)
        ensures
            c == (Color { code: BLACK }),
    {
        Color { code: BLACK }
    }

    pub fn code_u32(&self) -> (r: u32)
        ensures
            r == self.code,
    {
        self.code
    }
}

/// How an element takes part in layout.
#[derive(Debug, Clone, Copy, PartialEq, Eq, Structural)]
pub enum DisplayType {
    /// The element starts a new line and takes the full width.
    Block,
    /// The element flows within a line.
    Inline,
    /// The element and everything below it is left out.
    DisplayNone,
}

pub open spec fn display_of_name(name: Seq<char>) -> Option<DisplayType> {
    if name == "block"@ {
        Some(DisplayType::Block)
    } else if name == "inline"@ {
        Some(DisplayType::Inline)
    } else if name == "none"@ {
        Some(DisplayType::DisplayNone)
    } else {
        None
    }
}

pub open spec fn unknown_display_message(name: Seq<char>) -> Seq<char> {
    "display "@ + name + " is not supported yet"@
}

/// The tags whose elements are block-level unless a rule says otherwise.
/// Every other element is inline.
pub open spec fn is_block_level_tag(tag: Seq<char>) -> bool {
    tag == ElementKind::Body.name() || tag == ElementKind::H1.name() || tag
        == ElementKind::H2.name() || tag == ElementKind::P.name()
}

/// The display that a node has where no rule sets one.
pub open spec fn default_display(kind: NodeKindModel) -> DisplayType {
    match kind {
        NodeKindModel::Document => DisplayType::Block,
        NodeKindModel::Element(e) => if is_block_level_tag(e.tag) {
            DisplayType::Block
        } else {
            DisplayType::Inline
        },
        NodeKindModel::Text(_) => DisplayType::Inline,
    }
}

/// Whether elements with this tag are block-level by default.
pub fn block_level_tag(tag: &String) -> (r: bool)
    ensures
        r == is_block_level_tag(tag@),
{
    str_is(tag, ElementKind::Body.as_str()) || str_is(tag, ElementKind::H1.as_str()) || str_is(
        tag,
        ElementKind::H2.as_str(),
    ) || str_is(tag, ElementKind::P.as_str())
}

impl DisplayType {
    /// The display with the given keyword.
    pub fn from_str(s: &String) -> (r: Result<DisplayType, Error>)
        ensures
            match display_of_name(s@) {
                Some(d) => r == Ok::<DisplayType, Error>(d),
                None => r is Err && r->Err_0@ == ErrorModel::UnexpectedInput(
                    unknown_display_message(s@),
                ),
            },
    {
        if str_is(s, "block") {
            Ok(DisplayType::Block)
        } else if str_is(s, "inline") {
            Ok(DisplayType::Inline)
        } else if str_is(s, "none") {
            Ok(DisplayType::DisplayNone)
        } else {
            let mut message = String::from_str("display ");
            message.append(s.as_str());
            message.append(" is not supported yet");
            Err(Error::UnexpectedInput(message))
        }
    }

    /// The display of a node that no rule gives one.
    pub fn default(node: &NodeKind) -> (r: DisplayType)
        ensures
            r == default_display(node@),
    {
        match node {
            NodeKind::Document => DisplayType::Block,
            NodeKind::Element(e) => if block_level_tag(&e.tag) {
                DisplayType::Block
            } else {
                DisplayType::Inline
            },
            NodeKind::Text(_) => DisplayType::Inline,
        }
    }
}

/// The three sizes of type.
#[derive(Debug, Clone, Copy, PartialEq, Eq, Structural)]
pub enum FontSize {
    Medium,
    XLarge,
    XXLarge,
}

impl FontSize {
    /// By how much the size scales a glyph.
    pub open spec fn spec_ratio(self) -> i64 {
        match self {
            FontSize::Medium => 1i64,
            FontSize::XLarge => 2i64,
            FontSize::XXLarge => 3i64,
        }
    }

    #[verifier::when_used_as_spec(spec_ratio)]
    pub fn ratio(self) -> (r: i64)
        ensures
            r == self.spec_ratio(),
    {
        match self {
            FontSize::Medium => 1,
            FontSize::XLarge => 2,
            FontSize::XXLarge => 3,
        }
    }
}

#[derive(Debug, Clone, Copy, PartialEq, Eq, Structural)]
pub enum TextDecoration {
    NoDecoration,
    Underline,
}

/// The style of one node.
#[derive(Debug, Clone, Copy, PartialEq, Eq, Structural)]
pub struct ComputedStyle {
    pub background_color: Option<Color>,
    pub color: Option<Color>,
    pub display: Option<DisplayType>,
    pub font_size: Option<FontSize>,
    pub text_decoration: Option<TextDecoration>,
    pub height: Option<i64>,
    pub width: Option<i64>,
}

/// The style that a node has after defaulting.
///
/// The colour of the text, the font size and the decoration come from the
/// parent where the node sets none, and from fixed values where there is no
/// parent. The background and the display are never taken from the parent.
pub open spec fn defaulted(
    style: ComputedStyle,
    kind: NodeKindModel,
    parent: Option<ComputedStyle>,
) -> ComputedStyle {
    ComputedStyle {
        background_color: Some(
            match style.background_color {
                Some(c) => c,
                None => Color { code: WHITE },
            },
        ),
        color: Some(
            match (style.color, parent) {
                (Some(c), _) => c,
                (None, Some(p)) => p.color->0,
                (None, None) => Color { code: BLACK },
            },
        ),
        display: Some(
            match style.display {
                Some(d) => d,
                None => default_display(kind),
            },
        ),
        font_size: Some(
            match (style.font_size, parent) {
                (Some(f), _) => f,
                (None, Some(p)) => p.font_size->0,
                (None, None) => FontSize::Medium,
            },
        ),
        text_decoration: Some(
            match (style.text_decoration, parent) {
                (Some(t), _) => t,
                (None, Some(p)) => p.text_decoration->0,
                (None, None) => TextDecoration::NoDecoration,
            },
        ),
        height: Some(
            match style.height {
                Some(h) => h,
                None => 0i64,
            },
        ),
        width: Some(
            match style.width {
                Some(w) => w,
                None => 0i64,
            },
        ),
    }
}

impl ComputedStyle {
    /// Whether every property has a value.
    pub open spec fn is_resolved(self) -> bool {
        self.background_color is Some && self.color is Some && self.display is Some
            && self.font_size is Some && self.text_decoration is Some && self.height is Some
            && self.width is Some
    }

    /// The style in which no property is set.
    pub fn new() -> (s: Self)
        ensures
            s == (ComputedStyle {
                background_color: None,
                color: None,
                display: None,
                font_size: None,
                text_decoration: None,
                height: None,
                width: None,
            }),
    {
        Self {
            background_color: None,
            color: None,
            display: None,
            font_size: None,
            text_decoration: None,
            height: None,
            width: None,
        }
    }

    /// Gives every unset property its value.
    pub fn defaulting(&mut self, node: &NodeKind, parent_style: Option<ComputedStyle>)
        requires
            parent_style is Some ==> (parent_style->0).is_resolved(),
        ensures
            *final(self) == defaulted(*old(self), node@, parent_style),
            final(self).is_resolved(),
    {
        if self.background_color.is_none() {
            self.background_color = Some(Color::white());
        }
        if self.color.is_none() {
            self.color = Some(
                match parent_style {
                    Some(p) => p.color(),
                    None => Color::black(),
                },
            );
        }
        if self.display.is_none() {
            self.display = Some(DisplayType::default(node));
        }
        if self.font_size.is_none() {
            self.font_size = Some(
                match parent_style {
                    Some(p) => p.font_size(),
                    None => FontSize::Medium,
                },
            );
        }
        if self.text_decoration.is_none() {
            self.text_decoration = Some(
                match parent_style {
                    Some(p) => p.text_decoration(),
                    None => TextDecoration::NoDecoration,
                },
            );
        }
        if self.height.is_none() {
            self.height = Some(0);
        }
        if self.width.is_none() {
            self.width = Some(0);
        }
    }

    /// Whether every property has a value, so that each getter may be called.
    pub fn resolved(&self) -> (r: bool)
        ensures
            r == self.is_resolved(),
    {
        self.background_color.is_some() && self.color.is_some() && self.display.is_some()
            && self.font_size.is_some() && self.text_decoration.is_some() && self.height.is_some()
            && self.width.is_some()
    }

    pub fn set_background_color(&mut self, color: Color)
        ensures
            *final(self) == (ComputedStyle { background_color: Some(color), ..*old(self) }),
    {
        self.background_color = Some(color);
    }

    pub fn background_color(&self) -> (r: Color)
        requires
            self.background_color is Some,
        ensures
            Some(r) == self.background_color,
    {
        match self.background_color {
            Some(c) => c,
            None => Color::white(),
        }
    }

    pub fn set_color(&mut self, color: Color)
        ensures
            *final(self) == (ComputedStyle { color: Some(color), ..*old(self) }),
    {
        self.color = Some(color);
    }

    pub fn color(&self) -> (r: Color)
        requires
            self.color is Some,
        ensures
            Some(r) == self.color,
    {
        match self.color {
            Some(c) => c,
            None => Color::black(),
        }
    }

    pub fn set_display(&mut self, display: DisplayType)
        ensures
            *final(self) == (ComputedStyle { display: Some(display), ..*old(self) }),
    {
        self.display = Some(display);
    }

    pub fn display(&self) -> (r: DisplayType)
        requires
            self.display is Some,
        ensures
            Some(r) == self.display,
    {
        match self.display {
            Some(d) => d,
            None => DisplayType::DisplayNone,
        }
    }

    pub fn set_font_size(&mut self, font_size: FontSize)
        ensures
            *final(self) == (ComputedStyle { font_size: Some(font_size), ..*old(self) }),
    {
        self.font_size = Some(font_size);
    }

    pub fn font_size(&self) -> (r: FontSize)
        requires
            self.font_size is Some,
        ensures
            Some(r) == self.font_size,
    {
        match self.font_size {
            Some(f) => f,
            None => FontSize::Medium,
        }
    }

    pub fn set_text_decoration(&mut self, text_decoration: TextDecoration)
        ensures
            *final(self) == (ComputedStyle {
                text_decoration: Some(text_decoration),
                ..*old(self)
            }),
    {
        self.text_decoration = Some(text_decoration);
    }

    pub fn text_decoration(&self) -> (r: TextDecoration)
        requires
            self.text_decoration is Some,
        ensures
            Some(r) == self.text_decoration,
    {
        match self.text_decoration {
            Some(t) => t,
            None => TextDecoration::NoDecoration,
        }
    }

    pub fn set_height(&mut self, height: i64)
        ensures
            *final(self) == (ComputedStyle { height: Some(height), ..*old(self) }),
    {
        self.height = Some(height);
    }

    pub fn height(&self) -> (r: i64)
        requires
            self.height is Some,
        ensures
            Some(r) == self.height,
    {
        match self.height {
            Some(h) => h,
            None => 0,
        }
    }

    pub fn set_width(&mut self, width: i64)
        ensures
            *final(self) == (ComputedStyle { width: Some(width), ..*old(self) }),
    {
        self.width = Some(width);
    }

    pub fn width(&self) -> (r: i64)
        requires
            self.width is Some,
        ensures
            Some(r) == self.width,
    {
        match self.width {
            Some(w) => w,
            None => 0,
        }
    }
}

} // verus!
