//! Colours, and the values that a custom property can have.

use vstd::prelude::*;
use vstd::string::StringExecFns;
use crate::decimal::{is_decimal, Decimal};
use crate::error::{Failure, ParseTileError, TiledError};
use crate::text::{chars_of, i32_of, parse_i32, parse_u32, text_is, u32_of};

verus! {

/// A colour, by its red, green and blue parts.
#[derive(Debug, PartialEq, Eq, Clone, Copy, Structural)]
pub struct Color {
    pub red: u8,
    pub green: u8,
    pub blue: u8,
}

/// Whether `c` is a hexadecimal digit.
pub open spec fn is_hex(c: char) -> bool {
    ||| 48 <= c as u32 <= 57
    ||| 65 <= c as u32 <= 70
    ||| 97 <= c as u32 <= 102
}

/// The number that the hexadecimal digit `c` stands for.
pub open spec fn hex_value(c: char) -> int {
    if c as u32 <= 57 {
        c as u32 - 48
    } else if c as u32 <= 70 {
        c as u32 - 55
    } else {
        c as u32 - 87
    }
}

/// The number that the two hexadecimal digits at `at` spell.
pub open spec fn hex_pair(s: Seq<char>, at: int) -> u8 {
    (hex_value(s[at]) * 16 + hex_value(s[at + 1])) as u8
}

/// The colour that `s` spells: an optional `#`, then six hexadecimal digits for red, green and
/// blue, which two more for the opacity may precede; those two are dropped.
pub open spec fn color_of(s: Seq<char>) -> Option<Color> {
    let from = if s.len() > 0 && s[0] == '#' {
        1int
    } else {
        0int
    };
    let rgb = s.len() - 6;
    if (s.len() - from == 6 || s.len() - from == 8) && (forall|i: int|
        from <= i < s.len() ==> is_hex(#[trigger] s[i])) {
        Some(Color { red: hex_pair(s, rgb), green: hex_pair(s, rgb + 2), blue: hex_pair(s, rgb + 4) })
    } else {
        None
    }
}

/// The number of a hexadecimal digit.
fn hex_digit(c: char) -> (r: Option<u8>)
    ensures
        match r {
            Some(v) => is_hex(c) && v == hex_value(c),
            None => !is_hex(c),
        },
{
    let code = c as u32;
    if 48 <= code && code <= 57 {
        Some((code - 48) as u8)
    } else if 65 <= code && code <= 70 {
        Some((code - 55) as u8)
    } else if 97 <= code && code <= 102 {
        Some((code - 87) as u8)
    } else {
        None
    }
}

impl Color {
    /// Black.
    pub fn black() -> (c: Color)
        ensures
            c == (Color { red: 0, green: 0, blue: 0 }),
    {
        Color { red: 0, green: 0, blue: 0 }
    }

    /// The colour that `text` spells, or the error that says it spells none.
    pub fn from_str(text: &str) -> (r: Result<Color, ParseTileError>)
        ensures
            match color_of(text@) {
                Some(c) => r == Ok::<Color, ParseTileError>(c),
                None => r == Err::<Color, ParseTileError>(ParseTileError::ColorError),
            },
    {
        match Color::parse(text) {
            Some(c) => Ok(c),
            None => Err(ParseTileError::ColorError),
        }
    }

    /// The colour that `text` spells, if it spells one.
    pub fn parse(text: &str) -> (r: Option<Color>)
        ensures
            r == color_of(text@),
    {
        let cs = chars_of(text);
        let from: usize = if cs.len() > 0 && cs[0] == '#' {
            1
        } else {
            0
        };
        if cs.len() - from != 6 && cs.len() - from != 8 {
            return None;
        }
        let rgb = cs.len() - 6;
        let mut parts: [u8; 3] = [0, 0, 0];
        let mut i: usize = from;
        while i < cs.len()
            invariant
                from <= i <= cs.len(),
                cs@ == text@,
                from == (if cs@.len() > 0 && cs@[0] == '#' { 1int } else { 0int }),
                cs.len() - from == 6 || cs.len() - from == 8,
                (cs.len() - i) % 2 == 0,
                rgb == cs.len() - 6,
                from <= rgb,
                (i - rgb) % 2 == 0,
                forall|j: int| from <= j < i ==> is_hex(#[trigger] cs@[j]),
                rgb + 2 <= i ==> parts[0] == hex_pair(cs@, rgb as int),
                rgb + 4 <= i ==> parts[1] == hex_pair(cs@, rgb + 2),
                rgb + 6 <= i ==> parts[2] == hex_pair(cs@, rgb + 4),
            decreases cs.len() - i,
        {
            let high = match hex_digit(cs[i]) {
                Some(v) => v,
                None => {
                    assert(!is_hex(cs@[i as int]));
                    return None;
                },
            };
            let low = match hex_digit(cs[i + 1]) {
                Some(v) => v,
                None => {
                    assert(!is_hex(cs@[i + 1]));
                    return None;
                },
            };
            if i >= rgb {
                parts[(i - rgb) / 2] = high * 16 + low;
            }
            i += 2;
        }
        Some(Color { red: parts[0], green: parts[1], blue: parts[2] })
    }
}

/// The value of a custom property.
#[derive(Debug, PartialEq, Eq, Clone)]
pub enum PropertyValue {
    BoolValue(bool),
    FloatValue(Decimal),
    IntValue(i32),
    ColorValue(Color),
    StringValue(String),
    /// The path of a file, as the document gives it.
    FileValue(String),
    /// The id of an object of the map.
    ObjectValue(u32),
}

/// The model of a [`PropertyValue`].
pub enum PropertyValueView {
    BoolValue(bool),
    FloatValue(Seq<char>),
    IntValue(i32),
    ColorValue(Color),
    StringValue(Seq<char>),
    FileValue(Seq<char>),
    ObjectValue(u32),
}

impl View for PropertyValue {
    type V = PropertyValueView;

    open spec fn view(&self) -> PropertyValueView {
        match self {
            PropertyValue::BoolValue(b) => PropertyValueView::BoolValue(*b),
            PropertyValue::FloatValue(d) => PropertyValueView::FloatValue(d@),
            PropertyValue::IntValue(n) => PropertyValueView::IntValue(*n),
            PropertyValue::ColorValue(c) => PropertyValueView::ColorValue(*c),
            PropertyValue::StringValue(s) => PropertyValueView::StringValue(s@),
            PropertyValue::FileValue(s) => PropertyValueView::FileValue(s@),
            PropertyValue::ObjectValue(n) => PropertyValueView::ObjectValue(*n),
        }
    }
}

/// The failure of a property whose type the reader does not know. It names the type.
pub open spec fn unknown_type(kind: Seq<char>) -> Failure {
    Failure::Other("Unknown property type: "@ + kind)
}

/// The failure of a property whose value does not fit its type. It names the value.
pub open spec fn unfit_value(value: Seq<char>) -> Failure {
    Failure::Other("Invalid property value: "@ + value)
}

/// The value, or the failure, if there is none.
pub open spec fn fit(v: Option<PropertyValueView>, value: Seq<char>) -> Result<
    PropertyValueView,
    Failure,
> {
    match v {
        Some(v) => Ok(v),
        None => Err(unfit_value(value)),
    }
}

/// The value of a property of type `kind` that is spelled `value`.
pub open spec fn property_value(kind: Seq<char>, value: Seq<char>) -> Result<
    PropertyValueView,
    Failure,
> {
    if kind == "string"@ {
        Ok(PropertyValueView::StringValue(value))
    } else if kind == "file"@ {
        Ok(PropertyValueView::FileValue(value))
    } else if kind == "bool"@ {
        if value == "true"@ {
            Ok(PropertyValueView::BoolValue(true))
        } else if value == "false"@ {
            Ok(PropertyValueView::BoolValue(false))
        } else {
            Err(unfit_value(value))
        }
    } else if kind == "int"@ {
        match i32_of(value) {
            Some(n) => Ok(PropertyValueView::IntValue(n)),
            None => Err(unfit_value(value)),
        }
    } else if kind == "object"@ {
        match u32_of(value) {
            Some(n) => Ok(PropertyValueView::ObjectValue(n)),
            None => Err(unfit_value(value)),
        }
    } else if kind == "float"@ {
        if is_decimal(value) {
            Ok(PropertyValueView::FloatValue(value))
        } else {
            Err(unfit_value(value))
        }
    } else if kind == "color"@ {
        match color_of(value) {
            Some(c) => Ok(PropertyValueView::ColorValue(c)),
            None => Err(unfit_value(value)),
        }
    } else {
        Err(unknown_type(kind))
    }
}

/// What a value or an error stands for.
pub open spec fn value_of(r: Result<PropertyValue, TiledError>) -> Result<PropertyValueView, Failure> {
    match r {
        Ok(v) => Ok(v@),
        Err(e) => Err(e@),
    }
}

impl PropertyValue {
    /// Reads `value` as the type `kind` asks.
    pub fn new(kind: &str, value: &str) -> (r: Result<PropertyValue, TiledError>)
        ensures
            value_of(r) == property_value(kind@, value@),
    {
        let unfit = TiledError::Other("Invalid property value: ".to_owned().concat(value));
        if text_is(kind, "string") {
            Ok(PropertyValue::StringValue(value.to_owned()))
        } else if text_is(kind, "file") {
            Ok(PropertyValue::FileValue(value.to_owned()))
        } else if text_is(kind, "bool") {
            if text_is(value, "true") {
                Ok(PropertyValue::BoolValue(true))
            } else if text_is(value, "false") {
                Ok(PropertyValue::BoolValue(false))
            } else {
                Err(unfit)
            }
        } else if text_is(kind, "int") {
            match parse_i32(value) {
                Some(n) => Ok(PropertyValue::IntValue(n)),
                None => Err(unfit),
            }
        } else if text_is(kind, "object") {
            match parse_u32(value) {
                Some(n) => Ok(PropertyValue::ObjectValue(n)),
                None => Err(unfit),
            }
        } else if text_is(kind, "float") {
            match Decimal::parse(value) {
                Some(d) => Ok(PropertyValue::FloatValue(d)),
                None => Err(unfit),
            }
        } else if text_is(kind, "color") {
            match Color::parse(value) {
                Some(c) => Ok(PropertyValue::ColorValue(c)),
                None => Err(unfit),
            }
        } else {
            Err(TiledError::Other("Unknown property type: ".to_owned().concat(kind)))
        }
    }
}

} // verus!
