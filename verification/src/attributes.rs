//! The attribute extractor: named values of one element, each read through a conversion.
//!
//! A value that is absent, or that its conversion rejects, is `None`. An element that cannot
//! do without one turns that `None` into an error with [`require`], so extraction fails as a
//! whole or not at all.

use vstd::prelude::*;
use crate::decimal::{is_decimal, Decimal};
use crate::events::{views, Attribute, AttributeView};
use crate::values::{color_of, Color};
use crate::text::{i32_of, parse_i32, parse_u32, parse_usize, text_is, u32_of, usize_of};

verus! {

/// The value of the attribute called `name`: that of the last one, should there be several.
pub open spec fn attr_value(attrs: Seq<AttributeView>, name: Seq<char>) -> Option<Seq<char>>
    decreases attrs.len(),
{
    if attrs.len() == 0 {
        None
    } else if attrs.last().name == name {
        Some(attrs.last().value)
    } else {
        attr_value(attrs.drop_last(), name)
    }
}

/// The attribute `name` read as an unsigned 32-bit number.
pub open spec fn attr_u32(attrs: Seq<AttributeView>, name: Seq<char>) -> Option<u32> {
    match attr_value(attrs, name) {
        Some(v) => u32_of(v),
        None => None,
    }
}

/// The attribute `name` read as a signed 32-bit number.
pub open spec fn attr_i32(attrs: Seq<AttributeView>, name: Seq<char>) -> Option<i32> {
    match attr_value(attrs, name) {
        Some(v) => i32_of(v),
        None => None,
    }
}

/// The attribute `name` read as an unsigned number of the machine's word size.
pub open spec fn attr_usize(attrs: Seq<AttributeView>, name: Seq<char>) -> Option<usize> {
    match attr_value(attrs, name) {
        Some(v) => usize_of(v),
        None => None,
    }
}

/// The attribute `name` read as a flag: a number, which is 1 for yes.
pub open spec fn attr_flag(attrs: Seq<AttributeView>, name: Seq<char>) -> Option<bool> {
    match attr_i32(attrs, name) {
        Some(n) => Some(n == 1),
        None => None,
    }
}

/// The attribute `name` read as a decimal.
pub open spec fn attr_decimal(attrs: Seq<AttributeView>, name: Seq<char>) -> Option<Seq<char>> {
    match attr_value(attrs, name) {
        Some(v) => if is_decimal(v) {
            Some(v)
        } else {
            None
        },
        None => None,
    }
}

/// The attribute `name` read as a colour.
pub open spec fn attr_color(attrs: Seq<AttributeView>, name: Seq<char>) -> Option<Color> {
    match attr_value(attrs, name) {
        Some(v) => color_of(v),
        None => None,
    }
}

/// The value, or `default` where there is none.
pub open spec fn or<T>(value: Option<T>, default: T) -> T {
    match value {
        Some(v) => v,
        None => default,
    }
}

/// The model of an optional text.
pub open spec fn text_view(t: Option<String>) -> Option<Seq<char>> {
    match t {
        Some(s) => Some(s@),
        None => None,
    }
}

/// The model of an optional decimal.
pub open spec fn decimal_view(d: Option<Decimal>) -> Option<Seq<char>> {
    match d {
        Some(d) => Some(d@),
        None => None,
    }
}

/// Finds the value of the attribute called `name`.
pub fn find<'a>(attrs: &'a Vec<Attribute>, name: &str) -> (r: Option<&'a String>)
    ensures
        match r {
            Some(v) => attr_value(views(attrs@), name@) == Some(v@),
            None => attr_value(views(attrs@), name@) is None,
        },
{
    let ghost all = views(attrs@);
    let mut i: usize = attrs.len();
    assert(all.take(i as int) =~= all);
    while i > 0
        invariant
            i <= attrs.len(),
            all == views(attrs@),
            attr_value(all, name@) == attr_value(all.take(i as int), name@),
        decreases i,
    {
        let a = &attrs[i - 1];
        assert(all.take(i as int).last() == a@);
        if text_is(a.name.as_str(), name) {
            return Some(&a.value);
        }
        assert(all.take(i as int).drop_last() =~= all.take(i - 1));
        i -= 1;
    }
    None
}

/// The attribute `name` read by `convert`: none where the attribute is absent, and what
/// `convert` makes of its value where it is there.
pub fn extract<T, F: Fn(&str) -> Option<T>>(attrs: &Vec<Attribute>, name: &str, convert: F) -> (r:
    Option<T>)
    requires
        forall|s: &str| call_requires(convert, (s,)),
    ensures
        match attr_value(views(attrs@), name@) {
            Some(v) => exists|s: &str| s@ == v && call_ensures(convert, (s,), r),
            None => r is None,
        },
{
    match find(attrs, name) {
        Some(v) => convert(v.as_str()),
        None => None,
    }
}

/// The attribute `name` as text.
pub fn get_text(attrs: &Vec<Attribute>, name: &str) -> (r: Option<String>)
    ensures
        text_view(r) == attr_value(views(attrs@), name@),
{
    match find(attrs, name) {
        Some(v) => Some(v.clone()),
        None => None,
    }
}

/// The attribute `name` as an unsigned 32-bit number.
pub fn get_u32(attrs: &Vec<Attribute>, name: &str) -> (r: Option<u32>)
    ensures
        r == attr_u32(views(attrs@), name@),
{
    extract(attrs, name, parse_u32)
}

/// The attribute `name` as a signed 32-bit number.
pub fn get_i32(attrs: &Vec<Attribute>, name: &str) -> (r: Option<i32>)
    ensures
        r == attr_i32(views(attrs@), name@),
{
    extract(attrs, name, parse_i32)
}

/// The attribute `name` as an unsigned number of the machine's word size.
pub fn get_usize(attrs: &Vec<Attribute>, name: &str) -> (r: Option<usize>)
    ensures
        r == attr_usize(views(attrs@), name@),
{
    extract(attrs, name, parse_usize)
}

/// The attribute `name` as a flag.
pub fn get_flag(attrs: &Vec<Attribute>, name: &str) -> (r: Option<bool>)
    ensures
        r == attr_flag(views(attrs@), name@),
{
    match get_i32(attrs, name) {
        Some(n) => Some(n == 1),
        None => None,
    }
}

/// The attribute `name` as a decimal.
pub fn get_decimal(attrs: &Vec<Attribute>, name: &str) -> (r: Option<Decimal>)
    ensures
        decimal_view(r) == attr_decimal(views(attrs@), name@),
{
    extract(attrs, name, Decimal::parse)
}

/// The attribute `name` as a colour.
pub fn get_color(attrs: &Vec<Attribute>, name: &str) -> (r: Option<Color>)
    ensures
        r == attr_color(views(attrs@), name@),
{
    extract(attrs, name, Color::parse)
}

/// The attribute `name` as a decimal, or `default` where it is absent or no decimal.
pub fn get_decimal_or(attrs: &Vec<Attribute>, name: &str, default: Decimal) -> (r: Decimal)
    ensures
        r@ == or(attr_decimal(views(attrs@), name@), default@),
{
    match get_decimal(attrs, name) {
        Some(d) => d,
        None => default,
    }
}

/// The attribute `name` as text, or the empty text where it is absent.
pub fn get_text_or_empty(attrs: &Vec<Attribute>, name: &str) -> (r: String)
    ensures
        r@ == or(attr_value(views(attrs@), name@), Seq::empty()),
{
    match find(attrs, name) {
        Some(v) => v.clone(),
        None => String::new(),
    }
}

} // verus!
