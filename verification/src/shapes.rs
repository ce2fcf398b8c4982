//! The shapes of objects, and the parsers of the elements that declare them.

use vstd::prelude::*;
use crate::attributes::{
    attr_color, attr_i32, attr_usize, attr_value, find, get_color, get_i32, get_usize, or,
};
use crate::decimal::Decimal;
use crate::dispatch::{element_end, finish_element, outcome, read_text, start_attrs, text_at};
use crate::error::{Failure, TiledError};
use crate::events::{views, Token, TokenView};
use crate::points::{parse_points, points_of};
use crate::text::text_is;
use crate::values::Color;

verus! {

/// How the lines of a text lie between its left and right edge.
#[derive(Debug, PartialEq, Eq, Clone, Copy, Structural)]
pub enum HorizontalAlignment {
    Left,
    Center,
    Right,
    Justify,
}

/// How a text lies between its upper and lower edge.
#[derive(Debug, PartialEq, Eq, Clone, Copy, Structural)]
pub enum VerticalAlignment {
    Top,
    Center,
    Bottom,
}

/// The alignment that the attribute `halign` asks for: `left` where it is absent, none where
/// it holds a word that names no alignment.
pub open spec fn halign_of(v: Option<Seq<char>>) -> Option<HorizontalAlignment> {
    match v {
        None => Some(HorizontalAlignment::Left),
        Some(s) => if s == "left"@ {
            Some(HorizontalAlignment::Left)
        } else if s == "center"@ {
            Some(HorizontalAlignment::Center)
        } else if s == "right"@ {
            Some(HorizontalAlignment::Right)
        } else if s == "justify"@ {
            Some(HorizontalAlignment::Justify)
        } else {
            None
        },
    }
}

/// The alignment that the attribute `valign` asks for: `top` where it is absent, none where
/// it holds a word that names no alignment.
pub open spec fn valign_of(v: Option<Seq<char>>) -> Option<VerticalAlignment> {
    match v {
        None => Some(VerticalAlignment::Top),
        Some(s) => if s == "top"@ {
            Some(VerticalAlignment::Top)
        } else if s == "center"@ {
            Some(VerticalAlignment::Center)
        } else if s == "bottom"@ {
            Some(VerticalAlignment::Bottom)
        } else {
            None
        },
    }
}

impl HorizontalAlignment {
    /// Reads the value of the attribute `halign`.
    pub fn parse(v: Option<&String>) -> (r: Option<HorizontalAlignment>)
        ensures
            r == halign_of(
                match v {
                    Some(s) => Some(s@),
                    None => None,
                },
            ),
    {
        match v {
            None => Some(HorizontalAlignment::Left),
            Some(s) => if text_is(s.as_str(), "left") {
                Some(HorizontalAlignment::Left)
            } else if text_is(s.as_str(), "center") {
                Some(HorizontalAlignment::Center)
            } else if text_is(s.as_str(), "right") {
                Some(HorizontalAlignment::Right)
            } else if text_is(s.as_str(), "justify") {
                Some(HorizontalAlignment::Justify)
            } else {
                None
            },
        }
    }
}

impl VerticalAlignment {
    /// Reads the value of the attribute `valign`.
    pub fn parse(v: Option<&String>) -> (r: Option<VerticalAlignment>)
        ensures
            r == valign_of(
                match v {
                    Some(s) => Some(s@),
                    None => None,
                },
            ),
    {
        match v {
            None => Some(VerticalAlignment::Top),
            Some(s) => if text_is(s.as_str(), "top") {
                Some(VerticalAlignment::Top)
            } else if text_is(s.as_str(), "center") {
                Some(VerticalAlignment::Center)
            } else if text_is(s.as_str(), "bottom") {
                Some(VerticalAlignment::Bottom)
            } else {
                None
            },
        }
    }
}

/// The shape of an object.
#[derive(Debug, PartialEq, Eq, Clone)]
pub enum ObjectShape {
    Rect { width: Decimal, height: Decimal },
    Ellipse { width: Decimal, height: Decimal },
    Polyline { points: Vec<(Decimal, Decimal)> },
    Polygon { points: Vec<(Decimal, Decimal)> },
    Point(Decimal, Decimal),
    Text {
        font_family: String,
        pixel_size: usize,
        wrap: bool,
        color: Color,
        bold: bool,
        italic: bool,
        underline: bool,
        strikeout: bool,
        kerning: bool,
        halign: HorizontalAlignment,
        valign: VerticalAlignment,
        contents: String,
    },
}

/// The model of an [`ObjectShape`].
pub enum ShapeView {
    Rect { width: Seq<char>, height: Seq<char> },
    Ellipse { width: Seq<char>, height: Seq<char> },
    Polyline { points: Seq<(Seq<char>, Seq<char>)> },
    Polygon { points: Seq<(Seq<char>, Seq<char>)> },
    Point(Seq<char>, Seq<char>),
    Text {
        font_family: Seq<char>,
        pixel_size: usize,
        wrap: bool,
        color: Color,
        bold: bool,
        italic: bool,
        underline: bool,
        strikeout: bool,
        kerning: bool,
        halign: HorizontalAlignment,
        valign: VerticalAlignment,
        contents: Seq<char>,
    },
}

impl View for ObjectShape {
    type V = ShapeView;

    open spec fn view(&self) -> ShapeView {
        match self {
            ObjectShape::Rect { width, height } => ShapeView::Rect { width: width@, height: height@ },
            ObjectShape::Ellipse { width, height } => ShapeView::Ellipse {
                width: width@,
                height: height@,
            },
            ObjectShape::Polyline { points } => ShapeView::Polyline { points: views(points@) },
            ObjectShape::Polygon { points } => ShapeView::Polygon { points: views(points@) },
            ObjectShape::Point(x, y) => ShapeView::Point(x@, y@),
            ObjectShape::Text {
                font_family,
                pixel_size,
                wrap,
                color,
                bold,
                italic,
                underline,
                strikeout,
                kerning,
                halign,
                valign,
                contents,
            } => ShapeView::Text {
                font_family: font_family@,
                pixel_size: *pixel_size,
                wrap: *wrap,
                color: *color,
                bold: *bold,
                italic: *italic,
                underline: *underline,
                strikeout: *strikeout,
                kerning: *kerning,
                halign: *halign,
                valign: *valign,
                contents: contents@,
            },
        }
    }
}

/// The failure of a text whose alignment is no known word.
pub open spec fn unknown_alignment() -> Failure {
    Failure::MalformedAttributes("text has an unknown halign or valign"@)
}

/// The text that the `text` element at `at` declares. A flag is set where its attribute is
/// the number 1; kerning is on unless its attribute is the number 0. The contents are the
/// character data right behind the start tag, and empty where none stands there.
pub open spec fn text_shape_at(ts: Seq<TokenView>, at: int) -> Result<(ShapeView, int), Failure> {
    let attrs = ts[at]->attrs;
    let (contents, pos) = match text_at(ts, at + 1) {
        Some(t) => (t, at + 2),
        None => (Seq::empty(), at + 1),
    };
    match (halign_of(attr_value(attrs, "halign"@)), valign_of(attr_value(attrs, "valign"@))) {
        (Some(halign), Some(valign)) => match element_end(ts, pos, "text"@) {
            Err(f) => Err(f),
            Ok(next) => Ok(
                (
                    ShapeView::Text {
                        font_family: or(attr_value(attrs, "fontfamily"@), "sans-serif"@),
                        pixel_size: or(attr_usize(attrs, "pixelsize"@), 16),
                        wrap: attr_i32(attrs, "wrap"@) == Some(1i32),
                        color: or(attr_color(attrs, "color"@), Color { red: 0, green: 0, blue: 0 }),
                        bold: attr_i32(attrs, "bold"@) == Some(1i32),
                        italic: attr_i32(attrs, "italic"@) == Some(1i32),
                        underline: attr_i32(attrs, "underline"@) == Some(1i32),
                        strikeout: attr_i32(attrs, "strikeout"@) == Some(1i32),
                        kerning: attr_i32(attrs, "kerning"@) != Some(0i32),
                        halign,
                        valign,
                        contents,
                    },
                    next,
                ),
            ),
        },
        _ => Err(unknown_alignment()),
    }
}

/// The failure of an outline without points.
pub open spec fn no_points(closed: bool) -> Failure {
    if closed {
        Failure::MalformedAttributes("A polygon must have points"@)
    } else {
        Failure::MalformedAttributes("A polyline must have points"@)
    }
}

/// The outline that the `polygon` (closed) or `polyline` element at `at` declares.
pub open spec fn outline_at(ts: Seq<TokenView>, at: int, closed: bool) -> Result<
    (ShapeView, int),
    Failure,
> {
    let name = if closed {
        "polygon"@
    } else {
        "polyline"@
    };
    match attr_value(ts[at]->attrs, "points"@) {
        None => Err(no_points(closed)),
        Some(v) => match points_of(v) {
            Err(f) => Err(f),
            Ok(points) => match element_end(ts, at + 1, name) {
                Err(f) => Err(f),
                Ok(next) => if closed {
                    Ok((ShapeView::Polygon { points }, next))
                } else {
                    Ok((ShapeView::Polyline { points }, next))
                },
            },
        },
    }
}

/// The shape that an empty element called `name` at `at` stands for: `shape`, once the
/// element has closed.
pub open spec fn plain_shape_at(ts: Seq<TokenView>, at: int, name: Seq<char>, shape: ShapeView) -> Result<
    (ShapeView, int),
    Failure,
> {
    match element_end(ts, at + 1, name) {
        Err(f) => Err(f),
        Ok(next) => Ok((shape, next)),
    }
}

/// Whether a flag attribute holds the number `n`.
fn holds(attrs: &Vec<crate::events::Attribute>, name: &str, n: i32) -> (r: bool)
    ensures
        r == (attr_i32(views(attrs@), name@) == Some(n)),
{
    match get_i32(attrs, name) {
        Some(v) => v == n,
        None => false,
    }
}

impl ObjectShape {
    /// Reads the `text` element whose start tag is at `at`.
    pub fn new_text(tokens: &Vec<Token>, at: usize) -> (r: Result<(ObjectShape, usize), TiledError>)
        requires
            at < tokens.len(),
            tokens[at as int] is Start,
        ensures
            outcome(r) == text_shape_at(views(tokens@), at as int),
            r matches Ok((_, next)) ==> at < next <= tokens.len(),
    {
        let attrs = start_attrs(tokens, at);
        let font_family = match find(attrs, "fontfamily") {
            Some(v) => v.clone(),
            None => "sans-serif".to_owned(),
        };
        let pixel_size = match get_usize(attrs, "pixelsize") {
            Some(n) => n,
            None => 16,
        };
        let wrap = holds(attrs, "wrap", 1);
        let color = match get_color(attrs, "color") {
            Some(c) => c,
            None => Color::black(),
        };
        let bold = holds(attrs, "bold", 1);
        let italic = holds(attrs, "italic", 1);
        let underline = holds(attrs, "underline", 1);
        let strikeout = holds(attrs, "strikeout", 1);
        let kerning = !holds(attrs, "kerning", 0);
        let halign = HorizontalAlignment::parse(find(attrs, "halign"));
        let valign = VerticalAlignment::parse(find(attrs, "valign"));
        let (halign, valign) = match (halign, valign) {
            (Some(h), Some(v)) => (h, v),
            _ => {
                return Err(TiledError::malformed("text has an unknown halign or valign"));
            },
        };
        let (contents, pos) = match read_text(tokens, at + 1) {
            Some(t) => (t.clone(), at + 2),
            None => (String::new(), at + 1),
        };
        match finish_element(tokens, pos, "text") {
            Err(e) => Err(e),
            Ok(next) => Ok(
                (
                    ObjectShape::Text {
                        font_family,
                        pixel_size,
                        wrap,
                        color,
                        bold,
                        italic,
                        underline,
                        strikeout,
                        kerning,
                        halign,
                        valign,
                        contents,
                    },
                    next,
                ),
            ),
        }
    }

    /// Reads the `polyline` element whose start tag is at `at`.
    pub fn new_polyline(tokens: &Vec<Token>, at: usize) -> (r: Result<
        (ObjectShape, usize),
        TiledError,
    >)
        requires
            at < tokens.len(),
            tokens[at as int] is Start,
        ensures
            outcome(r) == outline_at(views(tokens@), at as int, false),
            r matches Ok((_, next)) ==> at < next <= tokens.len(),
    {
        let text = match find(start_attrs(tokens, at), "points") {
            Some(v) => v,
            None => {
                return Err(TiledError::malformed("A polyline must have points"));
            },
        };
        let points = match parse_points(text.as_str()) {
            Ok(p) => p,
            Err(e) => {
                return Err(e);
            },
        };
        match finish_element(tokens, at + 1, "polyline") {
            Err(e) => Err(e),
            Ok(next) => Ok((ObjectShape::Polyline { points }, next)),
        }
    }

    /// Reads the `polygon` element whose start tag is at `at`.
    pub fn new_polygon(tokens: &Vec<Token>, at: usize) -> (r: Result<
        (ObjectShape, usize),
        TiledError,
    >)
        requires
            at < tokens.len(),
            tokens[at as int] is Start,
        ensures
            outcome(r) == outline_at(views(tokens@), at as int, true),
            r matches Ok((_, next)) ==> at < next <= tokens.len(),
    {
        let text = match find(start_attrs(tokens, at), "points") {
            Some(v) => v,
            None => {
                return Err(TiledError::malformed("A polygon must have points"));
            },
        };
        let points = match parse_points(text.as_str()) {
            Ok(p) => p,
            Err(e) => {
                return Err(e);
            },
        };
        match finish_element(tokens, at + 1, "polygon") {
            Err(e) => Err(e),
            Ok(next) => Ok((ObjectShape::Polygon { points }, next)),
        }
    }

    /// Reads the `point` element whose start tag is at `at`, for an object at `x`, `y`.
    pub fn new_point(tokens: &Vec<Token>, at: usize, x: Decimal, y: Decimal) -> (r: Result<
        (ObjectShape, usize),
        TiledError,
    >)
        requires
            at < tokens.len(),
        ensures
            outcome(r) == plain_shape_at(views(tokens@), at as int, "point"@, ShapeView::Point(x@, y@)),
            r matches Ok((_, next)) ==> at < next <= tokens.len(),
    {
        match finish_element(tokens, at + 1, "point") {
            Err(e) => Err(e),
            Ok(next) => Ok((ObjectShape::Point(x, y), next)),
        }
    }

    /// Reads the `ellipse` element whose start tag is at `at`, for an object of the given size.
    pub fn new_ellipse(tokens: &Vec<Token>, at: usize, width: Decimal, height: Decimal) -> (r: Result<
        (ObjectShape, usize),
        TiledError,
    >)
        requires
            at < tokens.len(),
        ensures
            outcome(r) == plain_shape_at(
                views(tokens@),
                at as int,
                "ellipse"@,
                ShapeView::Ellipse { width: width@, height: height@ },
            ),
            r matches Ok((_, next)) ==> at < next <= tokens.len(),
    {
        match finish_element(tokens, at + 1, "ellipse") {
            Err(e) => Err(e),
            Ok(next) => Ok((ObjectShape::Ellipse { width, height }, next)),
        }
    }
}

} // verus!
