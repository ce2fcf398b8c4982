//! Tile layers and image layers, and what they share with tilesets: an optional image and
//! the custom properties.

use vstd::prelude::*;
use crate::attributes::{
    attr_color, attr_decimal, attr_flag, attr_i32, attr_value, get_color, get_decimal_or,
    get_flag, get_i32, get_text, or,
};
use crate::decimal::Decimal;
use crate::dispatch::{
    child_step, element_end, finish_element, lemma_child_step, lemma_element_end,
    lemma_subtree_end, next_child, outcome, skip_element, start_attrs, start_name, subtree_end,
    Found, Step,
};
use crate::error::{Failure, TiledError};
use crate::events::{views, Token, TokenView};
use crate::properties::{lemma_properties_from, properties_at, Properties};
use crate::text::text_is;
use crate::values::{Color, PropertyValueView};

verus! {

/// A reference to a picture: where it is kept and how large it is, in pixels.
#[derive(Debug, PartialEq, Eq, Clone)]
pub struct Image {
    /// The path of the file, as the document gives it.
    pub source: String,
    pub width: i32,
    pub height: i32,
    /// The colour that is drawn as transparent.
    pub transparent_colour: Option<Color>,
}

/// The model of an [`Image`].
pub struct ImageView {
    pub source: Seq<char>,
    pub width: i32,
    pub height: i32,
    pub transparent_colour: Option<Color>,
}

impl View for Image {
    type V = ImageView;

    open spec fn view(&self) -> ImageView {
        ImageView {
            source: self.source@,
            width: self.width,
            height: self.height,
            transparent_colour: self.transparent_colour,
        }
    }
}

/// The failure of an image that lacks what it must have.
pub open spec fn image_needs() -> Failure {
    Failure::MalformedAttributes("image must have a source, width and height with correct types"@)
}

/// The image that the `image` element at `at` declares.
pub open spec fn image_at(ts: Seq<TokenView>, at: int) -> Result<(ImageView, int), Failure> {
    let attrs = ts[at]->attrs;
    match (attr_value(attrs, "source"@), attr_i32(attrs, "width"@), attr_i32(attrs, "height"@)) {
        (Some(source), Some(width), Some(height)) => match element_end(ts, at + 1, "image"@) {
            Err(f) => Err(f),
            Ok(next) => Ok(
                (
                    ImageView {
                        source,
                        width,
                        height,
                        transparent_colour: attr_color(attrs, "trans"@),
                    },
                    next,
                ),
            ),
        },
        _ => Err(image_needs()),
    }
}

impl Image {
    /// Reads the `image` element whose start tag is at `at`.
    pub fn new(tokens: &Vec<Token>, at: usize) -> (r: Result<(Image, usize), TiledError>)
        requires
            at < tokens.len(),
            tokens[at as int] is Start,
        ensures
            outcome(r) == image_at(views(tokens@), at as int),
            r matches Ok((_, next)) ==> at < next <= tokens.len(),
    {
        let attrs = start_attrs(tokens, at);
        let needed = (get_text(attrs, "source"), get_i32(attrs, "width"), get_i32(attrs, "height"));
        let (source, width, height) = match needed {
            (Some(s), Some(w), Some(h)) => (s, w, h),
            _ => {
                return Err(
                    TiledError::malformed(
                        "image must have a source, width and height with correct types",
                    ),
                );
            },
        };
        let transparent_colour = get_color(attrs, "trans");
        match finish_element(tokens, at + 1, "image") {
            Err(e) => Err(e),
            Ok(next) => Ok((Image { source, width, height, transparent_colour }, next)),
        }
    }
}

/// What the children of a layer or a tileset declare.
pub struct Contents {
    pub image: Option<Image>,
    pub properties: Properties,
}

/// The model of [`Contents`].
pub struct ContentsView {
    pub image: Option<ImageView>,
    pub properties: Map<Seq<char>, PropertyValueView>,
}

impl View for Contents {
    type V = ContentsView;

    open spec fn view(&self) -> ContentsView {
        ContentsView {
            image: match self.image {
                Some(i) => Some(i@),
                None => None,
            },
            properties: self.properties@,
        }
    }
}

/// Nothing declared.
pub open spec fn no_contents() -> ContentsView {
    ContentsView { image: None, properties: Map::empty() }
}

/// What the child at `at` makes of `found`, if it is a child that counts: a `properties`
/// child replaces the properties and, where the element can have one, an `image` child the
/// image.
#[verifier::opaque]
pub open spec fn contents_child(ts: Seq<TokenView>, at: int, pictured: bool, found: ContentsView) -> Option<
    Result<(ContentsView, int), Failure>,
> {
    let name = ts[at]->Start_name;
    if pictured && name == "image"@ {
        Some(
            match image_at(ts, at) {
                Err(f) => Err(f),
                Ok((image, next)) => Ok((ContentsView { image: Some(image), ..found }, next)),
            },
        )
    } else if name == "properties"@ {
        Some(
            match properties_at(ts, at) {
                Err(f) => Err(f),
                Ok((properties, next)) => Ok((ContentsView { properties, ..found }, next)),
            },
        )
    } else {
        None
    }
}

/// A child that counts ends behind its start tag.
pub proof fn lemma_contents_child(ts: Seq<TokenView>, at: int, pictured: bool, found: ContentsView)
    requires
        0 <= at,
    ensures
        contents_child(ts, at, pictured, found) matches Some(Ok((_, next))) ==> at < next
            <= ts.len(),
{
    reveal(contents_child);
    lemma_element_end(ts, at + 1, "image"@);
    lemma_properties_from(ts, at + 1, Map::empty());
}

/// What `found` becomes through the children of the element `parent` from `pos` on. Each
/// child that counts does its part, in the order of the document; any other child is passed
/// over.
pub open spec fn contents_from(
    ts: Seq<TokenView>,
    pos: int,
    parent: Seq<char>,
    pictured: bool,
    found: ContentsView,
) -> Result<(ContentsView, int), Failure>
    decreases ts.len() - pos,
{
    if pos < 0 {
        Err(image_needs())
    } else {
        match child_step(ts, pos, parent) {
            Step::Failed(f) => Err(f),
            Step::Closed { next } => Ok((found, next)),
            Step::Child { at } => {
                proof {
                    lemma_child_step(ts, pos, parent);
                    lemma_contents_child(ts, at, pictured, found);
                    lemma_subtree_end(ts, at + 1, 1, parent);
                }
                match contents_child(ts, at, pictured, found) {
                    Some(Err(f)) => Err(f),
                    Some(Ok((found, next))) => contents_from(ts, next, parent, pictured, found),
                    None => match subtree_end(ts, at + 1, 1, parent) {
                        Err(f) => Err(f),
                        Ok(next) => contents_from(ts, next, parent, pictured, found),
                    },
                }
            },
        }
    }
}

/// The contents end behind where their reading began.
pub proof fn lemma_contents_from(
    ts: Seq<TokenView>,
    pos: int,
    parent: Seq<char>,
    pictured: bool,
    found: ContentsView,
)
    requires
        0 <= pos,
    ensures
        contents_from(ts, pos, parent, pictured, found) matches Ok((_, next)) ==> pos < next
            <= ts.len(),
    decreases ts.len() - pos,
{
    lemma_child_step(ts, pos, parent);
    if let Step::Child { at } = child_step(ts, pos, parent) {
        lemma_contents_child(ts, at, pictured, found);
        lemma_subtree_end(ts, at + 1, 1, parent);
        match contents_child(ts, at, pictured, found) {
            Some(Err(_)) => {},
            Some(Ok((found, next))) => lemma_contents_from(ts, next, parent, pictured, found),
            None => match subtree_end(ts, at + 1, 1, parent) {
                Err(_) => {},
                Ok(next) => lemma_contents_from(ts, next, parent, pictured, found),
            },
        }
    }
}

impl Contents {
    /// Reads the children of the element `parent` whose start tag is at `at`.
    pub fn read(tokens: &Vec<Token>, at: usize, parent: &str, pictured: bool) -> (r: Result<
        (Contents, usize),
        TiledError,
    >)
        requires
            at < tokens.len(),
        ensures
            outcome(r) == contents_from(views(tokens@), at + 1, parent@, pictured, no_contents()),
            r matches Ok((_, next)) ==> at < next <= tokens.len(),
    {
        let ghost ts = views(tokens@);
        let mut found = Contents { image: None, properties: Properties::new() };
        let mut pos: usize = at + 1;
        loop
            invariant
                at < pos,
                ts == views(tokens@),
                contents_from(ts, at + 1, parent@, pictured, no_contents()) == contents_from(
                    ts,
                    pos as int,
                    parent@,
                    pictured,
                    found@,
                ),
            decreases tokens.len() - pos,
        {
            match next_child(tokens, pos, parent) {
                Err(e) => {
                    return Err(e);
                },
                Ok(Found::Closed { next }) => {
                    return Ok((found, next));
                },
                Ok(Found::Child { at: child }) => {
                    proof {
                        reveal(contents_child);
                    }
                    let name = start_name(tokens, child);
                    if pictured && text_is(name, "image") {
                        match Image::new(tokens, child) {
                            Err(e) => {
                                return Err(e);
                            },
                            Ok((image, next)) => {
                                found.image = Some(image);
                                pos = next;
                            },
                        }
                    } else if text_is(name, "properties") {
                        match Properties::parse_xml(tokens, child) {
                            Err(e) => {
                                return Err(e);
                            },
                            Ok((p, next)) => {
                                found.properties = p;
                                pos = next;
                            },
                        }
                    } else {
                        match skip_element(tokens, child, parent) {
                            Err(e) => {
                                return Err(e);
                            },
                            Ok(next) => {
                                pos = next;
                            },
                        }
                    }
                },
            }
        }
    }
}

/// A grid of tiles that covers the map.
#[derive(Debug, PartialEq, Eq, Clone)]
pub struct Layer {
    pub name: String,
    /// How opaque the layer is drawn, from 0 to 1.
    pub opacity: Decimal,
    pub visible: bool,
    /// Horizontal offset in pixels.
    pub offset_x: Decimal,
    /// Vertical offset in pixels.
    pub offset_y: Decimal,
    pub properties: Properties,
    /// The place of the layer among the layers of all kinds of its map.
    pub layer_index: u32,
}

/// The model of a [`Layer`].
pub struct LayerView {
    pub name: Seq<char>,
    pub opacity: Seq<char>,
    pub visible: bool,
    pub offset_x: Seq<char>,
    pub offset_y: Seq<char>,
    pub properties: Map<Seq<char>, PropertyValueView>,
    pub layer_index: u32,
}

impl View for Layer {
    type V = LayerView;

    open spec fn view(&self) -> LayerView {
        LayerView {
            name: self.name@,
            opacity: self.opacity@,
            visible: self.visible,
            offset_x: self.offset_x@,
            offset_y: self.offset_y@,
            properties: self.properties@,
            layer_index: self.layer_index,
        }
    }
}

/// One picture shown as a layer.
#[derive(Debug, PartialEq, Eq, Clone)]
pub struct ImageLayer {
    pub name: String,
    /// How opaque the layer is drawn, from 0 to 1.
    pub opacity: Decimal,
    pub visible: bool,
    /// Horizontal offset in pixels.
    pub offset_x: Decimal,
    /// Vertical offset in pixels.
    pub offset_y: Decimal,
    pub image: Option<Image>,
    pub properties: Properties,
    /// The place of the layer among the layers of all kinds of its map.
    pub layer_index: u32,
}

/// The model of an [`ImageLayer`].
pub struct ImageLayerView {
    pub name: Seq<char>,
    pub opacity: Seq<char>,
    pub visible: bool,
    pub offset_x: Seq<char>,
    pub offset_y: Seq<char>,
    pub image: Option<ImageView>,
    pub properties: Map<Seq<char>, PropertyValueView>,
    pub layer_index: u32,
}

impl View for ImageLayer {
    type V = ImageLayerView;

    open spec fn view(&self) -> ImageLayerView {
        ImageLayerView {
            name: self.name@,
            opacity: self.opacity@,
            visible: self.visible,
            offset_x: self.offset_x@,
            offset_y: self.offset_y@,
            image: match self.image {
                Some(i) => Some(i@),
                None => None,
            },
            properties: self.properties@,
            layer_index: self.layer_index,
        }
    }
}

/// The failure of a layer without a name.
pub open spec fn layer_needs() -> Failure {
    Failure::MalformedAttributes("layer must have a name"@)
}

/// The layer that the `layer` element at `at` declares, at the place `layer_index`.
pub open spec fn layer_at(ts: Seq<TokenView>, at: int, layer_index: u32) -> Result<
    (LayerView, int),
    Failure,
> {
    let attrs = ts[at]->attrs;
    match attr_value(attrs, "name"@) {
        None => Err(layer_needs()),
        Some(name) => match contents_from(ts, at + 1, "layer"@, false, no_contents()) {
            Err(f) => Err(f),
            Ok((contents, next)) => Ok(
                (
                    LayerView {
                        name,
                        opacity: or(attr_decimal(attrs, "opacity"@), "1"@),
                        visible: or(attr_flag(attrs, "visible"@), true),
                        offset_x: or(attr_decimal(attrs, "offsetx"@), "0"@),
                        offset_y: or(attr_decimal(attrs, "offsety"@), "0"@),
                        properties: contents.properties,
                        layer_index,
                    },
                    next,
                ),
            ),
        },
    }
}

/// The image layer that the `imagelayer` element at `at` declares, at the place
/// `layer_index`.
pub open spec fn image_layer_at(ts: Seq<TokenView>, at: int, layer_index: u32) -> Result<
    (ImageLayerView, int),
    Failure,
> {
    let attrs = ts[at]->attrs;
    match attr_value(attrs, "name"@) {
        None => Err(layer_needs()),
        Some(name) => match contents_from(ts, at + 1, "imagelayer"@, true, no_contents()) {
            Err(f) => Err(f),
            Ok((contents, next)) => Ok(
                (
                    ImageLayerView {
                        name,
                        opacity: or(attr_decimal(attrs, "opacity"@), "1"@),
                        visible: or(attr_flag(attrs, "visible"@), true),
                        offset_x: or(attr_decimal(attrs, "offsetx"@), "0"@),
                        offset_y: or(attr_decimal(attrs, "offsety"@), "0"@),
                        image: contents.image,
                        properties: contents.properties,
                        layer_index,
                    },
                    next,
                ),
            ),
        },
    }
}

/// A layer ends behind its start tag.
pub proof fn lemma_layer_at(ts: Seq<TokenView>, at: int, layer_index: u32)
    requires
        0 <= at,
    ensures
        layer_at(ts, at, layer_index) matches Ok((_, next)) ==> at < next <= ts.len(),
{
    lemma_contents_from(ts, at + 1, "layer"@, false, no_contents());
}

/// An image layer ends behind its start tag.
pub proof fn lemma_image_layer_at(ts: Seq<TokenView>, at: int, layer_index: u32)
    requires
        0 <= at,
    ensures
        image_layer_at(ts, at, layer_index) matches Ok((_, next)) ==> at < next <= ts.len(),
{
    lemma_contents_from(ts, at + 1, "imagelayer"@, true, no_contents());
}

impl Layer {
    /// Reads the `layer` element whose start tag is at `at`, for the place `layer_index`.
    pub fn new(tokens: &Vec<Token>, at: usize, layer_index: u32) -> (r: Result<
        (Layer, usize),
        TiledError,
    >)
        requires
            at < tokens.len(),
            tokens[at as int] is Start,
        ensures
            outcome(r) == layer_at(views(tokens@), at as int, layer_index),
            r matches Ok((_, next)) ==> at < next <= tokens.len(),
    {
        let attrs = start_attrs(tokens, at);
        let name = match get_text(attrs, "name") {
            Some(n) => n,
            None => {
                return Err(TiledError::malformed("layer must have a name"));
            },
        };
        let opacity = get_decimal_or(attrs, "opacity", Decimal::one());
        let visible = match get_flag(attrs, "visible") {
            Some(v) => v,
            None => true,
        };
        let offset_x = get_decimal_or(attrs, "offsetx", Decimal::zero());
        let offset_y = get_decimal_or(attrs, "offsety", Decimal::zero());
        match Contents::read(tokens, at, "layer", false) {
            Err(e) => Err(e),
            Ok((contents, next)) => Ok(
                (
                    Layer {
                        name,
                        opacity,
                        visible,
                        offset_x,
                        offset_y,
                        properties: contents.properties,
                        layer_index,
                    },
                    next,
                ),
            ),
        }
    }
}

impl ImageLayer {
    /// Reads the `imagelayer` element whose start tag is at `at`, for the place `layer_index`.
    pub fn new(tokens: &Vec<Token>, at: usize, layer_index: u32) -> (r: Result<
        (ImageLayer, usize),
        TiledError,
    >)
        requires
            at < tokens.len(),
            tokens[at as int] is Start,
        ensures
            outcome(r) == image_layer_at(views(tokens@), at as int, layer_index),
            r matches Ok((_, next)) ==> at < next <= tokens.len(),
    {
        let attrs = start_attrs(tokens, at);
        let name = match get_text(attrs, "name") {
            Some(n) => n,
            None => {
                return Err(TiledError::malformed("layer must have a name"));
            },
        };
        let opacity = get_decimal_or(attrs, "opacity", Decimal::one());
        let visible = match get_flag(attrs, "visible") {
            Some(v) => v,
            None => true,
        };
        let offset_x = get_decimal_or(attrs, "offsetx", Decimal::zero());
        let offset_y = get_decimal_or(attrs, "offsety", Decimal::zero());
        match Contents::read(tokens, at, "imagelayer", true) {
            Err(e) => Err(e),
            Ok((contents, next)) => Ok(
                (
                    ImageLayer {
                        name,
                        opacity,
                        visible,
                        offset_x,
                        offset_y,
                        image: contents.image,
                        properties: contents.properties,
                        layer_index,
                    },
                    next,
                ),
            ),
        }
    }
}

} // verus!
