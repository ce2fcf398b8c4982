//! Objects and the groups that hold them.

use vstd::prelude::*;
use crate::attributes::{
    attr_color, attr_decimal, attr_flag, attr_u32, attr_value, get_color, get_decimal,
    get_decimal_or, get_flag, get_text_or_empty, get_u32, or,
};
use crate::decimal::Decimal;
use crate::dispatch::{
    child_step, lemma_child_step, lemma_element_end, lemma_subtree_end, next_child, outcome,
    skip_element, start_attrs, start_name, subtree_end, Found, Step,
};
use crate::error::{Failure, TiledError};
use crate::events::{views, AttributeView, Token, TokenView};
use crate::properties::{lemma_properties_from, properties_at, Properties};
use crate::shapes::{outline_at, plain_shape_at, text_shape_at, ObjectShape, ShapeView};
use crate::text::text_is;
use crate::tile::Gid;
use crate::values::{Color, PropertyValueView};

verus! {

/// A thing placed on a map: a shape, or a tile where `gid` is not the empty id.
#[derive(Debug, PartialEq, Eq, Clone)]
pub struct Object {
    /// The id, which no other object of the map has. 0 where the document gives none.
    pub id: u32,
    /// The tile that the object shows, or the empty id.
    pub gid: Gid,
    pub name: String,
    pub obj_type: String,
    /// Width in pixels.
    pub width: Decimal,
    /// Height in pixels.
    pub height: Decimal,
    /// Horizontal position in pixels.
    pub x: Decimal,
    /// Vertical position in pixels.
    pub y: Decimal,
    /// Rotation in degrees.
    pub rotation: Decimal,
    pub visible: bool,
    pub shape: ObjectShape,
    pub properties: Properties,
}

/// The model of an [`Object`].
pub struct ObjectView {
    pub id: u32,
    pub gid: Gid,
    pub name: Seq<char>,
    pub obj_type: Seq<char>,
    pub width: Seq<char>,
    pub height: Seq<char>,
    pub x: Seq<char>,
    pub y: Seq<char>,
    pub rotation: Seq<char>,
    pub visible: bool,
    pub shape: ShapeView,
    pub properties: Map<Seq<char>, PropertyValueView>,
}

impl View for Object {
    type V = ObjectView;

    open spec fn view(&self) -> ObjectView {
        ObjectView {
            id: self.id,
            gid: self.gid,
            name: self.name@,
            obj_type: self.obj_type@,
            width: self.width@,
            height: self.height@,
            x: self.x@,
            y: self.y@,
            rotation: self.rotation@,
            visible: self.visible,
            shape: self.shape@,
            properties: self.properties@,
        }
    }
}

/// The shape that the child at `at` gives an object, if the child is one of the elements
/// that declare a shape.
pub open spec fn shape_child(ts: Seq<TokenView>, at: int, of: ObjectView) -> Option<
    Result<(ShapeView, int), Failure>,
> {
    let name = ts[at]->Start_name;
    if name == "ellipse"@ {
        Some(plain_shape_at(ts, at, name, ShapeView::Ellipse { width: of.width, height: of.height }))
    } else if name == "polyline"@ {
        Some(outline_at(ts, at, false))
    } else if name == "polygon"@ {
        Some(outline_at(ts, at, true))
    } else if name == "point"@ {
        Some(plain_shape_at(ts, at, name, ShapeView::Point(of.x, of.y)))
    } else if name == "text"@ {
        Some(text_shape_at(ts, at))
    } else {
        None
    }
}

/// A shape ends behind its start tag.
pub proof fn lemma_shape_child(ts: Seq<TokenView>, at: int, of: ObjectView)
    requires
        0 <= at,
    ensures
        shape_child(ts, at, of) matches Some(Ok((_, next))) ==> at < next <= ts.len(),
{
    lemma_element_end(ts, at + 1, ts[at]->Start_name);
    lemma_element_end(ts, at + 1, "polyline"@);
    lemma_element_end(ts, at + 1, "polygon"@);
    lemma_element_end(ts, at + 1, "text"@);
    lemma_element_end(ts, at + 2, "text"@);
}

/// What the child at `at` makes of the object `found`, if it is a child that counts: one
/// that declares a shape replaces the shape, a `properties` child the properties.
#[verifier::opaque]
pub open spec fn object_child(ts: Seq<TokenView>, at: int, found: ObjectView) -> Option<
    Result<(ObjectView, int), Failure>,
> {
    match shape_child(ts, at, found) {
        Some(Err(f)) => Some(Err(f)),
        Some(Ok((shape, next))) => Some(Ok((ObjectView { shape, ..found }, next))),
        None => if ts[at]->Start_name == "properties"@ {
            Some(
                match properties_at(ts, at) {
                    Err(f) => Err(f),
                    Ok((properties, next)) => Ok((ObjectView { properties, ..found }, next)),
                },
            )
        } else {
            None
        },
    }
}

/// A child that counts ends behind its start tag.
pub proof fn lemma_object_child(ts: Seq<TokenView>, at: int, found: ObjectView)
    requires
        0 <= at,
    ensures
        object_child(ts, at, found) matches Some(Ok((_, next))) ==> at < next <= ts.len(),
{
    reveal(object_child);
    lemma_shape_child(ts, at, found);
    lemma_properties_from(ts, at + 1, Map::empty());
}

/// The object that `found` becomes through the children of its element from `pos` on. Each
/// child that counts does its part, in the order of the document, so the last shape is the
/// one that stays; any other child is passed over.
pub open spec fn object_from(ts: Seq<TokenView>, pos: int, found: ObjectView) -> Result<
    (ObjectView, int),
    Failure,
>
    decreases ts.len() - pos,
{
    if pos < 0 {
        Err(object_needs())
    } else {
        match child_step(ts, pos, "object"@) {
            Step::Failed(f) => Err(f),
            Step::Closed { next } => Ok((found, next)),
            Step::Child { at } => {
                proof {
                    lemma_child_step(ts, pos, "object"@);
                    lemma_object_child(ts, at, found);
                    lemma_subtree_end(ts, at + 1, 1, "object"@);
                }
                match object_child(ts, at, found) {
                    Some(Err(f)) => Err(f),
                    Some(Ok((found, next))) => object_from(ts, next, found),
                    None => match subtree_end(ts, at + 1, 1, "object"@) {
                        Err(f) => Err(f),
                        Ok(next) => object_from(ts, next, found),
                    },
                }
            },
        }
    }
}

/// The failure of an object without a position.
pub open spec fn object_needs() -> Failure {
    Failure::MalformedAttributes("objects must have an x and a y number"@)
}

/// The object at `x`, `y` as it stands before any of its children is read: a rectangle of
/// its own size.
pub open spec fn plain_object(attrs: Seq<AttributeView>, x: Seq<char>, y: Seq<char>) -> ObjectView {
    let width = or(attr_decimal(attrs, "width"@), "0"@);
    let height = or(attr_decimal(attrs, "height"@), "0"@);
    ObjectView {
        id: or(attr_u32(attrs, "id"@), 0),
        gid: Gid(or(attr_u32(attrs, "gid"@), 0)),
        name: or(attr_value(attrs, "name"@), Seq::empty()),
        obj_type: or(attr_value(attrs, "type"@), Seq::empty()),
        width,
        height,
        x,
        y,
        rotation: or(attr_decimal(attrs, "rotation"@), "0"@),
        visible: or(attr_flag(attrs, "visible"@), true),
        shape: ShapeView::Rect { width, height },
        properties: Map::empty(),
    }
}

/// The object that the `object` element at `at` declares. Its position is required; what
/// else is absent, or has the wrong form, takes its default.
pub open spec fn object_at(ts: Seq<TokenView>, at: int) -> Result<(ObjectView, int), Failure> {
    let attrs = ts[at]->attrs;
    match (attr_decimal(attrs, "x"@), attr_decimal(attrs, "y"@)) {
        (Some(x), Some(y)) => object_from(ts, at + 1, plain_object(attrs, x, y)),
        _ => Err(object_needs()),
    }
}

/// An object ends behind where its reading began.
pub proof fn lemma_object_from(ts: Seq<TokenView>, pos: int, found: ObjectView)
    requires
        0 <= pos,
    ensures
        object_from(ts, pos, found) matches Ok((_, next)) ==> pos < next <= ts.len(),
    decreases ts.len() - pos,
{
    lemma_child_step(ts, pos, "object"@);
    if let Step::Child { at } = child_step(ts, pos, "object"@) {
        lemma_object_child(ts, at, found);
        lemma_subtree_end(ts, at + 1, 1, "object"@);
        match object_child(ts, at, found) {
            Some(Err(_)) => {},
            Some(Ok((found, next))) => lemma_object_from(ts, next, found),
            None => match subtree_end(ts, at + 1, 1, "object"@) {
                Err(_) => {},
                Ok(next) => lemma_object_from(ts, next, found),
            },
        }
    }
}

impl Object {
    /// Reads the child at `at` of an object of the given size and position, if the child is
    /// one of the elements that declare a shape.
    fn shape_of_child(
        tokens: &Vec<Token>,
        at: usize,
        width: &Decimal,
        height: &Decimal,
        x: &Decimal,
        y: &Decimal,
    ) -> (r: Option<Result<(ObjectShape, usize), TiledError>>)
        requires
            at < tokens.len(),
            tokens[at as int] is Start,
        ensures
            forall|of: ObjectView|
                of.width == width@ && of.height == height@ && of.x == x@ && of.y == y@ ==> (match r {
                    Some(found) => Some(outcome(found)),
                    None => None,
                }) == #[trigger] shape_child(views(tokens@), at as int, of),
            r matches Some(Ok((_, next))) ==> at < next <= tokens.len(),
    {
        let name = start_name(tokens, at);
        if text_is(name, "ellipse") {
            Some(ObjectShape::new_ellipse(tokens, at, width.clone(), height.clone()))
        } else if text_is(name, "polyline") {
            Some(ObjectShape::new_polyline(tokens, at))
        } else if text_is(name, "polygon") {
            Some(ObjectShape::new_polygon(tokens, at))
        } else if text_is(name, "point") {
            Some(ObjectShape::new_point(tokens, at, x.clone(), y.clone()))
        } else if text_is(name, "text") {
            Some(ObjectShape::new_text(tokens, at))
        } else {
            None
        }
    }

    /// Reads the `object` element whose start tag is at `at`.
    pub fn new(tokens: &Vec<Token>, at: usize) -> (r: Result<(Object, usize), TiledError>)
        requires
            at < tokens.len(),
            tokens[at as int] is Start,
        ensures
            outcome(r) == object_at(views(tokens@), at as int),
            r matches Ok((_, next)) ==> at < next <= tokens.len(),
    {
        let ghost ts = views(tokens@);
        let attrs = start_attrs(tokens, at);
        let (x, y) = match (get_decimal(attrs, "x"), get_decimal(attrs, "y")) {
            (Some(x), Some(y)) => (x, y),
            _ => {
                return Err(TiledError::malformed("objects must have an x and a y number"));
            },
        };
        let id = match get_u32(attrs, "id") {
            Some(n) => n,
            None => 0,
        };
        let gid = match get_u32(attrs, "gid") {
            Some(n) => Gid(n),
            None => Gid::empty(),
        };
        let name = get_text_or_empty(attrs, "name");
        let obj_type = get_text_or_empty(attrs, "type");
        let width = get_decimal_or(attrs, "width", Decimal::zero());
        let height = get_decimal_or(attrs, "height", Decimal::zero());
        let rotation = get_decimal_or(attrs, "rotation", Decimal::zero());
        let visible = match get_flag(attrs, "visible") {
            Some(v) => v,
            None => true,
        };
        let mut shape = ObjectShape::Rect { width: width.clone(), height: height.clone() };
        let mut properties = Properties::new();
        let ghost first = ObjectView {
            id,
            gid,
            name: name@,
            obj_type: obj_type@,
            width: width@,
            height: height@,
            x: x@,
            y: y@,
            rotation: rotation@,
            visible,
            shape: shape@,
            properties: properties@,
        };
        let mut pos: usize = at + 1;
        loop
            invariant
                at < pos,
                at < tokens.len(),
                ts == views(tokens@),
                first.width == width@ && first.height == height@ && first.x == x@ && first.y == y@,
                first.id == id && first.gid == gid && first.name == name@,
                first.obj_type == obj_type@ && first.rotation == rotation@,
                first.visible == visible,
                object_at(ts, at as int) == object_from(
                    ts,
                    pos as int,
                    ObjectView { shape: shape@, properties: properties@, ..first },
                ),
            decreases tokens.len() - pos,
        {
            let ghost found = ObjectView { shape: shape@, properties: properties@, ..first };
            match next_child(tokens, pos, "object") {
                Err(e) => {
                    return Err(e);
                },
                Ok(Found::Closed { next }) => {
                    return Ok(
                        (
                            Object {
                                id,
                                gid,
                                name,
                                obj_type,
                                width,
                                height,
                                x,
                                y,
                                rotation,
                                visible,
                                shape,
                                properties,
                            },
                            next,
                        ),
                    );
                },
                Ok(Found::Child { at: child }) => {
                    proof {
                        reveal(object_child);
                    }
                    match Object::shape_of_child(tokens, child, &width, &height, &x, &y) {
                        Some(Err(e)) => {
                            assert(shape_child(ts, child as int, found) == Some(
                                Err::<(ShapeView, int), Failure>(e@),
                            ));
                            return Err(e);
                        },
                        Some(Ok((s, next))) => {
                            assert(shape_child(ts, child as int, found) == Some(
                                Ok::<(ShapeView, int), Failure>((s@, next as int)),
                            ));
                            shape = s;
                            pos = next;
                        },
                        None => {
                            assert(shape_child(ts, child as int, found) is None);
                            if text_is(start_name(tokens, child), "properties") {
                                match Properties::parse_xml(tokens, child) {
                                    Err(e) => {
                                        return Err(e);
                                    },
                                    Ok((p, next)) => {
                                        properties = p;
                                        pos = next;
                                    },
                                }
                            } else {
                                match skip_element(tokens, child, "object") {
                                    Err(e) => {
                                        return Err(e);
                                    },
                                    Ok(next) => {
                                        pos = next;
                                    },
                                }
                            }
                        },
                    }
                },
            }
        }
    }
}

/// A layer of objects, or the collision shapes of a tile.
#[derive(Debug, PartialEq, Eq, Clone)]
pub struct ObjectGroup {
    pub name: String,
    /// How opaque the group is drawn, from 0 to 1.
    pub opacity: Decimal,
    pub visible: bool,
    /// The objects in the order of the document.
    pub objects: Vec<Object>,
    /// The colour in which the editor shows the objects.
    pub color: Option<Color>,
    /// The place of the group among the layers of its map. None for the collision shapes of
    /// a tile, which are no layer.
    pub layer_index: Option<u32>,
    pub properties: Properties,
}

/// The model of an [`ObjectGroup`].
pub struct ObjectGroupView {
    pub name: Seq<char>,
    pub opacity: Seq<char>,
    pub visible: bool,
    pub objects: Seq<ObjectView>,
    pub color: Option<Color>,
    pub layer_index: Option<u32>,
    pub properties: Map<Seq<char>, PropertyValueView>,
}

impl View for ObjectGroup {
    type V = ObjectGroupView;

    open spec fn view(&self) -> ObjectGroupView {
        ObjectGroupView {
            name: self.name@,
            opacity: self.opacity@,
            visible: self.visible,
            objects: views(self.objects@),
            color: self.color,
            layer_index: self.layer_index,
            properties: self.properties@,
        }
    }
}

/// What the child at `at` makes of the group `found`, if it is a child that counts: an
/// `object` child is added behind the objects found so far, a `properties` child replaces
/// the properties.
#[verifier::opaque]
pub open spec fn group_child(ts: Seq<TokenView>, at: int, found: ObjectGroupView) -> Option<
    Result<(ObjectGroupView, int), Failure>,
> {
    let name = ts[at]->Start_name;
    if name == "object"@ {
        Some(
            match object_at(ts, at) {
                Err(f) => Err(f),
                Ok((object, next)) => Ok(
                    (ObjectGroupView { objects: found.objects.push(object), ..found }, next),
                ),
            },
        )
    } else if name == "properties"@ {
        Some(
            match properties_at(ts, at) {
                Err(f) => Err(f),
                Ok((properties, next)) => Ok((ObjectGroupView { properties, ..found }, next)),
            },
        )
    } else {
        None
    }
}

/// A child that counts ends behind its start tag.
pub proof fn lemma_group_child(ts: Seq<TokenView>, at: int, found: ObjectGroupView)
    requires
        0 <= at,
    ensures
        group_child(ts, at, found) matches Some(Ok((_, next))) ==> at < next <= ts.len(),
{
    reveal(group_child);
    lemma_object_at(ts, at);
    lemma_properties_from(ts, at + 1, Map::empty());
}

/// The group that `found` becomes through the children of its element from `pos` on. Each
/// child that counts does its part, in the order of the document; any other child is passed
/// over.
pub open spec fn group_from(ts: Seq<TokenView>, pos: int, found: ObjectGroupView) -> Result<
    (ObjectGroupView, int),
    Failure,
>
    decreases ts.len() - pos,
{
    if pos < 0 {
        Err(object_needs())
    } else {
        match child_step(ts, pos, "objectgroup"@) {
            Step::Failed(f) => Err(f),
            Step::Closed { next } => Ok((found, next)),
            Step::Child { at } => {
                proof {
                    lemma_child_step(ts, pos, "objectgroup"@);
                    lemma_group_child(ts, at, found);
                    lemma_subtree_end(ts, at + 1, 1, "objectgroup"@);
                }
                match group_child(ts, at, found) {
                    Some(Err(f)) => Err(f),
                    Some(Ok((found, next))) => group_from(ts, next, found),
                    None => match subtree_end(ts, at + 1, 1, "objectgroup"@) {
                        Err(f) => Err(f),
                        Ok(next) => group_from(ts, next, found),
                    },
                }
            },
        }
    }
}

/// The group that the `objectgroup` element at `at` declares, at the place `layer_index`
/// among the layers.
pub open spec fn group_at(ts: Seq<TokenView>, at: int, layer_index: Option<u32>) -> Result<
    (ObjectGroupView, int),
    Failure,
> {
    group_from(ts, at + 1, empty_group(ts[at]->attrs, layer_index))
}

/// The group as it stands before any of its children is read.
pub open spec fn empty_group(attrs: Seq<AttributeView>, layer_index: Option<u32>) -> ObjectGroupView {
    ObjectGroupView {
        name: or(attr_value(attrs, "name"@), Seq::empty()),
        opacity: or(attr_decimal(attrs, "opacity"@), "1"@),
        visible: or(attr_flag(attrs, "visible"@), true),
        objects: Seq::empty(),
        color: attr_color(attrs, "color"@),
        layer_index,
        properties: Map::empty(),
    }
}

/// A group ends behind its start tag.
pub proof fn lemma_group_at(ts: Seq<TokenView>, at: int, layer_index: Option<u32>)
    requires
        0 <= at,
    ensures
        group_at(ts, at, layer_index) matches Ok((_, next)) ==> at < next <= ts.len(),
{
    lemma_group_from(ts, at + 1, empty_group(ts[at]->attrs, layer_index));
}

/// An object ends behind its start tag.
pub proof fn lemma_object_at(ts: Seq<TokenView>, at: int)
    requires
        0 <= at,
    ensures
        object_at(ts, at) matches Ok((_, next)) ==> at < next <= ts.len(),
{
    let attrs = ts[at]->attrs;
    match (attr_decimal(attrs, "x"@), attr_decimal(attrs, "y"@)) {
        (Some(x), Some(y)) => lemma_object_from(ts, at + 1, plain_object(attrs, x, y)),
        _ => {},
    }
}

/// A group ends behind where its reading began.
pub proof fn lemma_group_from(ts: Seq<TokenView>, pos: int, found: ObjectGroupView)
    requires
        0 <= pos,
    ensures
        group_from(ts, pos, found) matches Ok((_, next)) ==> pos < next <= ts.len(),
    decreases ts.len() - pos,
{
    lemma_child_step(ts, pos, "objectgroup"@);
    if let Step::Child { at } = child_step(ts, pos, "objectgroup"@) {
        lemma_group_child(ts, at, found);
        lemma_subtree_end(ts, at + 1, 1, "objectgroup"@);
        match group_child(ts, at, found) {
            Some(Err(_)) => {},
            Some(Ok((found, next))) => lemma_group_from(ts, next, found),
            None => match subtree_end(ts, at + 1, 1, "objectgroup"@) {
                Err(_) => {},
                Ok(next) => lemma_group_from(ts, next, found),
            },
        }
    }
}

impl ObjectGroup {
    /// Reads the `objectgroup` element whose start tag is at `at`, for the place
    /// `layer_index` among the layers.
    pub fn new(tokens: &Vec<Token>, at: usize, layer_index: Option<u32>) -> (r: Result<
        (ObjectGroup, usize),
        TiledError,
    >)
        requires
            at < tokens.len(),
            tokens[at as int] is Start,
        ensures
            outcome(r) == group_at(views(tokens@), at as int, layer_index),
            r matches Ok((_, next)) ==> at < next <= tokens.len(),
    {
        let ghost ts = views(tokens@);
        let attrs = start_attrs(tokens, at);
        let mut group = ObjectGroup {
            name: get_text_or_empty(attrs, "name"),
            opacity: get_decimal_or(attrs, "opacity", Decimal::one()),
            visible: match get_flag(attrs, "visible") {
                Some(v) => v,
                None => true,
            },
            objects: Vec::new(),
            color: get_color(attrs, "color"),
            layer_index,
            properties: Properties::new(),
        };
        assert(group@.objects =~= Seq::empty());
        let mut pos: usize = at + 1;
        loop
            invariant
                at < pos,
                ts == views(tokens@),
                group_at(ts, at as int, layer_index) == group_from(ts, pos as int, group@),
            decreases tokens.len() - pos,
        {
            match next_child(tokens, pos, "objectgroup") {
                Err(e) => {
                    return Err(e);
                },
                Ok(Found::Closed { next }) => {
                    return Ok((group, next));
                },
                Ok(Found::Child { at: child }) => {
                    proof {
                        reveal(group_child);
                    }
                    let name = start_name(tokens, child);
                    if text_is(name, "object") {
                        match Object::new(tokens, child) {
                            Err(e) => {
                                return Err(e);
                            },
                            Ok((object, next)) => {
                                let ghost before = group@;
                                let ghost added = object@;
                                group.objects.push(object);
                                assert(group@.objects =~= before.objects.push(added));
                                pos = next;
                            },
                        }
                    } else if text_is(name, "properties") {
                        match Properties::parse_xml(tokens, child) {
                            Err(e) => {
                                return Err(e);
                            },
                            Ok((p, next)) => {
                                group.properties = p;
                                pos = next;
                            },
                        }
                    } else {
                        match skip_element(tokens, child, "objectgroup") {
                            Err(e) => {
                                return Err(e);
                            },
                            Ok(next) => {
                                pos = next;
                            },
                        }
                    }
                },
            }
        }
    }
}

} // verus!
