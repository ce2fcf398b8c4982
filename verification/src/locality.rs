//! Every parser looks forward only: what it reads at a place depends on the tokens from that
//! place on, and on nothing before it. Two token sequences that agree from some place on are
//! therefore read alike from there, but for the positions, which differ by a constant.

use vstd::prelude::*;
use crate::dispatch::{
    child_step, element_end, lemma_child_step, lemma_element_end, lemma_subtree_end, subtree_end,
    text_at, Step,
};
use crate::error::Failure;
use crate::events::TokenView;
use crate::layers::{
    contents_child, contents_from, image_at, image_layer_at, layer_at, lemma_image_layer_at,
    lemma_layer_at, no_contents, ContentsView,
};
use crate::map::{map_child, map_from, MapView};
use crate::objects::{
    empty_group, group_at, group_child, group_from, lemma_group_at, lemma_object_at,
    lemma_shape_child, object_at, object_child, object_from, plain_object, shape_child,
    ObjectGroupView, ObjectView,
};
use crate::properties::{
    lemma_properties_from, lemma_property_at, properties_at, properties_from, property_at,
};
use crate::shapes::{outline_at, plain_shape_at, text_shape_at, ShapeView};
use crate::tileset::{lemma_tileset_at, tileset_at};
use crate::values::PropertyValueView;

verus! {

/// Whether `a` from `p` on holds the same tokens as `b` from `q` on.
#[verifier::opaque]
pub open spec fn same_rest(a: Seq<TokenView>, p: int, b: Seq<TokenView>, q: int) -> bool {
    &&& 0 <= p <= a.len()
    &&& 0 <= q <= b.len()
    &&& a.len() - p == b.len() - q
    &&& forall|i: int| p <= i < a.len() ==> #[trigger] a[i] == b[i - p + q]
}

/// A result with its position moved by `by`.
pub open spec fn moved<T>(r: Result<(T, int), Failure>, by: int) -> Result<(T, int), Failure> {
    match r {
        Ok((value, next)) => Ok((value, next + by)),
        Err(f) => Err(f),
    }
}

/// A position moved by `by`.
pub open spec fn moved_end(r: Result<int, Failure>, by: int) -> Result<int, Failure> {
    match r {
        Ok(next) => Ok(next + by),
        Err(f) => Err(f),
    }
}

/// A step with its position moved by `by`.
pub open spec fn moved_step(s: Step, by: int) -> Step {
    match s {
        Step::Child { at } => Step::Child { at: at + by },
        Step::Closed { next } => Step::Closed { next: next + by },
        Step::Failed(f) => Step::Failed(f),
    }
}

/// What two sequences that agree from a place on have in common there.
pub proof fn lemma_rest_here(a: Seq<TokenView>, p: int, b: Seq<TokenView>, q: int)
    requires
        same_rest(a, p, b, q),
    ensures
        0 <= p <= a.len(),
        0 <= q <= b.len(),
        a.len() - p == b.len() - q,
        p < a.len() ==> a[p] == b[q],
{
    reveal(same_rest);
    if p < a.len() {
        assert(a[p] == b[p - p + q]);
    }
}

/// Sequences that agree from one place on agree from every later place on.
pub proof fn lemma_rest_later(a: Seq<TokenView>, p: int, b: Seq<TokenView>, q: int, k: int)
    requires
        same_rest(a, p, b, q),
        0 <= k <= a.len() - p,
    ensures
        same_rest(a, p + k, b, q + k),
{
    reveal(same_rest);
    assert forall|i: int| p + k <= i < a.len() implies #[trigger] a[i] == b[i - (p + k) + (q + k)] by {
        assert(a[i] == b[i - p + q]);
    }
}

/// What [`child_step`] finds depends only on the tokens from its place on.
pub proof fn lemma_child_step_rest(
    a: Seq<TokenView>,
    p: int,
    b: Seq<TokenView>,
    q: int,
    parent: Seq<char>,
)
    requires
        same_rest(a, p, b, q),
    ensures
        child_step(a, p, parent) == moved_step(child_step(b, q, parent), p - q),
    decreases a.len() - p,
{
    lemma_rest_here(a, p, b, q);
    if p < a.len() {
        lemma_rest_here(a, p, b, q);
        lemma_rest_later(a, p, b, q, 1);
        match a[p] {
            TokenView::Start { .. } => {},
            TokenView::End { .. } => {},
            TokenView::EndDocument => {},
            TokenView::Invalid(_) => {},
            _ => lemma_child_step_rest(a, p + 1, b, q + 1, parent),
        }
    }
}

/// What [`subtree_end`] finds depends only on the tokens from its place on.
pub proof fn lemma_subtree_end_rest(
    a: Seq<TokenView>,
    p: int,
    b: Seq<TokenView>,
    q: int,
    depth: nat,
    parent: Seq<char>,
)
    requires
        same_rest(a, p, b, q),
    ensures
        subtree_end(a, p, depth, parent) == moved_end(subtree_end(b, q, depth, parent), p - q),
    decreases a.len() - p,
{
    lemma_rest_here(a, p, b, q);
    if depth > 0 && p < a.len() {
        lemma_rest_here(a, p, b, q);
        lemma_rest_later(a, p, b, q, 1);
        match a[p] {
            TokenView::Start { .. } => lemma_subtree_end_rest(a, p + 1, b, q + 1, depth + 1, parent),
            TokenView::End { .. } => lemma_subtree_end_rest(
                a,
                p + 1,
                b,
                q + 1,
                (depth - 1) as nat,
                parent,
            ),
            TokenView::EndDocument => {},
            TokenView::Invalid(_) => {},
            _ => lemma_subtree_end_rest(a, p + 1, b, q + 1, depth, parent),
        }
    }
}

/// What a child of either sequence is, and that skipping it leads to places from which the
/// two agree again.
pub proof fn lemma_child_rest(
    a: Seq<TokenView>,
    p: int,
    b: Seq<TokenView>,
    q: int,
    parent: Seq<char>,
    at: int,
)
    requires
        same_rest(a, p, b, q),
        child_step(a, p, parent) == (Step::Child { at }),
    ensures
        p <= at < a.len(),
        child_step(b, q, parent) == (Step::Child { at: at - p + q }),
        a[at] == b[at - p + q],
        same_rest(a, at, b, at - p + q),
        same_rest(a, at + 1, b, at - p + q + 1),
        subtree_end(a, at + 1, 1, parent) == moved_end(
            subtree_end(b, at - p + q + 1, 1, parent),
            p - q,
        ),
        subtree_end(a, at + 1, 1, parent) matches Ok(next) ==> at < next <= a.len() && same_rest(
            a,
            next,
            b,
            next - p + q,
        ),
{
    lemma_rest_here(a, p, b, q);
    lemma_child_step(a, p, parent);
    lemma_child_step_rest(a, p, b, q, parent);
    lemma_rest_later(a, p, b, q, at - p);
    lemma_rest_here(a, at, b, at - p + q);
    lemma_rest_later(a, p, b, q, at + 1 - p);
    lemma_subtree_end_rest(a, at + 1, b, at - p + q + 1, 1, parent);
    lemma_subtree_end(a, at + 1, 1, parent);
    if let Ok(next) = subtree_end(a, at + 1, 1, parent) {
        lemma_rest_later(a, p, b, q, next - p);
    }
}

/// What [`element_end`] finds depends only on the tokens from its place on.
pub proof fn lemma_element_end_rest(
    a: Seq<TokenView>,
    p: int,
    b: Seq<TokenView>,
    q: int,
    name: Seq<char>,
)
    requires
        same_rest(a, p, b, q),
    ensures
        element_end(a, p, name) == moved_end(element_end(b, q, name), p - q),
    decreases a.len() - p,
{
    lemma_rest_here(a, p, b, q);
    lemma_child_step_rest(a, p, b, q, name);
    if let Step::Child { at } = child_step(a, p, name) {
        lemma_child_rest(a, p, b, q, name, at);
        if let Ok(next) = subtree_end(a, at + 1, 1, name) {
            lemma_element_end_rest(a, next, b, next - p + q, name);
        }
    }
}

/// What [`text_at`] finds depends only on the tokens from its place on.
pub proof fn lemma_text_at_rest(a: Seq<TokenView>, p: int, b: Seq<TokenView>, q: int)
    requires
        same_rest(a, p, b, q),
    ensures
        text_at(a, p) == text_at(b, q),
{
    lemma_rest_here(a, p, b, q);
    if p < a.len() {
        lemma_rest_here(a, p, b, q);
    }
}

/// What [`property_at`] finds depends only on the tokens from its place on.
pub proof fn lemma_property_at_rest(a: Seq<TokenView>, p: int, b: Seq<TokenView>, q: int)
    requires
        same_rest(a, p, b, q),
        p < a.len(),
    ensures
        property_at(a, p) == moved(property_at(b, q), p - q),
{
    lemma_rest_here(a, p, b, q);
    lemma_rest_later(a, p, b, q, 1);
    lemma_text_at_rest(a, p + 1, b, q + 1);
    lemma_element_end_rest(a, p + 1, b, q + 1, "property"@);
    if text_at(a, p + 1) is Some {
        lemma_rest_later(a, p, b, q, 2);
        lemma_element_end_rest(a, p + 2, b, q + 2, "property"@);
    }
}

/// What [`properties_from`] finds depends only on the tokens from its place on.
pub proof fn lemma_properties_from_rest(
    a: Seq<TokenView>,
    p: int,
    b: Seq<TokenView>,
    q: int,
    found: Map<Seq<char>, PropertyValueView>,
)
    requires
        same_rest(a, p, b, q),
    ensures
        properties_from(a, p, found) == moved(properties_from(b, q, found), p - q),
    decreases a.len() - p,
{
    lemma_rest_here(a, p, b, q);
    lemma_child_step_rest(a, p, b, q, "properties"@);
    if let Step::Child { at } = child_step(a, p, "properties"@) {
        lemma_child_rest(a, p, b, q, "properties"@, at);
        if a[at]->Start_name == "property"@ {
            lemma_property_at_rest(a, at, b, at - p + q);
            lemma_property_at(a, at);
            if let Ok((found_here, next)) = property_at(a, at) {
                lemma_rest_later(a, p, b, q, next - p);
                lemma_properties_from_rest(
                    a,
                    next,
                    b,
                    next - p + q,
                    found.insert(found_here.name, found_here.value),
                );
            }
        } else {
            if let Ok(next) = subtree_end(a, at + 1, 1, "properties"@) {
                lemma_properties_from_rest(a, next, b, next - p + q, found);
            }
        }
    }
}

/// What [`properties_at`] finds depends only on the tokens from its place on.
pub proof fn lemma_properties_at_rest(a: Seq<TokenView>, p: int, b: Seq<TokenView>, q: int)
    requires
        same_rest(a, p, b, q),
        p < a.len(),
    ensures
        properties_at(a, p) == moved(properties_at(b, q), p - q),
        properties_at(a, p) matches Ok((_, next)) ==> p < next <= a.len() && same_rest(
            a,
            next,
            b,
            next - p + q,
        ),
{
    lemma_rest_here(a, p, b, q);
    lemma_rest_later(a, p, b, q, 1);
    lemma_properties_from_rest(a, p + 1, b, q + 1, Map::empty());
    lemma_properties_from(a, p + 1, Map::empty());
    if let Ok((_, next)) = properties_at(a, p) {
        lemma_rest_later(a, p, b, q, next - p);
    }
}

/// What [`image_at`] finds depends only on the tokens from its place on.
pub proof fn lemma_image_at_rest(a: Seq<TokenView>, p: int, b: Seq<TokenView>, q: int)
    requires
        same_rest(a, p, b, q),
        p < a.len(),
    ensures
        image_at(a, p) == moved(image_at(b, q), p - q),
        image_at(a, p) matches Ok((_, next)) ==> p < next <= a.len() && same_rest(
            a,
            next,
            b,
            next - p + q,
        ),
{
    lemma_rest_here(a, p, b, q);
    lemma_rest_later(a, p, b, q, 1);
    lemma_element_end_rest(a, p + 1, b, q + 1, "image"@);
    lemma_element_end(a, p + 1, "image"@);
    if let Ok((_, next)) = image_at(a, p) {
        lemma_rest_later(a, p, b, q, next - p);
    }
}

/// What [`contents_child`] finds depends only on the tokens from its place on.
pub proof fn lemma_contents_child_rest(
    a: Seq<TokenView>,
    p: int,
    b: Seq<TokenView>,
    q: int,
    pictured: bool,
    found: ContentsView,
)
    requires
        same_rest(a, p, b, q),
        p < a.len(),
    ensures
        match contents_child(a, p, pictured, found) {
            Some(r) => contents_child(b, q, pictured, found) == Some(moved(r, q - p)),
            None => contents_child(b, q, pictured, found) is None,
        },
        contents_child(a, p, pictured, found) matches Some(Ok((_, next))) ==> p < next <= a.len()
            && same_rest(a, next, b, next - p + q),
{
    reveal(contents_child);
    lemma_rest_here(a, p, b, q);
    lemma_image_at_rest(a, p, b, q);
    lemma_properties_at_rest(a, p, b, q);
}

/// What [`contents_from`] finds depends only on the tokens from its place on.
pub proof fn lemma_contents_from_rest(
    a: Seq<TokenView>,
    p: int,
    b: Seq<TokenView>,
    q: int,
    parent: Seq<char>,
    pictured: bool,
    found: ContentsView,
)
    requires
        same_rest(a, p, b, q),
    ensures
        contents_from(a, p, parent, pictured, found) == moved(
            contents_from(b, q, parent, pictured, found),
            p - q,
        ),
    decreases a.len() - p,
{
    lemma_rest_here(a, p, b, q);
    lemma_child_step_rest(a, p, b, q, parent);
    if let Step::Child { at } = child_step(a, p, parent) {
        lemma_child_rest(a, p, b, q, parent, at);
        lemma_contents_child_rest(a, at, b, at - p + q, pictured, found);
        match contents_child(a, at, pictured, found) {
            Some(Err(_)) => {},
            Some(Ok((after, next))) => {
                lemma_contents_from_rest(a, next, b, next - p + q, parent, pictured, after);
            },
            None => {
                if let Ok(next) = subtree_end(a, at + 1, 1, parent) {
                    lemma_contents_from_rest(a, next, b, next - p + q, parent, pictured, found);
                }
            },
        }
    }
}

/// What [`layer_at`], [`image_layer_at`] and [`tileset_at`] find depends only on the tokens
/// from their place on.
pub proof fn lemma_layer_at_rest(a: Seq<TokenView>, p: int, b: Seq<TokenView>, q: int, index: u32)
    requires
        same_rest(a, p, b, q),
        p < a.len(),
    ensures
        layer_at(a, p, index) == moved(layer_at(b, q, index), p - q),
        image_layer_at(a, p, index) == moved(image_layer_at(b, q, index), p - q),
        tileset_at(a, p) == moved(tileset_at(b, q), p - q),
        layer_at(a, p, index) matches Ok((_, next)) ==> p < next <= a.len() && same_rest(
            a,
            next,
            b,
            next - p + q,
        ),
        image_layer_at(a, p, index) matches Ok((_, next)) ==> p < next <= a.len() && same_rest(
            a,
            next,
            b,
            next - p + q,
        ),
        tileset_at(a, p) matches Ok((_, next)) ==> p < next <= a.len() && same_rest(
            a,
            next,
            b,
            next - p + q,
        ),
{
    lemma_rest_here(a, p, b, q);
    lemma_rest_later(a, p, b, q, 1);
    lemma_contents_from_rest(a, p + 1, b, q + 1, "layer"@, false, no_contents());
    lemma_contents_from_rest(a, p + 1, b, q + 1, "imagelayer"@, true, no_contents());
    lemma_contents_from_rest(a, p + 1, b, q + 1, "tileset"@, true, no_contents());
    lemma_layer_at(a, p, index);
    lemma_image_layer_at(a, p, index);
    lemma_tileset_at(a, p);
    if let Ok((_, next)) = layer_at(a, p, index) {
        lemma_rest_later(a, p, b, q, next - p);
    }
    if let Ok((_, next)) = image_layer_at(a, p, index) {
        lemma_rest_later(a, p, b, q, next - p);
    }
    if let Ok((_, next)) = tileset_at(a, p) {
        lemma_rest_later(a, p, b, q, next - p);
    }
}

/// What [`plain_shape_at`] finds depends only on the tokens from its place on.
pub proof fn lemma_plain_shape_at_rest(
    a: Seq<TokenView>,
    p: int,
    b: Seq<TokenView>,
    q: int,
    name: Seq<char>,
    shape: ShapeView,
)
    requires
        same_rest(a, p, b, q),
        p < a.len(),
    ensures
        plain_shape_at(a, p, name, shape) == moved(plain_shape_at(b, q, name, shape), p - q),
{
    lemma_rest_here(a, p, b, q);
    lemma_rest_later(a, p, b, q, 1);
    lemma_element_end_rest(a, p + 1, b, q + 1, name);
}

/// What [`outline_at`] finds depends only on the tokens from its place on.
pub proof fn lemma_outline_at_rest(a: Seq<TokenView>, p: int, b: Seq<TokenView>, q: int, closed: bool)
    requires
        same_rest(a, p, b, q),
        p < a.len(),
    ensures
        outline_at(a, p, closed) == moved(outline_at(b, q, closed), p - q),
{
    lemma_rest_here(a, p, b, q);
    lemma_rest_later(a, p, b, q, 1);
    lemma_element_end_rest(a, p + 1, b, q + 1, "polyline"@);
    lemma_element_end_rest(a, p + 1, b, q + 1, "polygon"@);
}

/// What [`text_shape_at`] finds depends only on the tokens from its place on.
pub proof fn lemma_text_shape_at_rest(a: Seq<TokenView>, p: int, b: Seq<TokenView>, q: int)
    requires
        same_rest(a, p, b, q),
        p < a.len(),
    ensures
        text_shape_at(a, p) == moved(text_shape_at(b, q), p - q),
{
    lemma_rest_here(a, p, b, q);
    lemma_rest_later(a, p, b, q, 1);
    lemma_element_end_rest(a, p + 1, b, q + 1, "text"@);
    lemma_text_at_rest(a, p + 1, b, q + 1);
    if text_at(a, p + 1) is Some {
        lemma_rest_later(a, p, b, q, 2);
        lemma_element_end_rest(a, p + 2, b, q + 2, "text"@);
    }
}

/// What [`shape_child`] finds depends only on the tokens from its place on.
pub proof fn lemma_shape_child_rest(
    a: Seq<TokenView>,
    p: int,
    b: Seq<TokenView>,
    q: int,
    of: ObjectView,
)
    requires
        same_rest(a, p, b, q),
        p < a.len(),
    ensures
        match shape_child(a, p, of) {
            Some(r) => shape_child(b, q, of) == Some(moved(r, q - p)),
            None => shape_child(b, q, of) is None,
        },
        shape_child(a, p, of) matches Some(Ok((_, next))) ==> p < next <= a.len() && same_rest(
            a,
            next,
            b,
            next - p + q,
        ),
{
    lemma_rest_here(a, p, b, q);
    let name = a[p]->Start_name;
    lemma_plain_shape_at_rest(
        a,
        p,
        b,
        q,
        name,
        ShapeView::Ellipse { width: of.width, height: of.height },
    );
    lemma_plain_shape_at_rest(a, p, b, q, name, ShapeView::Point(of.x, of.y));
    lemma_outline_at_rest(a, p, b, q, false);
    lemma_outline_at_rest(a, p, b, q, true);
    lemma_text_shape_at_rest(a, p, b, q);
    lemma_shape_child(a, p, of);
    if let Some(Ok((_, next))) = shape_child(a, p, of) {
        lemma_rest_later(a, p, b, q, next - p);
    }
}

/// What [`object_child`] finds depends only on the tokens from its place on.
pub proof fn lemma_object_child_rest(
    a: Seq<TokenView>,
    p: int,
    b: Seq<TokenView>,
    q: int,
    found: ObjectView,
)
    requires
        same_rest(a, p, b, q),
        p < a.len(),
    ensures
        match object_child(a, p, found) {
            Some(r) => object_child(b, q, found) == Some(moved(r, q - p)),
            None => object_child(b, q, found) is None,
        },
        object_child(a, p, found) matches Some(Ok((_, next))) ==> p < next <= a.len() && same_rest(
            a,
            next,
            b,
            next - p + q,
        ),
{
    reveal(object_child);
    lemma_rest_here(a, p, b, q);
    lemma_shape_child_rest(a, p, b, q, found);
    lemma_properties_at_rest(a, p, b, q);
}

/// What [`object_from`] finds depends only on the tokens from its place on.
pub proof fn lemma_object_from_rest(
    a: Seq<TokenView>,
    p: int,
    b: Seq<TokenView>,
    q: int,
    found: ObjectView,
)
    requires
        same_rest(a, p, b, q),
    ensures
        object_from(a, p, found) == moved(object_from(b, q, found), p - q),
    decreases a.len() - p,
{
    lemma_rest_here(a, p, b, q);
    lemma_child_step_rest(a, p, b, q, "object"@);
    if let Step::Child { at } = child_step(a, p, "object"@) {
        lemma_child_rest(a, p, b, q, "object"@, at);
        lemma_object_child_rest(a, at, b, at - p + q, found);
        match object_child(a, at, found) {
            Some(Err(_)) => {},
            Some(Ok((after, next))) => {
                lemma_object_from_rest(a, next, b, next - p + q, after);
            },
            None => {
                if let Ok(next) = subtree_end(a, at + 1, 1, "object"@) {
                    lemma_object_from_rest(a, next, b, next - p + q, found);
                }
            },
        }
    }
}

/// What [`object_at`] finds depends only on the tokens from its place on.
pub proof fn lemma_object_at_rest(a: Seq<TokenView>, p: int, b: Seq<TokenView>, q: int)
    requires
        same_rest(a, p, b, q),
        p < a.len(),
    ensures
        object_at(a, p) == moved(object_at(b, q), p - q),
        object_at(a, p) matches Ok((_, next)) ==> p < next <= a.len() && same_rest(
            a,
            next,
            b,
            next - p + q,
        ),
{
    lemma_rest_here(a, p, b, q);
    let attrs = a[p]->attrs;
    lemma_rest_later(a, p, b, q, 1);
    match (
        crate::attributes::attr_decimal(attrs, "x"@),
        crate::attributes::attr_decimal(attrs, "y"@),
    ) {
        (Some(x), Some(y)) => {
            lemma_object_from_rest(a, p + 1, b, q + 1, plain_object(attrs, x, y));
        },
        _ => {},
    }
    lemma_object_at(a, p);
    if let Ok((_, next)) = object_at(a, p) {
        lemma_rest_later(a, p, b, q, next - p);
    }
}

/// What [`group_child`] finds depends only on the tokens from its place on.
pub proof fn lemma_group_child_rest(
    a: Seq<TokenView>,
    p: int,
    b: Seq<TokenView>,
    q: int,
    found: ObjectGroupView,
)
    requires
        same_rest(a, p, b, q),
        p < a.len(),
    ensures
        match group_child(a, p, found) {
            Some(r) => group_child(b, q, found) == Some(moved(r, q - p)),
            None => group_child(b, q, found) is None,
        },
        group_child(a, p, found) matches Some(Ok((_, next))) ==> p < next <= a.len() && same_rest(
            a,
            next,
            b,
            next - p + q,
        ),
{
    reveal(group_child);
    lemma_rest_here(a, p, b, q);
    lemma_object_at_rest(a, p, b, q);
    lemma_properties_at_rest(a, p, b, q);
}

/// What [`group_from`] finds depends only on the tokens from its place on.
pub proof fn lemma_group_from_rest(
    a: Seq<TokenView>,
    p: int,
    b: Seq<TokenView>,
    q: int,
    found: ObjectGroupView,
)
    requires
        same_rest(a, p, b, q),
    ensures
        group_from(a, p, found) == moved(group_from(b, q, found), p - q),
    decreases a.len() - p,
{
    lemma_rest_here(a, p, b, q);
    lemma_child_step_rest(a, p, b, q, "objectgroup"@);
    if let Step::Child { at } = child_step(a, p, "objectgroup"@) {
        lemma_child_rest(a, p, b, q, "objectgroup"@, at);
        lemma_group_child_rest(a, at, b, at - p + q, found);
        match group_child(a, at, found) {
            Some(Err(_)) => {},
            Some(Ok((after, next))) => {
                lemma_group_from_rest(a, next, b, next - p + q, after);
            },
            None => {
                if let Ok(next) = subtree_end(a, at + 1, 1, "objectgroup"@) {
                    lemma_group_from_rest(a, next, b, next - p + q, found);
                }
            },
        }
    }
}

/// What [`group_at`] finds depends only on the tokens from its place on.
pub proof fn lemma_group_at_rest(
    a: Seq<TokenView>,
    p: int,
    b: Seq<TokenView>,
    q: int,
    index: Option<u32>,
)
    requires
        same_rest(a, p, b, q),
        p < a.len(),
    ensures
        group_at(a, p, index) == moved(group_at(b, q, index), p - q),
        group_at(a, p, index) matches Ok((_, next)) ==> p < next <= a.len() && same_rest(
            a,
            next,
            b,
            next - p + q,
        ),
{
    lemma_rest_here(a, p, b, q);
    lemma_rest_later(a, p, b, q, 1);
    lemma_group_from_rest(a, p + 1, b, q + 1, empty_group(a[p]->attrs, index));
    lemma_group_at(a, p, index);
    if let Ok((_, next)) = group_at(a, p, index) {
        lemma_rest_later(a, p, b, q, next - p);
    }
}

/// A result of a child of a map with its position moved by `by`.
pub open spec fn moved_child(r: Result<(MapView, nat, int), Failure>, by: int) -> Result<
    (MapView, nat, int),
    Failure,
> {
    match r {
        Ok((map, count, next)) => Ok((map, count, next + by)),
        Err(f) => Err(f),
    }
}

/// What [`map_child`] finds depends only on the tokens from its place on.
pub proof fn lemma_map_child_rest(
    a: Seq<TokenView>,
    p: int,
    b: Seq<TokenView>,
    q: int,
    found: MapView,
    count: nat,
)
    requires
        same_rest(a, p, b, q),
        p < a.len(),
    ensures
        match map_child(a, p, found, count) {
            Some(r) => map_child(b, q, found, count) == Some(moved_child(r, q - p)),
            None => map_child(b, q, found, count) is None,
        },
        map_child(a, p, found, count) matches Some(Ok((_, _, next))) ==> p < next <= a.len()
            && same_rest(a, next, b, next - p + q),
{
    reveal(map_child);
    lemma_rest_here(a, p, b, q);
    lemma_layer_at_rest(a, p, b, q, count as u32);
    lemma_properties_at_rest(a, p, b, q);
    lemma_group_at_rest(a, p, b, q, Some(count as u32));
}

/// What [`map_from`] finds depends only on the tokens from its place on.
pub proof fn lemma_map_from_rest(
    a: Seq<TokenView>,
    p: int,
    b: Seq<TokenView>,
    q: int,
    found: MapView,
    count: nat,
)
    requires
        same_rest(a, p, b, q),
    ensures
        map_from(a, p, found, count) == moved(map_from(b, q, found, count), p - q),
    decreases a.len() - p,
{
    lemma_rest_here(a, p, b, q);
    lemma_child_step_rest(a, p, b, q, "map"@);
    if let Step::Child { at } = child_step(a, p, "map"@) {
        lemma_child_rest(a, p, b, q, "map"@, at);
        lemma_map_child_rest(a, at, b, at - p + q, found, count);
        match map_child(a, at, found, count) {
            Some(Err(_)) => {},
            Some(Ok((after, more, next))) => {
                lemma_map_from_rest(a, next, b, next - p + q, after, more);
            },
            None => {
                if let Ok(next) = subtree_end(a, at + 1, 1, "map"@) {
                    lemma_map_from_rest(a, next, b, next - p + q, found, count);
                }
            },
        }
    }
}

} // verus!
