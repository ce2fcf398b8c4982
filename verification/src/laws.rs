//! What holds of every document: laws of the reader, each proved from the definitions of the
//! parsers.

use vstd::prelude::*;
use crate::attributes::{attr_color, attr_u32, attr_value};
use crate::dispatch::{child_step, lemma_child_step, lemma_subtree_end, subtree_end, Step};
use crate::error::Failure;
use crate::events::{AttributeView, TokenView};
use crate::layers::{contents_child, contents_from, image_layer_at, layer_at, ContentsView};
use crate::locality::{
    lemma_contents_from_rest, lemma_group_from_rest, lemma_map_from_rest,
    lemma_object_from_rest, lemma_properties_from_rest, moved, same_rest,
};
use crate::map::{
    attr_orientation, document_map, lemma_map_child, map_at, map_child, map_from, map_needs,
    no_map, tileset_index, MapView,
};
use crate::points::{lemma_mark_at, mark_at, not_a_pair, point_in, points_from, points_of};
use crate::objects::{
    empty_group, group_at, group_child, group_from, lemma_group_child, object_child,
    object_from, ObjectGroupView, ObjectView,
};
use crate::properties::{properties_at, properties_from};
use crate::tile::Gid;
use crate::tileset::{tileset_at, TilesetView};

verus! {

/// An attribute that no element has is read as absent.
pub proof fn law_absent_attribute(attrs: Seq<AttributeView>, name: Seq<char>)
    requires
        forall|i: int| 0 <= i < attrs.len() ==> (#[trigger] attrs[i]).name != name,
    ensures
        attr_value(attrs, name) is None,
    decreases attrs.len(),
{
    if attrs.len() > 0 {
        assert(attrs.last() == attrs[attrs.len() - 1]);
        assert forall|i: int| 0 <= i < attrs.drop_last().len() implies (
        #[trigger] attrs.drop_last()[i]).name != name by {
            assert(attrs.drop_last()[i] == attrs[i]);
        }
        law_absent_attribute(attrs.drop_last(), name);
    }
}

/// An attribute is read as the value that the element gives it; where the element gives the
/// name more than once, as the last of the values.
pub proof fn law_present_attribute(attrs: Seq<AttributeView>, name: Seq<char>, at: int)
    requires
        0 <= at < attrs.len(),
        attrs[at].name == name,
        forall|i: int| at < i < attrs.len() ==> (#[trigger] attrs[i]).name != name,
    ensures
        attr_value(attrs, name) == Some(attrs[at].value),
    decreases attrs.len(),
{
    if at < attrs.len() - 1 {
        assert(attrs.last() == attrs[attrs.len() - 1]);
        assert forall|i: int| at < i < attrs.drop_last().len() implies (
        #[trigger] attrs.drop_last()[i]).name != name by {
            assert(attrs.drop_last()[i] == attrs[i]);
        }
        assert(attrs.drop_last()[at] == attrs[at]);
        law_present_attribute(attrs.drop_last(), name, at);
    }
}

/// Whether the attributes of a `map` element hold all that a map must have, each in the form
/// that its type asks for.
pub open spec fn map_complete(ts: Seq<TokenView>, at: int) -> bool {
    let attrs = ts[at]->attrs;
    &&& attr_value(attrs, "version"@) is Some
    &&& attr_orientation(attrs, "orientation"@) is Some
    &&& attr_u32(attrs, "width"@) is Some
    &&& attr_u32(attrs, "height"@) is Some
    &&& attr_u32(attrs, "tilewidth"@) is Some
    &&& attr_u32(attrs, "tileheight"@) is Some
}

/// Whether the fields of `map` that are no lists are what the attributes of the `map`
/// element at `at` spell. The map is unbounded exactly where `infinite` is spelled `1`.
pub open spec fn fields_as_spelled(
    map: MapView,
    ts: Seq<TokenView>,
    at: int,
    source: Option<Seq<char>>,
) -> bool {
    let attrs = ts[at]->attrs;
    &&& Some(map.version) == attr_value(attrs, "version"@)
    &&& Some(map.orientation) == attr_orientation(attrs, "orientation"@)
    &&& Some(map.width) == attr_u32(attrs, "width"@)
    &&& Some(map.height) == attr_u32(attrs, "height"@)
    &&& Some(map.tile_width) == attr_u32(attrs, "tilewidth"@)
    &&& Some(map.tile_height) == attr_u32(attrs, "tileheight"@)
    &&& map.background_color == attr_color(attrs, "backgroundcolor"@)
    &&& map.infinite == (attr_value(attrs, "infinite"@) == Some("1"@))
    &&& map.source == source
}

/// Whether two maps agree in every field that is no list.
pub open spec fn same_fields(a: MapView, b: MapView) -> bool {
    &&& a.version == b.version
    &&& a.orientation == b.orientation
    &&& a.width == b.width
    &&& a.height == b.height
    &&& a.tile_width == b.tile_width
    &&& a.tile_height == b.tile_height
    &&& a.background_color == b.background_color
    &&& a.infinite == b.infinite
    &&& a.source == b.source
}

/// A child of a map changes none of its fields that are no lists.
proof fn lemma_child_keeps_fields(ts: Seq<TokenView>, at: int, found: MapView, count: nat)
    ensures
        map_child(ts, at, found, count) matches Some(Ok((after, _, _))) ==> same_fields(after, found),
{
    reveal(map_child);
}

/// A child of a group leaves its place among the layers as it is.
proof fn lemma_child_keeps_place(ts: Seq<TokenView>, at: int, found: ObjectGroupView)
    ensures
        group_child(ts, at, found) matches Some(Ok((after, _))) ==> after.layer_index
            == found.layer_index,
{
    reveal(group_child);
}

/// The children of a map change none of its fields that are no lists.
pub proof fn lemma_children_keep_fields(ts: Seq<TokenView>, pos: int, found: MapView, count: nat)
    requires
        0 <= pos,
    ensures
        map_from(ts, pos, found, count) matches Ok((map, _)) ==> same_fields(map, found),
    decreases ts.len() - pos,
{
    lemma_child_step(ts, pos, "map"@);
    if let Step::Child { at } = child_step(ts, pos, "map"@) {
        lemma_map_child(ts, at, found, count);
        lemma_child_keeps_fields(ts, at, found, count);
        lemma_subtree_end(ts, at + 1, 1, "map"@);
        match map_child(ts, at, found, count) {
            Some(Err(_)) => {},
            Some(Ok((after, count, next))) => lemma_children_keep_fields(ts, next, after, count),
            None => match subtree_end(ts, at + 1, 1, "map"@) {
                Err(_) => {},
                Ok(next) => lemma_children_keep_fields(ts, next, found, count),
            },
        }
    }
}

/// A map that is read has, in each field that is no list, the value that the attribute of
/// its element spells; and a `map` element that lacks one of the attributes a map must have
/// is not read.
pub proof fn law_fields_are_the_attribute_values(
    ts: Seq<TokenView>,
    at: int,
    source: Option<Seq<char>>,
)
    requires
        0 <= at,
    ensures
        map_at(ts, at, source) matches Ok((map, _)) ==> fields_as_spelled(map, ts, at, source),
        !map_complete(ts, at) ==> map_at(ts, at, source) == Err::<(MapView, int), Failure>(
            map_needs(),
        ),
{
    let attrs = ts[at]->attrs;
    if map_complete(ts, at) {
        let first = MapView {
            version: attr_value(attrs, "version"@)->0,
            orientation: attr_orientation(attrs, "orientation"@)->0,
            width: attr_u32(attrs, "width"@)->0,
            height: attr_u32(attrs, "height"@)->0,
            tile_width: attr_u32(attrs, "tilewidth"@)->0,
            tile_height: attr_u32(attrs, "tileheight"@)->0,
            tilesets: Seq::empty(),
            layers: Seq::empty(),
            image_layers: Seq::empty(),
            object_groups: Seq::empty(),
            properties: Map::empty(),
            background_color: attr_color(attrs, "backgroundcolor"@),
            infinite: attr_value(attrs, "infinite"@) == Some("1"@),
            source,
        };
        assert(map_at(ts, at, source) == map_from(ts, at + 1, first, 0));
        lemma_children_keep_fields(ts, at + 1, first, 0);
    }
}

/// A `map` element that has what a map must have and closes at once is read, as a map
/// without tilesets, layers or properties, and reading goes on behind its end tag.
pub proof fn law_minimal_map(ts: Seq<TokenView>, at: int, source: Option<Seq<char>>)
    requires
        0 <= at,
        at + 1 < ts.len(),
        map_complete(ts, at),
        ts[at + 1] == (TokenView::End { name: "map"@ }),
    ensures
        map_at(ts, at, source) matches Ok((map, next)) && next == at + 2 && fields_as_spelled(
            map,
            ts,
            at,
            source,
        ) && map.tilesets.len() == 0 && map.layers.len() == 0 && map.image_layers.len() == 0
            && map.object_groups.len() == 0 && map.properties == Map::<
            Seq<char>,
            crate::values::PropertyValueView,
        >::empty(),
{
    law_fields_are_the_attribute_values(ts, at, source);
}

/// Whether reading passes over the token without looking for a map in it.
pub open spec fn before_map(token: TokenView) -> bool {
    &&& !(token is Invalid)
    &&& !(token is EndDocument)
    &&& !(token is Start && token->Start_name == "map"@)
}

/// What stands before the first `map` element does not matter: the map of the document is
/// the map of that element.
pub proof fn law_first_map_is_read(ts: Seq<TokenView>, pos: int, at: int, source: Option<Seq<char>>)
    requires
        0 <= pos <= at < ts.len(),
        forall|i: int| pos <= i < at ==> before_map(#[trigger] ts[i]),
        ts[at] is Start,
        ts[at]->Start_name == "map"@,
    ensures
        document_map(ts, pos, source) == match map_at(ts, at, source) {
            Ok((map, _)) => Ok::<MapView, Failure>(map),
            Err(f) => Err(f),
        },
    decreases at - pos,
{
    if pos < at {
        assert(before_map(ts[pos]));
        law_first_map_is_read(ts, pos + 1, at, source);
    }
}

/// A document whose first `map` element has what a map must have and closes at once is
/// read, as a map without tilesets, layers or properties whose other fields are what the
/// attributes spell.
pub proof fn law_minimal_document(ts: Seq<TokenView>, at: int, source: Option<Seq<char>>)
    requires
        0 <= at,
        at + 1 < ts.len(),
        forall|i: int| 0 <= i < at ==> before_map(#[trigger] ts[i]),
        ts[at] is Start,
        ts[at]->Start_name == "map"@,
        map_complete(ts, at),
        ts[at + 1] == (TokenView::End { name: "map"@ }),
    ensures
        document_map(ts, 0, source) matches Ok(map) && fields_as_spelled(map, ts, at, source)
            && map.tilesets.len() == 0 && layer_total(map) == 0 && map.properties == Map::<
            Seq<char>,
            crate::values::PropertyValueView,
        >::empty(),
{
    law_first_map_is_read(ts, 0, at, source);
    law_minimal_map(ts, at, source);
}

/// A document that is complete, and in which no `map` element opens, has no map: reading it
/// ends prematurely.
pub proof fn law_document_without_map(ts: Seq<TokenView>, pos: int, end: int, source: Option<Seq<char>>)
    requires
        0 <= pos <= end <= ts.len(),
        end < ts.len() ==> ts[end] is EndDocument,
        forall|i: int| pos <= i < end ==> before_map(#[trigger] ts[i]),
    ensures
        document_map(ts, pos, source) == Err::<MapView, Failure>(no_map()),
    decreases end - pos,
{
    if pos < end {
        assert(before_map(ts[pos]));
        law_document_without_map(ts, pos + 1, end, source);
    }
}

/// Whatever is amiss with the points of an outline, the failure is one of malformed
/// attributes.
pub proof fn law_points_fail_as_malformed(
    s: Seq<char>,
    from: int,
    found: Seq<(Seq<char>, Seq<char>)>,
)
    ensures
        points_from(s, from, found) matches Err(f) ==> f is MalformedAttributes,
    decreases s.len() - from,
{
    let end = mark_at(s, from, s.len() as int, ' ');
    if 0 <= from <= s.len() {
        lemma_mark_at(s, from, s.len() as int, ' ');
        if let Ok(p) = point_in(s, from, end) {
            if end < s.len() {
                law_points_fail_as_malformed(s, end + 1, found.push(p));
            }
        }
    }
}

/// Where no mark stands, none is found.
proof fn lemma_no_mark(s: Seq<char>, from: int, end: int, mark: char)
    requires
        0 <= from <= end <= s.len(),
        forall|i: int| from <= i < end ==> #[trigger] s[i] != mark,
    ensures
        mark_at(s, from, end, mark) == end,
    decreases end - from,
{
    if from < end {
        lemma_no_mark(s, from + 1, end, mark);
    }
}

/// Points without a comma among them are not read: a point is a pair.
pub proof fn law_points_need_a_comma(s: Seq<char>)
    requires
        forall|i: int| 0 <= i < s.len() ==> #[trigger] s[i] != ',',
    ensures
        points_of(s) == Err::<Seq<(Seq<char>, Seq<char>)>, Failure>(not_a_pair()),
{
    let end = mark_at(s, 0, s.len() as int, ' ');
    lemma_mark_at(s, 0, s.len() as int, ' ');
    lemma_no_mark(s, 0, end, ',');
}

/// The tileset that is found for a tile has the tile, and none before it has; where none is
/// found, no tileset has the tile.
pub proof fn law_first_tileset(tilesets: Seq<TilesetView>, gid: Gid, from: int)
    requires
        0 <= from,
    ensures
        match tileset_index(tilesets, gid, from) {
            Some(i) => from <= i < tilesets.len() && tilesets[i].contains_tile(gid) && forall|j: int|
                from <= j < i ==> !(#[trigger] tilesets[j]).contains_tile(gid),
            None => forall|j: int|
                from <= j < tilesets.len() ==> !(#[trigger] tilesets[j]).contains_tile(gid),
        },
    decreases tilesets.len() - from,
{
    if from < tilesets.len() && !tilesets[from].contains_tile(gid) {
        law_first_tileset(tilesets, gid, from + 1);
    }
}

/// Whether no tile belongs to two of the tilesets.
pub open spec fn ranges_apart(tilesets: Seq<TilesetView>) -> bool {
    forall|i: int, j: int, gid: Gid|
        0 <= i < j < tilesets.len() ==> !(#[trigger] tilesets[i].contains_tile(gid)
            && #[trigger] tilesets[j].contains_tile(gid))
}

/// Where no tile belongs to two tilesets, the order of the tilesets does not matter: the
/// tileset that is found for a tile is the one that has it.
pub proof fn law_the_tileset_of_a_tile(tilesets: Seq<TilesetView>, gid: Gid, k: int)
    requires
        ranges_apart(tilesets),
        0 <= k < tilesets.len(),
        tilesets[k].contains_tile(gid),
    ensures
        tileset_index(tilesets, gid, 0) == Some(k),
{
    law_first_tileset(tilesets, gid, 0);
    let found = tileset_index(tilesets, gid, 0);
    assert(found is Some);
    if found->0 < k {
        assert(tilesets[found->0].contains_tile(gid) && tilesets[k].contains_tile(gid));
    }
}

/// The number of elements that are open behind the tokens from `from` up to `to`, where
/// `depth` were open before them: a start tag opens one and an end tag closes one.
pub open spec fn open_after(ts: Seq<TokenView>, from: int, to: int, depth: int) -> int
    decreases to - from,
{
    if from >= to {
        depth
    } else if ts[from] is Start {
        open_after(ts, from + 1, to, depth + 1)
    } else if ts[from] is End {
        open_after(ts, from + 1, to, depth - 1)
    } else {
        open_after(ts, from + 1, to, depth)
    }
}

/// Skipping ends where the elements that were open have all closed, and not before: behind
/// the tokens that are passed over none is open, behind fewer of them some still are, and
/// neither the end of the document nor an error is among them.
pub proof fn law_skipping_is_balanced(
    ts: Seq<TokenView>,
    pos: int,
    depth: nat,
    parent: Seq<char>,
    next: int,
)
    requires
        0 <= pos <= ts.len(),
        depth > 0,
        subtree_end(ts, pos, depth, parent) == Ok::<int, Failure>(next),
    ensures
        pos < next <= ts.len(),
        open_after(ts, pos, next, depth as int) == 0,
        forall|k: int| pos <= k < next ==> #[trigger] open_after(ts, pos, k, depth as int) > 0,
        forall|k: int| pos <= k < next ==> !(#[trigger] ts[k]).is_last(),
    decreases ts.len() - pos,
{
    lemma_subtree_end(ts, pos, depth, parent);
    let then: int = if ts[pos] is Start {
        depth as int + 1
    } else if ts[pos] is End {
        depth as int - 1
    } else {
        depth as int
    };
    assert(subtree_end(ts, pos, depth, parent) == subtree_end(ts, pos + 1, then as nat, parent));
    if then > 0 {
        law_skipping_is_balanced(ts, pos + 1, then as nat, parent, next);
        assert forall|k: int| pos <= k < next implies #[trigger] open_after(
            ts,
            pos,
            k,
            depth as int,
        ) > 0 by {
            if k > pos {
                assert(open_after(ts, pos + 1, k, then) > 0);
            }
        }
    } else {
        assert(next == pos + 1);
        assert(open_after(ts, pos + 1, next, then) == 0);
        assert forall|k: int| pos <= k < next implies #[trigger] open_after(
            ts,
            pos,
            k,
            depth as int,
        ) > 0 by {
            assert(k == pos);
        }
    }
}

/// Whether the child at `at` of a map is one that the reader of maps knows.
pub open spec fn known_to_map(ts: Seq<TokenView>, at: int) -> bool {
    let name = ts[at]->Start_name;
    name == "tileset"@ || name == "layer"@ || name == "imagelayer"@ || name == "properties"@ || name
        == "objectgroup"@
}

/// A child of a map that the reader does not know is passed over, children and all: the map
/// is read as if reading had begun behind that child, with what was found before it.
pub proof fn law_unknown_child_of_map(
    ts: Seq<TokenView>,
    pos: int,
    found: MapView,
    count: nat,
    at: int,
    next: int,
)
    requires
        0 <= pos,
        child_step(ts, pos, "map"@) == (Step::Child { at }),
        !known_to_map(ts, at),
        subtree_end(ts, at + 1, 1, "map"@) == Ok::<int, Failure>(next),
    ensures
        map_from(ts, pos, found, count) == map_from(ts, next, found, count),
{
    reveal(map_child);
}

/// A child of an object group that is neither an object nor the properties is passed over
/// in the same way.
pub proof fn law_unknown_child_of_group(
    ts: Seq<TokenView>,
    pos: int,
    found: ObjectGroupView,
    at: int,
    next: int,
)
    requires
        0 <= pos,
        child_step(ts, pos, "objectgroup"@) == (Step::Child { at }),
        ts[at]->Start_name != "object"@,
        ts[at]->Start_name != "properties"@,
        subtree_end(ts, at + 1, 1, "objectgroup"@) == Ok::<int, Failure>(next),
    ensures
        group_from(ts, pos, found) == group_from(ts, next, found),
{
    reveal(group_child);
}

/// The place of a group among the layers, or -1 for a group that is no layer.
pub open spec fn group_index(group: ObjectGroupView) -> int {
    match group.layer_index {
        Some(k) => k as int,
        None => -1,
    }
}

/// The number of layers of all kinds of a map.
pub open spec fn layer_total(map: MapView) -> nat {
    map.layers.len() + map.image_layers.len() + map.object_groups.len()
}

/// Whether some layer of `map`, of whatever kind, has the place `k`.
pub open spec fn place_taken(map: MapView, k: int) -> bool {
    ||| exists|i: int| 0 <= i < map.layers.len() && (#[trigger] map.layers[i]).layer_index == k
    ||| exists|i: int|
        0 <= i < map.image_layers.len() && (#[trigger] map.image_layers[i]).layer_index == k
    ||| exists|i: int|
        0 <= i < map.object_groups.len() && group_index(#[trigger] map.object_groups[i]) == k
}

/// Whether the layers of all kinds of `map` have the places from 0 up to `count`, each place
/// once, and within each kind in rising order.
#[verifier::opaque]
pub open spec fn numbered(map: MapView, count: nat) -> bool {
    &&& layer_total(map) == count
    &&& forall|i: int| 0 <= i < map.layers.len() ==> (#[trigger] map.layers[i]).layer_index < count
    &&& forall|i: int|
        0 <= i < map.image_layers.len() ==> (#[trigger] map.image_layers[i]).layer_index < count
    &&& forall|i: int|
        0 <= i < map.object_groups.len() ==> 0 <= group_index(#[trigger] map.object_groups[i])
            < count
    &&& forall|i: int, j: int|
        0 <= i < j < map.layers.len() ==> (#[trigger] map.layers[i]).layer_index < (
        #[trigger] map.layers[j]).layer_index
    &&& forall|i: int, j: int|
        0 <= i < j < map.image_layers.len() ==> (#[trigger] map.image_layers[i]).layer_index < (
        #[trigger] map.image_layers[j]).layer_index
    &&& forall|i: int, j: int|
        0 <= i < j < map.object_groups.len() ==> group_index(#[trigger] map.object_groups[i])
            < group_index(#[trigger] map.object_groups[j])
    &&& forall|i: int, j: int|
        0 <= i < map.layers.len() && 0 <= j < map.image_layers.len() ==> (
        #[trigger] map.layers[i]).layer_index != (#[trigger] map.image_layers[j]).layer_index
    &&& forall|i: int, j: int|
        0 <= i < map.layers.len() && 0 <= j < map.object_groups.len() ==> (
        #[trigger] map.layers[i]).layer_index != group_index(#[trigger] map.object_groups[j])
    &&& forall|i: int, j: int|
        0 <= i < map.image_layers.len() && 0 <= j < map.object_groups.len() ==> (
        #[trigger] map.image_layers[i]).layer_index != group_index(
            #[trigger] map.object_groups[j],
        )
    &&& forall|k: int| 0 <= k < count ==> #[trigger] place_taken(map, k)
}

/// The children of a group leave its place among the layers as it is.
pub proof fn lemma_group_keeps_place(ts: Seq<TokenView>, pos: int, found: ObjectGroupView)
    requires
        0 <= pos,
    ensures
        group_from(ts, pos, found) matches Ok((group, _)) ==> group.layer_index
            == found.layer_index,
    decreases ts.len() - pos,
{
    lemma_child_step(ts, pos, "objectgroup"@);
    if let Step::Child { at } = child_step(ts, pos, "objectgroup"@) {
        lemma_group_child(ts, at, found);
        lemma_child_keeps_place(ts, at, found);
        lemma_subtree_end(ts, at + 1, 1, "objectgroup"@);
        match group_child(ts, at, found) {
            Some(Err(_)) => {},
            Some(Ok((after, next))) => lemma_group_keeps_place(ts, next, after),
            None => match subtree_end(ts, at + 1, 1, "objectgroup"@) {
                Err(_) => {},
                Ok(next) => lemma_group_keeps_place(ts, next, found),
            },
        }
    }
}

/// A place that is taken stays taken when a layer is added.
proof fn lemma_places_stay(before: MapView, after: MapView, count: nat)
    requires
        forall|k: int| 0 <= k < count ==> #[trigger] place_taken(before, k),
        forall|i: int| 0 <= i < before.layers.len() ==> i < after.layers.len() && after.layers[i]
            == #[trigger] before.layers[i],
        forall|i: int|
            0 <= i < before.image_layers.len() ==> i < after.image_layers.len()
                && after.image_layers[i] == #[trigger] before.image_layers[i],
        forall|i: int|
            0 <= i < before.object_groups.len() ==> i < after.object_groups.len()
                && after.object_groups[i] == #[trigger] before.object_groups[i],
        place_taken(after, count as int),
    ensures
        forall|k: int| 0 <= k < count + 1 ==> #[trigger] place_taken(after, k),
{
    assert forall|k: int| 0 <= k < count + 1 implies #[trigger] place_taken(after, k) by {
        if k < count {
            assert(place_taken(before, k));
            if exists|i: int| 0 <= i < before.layers.len() && (#[trigger] before.layers[i]).layer_index == k {
                let i = choose|i: int| 0 <= i < before.layers.len() && (#[trigger] before.layers[i]).layer_index == k;
                assert(after.layers[i].layer_index == k);
            } else if exists|i: int|
                0 <= i < before.image_layers.len() && (#[trigger] before.image_layers[i]).layer_index == k {
                let i = choose|i: int|
                    0 <= i < before.image_layers.len() && (#[trigger] before.image_layers[i]).layer_index == k;
                assert(after.image_layers[i].layer_index == k);
            } else {
                let i = choose|i: int|
                    0 <= i < before.object_groups.len() && group_index(#[trigger] before.object_groups[i]) == k;
                assert(group_index(after.object_groups[i]) == k);
            }
        }
    }
}

/// A map stays numbered when fields other than its layers change.
proof fn lemma_same_layers(before: MapView, after: MapView, count: nat)
    requires
        numbered(before, count),
        after.layers == before.layers,
        after.image_layers == before.image_layers,
        after.object_groups == before.object_groups,
    ensures
        numbered(after, count),
{
    reveal(numbered);
    assert forall|k: int| 0 <= k < count implies #[trigger] place_taken(after, k) by {
        assert(place_taken(before, k));
    }
}

/// A numbered map with one more tile layer, at the next place, is numbered.
proof fn lemma_add_layer(before: MapView, layer: crate::layers::LayerView, count: nat)
    requires
        numbered(before, count),
        layer.layer_index == count,
    ensures
        numbered(MapView { layers: before.layers.push(layer), ..before }, count + 1),
{
    reveal(numbered);
    let after = MapView { layers: before.layers.push(layer), ..before };
    assert(after.layers[before.layers.len() as int].layer_index == count);
    lemma_places_stay(before, after, count);
}

/// A numbered map with one more image layer, at the next place, is numbered.
proof fn lemma_add_image_layer(before: MapView, layer: crate::layers::ImageLayerView, count: nat)
    requires
        numbered(before, count),
        layer.layer_index == count,
    ensures
        numbered(MapView { image_layers: before.image_layers.push(layer), ..before }, count + 1),
{
    reveal(numbered);
    let after = MapView { image_layers: before.image_layers.push(layer), ..before };
    assert(after.image_layers[before.image_layers.len() as int].layer_index == count);
    lemma_places_stay(before, after, count);
}

/// A numbered map with one more object group, at the next place, is numbered.
proof fn lemma_add_group(before: MapView, group: ObjectGroupView, count: nat)
    requires
        numbered(before, count),
        group_index(group) == count,
    ensures
        numbered(MapView { object_groups: before.object_groups.push(group), ..before }, count + 1),
{
    reveal(numbered);
    let after = MapView { object_groups: before.object_groups.push(group), ..before };
    assert(group_index(after.object_groups[before.object_groups.len() as int]) == count);
    lemma_places_stay(before, after, count);
}

/// A map is numbered by the number of its layers and by no other.
proof fn lemma_numbered_by_total(map: MapView, count: nat)
    requires
        numbered(map, count),
    ensures
        count == layer_total(map),
{
    reveal(numbered);
}

/// A child of a numbered map leaves it numbered.
proof fn lemma_child_is_numbered(ts: Seq<TokenView>, at: int, found: MapView, count: nat)
    requires
        0 <= at,
        numbered(found, count),
    ensures
        map_child(ts, at, found, count) matches Some(Ok((after, more, _))) ==> numbered(after, more),
{
    reveal(map_child);
    let name = ts[at]->Start_name;
    if name == "tileset"@ {
        if let Ok((tileset, _)) = tileset_at(ts, at) {
            lemma_same_layers(
                found,
                MapView { tilesets: found.tilesets.push(tileset), ..found },
                count,
            );
        }
    } else if name == "properties"@ {
        if let Ok((properties, _)) = properties_at(ts, at) {
            lemma_same_layers(found, MapView { properties, ..found }, count);
        }
    } else if count <= u32::MAX {
        if name == "layer"@ {
            if let Ok((layer, _)) = layer_at(ts, at, count as u32) {
                lemma_add_layer(found, layer, count);
            }
        } else if name == "imagelayer"@ {
            if let Ok((layer, _)) = image_layer_at(ts, at, count as u32) {
                lemma_add_image_layer(found, layer, count);
            }
        } else if name == "objectgroup"@ {
            if let Ok((group, _)) = group_at(ts, at, Some(count as u32)) {
                lemma_group_keeps_place(ts, at + 1, empty_group(ts[at]->attrs, Some(count as u32)));
                lemma_add_group(found, group, count);
            }
        }
    }
}

/// Reading the children of a map keeps its layers numbered.
pub proof fn lemma_children_are_numbered(ts: Seq<TokenView>, pos: int, found: MapView, count: nat)
    requires
        0 <= pos,
        numbered(found, count),
    ensures
        map_from(ts, pos, found, count) matches Ok((map, _)) ==> numbered(map, layer_total(map)),
    decreases ts.len() - pos,
{
    lemma_child_step(ts, pos, "map"@);
    lemma_numbered_by_total(found, count);
    if let Step::Child { at } = child_step(ts, pos, "map"@) {
        lemma_map_child(ts, at, found, count);
        lemma_child_is_numbered(ts, at, found, count);
        lemma_subtree_end(ts, at + 1, 1, "map"@);
        match map_child(ts, at, found, count) {
            Some(Err(_)) => {},
            Some(Ok((after, more, next))) => lemma_children_are_numbered(ts, next, after, more),
            None => match subtree_end(ts, at + 1, 1, "map"@) {
                Err(_) => {},
                Ok(next) => lemma_children_are_numbered(ts, next, found, count),
            },
        }
    }
}

/// In a map that is read, the layers of the three kinds share one numbering: with `n` layers
/// in all, each place from 0 up to `n` is taken by one layer and by no other, and within
/// each kind the places rise in the order of the document.
pub proof fn law_layers_share_one_numbering(
    ts: Seq<TokenView>,
    at: int,
    source: Option<Seq<char>>,
)
    requires
        0 <= at,
    ensures
        map_at(ts, at, source) matches Ok((map, _)) ==> numbered(map, layer_total(map)),
{
    let attrs = ts[at]->attrs;
    if map_complete(ts, at) {
        let first = MapView {
            version: attr_value(attrs, "version"@)->0,
            orientation: attr_orientation(attrs, "orientation"@)->0,
            width: attr_u32(attrs, "width"@)->0,
            height: attr_u32(attrs, "height"@)->0,
            tile_width: attr_u32(attrs, "tilewidth"@)->0,
            tile_height: attr_u32(attrs, "tileheight"@)->0,
            tilesets: Seq::empty(),
            layers: Seq::empty(),
            image_layers: Seq::empty(),
            object_groups: Seq::empty(),
            properties: Map::empty(),
            background_color: attr_color(attrs, "backgroundcolor"@),
            infinite: attr_value(attrs, "infinite"@) == Some("1"@),
            source,
        };
        assert(map_at(ts, at, source) == map_from(ts, at + 1, first, 0));
        assert(numbered(first, 0)) by {
            reveal(numbered);
        }
        lemma_children_are_numbered(ts, at + 1, first, 0);
    }
}

/// The tokens of `ts` without those from `from` up to `to`.
pub open spec fn without(ts: Seq<TokenView>, from: int, to: int) -> Seq<TokenView> {
    ts.take(from) + ts.skip(to)
}

/// Whether the element that opens at `at` is a child of `parent`, met from `pos` on, that
/// closes before `next`.
pub open spec fn child_between(ts: Seq<TokenView>, pos: int, parent: Seq<char>, at: int, next: int) -> bool {
    &&& 0 <= pos
    &&& child_step(ts, pos, parent) == (Step::Child { at })
    &&& subtree_end(ts, at + 1, 1, parent) == Ok::<int, Failure>(next)
}

/// Before a child is met, only tokens that are passed over are read.
proof fn lemma_step_over(ts: Seq<TokenView>, cut: Seq<TokenView>, pos: int, at: int, parent: Seq<char>)
    requires
        0 <= pos <= at <= cut.len(),
        child_step(ts, pos, parent) == (Step::Child { at }),
        forall|i: int| pos <= i < at ==> #[trigger] cut[i] == ts[i],
    ensures
        child_step(cut, pos, parent) == child_step(cut, at, parent),
    decreases at - pos,
{
    lemma_child_step(ts, pos, parent);
    if pos < at {
        assert(cut[pos] == ts[pos]);
        lemma_step_over(ts, cut, pos + 1, at, parent);
    }
}

/// Where a child is left out, reading meets what stood behind the child in its place.
proof fn lemma_left_out(ts: Seq<TokenView>, pos: int, parent: Seq<char>, at: int, next: int)
    requires
        child_between(ts, pos, parent, at, next),
    ensures
        pos <= at < next <= ts.len(),
        same_rest(ts, next, without(ts, at, next), at),
        child_step(without(ts, at, next), pos, parent) == child_step(
            without(ts, at, next),
            at,
            parent,
        ),
{
    let cut = without(ts, at, next);
    lemma_child_step(ts, pos, parent);
    lemma_subtree_end(ts, at + 1, 1, parent);
    assert(same_rest(ts, next, cut, at)) by {
        reveal(same_rest);
    }
    lemma_step_over(ts, cut, pos, at, parent);
}

/// An element that the reader of maps does not know may as well be left out of the
/// document: a map with such a child is read as the same map, to the same end, as from the
/// tokens without that child and all that it holds.
pub proof fn law_map_without_unknown_child(
    ts: Seq<TokenView>,
    pos: int,
    found: MapView,
    count: nat,
    at: int,
    next: int,
)
    requires
        child_between(ts, pos, "map"@, at, next),
        !known_to_map(ts, at),
    ensures
        map_from(ts, pos, found, count) == moved(
            map_from(without(ts, at, next), pos, found, count),
            next - at,
        ),
{
    let cut = without(ts, at, next);
    lemma_left_out(ts, pos, "map"@, at, next);
    law_unknown_child_of_map(ts, pos, found, count, at, next);
    lemma_map_from_rest(ts, next, cut, at, found, count);
    assert(map_from(cut, pos, found, count) == map_from(cut, at, found, count));
}

/// The same holds of a child of an object group that is neither an object nor the
/// properties.
pub proof fn law_group_without_unknown_child(
    ts: Seq<TokenView>,
    pos: int,
    found: ObjectGroupView,
    at: int,
    next: int,
)
    requires
        child_between(ts, pos, "objectgroup"@, at, next),
        ts[at]->Start_name != "object"@,
        ts[at]->Start_name != "properties"@,
    ensures
        group_from(ts, pos, found) == moved(
            group_from(without(ts, at, next), pos, found),
            next - at,
        ),
{
    let cut = without(ts, at, next);
    lemma_left_out(ts, pos, "objectgroup"@, at, next);
    law_unknown_child_of_group(ts, pos, found, at, next);
    lemma_group_from_rest(ts, next, cut, at, found);
    assert(group_from(cut, pos, found) == group_from(cut, at, found));
}

/// The same holds of a child of an object that declares no shape and is not the properties.
pub proof fn law_object_without_unknown_child(
    ts: Seq<TokenView>,
    pos: int,
    found: ObjectView,
    at: int,
    next: int,
)
    requires
        child_between(ts, pos, "object"@, at, next),
        object_child(ts, at, found) is None,
    ensures
        object_from(ts, pos, found) == moved(
            object_from(without(ts, at, next), pos, found),
            next - at,
        ),
{
    let cut = without(ts, at, next);
    lemma_left_out(ts, pos, "object"@, at, next);
    lemma_object_from_rest(ts, next, cut, at, found);
    assert(object_from(cut, pos, found) == object_from(cut, at, found));
}

/// The same holds of a child of a layer, an image layer or a tileset that is neither the
/// image nor the properties.
pub proof fn law_contents_without_unknown_child(
    ts: Seq<TokenView>,
    pos: int,
    parent: Seq<char>,
    pictured: bool,
    found: ContentsView,
    at: int,
    next: int,
)
    requires
        child_between(ts, pos, parent, at, next),
        contents_child(ts, at, pictured, found) is None,
    ensures
        contents_from(ts, pos, parent, pictured, found) == moved(
            contents_from(without(ts, at, next), pos, parent, pictured, found),
            next - at,
        ),
{
    let cut = without(ts, at, next);
    lemma_left_out(ts, pos, parent, at, next);
    lemma_contents_from_rest(ts, next, cut, at, parent, pictured, found);
    assert(contents_from(cut, pos, parent, pictured, found) == contents_from(
        cut,
        at,
        parent,
        pictured,
        found,
    ));
}

/// The same holds of a child of a `properties` element that is no `property`.
pub proof fn law_properties_without_unknown_child(
    ts: Seq<TokenView>,
    pos: int,
    found: Map<Seq<char>, crate::values::PropertyValueView>,
    at: int,
    next: int,
)
    requires
        child_between(ts, pos, "properties"@, at, next),
        ts[at]->Start_name != "property"@,
    ensures
        properties_from(ts, pos, found) == moved(
            properties_from(without(ts, at, next), pos, found),
            next - at,
        ),
{
    let cut = without(ts, at, next);
    lemma_left_out(ts, pos, "properties"@, at, next);
    lemma_properties_from_rest(ts, next, cut, at, found);
    assert(properties_from(cut, pos, found) == properties_from(cut, at, found));
}

} // verus!
