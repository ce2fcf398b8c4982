//! The map, and the assembler that reads one from the tokens of a document.

use vstd::prelude::*;
use crate::attributes::{attr_color, attr_u32, attr_value, find, get_color, get_text, get_u32, text_view};
use crate::dispatch::{
    child_step, lemma_child_step, lemma_subtree_end, next_child, outcome, skip_element,
    start_attrs, start_name, subtree_end, Found, Step,
};
use crate::error::{Failure, ParseTileError, TiledError};
use crate::events::{document_tokens, read_tokens, views, AttributeView, Token, TokenView};
use crate::layers::{
    image_layer_at, layer_at, lemma_image_layer_at, lemma_layer_at, ImageLayer, ImageLayerView,
    Layer, LayerView,
};
use crate::objects::{group_at, lemma_group_at, ObjectGroup, ObjectGroupView};
use crate::properties::{lemma_properties_from, properties_at, Properties};
use crate::text::text_is;
use crate::tile::Gid;
use crate::tileset::{lemma_tileset_at, tileset_at, Tileset, TilesetView};
use crate::values::{Color, PropertyValueView};

verus! {

/// How the tiles of a map are laid out.
#[derive(Debug, PartialEq, Eq, Clone, Copy, Structural)]
pub enum Orientation {
    Orthogonal,
    Isometric,
    Staggered,
    Hexagonal,
}

/// The orientation that `s` names.
pub open spec fn orientation_of(s: Seq<char>) -> Option<Orientation> {
    if s == "orthogonal"@ {
        Some(Orientation::Orthogonal)
    } else if s == "isometric"@ {
        Some(Orientation::Isometric)
    } else if s == "staggered"@ {
        Some(Orientation::Staggered)
    } else if s == "hexagonal"@ {
        Some(Orientation::Hexagonal)
    } else {
        None
    }
}

/// The orientation that the attribute `name` names.
pub open spec fn attr_orientation(attrs: Seq<AttributeView>, name: Seq<char>) -> Option<Orientation> {
    match attr_value(attrs, name) {
        Some(v) => orientation_of(v),
        None => None,
    }
}

impl Orientation {
    /// The orientation that `s` names, or the error that says it names none.
    pub fn from_str(s: &str) -> (r: Result<Orientation, ParseTileError>)
        ensures
            match orientation_of(s@) {
                Some(o) => r == Ok::<Orientation, ParseTileError>(o),
                None => r == Err::<Orientation, ParseTileError>(ParseTileError::OrientationError),
            },
    {
        if text_is(s, "orthogonal") {
            Ok(Orientation::Orthogonal)
        } else if text_is(s, "isometric") {
            Ok(Orientation::Isometric)
        } else if text_is(s, "staggered") {
            Ok(Orientation::Staggered)
        } else if text_is(s, "hexagonal") {
            Ok(Orientation::Hexagonal)
        } else {
            Err(ParseTileError::OrientationError)
        }
    }

    /// The name of the orientation, as a document spells it.
    pub fn name(&self) -> (s: &'static str)
        ensures
            orientation_of(s@) == Some(*self),
    {
        proof {
            lemma_names_differ();
        }
        match self {
            Orientation::Orthogonal => "orthogonal",
            Orientation::Isometric => "isometric",
            Orientation::Staggered => "staggered",
            Orientation::Hexagonal => "hexagonal",
        }
    }
}

/// No two orientations have the same name.
proof fn lemma_names_differ()
    ensures
        "orthogonal"@ != "isometric"@,
        "orthogonal"@ != "staggered"@,
        "orthogonal"@ != "hexagonal"@,
        "isometric"@ != "staggered"@,
        "isometric"@ != "hexagonal"@,
        "staggered"@ != "hexagonal"@,
{
    reveal_strlit("orthogonal");
    reveal_strlit("isometric");
    reveal_strlit("staggered");
    reveal_strlit("hexagonal");
    assert("orthogonal"@[0] != "isometric"@[0]);
    assert("orthogonal"@[0] != "staggered"@[0]);
    assert("orthogonal"@[0] != "hexagonal"@[0]);
    assert("isometric"@[0] != "staggered"@[0]);
    assert("isometric"@[0] != "hexagonal"@[0]);
    assert("staggered"@[0] != "hexagonal"@[0]);
}

/// A map: its grid, its tilesets, and its layers of the three kinds.
#[derive(Debug, PartialEq, Eq, Clone)]
pub struct TiledMap {
    /// The version of the format in which the map was saved.
    pub version: String,
    pub orientation: Orientation,
    /// Width in tiles.
    pub width: u32,
    /// Height in tiles.
    pub height: u32,
    /// Width of a tile in pixels.
    pub tile_width: u32,
    /// Height of a tile in pixels.
    pub tile_height: u32,
    /// The tilesets in the order of the document.
    pub tilesets: Vec<Tileset>,
    /// The tile layers in the order of the document.
    pub layers: Vec<Layer>,
    /// The image layers in the order of the document.
    pub image_layers: Vec<ImageLayer>,
    /// The object groups in the order of the document.
    pub object_groups: Vec<ObjectGroup>,
    pub properties: Properties,
    pub background_color: Option<Color>,
    /// Whether the map has no bounds.
    pub infinite: bool,
    /// Where the map was read from, if the caller said so.
    pub source: Option<String>,
}

/// The model of a [`TiledMap`].
pub struct MapView {
    pub version: Seq<char>,
    pub orientation: Orientation,
    pub width: u32,
    pub height: u32,
    pub tile_width: u32,
    pub tile_height: u32,
    pub tilesets: Seq<TilesetView>,
    pub layers: Seq<LayerView>,
    pub image_layers: Seq<ImageLayerView>,
    pub object_groups: Seq<ObjectGroupView>,
    pub properties: Map<Seq<char>, PropertyValueView>,
    pub background_color: Option<Color>,
    pub infinite: bool,
    pub source: Option<Seq<char>>,
}

impl View for TiledMap {
    type V = MapView;

    open spec fn view(&self) -> MapView {
        MapView {
            version: self.version@,
            orientation: self.orientation,
            width: self.width,
            height: self.height,
            tile_width: self.tile_width,
            tile_height: self.tile_height,
            tilesets: views(self.tilesets@),
            layers: views(self.layers@),
            image_layers: views(self.image_layers@),
            object_groups: views(self.object_groups@),
            properties: self.properties@,
            background_color: self.background_color,
            infinite: self.infinite,
            source: text_view(self.source),
        }
    }
}

/// The failure of a map with more layers than can be numbered.
pub open spec fn too_many_layers() -> Failure {
    Failure::Other("map has too many layers"@)
}

/// The failure of a map that lacks what it must have.
pub open spec fn map_needs() -> Failure {
    Failure::MalformedAttributes("map must have a version, width and height with correct types"@)
}

/// The failure of a document without a map.
pub open spec fn no_map() -> Failure {
    Failure::PrematureEnd("Document ended before map was parsed"@)
}

/// What the child at `at` makes of the map `found` with its `count` layers, if it is a child
/// that counts. A `layer`, `imagelayer` or `objectgroup` child gets the place `count` and is
/// added behind the layers of its kind; there is no place beyond the largest `u32`. A
/// `tileset` child is added behind the tilesets, and a `properties` child replaces the
/// properties; these two take no place.
#[verifier::opaque]
pub open spec fn map_child(ts: Seq<TokenView>, at: int, found: MapView, count: nat) -> Option<
    Result<(MapView, nat, int), Failure>,
> {
    let name = ts[at]->Start_name;
    if name == "tileset"@ {
        Some(
            match tileset_at(ts, at) {
                Err(f) => Err(f),
                Ok((tileset, next)) => Ok(
                    (MapView { tilesets: found.tilesets.push(tileset), ..found }, count, next),
                ),
            },
        )
    } else if name == "properties"@ {
        Some(
            match properties_at(ts, at) {
                Err(f) => Err(f),
                Ok((properties, next)) => Ok((MapView { properties, ..found }, count, next)),
            },
        )
    } else if name == "layer"@ || name == "imagelayer"@ || name == "objectgroup"@ {
        if count > u32::MAX {
            Some(Err(too_many_layers()))
        } else if name == "layer"@ {
            Some(
                match layer_at(ts, at, count as u32) {
                    Err(f) => Err(f),
                    Ok((layer, next)) => Ok(
                        (MapView { layers: found.layers.push(layer), ..found }, count + 1, next),
                    ),
                },
            )
        } else if name == "imagelayer"@ {
            Some(
                match image_layer_at(ts, at, count as u32) {
                    Err(f) => Err(f),
                    Ok((layer, next)) => Ok(
                        (
                            MapView { image_layers: found.image_layers.push(layer), ..found },
                            count + 1,
                            next,
                        ),
                    ),
                },
            )
        } else {
            Some(
                match group_at(ts, at, Some(count as u32)) {
                    Err(f) => Err(f),
                    Ok((group, next)) => Ok(
                        (
                            MapView { object_groups: found.object_groups.push(group), ..found },
                            count + 1,
                            next,
                        ),
                    ),
                },
            )
        }
    } else {
        None
    }
}

/// A child that counts ends behind its start tag.
pub proof fn lemma_map_child(ts: Seq<TokenView>, at: int, found: MapView, count: nat)
    requires
        0 <= at,
    ensures
        map_child(ts, at, found, count) matches Some(Ok((_, _, next))) ==> at < next <= ts.len(),
{
    reveal(map_child);
    lemma_tileset_at(ts, at);
    lemma_properties_from(ts, at + 1, Map::empty());
    lemma_layer_at(ts, at, count as u32);
    lemma_image_layer_at(ts, at, count as u32);
    lemma_group_at(ts, at, Some(count as u32));
}

/// The map that `found` becomes through the children of its element from `pos` on, where
/// `count` layers of any kind were read before. Each child that counts does its part, in
/// the order of the document; any other child is passed over.
pub open spec fn map_from(ts: Seq<TokenView>, pos: int, found: MapView, count: nat) -> Result<
    (MapView, int),
    Failure,
>
    decreases ts.len() - pos,
{
    if pos < 0 {
        Err(map_needs())
    } else {
        match child_step(ts, pos, "map"@) {
            Step::Failed(f) => Err(f),
            Step::Closed { next } => Ok((found, next)),
            Step::Child { at } => {
                proof {
                    lemma_child_step(ts, pos, "map"@);
                    lemma_map_child(ts, at, found, count);
                    lemma_subtree_end(ts, at + 1, 1, "map"@);
                }
                match map_child(ts, at, found, count) {
                    Some(Err(f)) => Err(f),
                    Some(Ok((found, count, next))) => map_from(ts, next, found, count),
                    None => match subtree_end(ts, at + 1, 1, "map"@) {
                        Err(f) => Err(f),
                        Ok(next) => map_from(ts, next, found, count),
                    },
                }
            },
        }
    }
}

/// The map that the `map` element at `at` declares, read from `source`.
pub open spec fn map_at(ts: Seq<TokenView>, at: int, source: Option<Seq<char>>) -> Result<
    (MapView, int),
    Failure,
> {
    let attrs = ts[at]->attrs;
    match (
        attr_value(attrs, "version"@),
        attr_orientation(attrs, "orientation"@),
        attr_u32(attrs, "width"@),
        attr_u32(attrs, "height"@),
        attr_u32(attrs, "tilewidth"@),
        attr_u32(attrs, "tileheight"@),
    ) {
        (
            Some(version),
            Some(orientation),
            Some(width),
            Some(height),
            Some(tile_width),
            Some(tile_height),
        ) => map_from(
            ts,
            at + 1,
            MapView {
                version,
                orientation,
                width,
                height,
                tile_width,
                tile_height,
                tilesets: Seq::empty(),
                layers: Seq::empty(),
                image_layers: Seq::empty(),
                object_groups: Seq::empty(),
                properties: Map::empty(),
                background_color: attr_color(attrs, "backgroundcolor"@),
                infinite: attr_value(attrs, "infinite"@) == Some("1"@),
                source,
            },
            0,
        ),
        _ => Err(map_needs()),
    }
}

/// The map of a document: that of the first `map` element from `pos` on. Whatever stands
/// before that element is passed over; what stands behind the map is not read.
pub open spec fn document_map(ts: Seq<TokenView>, pos: int, source: Option<Seq<char>>) -> Result<
    MapView,
    Failure,
>
    decreases ts.len() - pos,
{
    if pos < 0 || pos >= ts.len() {
        Err(no_map())
    } else {
        match ts[pos] {
            TokenView::Start { name, .. } => if name == "map"@ {
                match map_at(ts, pos, source) {
                    Ok((map, _)) => Ok(map),
                    Err(f) => Err(f),
                }
            } else {
                document_map(ts, pos + 1, source)
            },
            TokenView::EndDocument => Err(no_map()),
            TokenView::Invalid(e) => Err(Failure::XmlDecodingError(e)),
            _ => document_map(ts, pos + 1, source),
        }
    }
}

/// The index of the first tileset from `from` on that has the tile `gid`.
pub open spec fn tileset_index(tilesets: Seq<TilesetView>, gid: Gid, from: int) -> Option<int>
    decreases tilesets.len() - from,
{
    if from < 0 || from >= tilesets.len() {
        None
    } else if tilesets[from].contains_tile(gid) {
        Some(from)
    } else {
        tileset_index(tilesets, gid, from + 1)
    }
}

/// What a map or an error stands for.
pub open spec fn map_view(r: Result<TiledMap, TiledError>) -> Result<MapView, Failure> {
    match r {
        Ok(m) => Ok(m@),
        Err(e) => Err(e@),
    }
}

/// The model of an optional path.
pub open spec fn path_view(path: Option<&str>) -> Option<Seq<char>> {
    match path {
        Some(p) => Some(p@),
        None => None,
    }
}

impl TiledMap {
    /// Reads the `map` element whose start tag is at `at`, for a document read from `path`.
    pub fn parse_xml(tokens: &Vec<Token>, at: usize, path: Option<&str>) -> (r: Result<
        (TiledMap, usize),
        TiledError,
    >)
        requires
            at < tokens.len(),
            tokens[at as int] is Start,
        ensures
            outcome(r) == map_at(views(tokens@), at as int, path_view(path)),
            r matches Ok((_, next)) ==> at < next <= tokens.len(),
    {
        let ghost ts = views(tokens@);
        let attrs = start_attrs(tokens, at);
        let orientation = match find(attrs, "orientation") {
            Some(v) => match Orientation::from_str(v.as_str()) {
                Ok(o) => Some(o),
                Err(_) => None,
            },
            None => None,
        };
        let needed = (
            get_text(attrs, "version"),
            orientation,
            get_u32(attrs, "width"),
            get_u32(attrs, "height"),
            get_u32(attrs, "tilewidth"),
            get_u32(attrs, "tileheight"),
        );
        let mut map = match needed {
            (
                Some(version),
                Some(orientation),
                Some(width),
                Some(height),
                Some(tile_width),
                Some(tile_height),
            ) => TiledMap {
                version,
                orientation,
                width,
                height,
                tile_width,
                tile_height,
                tilesets: Vec::new(),
                layers: Vec::new(),
                image_layers: Vec::new(),
                object_groups: Vec::new(),
                properties: Properties::new(),
                background_color: get_color(attrs, "backgroundcolor"),
                infinite: match find(attrs, "infinite") {
                    Some(v) => text_is(v.as_str(), "1"),
                    None => false,
                },
                source: match path {
                    Some(p) => Some(p.to_owned()),
                    None => None,
                },
            },
            _ => {
                return Err(
                    TiledError::malformed(
                        "map must have a version, width and height with correct types",
                    ),
                );
            },
        };
        assert(map@.tilesets =~= Seq::empty());
        assert(map@.layers =~= Seq::empty());
        assert(map@.image_layers =~= Seq::empty());
        assert(map@.object_groups =~= Seq::empty());
        let mut count: usize = 0;
        let mut pos: usize = at + 1;
        loop
            invariant
                at < pos,
                count <= pos,
                ts == views(tokens@),
                map_at(ts, at as int, path_view(path)) == map_from(ts, pos as int, map@, count as nat),
            decreases tokens.len() - pos,
        {
            let child = match next_child(tokens, pos, "map") {
                Err(e) => {
                    return Err(e);
                },
                Ok(Found::Closed { next }) => {
                    return Ok((map, next));
                },
                Ok(Found::Child { at: child }) => child,
            };
            let ghost before = map@;
            proof {
                reveal(map_child);
            }
            let name = start_name(tokens, child);
            if text_is(name, "tileset") {
                match Tileset::parse_xml(tokens, child) {
                    Err(e) => {
                        return Err(e);
                    },
                    Ok((tileset, next)) => {
                        let ghost added = tileset@;
                        map.tilesets.push(tileset);
                        assert(map@.tilesets =~= before.tilesets.push(added));
                        pos = next;
                    },
                }
            } else if text_is(name, "properties") {
                match Properties::parse_xml(tokens, child) {
                    Err(e) => {
                        return Err(e);
                    },
                    Ok((properties, next)) => {
                        map.properties = properties;
                        pos = next;
                    },
                }
            } else if text_is(name, "layer") {
                if count > u32::MAX as usize {
                    return Err(TiledError::other("map has too many layers"));
                }
                match Layer::new(tokens, child, count as u32) {
                    Err(e) => {
                        return Err(e);
                    },
                    Ok((layer, next)) => {
                        let ghost added = layer@;
                        map.layers.push(layer);
                        assert(map@.layers =~= before.layers.push(added));
                        count += 1;
                        pos = next;
                    },
                }
            } else if text_is(name, "imagelayer") {
                if count > u32::MAX as usize {
                    return Err(TiledError::other("map has too many layers"));
                }
                match ImageLayer::new(tokens, child, count as u32) {
                    Err(e) => {
                        return Err(e);
                    },
                    Ok((layer, next)) => {
                        let ghost added = layer@;
                        map.image_layers.push(layer);
                        assert(map@.image_layers =~= before.image_layers.push(added));
                        count += 1;
                        pos = next;
                    },
                }
            } else if text_is(name, "objectgroup") {
                if count > u32::MAX as usize {
                    return Err(TiledError::other("map has too many layers"));
                }
                match ObjectGroup::new(tokens, child, Some(count as u32)) {
                    Err(e) => {
                        return Err(e);
                    },
                    Ok((group, next)) => {
                        let ghost added = group@;
                        map.object_groups.push(group);
                        assert(map@.object_groups =~= before.object_groups.push(added));
                        count += 1;
                        pos = next;
                    },
                }
            } else {
                match skip_element(tokens, child, "map") {
                    Err(e) => {
                        return Err(e);
                    },
                    Ok(next) => {
                        pos = next;
                    },
                }
            }
        }
    }

    /// Reads the map of a document from its tokens. `path` says where the document was read
    /// from, if anywhere; it is kept and not looked at.
    pub fn parse_tokens(tokens: &Vec<Token>, path: Option<&str>) -> (r: Result<TiledMap, TiledError>)
        ensures
            map_view(r) == document_map(views(tokens@), 0, path_view(path)),
    {
        let ghost ts = views(tokens@);
        let mut i: usize = 0;
        while i < tokens.len()
            invariant
                ts == views(tokens@),
                document_map(ts, 0, path_view(path)) == document_map(ts, i as int, path_view(path)),
            decreases tokens.len() - i,
        {
            assert(ts[i as int] == tokens@[i as int]@);
            match &tokens[i] {
                Token::Start { name, .. } => {
                    if text_is(name.as_str(), "map") {
                        return match TiledMap::parse_xml(tokens, i, path) {
                            Ok((map, _)) => Ok(map),
                            Err(e) => Err(e),
                        };
                    }
                },
                Token::EndDocument => {
                    return Err(TiledError::premature("Document ended before map was parsed"));
                },
                Token::Invalid(e) => {
                    return Err(TiledError::XmlDecodingError(e.clone()));
                },
                _ => {},
            }
            i += 1;
        }
        Err(TiledError::premature("Document ended before map was parsed"))
    }

    /// Reads the map of the document that `bytes` holds. `path` says where the document was
    /// read from, if anywhere; it is kept and not looked at.
    pub fn parse_reader(bytes: &[u8], path: Option<&str>) -> (r: Result<TiledMap, TiledError>)
        ensures
            map_view(r) == document_map(document_tokens(bytes@), 0, path_view(path)),
    {
        let tokens = read_tokens(bytes);
        TiledMap::parse_tokens(&tokens, path)
    }

    /// The tileset that has the tile `gid`: the first one in the order of the document, if
    /// several do.
    pub fn tileset_by_gid(&self, gid: Gid) -> (r: Option<&Tileset>)
        ensures
            match tileset_index(self@.tilesets, gid, 0) {
                Some(i) => r == Some(&self.tilesets@[i]),
                None => r is None,
            },
    {
        let ghost all = views(self.tilesets@);
        let mut i: usize = 0;
        while i < self.tilesets.len()
            invariant
                all == views(self.tilesets@),
                tileset_index(all, gid, 0) == tileset_index(all, gid, i as int),
            decreases self.tilesets.len() - i,
        {
            assert(all[i as int] == self.tilesets@[i as int]@);
            if self.tilesets[i].contains_tile(gid) {
                return Some(&self.tilesets[i]);
            }
            i += 1;
        }
        None
    }
}

} // verus!
