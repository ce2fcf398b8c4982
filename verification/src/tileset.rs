//! Tilesets: each owns a run of global tile ids.

use vstd::prelude::*;
use crate::attributes::{attr_u32, attr_value, get_text, get_text_or_empty, get_u32, or, text_view};
use crate::dispatch::{outcome, start_attrs};
use crate::error::{Failure, TiledError};
use crate::events::{views, Token, TokenView};
use crate::layers::{contents_from, lemma_contents_from, no_contents, Contents, Image, ImageView};
use crate::properties::Properties;
use crate::tile::Gid;
use crate::values::PropertyValueView;

verus! {

/// A set of tiles. Its tiles have the ids from `first_gid` on, `tile_count` of them.
#[derive(Debug, PartialEq, Eq, Clone)]
pub struct Tileset {
    pub first_gid: Gid,
    pub name: String,
    /// Width of a tile in pixels.
    pub tile_width: u32,
    /// Height of a tile in pixels.
    pub tile_height: u32,
    /// The room between tiles in the picture, in pixels.
    pub spacing: u32,
    /// The room around the tiles in the picture, in pixels.
    pub margin: u32,
    pub tile_count: u32,
    pub columns: u32,
    /// The picture that holds the tiles.
    pub image: Option<Image>,
    pub properties: Properties,
    /// The file that describes the tileset, where the map only refers to it. Such a tileset
    /// is empty until that file has been read.
    pub source: Option<String>,
}

/// The model of a [`Tileset`].
pub struct TilesetView {
    pub first_gid: Gid,
    pub name: Seq<char>,
    pub tile_width: u32,
    pub tile_height: u32,
    pub spacing: u32,
    pub margin: u32,
    pub tile_count: u32,
    pub columns: u32,
    pub image: Option<ImageView>,
    pub properties: Map<Seq<char>, PropertyValueView>,
    pub source: Option<Seq<char>>,
}

impl View for Tileset {
    type V = TilesetView;

    open spec fn view(&self) -> TilesetView {
        TilesetView {
            first_gid: self.first_gid,
            name: self.name@,
            tile_width: self.tile_width,
            tile_height: self.tile_height,
            spacing: self.spacing,
            margin: self.margin,
            tile_count: self.tile_count,
            columns: self.columns,
            image: match self.image {
                Some(i) => Some(i@),
                None => None,
            },
            properties: self.properties@,
            source: text_view(self.source),
        }
    }
}

impl TilesetView {
    /// Whether the tile `gid` is one of this tileset's.
    pub open spec fn contains_tile(self, gid: Gid) -> bool {
        self.first_gid.0 <= gid.0 < self.first_gid.0 + self.tile_count
    }
}

/// The failure of a tileset that lacks what it must have.
pub open spec fn tileset_needs() -> Failure {
    Failure::MalformedAttributes(
        "tileset must have a firstgid, name, tile width and height with correct types"@,
    )
}

/// Whether the attributes of a tileset suffice: the first id, and either a reference to a
/// file or a name and the size of a tile.
pub open spec fn tileset_complete(attrs: Seq<crate::events::AttributeView>) -> bool {
    &&& attr_u32(attrs, "firstgid"@) is Some
    &&& (attr_value(attrs, "source"@) is Some || (attr_value(attrs, "name"@) is Some && attr_u32(
        attrs,
        "tilewidth"@,
    ) is Some && attr_u32(attrs, "tileheight"@) is Some))
}

/// The tileset that the `tileset` element at `at` declares.
pub open spec fn tileset_at(ts: Seq<TokenView>, at: int) -> Result<(TilesetView, int), Failure> {
    let attrs = ts[at]->attrs;
    if !tileset_complete(attrs) {
        Err(tileset_needs())
    } else {
        match contents_from(ts, at + 1, "tileset"@, true, no_contents()) {
            Err(f) => Err(f),
            Ok((contents, next)) => Ok(
                (
                    TilesetView {
                        first_gid: Gid(attr_u32(attrs, "firstgid"@)->0),
                        name: or(attr_value(attrs, "name"@), Seq::empty()),
                        tile_width: or(attr_u32(attrs, "tilewidth"@), 0),
                        tile_height: or(attr_u32(attrs, "tileheight"@), 0),
                        spacing: or(attr_u32(attrs, "spacing"@), 0),
                        margin: or(attr_u32(attrs, "margin"@), 0),
                        tile_count: or(attr_u32(attrs, "tilecount"@), 0),
                        columns: or(attr_u32(attrs, "columns"@), 0),
                        image: contents.image,
                        properties: contents.properties,
                        source: attr_value(attrs, "source"@),
                    },
                    next,
                ),
            ),
        }
    }
}

/// A tileset ends behind its start tag.
pub proof fn lemma_tileset_at(ts: Seq<TokenView>, at: int)
    requires
        0 <= at,
    ensures
        tileset_at(ts, at) matches Ok((_, next)) ==> at < next <= ts.len(),
{
    lemma_contents_from(ts, at + 1, "tileset"@, true, no_contents());
}

/// The number, or nought.
fn or_zero(n: Option<u32>) -> (r: u32)
    ensures
        r == or(n, 0),
{
    match n {
        Some(n) => n,
        None => 0,
    }
}

impl Tileset {
    /// Whether the tile `gid` is one of this tileset's.
    pub fn contains_tile(&self, gid: Gid) -> (r: bool)
        ensures
            r == self@.contains_tile(gid),
    {
        gid.0 >= self.first_gid.0 && gid.0 - self.first_gid.0 < self.tile_count
    }

    /// Reads the `tileset` element whose start tag is at `at`.
    pub fn parse_xml(tokens: &Vec<Token>, at: usize) -> (r: Result<(Tileset, usize), TiledError>)
        requires
            at < tokens.len(),
            tokens[at as int] is Start,
        ensures
            outcome(r) == tileset_at(views(tokens@), at as int),
            r matches Ok((_, next)) ==> at < next <= tokens.len(),
    {
        let attrs = start_attrs(tokens, at);
        let first = get_u32(attrs, "firstgid");
        let source = get_text(attrs, "source");
        let name = get_text(attrs, "name");
        let tile_width = get_u32(attrs, "tilewidth");
        let tile_height = get_u32(attrs, "tileheight");
        let described = name.is_some() && tile_width.is_some() && tile_height.is_some();
        let first_gid = match first {
            Some(n) if source.is_some() || described => Gid(n),
            _ => {
                return Err(
                    TiledError::malformed(
                        "tileset must have a firstgid, name, tile width and height with correct types",
                    ),
                );
            },
        };
        match Contents::read(tokens, at, "tileset", true) {
            Err(e) => Err(e),
            Ok((contents, next)) => Ok(
                (
                    Tileset {
                        first_gid,
                        name: get_text_or_empty(attrs, "name"),
                        tile_width: or_zero(tile_width),
                        tile_height: or_zero(tile_height),
                        spacing: or_zero(get_u32(attrs, "spacing")),
                        margin: or_zero(get_u32(attrs, "margin")),
                        tile_count: or_zero(get_u32(attrs, "tilecount")),
                        columns: or_zero(get_u32(attrs, "columns")),
                        image: contents.image,
                        properties: contents.properties,
                        source,
                    },
                    next,
                ),
            ),
        }
    }
}

} // verus!
