//! A reader for tile maps in the XML dialect of the Tiled editor.
//!
//! A document is first cut into [`Token`]s by the `xml` crate ([`events`]). Everything after
//! that is verified code on plain values:
//!
//! - [`attributes`] pulls named values out of the attributes of one element;
//! - [`dispatch`] walks the children of an element, passes over those that the parser of the
//!   element does not know, and finds the end of the element;
//! - [`properties`], [`shapes`], [`objects`], [`layers`] and [`tileset`] each read one kind of
//!   entity from its element;
//! - [`map`] finds the `map` element of a document and assembles the [`TiledMap`].
//!
//! Each parser has a contract that states its result as a function of the tokens. [`laws`]
//! holds what follows from those functions for every document.
//!
//! Numbers with a fraction are kept as the text that spells them ([`Decimal`]).

pub mod attributes;
pub mod decimal;
pub mod dispatch;
pub mod error;
pub mod events;
pub mod laws;
pub mod layers;
pub mod locality;
pub mod map;
pub mod objects;
pub mod points;
pub mod properties;
pub mod shapes;
pub mod text;
pub mod tile;
pub mod tileset;
pub mod values;

pub use decimal::Decimal;
pub use error::{DecodeError, ParseTileError, TiledError};
pub use events::{read_tokens, Attribute, Token};
pub use layers::{Image, ImageLayer, Layer};
pub use map::{Orientation, TiledMap};
pub use objects::{Object, ObjectGroup};
pub use points::parse_points;
pub use properties::{Properties, Property};
pub use shapes::{HorizontalAlignment, ObjectShape, VerticalAlignment};
pub use text::{parse_i32, parse_u32, parse_usize};
pub use tile::Gid;
pub use tileset::Tileset;
pub use values::{Color, PropertyValue};
