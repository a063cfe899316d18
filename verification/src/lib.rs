//! Integer-only Mapbox Vector Tile reading and writing, with the wire format,
//! the geometry command streams and the builders proved against their
//! specifications.
use vstd::prelude::*;

pub mod bridge;
pub mod codec;
pub mod dump;
pub mod error;
pub mod format_laws;
pub mod geometry;
pub mod json;
pub mod geometry_roundtrip;
pub mod proto;
pub mod reader;
pub mod size;
pub mod text;
pub mod roundtrip;
pub mod tile_laws;
pub mod types;
pub mod wire;
pub mod writer;
pub mod writer_laws;

pub use error::{MvtError, MvtJsonValueError, MvtResult};
pub use geometry::{MvtCoord, MvtGeometry, MvtPolygon};
pub use reader::{MvtFeatureRef, MvtLayerRef, MvtPropertyIter, MvtReaderRef, MvtValueRef};
pub use types::{default_extent, MvtExtent, MvtFeature, MvtLayer, MvtTile, MvtValue};
pub use writer::{MvtFeatureBuilder, MvtLayerBuilder, MvtTileBuilder};

verus! {
}
