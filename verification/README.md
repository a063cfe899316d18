# fast_mvt

An integer-only Mapbox Vector Tile reader and writer, verified with Verus.

- `src/wire.rs`, `src/proto.rs`, `src/codec.rs`: the protobuf wire format and
  the vector tile messages, with decoding and encoding proved against one
  specification (`src/roundtrip.rs` proves that decoding the bytes of a tile
  gives the tile back).
- `src/geometry.rs`: geometry command streams; `src/geometry_roundtrip.rs`
  proves that a written geometry reads back as itself.
- `src/reader.rs`: the borrowed reader (`MvtReaderRef`, `MvtLayerRef`,
  `MvtFeatureRef`, `MvtPropertyIter`).
- `src/writer.rs`: the builders (`MvtTileBuilder`, `MvtLayerBuilder`,
  `MvtFeatureBuilder`), which intern each layer's keys and values.
- `src/writer_laws.rs`, `src/tile_laws.rs`: what holds across calls: layer
  chunks concatenate into a tile, a tag reads back as its property, a tile
  the reader gave can be written again, and a tile read back from written
  bytes is written again as the same bytes.
- `src/size.rs`: the encoded size of a message, computed without encoding it.
- `src/types.rs`, `src/error.rs`, `src/text.rs`: the owned tile model, errors
  and their messages, and the text of geometries in a dump.
- `src/dump.rs`: the human-readable dump of a tile, layer or feature, given
  the text of each property value.
- `src/json.rs`: what a property value's JSON form is built from, which
  property value each kind of JSON value becomes, and what a value comes
  back as after a trip through JSON.
- `src/bridge.rs`: the calls into `buffa` (string fields, skipping unknown
  groups), `dup-indexer` and `usize_cast`, with the contracts the rest
  relies on.
- `app/`: the `mvt` command line tool, the text of property values (floats
  and quoted strings) for the dump, and conversions to and from `geo-types`
  geometries and `serde_json` values.
