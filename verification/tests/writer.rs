use fast_mvt::codec::{empty_value, encode_feature_into, encode_tile_into, encode_value_into};
use fast_mvt::size::{feature_size, tile_size, value_size, varint_len};
use fast_mvt::writer::{encode_tile, encode_tile_ref, value_to_proto};
use fast_mvt::{
    default_extent, MvtCoord, MvtError, MvtFeature, MvtGeometry, MvtLayer, MvtLayerBuilder,
    MvtReaderRef, MvtResult, MvtTile, MvtTileBuilder, MvtValue, MvtValueRef,
};

fn point(x: i32, y: i32) -> MvtGeometry {
    MvtGeometry::Point(MvtCoord { x, y })
}

fn value_len(v: MvtValue) -> usize {
    let mut out = Vec::new();
    encode_value_into(&mut out, &value_to_proto(v));
    out.len()
}

#[test]
fn layer_builder_deduplicates_keys_and_values() {
    let layer = MvtTileBuilder::new().layer("layer").unwrap();
    let mut feature = layer.feature(&point(1, 2)).unwrap();
    feature.tag("foo", MvtValue::String("bar".into())).unwrap();
    feature.tag("foo", MvtValue::String("baz".into())).unwrap();
    feature.tag("bar", MvtValue::String("bar".into())).unwrap();
    feature.tag("n", MvtValue::Int(1)).unwrap();
    feature.tag("n", MvtValue::SInt(1)).unwrap();
    feature.tag("f", MvtValue::Float(f32::NAN.to_bits())).unwrap();
    feature.tag("f", MvtValue::Float(f32::NAN.to_bits())).unwrap();

    let bytes = feature.end().encode();
    let reader = MvtReaderRef::new(&bytes).unwrap();
    let layer = reader.layers().into_iter().next().unwrap();
    let feature = layer.features().into_iter().next().unwrap();
    assert_eq!(feature.tags(), vec![0, 0, 0, 1, 1, 0, 2, 2, 2, 3, 3, 4, 3, 4]);
}

#[test]
fn encode_appends_and_validates_tile_metadata() {
    let tile = MvtTileBuilder::new();
    let layer = tile.layer("layer").unwrap();
    let mut feature = layer.feature(&point(1, 2)).unwrap();
    feature.id(Some(1));
    feature.tag("skip", MvtValue::Null).unwrap();
    let layer = feature.end();
    let bytes = layer.end().encode();
    let proto = MvtReaderRef::new(&bytes).unwrap().to_proto();
    assert!(proto.layers[0].keys.is_empty());
    assert!(proto.layers[0].features[0].tags.is_empty());

    let tile = MvtTileBuilder::new();
    let layer = tile.layer("layer").unwrap();
    let mut feature = layer.feature(&point(1, 2)).unwrap();
    feature.id(Some(1));
    let layer = feature.end();
    let tile = layer.end();
    let mut out = vec![0xaa];
    out.extend_from_slice(&tile.encode());
    assert_eq!(out[0], 0xaa);

    let tile = MvtTileBuilder::new();
    let tile = tile.layer("same").unwrap().end();
    let tile = tile.layer("same").unwrap().end();
    assert!(!tile.encode().is_empty());
}

#[test]
fn encode_ref_matches_owned_encode() {
    let mut feature = MvtFeature::new(point(1, 2));
    feature.set_id(7);
    feature.add_tag_string("name".to_string(), "Example".to_string());
    feature.add_tag_bool("visible".to_string(), true);

    let mut layer = MvtLayer::new("places".to_string(), default_extent());
    layer.add_feature(feature);

    let mut tile = MvtTile::new();
    tile.add_layer(layer);

    assert_eq!(encode_tile(tile.clone()).unwrap(), encode_tile_ref(&tile).unwrap());
}

#[test]
fn standalone_layer_encode_matches_tile_path_and_concatenates() {
    let build = |name| -> MvtResult<Vec<u8>> {
        let mut feature = MvtLayerBuilder::new(name)?.feature(&point(1, 2))?;
        feature.tag("k", MvtValue::UInt(1))?;
        Ok(feature.end().encode())
    };

    // A standalone layer buffer equals the same layer built via the tile path.
    let via_tile = MvtTileBuilder::new()
        .layer("roads")
        .unwrap()
        .feature(&point(1, 2))
        .unwrap();
    let mut via_tile = via_tile;
    via_tile.tag("k", MvtValue::UInt(1)).unwrap();
    let via_tile = via_tile.end().end().encode();
    assert_eq!(build("roads").unwrap(), via_tile);

    // Concatenated layer buffers form a valid multi-layer tile.
    let tile = [build("roads").unwrap(), build("water").unwrap()].concat();
    let reader = MvtReaderRef::new(&tile).unwrap();
    let names: Vec<_> = reader.layers().iter().map(|l| l.name().to_string()).collect();
    assert_eq!(names, ["roads", "water"]);
}

#[test]
fn layer_builder_chains_to_next_layer() -> MvtResult<()> {
    let chained = MvtLayerBuilder::new("roads")?
        .feature(&point(1, 2))?
        .end()
        .layer("water")?
        .feature(&point(3, 4))?
        .end()
        .encode();

    let reader = MvtReaderRef::new(&chained)?;
    let names: Vec<_> = reader.layers().iter().map(|l| l.name().to_string()).collect();
    assert_eq!(names, ["roads", "water"]);
    Ok(())
}

#[test]
fn layer_builder_chain_rejects_empty_name() {
    let layer = MvtLayerBuilder::new("roads").unwrap();
    assert!(matches!(layer.layer(""), Err(MvtError::MissingLayerName)));
}

#[test]
fn standalone_layer_builder_rejects_empty_name() {
    assert!(matches!(MvtLayerBuilder::new(""), Err(MvtError::MissingLayerName)));
    assert!(matches!(
        MvtLayerBuilder::with_capacity("", 1),
        Err(MvtError::MissingLayerName)
    ));
}

#[test]
fn layer_builder_rejects_empty_name() {
    assert!(matches!(MvtTileBuilder::new().layer(""), Err(MvtError::MissingLayerName)));
    assert!(matches!(
        MvtTileBuilder::new().layer_with_capacity("", 1),
        Err(MvtError::MissingLayerName)
    ));
}

#[test]
fn builder_encoded_len_matches_encoded_bytes() {
    let builder = MvtTileBuilder::new()
        .layer("l")
        .unwrap()
        .feature(&point(1, 2))
        .unwrap()
        .end()
        .end();
    let len = builder.encoded_len();
    assert_eq!(len, builder.encode().len());
}

#[test]
fn layer_builder_accepts_feature_capacity() {
    let layer = MvtTileBuilder::new().layer_with_capacity("layer", 2).unwrap();
    assert_eq!(layer.feature_capacity(), 2);
}

#[test]
fn tag_auto_int_round_trips_through_reader() {
    let tile = MvtTileBuilder::new();
    let layer = tile.layer("l").unwrap();
    let mut feature = layer.feature(&point(1, 2)).unwrap();
    feature.tag_auto_int("pos", i64::from(100_i32)).unwrap();
    feature.tag_auto_int("neg", i64::from(-100_i16)).unwrap();
    feature.tag_auto_int("zero", 0_i64).unwrap();
    let bytes = feature.end().end().encode();

    let reader = MvtReaderRef::new(&bytes).unwrap();
    let layers = reader.layers();
    let layer = layers.into_iter().next().unwrap();
    let feature = layer.features().into_iter().next().unwrap();
    let props = feature.properties_vec().unwrap();

    // Non-negative -> UInt, negative -> SInt.
    assert_eq!(props[0].0, "pos");
    assert_eq!(props[0].1, MvtValueRef::UInt(100));
    assert_eq!(props[1].0, "neg");
    assert_eq!(props[1].1, MvtValueRef::SInt(-100));
    assert_eq!(props[2].0, "zero");
    assert_eq!(props[2].1, MvtValueRef::UInt(0));
}

#[test]
fn auto_int_is_never_larger_than_int_or_sint() {
    for v in [0_i64, 1, 63, 64, 127, 128, -1, -64, -100, i64::MIN, i64::MAX] {
        let auto = value_len(MvtValue::auto_int(v));
        let int = value_len(MvtValue::Int(v));
        let sint = value_len(MvtValue::SInt(v));
        assert!(auto <= int, "v={v}: auto {auto} > int {int}");
        assert!(auto <= sint, "v={v}: auto {auto} > sint {sint}");
    }
}

#[test]
fn value_to_proto_handles_all_variants() {
    assert_eq!(
        value_to_proto(MvtValue::String("x".into())).string_value.as_deref(),
        Some("x")
    );
    assert_eq!(
        value_to_proto(MvtValue::Float(1.0f32.to_bits())).float_value,
        Some(1.0f32.to_bits())
    );
    assert_eq!(
        value_to_proto(MvtValue::Double(2.0f64.to_bits())).double_value,
        Some(2.0f64.to_bits())
    );
    assert_eq!(value_to_proto(MvtValue::Int(-3)).int_value, Some(-3));
    assert_eq!(value_to_proto(MvtValue::UInt(4)).uint_value, Some(4));
    assert_eq!(value_to_proto(MvtValue::SInt(-5)).sint_value, Some(-5));
    assert_eq!(value_to_proto(MvtValue::Bool(true)).bool_value, Some(true));
    assert_eq!(value_to_proto(MvtValue::Null), empty_value());
}

#[test]
fn encode_tile_reports_the_first_error() {
    let mut tile = MvtTile::new();
    tile.add_layer(MvtLayer::new(String::new(), default_extent()));
    assert!(matches!(encode_tile(tile), Err(MvtError::MissingLayerName)));

    let mut layer = MvtLayer::new("l".to_string(), default_extent());
    layer.add_feature(MvtFeature::new(MvtGeometry::LineString(vec![MvtCoord { x: 0, y: 0 }])));
    let mut tile = MvtTile::new();
    tile.add_layer(layer);
    assert!(matches!(tile.encode(), Err(MvtError::InvalidGeometry)));
}

#[test]
fn owned_tile_round_trips_through_reader() {
    let mut feature = MvtFeature::new(MvtGeometry::LineString(vec![
        MvtCoord { x: 0, y: 0 },
        MvtCoord { x: 5, y: 5 },
        MvtCoord { x: 10, y: 0 },
    ]));
    feature.set_id(9);
    feature.add_tag_int("a".to_string(), -7);
    feature.add_tag_string("b".to_string(), "x".to_string());
    feature.add_tag_int("c".to_string(), -7);
    let mut layer = MvtLayer::new("lines".to_string(), fast_mvt::MvtExtent::new(512).unwrap());
    layer.add_feature(feature);
    let mut tile = MvtTile::new();
    tile.add_layer(layer);

    let bytes = tile.clone().encode().unwrap();
    let back = MvtReaderRef::new(&bytes).unwrap().to_tile().unwrap();
    assert_eq!(back, tile);
    let proto = MvtReaderRef::new(&bytes).unwrap().to_proto();
    assert_eq!(proto.layers[0].keys, vec!["a", "b", "c"]);
    assert_eq!(proto.layers[0].values.len(), 2);
    assert_eq!(proto.layers[0].features[0].tags, vec![0, 0, 1, 1, 2, 0]);
}

#[test]
fn computed_sizes_match_encodings() {
    for v in [
        MvtValue::String("ü-text".into()),
        MvtValue::Float(1.5f32.to_bits()),
        MvtValue::Double(2.5f64.to_bits()),
        MvtValue::Int(-1),
        MvtValue::UInt(300),
        MvtValue::SInt(i64::MIN),
        MvtValue::Bool(false),
        MvtValue::Null,
    ] {
        let proto = value_to_proto(v.clone());
        assert_eq!(value_size(&proto) as usize, value_len(v));
    }
    assert_eq!(varint_len(0), 1);
    assert_eq!(varint_len(127), 1);
    assert_eq!(varint_len(128), 2);
    assert_eq!(varint_len(u64::MAX), 10);

    let mut f = MvtTileBuilder::new().layer("sizes").unwrap().feature(&point(-5, 70000)).unwrap();
    f.id(Some(1 << 40)).tag_string("k", "v".to_string()).unwrap();
    let bytes = f.end().encode();
    let proto = MvtReaderRef::new(&bytes).unwrap().to_proto();
    assert_eq!(tile_size(&proto) as usize, bytes.len());
    let mut out = Vec::new();
    encode_tile_into(&mut out, &proto);
    assert_eq!(out, bytes);
    let feature = &proto.layers[0].features[0];
    let mut fout = Vec::new();
    encode_feature_into(&mut fout, feature);
    assert_eq!(feature_size(feature) as usize, fout.len());
}
