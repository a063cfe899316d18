use fast_mvt::dump::plain_text;
use fast_mvt::codec::encode_tile_into;
use fast_mvt::proto::{Feature, GeomType, Layer, Tile, Value};
use fast_mvt::{
    default_extent, MvtCoord, MvtError, MvtFeatureRef, MvtGeometry, MvtReaderRef, MvtValue,
    MvtValueRef,
};

fn value() -> Value {
    Value {
        string_value: None,
        float_value: None,
        double_value: None,
        int_value: None,
        uint_value: None,
        sint_value: None,
        bool_value: None,
    }
}

fn feature() -> Feature {
    Feature {
        id: None,
        tags: vec![],
        geom_type: None,
        geometry: vec![],
    }
}

fn layer(version: u32, name: &str) -> Layer {
    Layer {
        version,
        name: name.to_string(),
        features: vec![],
        keys: vec![],
        values: vec![],
        extent: None,
    }
}

/// Encodes a single-layer tile.
fn encode_layer(layer: Layer) -> Vec<u8> {
    let mut out = Vec::new();
    encode_tile_into(&mut out, &Tile { layers: vec![layer] });
    out
}

fn reader_from_layer(layer: Layer) -> MvtReaderRef {
    MvtReaderRef::new(&encode_layer(layer)).unwrap()
}

fn first_feature(reader: &MvtReaderRef) -> MvtFeatureRef<'_> {
    reader.layers().into_iter().next().unwrap().features().into_iter().next().unwrap()
}

#[test]
fn borrowed_api_reads_accessors_properties_and_repeated_points() {
    let mut l = layer(3, "places");
    l.keys = ["string", "float", "double", "int", "uint", "sint", "bool", "null"]
        .iter()
        .map(|k| k.to_string())
        .collect();
    l.values = vec![
        Value { string_value: Some("name".into()), ..value() },
        Value { float_value: Some(1.25f32.to_bits()), ..value() },
        Value { double_value: Some(2.5f64.to_bits()), ..value() },
        Value { int_value: Some(-3), ..value() },
        Value { uint_value: Some(4), ..value() },
        Value { sint_value: Some(-5), ..value() },
        Value { bool_value: Some(true), ..value() },
        value(),
    ];
    l.features = vec![Feature {
        id: Some(7),
        tags: (0_u32..8).flat_map(|idx| [idx, idx]).collect(),
        geom_type: Some(GeomType::Point),
        geometry: vec![9, 2, 4, 9, 6, 8],
    }];
    let bytes = encode_layer(l);
    let reader = MvtReaderRef::new(&bytes).unwrap();
    let layer = reader.layers().into_iter().next().unwrap();

    assert_eq!(reader.layer_count(), 1);
    assert_eq!(layer.name(), "places");
    assert_eq!(layer.version(), 3);
    assert_eq!(layer.extent(), default_extent().get());
    assert_eq!(layer.feature_count(), 1);
    assert!(!layer.is_empty());
    assert_eq!(
        layer.keys(),
        ["string", "float", "double", "int", "uint", "sint", "bool", "null"]
    );
    assert_eq!(layer.values().len(), 8);

    let feature = layer.features().into_iter().next().unwrap();
    assert_eq!(feature.id(), Some(7));
    assert!(feature.has_properties());
    assert_eq!(feature.tags(), [0, 0, 1, 1, 2, 2, 3, 3, 4, 4, 5, 5, 6, 6, 7, 7]);
    assert_eq!(feature.geometry_commands(), [9, 2, 4, 9, 6, 8]);
    assert_eq!(feature.geom_type(), Some(GeomType::Point));
    assert_eq!(feature.geom_type_value(), Some(1));

    let properties = feature.properties_vec().unwrap();
    assert_eq!(properties[0].1, MvtValueRef::String("name"));
    assert_eq!(properties[1].1, MvtValueRef::Float(1.25f32.to_bits()));
    assert_eq!(properties[2].1, MvtValueRef::Double(2.5f64.to_bits()));
    assert_eq!(properties[3].1, MvtValueRef::Int(-3));
    assert_eq!(properties[4].1, MvtValueRef::UInt(4));
    assert_eq!(properties[5].1, MvtValueRef::SInt(-5));
    assert_eq!(properties[6].1, MvtValueRef::Bool(true));
    assert_eq!(properties[7].1, MvtValueRef::Null);
    assert_eq!(properties[0].1.into_owned(), MvtValue::String("name".into()));
    assert_eq!(properties[7].1.into_owned(), MvtValue::Null);

    let MvtGeometry::MultiPoint(points) = feature.geometry().unwrap() else {
        panic!("expected multipoint");
    };
    assert_eq!(points.len(), 2);
    assert!(matches!(feature.geometry().unwrap(), MvtGeometry::MultiPoint(_)));
}

#[test]
fn invalid_versions_and_geometry_types_are_errors() {
    let bytes = encode_layer(layer(4, "bad"));
    assert!(matches!(
        MvtReaderRef::new(&bytes),
        Err(MvtError::UnsupportedVersion { version: 4, .. })
    ));

    let f = Feature {
        geom_type: Some(GeomType::Unknown),
        geometry: vec![9, 0, 0],
        ..feature()
    };
    let mut l = layer(2, "geometry");
    l.features = vec![f];
    let bytes = encode_layer(l);
    let reader = MvtReaderRef::new(&bytes).unwrap();
    let feature = first_feature(&reader);
    assert!(matches!(feature.geometry(), Err(MvtError::InvalidGeometry)));
}

#[test]
fn empty_geometries_keep_declared_type() {
    let mut base = layer(2, "empty");
    base.extent = Some(default_extent().get());
    for (geom_type, expected) in [
        (GeomType::Point, MvtGeometry::MultiPoint(vec![])),
        (GeomType::Linestring, MvtGeometry::MultiLineString(vec![])),
        (GeomType::Polygon, MvtGeometry::MultiPolygon(vec![])),
    ] {
        let f = Feature {
            geom_type: Some(geom_type),
            geometry: vec![],
            ..feature()
        };
        let mut l = base.clone();
        l.features = vec![f];
        let reader = reader_from_layer(l);
        let feature = first_feature(&reader);
        assert_eq!(feature.geometry().unwrap(), expected);
    }

    let f = Feature {
        geom_type: Some(GeomType::Unknown),
        geometry: vec![],
        ..feature()
    };
    let mut l = base.clone();
    l.features = vec![f];
    let reader = reader_from_layer(l);
    let feature = first_feature(&reader);
    assert!(!feature.has_properties());
    assert!(matches!(feature.geometry(), Err(MvtError::InvalidGeometry)));
}

#[test]
fn value_ref_type_name_covers_every_variant() {
    assert_eq!(MvtValueRef::String("x").kind_name(), None);
    assert_eq!(MvtValueRef::Float(1.25f32.to_bits()).kind_name(), Some("float"));
    assert_eq!(MvtValueRef::Double(2.5f64.to_bits()).kind_name(), Some("double"));
    assert_eq!(MvtValueRef::Int(-3).kind_name(), Some("int"));
    assert_eq!(MvtValueRef::UInt(4).kind_name(), Some("uint"));
    assert_eq!(MvtValueRef::SInt(-5).kind_name(), Some("sint"));
    assert_eq!(MvtValueRef::Bool(true).kind_name(), Some("bool"));
    assert_eq!(MvtValueRef::Null.kind_name(), Some("null"));
}

#[test]
fn property_iterator_reports_malformed_tags() {
    let mut base = layer(2, "tags");
    base.keys = vec!["k".into()];
    base.values = vec![value()];

    for (tags, expected) in [
        (vec![0], "invalid feature tags length: 1"),
        (vec![1, 0], "invalid key index 1"),
        (vec![0, 1], "invalid value index 1"),
    ] {
        let f = Feature { tags, ..feature() };
        let mut l = base.clone();
        l.features = vec![f];
        let reader = reader_from_layer(l);
        let feature = first_feature(&reader);
        let err = feature.properties().next().unwrap().unwrap_err();
        assert_eq!(err.message(), expected);
    }
}

#[test]
fn property_iterator_reads_pairs_then_ends() {
    let mut l = layer(2, "tags");
    l.keys = vec!["a".into(), "b".into()];
    l.values = vec![Value { uint_value: Some(9), ..value() }];
    l.features = vec![Feature { tags: vec![1, 0, 0, 0], ..feature() }];
    let reader = reader_from_layer(l);
    let feature = first_feature(&reader);
    let mut it = feature.properties();
    assert_eq!(it.next(), Some(Ok(("b", MvtValueRef::UInt(9)))));
    assert_eq!(it.next(), Some(Ok(("a", MvtValueRef::UInt(9)))));
    assert_eq!(it.next(), None);
    assert_eq!(it.next(), None);
}

#[test]
fn reader_rejects_missing_name_and_bad_bytes() {
    let bytes = encode_layer(layer(2, ""));
    assert!(matches!(MvtReaderRef::new(&bytes), Err(MvtError::MissingLayerName)));
    assert!(matches!(MvtReaderRef::new(&[0xff]), Err(MvtError::Decode)));
    let empty = MvtReaderRef::new(&[]).unwrap();
    assert_eq!(empty.layer_count(), 0);
}

#[test]
fn zero_extent_is_an_error_when_owned() {
    let mut l = layer(2, "zero");
    l.extent = Some(0);
    let reader = reader_from_layer(l);
    let layer = reader.layers().into_iter().next().unwrap();
    assert_eq!(layer.extent(), 0);
    assert!(matches!(layer.to_layer(), Err(MvtError::InvalidExtent)));
    assert!(matches!(reader.to_tile(), Err(MvtError::InvalidExtent)));
}

#[test]
fn to_tile_reads_owned_layers_and_features() {
    let mut l = layer(2, "owned");
    l.keys = vec!["k".into()];
    l.values = vec![Value { string_value: Some("v".into()), ..value() }];
    l.features = vec![Feature {
        id: Some(3),
        tags: vec![0, 0],
        geom_type: Some(GeomType::Point),
        geometry: vec![9, 2, 4],
    }];
    let reader = reader_from_layer(l);
    let tile = reader.to_tile().unwrap();
    assert_eq!(tile.layers.len(), 1);
    assert_eq!(tile.layers[0].name, "owned");
    assert_eq!(tile.layers[0].extent.get(), 4096);
    let f = &tile.layers[0].features[0];
    assert_eq!(f.id, Some(3));
    assert_eq!(f.geometry, MvtGeometry::Point(MvtCoord { x: 1, y: 2 }));
    assert_eq!(f.properties, vec![("k".to_string(), MvtValue::String("v".into()))]);
}

#[test]
fn from_reader_writes_default_extent() {
    let reader = reader_from_layer(layer(1, "l"));
    let proto = reader.to_proto();
    assert_eq!(proto.layers[0].extent, None);
    let tile = Tile::from_reader(&reader);
    assert_eq!(tile.layers[0].extent, Some(4096));
    assert_eq!(tile.layers[0].name, "l");
}

#[test]
fn dump_shows_errors_and_separates_layers() {
    let mut bad = layer(2, "bad");
    bad.keys = vec!["k".into()];
    bad.values = vec![Value { bool_value: Some(false), ..value() }];
    bad.features = vec![Feature {
        id: None,
        tags: vec![0, 0, 5, 0, 0],
        geom_type: Some(GeomType::Polygon),
        geometry: vec![9, 0, 0],
    }];
    let mut out = Vec::new();
    encode_tile_into(&mut out, &Tile { layers: vec![layer(1, "first"), bad] });
    let reader = MvtReaderRef::new(&out).unwrap();
    let texts = vec![vec![], vec![vec!["false".to_string(), String::new(), String::new()]]];
    assert_eq!(
        reader.dump_text(&texts),
        [
            "layer: 0\n",
            "  name: first\n",
            "  version: 1\n",
            "  extent: 4096\n",
            "=============================================================\n",
            "layer: 1\n",
            "  name: bad\n",
            "  version: 2\n",
            "  extent: 4096\n",
            "  feature: 0\n",
            "    id: (none)\n",
            "    geometry: <invalid geometry: invalid geometry>\n",
            "    properties:\n",
            "      k (bool) = false\n",
            "      <invalid property: invalid key index 5>\n",
            "      <invalid property: invalid feature tags length: 1>\n",
        ]
        .concat()
    );
}

/// Appends `v` as a protobuf varint.
fn push_varint(out: &mut Vec<u8>, mut v: u64) {
    while v >= 0x80 {
        out.push((v as u8) | 0x80);
        v >>= 7;
    }
    out.push(v as u8);
}

/// `depth` nested groups of field 10, innermost holding one varint field.
fn nested_groups(depth: usize) -> Vec<u8> {
    let mut out = vec![0x53; depth];
    out.extend_from_slice(&[0x08, 0x01]);
    out.extend(std::iter::repeat(0x54).take(depth));
    out
}

/// A tile with one layer named "a" whose payload ends with `extra`.
fn layer_with(extra: &[u8]) -> Vec<u8> {
    let mut payload = vec![0x78, 0x02, 0x0a, 0x01, b'a'];
    payload.extend_from_slice(extra);
    let mut out = vec![0x1a];
    push_varint(&mut out, payload.len() as u64);
    out.extend_from_slice(&payload);
    out
}

#[test]
fn unknown_groups_are_skipped_up_to_the_nesting_limit() {
    let mut bytes = nested_groups(1);
    bytes.extend(encode_layer(layer(2, "roads")));
    let reader = MvtReaderRef::new(&bytes).unwrap();
    assert_eq!(reader.layer_count(), 1);

    // An end tag for another field, a missing end tag, and a stray end tag.
    assert!(matches!(MvtReaderRef::new(&[0x53, 0x5c]), Err(MvtError::Decode)));
    assert!(matches!(MvtReaderRef::new(&[0x53, 0x08, 0x01]), Err(MvtError::Decode)));
    assert!(matches!(MvtReaderRef::new(&[0x54]), Err(MvtError::Decode)));

    // A tile lets groups nest a hundred deep, a layer one level less.
    assert_eq!(MvtReaderRef::new(&nested_groups(100)).unwrap().layer_count(), 0);
    assert!(matches!(MvtReaderRef::new(&nested_groups(101)), Err(MvtError::Decode)));
    assert_eq!(MvtReaderRef::new(&layer_with(&nested_groups(99))).unwrap().layer_count(), 1);
    assert!(matches!(
        MvtReaderRef::new(&layer_with(&nested_groups(100))),
        Err(MvtError::Decode)
    ));
}

#[test]
fn plain_value_texts_match_rust_formatting() {
    for v in [0i64, 7, -7, i64::MAX, i64::MIN] {
        assert_eq!(plain_text(MvtValueRef::Int(v)), Some(format!("{v}")));
        assert_eq!(plain_text(MvtValueRef::SInt(v)), Some(format!("{v}")));
    }
    assert_eq!(plain_text(MvtValueRef::UInt(u64::MAX)), Some(format!("{}", u64::MAX)));
    assert_eq!(plain_text(MvtValueRef::Bool(false)), Some("false".to_string()));
    assert_eq!(plain_text(MvtValueRef::Null), Some("null".to_string()));
    assert_eq!(plain_text(MvtValueRef::String("s")), None);
    assert_eq!(plain_text(MvtValueRef::Double(0)), None);
}

#[test]
fn value_equality_follows_kind_and_payload() {
    let nan32 = f32::NAN.to_bits();
    let nan64 = f64::NAN.to_bits();
    assert_eq!(MvtValue::Float(nan32), MvtValue::Float(nan32));
    assert_eq!(MvtValue::Double(nan64), MvtValue::Double(nan64));
    assert_ne!(MvtValue::Double(0.0f64.to_bits()), MvtValue::Double((-0.0f64).to_bits()));
    assert_ne!(MvtValue::Int(1), MvtValue::SInt(1));
    assert_eq!(MvtValue::String("a".into()), MvtValue::String("a".into()));
    assert_ne!(MvtValue::String("a".into()), MvtValue::String("b".into()));

    assert_ne!(MvtValueRef::Float(nan32), MvtValueRef::Float(nan32));
    assert_ne!(MvtValueRef::Double(nan64), MvtValueRef::Double(nan64));
    assert_eq!(MvtValueRef::Float(0.0f32.to_bits()), MvtValueRef::Float((-0.0f32).to_bits()));
    assert_eq!(MvtValueRef::Double(0.0f64.to_bits()), MvtValueRef::Double((-0.0f64).to_bits()));
    assert_eq!(MvtValueRef::Double(1.5f64.to_bits()), MvtValueRef::Double(1.5f64.to_bits()));
    assert_ne!(MvtValueRef::Float(1.0f32.to_bits()), MvtValueRef::Float(2.0f32.to_bits()));
    assert_ne!(MvtValueRef::Int(1), MvtValueRef::SInt(1));
    assert_eq!(MvtValueRef::String("é"), MvtValueRef::String("é"));
    assert_ne!(MvtValueRef::String("a"), MvtValueRef::String("ab"));
}
