use fast_mvt::writer::encode_tile;
use fast_mvt::{
    default_extent, MvtCoord, MvtError, MvtFeature, MvtGeometry, MvtJsonValueError, MvtLayer,
    MvtLayerBuilder, MvtPolygon, MvtReaderRef, MvtTile, MvtTileBuilder, MvtValue,
};

fn c(x: i32, y: i32) -> MvtCoord {
    MvtCoord { x, y }
}

fn round_trip(tile: MvtTile) -> (Vec<u8>, MvtTile) {
    let bytes = encode_tile(tile).unwrap();
    let back = MvtReaderRef::new(&bytes).unwrap().to_tile().unwrap();
    (bytes, back)
}

#[test]
fn layer_chunks_concatenate_into_the_tile() {
    let chunk = |name: &str, x: i32| {
        let mut f = MvtLayerBuilder::new(name)
            .unwrap()
            .feature(&MvtGeometry::Point(c(x, x)))
            .unwrap();
        f.tag_uint("n", x as u64).unwrap();
        f.end().encode()
    };
    let whole = {
        let mut f = MvtTileBuilder::new()
            .layer("a")
            .unwrap()
            .feature(&MvtGeometry::Point(c(1, 1)))
            .unwrap();
        f.tag_uint("n", 1).unwrap();
        let mut f = f.end().layer("b").unwrap().feature(&MvtGeometry::Point(c(2, 2))).unwrap();
        f.tag_uint("n", 2).unwrap();
        f.end().encode()
    };
    assert_eq!([chunk("a", 1), chunk("b", 2)].concat(), whole);
}

#[test]
fn second_round_trip_changes_nothing() {
    let mut feature = MvtFeature::new(MvtGeometry::MultiPoint(vec![c(3, 4)]));
    feature.add_tag("gone".to_string(), MvtValue::Null);
    feature.add_tag_sint("s".to_string(), -9);
    let mut layer = MvtLayer::new("l".to_string(), default_extent());
    layer.add_feature(feature);
    // The second polygon winds the other way, so it reads back as a hole.
    let outer = MvtPolygon {
        exterior: vec![c(0, 0), c(10, 0), c(10, 10), c(0, 10), c(0, 0)],
        interiors: vec![],
    };
    let inner = MvtPolygon {
        exterior: vec![c(3, 3), c(3, 6), c(6, 6), c(6, 3), c(3, 3)],
        interiors: vec![],
    };
    layer.add_feature(MvtFeature::new(MvtGeometry::MultiPolygon(vec![outer.clone(), inner.clone()])));
    let mut tile = MvtTile::new();
    tile.add_layer(layer);

    let (bytes1, once) = round_trip(tile.clone());
    assert_ne!(once, tile);
    let f0 = &once.layers[0].features[0];
    assert_eq!(f0.geometry, MvtGeometry::Point(c(3, 4)));
    assert_eq!(f0.properties, vec![("s".to_string(), MvtValue::SInt(-9))]);
    let f1 = &once.layers[0].features[1];
    assert_eq!(
        f1.geometry,
        MvtGeometry::Polygon(MvtPolygon { exterior: outer.exterior, interiors: vec![inner.exterior] })
    );

    let (bytes2, twice) = round_trip(once.clone());
    assert_eq!(twice, once);
    assert_eq!(bytes2, bytes1);
}

#[test]
fn tag_reads_back_in_order_with_shared_entries() {
    let mut f = MvtTileBuilder::new()
        .layer("l")
        .unwrap()
        .feature(&MvtGeometry::Point(c(0, 0)))
        .unwrap();
    f.tag_string("a", "x".to_string()).unwrap();
    f.tag("skip", MvtValue::Null).unwrap();
    f.tag_bool("b", false).unwrap();
    f.tag_string("a", "x".to_string()).unwrap();
    assert_eq!(f.num_tags(), 3);
    let bytes = f.end().encode();
    let reader = MvtReaderRef::new(&bytes).unwrap();
    let proto = reader.to_proto();
    assert_eq!(proto.layers[0].keys, vec!["a", "b"]);
    assert_eq!(proto.layers[0].values.len(), 2);
    let props = reader.layers()[0].features()[0].properties_vec().unwrap();
    assert_eq!(props.len(), 3);
    assert_eq!(props[0].0, "a");
    assert_eq!(props[1].0, "b");
    assert_eq!(props[2].0, "a");
}

#[test]
fn error_messages() {
    assert_eq!(MvtError::Decode.message(), "failed to decode vector tile");
    assert_eq!(MvtError::MissingLayerName.message(), "layer has no name");
    assert_eq!(
        MvtError::UnsupportedVersion { layer: "roads".to_string(), version: 40 }.message(),
        "unsupported version 40 of layer roads"
    );
    assert_eq!(MvtError::InvalidExtent.message(), "invalid layer extent: 0");
    assert_eq!(MvtError::InvalidGeometry.message(), "invalid geometry");
    assert_eq!(MvtError::InvalidTagsLength(0).message(), "invalid feature tags length: 0");
    assert_eq!(MvtError::InvalidKeyIndex(4294967295).message(), "invalid key index 4294967295");
    assert_eq!(MvtError::InvalidValueIndex(109).message(), "invalid value index 109");
    assert_eq!(
        MvtError::IndexOverflow(4294967296).message(),
        "index does not fit in 32 bits: 4294967296"
    );
    assert_eq!(MvtJsonValueError::InvalidJsonNumber.message(), "invalid JSON number");
    assert_eq!(
        MvtJsonValueError::NonFiniteFloat.message(),
        "non-finite float cannot be represented as JSON"
    );
}

#[test]
fn geometries_that_cannot_be_written_are_refused() {
    let layer = || MvtTileBuilder::new().layer("l").unwrap();
    let open_ring = MvtPolygon {
        exterior: vec![c(0, 0), c(1, 0), c(1, 1), c(0, 1)],
        interiors: vec![],
    };
    assert!(matches!(
        layer().feature(&MvtGeometry::Polygon(open_ring)),
        Err(MvtError::InvalidGeometry)
    ));
    assert!(matches!(
        layer().feature(&MvtGeometry::MultiLineString(vec![vec![c(0, 0)]])),
        Err(MvtError::InvalidGeometry)
    ));
    assert!(layer().feature(&MvtGeometry::MultiPoint(vec![])).is_ok());
}

#[test]
fn extreme_coordinates_round_trip() {
    let line = vec![c(i32::MIN, i32::MAX), c(i32::MAX, i32::MIN), c(0, 0)];
    let mut f = MvtLayerBuilder::new("l")
        .unwrap()
        .feature(&MvtGeometry::LineString(line.clone()))
        .unwrap();
    f.id(Some(u64::MAX));
    let bytes = f.end().encode();
    let reader = MvtReaderRef::new(&bytes).unwrap();
    let feature = reader.layers()[0].features()[0];
    assert_eq!(feature.id(), Some(u64::MAX));
    assert_eq!(feature.geometry().unwrap(), MvtGeometry::LineString(line));
}
