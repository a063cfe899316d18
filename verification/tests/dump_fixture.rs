use fast_mvt::dump::plain_text;
use fast_mvt::text::{geom_type_label, geometry_lines};
use fast_mvt::{
    MvtCoord, MvtGeometry, MvtPolygon, MvtReaderRef, MvtResult, MvtTileBuilder, MvtValue,
    MvtValueRef,
};

/// A property value as the dump shows it: strings quoted and floats in their
/// shortest form here, the rest as the library renders them.
fn value_text(value: MvtValueRef<'_>) -> String {
    if let Some(text) = plain_text(value) {
        return text;
    }
    match value {
        MvtValueRef::String(v) => format!("{v:?}"),
        MvtValueRef::Float(bits) => format!("{}", f32::from_bits(bits)),
        MvtValueRef::Double(bits) => format!("{}", f64::from_bits(bits)),
        _ => String::new(),
    }
}

fn dump(reader: &MvtReaderRef) -> String {
    let texts: Vec<Vec<Vec<String>>> = reader
        .layers()
        .into_iter()
        .map(|layer| {
            layer
                .features()
                .into_iter()
                .map(|feature| {
                    let mut texts = Vec::new();
                    let mut it = feature.properties();
                    while let Some(p) = it.next() {
                        texts.push(match p {
                            Ok((_, v)) => value_text(v),
                            Err(_) => String::new(),
                        });
                    }
                    texts
                })
                .collect()
        })
        .collect();
    reader.dump_text(&texts)
}

fn c(x: i32, y: i32) -> MvtCoord {
    MvtCoord { x, y }
}

/// Every writable property type and every geometry type, read back: a null
/// tag is dropped, and the line string feature has no id.
#[test]
fn tile_with_every_property_and_geometry_type() -> MvtResult<()> {
    let mut feature = MvtTileBuilder::new()
        .layer("everything")?
        .feature(&MvtGeometry::Point(c(10, 20)))?;
    feature
        .id(Some(1))
        .tag_string("string", "hello".to_string())?
        .tag_float("float", 1.25f32.to_bits())?
        .tag_double("double", 2.5f64.to_bits())?
        .tag_int("int", -3)?
        .tag_uint("uint", 4)?
        .tag_sint("sint", -5)?
        .tag_bool("bool", true)?
        .tag("null", MvtValue::Null)?;
    assert_eq!(feature.num_tags(), 7, "null tag must be dropped, not stored");
    let layer = feature.end();

    let mut feature = layer.feature(&MvtGeometry::MultiPoint(vec![c(1, 2), c(3, 4)]))?;
    feature.id(Some(2));
    let layer = feature.end();

    let layer = layer
        .feature(&MvtGeometry::LineString(vec![c(0, 0), c(5, 5), c(10, 0)]))?
        .end();

    let mut feature = layer.feature(&MvtGeometry::MultiLineString(vec![
        vec![c(0, 0), c(1, 1)],
        vec![c(2, 2), c(3, 3)],
    ]))?;
    feature.id(Some(4));
    let layer = feature.end();

    let polygon = MvtPolygon {
        exterior: vec![c(0, 0), c(10, 0), c(10, 10), c(0, 10), c(0, 0)],
        interiors: vec![vec![c(3, 3), c(3, 6), c(6, 6), c(6, 3), c(3, 3)]],
    };
    let mut feature = layer.feature(&MvtGeometry::Polygon(polygon.clone()))?;
    feature.id(Some(5));
    let layer = feature.end();

    let polygons = vec![
        MvtPolygon {
            exterior: vec![c(0, 0), c(4, 0), c(4, 4), c(0, 4), c(0, 0)],
            interiors: vec![],
        },
        MvtPolygon {
            exterior: vec![c(6, 6), c(9, 6), c(9, 9), c(6, 9), c(6, 6)],
            interiors: vec![],
        },
    ];
    let mut feature = layer.feature(&MvtGeometry::MultiPolygon(polygons.clone()))?;
    feature.id(Some(6));
    let layer = feature.end();

    let bytes = layer.end().encode();

    let reader = MvtReaderRef::new(&bytes)?;
    assert_eq!(reader.layer_count(), 1);
    let layer = reader.layers()[0];
    assert_eq!(layer.name(), "everything");
    assert_eq!(layer.version(), 2);
    assert_eq!(layer.extent(), 4096);
    let features = layer.features();
    assert_eq!(features.len(), 6);

    let ids: Vec<_> = features.iter().map(|f| f.id()).collect();
    assert_eq!(ids, [Some(1), Some(2), None, Some(4), Some(5), Some(6)]);

    let props = features[0].properties_vec()?;
    assert_eq!(
        props,
        vec![
            ("string", MvtValueRef::String("hello")),
            ("float", MvtValueRef::Float(1.25f32.to_bits())),
            ("double", MvtValueRef::Double(2.5f64.to_bits())),
            ("int", MvtValueRef::Int(-3)),
            ("uint", MvtValueRef::UInt(4)),
            ("sint", MvtValueRef::SInt(-5)),
            ("bool", MvtValueRef::Bool(true)),
        ]
    );
    for f in &features[1..] {
        assert!(f.properties_vec()?.is_empty());
    }

    assert_eq!(features[0].geometry()?, MvtGeometry::Point(c(10, 20)));
    assert_eq!(features[1].geometry()?, MvtGeometry::MultiPoint(vec![c(1, 2), c(3, 4)]));
    assert_eq!(
        features[2].geometry()?,
        MvtGeometry::LineString(vec![c(0, 0), c(5, 5), c(10, 0)])
    );
    assert_eq!(
        features[3].geometry()?,
        MvtGeometry::MultiLineString(vec![vec![c(0, 0), c(1, 1)], vec![c(2, 2), c(3, 3)]])
    );
    assert_eq!(features[4].geometry()?, MvtGeometry::Polygon(polygon));
    assert_eq!(features[5].geometry()?, MvtGeometry::MultiPolygon(polygons));

    // The geometry part of the dump.
    let dumped: Vec<(&str, Vec<String>)> = features
        .iter()
        .map(|f| (geom_type_label(f.geom_type()), geometry_lines(&f.geometry().unwrap())))
        .collect();
    assert_eq!(
        dumped,
        vec![
            ("point", vec!["POINT(10,20)".to_string()]),
            ("point", vec!["POINT(1,2)".to_string(), "POINT(3,4)".to_string()]),
            ("linestring", vec!["LINESTRING[count=3](0 0,5 5,10 0)".to_string()]),
            (
                "linestring",
                vec![
                    "LINESTRING[count=2](0 0,1 1)".to_string(),
                    "LINESTRING[count=2](2 2,3 3)".to_string(),
                ]
            ),
            (
                "polygon",
                vec![
                    "RING[count=5](0 0,10 0,10 10,0 10,0 0)[OUTER]".to_string(),
                    "RING[count=5](3 3,3 6,6 6,6 3,3 3)[INNER]".to_string(),
                ]
            ),
            (
                "polygon",
                vec![
                    "RING[count=5](0 0,4 0,4 4,0 4,0 0)[OUTER]".to_string(),
                    "RING[count=5](6 6,9 6,9 9,6 9,6 6)[OUTER]".to_string(),
                ]
            ),
        ]
    );
    assert_eq!(
        dump(&reader),
        r#"layer: 0
  name: everything
  version: 2
  extent: 4096
  feature: 0
    id: 1
    geometry: point
      POINT(10,20)
    properties:
      string = "hello"
      float (float) = 1.25
      double (double) = 2.5
      int (int) = -3
      uint (uint) = 4
      sint (sint) = -5
      bool (bool) = true
  feature: 1
    id: 2
    geometry: point
      POINT(1,2)
      POINT(3,4)
    properties:
  feature: 2
    id: (none)
    geometry: linestring
      LINESTRING[count=3](0 0,5 5,10 0)
    properties:
  feature: 3
    id: 4
    geometry: linestring
      LINESTRING[count=2](0 0,1 1)
      LINESTRING[count=2](2 2,3 3)
    properties:
  feature: 4
    id: 5
    geometry: polygon
      RING[count=5](0 0,10 0,10 10,0 10,0 0)[OUTER]
      RING[count=5](3 3,3 6,6 6,6 3,3 3)[INNER]
    properties:
  feature: 5
    id: 6
    geometry: polygon
      RING[count=5](0 0,4 0,4 4,0 4,0 0)[OUTER]
      RING[count=5](6 6,9 6,9 9,6 9,6 6)[OUTER]
    properties:
"#
    );
    assert_eq!(
        geometry_lines(&MvtGeometry::Point(c(-7, i32::MIN))),
        vec!["POINT(-7,-2147483648)".to_string()]
    );
    Ok(())
}
