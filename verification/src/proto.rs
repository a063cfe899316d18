//! The vector tile protobuf messages, their models, and their wire encoding.
use vstd::prelude::*;
use vstd::utf8::*;

use crate::wire::{
    as_i64, as_u64, decode_fields, fields_bytes, low32, packed_bytes, parse_packed, zigzag_decode,
    zigzag_encode, WireField, WireValue,
};

verus! {

/// The geometry type that a feature declares.
#[derive(Clone, Copy, Debug, PartialEq, Eq, Structural)]
pub enum GeomType {
    Unknown,
    Point,
    Linestring,
    Polygon,
}

/// The enum number of a geometry type.
pub open spec fn geom_type_code(t: GeomType) -> nat {
    match t {
        GeomType::Unknown => 0,
        GeomType::Point => 1,
        GeomType::Linestring => 2,
        GeomType::Polygon => 3,
    }
}

/// The geometry type with a given enum number, if there is one.
pub open spec fn geom_type_from_code(c: nat) -> Option<GeomType> {
    if c == 0 {
        Some(GeomType::Unknown)
    } else if c == 1 {
        Some(GeomType::Point)
    } else if c == 2 {
        Some(GeomType::Linestring)
    } else if c == 3 {
        Some(GeomType::Polygon)
    } else {
        None
    }
}

impl GeomType {
    /// The enum number of this geometry type.
    pub fn to_i32(self) -> (r: i32)
        ensures
            r == geom_type_code(self),
    {
        match self {
            GeomType::Unknown => 0,
            GeomType::Point => 1,
            GeomType::Linestring => 2,
            GeomType::Polygon => 3,
        }
    }

    /// The geometry type with enum number `v`, if there is one.
    pub fn from_i32(v: i32) -> (r: Option<GeomType>)
        ensures
            r == (if v >= 0 { geom_type_from_code(v as nat) } else { None::<GeomType> }),
    {
        if v == 0 {
            Some(GeomType::Unknown)
        } else if v == 1 {
            Some(GeomType::Point)
        } else if v == 2 {
            Some(GeomType::Linestring)
        } else if v == 3 {
            Some(GeomType::Polygon)
        } else {
            None
        }
    }
}

/// A property value as the wire carries it: one optional field per type.
/// Floating-point values are kept as their IEEE-754 bit patterns.
#[derive(Clone, Debug, PartialEq)]
pub struct Value {
    pub string_value: Option<String>,
    pub float_value: Option<u32>,
    pub double_value: Option<u64>,
    pub int_value: Option<i64>,
    pub uint_value: Option<u64>,
    pub sint_value: Option<i64>,
    pub bool_value: Option<bool>,
}

/// A feature as the wire carries it.
#[derive(Clone, Debug, PartialEq)]
pub struct Feature {
    pub id: Option<u64>,
    pub tags: Vec<u32>,
    pub geom_type: Option<GeomType>,
    pub geometry: Vec<u32>,
}

/// A layer as the wire carries it.
#[derive(Clone, Debug, PartialEq)]
pub struct Layer {
    pub version: u32,
    pub name: String,
    pub features: Vec<Feature>,
    pub keys: Vec<String>,
    pub values: Vec<Value>,
    pub extent: Option<u32>,
}

/// A tile: a list of layers.
#[derive(Clone, Debug, PartialEq)]
pub struct Tile {
    pub layers: Vec<Layer>,
}

/// The model of a [`Value`]: strings as their characters.
pub struct ValueModel {
    pub string_value: Option<Seq<char>>,
    pub float_value: Option<u32>,
    pub double_value: Option<u64>,
    pub int_value: Option<i64>,
    pub uint_value: Option<u64>,
    pub sint_value: Option<i64>,
    pub bool_value: Option<bool>,
}

/// The model of a [`Feature`].
pub struct FeatureModel {
    pub id: Option<u64>,
    pub tags: Seq<u32>,
    pub geom_type: Option<GeomType>,
    pub geometry: Seq<u32>,
}

/// The model of a [`Layer`].
pub struct LayerModel {
    pub version: u32,
    pub name: Seq<char>,
    pub features: Seq<FeatureModel>,
    pub keys: Seq<Seq<char>>,
    pub values: Seq<ValueModel>,
    pub extent: Option<u32>,
}

/// The model of a [`Tile`].
pub struct TileModel {
    pub layers: Seq<LayerModel>,
}

/// The characters of an optional string.
pub open spec fn opt_chars(s: Option<String>) -> Option<Seq<char>> {
    match s {
        Some(s) => Some(s@),
        None => None,
    }
}

impl View for Value {
    type V = ValueModel;

    open spec fn view(&self) -> ValueModel {
        ValueModel {
            string_value: opt_chars(self.string_value),
            float_value: self.float_value,
            double_value: self.double_value,
            int_value: self.int_value,
            uint_value: self.uint_value,
            sint_value: self.sint_value,
            bool_value: self.bool_value,
        }
    }
}

impl View for Feature {
    type V = FeatureModel;

    open spec fn view(&self) -> FeatureModel {
        FeatureModel {
            id: self.id,
            tags: self.tags@,
            geom_type: self.geom_type,
            geometry: self.geometry@,
        }
    }
}

/// The models of a list of features.
pub open spec fn features_model(fs: Seq<Feature>) -> Seq<FeatureModel> {
    Seq::new(fs.len(), |i: int| fs[i]@)
}

/// The characters of a list of strings.
pub open spec fn strings_model(ks: Seq<String>) -> Seq<Seq<char>> {
    Seq::new(ks.len(), |i: int| ks[i]@)
}

/// The models of a list of values.
pub open spec fn values_model(vs: Seq<Value>) -> Seq<ValueModel> {
    Seq::new(vs.len(), |i: int| vs[i]@)
}

impl View for Layer {
    type V = LayerModel;

    open spec fn view(&self) -> LayerModel {
        LayerModel {
            version: self.version,
            name: self.name@,
            features: features_model(self.features@),
            keys: strings_model(self.keys@),
            values: values_model(self.values@),
            extent: self.extent,
        }
    }
}

/// The models of a list of layers.
pub open spec fn layers_model(ls: Seq<Layer>) -> Seq<LayerModel> {
    Seq::new(ls.len(), |i: int| ls[i]@)
}

impl View for Tile {
    type V = TileModel;

    open spec fn view(&self) -> TileModel {
        TileModel { layers: layers_model(self.layers@) }
    }
}

// ----- decoding -----

/// A value with no field set.
pub open spec fn value_default() -> ValueModel {
    ValueModel {
        string_value: None,
        float_value: None,
        double_value: None,
        int_value: None,
        uint_value: None,
        sint_value: None,
        bool_value: None,
    }
}

/// A feature with no field set.
pub open spec fn feature_default() -> FeatureModel {
    FeatureModel { id: None, tags: seq![], geom_type: None, geometry: seq![] }
}

/// A layer with no field set: version 1 (the declared default), no name.
pub open spec fn layer_default() -> LayerModel {
    LayerModel {
        version: 1,
        name: seq![],
        features: seq![],
        keys: seq![],
        values: seq![],
        extent: None,
    }
}

/// The text of a string field, if its payload is UTF-8.
pub open spec fn string_payload(w: WireValue) -> Option<Seq<char>> {
    match w {
        WireValue::Bytes(p) => if valid_utf8(p) { Some(decode_utf8(p)) } else { None },
        _ => None,
    }
}

/// How deep groups may nest in an unknown field of a tile: the decoder's
/// whole recursion budget.
pub const TILE_GROUP_DEPTH: u32 = 100;

/// How deep groups may nest in an unknown field of a layer: the layer
/// itself takes one level of the budget.
pub const LAYER_GROUP_DEPTH: u32 = 99;

/// How deep groups may nest in an unknown field of a feature or a value, one
/// level further down.
pub const ITEM_GROUP_DEPTH: u32 = 98;

/// Takes one field of a value: fields 1 to 7 hold the string, float, double,
/// int64, uint64, sint64 and bool alternatives; other fields are skipped.
pub open spec fn apply_value(acc: ValueModel, f: WireField) -> Option<ValueModel> {
    if f.num == 1 {
        match string_payload(f.value) {
            Some(s) => Some(ValueModel { string_value: Some(s), ..acc }),
            None => None,
        }
    } else if f.num == 2 {
        match f.value {
            WireValue::Fixed32(b) => Some(ValueModel { float_value: Some(b), ..acc }),
            _ => None,
        }
    } else if f.num == 3 {
        match f.value {
            WireValue::Fixed64(b) => Some(ValueModel { double_value: Some(b), ..acc }),
            _ => None,
        }
    } else if f.num == 4 {
        match f.value {
            WireValue::Varint(v) => Some(ValueModel { int_value: Some(as_i64(v as nat) as i64), ..acc }),
            _ => None,
        }
    } else if f.num == 5 {
        match f.value {
            WireValue::Varint(v) => Some(ValueModel { uint_value: Some(v), ..acc }),
            _ => None,
        }
    } else if f.num == 6 {
        match f.value {
            WireValue::Varint(v) => Some(
                ValueModel { sint_value: Some(zigzag_decode(v as nat) as i64), ..acc },
            ),
            _ => None,
        }
    } else if f.num == 7 {
        match f.value {
            WireValue::Varint(v) => Some(ValueModel { bool_value: Some(v != 0), ..acc }),
            _ => None,
        }
    } else {
        Some(acc)
    }
}

/// [`apply_value`] as a step of decoding.
pub open spec fn value_step() -> spec_fn(ValueModel, WireField) -> Option<ValueModel> {
    |acc: ValueModel, f: WireField| apply_value(acc, f)
}

/// Decodes a value message.
pub open spec fn decode_value(p: Seq<u8>) -> Option<ValueModel> {
    decode_fields(p, ITEM_GROUP_DEPTH as nat, value_default(), value_step())
}

/// Adds a repeated `uint32` field occurrence, unpacked or packed, to `vs`.
pub open spec fn append_u32s(vs: Seq<u32>, w: WireValue) -> Option<Seq<u32>> {
    match w {
        WireValue::Varint(v) => Some(vs.push(low32(v as nat))),
        WireValue::Bytes(p) => match parse_packed(p) {
            Some(ws) => Some(vs + ws),
            None => None,
        },
        _ => None,
    }
}

/// Takes one field of a feature: 1 is the id, 2 the tags, 3 the geometry
/// type (a number that names no type leaves it as it was), 4 the geometry
/// commands; other fields are skipped.
pub open spec fn apply_feature(acc: FeatureModel, f: WireField) -> Option<FeatureModel> {
    if f.num == 1 {
        match f.value {
            WireValue::Varint(v) => Some(FeatureModel { id: Some(v), ..acc }),
            _ => None,
        }
    } else if f.num == 2 {
        match append_u32s(acc.tags, f.value) {
            Some(t) => Some(FeatureModel { tags: t, ..acc }),
            None => None,
        }
    } else if f.num == 3 {
        match f.value {
            WireValue::Varint(v) => match geom_type_from_code(low32(v as nat) as nat) {
                Some(t) => Some(FeatureModel { geom_type: Some(t), ..acc }),
                None => Some(acc),
            },
            _ => None,
        }
    } else if f.num == 4 {
        match append_u32s(acc.geometry, f.value) {
            Some(g) => Some(FeatureModel { geometry: g, ..acc }),
            None => None,
        }
    } else {
        Some(acc)
    }
}

/// [`apply_feature`] as a step of decoding.
pub open spec fn feature_step() -> spec_fn(FeatureModel, WireField) -> Option<FeatureModel> {
    |acc: FeatureModel, f: WireField| apply_feature(acc, f)
}

/// Decodes a feature message.
pub open spec fn decode_feature(p: Seq<u8>) -> Option<FeatureModel> {
    decode_fields(p, ITEM_GROUP_DEPTH as nat, feature_default(), feature_step())
}

/// Takes one field of a layer: 15 is the version, 1 the name, 2 a feature,
/// 3 a key, 4 a value, 5 the extent; other fields are skipped.
pub open spec fn apply_layer(acc: LayerModel, f: WireField) -> Option<LayerModel> {
    if f.num == 15 {
        match f.value {
            WireValue::Varint(v) => Some(LayerModel { version: low32(v as nat), ..acc }),
            _ => None,
        }
    } else if f.num == 1 {
        match string_payload(f.value) {
            Some(s) => Some(LayerModel { name: s, ..acc }),
            None => None,
        }
    } else if f.num == 2 {
        match f.value {
            WireValue::Bytes(p) => match decode_feature(p) {
                Some(x) => Some(LayerModel { features: acc.features.push(x), ..acc }),
                None => None,
            },
            _ => None,
        }
    } else if f.num == 3 {
        match string_payload(f.value) {
            Some(s) => Some(LayerModel { keys: acc.keys.push(s), ..acc }),
            None => None,
        }
    } else if f.num == 4 {
        match f.value {
            WireValue::Bytes(p) => match decode_value(p) {
                Some(x) => Some(LayerModel { values: acc.values.push(x), ..acc }),
                None => None,
            },
            _ => None,
        }
    } else if f.num == 5 {
        match f.value {
            WireValue::Varint(v) => Some(LayerModel { extent: Some(low32(v as nat)), ..acc }),
            _ => None,
        }
    } else {
        Some(acc)
    }
}

/// [`apply_layer`] as a step of decoding.
pub open spec fn layer_step() -> spec_fn(LayerModel, WireField) -> Option<LayerModel> {
    |acc: LayerModel, f: WireField| apply_layer(acc, f)
}

/// Decodes a layer message.
pub open spec fn decode_layer(p: Seq<u8>) -> Option<LayerModel> {
    decode_fields(p, LAYER_GROUP_DEPTH as nat, layer_default(), layer_step())
}

/// Takes one field of a tile: 3 is a layer; other fields are skipped.
pub open spec fn apply_tile(acc: TileModel, f: WireField) -> Option<TileModel> {
    if f.num == 3 {
        match f.value {
            WireValue::Bytes(p) => match decode_layer(p) {
                Some(x) => Some(TileModel { layers: acc.layers.push(x) }),
                None => None,
            },
            _ => None,
        }
    } else {
        Some(acc)
    }
}

/// [`apply_tile`] as a step of decoding.
pub open spec fn tile_step() -> spec_fn(TileModel, WireField) -> Option<TileModel> {
    |acc: TileModel, f: WireField| apply_tile(acc, f)
}

/// Decodes a tile message.
pub open spec fn decode_tile(p: Seq<u8>) -> Option<TileModel> {
    decode_fields(p, TILE_GROUP_DEPTH as nat, TileModel { layers: seq![] }, tile_step())
}

// ----- encoding -----

/// A string field.
pub open spec fn string_field(num: u64, s: Seq<char>) -> WireField {
    WireField { num, value: WireValue::Bytes(encode_utf8(s)) }
}

/// The fields that encode a value: each alternative that is set, in field order.
pub open spec fn value_fields(v: ValueModel) -> Seq<WireField> {
    (match v.string_value {
        Some(s) => seq![string_field(1, s)],
        None => seq![],
    }) + (match v.float_value {
        Some(b) => seq![WireField { num: 2, value: WireValue::Fixed32(b) }],
        None => seq![],
    }) + (match v.double_value {
        Some(b) => seq![WireField { num: 3, value: WireValue::Fixed64(b) }],
        None => seq![],
    }) + (match v.int_value {
        Some(i) => seq![WireField { num: 4, value: WireValue::Varint(as_u64(i as int) as u64) }],
        None => seq![],
    }) + (match v.uint_value {
        Some(u) => seq![WireField { num: 5, value: WireValue::Varint(u) }],
        None => seq![],
    }) + (match v.sint_value {
        Some(i) => seq![WireField { num: 6, value: WireValue::Varint(zigzag_encode(i as int) as u64) }],
        None => seq![],
    }) + (match v.bool_value {
        Some(b) => seq![WireField { num: 7, value: WireValue::Varint(if b { 1 } else { 0 }) }],
        None => seq![],
    })
}

/// The bytes of a value message.
pub open spec fn encode_value(v: ValueModel) -> Seq<u8> {
    fields_bytes(value_fields(v))
}

/// The fields that encode a feature: the id when set, the tags packed when
/// there are any, the type when set, the geometry packed when there is any.
pub open spec fn feature_fields(f: FeatureModel) -> Seq<WireField> {
    (match f.id {
        Some(id) => seq![WireField { num: 1, value: WireValue::Varint(id) }],
        None => seq![],
    }) + (if f.tags.len() > 0 {
        seq![WireField { num: 2, value: WireValue::Bytes(packed_bytes(f.tags)) }]
    } else {
        seq![]
    }) + (match f.geom_type {
        Some(t) => seq![WireField { num: 3, value: WireValue::Varint(geom_type_code(t) as u64) }],
        None => seq![],
    }) + (if f.geometry.len() > 0 {
        seq![WireField { num: 4, value: WireValue::Bytes(packed_bytes(f.geometry)) }]
    } else {
        seq![]
    })
}

/// The bytes of a feature message.
pub open spec fn encode_feature(f: FeatureModel) -> Seq<u8> {
    fields_bytes(feature_fields(f))
}

/// One field per feature.
pub open spec fn features_fields(fs: Seq<FeatureModel>) -> Seq<WireField>
    decreases fs.len(),
{
    if fs.len() == 0 {
        seq![]
    } else {
        seq![WireField { num: 2, value: WireValue::Bytes(encode_feature(fs[0])) }]
            + features_fields(fs.drop_first())
    }
}

/// One field per key.
pub open spec fn keys_fields(ks: Seq<Seq<char>>) -> Seq<WireField>
    decreases ks.len(),
{
    if ks.len() == 0 {
        seq![]
    } else {
        seq![string_field(3, ks[0])] + keys_fields(ks.drop_first())
    }
}

/// One field per value.
pub open spec fn values_fields(vs: Seq<ValueModel>) -> Seq<WireField>
    decreases vs.len(),
{
    if vs.len() == 0 {
        seq![]
    } else {
        seq![WireField { num: 4, value: WireValue::Bytes(encode_value(vs[0])) }]
            + values_fields(vs.drop_first())
    }
}

/// The fields that encode a layer, in field-number order: the name, the
/// features, the keys, the values, the extent when set, and the version.
pub open spec fn layer_fields(l: LayerModel) -> Seq<WireField> {
    seq![string_field(1, l.name)] + features_fields(l.features) + keys_fields(l.keys)
        + values_fields(l.values) + (match l.extent {
        Some(e) => seq![WireField { num: 5, value: WireValue::Varint(e as u64) }],
        None => seq![],
    }) + seq![WireField { num: 15, value: WireValue::Varint(l.version as u64) }]
}

/// The bytes of a layer message.
pub open spec fn encode_layer(l: LayerModel) -> Seq<u8> {
    fields_bytes(layer_fields(l))
}

/// One field per layer.
pub open spec fn layers_fields(ls: Seq<LayerModel>) -> Seq<WireField>
    decreases ls.len(),
{
    if ls.len() == 0 {
        seq![]
    } else {
        seq![WireField { num: 3, value: WireValue::Bytes(encode_layer(ls[0])) }]
            + layers_fields(ls.drop_first())
    }
}

/// The bytes of a tile message: one field per layer.
pub open spec fn encode_tile(t: TileModel) -> Seq<u8> {
    fields_bytes(layers_fields(t.layers))
}

} // verus!
