//! Reading back what was written: the tile encoding is decoded to the tile
//! that was encoded.
use vstd::prelude::*;
use vstd::utf8::*;

use crate::proto::{
    decode_feature, decode_layer, decode_tile, decode_value, encode_feature, encode_layer,
    encode_tile, encode_value, feature_default, feature_fields, feature_step, features_fields,
    geom_type_code, keys_fields, layer_default, layer_fields, layer_step, layers_fields,
    string_field, tile_step, value_default, value_fields, value_step, values_fields, FeatureModel,
    LayerModel, TileModel, ValueModel, ITEM_GROUP_DEPTH, LAYER_GROUP_DEPTH, TILE_GROUP_DEPTH,
};
use crate::wire::{
    apply_all, field_bytes, field_writable, fields_bytes, fields_writable, lemma_apply_all_concat,
    lemma_decode_fields_bytes, lemma_fields_bytes_concat, lemma_packed_roundtrip,
    lemma_zigzag_roundtrip, low32, max_field_number, packed_bytes, payload_bytes, varint_bytes,
    WireField, WireValue,
};

verus! {

broadcast use {encode_utf8_valid_utf8, encode_utf8_decode_utf8};

proof fn lemma_apply_single<M>(f: WireField, acc: M, step: spec_fn(M, WireField) -> Option<M>)
    ensures
        apply_all(seq![f], acc, step) == step(acc, f),
{
    assert(seq![f].drop_first() =~= Seq::<WireField>::empty());
    assert(seq![f][0] == f);
    if let Some(a) = step(acc, f) {
        assert(apply_all(seq![f].drop_first(), a, step) == Some(a));
    }
}

/// Two writable lists make a writable list.
proof fn lemma_writable_concat(a: Seq<WireField>, b: Seq<WireField>)
    requires
        fields_writable(a),
        fields_writable(b),
    ensures
        fields_writable(a + b),
{
    assert forall|i: int| 0 <= i < (a + b).len() implies field_writable(#[trigger] (a + b)[i]) by {
        if i < a.len() {
            assert((a + b)[i] == a[i]);
        } else {
            assert((a + b)[i] == b[i - a.len()]);
        }
    }
}

/// A list of at most one field is writable when its field is.
proof fn lemma_writable_opt(a: Seq<WireField>)
    requires
        a.len() <= 1,
        a.len() == 1 ==> field_writable(a[0]),
    ensures
        fields_writable(a),
{
}

/// Every field of a list takes no more bytes than the whole list, and a
/// length-delimited payload no more than its field.
pub proof fn lemma_field_within(fs: Seq<WireField>, i: int)
    requires
        0 <= i < fs.len(),
    ensures
        field_bytes(fs[i]).len() <= fields_bytes(fs).len(),
        fs[i].value matches WireValue::Bytes(p) ==> p.len() <= fields_bytes(fs).len(),
    decreases fs.len(),
{
    if i > 0 {
        lemma_field_within(fs.drop_first(), i - 1);
        assert(fs.drop_first()[i - 1] == fs[i]);
    }
    if let WireValue::Bytes(p) = fs[i].value {
        assert(payload_bytes(fs[i].value) == varint_bytes(p.len()) + p);
    }
}

/// A value message decodes to the value it encodes.
#[verifier::rlimit(50)]
pub proof fn lemma_value_roundtrip(v: ValueModel)
    requires
        encode_value(v).len() <= u64::MAX,
    ensures
        decode_value(encode_value(v)) == Some(v),
{
    let fs = value_fields(v);
    let s1: Seq<WireField> = match v.string_value {
        Some(s) => seq![string_field(1, s)],
        None => seq![],
    };
    let s2: Seq<WireField> = match v.float_value {
        Some(b) => seq![WireField { num: 2, value: WireValue::Fixed32(b) }],
        None => seq![],
    };
    let s3: Seq<WireField> = match v.double_value {
        Some(b) => seq![WireField { num: 3, value: WireValue::Fixed64(b) }],
        None => seq![],
    };
    let s4: Seq<WireField> = match v.int_value {
        Some(i) => seq![WireField { num: 4, value: WireValue::Varint(crate::wire::as_u64(i as int) as u64) }],
        None => seq![],
    };
    let s5: Seq<WireField> = match v.uint_value {
        Some(u) => seq![WireField { num: 5, value: WireValue::Varint(u) }],
        None => seq![],
    };
    let s6: Seq<WireField> = match v.sint_value {
        Some(i) => seq![WireField { num: 6, value: WireValue::Varint(crate::wire::zigzag_encode(i as int) as u64) }],
        None => seq![],
    };
    let s7: Seq<WireField> = match v.bool_value {
        Some(b) => seq![WireField { num: 7, value: WireValue::Varint(if b { 1 } else { 0 }) }],
        None => seq![],
    };
    assert(fs == s1 + s2 + s3 + s4 + s5 + s6 + s7);
    assert(fields_writable(fs)) by {
        let r = s2 + s3 + s4 + s5 + s6 + s7;
        if let Some(s) = v.string_value {
            lemma_field_within(fs, 0);
        }
        lemma_writable_opt(s1);
        lemma_writable_opt(s2);
        lemma_writable_opt(s3);
        lemma_writable_opt(s4);
        lemma_writable_opt(s5);
        lemma_writable_opt(s6);
        lemma_writable_opt(s7);
        lemma_writable_concat(s1, s2);
        lemma_writable_concat(s1 + s2, s3);
        lemma_writable_concat(s1 + s2 + s3, s4);
        lemma_writable_concat(s1 + s2 + s3 + s4, s5);
        lemma_writable_concat(s1 + s2 + s3 + s4 + s5, s6);
        lemma_writable_concat(s1 + s2 + s3 + s4 + s5 + s6, s7);
    }
    lemma_decode_fields_bytes(fs, ITEM_GROUP_DEPTH as nat, value_default(), value_step());
    let st = value_step();
    let a0 = value_default();
    let a1 = ValueModel { string_value: v.string_value, ..a0 };
    let a2 = ValueModel { float_value: v.float_value, ..a1 };
    let a3 = ValueModel { double_value: v.double_value, ..a2 };
    let a4 = ValueModel { int_value: v.int_value, ..a3 };
    let a5 = ValueModel { uint_value: v.uint_value, ..a4 };
    let a6 = ValueModel { sint_value: v.sint_value, ..a5 };
    let a7 = ValueModel { bool_value: v.bool_value, ..a6 };
    assert(apply_all(s1, a0, st) == Some(a1)) by {
        if let Some(s) = v.string_value {
            lemma_apply_single(string_field(1, s), a0, st);
        }
    }
    assert(apply_all(s2, a1, st) == Some(a2)) by {
        if let Some(b) = v.float_value {
            lemma_apply_single(s2[0], a1, st);
        }
    }
    assert(apply_all(s3, a2, st) == Some(a3)) by {
        if let Some(b) = v.double_value {
            lemma_apply_single(s3[0], a2, st);
        }
    }
    assert(apply_all(s4, a3, st) == Some(a4)) by {
        if let Some(i) = v.int_value {
            lemma_apply_single(s4[0], a3, st);
        }
    }
    assert(apply_all(s5, a4, st) == Some(a5)) by {
        if let Some(u) = v.uint_value {
            lemma_apply_single(s5[0], a4, st);
        }
    }
    assert(apply_all(s6, a5, st) == Some(a6)) by {
        if let Some(i) = v.sint_value {
            lemma_zigzag_roundtrip(i as int);
            lemma_apply_single(s6[0], a5, st);
        }
    }
    assert(apply_all(s7, a6, st) == Some(a7)) by {
        if let Some(b) = v.bool_value {
            lemma_apply_single(s7[0], a6, st);
        }
    }
    lemma_apply_all_concat(s1, s2, a0, st);
    lemma_apply_all_concat(s1 + s2, s3, a0, st);
    lemma_apply_all_concat(s1 + s2 + s3, s4, a0, st);
    lemma_apply_all_concat(s1 + s2 + s3 + s4, s5, a0, st);
    lemma_apply_all_concat(s1 + s2 + s3 + s4 + s5, s6, a0, st);
    lemma_apply_all_concat(s1 + s2 + s3 + s4 + s5 + s6, s7, a0, st);
    assert(a7 == v);
}


/// The bytes of each part of a list are no more than the bytes of the list.
proof fn lemma_part_bound(a: Seq<WireField>, b: Seq<WireField>)
    ensures
        fields_bytes(a).len() <= fields_bytes(a + b).len(),
        fields_bytes(b).len() <= fields_bytes(a + b).len(),
{
    lemma_fields_bytes_concat(a, b);
}

/// A one-field list whose bytes fit in 64 bits, whose number is valid and
/// whose value is no group is writable.
proof fn lemma_writable_single(f: WireField)
    requires
        1 <= f.num <= max_field_number(),
        !(f.value is Group),
        fields_bytes(seq![f]).len() <= u64::MAX,
    ensures
        fields_writable(seq![f]),
{
    lemma_field_within(seq![f], 0);
    assert(seq![f][0] == f);
}

/// A feature message decodes to the feature it encodes.
#[verifier::rlimit(50)]
pub proof fn lemma_feature_roundtrip(f: FeatureModel)
    requires
        encode_feature(f).len() <= u64::MAX,
    ensures
        decode_feature(encode_feature(f)) == Some(f),
{
    let fs = feature_fields(f);
    let s1: Seq<WireField> = match f.id {
        Some(id) => seq![WireField { num: 1, value: WireValue::Varint(id) }],
        None => seq![],
    };
    let s2: Seq<WireField> = if f.tags.len() > 0 {
        seq![WireField { num: 2, value: WireValue::Bytes(packed_bytes(f.tags)) }]
    } else {
        seq![]
    };
    let s3: Seq<WireField> = match f.geom_type {
        Some(t) => seq![WireField { num: 3, value: WireValue::Varint(geom_type_code(t) as u64) }],
        None => seq![],
    };
    let s4: Seq<WireField> = if f.geometry.len() > 0 {
        seq![WireField { num: 4, value: WireValue::Bytes(packed_bytes(f.geometry)) }]
    } else {
        seq![]
    };
    assert(fs == s1 + s2 + s3 + s4);
    assert(fields_writable(fs)) by {
        lemma_part_bound(s1 + s2 + s3, s4);
        lemma_part_bound(s1 + s2, s3);
        lemma_part_bound(s1, s2);
        if s2.len() > 0 {
            lemma_writable_single(s2[0]);
        }
        if s4.len() > 0 {
            lemma_writable_single(s4[0]);
        }
        lemma_writable_opt(s1);
        lemma_writable_opt(s3);
        lemma_writable_concat(s1, s2);
        lemma_writable_concat(s1 + s2, s3);
        lemma_writable_concat(s1 + s2 + s3, s4);
    }
    lemma_decode_fields_bytes(fs, ITEM_GROUP_DEPTH as nat, feature_default(), feature_step());
    let st = feature_step();
    let a0 = feature_default();
    let a1 = FeatureModel { id: f.id, ..a0 };
    let a2 = FeatureModel { tags: f.tags, ..a1 };
    let a3 = FeatureModel { geom_type: f.geom_type, ..a2 };
    let a4 = FeatureModel { geometry: f.geometry, ..a3 };
    assert(apply_all(s1, a0, st) == Some(a1)) by {
        if let Some(id) = f.id {
            lemma_apply_single(s1[0], a0, st);
        }
    }
    assert(apply_all(s2, a1, st) == Some(a2)) by {
        if f.tags.len() > 0 {
            lemma_packed_roundtrip(f.tags);
            assert(Seq::<u32>::empty() + f.tags =~= f.tags);
            lemma_apply_single(s2[0], a1, st);
        } else {
            assert(f.tags =~= Seq::<u32>::empty());
        }
    }
    assert(apply_all(s3, a2, st) == Some(a3)) by {
        if let Some(t) = f.geom_type {
            assert(low32(geom_type_code(t)) == geom_type_code(t));
            lemma_apply_single(s3[0], a2, st);
        }
    }
    assert(apply_all(s4, a3, st) == Some(a4)) by {
        if f.geometry.len() > 0 {
            lemma_packed_roundtrip(f.geometry);
            assert(Seq::<u32>::empty() + f.geometry =~= f.geometry);
            lemma_apply_single(s4[0], a3, st);
        } else {
            assert(f.geometry =~= Seq::<u32>::empty());
        }
    }
    lemma_apply_all_concat(s1, s2, a0, st);
    lemma_apply_all_concat(s1 + s2, s3, a0, st);
    lemma_apply_all_concat(s1 + s2 + s3, s4, a0, st);
    assert(a4 == f);
}


/// The features of a layer decode back, appended to those already read.
proof fn lemma_features_apply(fs: Seq<FeatureModel>, acc: LayerModel)
    requires
        fields_bytes(features_fields(fs)).len() <= u64::MAX,
    ensures
        fields_writable(features_fields(fs)),
        apply_all(features_fields(fs), acc, layer_step()) == Some(
            LayerModel { features: acc.features + fs, ..acc },
        ),
    decreases fs.len(),
{
    let ff = features_fields(fs);
    if fs.len() == 0 {
        assert(acc.features + fs =~= acc.features);
    } else {
        let x = WireField { num: 2, value: WireValue::Bytes(encode_feature(fs[0])) };
        let tail = features_fields(fs.drop_first());
        assert(ff == seq![x] + tail);
        lemma_part_bound(seq![x], tail);
        lemma_field_within(seq![x], 0);
        assert(seq![x][0] == x);
        lemma_writable_single(x);
        lemma_feature_roundtrip(fs[0]);
        let a1 = LayerModel { features: acc.features.push(fs[0]), ..acc };
        lemma_apply_single(x, acc, layer_step());
        lemma_features_apply(fs.drop_first(), a1);
        lemma_writable_concat(seq![x], tail);
        lemma_apply_all_concat(seq![x], tail, acc, layer_step());
        assert(acc.features.push(fs[0]) + fs.drop_first() =~= acc.features + fs);
    }
}

/// The keys of a layer decode back, appended to those already read.
proof fn lemma_keys_apply(ks: Seq<Seq<char>>, acc: LayerModel)
    requires
        fields_bytes(keys_fields(ks)).len() <= u64::MAX,
    ensures
        fields_writable(keys_fields(ks)),
        apply_all(keys_fields(ks), acc, layer_step()) == Some(
            LayerModel { keys: acc.keys + ks, ..acc },
        ),
    decreases ks.len(),
{
    let kf = keys_fields(ks);
    if ks.len() == 0 {
        assert(acc.keys + ks =~= acc.keys);
    } else {
        let x = string_field(3, ks[0]);
        let tail = keys_fields(ks.drop_first());
        assert(kf == seq![x] + tail);
        lemma_part_bound(seq![x], tail);
        lemma_writable_single(x);
        let a1 = LayerModel { keys: acc.keys.push(ks[0]), ..acc };
        lemma_apply_single(x, acc, layer_step());
        lemma_keys_apply(ks.drop_first(), a1);
        lemma_writable_concat(seq![x], tail);
        lemma_apply_all_concat(seq![x], tail, acc, layer_step());
        assert(acc.keys.push(ks[0]) + ks.drop_first() =~= acc.keys + ks);
    }
}

/// The values of a layer decode back, appended to those already read.
proof fn lemma_values_apply(vs: Seq<ValueModel>, acc: LayerModel)
    requires
        fields_bytes(values_fields(vs)).len() <= u64::MAX,
    ensures
        fields_writable(values_fields(vs)),
        apply_all(values_fields(vs), acc, layer_step()) == Some(
            LayerModel { values: acc.values + vs, ..acc },
        ),
    decreases vs.len(),
{
    let vf = values_fields(vs);
    if vs.len() == 0 {
        assert(acc.values + vs =~= acc.values);
    } else {
        let x = WireField { num: 4, value: WireValue::Bytes(encode_value(vs[0])) };
        let tail = values_fields(vs.drop_first());
        assert(vf == seq![x] + tail);
        lemma_part_bound(seq![x], tail);
        lemma_field_within(seq![x], 0);
        assert(seq![x][0] == x);
        lemma_writable_single(x);
        lemma_value_roundtrip(vs[0]);
        let a1 = LayerModel { values: acc.values.push(vs[0]), ..acc };
        lemma_apply_single(x, acc, layer_step());
        lemma_values_apply(vs.drop_first(), a1);
        lemma_writable_concat(seq![x], tail);
        lemma_apply_all_concat(seq![x], tail, acc, layer_step());
        assert(acc.values.push(vs[0]) + vs.drop_first() =~= acc.values + vs);
    }
}

/// A layer message decodes to the layer it encodes.
#[verifier::rlimit(50)]
pub proof fn lemma_layer_roundtrip(l: LayerModel)
    requires
        encode_layer(l).len() <= u64::MAX,
    ensures
        decode_layer(encode_layer(l)) == Some(l),
{
    let fs = layer_fields(l);
    let s1 = seq![string_field(1, l.name)];
    let s2 = features_fields(l.features);
    let s3 = keys_fields(l.keys);
    let s4 = values_fields(l.values);
    let s5: Seq<WireField> = match l.extent {
        Some(e) => seq![WireField { num: 5, value: WireValue::Varint(e as u64) }],
        None => seq![],
    };
    let s6 = seq![WireField { num: 15, value: WireValue::Varint(l.version as u64) }];
    assert(fs == s1 + s2 + s3 + s4 + s5 + s6);
    lemma_part_bound(s1 + s2 + s3 + s4 + s5, s6);
    lemma_part_bound(s1 + s2 + s3 + s4, s5);
    lemma_part_bound(s1 + s2 + s3, s4);
    lemma_part_bound(s1 + s2, s3);
    lemma_part_bound(s1, s2);
    let st = layer_step();
    let a0 = layer_default();
    let a1 = LayerModel { name: l.name, ..a0 };
    let a2 = LayerModel { features: l.features, ..a1 };
    let a3 = LayerModel { keys: l.keys, ..a2 };
    let a4 = LayerModel { values: l.values, ..a3 };
    let a5 = LayerModel { extent: l.extent, ..a4 };
    let a6 = LayerModel { version: l.version, ..a5 };
    lemma_writable_single(s1[0]);
    assert(s1 == seq![s1[0]]);
    lemma_apply_single(s1[0], a0, st);
    lemma_features_apply(l.features, a1);
    assert(a1.features + l.features =~= l.features);
    lemma_keys_apply(l.keys, a2);
    assert(a2.keys + l.keys =~= l.keys);
    lemma_values_apply(l.values, a3);
    assert(a3.values + l.values =~= l.values);
    lemma_writable_opt(s5);
    assert(apply_all(s5, a4, st) == Some(a5)) by {
        if let Some(e) = l.extent {
            lemma_apply_single(s5[0], a4, st);
        }
    }
    lemma_writable_opt(s6);
    lemma_apply_single(s6[0], a5, st);
    assert(s6 == seq![s6[0]]);
    lemma_writable_concat(s1, s2);
    lemma_writable_concat(s1 + s2, s3);
    lemma_writable_concat(s1 + s2 + s3, s4);
    lemma_writable_concat(s1 + s2 + s3 + s4, s5);
    lemma_writable_concat(s1 + s2 + s3 + s4 + s5, s6);
    lemma_decode_fields_bytes(fs, LAYER_GROUP_DEPTH as nat, a0, st);
    lemma_apply_all_concat(s1, s2, a0, st);
    lemma_apply_all_concat(s1 + s2, s3, a0, st);
    lemma_apply_all_concat(s1 + s2 + s3, s4, a0, st);
    lemma_apply_all_concat(s1 + s2 + s3 + s4, s5, a0, st);
    lemma_apply_all_concat(s1 + s2 + s3 + s4 + s5, s6, a0, st);
    assert(a6 == l);
}

/// The layers of a tile decode back, appended to those already read.
proof fn lemma_layers_apply(ls: Seq<LayerModel>, acc: TileModel)
    requires
        fields_bytes(layers_fields(ls)).len() <= u64::MAX,
    ensures
        fields_writable(layers_fields(ls)),
        apply_all(layers_fields(ls), acc, tile_step()) == Some(
            TileModel { layers: acc.layers + ls },
        ),
    decreases ls.len(),
{
    let lf = layers_fields(ls);
    if ls.len() == 0 {
        assert(acc.layers + ls =~= acc.layers);
    } else {
        let x = WireField { num: 3, value: WireValue::Bytes(encode_layer(ls[0])) };
        let tail = layers_fields(ls.drop_first());
        assert(lf == seq![x] + tail);
        lemma_part_bound(seq![x], tail);
        lemma_field_within(seq![x], 0);
        assert(seq![x][0] == x);
        lemma_writable_single(x);
        lemma_layer_roundtrip(ls[0]);
        let a1 = TileModel { layers: acc.layers.push(ls[0]) };
        lemma_apply_single(x, acc, tile_step());
        lemma_layers_apply(ls.drop_first(), a1);
        lemma_writable_concat(seq![x], tail);
        lemma_apply_all_concat(seq![x], tail, acc, tile_step());
        assert(acc.layers.push(ls[0]) + ls.drop_first() =~= acc.layers + ls);
    }
}

/// Decoding the bytes of a tile gives the tile back: no layer, feature, key,
/// value or field is lost, reordered or altered by a round trip through the
/// wire format.
pub proof fn lemma_tile_roundtrip(t: TileModel)
    requires
        encode_tile(t).len() <= u64::MAX,
    ensures
        decode_tile(encode_tile(t)) == Some(t),
{
    let acc = TileModel { layers: seq![] };
    lemma_layers_apply(t.layers, acc);
    lemma_decode_fields_bytes(layers_fields(t.layers), TILE_GROUP_DEPTH as nat, acc, tile_step());
    assert(acc.layers + t.layers =~= t.layers);
}

} // verus!
