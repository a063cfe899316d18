//! The number of bytes a message encodes to, computed without encoding it.
//! Sizes saturate at the largest `u64`, as the protobuf encoder's sizes do.
use vstd::prelude::*;
use vstd::string::StringSliceAdditionalSpecFns;

use crate::codec::{
    lemma_features_fields_push, lemma_keys_fields_push, lemma_layers_fields_push,
    lemma_values_fields_push,
};
use crate::proto::{
    encode_feature, encode_layer, encode_tile, encode_value, feature_fields, features_fields,
    features_model, geom_type_code, keys_fields, layer_fields, layers_fields, layers_model,
    string_field, strings_model, value_fields, values_fields, values_model, Feature, FeatureModel,
    Layer, LayerModel, Tile, Value, ValueModel,
};
use crate::wire::{
    as_u64, field_bytes, fields_bytes, lemma_fields_bytes_concat, lemma_fields_bytes_single,
    lemma_le_len, lemma_packed_bytes_push, lemma_varint_bytes_len, packed_bytes, payload_bytes,
    varint_bytes, wire_type, zigzag_encode, WireField, WireValue,
};

verus! {

broadcast use vstd::string::group_string_axioms;

/// A length, saturated at the largest `u64`.
pub open spec fn sat(n: nat) -> u64 {
    if n > u64::MAX {
        u64::MAX
    } else {
        n as u64
    }
}

/// The saturating sum of two sizes.
pub open spec fn sat_sum(a: u64, b: u64) -> u64 {
    if a + b > u64::MAX {
        u64::MAX
    } else {
        (a + b) as u64
    }
}

proof fn lemma_sat_add(a: nat, b: nat)
    ensures
        sat(a + b) == sat_sum(sat(a), sat(b)),
{
}

fn sum_sizes(a: u64, b: u64) -> (r: u64)
    ensures
        r == sat_sum(a, b),
{
    a.saturating_add(b)
}

/// The number of bytes of the varint encoding of `v`.
pub fn varint_len(v: u64) -> (r: u64)
    ensures
        r == varint_bytes(v as nat).len(),
        1 <= r <= 10,
    decreases v,
{
    proof {
        lemma_varint_bytes_len(v as nat);
    }
    if v < 128 {
        1
    } else {
        proof {
            lemma_varint_bytes_len((v / 128) as nat);
        }
        1 + varint_len(v / 128)
    }
}

/// A field numbered 1 to 15 has a one-byte tag.
proof fn lemma_small_field(f: WireField)
    requires
        1 <= f.num <= 15,
    ensures
        field_bytes(f).len() == 1 + payload_bytes(f.value).len(),
{
    assert(f.num * 8 + wire_type(f.value) < 128);
}

proof fn lemma_fields_push_len(fs: Seq<WireField>, f: WireField)
    ensures
        fields_bytes(fs.push(f)).len() == fields_bytes(fs).len() + field_bytes(f).len(),
{
    assert(fs.push(f) =~= fs + seq![f]);
    lemma_fields_bytes_concat(fs, seq![f]);
    lemma_fields_bytes_single(f);
}

proof fn lemma_fields_concat_len(a: Seq<WireField>, b: Seq<WireField>)
    ensures
        fields_bytes(a + b).len() == fields_bytes(a).len() + fields_bytes(b).len(),
{
    lemma_fields_bytes_concat(a, b);
}

/// The size of a varint field numbered 1 to 15.
fn varint_field_size(v: u64) -> (r: u64)
    ensures
        r == 1 + varint_bytes(v as nat).len(),
        r <= 11,
{
    1 + varint_len(v)
}

/// The size of a length-delimited field numbered 1 to 15, from the size of
/// its payload.
fn bytes_field_size(len: u64, Ghost(n): Ghost<nat>) -> (r: u64)
    requires
        len == sat(n),
    ensures
        r == sat(1 + varint_bytes(n).len() + n),
{
    if len == u64::MAX {
        u64::MAX
    } else {
        let h = 1 + varint_len(len);
        sum_sizes(h, len)
    }
}

/// The number of bytes of a packed run of varints.
fn packed_size(vs: &Vec<u32>) -> (r: u64)
    ensures
        r == sat(packed_bytes(vs@).len()),
{
    let mut r: u64 = 0;
    let mut i: usize = 0;
    assert(vs@.take(0) =~= Seq::<u32>::empty());
    assert(packed_bytes(Seq::<u32>::empty()) == Seq::<u8>::empty());
    while i < vs.len()
        invariant
            i <= vs@.len(),
            r == sat(packed_bytes(vs@.take(i as int)).len()),
        decreases vs@.len() - i,
    {
        let ghost pre = vs@.take(i as int);
        assert(vs@.take(i + 1) =~= pre.push(vs@[i as int]));
        proof {
            lemma_packed_bytes_push(pre, vs@[i as int]);
            lemma_sat_add(packed_bytes(pre).len(), varint_bytes(vs@[i as int] as nat).len());
        }
        r = sum_sizes(r, varint_len(vs[i] as u64));
        i = i + 1;
    }
    assert(vs@.take(i as int) =~= vs@);
    r
}

/// The fields of an optional varint field.
pub open spec fn varint_part(num: u64, v: Option<u64>) -> Seq<WireField> {
    match v {
        Some(x) => seq![WireField { num, value: WireValue::Varint(x) }],
        None => seq![],
    }
}

fn varint_part_size(num: u64, v: Option<u64>) -> (r: u64)
    requires
        1 <= num <= 15,
    ensures
        r == sat(fields_bytes(varint_part(num, v)).len()),
{
    match v {
        Some(x) => {
            let f = WireField { num, value: WireValue::Varint(x) };
            proof {
                lemma_small_field(f);
                lemma_fields_bytes_single(f);
            }
            varint_field_size(x)
        },
        None => 0,
    }
}

/// The fields of an optional string field.
pub open spec fn string_part(num: u64, s: Option<Seq<char>>) -> Seq<WireField> {
    match s {
        Some(c) => seq![string_field(num, c)],
        None => seq![],
    }
}

fn string_field_size(num: u64, st: &str) -> (r: u64)
    requires
        1 <= num <= 15,
    ensures
        r == sat(field_bytes(string_field(num, st@)).len()),
{
    let n = st.as_bytes().len();
    let ghost f = string_field(num, st@);
    proof {
        lemma_small_field(f);
        assert(n == st.spec_bytes().len());
        assert(payload_bytes(f.value).len() == varint_bytes(n as nat).len() + n);
    }
    bytes_field_size(n as u64, Ghost(n as nat))
}

fn string_part_size(num: u64, s: &Option<String>) -> (r: u64)
    requires
        1 <= num <= 15,
    ensures
        r == sat(fields_bytes(string_part(num, crate::proto::opt_chars(*s))).len()),
{
    match s {
        Some(st) => {
            proof {
                lemma_fields_bytes_single(string_field(num, st@));
            }
            string_field_size(num, st.as_str())
        },
        None => 0,
    }
}

/// The size of the concatenation of two lists of fields.
proof fn lemma_size_concat(a: Seq<WireField>, b: Seq<WireField>, ra: u64, rb: u64)
    requires
        ra == sat(fields_bytes(a).len()),
        rb == sat(fields_bytes(b).len()),
    ensures
        sat_sum(ra, rb) == sat(fields_bytes(a + b).len()),
{
    lemma_fields_concat_len(a, b);
    lemma_sat_add(fields_bytes(a).len(), fields_bytes(b).len());
}

/// The number of bytes a value message encodes to.
pub fn value_size(v: &Value) -> (r: u64)
    ensures
        r == sat(encode_value(v@).len()),
{
    let ghost m = v@;
    let ghost p1 = string_part(1, m.string_value);
    let ghost p2: Seq<WireField> = match m.float_value {
        Some(b) => seq![WireField { num: 2, value: WireValue::Fixed32(b) }],
        None => seq![],
    };
    let ghost p3: Seq<WireField> = match m.double_value {
        Some(b) => seq![WireField { num: 3, value: WireValue::Fixed64(b) }],
        None => seq![],
    };
    let ghost p4 = varint_part(4, match m.int_value { Some(i) => Some(as_u64(i as int) as u64), None => None });
    let ghost p5 = varint_part(5, m.uint_value);
    let ghost p6 = varint_part(6, match m.sint_value { Some(i) => Some(zigzag_encode(i as int) as u64), None => None });
    let ghost p7 = varint_part(7, match m.bool_value { Some(b) => Some(if b { 1u64 } else { 0u64 }), None => None });
    assert(value_fields(m) =~= p1 + p2 + p3 + p4 + p5 + p6 + p7);
    let s1 = string_part_size(1, &v.string_value);
    let s2: u64 = match v.float_value {
        Some(b) => {
            let ghost f = WireField { num: 2, value: WireValue::Fixed32(b) };
            proof {
                lemma_small_field(f);
                lemma_le_len(b as nat, 4);
                lemma_fields_bytes_single(f);
            }
            5
        },
        None => 0,
    };
    let s3: u64 = match v.double_value {
        Some(b) => {
            let ghost f = WireField { num: 3, value: WireValue::Fixed64(b) };
            proof {
                lemma_small_field(f);
                lemma_le_len(b as nat, 8);
                lemma_fields_bytes_single(f);
            }
            9
        },
        None => 0,
    };
    let s4 = varint_part_size(4, match v.int_value { Some(i) => Some(crate::wire::i64_to_u64(i)), None => None });
    let s5 = varint_part_size(5, v.uint_value);
    let s6 = varint_part_size(6, match v.sint_value { Some(i) => Some(crate::wire::zigzag_encode_i64(i)), None => None });
    let s7 = varint_part_size(7, match v.bool_value { Some(b) => Some(if b { 1u64 } else { 0u64 }), None => None });
    proof {
        lemma_size_concat(p1, p2, s1, s2);
        lemma_size_concat(p1 + p2, p3, sat_sum(s1, s2), s3);
        lemma_size_concat(p1 + p2 + p3, p4, sat_sum(sat_sum(s1, s2), s3), s4);
        lemma_size_concat(p1 + p2 + p3 + p4, p5, sat_sum(sat_sum(sat_sum(s1, s2), s3), s4), s5);
        lemma_size_concat(p1 + p2 + p3 + p4 + p5, p6, sat_sum(sat_sum(sat_sum(sat_sum(s1, s2), s3), s4), s5), s6);
        lemma_size_concat(
            p1 + p2 + p3 + p4 + p5 + p6,
            p7,
            sat_sum(sat_sum(sat_sum(sat_sum(sat_sum(s1, s2), s3), s4), s5), s6),
            s7,
        );
    }
    let r = sum_sizes(sum_sizes(sum_sizes(sum_sizes(sum_sizes(sum_sizes(s1, s2), s3), s4), s5), s6), s7);
    r
}


/// The fields of a packed run of varints, written only when it is not empty.
pub open spec fn packed_part(num: u64, vs: Seq<u32>) -> Seq<WireField> {
    if vs.len() > 0 {
        seq![WireField { num, value: WireValue::Bytes(packed_bytes(vs)) }]
    } else {
        seq![]
    }
}

fn packed_part_size(num: u64, vs: &Vec<u32>) -> (r: u64)
    requires
        1 <= num <= 15,
    ensures
        r == sat(fields_bytes(packed_part(num, vs@)).len()),
{
    if vs.len() > 0 {
        let ghost f = WireField { num, value: WireValue::Bytes(packed_bytes(vs@)) };
        proof {
            lemma_small_field(f);
            lemma_fields_bytes_single(f);
        }
        let p = packed_size(vs);
        bytes_field_size(p, Ghost(packed_bytes(vs@).len()))
    } else {
        0
    }
}

/// The number of bytes a feature message encodes to.
pub fn feature_size(f: &Feature) -> (r: u64)
    ensures
        r == sat(encode_feature(f@).len()),
{
    let ghost m = f@;
    let ghost p1 = varint_part(1, m.id);
    let ghost p2 = packed_part(2, m.tags);
    let ghost p3 = varint_part(3, match m.geom_type { Some(t) => Some(geom_type_code(t) as u64), None => None });
    let ghost p4 = packed_part(4, m.geometry);
    assert(feature_fields(m) =~= p1 + p2 + p3 + p4);
    let s1 = varint_part_size(1, f.id);
    let s2 = packed_part_size(2, &f.tags);
    let s3 = varint_part_size(3, match f.geom_type { Some(t) => Some(t.to_i32() as u64), None => None });
    let s4 = packed_part_size(4, &f.geometry);
    proof {
        lemma_size_concat(p1, p2, s1, s2);
        lemma_size_concat(p1 + p2, p3, sat_sum(s1, s2), s3);
        lemma_size_concat(p1 + p2 + p3, p4, sat_sum(sat_sum(s1, s2), s3), s4);
    }
    sum_sizes(sum_sizes(sum_sizes(s1, s2), s3), s4)
}

/// The number of bytes a layer message encodes to.
pub fn layer_size(l: &Layer) -> (r: u64)
    ensures
        r == sat(encode_layer(l@).len()),
{
    let ghost m = l@;
    let ghost p1 = seq![string_field(1, m.name)];
    let ghost p5 = varint_part(5, match m.extent { Some(e) => Some(e as u64), None => None });
    let ghost p6 = varint_part(15, Some(m.version as u64));
    assert(layer_fields(m) =~= p1 + features_fields(m.features) + keys_fields(m.keys) + values_fields(m.values) + p5 + p6);
    proof {
        lemma_fields_bytes_single(string_field(1, m.name));
    }
    let s1 = string_field_size(1, l.name.as_str());
    // features
    let mut s2: u64 = 0;
    let mut i: usize = 0;
    assert(features_model(l.features@.take(0)) =~= Seq::<FeatureModel>::empty());
    while i < l.features.len()
        invariant
            i <= l.features@.len(),
            s2 == sat(fields_bytes(features_fields(features_model(l.features@.take(i as int)))).len()),
        decreases l.features@.len() - i,
    {
        let ghost pre = features_model(l.features@.take(i as int));
        let ghost x = l.features@[i as int]@;
        assert(features_model(l.features@.take(i + 1)) =~= pre.push(x));
        let ghost fx = WireField { num: 2, value: WireValue::Bytes(encode_feature(x)) };
        let fs = feature_size(&l.features[i]);
        let b = bytes_field_size(fs, Ghost(encode_feature(x).len()));
        proof {
            lemma_features_fields_push(pre, x);
            lemma_small_field(fx);
            lemma_fields_bytes_single(fx);
            lemma_size_concat(features_fields(pre), seq![fx], s2, b);
        }
        s2 = sum_sizes(s2, b);
        i = i + 1;
    }
    assert(l.features@.take(i as int) =~= l.features@);
    // keys
    let mut s3: u64 = 0;
    let mut i: usize = 0;
    assert(strings_model(l.keys@.take(0)) =~= Seq::<Seq<char>>::empty());
    while i < l.keys.len()
        invariant
            i <= l.keys@.len(),
            s3 == sat(fields_bytes(keys_fields(strings_model(l.keys@.take(i as int)))).len()),
        decreases l.keys@.len() - i,
    {
        let ghost pre = strings_model(l.keys@.take(i as int));
        let ghost x = l.keys@[i as int]@;
        assert(strings_model(l.keys@.take(i + 1)) =~= pre.push(x));
        let b = string_field_size(3, l.keys[i].as_str());
        proof {
            lemma_keys_fields_push(pre, x);
            lemma_fields_bytes_single(string_field(3, x));
            lemma_size_concat(keys_fields(pre), seq![string_field(3, x)], s3, b);
        }
        s3 = sum_sizes(s3, b);
        i = i + 1;
    }
    assert(l.keys@.take(i as int) =~= l.keys@);
    // values
    let mut s4: u64 = 0;
    let mut i: usize = 0;
    assert(values_model(l.values@.take(0)) =~= Seq::<ValueModel>::empty());
    while i < l.values.len()
        invariant
            i <= l.values@.len(),
            s4 == sat(fields_bytes(values_fields(values_model(l.values@.take(i as int)))).len()),
        decreases l.values@.len() - i,
    {
        let ghost pre = values_model(l.values@.take(i as int));
        let ghost x = l.values@[i as int]@;
        assert(values_model(l.values@.take(i + 1)) =~= pre.push(x));
        let ghost fx = WireField { num: 4, value: WireValue::Bytes(encode_value(x)) };
        let vs = value_size(&l.values[i]);
        let b = bytes_field_size(vs, Ghost(encode_value(x).len()));
        proof {
            lemma_values_fields_push(pre, x);
            lemma_small_field(fx);
            lemma_fields_bytes_single(fx);
            lemma_size_concat(values_fields(pre), seq![fx], s4, b);
        }
        s4 = sum_sizes(s4, b);
        i = i + 1;
    }
    assert(l.values@.take(i as int) =~= l.values@);
    let s5 = varint_part_size(5, match l.extent { Some(e) => Some(e as u64), None => None });
    let s6 = varint_part_size(15, Some(l.version as u64));
    proof {
        let a1 = p1;
        let a2 = a1 + features_fields(m.features);
        let a3 = a2 + keys_fields(m.keys);
        let a4 = a3 + values_fields(m.values);
        let a5 = a4 + p5;
        lemma_size_concat(a1, features_fields(m.features), s1, s2);
        lemma_size_concat(a2, keys_fields(m.keys), sat_sum(s1, s2), s3);
        lemma_size_concat(a3, values_fields(m.values), sat_sum(sat_sum(s1, s2), s3), s4);
        lemma_size_concat(a4, p5, sat_sum(sat_sum(sat_sum(s1, s2), s3), s4), s5);
        lemma_size_concat(a5, p6, sat_sum(sat_sum(sat_sum(sat_sum(s1, s2), s3), s4), s5), s6);
    }
    sum_sizes(sum_sizes(sum_sizes(sum_sizes(sum_sizes(s1, s2), s3), s4), s5), s6)
}

/// The number of bytes a tile message encodes to.
pub fn tile_size(t: &Tile) -> (r: u64)
    ensures
        r == sat(encode_tile(t@).len()),
{
    let mut r: u64 = 0;
    let mut i: usize = 0;
    assert(layers_model(t.layers@.take(0)) =~= Seq::<LayerModel>::empty());
    while i < t.layers.len()
        invariant
            i <= t.layers@.len(),
            r == sat(fields_bytes(layers_fields(layers_model(t.layers@.take(i as int)))).len()),
        decreases t.layers@.len() - i,
    {
        let ghost pre = layers_model(t.layers@.take(i as int));
        let ghost x = t.layers@[i as int]@;
        assert(layers_model(t.layers@.take(i + 1)) =~= pre.push(x));
        let ghost fx = WireField { num: 3, value: WireValue::Bytes(encode_layer(x)) };
        let ls = layer_size(&t.layers[i]);
        let b = bytes_field_size(ls, Ghost(encode_layer(x).len()));
        proof {
            lemma_layers_fields_push(pre, x);
            lemma_small_field(fx);
            lemma_fields_bytes_single(fx);
            lemma_size_concat(layers_fields(pre), seq![fx], r, b);
        }
        r = sum_sizes(r, b);
        i = i + 1;
    }
    assert(t.layers@.take(i as int) =~= t.layers@);
    r
}

} // verus!
