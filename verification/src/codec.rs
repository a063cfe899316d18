//! Reading and writing the vector tile messages.
use vstd::prelude::*;
use vstd::string::StringSliceAdditionalSpecFns;
use vstd::utf8::*;

use crate::bridge::borrow_str_at;
use crate::proto::{
    encode_feature, encode_layer, encode_tile, encode_value, feature_fields, features_fields,
    geom_type_code, keys_fields, layer_fields, layers_fields, string_field, value_fields,
    values_fields, FeatureModel, LayerModel, ValueModel, apply_feature, apply_layer, apply_value,
    decode_feature, decode_layer, decode_tile, decode_value, feature_default, feature_step,
    features_model, layer_default, layer_step, layers_model, string_payload, strings_model,
    tile_step, value_default, value_step, values_model, Feature, GeomType, Layer, Tile, TileModel,
    Value, ITEM_GROUP_DEPTH, LAYER_GROUP_DEPTH, TILE_GROUP_DEPTH,
};
use crate::wire::{
    fields_bytes, lemma_fields_bytes_concat, lemma_fields_bytes_single, write_bytes_field,
    write_fixed32_field, write_fixed64_field, write_packed, write_varint_field, i64_to_u64,
    zigzag_encode_i64, decode_fields, lemma_decode_fields_unfold, lemma_parse_field_bounds,
    parse_varint, payload_value, read_field, read_packed, truncate_u32, u64_to_i64,
    zigzag_decode_i64, Payload, WireField, WireValue,
};

verus! {

broadcast use {encode_utf8_valid_utf8, encode_utf8_decode_utf8};

/// Reads the UTF-8 string payload `s[a..b]`, whose length prefix starts at
/// `vstart`.
fn read_string(s: &[u8], vstart: usize, a: usize, b: usize, end: usize) -> (r: Option<String>)
    requires
        vstart <= a <= b <= end <= s@.len(),
        parse_varint(s@.subrange(vstart as int, end as int)) == Some(
            ((b - a) as nat, (a - vstart) as nat),
        ),
    ensures
        match string_payload(WireValue::Bytes(s@.subrange(a as int, b as int))) {
            Some(c) => r matches Some(st) && st@ == c,
            None => r.is_none(),
        },
{
    let ghost t = s@.subrange(vstart as int, end as int);
    let ghost p = s@.subrange(a as int, b as int);
    assert(t.subrange((a - vstart) as int, (b - vstart) as int) =~= p);
    match borrow_str_at(s, vstart, end) {
        Ok(st) => {
            proof {
                assert(valid_utf8(p));
                assert(st.spec_bytes() == p);
                assert(decode_utf8(encode_utf8(st@)) == st@);
            }
            Some(st.to_owned())
        },
        Err(_) => None,
    }
}

/// Adds a repeated `uint32` field occurrence to `vs`.
fn append_u32s_exec(vs: &mut Vec<u32>, p: Payload, s: &[u8]) -> (ok: bool)
    requires
        p matches Payload::Bytes(a, b) ==> a <= b <= s@.len(),
    ensures
        match crate::proto::append_u32s(old(vs)@, payload_value(p, s@)) {
            Some(w) => ok && final(vs)@ == w,
            None => !ok,
        },
{
    match p {
        Payload::Varint(v) => {
            vs.push(truncate_u32(v));
            true
        },
        Payload::Bytes(a, b) => read_packed(s, a, b, vs),
        _ => false,
    }
}

/// The field facts that `read_field` gives about a length-delimited payload.
pub open spec fn payload_framed(p: Payload, s: Seq<u8>, vstart: usize, end: usize) -> bool {
    p matches Payload::Bytes(a, b) ==> vstart <= a <= b <= end && parse_varint(
        s.subrange(vstart as int, end as int),
    ) == Some(((b - a) as nat, (a - vstart) as nat))
}

fn apply_value_exec(acc: &mut Value, num: u64, p: Payload, s: &[u8], vstart: usize, end: usize) -> (ok: bool)
    requires
        end <= s@.len(),
        payload_framed(p, s@, vstart, end),
    ensures
        match apply_value(old(acc)@, WireField { num, value: payload_value(p, s@) }) {
            Some(m) => ok && final(acc)@ == m,
            None => !ok,
        },
{
    if num == 1 {
        match p {
            Payload::Bytes(a, b) => match read_string(s, vstart, a, b, end) {
                Some(st) => {
                    acc.string_value = Some(st);
                    true
                },
                None => false,
            },
            _ => false,
        }
    } else if num == 2 {
        match p {
            Payload::Fixed32(v) => {
                acc.float_value = Some(v);
                true
            },
            _ => false,
        }
    } else if num == 3 {
        match p {
            Payload::Fixed64(v) => {
                acc.double_value = Some(v);
                true
            },
            _ => false,
        }
    } else if num == 4 {
        match p {
            Payload::Varint(v) => {
                acc.int_value = Some(u64_to_i64(v));
                true
            },
            _ => false,
        }
    } else if num == 5 {
        match p {
            Payload::Varint(v) => {
                acc.uint_value = Some(v);
                true
            },
            _ => false,
        }
    } else if num == 6 {
        match p {
            Payload::Varint(v) => {
                acc.sint_value = Some(zigzag_decode_i64(v));
                true
            },
            _ => false,
        }
    } else if num == 7 {
        match p {
            Payload::Varint(v) => {
                acc.bool_value = Some(v != 0);
                true
            },
            _ => false,
        }
    } else {
        true
    }
}

/// A value with no field set.
pub fn empty_value() -> (v: Value)
    ensures
        v@ == value_default(),
{
    Value {
        string_value: None,
        float_value: None,
        double_value: None,
        int_value: None,
        uint_value: None,
        sint_value: None,
        bool_value: None,
    }
}

/// Decodes the value message `s[start..end]`.
pub fn decode_value_at(s: &[u8], start: usize, end: usize) -> (r: Option<Value>)
    requires
        start <= end <= s@.len(),
    ensures
        match decode_value(s@.subrange(start as int, end as int)) {
            Some(m) => r matches Some(v) && v@ == m,
            None => r.is_none(),
        },
{
    let ghost whole = s@.subrange(start as int, end as int);
    let mut acc = empty_value();
    let mut pos = start;
    while pos < end
        invariant
            start <= pos <= end <= s@.len(),
            whole == s@.subrange(start as int, end as int),
            decode_value(whole) == decode_fields(
                s@.subrange(pos as int, end as int),
                ITEM_GROUP_DEPTH as nat,
                acc@,
                value_step(),
            ),
        decreases end - pos,
    {
        let ghost t = s@.subrange(pos as int, end as int);
        proof {
            lemma_parse_field_bounds(t, ITEM_GROUP_DEPTH as nat);
            lemma_decode_fields_unfold(t, ITEM_GROUP_DEPTH as nat, acc@, value_step());
        }
        let (num, p, next, vstart) = match read_field(s, pos, end, ITEM_GROUP_DEPTH) {
            Some(x) => x,
            None => return None,
        };
        assert(t.skip((next - pos) as int) =~= s@.subrange(next as int, end as int));
        if !apply_value_exec(&mut acc, num, p, s, vstart, end) {
            return None;
        }
        pos = next;
    }
    Some(acc)
}

/// A feature with no field set.
pub fn empty_feature() -> (f: Feature)
    ensures
        f@ == feature_default(),
{
    Feature { id: None, tags: Vec::new(), geom_type: None, geometry: Vec::new() }
}

fn apply_feature_exec(acc: &mut Feature, num: u64, p: Payload, s: &[u8]) -> (ok: bool)
    requires
        p matches Payload::Bytes(a, b) ==> a <= b <= s@.len(),
    ensures
        match apply_feature(old(acc)@, WireField { num, value: payload_value(p, s@) }) {
            Some(m) => ok && final(acc)@ == m,
            None => !ok,
        },
{
    if num == 1 {
        match p {
            Payload::Varint(v) => {
                acc.id = Some(v);
                true
            },
            _ => false,
        }
    } else if num == 2 {
        append_u32s_exec(&mut acc.tags, p, s)
    } else if num == 3 {
        match p {
            Payload::Varint(v) => {
                let c = truncate_u32(v);
                if c == 0 {
                    acc.geom_type = Some(GeomType::Unknown);
                } else if c == 1 {
                    acc.geom_type = Some(GeomType::Point);
                } else if c == 2 {
                    acc.geom_type = Some(GeomType::Linestring);
                } else if c == 3 {
                    acc.geom_type = Some(GeomType::Polygon);
                }
                true
            },
            _ => false,
        }
    } else if num == 4 {
        append_u32s_exec(&mut acc.geometry, p, s)
    } else {
        true
    }
}

/// Decodes the feature message `s[start..end]`.
pub fn decode_feature_at(s: &[u8], start: usize, end: usize) -> (r: Option<Feature>)
    requires
        start <= end <= s@.len(),
    ensures
        match decode_feature(s@.subrange(start as int, end as int)) {
            Some(m) => r matches Some(v) && v@ == m,
            None => r.is_none(),
        },
{
    let ghost whole = s@.subrange(start as int, end as int);
    let mut acc = empty_feature();
    let mut pos = start;
    while pos < end
        invariant
            start <= pos <= end <= s@.len(),
            whole == s@.subrange(start as int, end as int),
            decode_feature(whole) == decode_fields(
                s@.subrange(pos as int, end as int),
                ITEM_GROUP_DEPTH as nat,
                acc@,
                feature_step(),
            ),
        decreases end - pos,
    {
        let ghost t = s@.subrange(pos as int, end as int);
        proof {
            lemma_parse_field_bounds(t, ITEM_GROUP_DEPTH as nat);
            lemma_decode_fields_unfold(t, ITEM_GROUP_DEPTH as nat, acc@, feature_step());
        }
        let (num, p, next, vstart) = match read_field(s, pos, end, ITEM_GROUP_DEPTH) {
            Some(x) => x,
            None => return None,
        };
        assert(t.skip((next - pos) as int) =~= s@.subrange(next as int, end as int));
        if !apply_feature_exec(&mut acc, num, p, s) {
            return None;
        }
        pos = next;
    }
    Some(acc)
}


/// A layer with no field set: version 1, no name.
pub fn empty_layer() -> (l: Layer)
    ensures
        l@ == layer_default(),
{
    let l = Layer {
        version: 1,
        name: String::new(),
        features: Vec::new(),
        keys: Vec::new(),
        values: Vec::new(),
        extent: None,
    };
    assert(l@.features =~= Seq::<crate::proto::FeatureModel>::empty());
    assert(l@.keys =~= Seq::<Seq<char>>::empty());
    assert(l@.values =~= Seq::<crate::proto::ValueModel>::empty());
    l
}

fn apply_layer_exec(acc: &mut Layer, num: u64, p: Payload, s: &[u8], vstart: usize, end: usize) -> (ok: bool)
    requires
        end <= s@.len(),
        payload_framed(p, s@, vstart, end),
    ensures
        match apply_layer(old(acc)@, WireField { num, value: payload_value(p, s@) }) {
            Some(m) => ok && final(acc)@ == m,
            None => !ok,
        },
{
    if num == 15 {
        match p {
            Payload::Varint(v) => {
                acc.version = truncate_u32(v);
                true
            },
            _ => false,
        }
    } else if num == 1 {
        match p {
            Payload::Bytes(a, b) => match read_string(s, vstart, a, b, end) {
                Some(st) => {
                    acc.name = st;
                    true
                },
                None => false,
            },
            _ => false,
        }
    } else if num == 2 {
        match p {
            Payload::Bytes(a, b) => match decode_feature_at(s, a, b) {
                Some(x) => {
                    let ghost before = acc.features@;
                    acc.features.push(x);
                    assert(features_model(acc.features@) =~= features_model(before).push(x@));
                    true
                },
                None => false,
            },
            _ => false,
        }
    } else if num == 3 {
        match p {
            Payload::Bytes(a, b) => match read_string(s, vstart, a, b, end) {
                Some(st) => {
                    let ghost before = acc.keys@;
                    acc.keys.push(st);
                    assert(strings_model(acc.keys@) =~= strings_model(before).push(st@));
                    true
                },
                None => false,
            },
            _ => false,
        }
    } else if num == 4 {
        match p {
            Payload::Bytes(a, b) => match decode_value_at(s, a, b) {
                Some(x) => {
                    let ghost before = acc.values@;
                    acc.values.push(x);
                    assert(values_model(acc.values@) =~= values_model(before).push(x@));
                    true
                },
                None => false,
            },
            _ => false,
        }
    } else if num == 5 {
        match p {
            Payload::Varint(v) => {
                acc.extent = Some(truncate_u32(v));
                true
            },
            _ => false,
        }
    } else {
        true
    }
}

/// Decodes the layer message `s[start..end]`.
pub fn decode_layer_at(s: &[u8], start: usize, end: usize) -> (r: Option<Layer>)
    requires
        start <= end <= s@.len(),
    ensures
        match decode_layer(s@.subrange(start as int, end as int)) {
            Some(m) => r matches Some(v) && v@ == m,
            None => r.is_none(),
        },
{
    let ghost whole = s@.subrange(start as int, end as int);
    let mut acc = empty_layer();
    let mut pos = start;
    while pos < end
        invariant
            start <= pos <= end <= s@.len(),
            whole == s@.subrange(start as int, end as int),
            decode_layer(whole) == decode_fields(
                s@.subrange(pos as int, end as int),
                LAYER_GROUP_DEPTH as nat,
                acc@,
                layer_step(),
            ),
        decreases end - pos,
    {
        let ghost t = s@.subrange(pos as int, end as int);
        proof {
            lemma_parse_field_bounds(t, LAYER_GROUP_DEPTH as nat);
            lemma_decode_fields_unfold(t, LAYER_GROUP_DEPTH as nat, acc@, layer_step());
        }
        let (num, p, next, vstart) = match read_field(s, pos, end, LAYER_GROUP_DEPTH) {
            Some(x) => x,
            None => return None,
        };
        assert(t.skip((next - pos) as int) =~= s@.subrange(next as int, end as int));
        if !apply_layer_exec(&mut acc, num, p, s, vstart, end) {
            return None;
        }
        pos = next;
    }
    Some(acc)
}

/// Decodes the tile message `s[start..end]`.
pub fn decode_tile_at(s: &[u8], start: usize, end: usize) -> (r: Option<Tile>)
    requires
        start <= end <= s@.len(),
    ensures
        match decode_tile(s@.subrange(start as int, end as int)) {
            Some(m) => r matches Some(v) && v@ == m,
            None => r.is_none(),
        },
{
    let ghost whole = s@.subrange(start as int, end as int);
    let mut acc = Tile { layers: Vec::new() };
    assert(acc@ == TileModel { layers: seq![] }) by {
        assert(acc@.layers =~= Seq::<crate::proto::LayerModel>::empty());
    }
    let mut pos = start;
    while pos < end
        invariant
            start <= pos <= end <= s@.len(),
            whole == s@.subrange(start as int, end as int),
            decode_tile(whole) == decode_fields(
                s@.subrange(pos as int, end as int),
                TILE_GROUP_DEPTH as nat,
                acc@,
                tile_step(),
            ),
        decreases end - pos,
    {
        let ghost t = s@.subrange(pos as int, end as int);
        proof {
            lemma_parse_field_bounds(t, TILE_GROUP_DEPTH as nat);
            lemma_decode_fields_unfold(t, TILE_GROUP_DEPTH as nat, acc@, tile_step());
        }
        let (num, p, next, vstart) = match read_field(s, pos, end, TILE_GROUP_DEPTH) {
            Some(x) => x,
            None => return None,
        };
        assert(t.skip((next - pos) as int) =~= s@.subrange(next as int, end as int));
        if num == 3 {
            match p {
                Payload::Bytes(a, b) => match decode_layer_at(s, a, b) {
                    Some(x) => {
                        let ghost before = acc.layers@;
                        acc.layers.push(x);
                        assert(layers_model(acc.layers@) =~= layers_model(before).push(x@));
                    },
                    None => return None,
                },
                _ => return None,
            }
        }
        pos = next;
    }
    Some(acc)
}

/// Decodes a whole buffer as a tile message.
pub fn decode_tile_bytes(s: &[u8]) -> (r: Option<Tile>)
    ensures
        match decode_tile(s@) {
            Some(m) => r matches Some(v) && v@ == m,
            None => r.is_none(),
        },
{
    assert(s@.subrange(0, s@.len() as int) =~= s@);
    decode_tile_at(s, 0, s.len())
}


/// Appends the bytes of the fields `a` and then `b`, given that `out` already
/// ends with those of `a`.
proof fn lemma_append_part(start: Seq<u8>, a: Seq<WireField>, b: Seq<WireField>, out: Seq<u8>)
    requires
        out == start + fields_bytes(a) + fields_bytes(b),
    ensures
        out == start + fields_bytes(a + b),
{
    lemma_fields_bytes_concat(a, b);
    assert(start + fields_bytes(a) + fields_bytes(b) =~= start + (fields_bytes(a) + fields_bytes(b)));
}

proof fn lemma_empty_part(out: Seq<u8>)
    ensures
        out == out + fields_bytes(Seq::<WireField>::empty()),
{
    assert(out + fields_bytes(Seq::<WireField>::empty()) =~= out);
}

/// Appends the bytes of a value message.
pub fn encode_value_into(out: &mut Vec<u8>, v: &Value)
    ensures
        final(out)@ == old(out)@ + encode_value(v@),
{
    let ghost start = out@;
    let ghost m = v@;
    let ghost s1: Seq<WireField> = match m.string_value {
        Some(s) => seq![string_field(1, s)],
        None => seq![],
    };
    let ghost s2: Seq<WireField> = match m.float_value {
        Some(b) => seq![WireField { num: 2, value: WireValue::Fixed32(b) }],
        None => seq![],
    };
    let ghost s3: Seq<WireField> = match m.double_value {
        Some(b) => seq![WireField { num: 3, value: WireValue::Fixed64(b) }],
        None => seq![],
    };
    let ghost s4: Seq<WireField> = match m.int_value {
        Some(i) => seq![WireField { num: 4, value: WireValue::Varint(crate::wire::as_u64(i as int) as u64) }],
        None => seq![],
    };
    let ghost s5: Seq<WireField> = match m.uint_value {
        Some(u) => seq![WireField { num: 5, value: WireValue::Varint(u) }],
        None => seq![],
    };
    let ghost s6: Seq<WireField> = match m.sint_value {
        Some(i) => seq![WireField { num: 6, value: WireValue::Varint(crate::wire::zigzag_encode(i as int) as u64) }],
        None => seq![],
    };
    let ghost s7: Seq<WireField> = match m.bool_value {
        Some(b) => seq![WireField { num: 7, value: WireValue::Varint(if b { 1 } else { 0 }) }],
        None => seq![],
    };
    assert(value_fields(m) == s1 + s2 + s3 + s4 + s5 + s6 + s7);
    proof {
        lemma_empty_part(start);
    }
    match &v.string_value {
        Some(st) => {
            write_bytes_field(out, 1, st.as_str().as_bytes());
            proof { lemma_fields_bytes_single(s1[0]); }
        },
        None => {},
    }
    assert(out@ == start + fields_bytes(s1));
    let ghost o1 = out@;
    proof { lemma_empty_part(o1); }
    match v.float_value {
        Some(b) => {
            write_fixed32_field(out, 2, b);
            proof { lemma_fields_bytes_single(s2[0]); }
        },
        None => {},
    }
    proof { lemma_append_part(start, s1, s2, out@); }
    let ghost o2 = out@;
    proof { lemma_empty_part(o2); }
    match v.double_value {
        Some(b) => {
            write_fixed64_field(out, 3, b);
            proof { lemma_fields_bytes_single(s3[0]); }
        },
        None => {},
    }
    proof { lemma_append_part(start, s1 + s2, s3, out@); }
    let ghost o3 = out@;
    proof { lemma_empty_part(o3); }
    match v.int_value {
        Some(i) => {
            write_varint_field(out, 4, i64_to_u64(i));
            proof { lemma_fields_bytes_single(s4[0]); }
        },
        None => {},
    }
    proof { lemma_append_part(start, s1 + s2 + s3, s4, out@); }
    let ghost o4 = out@;
    proof { lemma_empty_part(o4); }
    match v.uint_value {
        Some(u) => {
            write_varint_field(out, 5, u);
            proof { lemma_fields_bytes_single(s5[0]); }
        },
        None => {},
    }
    proof { lemma_append_part(start, s1 + s2 + s3 + s4, s5, out@); }
    let ghost o5 = out@;
    proof { lemma_empty_part(o5); }
    match v.sint_value {
        Some(i) => {
            write_varint_field(out, 6, zigzag_encode_i64(i));
            proof { lemma_fields_bytes_single(s6[0]); }
        },
        None => {},
    }
    proof { lemma_append_part(start, s1 + s2 + s3 + s4 + s5, s6, out@); }
    let ghost o6 = out@;
    proof { lemma_empty_part(o6); }
    match v.bool_value {
        Some(b) => {
            write_varint_field(out, 7, if b { 1 } else { 0 });
            proof { lemma_fields_bytes_single(s7[0]); }
        },
        None => {},
    }
    proof { lemma_append_part(start, s1 + s2 + s3 + s4 + s5 + s6, s7, out@); }
}


/// Appends the bytes of a feature message.
pub fn encode_feature_into(out: &mut Vec<u8>, f: &Feature)
    ensures
        final(out)@ == old(out)@ + encode_feature(f@),
{
    let ghost start = out@;
    let ghost m = f@;
    let ghost s1: Seq<WireField> = match m.id {
        Some(id) => seq![WireField { num: 1, value: WireValue::Varint(id) }],
        None => seq![],
    };
    let ghost s2: Seq<WireField> = if m.tags.len() > 0 {
        seq![WireField { num: 2, value: WireValue::Bytes(crate::wire::packed_bytes(m.tags)) }]
    } else {
        seq![]
    };
    let ghost s3: Seq<WireField> = match m.geom_type {
        Some(t) => seq![WireField { num: 3, value: WireValue::Varint(geom_type_code(t) as u64) }],
        None => seq![],
    };
    let ghost s4: Seq<WireField> = if m.geometry.len() > 0 {
        seq![WireField { num: 4, value: WireValue::Bytes(crate::wire::packed_bytes(m.geometry)) }]
    } else {
        seq![]
    };
    assert(feature_fields(m) == s1 + s2 + s3 + s4);
    proof { lemma_empty_part(start); }
    match f.id {
        Some(id) => {
            write_varint_field(out, 1, id);
            proof { lemma_fields_bytes_single(s1[0]); }
        },
        None => {},
    }
    assert(out@ == start + fields_bytes(s1));
    let ghost o1 = out@;
    proof { lemma_empty_part(o1); }
    if f.tags.len() > 0 {
        let mut packed: Vec<u8> = Vec::new();
        write_packed(&mut packed, f.tags.as_slice());
        assert(packed@ =~= crate::wire::packed_bytes(m.tags));
        write_bytes_field(out, 2, packed.as_slice());
        proof { lemma_fields_bytes_single(s2[0]); }
    }
    proof { lemma_append_part(start, s1, s2, out@); }
    let ghost o2 = out@;
    proof { lemma_empty_part(o2); }
    match f.geom_type {
        Some(t) => {
            write_varint_field(out, 3, t.to_i32() as u64);
            proof { lemma_fields_bytes_single(s3[0]); }
        },
        None => {},
    }
    proof { lemma_append_part(start, s1 + s2, s3, out@); }
    let ghost o3 = out@;
    proof { lemma_empty_part(o3); }
    if f.geometry.len() > 0 {
        let mut packed: Vec<u8> = Vec::new();
        write_packed(&mut packed, f.geometry.as_slice());
        assert(packed@ =~= crate::wire::packed_bytes(m.geometry));
        write_bytes_field(out, 4, packed.as_slice());
        proof { lemma_fields_bytes_single(s4[0]); }
    }
    proof { lemma_append_part(start, s1 + s2 + s3, s4, out@); }
}

/// Adding a feature adds its field after the others.
pub proof fn lemma_features_fields_push(a: Seq<FeatureModel>, x: FeatureModel)
    ensures
        features_fields(a.push(x)) == features_fields(a) + seq![WireField { num: 2, value: WireValue::Bytes(encode_feature(x)) }],
    decreases a.len(),
{
    if a.len() == 0 {
        assert(a.push(x).drop_first() =~= a);
        assert(features_fields(a.push(x)) =~= features_fields(a) + seq![WireField { num: 2, value: WireValue::Bytes(encode_feature(x)) }]);
    } else {
        assert(a.push(x).drop_first() =~= a.drop_first().push(x));
        lemma_features_fields_push(a.drop_first(), x);
        assert(features_fields(a.push(x)) =~= features_fields(a) + seq![WireField { num: 2, value: WireValue::Bytes(encode_feature(x)) }]);
    }
}

/// Adding a key adds its field after the others.
pub proof fn lemma_keys_fields_push(a: Seq<Seq<char>>, x: Seq<char>)
    ensures
        keys_fields(a.push(x)) == keys_fields(a) + seq![string_field(3, x)],
    decreases a.len(),
{
    if a.len() == 0 {
        assert(a.push(x).drop_first() =~= a);
        assert(keys_fields(a.push(x)) =~= keys_fields(a) + seq![string_field(3, x)]);
    } else {
        assert(a.push(x).drop_first() =~= a.drop_first().push(x));
        lemma_keys_fields_push(a.drop_first(), x);
        assert(keys_fields(a.push(x)) =~= keys_fields(a) + seq![string_field(3, x)]);
    }
}

/// Adding a value adds its field after the others.
pub proof fn lemma_values_fields_push(a: Seq<ValueModel>, x: ValueModel)
    ensures
        values_fields(a.push(x)) == values_fields(a) + seq![WireField { num: 4, value: WireValue::Bytes(encode_value(x)) }],
    decreases a.len(),
{
    if a.len() == 0 {
        assert(a.push(x).drop_first() =~= a);
        assert(values_fields(a.push(x)) =~= values_fields(a) + seq![WireField { num: 4, value: WireValue::Bytes(encode_value(x)) }]);
    } else {
        assert(a.push(x).drop_first() =~= a.drop_first().push(x));
        lemma_values_fields_push(a.drop_first(), x);
        assert(values_fields(a.push(x)) =~= values_fields(a) + seq![WireField { num: 4, value: WireValue::Bytes(encode_value(x)) }]);
    }
}

/// Adding a layer adds its field after the others.
pub proof fn lemma_layers_fields_push(a: Seq<LayerModel>, x: LayerModel)
    ensures
        layers_fields(a.push(x)) == layers_fields(a) + seq![WireField { num: 3, value: WireValue::Bytes(encode_layer(x)) }],
    decreases a.len(),
{
    if a.len() == 0 {
        assert(a.push(x).drop_first() =~= a);
        assert(layers_fields(a.push(x)) =~= layers_fields(a) + seq![WireField { num: 3, value: WireValue::Bytes(encode_layer(x)) }]);
    } else {
        assert(a.push(x).drop_first() =~= a.drop_first().push(x));
        lemma_layers_fields_push(a.drop_first(), x);
        assert(layers_fields(a.push(x)) =~= layers_fields(a) + seq![WireField { num: 3, value: WireValue::Bytes(encode_layer(x)) }]);
    }
}

/// Appends the bytes of a layer message.
pub fn encode_layer_into(out: &mut Vec<u8>, l: &Layer)
    ensures
        final(out)@ == old(out)@ + encode_layer(l@),
{
    let ghost start = out@;
    let ghost m = l@;
    let ghost s1 = seq![string_field(1, m.name)];
    let ghost s5: Seq<WireField> = match m.extent {
        Some(e) => seq![WireField { num: 5, value: WireValue::Varint(e as u64) }],
        None => seq![],
    };
    let ghost s6 = seq![WireField { num: 15, value: WireValue::Varint(m.version as u64) }];
    assert(layer_fields(m) == s1 + features_fields(m.features) + keys_fields(m.keys) + values_fields(
        m.values,
    ) + s5 + s6);
    write_bytes_field(out, 1, l.name.as_str().as_bytes());
    proof { lemma_fields_bytes_single(s1[0]); }
    let ghost base1 = start + fields_bytes(s1);
    assert(out@ == base1);
    // features
    let mut i: usize = 0;
    proof {
        assert(features_model(l.features@.take(0)) =~= Seq::<FeatureModel>::empty());
        lemma_empty_part(base1);
    }
    while i < l.features.len()
        invariant
            i <= l.features@.len(),
            out@ == base1 + fields_bytes(features_fields(features_model(l.features@.take(i as int)))),
        decreases l.features@.len() - i,
    {
        let mut buf: Vec<u8> = Vec::new();
        encode_feature_into(&mut buf, &l.features[i]);
        assert(buf@ =~= encode_feature(l.features@[i as int]@));
        write_bytes_field(out, 2, buf.as_slice());
        proof {
            let pre = features_model(l.features@.take(i as int));
            let x = l.features@[i as int]@;
            assert(features_model(l.features@.take(i + 1)) =~= pre.push(x));
            lemma_features_fields_push(pre, x);
            let fx = WireField { num: 2, value: WireValue::Bytes(encode_feature(x)) };
            lemma_fields_bytes_single(fx);
            lemma_fields_bytes_concat(features_fields(pre), seq![fx]);
            assert(out@ =~= base1 + fields_bytes(features_fields(pre.push(x))));
        }
        i = i + 1;
    }
    assert(l.features@.take(i as int) =~= l.features@);
    proof { lemma_append_part(start, s1, features_fields(m.features), out@); }
    let ghost base2 = start + fields_bytes(s1 + features_fields(m.features));
    // keys
    let mut i: usize = 0;
    proof {
        assert(strings_model(l.keys@.take(0)) =~= Seq::<Seq<char>>::empty());
        lemma_empty_part(base2);
    }
    while i < l.keys.len()
        invariant
            i <= l.keys@.len(),
            out@ == base2 + fields_bytes(keys_fields(strings_model(l.keys@.take(i as int)))),
        decreases l.keys@.len() - i,
    {
        write_bytes_field(out, 3, l.keys[i].as_str().as_bytes());
        proof {
            let pre = strings_model(l.keys@.take(i as int));
            let x = l.keys@[i as int]@;
            assert(strings_model(l.keys@.take(i + 1)) =~= pre.push(x));
            lemma_keys_fields_push(pre, x);
            lemma_fields_bytes_single(string_field(3, x));
            lemma_fields_bytes_concat(keys_fields(pre), seq![string_field(3, x)]);
            assert(out@ =~= base2 + fields_bytes(keys_fields(pre.push(x))));
        }
        i = i + 1;
    }
    assert(l.keys@.take(i as int) =~= l.keys@);
    proof { lemma_append_part(start, s1 + features_fields(m.features), keys_fields(m.keys), out@); }
    let ghost p3 = s1 + features_fields(m.features) + keys_fields(m.keys);
    let ghost base3 = start + fields_bytes(p3);
    // values
    let mut i: usize = 0;
    proof {
        assert(values_model(l.values@.take(0)) =~= Seq::<ValueModel>::empty());
        lemma_empty_part(base3);
    }
    while i < l.values.len()
        invariant
            i <= l.values@.len(),
            out@ == base3 + fields_bytes(values_fields(values_model(l.values@.take(i as int)))),
        decreases l.values@.len() - i,
    {
        let mut buf: Vec<u8> = Vec::new();
        encode_value_into(&mut buf, &l.values[i]);
        assert(buf@ =~= encode_value(l.values@[i as int]@));
        write_bytes_field(out, 4, buf.as_slice());
        proof {
            let pre = values_model(l.values@.take(i as int));
            let x = l.values@[i as int]@;
            assert(values_model(l.values@.take(i + 1)) =~= pre.push(x));
            lemma_values_fields_push(pre, x);
            let fx = WireField { num: 4, value: WireValue::Bytes(encode_value(x)) };
            lemma_fields_bytes_single(fx);
            lemma_fields_bytes_concat(values_fields(pre), seq![fx]);
            assert(out@ =~= base3 + fields_bytes(values_fields(pre.push(x))));
        }
        i = i + 1;
    }
    assert(l.values@.take(i as int) =~= l.values@);
    proof { lemma_append_part(start, p3, values_fields(m.values), out@); }
    let ghost p4 = p3 + values_fields(m.values);
    let ghost o4 = out@;
    proof { lemma_empty_part(o4); }
    match l.extent {
        Some(e) => {
            write_varint_field(out, 5, e as u64);
            proof { lemma_fields_bytes_single(s5[0]); }
        },
        None => {},
    }
    proof { lemma_append_part(start, p4, s5, out@); }
    write_varint_field(out, 15, l.version as u64);
    proof {
        lemma_fields_bytes_single(s6[0]);
        lemma_append_part(start, p4 + s5, s6, out@);
    }
}

/// Appends the bytes of a tile message.
pub fn encode_tile_into(out: &mut Vec<u8>, t: &Tile)
    ensures
        final(out)@ == old(out)@ + encode_tile(t@),
{
    let ghost start = out@;
    let mut i: usize = 0;
    proof {
        assert(layers_model(t.layers@.take(0)) =~= Seq::<LayerModel>::empty());
        lemma_empty_part(start);
    }
    while i < t.layers.len()
        invariant
            i <= t.layers@.len(),
            out@ == start + fields_bytes(layers_fields(layers_model(t.layers@.take(i as int)))),
        decreases t.layers@.len() - i,
    {
        let mut buf: Vec<u8> = Vec::new();
        encode_layer_into(&mut buf, &t.layers[i]);
        assert(buf@ =~= encode_layer(t.layers@[i as int]@));
        write_bytes_field(out, 3, buf.as_slice());
        proof {
            let pre = layers_model(t.layers@.take(i as int));
            let x = t.layers@[i as int]@;
            assert(layers_model(t.layers@.take(i + 1)) =~= pre.push(x));
            lemma_layers_fields_push(pre, x);
            let fx = WireField { num: 3, value: WireValue::Bytes(encode_layer(x)) };
            lemma_fields_bytes_single(fx);
            lemma_fields_bytes_concat(layers_fields(pre), seq![fx]);
            assert(out@ =~= start + fields_bytes(layers_fields(pre.push(x))));
        }
        i = i + 1;
    }
    assert(t.layers@.take(i as int) =~= t.layers@);
}


/// A copy of a value message.
pub fn clone_value(v: &Value) -> (r: Value)
    ensures
        r@ == v@,
{
    Value {
        string_value: match &v.string_value {
            Some(s) => Some(s.clone()),
            None => None,
        },
        float_value: v.float_value,
        double_value: v.double_value,
        int_value: v.int_value,
        uint_value: v.uint_value,
        sint_value: v.sint_value,
        bool_value: v.bool_value,
    }
}

fn clone_u32s(v: &Vec<u32>) -> (r: Vec<u32>)
    ensures
        r@ == v@,
{
    let mut out: Vec<u32> = Vec::new();
    let mut i: usize = 0;
    while i < v.len()
        invariant
            i <= v@.len(),
            out@ == v@.take(i as int),
        decreases v@.len() - i,
    {
        out.push(v[i]);
        i = i + 1;
        assert(out@ =~= v@.take(i as int));
    }
    assert(v@.take(i as int) =~= v@);
    out
}

/// A copy of a feature message.
pub fn clone_feature(f: &Feature) -> (r: Feature)
    ensures
        r@ == f@,
{
    Feature {
        id: f.id,
        tags: clone_u32s(&f.tags),
        geom_type: f.geom_type,
        geometry: clone_u32s(&f.geometry),
    }
}

/// A copy of a layer message.
pub fn clone_layer(l: &Layer) -> (r: Layer)
    ensures
        r@ == l@,
{
    let mut features: Vec<Feature> = Vec::new();
    let mut i: usize = 0;
    while i < l.features.len()
        invariant
            i <= l.features@.len(),
            features@.len() == i,
            forall|j: int| 0 <= j < i ==> (#[trigger] features@[j])@ == l.features@[j]@,
        decreases l.features@.len() - i,
    {
        features.push(clone_feature(&l.features[i]));
        i = i + 1;
    }
    assert(features_model(features@) =~= features_model(l.features@));
    let mut keys: Vec<String> = Vec::new();
    let mut i: usize = 0;
    while i < l.keys.len()
        invariant
            i <= l.keys@.len(),
            keys@.len() == i,
            forall|j: int| 0 <= j < i ==> (#[trigger] keys@[j])@ == l.keys@[j]@,
        decreases l.keys@.len() - i,
    {
        keys.push(l.keys[i].clone());
        i = i + 1;
    }
    assert(strings_model(keys@) =~= strings_model(l.keys@));
    let mut values: Vec<Value> = Vec::new();
    let mut i: usize = 0;
    while i < l.values.len()
        invariant
            i <= l.values@.len(),
            values@.len() == i,
            forall|j: int| 0 <= j < i ==> (#[trigger] values@[j])@ == l.values@[j]@,
        decreases l.values@.len() - i,
    {
        values.push(clone_value(&l.values[i]));
        i = i + 1;
    }
    assert(values_model(values@) =~= values_model(l.values@));
    Layer {
        version: l.version,
        name: l.name.clone(),
        features,
        keys,
        values,
        extent: l.extent,
    }
}

/// A copy of a tile message.
pub fn clone_tile(t: &Tile) -> (r: Tile)
    ensures
        r@ == t@,
{
    let mut layers: Vec<Layer> = Vec::new();
    let mut i: usize = 0;
    while i < t.layers.len()
        invariant
            i <= t.layers@.len(),
            layers@.len() == i,
            forall|j: int| 0 <= j < i ==> (#[trigger] layers@[j])@ == t.layers@[j]@,
        decreases t.layers@.len() - i,
    {
        layers.push(clone_layer(&t.layers[i]));
        i = i + 1;
    }
    assert(layers_model(layers@) =~= layers_model(t.layers@));
    Tile { layers }
}

} // verus!
