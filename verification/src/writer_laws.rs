//! What the writer promises across calls: layer chunks concatenate into a
//! tile, a tag reads back as exactly its property, and the automatic integer
//! encoding is never the longer one.
use vstd::prelude::*;

use crate::proto::{
    decode_tile, encode_tile, encode_value, layers_fields, value_fields, LayerModel, TileModel,
};
use crate::roundtrip::lemma_tile_roundtrip;
use crate::reader::{pair_count, properties_from, property_at, value_kind};
use crate::types::{auto_int_kind, ValueKind};
use crate::wire::{
    as_u64, field_bytes, lemma_fields_bytes_concat, lemma_fields_bytes_single,
    lemma_varint_bytes_len, varint_bytes, zigzag_encode, WireField, WireValue,
};
use crate::tile_laws::{lemma_odd_tags_fail, lemma_pair_append};
use crate::writer::{interned, lemma_interned, tag_outcome, value_message};

verus! {

proof fn lemma_layers_fields_concat(a: Seq<LayerModel>, b: Seq<LayerModel>)
    ensures
        layers_fields(a + b) == layers_fields(a) + layers_fields(b),
    decreases a.len(),
{
    if a.len() == 0 {
        assert(a + b =~= b);
        assert(layers_fields(a) + layers_fields(b) =~= layers_fields(b));
    } else {
        assert((a + b).drop_first() =~= a.drop_first() + b);
        assert((a + b)[0] == a[0]);
        lemma_layers_fields_concat(a.drop_first(), b);
        assert(layers_fields(a + b) =~= layers_fields(a) + layers_fields(b));
    }
}

/// The bytes of a tile are the bytes of its first layers followed by the
/// bytes of the others: layers encoded on their own, as one-layer tiles,
/// concatenate into the tile that holds them all, in that order.
pub proof fn lemma_tile_concat(a: TileModel, b: TileModel)
    ensures
        encode_tile(TileModel { layers: a.layers + b.layers }) == encode_tile(a) + encode_tile(b),
{
    lemma_layers_fields_concat(a.layers, b.layers);
    lemma_fields_bytes_concat(layers_fields(a.layers), layers_fields(b.layers));
}

/// Layer chunks encoded on their own read back, once concatenated, as one
/// tile that holds the layers of the first chunk and then those of the
/// second.
pub proof fn lemma_chunks_read_back(a: TileModel, b: TileModel)
    requires
        encode_tile(a).len() + encode_tile(b).len() <= u64::MAX,
    ensures
        decode_tile(encode_tile(a) + encode_tile(b)) == Some(TileModel { layers: a.layers + b.layers }),
{
    lemma_tile_concat(a, b);
    lemma_tile_roundtrip(TileModel { layers: a.layers + b.layers });
}

/// A feature's id reads back unchanged: in the bytes of a tile, the `j`-th
/// feature of the `i`-th layer has the id it was given, an absent id staying
/// absent.
pub proof fn lemma_feature_id_reads_back(t: TileModel, i: int, j: int)
    requires
        encode_tile(t).len() <= u64::MAX,
        0 <= i < t.layers.len(),
        0 <= j < t.layers[i].features.len(),
    ensures
        decode_tile(encode_tile(t)) matches Some(d) && d.layers[i].features[j].id
            == t.layers[i].features[j].id,
{
    lemma_tile_roundtrip(t);
}

/// A value message that holds one property value reads back as that value.
pub proof fn lemma_value_message_kind(v: ValueKind)
    ensures
        value_kind(value_message(v)) == v,
{
}

/// A tag adds exactly its property to what a reader finds in the feature:
/// when the feature's tags read as `ps` and the tag succeeds, they read as
/// `ps` followed by the key and value afterwards; a null value is dropped, and
/// the tags read as before.
pub proof fn lemma_tag_reads_back(
    l: LayerModel,
    tags: Seq<u32>,
    key: Seq<char>,
    value: ValueKind,
    ps: Seq<(Seq<char>, ValueKind)>,
)
    requires
        l.keys.no_duplicates(),
        l.values.no_duplicates(),
        properties_from(l, tags, 0) == Ok::<Seq<(Seq<char>, ValueKind)>, crate::error::MvtError>(ps),
        tag_outcome(l.keys, l.values, tags, key, value).error is None,
    ensures
        ({
            let o = tag_outcome(l.keys, l.values, tags, key, value);
            properties_from(LayerModel { keys: o.keys, values: o.values, ..l }, o.tags, 0) == Ok::<
                Seq<(Seq<char>, ValueKind)>,
                crate::error::MvtError,
            >(if value is Null { ps } else { ps.push((key, value)) })
        }),
{
    let o = tag_outcome(l.keys, l.values, tags, key, value);
    if value is Null {
        assert(LayerModel { keys: o.keys, values: o.values, ..l } == l);
    } else {
        if tags.len() % 2 == 1 {
            lemma_odd_tags_fail(l, tags, 0);
        }
        let vm = value_message(value);
        lemma_interned(l.keys, key);
        lemma_interned(l.values, vm);
        let ks = interned(l.keys, key);
        let vs = interned(l.values, vm);
        let l2 = LayerModel { keys: o.keys, values: o.values, ..l };
        let ki = ks.index_of(key);
        let vi = vs.index_of(vm);
        assert(o.tags == tags.push(ki as u32).push(vi as u32));
        assert forall|i: nat| i < pair_count(tags) && property_at(l, tags, i) is Ok implies #[trigger] property_at(
            l2,
            tags,
            i,
        ) == property_at(l, tags, i) by {
            let k = tags[(2 * i) as int];
            let v = tags[(2 * i + 1) as int];
            assert(ks[k as int] == l.keys[k as int]);
            assert(vs[v as int] == l.values[v as int]);
        }
        lemma_properties_same(l, l2, tags, 0);
        lemma_pair_append(l2, tags, ki as u32, vi as u32, 0);
    }
}

/// Tags that read alike pair by pair in two layers read alike in full, as
/// long as they read without error in the first.
proof fn lemma_properties_same(l: LayerModel, l2: LayerModel, tags: Seq<u32>, i: nat)
    requires
        forall|k: nat|
            k < pair_count(tags) && property_at(l, tags, k) is Ok ==> #[trigger] property_at(l2, tags, k)
                == property_at(l, tags, k),
        properties_from(l, tags, i) is Ok,
    ensures
        properties_from(l2, tags, i) == properties_from(l, tags, i),
    decreases pair_count(tags) - i,
{
    if i < pair_count(tags) {
        assert(property_at(l2, tags, i) == property_at(l, tags, i));
        lemma_properties_same(l, l2, tags, i + 1);
    }
}

/// The varint encoding of a larger number is never shorter.
pub proof fn lemma_varint_len_monotonic(a: nat, b: nat)
    requires
        a <= b,
    ensures
        varint_bytes(a).len() <= varint_bytes(b).len(),
    decreases b,
{
    lemma_varint_bytes_len(a);
    lemma_varint_bytes_len(b);
    if a >= 128 {
        lemma_varint_len_monotonic(a / 128, b / 128);
    }
}

/// The bytes of a value message that holds one integer field.
proof fn lemma_int_value_bytes(v: ValueKind)
    requires
        v is Int || v is UInt || v is SInt,
    ensures
        encode_value(value_message(v)) == field_bytes(
            WireField {
                num: match v {
                    ValueKind::Int(_) => 4,
                    ValueKind::UInt(_) => 5,
                    _ => 6,
                },
                value: WireValue::Varint(
                    match v {
                        ValueKind::Int(i) => as_u64(i as int) as u64,
                        ValueKind::UInt(u) => u,
                        ValueKind::SInt(i) => zigzag_encode(i as int) as u64,
                        _ => 0,
                    },
                ),
            },
        ),
{
    let m = value_message(v);
    let f = WireField {
        num: match v {
            ValueKind::Int(_) => 4,
            ValueKind::UInt(_) => 5,
            _ => 6,
        },
        value: WireValue::Varint(
            match v {
                ValueKind::Int(i) => as_u64(i as int) as u64,
                ValueKind::UInt(u) => u,
                ValueKind::SInt(i) => zigzag_encode(i as int) as u64,
                _ => 0,
            },
        ),
    };
    assert(value_fields(m) =~= seq![f]);
    lemma_fields_bytes_single(f);
}

/// The integer encoding that `tag_auto_int` picks takes no more bytes than
/// either the `int` or the `sint` encoding of the same number.
pub proof fn lemma_auto_int_shortest(v: i64)
    ensures
        encode_value(value_message(auto_int_kind(v))).len() <= encode_value(
            value_message(ValueKind::Int(v)),
        ).len(),
        encode_value(value_message(auto_int_kind(v))).len() <= encode_value(
            value_message(ValueKind::SInt(v)),
        ).len(),
{
    lemma_int_value_bytes(auto_int_kind(v));
    lemma_int_value_bytes(ValueKind::Int(v));
    lemma_int_value_bytes(ValueKind::SInt(v));
    let a = if v >= 0 { v as nat } else { zigzag_encode(v as int) };
    let i = as_u64(v as int);
    let z = zigzag_encode(v as int);
    assert(varint_bytes(32).len() == 1 && varint_bytes(40).len() == 1 && varint_bytes(48).len() == 1);
    if v >= 0 {
        assert(z == 2 * v);
        lemma_varint_len_monotonic(v as nat, z);
    } else {
        assert(i >= 0x8000_0000_0000_0000);
        assert(z <= u64::MAX);
        lemma_varint_bytes_len(z);
        lemma_varint_len_monotonic(0x8000_0000_0000_0000, i);
        assert(varint_bytes(0x8000_0000_0000_0000).len() == 10) by {
            reveal_with_fuel(varint_bytes, 11);
        }
    }
}

} // verus!
