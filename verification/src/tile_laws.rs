//! Writing what was read: a tile written through the builders, read back,
//! and written again gives the same tile message, so a second round trip
//! changes nothing.
use vstd::prelude::*;

use crate::error::MvtError;
use crate::geometry::{decode_geometry_spec, encode_geometry_spec};
use crate::geometry_roundtrip::lemma_geometry_rewrite;
use crate::proto::{decode_tile, encode_tile, FeatureModel, LayerModel, TileModel, ValueModel};
use crate::reader::{
    feature_data_of, features_data_of, layer_acceptable, layer_data_of, layer_extent,
    layers_data_of, pair_count, properties_from, property_at, value_kind,
};
use crate::roundtrip::lemma_tile_roundtrip;
use crate::types::{FeatureData, LayerData, TileData, ValueKind};
use crate::writer::{
    feature_outcome, features_outcome, interned, layer_outcome, layers_outcome, lemma_interned,
    props_outcome, started_layer, tag_outcome, tile_message, value_message,
};

verus! {

/// The properties whose values are not null, in order.
pub open spec fn non_null(ps: Seq<(Seq<char>, ValueKind)>) -> Seq<(Seq<char>, ValueKind)>
    decreases ps.len(),
{
    if ps.len() == 0 {
        seq![]
    } else if ps[0].1 is Null {
        non_null(ps.drop_first())
    } else {
        seq![ps[0]] + non_null(ps.drop_first())
    }
}

/// Reading the bytes, as the reader does, gives the tile `d`: they decode,
/// every layer has a name and a supported version, and every layer reads
/// without error.
pub open spec fn reads_as(bytes: Seq<u8>, d: TileData) -> bool {
    match decode_tile(bytes) {
        Some(t) => {
            &&& forall|i: int| 0 <= i < t.layers.len() ==> layer_acceptable(#[trigger] t.layers[i])
            &&& layers_data_of(t.layers) == Ok::<Seq<LayerData>, MvtError>(d.layers)
        },
        None => false,
    }
}

proof fn lemma_prefix_trans<T>(a: Seq<T>, b: Seq<T>, c: Seq<T>)
    requires
        a.is_prefix_of(b),
        b.is_prefix_of(c),
    ensures
        a.is_prefix_of(c),
{
    assert(a =~= c.subrange(0, a.len() as int)) by {
        assert forall|i: int| 0 <= i < a.len() implies a[i] == c.subrange(0, a.len() as int)[i] by {
            assert(a[i] == b.subrange(0, a.len() as int)[i]);
            assert(b[i] == c.subrange(0, b.len() as int)[i]);
        }
    }
}

proof fn lemma_prefix_refl<T>(a: Seq<T>)
    ensures
        a.is_prefix_of(a),
{
    assert(a =~= a.subrange(0, a.len() as int));
}

/// Appending a pair of valid indices to the tags appends the property they
/// name to what the tags read as.
pub proof fn lemma_pair_append(l: LayerModel, tags: Seq<u32>, a: u32, b: u32, i: nat)
    requires
        tags.len() % 2 == 0,
        a < l.keys.len(),
        b < l.values.len(),
        i <= pair_count(tags),
        properties_from(l, tags, i) is Ok,
    ensures
        properties_from(l, tags.push(a).push(b), i) == Ok::<Seq<(Seq<char>, ValueKind)>, MvtError>(
            properties_from(l, tags, i)->Ok_0.push((l.keys[a as int], value_kind(l.values[b as int]))),
        ),
    decreases pair_count(tags) - i,
{
    let t2 = tags.push(a).push(b);
    let p = (l.keys[a as int], value_kind(l.values[b as int]));
    assert(pair_count(t2) == pair_count(tags) + 1);
    if i == pair_count(tags) {
        assert(properties_from(l, tags, i) == Ok::<Seq<(Seq<char>, ValueKind)>, MvtError>(seq![]));
        assert(t2[(2 * i) as int] == a);
        assert(t2[(2 * i + 1) as int] == b);
        assert(property_at(l, t2, i) == Ok::<(Seq<char>, ValueKind), MvtError>(p));
        assert(properties_from(l, t2, i + 1) == Ok::<Seq<(Seq<char>, ValueKind)>, MvtError>(seq![]));
        assert(seq![p] + Seq::<(Seq<char>, ValueKind)>::empty() =~= Seq::<(Seq<char>, ValueKind)>::empty().push(p));
    } else {
        let q = property_at(l, tags, i);
        assert(q is Ok);
        assert(t2[(2 * i) as int] == tags[(2 * i) as int]);
        assert(t2[(2 * i + 1) as int] == tags[(2 * i + 1) as int]);
        assert(property_at(l, t2, i) == q);
        lemma_pair_append(l, tags, a, b, i + 1);
        let rest = properties_from(l, tags, i + 1)->Ok_0;
        assert(seq![q->Ok_0] + rest.push(p) =~= (seq![q->Ok_0] + rest).push(p));
    }
}

/// Tags of odd length read with an error.
pub proof fn lemma_odd_tags_fail(l: LayerModel, tags: Seq<u32>, i: nat)
    requires
        tags.len() % 2 == 1,
        i < pair_count(tags),
    ensures
        properties_from(l, tags, i) is Err,
    decreases pair_count(tags) - i,
{
    if property_at(l, tags, i) is Ok && i + 1 < pair_count(tags) {
        lemma_odd_tags_fail(l, tags, i + 1);
    }
}

/// Tagging in turn keeps the tables free of duplicates and only adds to
/// their ends, and keeps the tags in pairs.
proof fn lemma_props_tables(k: Seq<Seq<char>>, v: Seq<ValueModel>, t: Seq<u32>, ps: Seq<(Seq<char>, ValueKind)>)
    requires
        k.no_duplicates(),
        v.no_duplicates(),
    ensures
        ({
            let o = props_outcome(k, v, t, ps);
            &&& o.keys.no_duplicates()
            &&& o.values.no_duplicates()
            &&& k.is_prefix_of(o.keys)
            &&& v.is_prefix_of(o.values)
            &&& (t.len() % 2 == 0 ==> o.tags.len() % 2 == 0)
        }),
    decreases ps.len(),
{
    lemma_prefix_refl(k);
    lemma_prefix_refl(v);
    if ps.len() > 0 {
        let o1 = tag_outcome(k, v, t, ps[0].0, ps[0].1);
        lemma_interned(k, ps[0].0);
        lemma_interned(v, value_message(ps[0].1));
        lemma_props_tables(o1.keys, o1.values, o1.tags, ps.drop_first());
        let o = props_outcome(k, v, t, ps);
        if o1.error is None {
            lemma_prefix_trans(k, o1.keys, o.keys);
            lemma_prefix_trans(v, o1.values, o.values);
        }
    }
}

/// Null values change nothing: tagging with the properties whose values are
/// not null has the same outcome as tagging with all of them.
proof fn lemma_props_non_null(k: Seq<Seq<char>>, v: Seq<ValueModel>, t: Seq<u32>, ps: Seq<(Seq<char>, ValueKind)>)
    ensures
        props_outcome(k, v, t, non_null(ps)) == props_outcome(k, v, t, ps),
    decreases ps.len(),
{
    if ps.len() > 0 {
        let tail = ps.drop_first();
        lemma_props_non_null(k, v, t, tail);
        if !(ps[0].1 is Null) {
            let s = seq![ps[0]] + non_null(tail);
            assert(s[0] == ps[0]);
            assert(s.drop_first() =~= non_null(tail));
            let o1 = tag_outcome(k, v, t, ps[0].0, ps[0].1);
            lemma_props_non_null(o1.keys, o1.values, o1.tags, tail);
        }
    }
}

/// The tags that tagging writes read, in any layer whose tables start with
/// the tables it built, as the properties whose values are not null.
proof fn lemma_props_read(
    k: Seq<Seq<char>>,
    v: Seq<ValueModel>,
    t: Seq<u32>,
    ps: Seq<(Seq<char>, ValueKind)>,
    l: LayerModel,
    qs: Seq<(Seq<char>, ValueKind)>,
)
    requires
        k.no_duplicates(),
        v.no_duplicates(),
        props_outcome(k, v, t, ps).error is None,
        props_outcome(k, v, t, ps).keys.is_prefix_of(l.keys),
        props_outcome(k, v, t, ps).values.is_prefix_of(l.values),
        t.len() % 2 == 0,
        properties_from(l, t, 0) == Ok::<Seq<(Seq<char>, ValueKind)>, MvtError>(qs),
    ensures
        properties_from(l, props_outcome(k, v, t, ps).tags, 0) == Ok::<
            Seq<(Seq<char>, ValueKind)>,
            MvtError,
        >(qs + non_null(ps)),
    decreases ps.len(),
{
    if ps.len() == 0 {
        assert(qs + non_null(ps) =~= qs);
    } else {
        let key = ps[0].0;
        let val = ps[0].1;
        let tail = ps.drop_first();
        let o1 = tag_outcome(k, v, t, key, val);
        let o = props_outcome(k, v, t, ps);
        lemma_interned(k, key);
        lemma_interned(v, value_message(val));
        assert(o1.error is None);
        lemma_props_tables(o1.keys, o1.values, o1.tags, tail);
        lemma_prefix_trans(o1.keys, o.keys, l.keys);
        lemma_prefix_trans(o1.values, o.values, l.values);
        if val is Null {
            lemma_props_read(k, v, t, tail, l, qs);
        } else {
            let ks = interned(k, key);
            let vm = value_message(val);
            let vs = interned(v, vm);
            let ki = ks.index_of(key);
            let vi = vs.index_of(vm);
            assert(o1.tags == t.push(ki as u32).push(vi as u32));
            assert(l.keys[ki] == ks[ki]);
            assert(l.values[vi] == vs[vi]);
            lemma_pair_append(l, t, ki as u32, vi as u32, 0);
            assert(value_kind(vm) == val);
            let qs1 = qs.push((key, val));
            lemma_props_read(o1.keys, o1.values, o1.tags, tail, l, qs1);
            assert(qs1 + non_null(tail) =~= qs + non_null(ps));
        }
    }
}

/// Adding features only adds to the end of the layer's features and tables,
/// keeps its name, extent and version, and keeps the tables free of
/// duplicates.
proof fn lemma_features_shape(l: LayerModel, fs: Seq<FeatureData>)
    requires
        l.keys.no_duplicates(),
        l.values.no_duplicates(),
        features_outcome(l, fs) is Ok,
    ensures
        ({
            let fin = features_outcome(l, fs)->Ok_0;
            &&& fin.name == l.name
            &&& fin.extent == l.extent
            &&& fin.version == l.version
            &&& fin.features.len() == l.features.len() + fs.len()
            &&& l.features.is_prefix_of(fin.features)
            &&& l.keys.is_prefix_of(fin.keys)
            &&& l.values.is_prefix_of(fin.values)
            &&& fin.keys.no_duplicates()
            &&& fin.values.no_duplicates()
        }),
    decreases fs.len(),
{
    lemma_prefix_refl(l.features);
    lemma_prefix_refl(l.keys);
    lemma_prefix_refl(l.values);
    if fs.len() > 0 {
        let l2 = feature_outcome(l, fs[0])->Ok_0;
        let o = props_outcome(l.keys, l.values, seq![], fs[0].properties);
        lemma_props_tables(l.keys, l.values, seq![], fs[0].properties);
        assert(l.features.is_prefix_of(l2.features)) by {
            assert(l.features =~= l2.features.subrange(0, l.features.len() as int));
        }
        lemma_features_shape(l2, fs.drop_first());
        let fin = features_outcome(l, fs)->Ok_0;
        lemma_prefix_trans(l.features, l2.features, fin.features);
        lemma_prefix_trans(l.keys, l2.keys, fin.keys);
        lemma_prefix_trans(l.values, l2.values, fin.values);
    }
}

/// Features written and read back are written again as the same features:
/// when the features of `fs` were added to `l` giving `fin`, and `fs1` is what
/// the added features read as in `fin`, adding `fs1` to `l` gives `fin` too.
proof fn lemma_features_rewrite(l: LayerModel, fs: Seq<FeatureData>, fin: LayerModel, fs1: Seq<FeatureData>)
    requires
        l.keys.no_duplicates(),
        l.values.no_duplicates(),
        features_outcome(l, fs) == Ok::<LayerModel, MvtError>(fin),
        fs1.len() == fs.len(),
        forall|j: int|
            0 <= j < fs.len() ==> feature_data_of(fin, #[trigger] fin.features[l.features.len() + j])
                == Ok::<FeatureData, MvtError>(fs1[j]),
    ensures
        features_outcome(l, fs1) == Ok::<LayerModel, MvtError>(fin),
    decreases fs.len(),
{
    if fs.len() > 0 {
        let f = fs[0];
        let l2 = feature_outcome(l, f)->Ok_0;
        let (t, c) = encode_geometry_spec(f.geometry).unwrap();
        let o = props_outcome(l.keys, l.values, seq![], f.properties);
        let fm = FeatureModel { id: f.id, tags: o.tags, geom_type: Some(t), geometry: c };
        assert(l2.features == l.features.push(fm));
        lemma_props_tables(l.keys, l.values, seq![], f.properties);
        lemma_features_shape(l2, fs.drop_first());
        assert(fin.features[l.features.len() as int] == fm) by {
            assert(l2.features[l.features.len() as int] == fm);
            assert(fin.features.subrange(0, l2.features.len() as int)[l.features.len() as int]
                == fin.features[l.features.len() as int]);
        }
        let f1 = fs1[0];
        let j0: int = 0;
        assert(feature_data_of(fin, fin.features[l.features.len() + j0]) == Ok::<FeatureData, MvtError>(f1));
        // The properties read back are the non-null ones.
        assert(properties_from(fin, Seq::<u32>::empty(), 0) == Ok::<Seq<(Seq<char>, ValueKind)>, MvtError>(seq![]));
        lemma_props_read(l.keys, l.values, seq![], f.properties, fin, seq![]);
        assert(Seq::<(Seq<char>, ValueKind)>::empty() + non_null(f.properties) =~= non_null(f.properties));
        assert(f1.properties == non_null(f.properties));
        lemma_props_non_null(l.keys, l.values, seq![], f.properties);
        // The geometry read back is written as the same command stream.
        lemma_geometry_rewrite(f.geometry);
        assert(f1.geometry == decode_geometry_spec(Some(t), c).unwrap());
        assert(f1.id == f.id);
        assert(feature_outcome(l, f1) == Ok::<LayerModel, MvtError>(l2));
        // The rest.
        assert forall|j: int| 0 <= j < fs.drop_first().len() implies feature_data_of(
            fin,
            #[trigger] fin.features[l2.features.len() + j],
        ) == Ok::<FeatureData, MvtError>(fs1.drop_first()[j]) by {
            assert(fin.features[l2.features.len() + j] == fin.features[l.features.len() + (j + 1)]);
        }
        lemma_features_rewrite(l2, fs.drop_first(), fin, fs1.drop_first());
    }
}


proof fn lemma_features_data_shape(l: LayerModel, fs: Seq<FeatureModel>)
    ensures
        features_data_of(l, fs) matches Ok(r) ==> r.len() == fs.len() && forall|j: int|
            0 <= j < fs.len() ==> feature_data_of(l, #[trigger] fs[j]) == Ok::<FeatureData, MvtError>(r[j]),
    decreases fs.len(),
{
    if fs.len() > 0 {
        lemma_features_data_shape(l, fs.drop_first());
        if let Ok(r) = features_data_of(l, fs) {
            let r1 = features_data_of(l, fs.drop_first())->Ok_0;
            assert forall|j: int| 0 <= j < fs.len() implies feature_data_of(l, #[trigger] fs[j])
                == Ok::<FeatureData, MvtError>(r[j]) by {
                if j > 0 {
                    assert(fs[j] == fs.drop_first()[j - 1]);
                    assert(r[j] == r1[j - 1]);
                }
            }
        }
    }
}

proof fn lemma_layers_data_shape(ls: Seq<LayerModel>)
    ensures
        layers_data_of(ls) matches Ok(r) ==> r.len() == ls.len() && forall|i: int|
            0 <= i < ls.len() ==> layer_data_of(#[trigger] ls[i]) == Ok::<LayerData, MvtError>(r[i]),
    decreases ls.len(),
{
    if ls.len() > 0 {
        lemma_layers_data_shape(ls.drop_first());
        if let Ok(r) = layers_data_of(ls) {
            let r1 = layers_data_of(ls.drop_first())->Ok_0;
            assert forall|i: int| 0 <= i < ls.len() implies layer_data_of(#[trigger] ls[i])
                == Ok::<LayerData, MvtError>(r[i]) by {
                if i > 0 {
                    assert(ls[i] == ls.drop_first()[i - 1]);
                    assert(r[i] == r1[i - 1]);
                }
            }
        }
    }
}

proof fn lemma_layers_outcome_shape(ls: Seq<LayerData>, acc: Seq<LayerModel>)
    ensures
        layers_outcome(ls, acc) matches Ok(t) ==> t.layers.len() == acc.len() + ls.len() && t.layers.subrange(
            0,
            acc.len() as int,
        ) == acc && forall|i: int|
            0 <= i < ls.len() ==> layer_outcome(#[trigger] ls[i]) == Ok::<LayerModel, MvtError>(
                t.layers[acc.len() + i],
            ),
    decreases ls.len(),
{
    if ls.len() == 0 {
        assert(acc.subrange(0, acc.len() as int) =~= acc);
    } else {
        if let Ok(m0) = layer_outcome(ls[0]) {
            let acc2 = acc.push(m0);
            lemma_layers_outcome_shape(ls.drop_first(), acc2);
            if let Ok(t) = layers_outcome(ls, acc) {
                assert(t.layers.subrange(0, acc.len() as int) =~= acc) by {
                    assert(t.layers.subrange(0, acc2.len() as int) == acc2);
                    assert forall|k: int| 0 <= k < acc.len() implies t.layers.subrange(0, acc.len() as int)[k]
                        == acc[k] by {
                        assert(t.layers.subrange(0, acc2.len() as int)[k] == acc2[k]);
                    }
                }
                assert forall|i: int| 0 <= i < ls.len() implies layer_outcome(#[trigger] ls[i])
                    == Ok::<LayerModel, MvtError>(t.layers[acc.len() + i]) by {
                    if i == 0 {
                        assert(t.layers.subrange(0, acc2.len() as int)[acc.len() as int] == acc2[acc.len() as int]);
                    } else {
                        assert(ls[i] == ls.drop_first()[i - 1]);
                        assert(layer_outcome(ls.drop_first()[i - 1]) == Ok::<LayerModel, MvtError>(t.layers[acc2.len() + (i - 1)]));
                    }
                }
            }
        }
    }
}

proof fn lemma_layers_outcome_of(ls: Seq<LayerData>, ms: Seq<LayerModel>, acc: Seq<LayerModel>)
    requires
        ls.len() == ms.len(),
        forall|i: int| 0 <= i < ls.len() ==> layer_outcome(#[trigger] ls[i]) == Ok::<LayerModel, MvtError>(ms[i]),
    ensures
        layers_outcome(ls, acc) == Ok::<TileModel, MvtError>(TileModel { layers: acc + ms }),
    decreases ls.len(),
{
    if ls.len() == 0 {
        assert(acc + ms =~= acc);
    } else {
        assert(layer_outcome(ls[0]) == Ok::<LayerModel, MvtError>(ms[0]));
        assert forall|i: int| 0 <= i < ls.drop_first().len() implies layer_outcome(#[trigger] ls.drop_first()[i])
            == Ok::<LayerModel, MvtError>(ms.drop_first()[i]) by {
            assert(ls.drop_first()[i] == ls[i + 1]);
        }
        lemma_layers_outcome_of(ls.drop_first(), ms.drop_first(), acc.push(ms[0]));
        assert(acc.push(ms[0]) + ms.drop_first() =~= acc + ms);
    }
}

/// A layer written and read back is written again as the same layer.
proof fn lemma_layer_rewrite(dl: LayerData, ml: LayerModel, l1: LayerData)
    requires
        layer_outcome(dl) == Ok::<LayerModel, MvtError>(ml),
        layer_data_of(ml) == Ok::<LayerData, MvtError>(l1),
    ensures
        layer_outcome(l1) == Ok::<LayerModel, MvtError>(ml),
{
    let l0 = LayerModel { extent: Some(dl.extent), ..started_layer(dl.name) };
    assert(l0.keys.no_duplicates());
    assert(l0.values.no_duplicates());
    lemma_features_shape(l0, dl.features);
    assert(ml.name == dl.name && ml.extent == Some(dl.extent));
    let fs1 = features_data_of(ml, ml.features)->Ok_0;
    lemma_features_data_shape(ml, ml.features);
    assert(l1 == LayerData { name: ml.name, extent: layer_extent(ml), features: fs1 });
    assert forall|j: int| 0 <= j < dl.features.len() implies feature_data_of(
        ml,
        #[trigger] ml.features[l0.features.len() + j],
    ) == Ok::<FeatureData, MvtError>(fs1[j]) by {
        assert(l0.features.len() + j == j);
    }
    lemma_features_rewrite(l0, dl.features, ml, fs1);
}

/// Writing what a written tile reads back as gives the same tile message:
/// when a tile `d` is written as the message `m`, and the bytes of `m` read
/// back as `d1`, then `d1` is written as `m` too. A tile read back from
/// written bytes is therefore a fixed point of writing and reading: a second
/// round trip gives the same bytes and the same tile. The first round trip
/// may change a tile: it drops null properties, reads a multi-geometry of one
/// element as that element, and regroups polygon rings by their orientation.
pub proof fn lemma_rewrite_read_tile(d: TileData, m: TileModel, d1: TileData)
    requires
        tile_message(d) == Ok::<TileModel, MvtError>(m),
        encode_tile(m).len() <= u64::MAX,
        reads_as(encode_tile(m), d1),
    ensures
        tile_message(d1) == Ok::<TileModel, MvtError>(m),
{
    lemma_tile_roundtrip(m);
    assert(layers_data_of(m.layers) == Ok::<Seq<LayerData>, MvtError>(d1.layers));
    lemma_layers_outcome_shape(d.layers, seq![]);
    lemma_layers_data_shape(m.layers);
    let ls1 = d1.layers;
    assert forall|i: int| 0 <= i < ls1.len() implies layer_outcome(#[trigger] ls1[i]) == Ok::<
        LayerModel,
        MvtError,
    >(m.layers[i]) by {
        let zero: int = 0;
        assert(layer_outcome(d.layers[i]) == Ok::<LayerModel, MvtError>(m.layers[zero + i]));
        assert(layer_data_of(m.layers[i]) == Ok::<LayerData, MvtError>(ls1[i]));
        lemma_layer_rewrite(d.layers[i], m.layers[i], ls1[i]);
    }
    lemma_layers_outcome_of(ls1, m.layers, seq![]);
    assert(Seq::<LayerModel>::empty() + m.layers =~= m.layers);
}


/// What reading gives back of a written feature: its id, its properties
/// without the null ones, and its geometry as its command stream decodes (an
/// error when the stream does not decode, as for a polygon whose first ring
/// winds the wrong way).
pub open spec fn feature_read_back(f: FeatureData) -> Result<FeatureData, MvtError> {
    match encode_geometry_spec(f.geometry) {
        None => Err(MvtError::InvalidGeometry),
        Some((t, c)) => match decode_geometry_spec(Some(t), c) {
            None => Err(MvtError::InvalidGeometry),
            Some(g) => Ok(FeatureData { id: f.id, geometry: g, properties: non_null(f.properties) }),
        },
    }
}

/// What reading gives back of written features, or the first error.
pub open spec fn features_read_back(fs: Seq<FeatureData>) -> Result<Seq<FeatureData>, MvtError>
    decreases fs.len(),
{
    if fs.len() == 0 {
        Ok(seq![])
    } else {
        match feature_read_back(fs[0]) {
            Err(e) => Err(e),
            Ok(x) => match features_read_back(fs.drop_first()) {
                Ok(r) => Ok(seq![x] + r),
                Err(e) => Err(e),
            },
        }
    }
}

/// What reading gives back of a written layer: its name and extent, and its
/// features as they read back.
pub open spec fn layer_read_back(l: LayerData) -> Result<LayerData, MvtError> {
    match features_read_back(l.features) {
        Ok(fs) => Ok(LayerData { name: l.name, extent: l.extent, features: fs }),
        Err(e) => Err(e),
    }
}

/// What reading gives back of written layers, or the first error.
pub open spec fn layers_read_back(ls: Seq<LayerData>) -> Result<Seq<LayerData>, MvtError>
    decreases ls.len(),
{
    if ls.len() == 0 {
        Ok(seq![])
    } else {
        match layer_read_back(ls[0]) {
            Err(e) => Err(e),
            Ok(x) => match layers_read_back(ls.drop_first()) {
                Ok(r) => Ok(seq![x] + r),
                Err(e) => Err(e),
            },
        }
    }
}

/// Each feature added to a layer reads, in the finished layer, as it reads back.
proof fn lemma_features_read(l: LayerModel, fs: Seq<FeatureData>, fin: LayerModel)
    requires
        l.keys.no_duplicates(),
        l.values.no_duplicates(),
        features_outcome(l, fs) == Ok::<LayerModel, MvtError>(fin),
    ensures
        forall|j: int|
            0 <= j < fs.len() ==> feature_data_of(fin, #[trigger] fin.features[l.features.len() + j])
                == feature_read_back(fs[j]),
    decreases fs.len(),
{
    if fs.len() > 0 {
        let f = fs[0];
        let l2 = feature_outcome(l, f)->Ok_0;
        let (t, c) = encode_geometry_spec(f.geometry).unwrap();
        let o = props_outcome(l.keys, l.values, seq![], f.properties);
        let fm = FeatureModel { id: f.id, tags: o.tags, geom_type: Some(t), geometry: c };
        assert(l2.features == l.features.push(fm));
        lemma_props_tables(l.keys, l.values, seq![], f.properties);
        lemma_features_shape(l2, fs.drop_first());
        assert(fin.features[l.features.len() as int] == fm) by {
            assert(l2.features[l.features.len() as int] == fm);
            assert(fin.features.subrange(0, l2.features.len() as int)[l.features.len() as int]
                == fin.features[l.features.len() as int]);
        }
        assert(properties_from(fin, Seq::<u32>::empty(), 0) == Ok::<Seq<(Seq<char>, ValueKind)>, MvtError>(seq![]));
        lemma_props_read(l.keys, l.values, seq![], f.properties, fin, seq![]);
        assert(Seq::<(Seq<char>, ValueKind)>::empty() + non_null(f.properties) =~= non_null(f.properties));
        let j0: int = 0;
        assert(feature_data_of(fin, fin.features[l.features.len() + j0]) == feature_read_back(fs[j0]));
        lemma_features_read(l2, fs.drop_first(), fin);
        assert forall|j: int| 0 <= j < fs.len() implies feature_data_of(
            fin,
            #[trigger] fin.features[l.features.len() + j],
        ) == feature_read_back(fs[j]) by {
            if j > 0 {
                assert(fin.features[l.features.len() + j] == fin.features[l2.features.len() + (j - 1)]);
                assert(fs[j] == fs.drop_first()[j - 1]);
            }
        }
    }
}

proof fn lemma_features_data_of_map(l: LayerModel, fms: Seq<FeatureModel>, fs: Seq<FeatureData>)
    requires
        fms.len() == fs.len(),
        forall|j: int| 0 <= j < fs.len() ==> feature_data_of(l, #[trigger] fms[j]) == feature_read_back(fs[j]),
    ensures
        features_data_of(l, fms) == features_read_back(fs),
    decreases fs.len(),
{
    if fs.len() > 0 {
        assert(feature_data_of(l, fms[0]) == feature_read_back(fs[0]));
        assert forall|j: int| 0 <= j < fs.drop_first().len() implies feature_data_of(l, #[trigger] fms.drop_first()[j])
            == feature_read_back(fs.drop_first()[j]) by {
            assert(fms.drop_first()[j] == fms[j + 1]);
            assert(fs.drop_first()[j] == fs[j + 1]);
        }
        lemma_features_data_of_map(l, fms.drop_first(), fs.drop_first());
    }
}

proof fn lemma_layers_data_of_map(ms: Seq<LayerModel>, ls: Seq<LayerData>)
    requires
        ms.len() == ls.len(),
        forall|i: int| 0 <= i < ls.len() ==> layer_data_of(#[trigger] ms[i]) == layer_read_back(ls[i]),
    ensures
        layers_data_of(ms) == layers_read_back(ls),
    decreases ls.len(),
{
    if ls.len() > 0 {
        assert(layer_data_of(ms[0]) == layer_read_back(ls[0]));
        assert forall|i: int| 0 <= i < ls.drop_first().len() implies layer_data_of(#[trigger] ms.drop_first()[i])
            == layer_read_back(ls.drop_first()[i]) by {
            assert(ms.drop_first()[i] == ms[i + 1]);
            assert(ls.drop_first()[i] == ls[i + 1]);
        }
        lemma_layers_data_of_map(ms.drop_first(), ls.drop_first());
    }
}

/// A written layer reads as it reads back.
proof fn lemma_layer_read(dl: LayerData, ml: LayerModel)
    requires
        layer_outcome(dl) == Ok::<LayerModel, MvtError>(ml),
        dl.extent > 0,
    ensures
        layer_data_of(ml) == layer_read_back(dl),
        layer_acceptable(ml),
{
    let l0 = LayerModel { extent: Some(dl.extent), ..started_layer(dl.name) };
    assert(l0.keys.no_duplicates());
    assert(l0.values.no_duplicates());
    lemma_features_shape(l0, dl.features);
    lemma_features_read(l0, dl.features, ml);
    assert forall|j: int| 0 <= j < dl.features.len() implies feature_data_of(ml, #[trigger] ml.features[j])
        == feature_read_back(dl.features[j]) by {
        assert(l0.features.len() + j == j);
    }
    lemma_features_data_of_map(ml, ml.features, dl.features);
}

/// What a read gives back of a write: the bytes of the tile message that a
/// tile is written as decode to that message, every layer of it has a name
/// and a supported version, and its layers read, in order, as their names and
/// extents, and their features as ids, properties without the null ones, and
/// geometries as their command streams decode.
pub proof fn lemma_write_then_read(d: TileData, m: TileModel)
    requires
        tile_message(d) == Ok::<TileModel, MvtError>(m),
        encode_tile(m).len() <= u64::MAX,
        forall|i: int| 0 <= i < d.layers.len() ==> (#[trigger] d.layers[i]).extent > 0,
    ensures
        decode_tile(encode_tile(m)) == Some(m),
        forall|i: int| 0 <= i < m.layers.len() ==> layer_acceptable(#[trigger] m.layers[i]),
        layers_data_of(m.layers) == layers_read_back(d.layers),
{
    lemma_tile_roundtrip(m);
    lemma_layers_outcome_shape(d.layers, seq![]);
    assert forall|i: int| 0 <= i < m.layers.len() implies layer_acceptable(#[trigger] m.layers[i])
        && layer_data_of(m.layers[i]) == layer_read_back(d.layers[i]) by {
        let zero: int = 0;
        assert(layer_outcome(d.layers[i]) == Ok::<LayerModel, MvtError>(m.layers[zero + i]));
        lemma_layer_read(d.layers[i], m.layers[i]);
    }
    lemma_layers_data_of_map(m.layers, d.layers);
}

/// A feature whose polygons wind as the format requires reads back with its
/// geometry as written, a single-element multi-geometry as its element.
pub proof fn lemma_feature_read_back_oriented(f: FeatureData)
    requires
        encode_geometry_spec(f.geometry) is Some,
        crate::geometry_roundtrip::geometry_oriented(f.geometry),
    ensures
        feature_read_back(f) == Ok::<FeatureData, MvtError>(
            FeatureData {
                id: f.id,
                geometry: crate::geometry_roundtrip::normalized(f.geometry),
                properties: non_null(f.properties),
            },
        ),
{
    crate::geometry_roundtrip::lemma_geometry_roundtrip(f.geometry);
}


/// The number of properties of a run of features.
pub open spec fn property_count(fs: Seq<FeatureData>) -> nat
    decreases fs.len(),
{
    if fs.len() == 0 {
        0
    } else {
        fs[0].properties.len() + property_count(fs.drop_first())
    }
}

/// A tile that writing cannot refuse for what it holds: every geometry can
/// be written, and no layer has more properties than a 32-bit index can
/// count, so neither key nor value table outgrows the tags.
pub open spec fn rewritable(d: TileData) -> bool {
    forall|i: int|
        0 <= i < d.layers.len() ==> {
            &&& property_count((#[trigger] d.layers[i]).features) <= u32::MAX + 1
            &&& forall|j: int|
                0 <= j < d.layers[i].features.len() ==> (encode_geometry_spec(
                    #[trigger] d.layers[i].features[j].geometry,
                ) is Some)
        }
}

/// Tagging in turn never overflows an index while the tables stay small
/// enough, and each tag adds at most one entry to each table.
proof fn lemma_props_fit(k: Seq<Seq<char>>, v: Seq<ValueModel>, t: Seq<u32>, ps: Seq<(Seq<char>, ValueKind)>)
    requires
        k.no_duplicates(),
        v.no_duplicates(),
        k.len() + ps.len() <= u32::MAX + 1,
        v.len() + ps.len() <= u32::MAX + 1,
    ensures
        props_outcome(k, v, t, ps).error is None,
        props_outcome(k, v, t, ps).keys.len() <= k.len() + ps.len(),
        props_outcome(k, v, t, ps).values.len() <= v.len() + ps.len(),
    decreases ps.len(),
{
    if ps.len() > 0 {
        let key = ps[0].0;
        let val = ps[0].1;
        lemma_interned(k, key);
        lemma_interned(v, value_message(val));
        let o1 = tag_outcome(k, v, t, key, val);
        assert(o1.error is None);
        lemma_props_fit(o1.keys, o1.values, o1.tags, ps.drop_first());
    }
}

/// Adding features never fails while their geometries can be written and
/// the tables stay small enough.
proof fn lemma_features_fit(l: LayerModel, fs: Seq<FeatureData>)
    requires
        l.keys.no_duplicates(),
        l.values.no_duplicates(),
        l.keys.len() + property_count(fs) <= u32::MAX + 1,
        l.values.len() + property_count(fs) <= u32::MAX + 1,
        forall|j: int| 0 <= j < fs.len() ==> (encode_geometry_spec(#[trigger] fs[j].geometry) is Some),
    ensures
        features_outcome(l, fs) is Ok,
    decreases fs.len(),
{
    if fs.len() > 0 {
        let f = fs[0];
        assert(encode_geometry_spec(fs[0].geometry) is Some);
        lemma_props_fit(l.keys, l.values, seq![], f.properties);
        lemma_props_tables(l.keys, l.values, seq![], f.properties);
        let l2 = feature_outcome(l, f)->Ok_0;
        assert forall|j: int| 0 <= j < fs.drop_first().len() implies (encode_geometry_spec(
            #[trigger] fs.drop_first()[j].geometry,
        ) is Some) by {
            assert(fs.drop_first()[j] == fs[j + 1]);
        }
        lemma_features_fit(l2, fs.drop_first());
    }
}

proof fn lemma_layers_fit(ls: Seq<LayerData>, acc: Seq<LayerModel>)
    requires
        forall|i: int| 0 <= i < ls.len() ==> (#[trigger] layer_outcome(ls[i])) is Ok,
    ensures
        layers_outcome(ls, acc) is Ok,
    decreases ls.len(),
{
    if ls.len() > 0 {
        assert(layer_outcome(ls[0]) is Ok);
        assert forall|i: int| 0 <= i < ls.drop_first().len() implies (#[trigger] layer_outcome(
            ls.drop_first()[i],
        )) is Ok by {
            assert(ls.drop_first()[i] == ls[i + 1]);
        }
        lemma_layers_fit(ls.drop_first(), acc.push(layer_outcome(ls[0])->Ok_0));
    }
}

/// A tile that the reader gave can be written again: when bytes read as
/// `d`, writing `d` succeeds, unless a geometry of it cannot be written or a
/// layer of it has more properties than a 32-bit index can count.
pub proof fn lemma_read_tile_rewrites(bytes: Seq<u8>, d: TileData)
    requires
        reads_as(bytes, d),
        rewritable(d),
    ensures
        tile_message(d) is Ok,
{
    let t = decode_tile(bytes).unwrap();
    lemma_layers_data_shape(t.layers);
    assert forall|i: int| 0 <= i < d.layers.len() implies (#[trigger] layer_outcome(d.layers[i])) is Ok by {
        let dl = d.layers[i];
        assert(layer_data_of(t.layers[i]) == Ok::<LayerData, MvtError>(dl));
        assert(layer_acceptable(t.layers[i]));
        assert(dl.name == t.layers[i].name);
        let l0 = LayerModel { extent: Some(dl.extent), ..started_layer(dl.name) };
        assert(l0.keys.no_duplicates());
        assert(l0.values.no_duplicates());
        assert(property_count(dl.features) <= u32::MAX + 1);
        lemma_features_fit(l0, dl.features);
    }
    lemma_layers_fit(d.layers, seq![]);
}

} // verus!
