//! Writing a tile: builders that nest tile, layer and feature, intern each
//! layer's keys and values, and encode the result.
use vstd::prelude::*;

use dup_indexer::DupIndexer;

use crate::bridge::{
    intern_key, intern_value, interned_keys, interned_values, key_table_into_vec, new_key_table,
    new_value_table, u32_to_usize, vec_capacity, KeyTable,
};
use crate::codec::{encode_tile_into, encode_value_into};
use crate::error::{MvtError, MvtResult};
use crate::geometry::{encode_geometry, encode_geometry_spec, MvtGeometry};
use crate::proto::{
    decode_tile, encode_value, features_model, strings_model, value_default, values_model, Feature,
    FeatureModel, GeomType, Layer, LayerModel, Tile, TileModel, Value, ValueModel,
};
use crate::reader::layer_acceptable;
use crate::roundtrip::{lemma_tile_roundtrip, lemma_value_roundtrip};
use crate::size::tile_size;
use crate::types::{
    auto_int_kind, FeatureData, LayerData, MvtExtent, MvtFeature, MvtLayer, MvtTile, MvtValue, TileData,
    ValueKind, DEFAULT_EXTENT_VALUE,
};

verus! {

/// The largest message, in bytes, that the protobuf encoder writes.
pub open spec fn max_message_bytes() -> nat {
    0x7FFF_FFFF
}

/// The value message that holds a property value: the one field of its kind,
/// or no field for null.
pub open spec fn value_message(v: ValueKind) -> ValueModel {
    let e = value_default();
    match v {
        ValueKind::String(s) => ValueModel { string_value: Some(s), ..e },
        ValueKind::Float(b) => ValueModel { float_value: Some(b), ..e },
        ValueKind::Double(b) => ValueModel { double_value: Some(b), ..e },
        ValueKind::Int(i) => ValueModel { int_value: Some(i), ..e },
        ValueKind::UInt(u) => ValueModel { uint_value: Some(u), ..e },
        ValueKind::SInt(i) => ValueModel { sint_value: Some(i), ..e },
        ValueKind::Bool(b) => ValueModel { bool_value: Some(b), ..e },
        ValueKind::Null => e,
    }
}

/// A table after interning `x`: unchanged when it already holds `x`, else
/// with `x` added after the others.
pub open spec fn interned<T>(s: Seq<T>, x: T) -> Seq<T> {
    if s.contains(x) {
        s
    } else {
        s.push(x)
    }
}

/// The key table, value table and tags of a feature after tagging it, and
/// the error the tag reports, if any.
pub struct TagOutcome {
    pub keys: Seq<Seq<char>>,
    pub values: Seq<ValueModel>,
    pub tags: Seq<u32>,
    pub error: Option<MvtError>,
}

/// Tagging a feature with `key` and `value`: a null value changes nothing;
/// otherwise the key is interned, then the value, and their indices are added
/// to the tags. An index that does not fit in 32 bits is an error, reported as
/// soon as it is known, with what was interned until then kept.
pub open spec fn tag_outcome(
    keys: Seq<Seq<char>>,
    values: Seq<ValueModel>,
    tags: Seq<u32>,
    key: Seq<char>,
    value: ValueKind,
) -> TagOutcome {
    if value is Null {
        TagOutcome { keys, values, tags, error: None }
    } else {
        let ks = interned(keys, key);
        let ki = ks.index_of(key);
        if ki > u32::MAX {
            TagOutcome { keys: ks, values, tags, error: Some(MvtError::IndexOverflow(ki as usize)) }
        } else {
            let vm = value_message(value);
            let vs = interned(values, vm);
            let vi = vs.index_of(vm);
            if vi > u32::MAX {
                TagOutcome {
                    keys: ks,
                    values: vs,
                    tags,
                    error: Some(MvtError::IndexOverflow(vi as usize)),
                }
            } else {
                TagOutcome {
                    keys: ks,
                    values: vs,
                    tags: tags.push(ki as u32).push(vi as u32),
                    error: None,
                }
            }
        }
    }
}

/// The layer that a builder starts: version 2, the name, no features, keys or
/// values, and the default extent.
pub open spec fn started_layer(name: Seq<char>) -> LayerModel {
    LayerModel {
        version: 2,
        name,
        features: seq![],
        keys: seq![],
        values: seq![],
        extent: Some(DEFAULT_EXTENT_VALUE),
    }
}

/// In a table without duplicates, an element's index is where it stands.
pub proof fn lemma_index_of_unique<T>(s: Seq<T>, x: T, i: int)
    requires
        s.no_duplicates(),
        0 <= i < s.len(),
        s[i] == x,
    ensures
        s.index_of(x) == i,
{
    assert(s.contains(x));
    let j = s.index_of(x);
    assert(0 <= j < s.len() && s[j] == x);
}

/// Interning keeps a table free of duplicates, and finds the element at the
/// index it returns.
pub proof fn lemma_interned<T>(s: Seq<T>, x: T)
    requires
        s.no_duplicates(),
    ensures
        interned(s, x).no_duplicates(),
        0 <= interned(s, x).index_of(x) < interned(s, x).len(),
        interned(s, x)[interned(s, x).index_of(x)] == x,
        s.contains(x) ==> interned(s, x) == s,
        !s.contains(x) ==> interned(s, x) == s.push(x) && interned(s, x).index_of(x) == s.len(),
        interned(s, x).len() <= s.len() + 1,
        s.is_prefix_of(interned(s, x)),
{
    let t = interned(s, x);
    if s.contains(x) {
        assert(t.contains(x));
    } else {
        assert forall|i: int, j: int| 0 <= i < t.len() && 0 <= j < t.len() && i != j implies t[i]
            != t[j] by {
            if i == s.len() as int {
                assert(t[j] == s[j]);
            } else if j == s.len() as int {
                assert(t[i] == s[i]);
            }
        }
        assert(t[s.len() as int] == x);
        lemma_index_of_unique(t, x, s.len() as int);
    }
    assert(t.contains(x));
    assert(s.is_prefix_of(t)) by {
        assert(t.subrange(0, s.len() as int) =~= s);
    }
}

/// The value message that holds a property value.
pub fn value_to_proto(value: MvtValue) -> (r: Value)
    ensures
        r@ == value_message(value@),
{
    let mut v = Value {
        string_value: None,
        float_value: None,
        double_value: None,
        int_value: None,
        uint_value: None,
        sint_value: None,
        bool_value: None,
    };
    match value {
        MvtValue::String(s) => v.string_value = Some(s),
        MvtValue::Float(b) => v.float_value = Some(b),
        MvtValue::Double(b) => v.double_value = Some(b),
        MvtValue::Int(i) => v.int_value = Some(i),
        MvtValue::UInt(u) => v.uint_value = Some(u),
        MvtValue::SInt(i) => v.sint_value = Some(i),
        MvtValue::Bool(b) => v.bool_value = Some(b),
        MvtValue::Null => {},
    }
    v
}

/// An interning index as a tag, or the error for one that does not fit in
/// 32 bits.
fn u32_index(value: usize) -> (r: MvtResult<u32>)
    ensures
        value <= u32::MAX ==> r == Ok::<u32, MvtError>(value as u32),
        value > u32::MAX ==> r == Err::<u32, MvtError>(MvtError::IndexOverflow(value)),
{
    if value <= 4294967295usize {
        Ok(value as u32)
    } else {
        Err(MvtError::IndexOverflow(value))
    }
}

/// A layer as the builders make it: named, and of version 2. The reader
/// accepts it.
pub open spec fn built_layer(l: LayerModel) -> bool {
    &&& l.name.len() > 0
    &&& l.version == 2
}

/// Builds a tile layer by layer.
#[derive(Debug)]
pub struct MvtTileBuilder {
    tile: Tile,
}

impl View for MvtTileBuilder {
    type V = TileModel;

    /// The layers committed so far.
    closed spec fn view(&self) -> TileModel {
        self.tile@
    }
}

impl MvtTileBuilder {
    /// Every committed layer has a name and version 2, as the builders make
    /// them.
    #[verifier::type_invariant]
    spec fn layers_built(self) -> bool {
        forall|i: int| 0 <= i < self.tile@.layers.len() ==> built_layer(#[trigger] self.tile@.layers[i])
    }

    /// A builder with no layers.
    #[must_use]
    pub fn new() -> (r: MvtTileBuilder)
        ensures
            r@.layers == Seq::<LayerModel>::empty(),
    {
        let r = MvtTileBuilder { tile: Tile { layers: Vec::new() } };
        assert(r@.layers =~= Seq::<LayerModel>::empty());
        r
    }

    /// A builder with no layers and room for `layers` of them.
    #[must_use]
    pub fn with_capacity(layers: usize) -> (r: MvtTileBuilder)
        ensures
            r@.layers == Seq::<LayerModel>::empty(),
    {
        let r = MvtTileBuilder { tile: Tile { layers: Vec::with_capacity(layers) } };
        assert(r@.layers =~= Seq::<LayerModel>::empty());
        r
    }

    /// Starts a layer named `name` after the committed ones; an empty name
    /// is refused.
    pub fn layer(self, name: &str) -> (r: MvtResult<MvtLayerBuilder>)
        ensures
            name@.len() == 0 ==> r matches Err(MvtError::MissingLayerName),
            name@.len() > 0 ==> (r matches Ok(b) && b.tile_model() == self@
                && b.layer_model() == started_layer(name@)),
    {
        self.layer_with_capacity(name, 0)
    }

    /// Like [`MvtTileBuilder::layer`], with room for `features` features.
    pub fn layer_with_capacity(self, name: &str, features: usize) -> (r: MvtResult<MvtLayerBuilder>)
        ensures
            name@.len() == 0 ==> r matches Err(MvtError::MissingLayerName),
            name@.len() > 0 ==> (r matches Ok(b) && b.tile_model() == self@
                && b.layer_model() == started_layer(name@)),
    {
        if name.is_empty() {
            return Err(MvtError::MissingLayerName);
        }
        Ok(MvtLayerBuilder::with_tile(self, name.to_owned(), features))
    }

    /// The bytes of the tile. They decode to the committed layers, in order,
    /// each of which has a name and version 2, so that the reader accepts
    /// them.
    #[must_use]
    pub fn encode(self) -> (r: Vec<u8>)
        requires
            crate::proto::encode_tile(self@).len() <= max_message_bytes(),
        ensures
            r@ == crate::proto::encode_tile(self@),
            decode_tile(r@) == Some(self@),
            forall|i: int| 0 <= i < self@.layers.len() ==> built_layer(#[trigger] self@.layers[i])
                && layer_acceptable(self@.layers[i]),
    {
        proof {
            use_type_invariant(&self);
            lemma_tile_roundtrip(self@);
        }
        let size = tile_size(&self.tile);
        let mut out: Vec<u8> = Vec::with_capacity(u32_to_usize(size as u32));
        encode_tile_into(&mut out, &self.tile);
        assert(out@ =~= crate::proto::encode_tile(self@));
        out
    }

    /// The number of bytes that [`MvtTileBuilder::encode`] gives.
    #[must_use]
    pub fn encoded_len(&self) -> (r: usize)
        requires
            crate::proto::encode_tile(self@).len() <= max_message_bytes(),
        ensures
            r == crate::proto::encode_tile(self@).len(),
    {
        let size = tile_size(&self.tile);
        u32_to_usize(size as u32)
    }

    /// Commits a layer after the others.
    fn push_layer(self, layer: Layer) -> (r: MvtTileBuilder)
        requires
            built_layer(layer@),
        ensures
            r@.layers == self@.layers.push(layer@),
    {
        proof {
            use_type_invariant(&self);
        }
        let MvtTileBuilder { tile } = self;
        let mut tile = tile;
        tile.layers.push(layer);
        assert(tile@.layers =~= self@.layers.push(layer@));
        MvtTileBuilder { tile }
    }
}

impl Default for MvtTileBuilder {
    fn default() -> (r: MvtTileBuilder)
        ensures
            r@.layers == Seq::<LayerModel>::empty(),
    {
        MvtTileBuilder::new()
    }
}

/// Builds one layer of a tile: its features, with the keys and values their
/// tags refer to interned so that each is stored once.
#[derive(Debug)]
pub struct MvtLayerBuilder {
    tile: MvtTileBuilder,
    layer: Layer,
    keys: KeyTable,
    values: ValueTable,
}

/// A layer's value table: the encoding of each value, interned, beside the
/// value message it was interned for, in the same order.
#[derive(Debug)]
struct ValueTable {
    index: DupIndexer<Vec<u8>>,
    list: Vec<Value>,
}

impl MvtLayerBuilder {
    /// The layers committed before this one.
    pub closed spec fn tile_model(&self) -> TileModel {
        self.tile@
    }

    /// The layer as it would be committed now.
    pub closed spec fn layer_model(&self) -> LayerModel {
        LayerModel {
            keys: interned_keys(self.keys),
            values: values_model(self.values.list@),
            ..self.layer@
        }
    }

    /// The layer has a name and version 2, the key and value tables hold
    /// each entry once, and the value table is interned by each value's
    /// encoding.
    #[verifier::type_invariant]
    spec fn tables_consistent(self) -> bool {
        &&& self.layer@.name.len() > 0
        &&& self.layer.version == 2
        &&& interned_keys(self.keys).no_duplicates()
        &&& values_model(self.values.list@).no_duplicates()
        &&& interned_values(self.values.index).len() == self.values.list@.len()
        &&& forall|i: int|
            0 <= i < self.values.list@.len() ==> #[trigger] interned_values(self.values.index)[i]
                == encode_value(self.values.list@[i]@) && encode_value(self.values.list@[i]@).len()
                <= u64::MAX
    }

    fn with_tile(tile: MvtTileBuilder, name: String, features: usize) -> (r: MvtLayerBuilder)
        requires
            name@.len() > 0,
        ensures
            r.tile_model() == tile@,
            r.layer_model() == started_layer(name@),
    {
        let layer = Layer {
            version: 2,
            name,
            features: Vec::with_capacity(features),
            keys: Vec::new(),
            values: Vec::new(),
            extent: Some(DEFAULT_EXTENT_VALUE),
        };
        let keys = new_key_table();
        let values = ValueTable { index: new_value_table(), list: Vec::new() };
        assert(values_model(values.list@) =~= Seq::<ValueModel>::empty());
        let r = MvtLayerBuilder { tile, layer, keys, values };
        assert(features_model(r.layer.features@) =~= Seq::<FeatureModel>::empty());
        assert(r.layer_model() =~= started_layer(name@));
        r
    }
}

impl MvtLayerBuilder {
    /// A layer builder that is not attached to a tile: encoding it gives the
    /// bytes of this one layer, a chunk that can be concatenated with others.
    /// An empty name is refused.
    pub fn new(name: &str) -> (r: MvtResult<MvtLayerBuilder>)
        ensures
            name@.len() == 0 ==> r matches Err(MvtError::MissingLayerName),
            name@.len() > 0 ==> (r matches Ok(b) && b.tile_model().layers == Seq::<
                LayerModel,
            >::empty() && b.layer_model() == started_layer(name@)),
    {
        MvtTileBuilder::new().layer(name)
    }

    /// Like [`MvtLayerBuilder::new`], with room for `features` features.
    pub fn with_capacity(name: &str, features: usize) -> (r: MvtResult<MvtLayerBuilder>)
        ensures
            name@.len() == 0 ==> r matches Err(MvtError::MissingLayerName),
            name@.len() > 0 ==> (r matches Ok(b) && b.tile_model().layers == Seq::<
                LayerModel,
            >::empty() && b.layer_model() == started_layer(name@)),
    {
        MvtTileBuilder::new().layer_with_capacity(name, features)
    }

    /// Sets the layer's extent.
    pub fn extent(&mut self, extent: MvtExtent) -> (r: &mut MvtLayerBuilder)
        ensures
            r.tile_model() == old(self).tile_model(),
            r.layer_model() == (LayerModel {
                extent: Some(extent.spec_get()),
                ..old(self).layer_model()
            }),
            *final(self) == *final(r),
    {
        proof {
            use_type_invariant(&*self);
        }
        self.layer.extent = Some(extent.get());
        self
    }

    /// The layer's name.
    #[must_use]
    pub fn name(&self) -> (r: &str)
        ensures
            r@ == self.layer_model().name,
    {
        self.layer.name.as_str()
    }

    /// The number of features committed to the layer.
    #[must_use]
    pub fn num_features(&self) -> (r: usize)
        ensures
            r == self.layer_model().features.len(),
    {
        self.layer.features.len()
    }

    /// How many features the layer has room for before it reallocates: at
    /// least as many as it holds.
    pub fn feature_capacity(&self) -> (r: usize)
        ensures
            r >= self.layer_model().features.len(),
    {
        vec_capacity(&self.layer.features)
    }

    /// Starts a feature with a geometry; a geometry that cannot be written
    /// is refused.
    pub fn feature(self, geometry: &MvtGeometry) -> (r: MvtResult<MvtFeatureBuilder>)
        ensures
            match encode_geometry_spec(geometry@) {
                None => r matches Err(MvtError::InvalidGeometry),
                Some((t, cmds)) => r matches Ok(f) && f.tile_model() == self.tile_model()
                    && f.layer_model() == self.layer_model() && f.feature_model() == (FeatureModel {
                    id: None,
                    tags: seq![],
                    geom_type: Some(t),
                    geometry: cmds,
                }),
            },
    {
        let (geom_type, geometry) = match encode_geometry(geometry) {
            Ok(x) => x,
            Err(e) => return Err(e),
        };
        let f = MvtFeatureBuilder {
            layer: self,
            feature: Feature { id: None, tags: Vec::new(), geom_type: Some(geom_type), geometry },
        };
        assert(f.feature@.tags =~= Seq::<u32>::empty());
        Ok(f)
    }

    /// Commits the layer to its tile and returns the tile.
    #[must_use]
    pub fn end(self) -> (r: MvtTileBuilder)
        ensures
            r@.layers == self.tile_model().layers.push(self.layer_model()),
    {
        proof {
            use_type_invariant(&self);
        }
        let ghost m = self.layer_model();
        let MvtLayerBuilder { tile, layer, keys, values } = self;
        let mut layer = layer;
        let ghost ks = interned_keys(keys);
        layer.keys = key_table_into_vec(keys);
        layer.values = values.list;
        assert(strings_model(layer.keys@) =~= ks);
        assert(layer@ =~= m);
        tile.push_layer(layer)
    }

    /// Commits the layer and starts another, named `name`; an empty name is
    /// refused.
    pub fn layer(self, name: &str) -> (r: MvtResult<MvtLayerBuilder>)
        ensures
            name@.len() == 0 ==> r matches Err(MvtError::MissingLayerName),
            name@.len() > 0 ==> (r matches Ok(b) && b.tile_model().layers
                == self.tile_model().layers.push(self.layer_model()) && b.layer_model()
                == started_layer(name@)),
    {
        self.end().layer(name)
    }

    /// Commits the layer and encodes the tile built so far; for a builder
    /// made with [`MvtLayerBuilder::new`], the bytes of this layer alone.
    #[must_use]
    pub fn encode(self) -> (r: Vec<u8>)
        requires
            crate::proto::encode_tile(TileModel { layers: self.tile_model().layers.push(self.layer_model()) }).len()
                <= max_message_bytes(),
        ensures
            r@ == crate::proto::encode_tile(TileModel { layers: self.tile_model().layers.push(self.layer_model()) }),
            decode_tile(r@) == Some(TileModel { layers: self.tile_model().layers.push(self.layer_model()) }),
            forall|i: int|
                0 <= i < self.tile_model().layers.len() + 1 ==> built_layer(
                    #[trigger] self.tile_model().layers.push(self.layer_model())[i],
                ) && layer_acceptable(self.tile_model().layers.push(self.layer_model())[i]),
    {
        let t = self.end();
        assert(t@ == TileModel { layers: self.tile_model().layers.push(self.layer_model()) });
        t.encode()
    }
}

/// Builds one feature of a layer: its id and its tags.
#[derive(Debug)]
#[must_use]
pub struct MvtFeatureBuilder {
    layer: MvtLayerBuilder,
    feature: Feature,
}

impl MvtFeatureBuilder {
    /// The layers committed before the feature's layer.
    pub closed spec fn tile_model(&self) -> TileModel {
        self.layer.tile_model()
    }

    /// The feature's layer, with its key and value tables as they are now.
    pub closed spec fn layer_model(&self) -> LayerModel {
        self.layer.layer_model()
    }

    /// The feature as it would be committed now.
    pub closed spec fn feature_model(&self) -> FeatureModel {
        self.feature@
    }

}

/// A feature builder after a tag with `key` and `value` that returned `r`:
/// its tables and tags as [`tag_outcome`] gives them, and the same otherwise.
pub open spec fn tagged(
    before: MvtFeatureBuilder,
    after: MvtFeatureBuilder,
    key: Seq<char>,
    value: ValueKind,
    r: MvtResult<()>,
) -> bool {
    let o = tag_outcome(
        before.layer_model().keys,
        before.layer_model().values,
        before.feature_model().tags,
        key,
        value,
    );
    &&& after.tile_model() == before.tile_model()
    &&& after.layer_model() == (LayerModel { keys: o.keys, values: o.values, ..before.layer_model() })
    &&& after.feature_model() == (FeatureModel { tags: o.tags, ..before.feature_model() })
    &&& match o.error {
        None => r is Ok,
        Some(e) => r == Err::<(), MvtError>(e),
    }
}

impl MvtFeatureBuilder {
    /// Sets or clears the feature's id.
    pub fn id(&mut self, id: Option<u64>) -> (r: &mut MvtFeatureBuilder)
        ensures
            r.tile_model() == old(self).tile_model(),
            r.layer_model() == old(self).layer_model(),
            r.feature_model() == (FeatureModel { id, ..old(self).feature_model() }),
            *final(self) == *final(r),
    {
        self.feature.id = id;
        self
    }

    /// Tags the feature with a property. A null value is dropped; otherwise
    /// the key and the value are interned in the layer's tables and their
    /// indices added to the feature's tags. On success, the builder is
    /// returned for the next call.
    pub fn tag(&mut self, key: &str, value: MvtValue) -> (r: MvtResult<&mut MvtFeatureBuilder>)
        ensures
            match r {
                Ok(b) => tagged(*old(self), *b, key@, value@, Ok(())) && *final(self) == *final(b),
                Err(e) => tagged(*old(self), *final(self), key@, value@, Err(e)),
            },
    {
        match self.tag_in_place(key, value) {
            Ok(()) => Ok(self),
            Err(e) => Err(e),
        }
    }

    fn tag_in_place(&mut self, key: &str, value: MvtValue) -> (r: MvtResult<()>)
        ensures
            tagged(*old(self), *final(self), key@, value@, r),
    {
        let ghost start = *self;
        if value.is_null() {
            return Ok(());
        }
        proof {
            use_type_invariant(&self.layer);
        }
        let ghost keys0 = interned_keys(self.layer.keys);
        let ghost vals0 = values_model(self.layer.values.list@);
        let ghost table0 = interned_values(self.layer.values.index);
        let ghost tags0 = self.feature@.tags;
        let ghost o = tag_outcome(keys0, vals0, tags0, key@, value@);
        // The tables are taken out while they change, leaving empty ones in
        // their place, and put back once they are consistent again.
        let mut keys = new_key_table();
        std::mem::swap(&mut keys, &mut self.layer.keys);
        let ki = intern_key(&mut keys, key);
        proof {
            lemma_interned(keys0, key@);
            if keys0.contains(key@) {
                lemma_index_of_unique(keys0, key@, ki as int);
            }
            assert(interned_keys(keys) == o.keys);
            assert(ki == o.keys.index_of(key@));
        }
        std::mem::swap(&mut keys, &mut self.layer.keys);
        let kt = match u32_index(ki) {
            Ok(k) => k,
            Err(e) => {
                assert(self.layer.layer_model() =~= (LayerModel { keys: o.keys, values: o.values, ..start.layer_model() }));
                return Err(e);
            },
        };
        let ghost vm = value_message(value@);
        let proto = value_to_proto(value);
        let mut bytes: Vec<u8> = Vec::new();
        encode_value_into(&mut bytes, &proto);
        // The encoding fits in memory, which bounds its length for the round trip below.
        let blen: usize = bytes.len();
        assert(bytes@ =~= encode_value(vm));
        let ghost b = bytes@;
        let mut values = ValueTable { index: new_value_table(), list: Vec::new() };
        assert(values_model(values.list@) =~= Seq::<ValueModel>::empty());
        std::mem::swap(&mut values, &mut self.layer.values);
        let vi = intern_value(&mut values.index, bytes);
        if vi == values.list.len() {
            values.list.push(proto);
        }
        proof {
            lemma_interned(vals0, vm);
            lemma_value_roundtrip(vm);
            if table0.contains(b) {
                let j = vi as int;
                assert(table0[j] == encode_value(start.layer.values.list@[j]@));
                lemma_value_roundtrip(start.layer.values.list@[j]@);
                assert(vals0[j] == vm);
                lemma_index_of_unique(vals0, vm, j);
                assert(values.list@ == start.layer.values.list@);
            } else {
                assert(!vals0.contains(vm)) by {
                    if vals0.contains(vm) {
                        let j = choose|j: int| 0 <= j < vals0.len() && vals0[j] == vm;
                        assert(table0[j] == encode_value(start.layer.values.list@[j]@));
                    }
                }
                assert(values_model(values.list@) =~= vals0.push(vm));
                assert forall|i: int| 0 <= i < values.list@.len() implies #[trigger] interned_values(values.index)[i]
                    == encode_value(values.list@[i]@) && encode_value(values.list@[i]@).len()
                    <= u64::MAX by {
                    if i < vals0.len() {
                        assert(interned_values(values.index)[i] == table0[i]);
                    }
                }
            }
            assert(values_model(values.list@) == o.values);
            assert(vi == o.values.index_of(vm));
        }
        std::mem::swap(&mut values, &mut self.layer.values);
        let vt = match u32_index(vi) {
            Ok(v) => v,
            Err(e) => {
                assert(o.error == Some(e));
                assert(self.layer.layer_model() =~= (LayerModel { keys: o.keys, values: o.values, ..start.layer_model() }));
                return Err(e);
            },
        };
        self.feature.tags.push(kt);
        self.feature.tags.push(vt);
        assert(o.error is None);
        assert(o.tags == tags0.push(kt).push(vt));
        assert(self.tile_model() == start.tile_model());
        assert(self.layer.layer_model() =~= (LayerModel { keys: o.keys, values: o.values, ..start.layer_model() }));
        assert(self.feature@ =~= (FeatureModel { tags: o.tags, ..start.feature@ }));
        Ok(())
    }

    /// Tags the feature with a string value.
    pub fn tag_string(&mut self, key: &str, value: String) -> (r: MvtResult<&mut MvtFeatureBuilder>)
        ensures
            match r {
                Ok(b) => tagged(*old(self), *b, key@, ValueKind::String(value@), Ok(())) && *final(self) == *final(b),
                Err(e) => tagged(*old(self), *final(self), key@, ValueKind::String(value@), Err(e)),
            },
    {
        self.tag(key, MvtValue::String(value))
    }

    /// Tags the feature with a float value, given by its bits.
    pub fn tag_float(&mut self, key: &str, bits: u32) -> (r: MvtResult<&mut MvtFeatureBuilder>)
        ensures
            match r {
                Ok(b) => tagged(*old(self), *b, key@, ValueKind::Float(bits), Ok(())) && *final(self) == *final(b),
                Err(e) => tagged(*old(self), *final(self), key@, ValueKind::Float(bits), Err(e)),
            },
    {
        self.tag(key, MvtValue::Float(bits))
    }

    /// Tags the feature with a double value, given by its bits.
    pub fn tag_double(&mut self, key: &str, bits: u64) -> (r: MvtResult<&mut MvtFeatureBuilder>)
        ensures
            match r {
                Ok(b) => tagged(*old(self), *b, key@, ValueKind::Double(bits), Ok(())) && *final(self) == *final(b),
                Err(e) => tagged(*old(self), *final(self), key@, ValueKind::Double(bits), Err(e)),
            },
    {
        self.tag(key, MvtValue::Double(bits))
    }

    /// Tags the feature with an `int` value.
    pub fn tag_int(&mut self, key: &str, value: i64) -> (r: MvtResult<&mut MvtFeatureBuilder>)
        ensures
            match r {
                Ok(b) => tagged(*old(self), *b, key@, ValueKind::Int(value), Ok(())) && *final(self) == *final(b),
                Err(e) => tagged(*old(self), *final(self), key@, ValueKind::Int(value), Err(e)),
            },
    {
        self.tag(key, MvtValue::Int(value))
    }

    /// Tags the feature with a `uint` value.
    pub fn tag_uint(&mut self, key: &str, value: u64) -> (r: MvtResult<&mut MvtFeatureBuilder>)
        ensures
            match r {
                Ok(b) => tagged(*old(self), *b, key@, ValueKind::UInt(value), Ok(())) && *final(self) == *final(b),
                Err(e) => tagged(*old(self), *final(self), key@, ValueKind::UInt(value), Err(e)),
            },
    {
        self.tag(key, MvtValue::UInt(value))
    }

    /// Tags the feature with a `sint` value.
    pub fn tag_sint(&mut self, key: &str, value: i64) -> (r: MvtResult<&mut MvtFeatureBuilder>)
        ensures
            match r {
                Ok(b) => tagged(*old(self), *b, key@, ValueKind::SInt(value), Ok(())) && *final(self) == *final(b),
                Err(e) => tagged(*old(self), *final(self), key@, ValueKind::SInt(value), Err(e)),
            },
    {
        self.tag(key, MvtValue::SInt(value))
    }

    /// Tags the feature with a boolean value.
    pub fn tag_bool(&mut self, key: &str, value: bool) -> (r: MvtResult<&mut MvtFeatureBuilder>)
        ensures
            match r {
                Ok(b) => tagged(*old(self), *b, key@, ValueKind::Bool(value), Ok(())) && *final(self) == *final(b),
                Err(e) => tagged(*old(self), *final(self), key@, ValueKind::Bool(value), Err(e)),
            },
    {
        self.tag(key, MvtValue::Bool(value))
    }

    /// Tags the feature with an integer in the encoding that takes the fewest
    /// bytes: `uint` when it is not negative, `sint` when it is.
    pub fn tag_auto_int(&mut self, key: &str, value: i64) -> (r: MvtResult<&mut MvtFeatureBuilder>)
        ensures
            match r {
                Ok(b) => tagged(*old(self), *b, key@, auto_int_kind(value), Ok(())) && *final(self) == *final(b),
                Err(e) => tagged(*old(self), *final(self), key@, auto_int_kind(value), Err(e)),
            },
    {
        self.tag(key, MvtValue::auto_int(value))
    }

    /// The number of tags, counted as key and value pairs.
    #[must_use]
    pub fn num_tags(&self) -> (r: usize)
        ensures
            r == self.feature_model().tags.len() / 2,
    {
        self.feature.tags.len() / 2
    }

    /// Commits the feature to its layer and returns the layer.
    #[must_use]
    pub fn end(self) -> (r: MvtLayerBuilder)
        ensures
            r.tile_model() == self.tile_model(),
            r.layer_model() == (LayerModel {
                features: self.layer_model().features.push(self.feature_model()),
                ..self.layer_model()
            }),
    {
        let MvtFeatureBuilder { layer, feature } = self;
        proof {
            use_type_invariant(&layer);
        }
        let MvtLayerBuilder { tile, layer: l, keys, values } = layer;
        let mut l = l;
        let ghost before = l.features@;
        l.features.push(feature);
        assert(features_model(l.features@) =~= features_model(before).push(feature@));
        let layer = MvtLayerBuilder { tile, layer: l, keys, values };
        assert(layer.layer_model() =~= (LayerModel {
            features: self.layer_model().features.push(self.feature_model()),
            ..self.layer_model()
        }));
        layer
    }
}

/// Tagging with each property in turn, from `keys`, `values` and `tags`,
/// stopping at the first error.
pub open spec fn props_outcome(
    keys: Seq<Seq<char>>,
    values: Seq<ValueModel>,
    tags: Seq<u32>,
    ps: Seq<(Seq<char>, ValueKind)>,
) -> TagOutcome
    decreases ps.len(),
{
    if ps.len() == 0 {
        TagOutcome { keys, values, tags, error: None }
    } else {
        let o = tag_outcome(keys, values, tags, ps[0].0, ps[0].1);
        if o.error is Some {
            o
        } else {
            props_outcome(o.keys, o.values, o.tags, ps.drop_first())
        }
    }
}

/// The layer after a feature is added to it: its geometry written, its
/// properties tagged in order, and the feature committed; or the first error.
pub open spec fn feature_outcome(l: LayerModel, f: FeatureData) -> Result<LayerModel, MvtError> {
    match encode_geometry_spec(f.geometry) {
        None => Err(MvtError::InvalidGeometry),
        Some((t, cmds)) => {
            let o = props_outcome(l.keys, l.values, seq![], f.properties);
            match o.error {
                Some(e) => Err(e),
                None => Ok(
                    LayerModel {
                        keys: o.keys,
                        values: o.values,
                        features: l.features.push(
                            FeatureModel { id: f.id, tags: o.tags, geom_type: Some(t), geometry: cmds },
                        ),
                        ..l
                    },
                ),
            }
        },
    }
}

/// The layer after the features are added to it in order, or the first error.
pub open spec fn features_outcome(l: LayerModel, fs: Seq<FeatureData>) -> Result<LayerModel, MvtError>
    decreases fs.len(),
{
    if fs.len() == 0 {
        Ok(l)
    } else {
        match feature_outcome(l, fs[0]) {
            Err(e) => Err(e),
            Ok(l2) => features_outcome(l2, fs.drop_first()),
        }
    }
}

/// The layer message that a layer is written as, or the first error: an
/// empty name, then the features in order.
pub open spec fn layer_outcome(d: LayerData) -> Result<LayerModel, MvtError> {
    if d.name.len() == 0 {
        Err(MvtError::MissingLayerName)
    } else {
        features_outcome(LayerModel { extent: Some(d.extent), ..started_layer(d.name) }, d.features)
    }
}

/// The tile message after the layers are written after `acc`, or the first
/// error.
pub open spec fn layers_outcome(ls: Seq<LayerData>, acc: Seq<LayerModel>) -> Result<TileModel, MvtError>
    decreases ls.len(),
{
    if ls.len() == 0 {
        Ok(TileModel { layers: acc })
    } else {
        match layer_outcome(ls[0]) {
            Err(e) => Err(e),
            Ok(m) => layers_outcome(ls.drop_first(), acc.push(m)),
        }
    }
}

/// The tile message that a tile is written as, or the first error.
pub open spec fn tile_message(t: TileData) -> Result<TileModel, MvtError> {
    layers_outcome(t.layers, seq![])
}

/// A copy of a property value.
pub fn copy_value(v: &MvtValue) -> (r: MvtValue)
    ensures
        r@ == v@,
{
    match v {
        MvtValue::String(s) => MvtValue::String(s.clone()),
        MvtValue::Float(b) => MvtValue::Float(*b),
        MvtValue::Double(b) => MvtValue::Double(*b),
        MvtValue::Int(i) => MvtValue::Int(*i),
        MvtValue::UInt(u) => MvtValue::UInt(*u),
        MvtValue::SInt(i) => MvtValue::SInt(*i),
        MvtValue::Bool(b) => MvtValue::Bool(*b),
        MvtValue::Null => MvtValue::Null,
    }
}

/// Adds a feature of a tile to a layer builder: its geometry, id and
/// properties.
fn add_feature(layer_bld: MvtLayerBuilder, feature: &MvtFeature) -> (r: MvtResult<MvtLayerBuilder>)
    ensures
        match feature_outcome(layer_bld.layer_model(), feature@) {
            Ok(l) => r matches Ok(b) && b.tile_model() == layer_bld.tile_model()
                && b.layer_model() == l,
            Err(e) => r == Err::<MvtLayerBuilder, MvtError>(e),
        },
{
    let ghost l0 = layer_bld.layer_model();
    let ghost ps = feature@.properties;
    let mut fb = match layer_bld.feature(&feature.geometry) {
        Ok(f) => f,
        Err(e) => return Err(e),
    };
    fb.id(feature.id);
    let mut k: usize = 0;
    assert(ps.skip(0) =~= ps);
    while k < feature.properties.len()
        invariant
            k <= feature.properties@.len(),
            ps == feature@.properties,
            ps.len() == feature.properties@.len(),
            fb.tile_model() == layer_bld.tile_model(),
            l0 == layer_bld.layer_model(),
            fb.layer_model() == (LayerModel { keys: fb.layer_model().keys, values: fb.layer_model().values, ..l0 }),
            fb.feature_model().id == feature.id,
            fb.feature_model().geom_type == (match encode_geometry_spec(feature@.geometry) {
                Some((t, _)) => Some(t),
                None => None::<GeomType>,
            }),
            encode_geometry_spec(feature@.geometry) matches Some((_, c)) && fb.feature_model().geometry == c,
            props_outcome(l0.keys, l0.values, seq![], ps) == props_outcome(
                fb.layer_model().keys,
                fb.layer_model().values,
                fb.feature_model().tags,
                ps.skip(k as int),
            ),
        decreases feature.properties@.len() - k,
    {
        let ghost before = fb;
        let ghost t = ps.skip(k as int);
        assert(t[0] == ps[k as int]);
        assert(t.drop_first() =~= ps.skip(k + 1));
        let (key, value) = &feature.properties[k];
        assert(ps[k as int] == (key@, value@));
        let res = fb.tag_in_place(key.as_str(), copy_value(value));
        match res {
            Ok(()) => {},
            Err(e) => {
                let ghost o = tag_outcome(before.layer_model().keys, before.layer_model().values, before.feature_model().tags, key@, value@);
                assert(o.error == Some(e));
                assert(props_outcome(before.layer_model().keys, before.layer_model().values, before.feature_model().tags, t) == o);
                assert(props_outcome(l0.keys, l0.values, seq![], ps).error == Some(e));
                assert(feature_outcome(l0, feature@) == Err::<LayerModel, MvtError>(e));
                return Err(e);
            },
        }
        k = k + 1;
    }
    assert(ps.skip(k as int) =~= Seq::<(Seq<char>, ValueKind)>::empty());
    let b = fb.end();
    Ok(b)
}

/// Adds a layer of a tile to a tile builder: its name, extent and features.
fn add_layer(tile_bld: MvtTileBuilder, layer: &MvtLayer) -> (r: MvtResult<MvtTileBuilder>)
    ensures
        match layer_outcome(layer@) {
            Ok(m) => r matches Ok(t) && t@.layers == tile_bld@.layers.push(m),
            Err(e) => r == Err::<MvtTileBuilder, MvtError>(e),
        },
{
    let ghost d = layer@;
    let ghost fs = d.features;
    let mut layer_bld = match tile_bld.layer_with_capacity(layer.name.as_str(), layer.features.len()) {
        Ok(b) => b,
        Err(e) => return Err(e),
    };
    layer_bld.extent(layer.extent);
    let ghost l0 = layer_bld.layer_model();
    assert(l0 == LayerModel { extent: Some(d.extent), ..started_layer(d.name) });
    let mut j: usize = 0;
    assert(fs.skip(0) =~= fs);
    while j < layer.features.len()
        invariant
            j <= layer.features@.len(),
            fs == layer@.features,
            d == layer@,
            d.name.len() > 0,
            l0 == (LayerModel { extent: Some(d.extent), ..started_layer(d.name) }),
            fs.len() == layer.features@.len(),
            layer_bld.tile_model() == tile_bld@,
            features_outcome(l0, fs) == features_outcome(layer_bld.layer_model(), fs.skip(j as int)),
        decreases layer.features@.len() - j,
    {
        let ghost t = fs.skip(j as int);
        assert(t[0] == fs[j as int]);
        assert(t.drop_first() =~= fs.skip(j + 1));
        assert(fs[j as int] == layer.features@[j as int]@);
        let ghost lb = layer_bld.layer_model();
        layer_bld = match add_feature(layer_bld, &layer.features[j]) {
            Ok(b) => b,
            Err(e) => {
                assert(feature_outcome(lb, t[0]) == Err::<LayerModel, MvtError>(e));
                assert(features_outcome(lb, t) == Err::<LayerModel, MvtError>(e));
                return Err(e);
            },
        };
        j = j + 1;
    }
    assert(fs.skip(j as int) =~= Seq::<FeatureData>::empty());
    Ok(layer_bld.end())
}

/// Writes a tile, borrowed, through the builders, and encodes it.
pub fn encode_tile_ref(tile: &MvtTile) -> (r: MvtResult<Vec<u8>>)
    requires
        tile_message(tile@) matches Ok(m) ==> crate::proto::encode_tile(m).len() <= max_message_bytes(),
    ensures
        match tile_message(tile@) {
            Ok(m) => r matches Ok(b) && b@ == crate::proto::encode_tile(m),
            Err(e) => r == Err::<Vec<u8>, MvtError>(e),
        },
{
    let ghost ls = tile@.layers;
    let mut tile_bld = MvtTileBuilder::with_capacity(tile.layers.len());
    let mut i: usize = 0;
    assert(ls.skip(0) =~= ls);
    while i < tile.layers.len()
        invariant
            i <= tile.layers@.len(),
            ls == tile@.layers,
            ls.len() == tile.layers@.len(),
            tile_message(tile@) == layers_outcome(ls.skip(i as int), tile_bld@.layers),
        decreases tile.layers@.len() - i,
    {
        let ghost t = ls.skip(i as int);
        assert(t[0] == ls[i as int]);
        assert(t.drop_first() =~= ls.skip(i + 1));
        assert(ls[i as int] == tile.layers@[i as int]@);
        tile_bld = match add_layer(tile_bld, &tile.layers[i]) {
            Ok(b) => b,
            Err(e) => return Err(e),
        };
        i = i + 1;
    }
    assert(ls.skip(i as int) =~= Seq::<LayerData>::empty());
    assert(tile_message(tile@) == Ok::<TileModel, MvtError>(tile_bld@));
    Ok(tile_bld.encode())
}

/// Writes a tile through the builders and encodes it.
pub fn encode_tile(tile: MvtTile) -> (r: MvtResult<Vec<u8>>)
    requires
        tile_message(tile@) matches Ok(m) ==> crate::proto::encode_tile(m).len() <= max_message_bytes(),
    ensures
        match tile_message(tile@) {
            Ok(m) => r matches Ok(b) && b@ == crate::proto::encode_tile(m),
            Err(e) => r == Err::<Vec<u8>, MvtError>(e),
        },
{
    encode_tile_ref(&tile)
}

impl MvtTile {
    /// The bytes of the tile, written through the builders.
    pub fn encode(self) -> (r: MvtResult<Vec<u8>>)
        requires
            tile_message(self@) matches Ok(m) ==> crate::proto::encode_tile(m).len() <= max_message_bytes(),
        ensures
            match tile_message(self@) {
                Ok(m) => r matches Ok(b) && b@ == crate::proto::encode_tile(m),
                Err(e) => r == Err::<Vec<u8>, MvtError>(e),
            },
    {
        encode_tile(self)
    }
}

} // verus!
