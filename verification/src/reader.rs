//! Reading a tile: checking its layers, and reading layers, features,
//! properties and geometries from it.
use vstd::prelude::*;
use vstd::std_specs::cmp::PartialEqSpecImpl;
use vstd::string::StringSliceAdditionalSpecFns;
use vstd::utf8::encode_utf8_decode_utf8;

use crate::codec::decode_tile_bytes;
use crate::error::{MvtError, MvtResult};
use crate::geometry::{decode_geometry, decode_geometry_spec};
use crate::proto::{
    decode_tile, strings_model, values_model, Feature, FeatureModel, GeomType, Layer, LayerModel,
    Tile, TileModel, Value, ValueModel,
};
use crate::types::{
    default_extent, feature_data, layer_data, properties_model, FeatureData, LayerData, MvtExtent,
    MvtFeature, MvtLayer, MvtTile, MvtValue, ValueKind, DEFAULT_EXTENT_VALUE, f32_bits_eq,
    f32_bits_ieee_eq, f64_bits_eq, f64_bits_ieee_eq,
};

verus! {

/// The kind of value a value message holds: its first alternative that is
/// set, in field order, or null when none is.
pub open spec fn value_kind(v: ValueModel) -> ValueKind {
    match v.string_value {
        Some(s) => ValueKind::String(s),
        None => match v.float_value {
            Some(b) => ValueKind::Float(b),
            None => match v.double_value {
                Some(b) => ValueKind::Double(b),
                None => match v.int_value {
                    Some(i) => ValueKind::Int(i),
                    None => match v.uint_value {
                        Some(u) => ValueKind::UInt(u),
                        None => match v.sint_value {
                            Some(i) => ValueKind::SInt(i),
                            None => match v.bool_value {
                                Some(b) => ValueKind::Bool(b),
                                None => ValueKind::Null,
                            },
                        },
                    },
                },
            },
        },
    }
}

/// A layer that the reader accepts: a non-empty name and a version from 1 to 3.
pub open spec fn layer_acceptable(l: LayerModel) -> bool {
    l.name.len() > 0 && 1 <= l.version <= 3
}

/// The error that the reader reports for a layer it does not accept.
pub open spec fn layer_error_matches(e: MvtError, l: LayerModel) -> bool {
    if l.name.len() == 0 {
        e is MissingLayerName
    } else {
        e matches MvtError::UnsupportedVersion { layer, version } && layer@ == l.name && version
            == l.version
    }
}

/// The property that the `i`-th pair of a feature's tags names in a layer,
/// or the error that reading it reports.
pub open spec fn property_at(l: LayerModel, tags: Seq<u32>, i: nat) -> Result<(Seq<char>, ValueKind), MvtError> {
    let rest = tags.len() - 2 * i;
    if rest < 2 {
        Err(MvtError::InvalidTagsLength(rest as usize))
    } else {
        let k = tags[(2 * i) as int];
        let v = tags[(2 * i + 1) as int];
        if k >= l.keys.len() {
            Err(MvtError::InvalidKeyIndex(k))
        } else if v >= l.values.len() {
            Err(MvtError::InvalidValueIndex(v))
        } else {
            Ok((l.keys[k as int], value_kind(l.values[v as int])))
        }
    }
}

/// The number of tag pairs, counting a trailing unpaired tag.
pub open spec fn pair_count(tags: Seq<u32>) -> nat {
    (tags.len() + 1) / 2
}

/// The properties from the `i`-th tag pair on, or the first error.
pub open spec fn properties_from(l: LayerModel, tags: Seq<u32>, i: nat) -> Result<Seq<(Seq<char>, ValueKind)>, MvtError>
    decreases pair_count(tags) - i,
{
    if i >= pair_count(tags) {
        Ok(seq![])
    } else {
        match property_at(l, tags, i) {
            Err(e) => Err(e),
            Ok(p) => match properties_from(l, tags, i + 1) {
                Ok(r) => Ok(seq![p] + r),
                Err(e) => Err(e),
            },
        }
    }
}

/// A borrowed property value.
#[derive(Clone, Copy, Debug)]
pub enum MvtValueRef<'a> {
    String(&'a str),
    Float(u32),
    Double(u64),
    Int(i64),
    UInt(u64),
    SInt(i64),
    Bool(bool),
    Null,
}

impl<'a> View for MvtValueRef<'a> {
    type V = ValueKind;

    open spec fn view(&self) -> ValueKind {
        match self {
            MvtValueRef::String(s) => ValueKind::String(s@),
            MvtValueRef::Float(b) => ValueKind::Float(*b),
            MvtValueRef::Double(b) => ValueKind::Double(*b),
            MvtValueRef::Int(v) => ValueKind::Int(*v),
            MvtValueRef::UInt(v) => ValueKind::UInt(*v),
            MvtValueRef::SInt(v) => ValueKind::SInt(*v),
            MvtValueRef::Bool(v) => ValueKind::Bool(*v),
            MvtValueRef::Null => ValueKind::Null,
        }
    }
}

/// Whether two strings have the same text, compared by their UTF-8 bytes.
fn str_eq(a: &str, b: &str) -> (r: bool)
    ensures
        r == (a@ == b@),
{
    let x = a.as_bytes();
    let y = b.as_bytes();
    proof {
        encode_utf8_decode_utf8(a@);
        encode_utf8_decode_utf8(b@);
    }
    if x.len() != y.len() {
        return false;
    }
    let mut i: usize = 0;
    while i < x.len()
        invariant
            i <= x@.len(),
            x@.len() == y@.len(),
            x@ == a.spec_bytes(),
            y@ == b.spec_bytes(),
            forall|k: int| 0 <= k < i ==> x@[k] == y@[k],
        decreases x@.len() - i,
    {
        if x[i] != y[i] {
            return false;
        }
        i = i + 1;
    }
    assert(x@ =~= y@);
    proof {
        encode_utf8_decode_utf8(a@);
        encode_utf8_decode_utf8(b@);
    }
    true
}

impl<'a> PartialEq for MvtValueRef<'a> {
    /// Two borrowed values are equal when they have the same kind and equal
    /// payloads: strings by their text, floats and doubles as IEEE-754
    /// numbers (a number that is not one equals nothing, and the two zeros
    /// are equal), and an `int` never equals a `sint`.
    fn eq(&self, other: &Self) -> (r: bool) {
        match (self, other) {
            (MvtValueRef::String(a), MvtValueRef::String(b)) => str_eq(a, b),
            (MvtValueRef::Float(a), MvtValueRef::Float(b)) => f32_bits_eq(*a, *b),
            (MvtValueRef::Double(a), MvtValueRef::Double(b)) => f64_bits_eq(*a, *b),
            (MvtValueRef::Int(a), MvtValueRef::Int(b)) => a == b,
            (MvtValueRef::UInt(a), MvtValueRef::UInt(b)) => a == b,
            (MvtValueRef::SInt(a), MvtValueRef::SInt(b)) => a == b,
            (MvtValueRef::Bool(a), MvtValueRef::Bool(b)) => a == b,
            (MvtValueRef::Null, MvtValueRef::Null) => true,
            _ => false,
        }
    }
}

impl<'a> PartialEqSpecImpl for MvtValueRef<'a> {
    open spec fn obeys_eq_spec() -> bool {
        true
    }

    open spec fn eq_spec(&self, other: &Self) -> bool {
        match (self, other) {
            (MvtValueRef::String(a), MvtValueRef::String(b)) => a@ == b@,
            (MvtValueRef::Float(a), MvtValueRef::Float(b)) => f32_bits_ieee_eq(*a, *b),
            (MvtValueRef::Double(a), MvtValueRef::Double(b)) => f64_bits_ieee_eq(*a, *b),
            (MvtValueRef::Int(a), MvtValueRef::Int(b)) => a == b,
            (MvtValueRef::UInt(a), MvtValueRef::UInt(b)) => a == b,
            (MvtValueRef::SInt(a), MvtValueRef::SInt(b)) => a == b,
            (MvtValueRef::Bool(a), MvtValueRef::Bool(b)) => a == b,
            (MvtValueRef::Null, MvtValueRef::Null) => true,
            _ => false,
        }
    }
}

/// The borrowed form of a value message.
pub fn value_ref<'a>(v: &'a Value) -> (r: MvtValueRef<'a>)
    ensures
        r@ == value_kind(v@),
{
    if let Some(s) = &v.string_value {
        MvtValueRef::String(s.as_str())
    } else if let Some(b) = v.float_value {
        MvtValueRef::Float(b)
    } else if let Some(b) = v.double_value {
        MvtValueRef::Double(b)
    } else if let Some(i) = v.int_value {
        MvtValueRef::Int(i)
    } else if let Some(u) = v.uint_value {
        MvtValueRef::UInt(u)
    } else if let Some(i) = v.sint_value {
        MvtValueRef::SInt(i)
    } else if let Some(b) = v.bool_value {
        MvtValueRef::Bool(b)
    } else {
        MvtValueRef::Null
    }
}

impl<'a> MvtValueRef<'a> {
    /// The owned value.
    #[must_use]
    pub fn into_owned(self) -> (r: crate::types::MvtValue)
        ensures
            r@ == self@,
    {
        match self {
            MvtValueRef::String(s) => crate::types::MvtValue::String(s.to_owned()),
            MvtValueRef::Float(b) => crate::types::MvtValue::Float(b),
            MvtValueRef::Double(b) => crate::types::MvtValue::Double(b),
            MvtValueRef::Int(v) => crate::types::MvtValue::Int(v),
            MvtValueRef::UInt(v) => crate::types::MvtValue::UInt(v),
            MvtValueRef::SInt(v) => crate::types::MvtValue::SInt(v),
            MvtValueRef::Bool(v) => crate::types::MvtValue::Bool(v),
            MvtValueRef::Null => crate::types::MvtValue::Null,
        }
    }

    /// The name of the value's type as a dump shows it; `None` for strings,
    /// whose quotes already show it.
    pub fn kind_name(self) -> (r: Option<&'static str>)
        ensures
            self@ is String <==> r.is_none(),
            r matches Some(n) ==> n@ == value_type_name(self@),
    {
        proof {
            reveal_strlit("float");
            reveal_strlit("double");
            reveal_strlit("int");
            reveal_strlit("uint");
            reveal_strlit("sint");
            reveal_strlit("bool");
            reveal_strlit("null");
        }
        match self {
            MvtValueRef::String(_) => None,
            MvtValueRef::Float(_) => Some("float"),
            MvtValueRef::Double(_) => Some("double"),
            MvtValueRef::Int(_) => Some("int"),
            MvtValueRef::UInt(_) => Some("uint"),
            MvtValueRef::SInt(_) => Some("sint"),
            MvtValueRef::Bool(_) => Some("bool"),
            MvtValueRef::Null => Some("null"),
        }
    }
}

/// The type name of a value kind, as the vector tile format names its fields.
pub open spec fn value_type_name(v: ValueKind) -> Seq<char> {
    match v {
        ValueKind::String(_) => seq!['s', 't', 'r', 'i', 'n', 'g'],
        ValueKind::Float(_) => seq!['f', 'l', 'o', 'a', 't'],
        ValueKind::Double(_) => seq!['d', 'o', 'u', 'b', 'l', 'e'],
        ValueKind::Int(_) => seq!['i', 'n', 't'],
        ValueKind::UInt(_) => seq!['u', 'i', 'n', 't'],
        ValueKind::SInt(_) => seq!['s', 'i', 'n', 't'],
        ValueKind::Bool(_) => seq!['b', 'o', 'o', 'l'],
        ValueKind::Null => seq!['n', 'u', 'l', 'l'],
    }
}

/// The model of a list of borrowed properties.
pub open spec fn property_refs_model<'a>(v: Seq<(&'a str, MvtValueRef<'a>)>) -> Seq<(Seq<char>, ValueKind)> {
    Seq::new(v.len(), |i: int| (v[i].0@, v[i].1@))
}

/// Reads a feature's properties pair by pair.
#[derive(Clone, Debug)]
pub struct MvtPropertyIter<'a> {
    keys: &'a [String],
    values: &'a [Value],
    tags: &'a [u32],
    next_pair: usize,
}

impl<'a> MvtPropertyIter<'a> {
    /// The layer whose keys and values the tags refer to.
    pub closed spec fn layer_model(&self) -> LayerModel {
        LayerModel {
            version: 0,
            name: seq![],
            features: seq![],
            keys: strings_model(self.keys@),
            values: values_model(self.values@),
            extent: None,
        }
    }

    /// The feature's tags.
    pub closed spec fn tags_model(&self) -> Seq<u32> {
        self.tags@
    }

    /// The index of the next tag pair to read.
    pub closed spec fn position(&self) -> nat {
        self.next_pair as nat
    }

    pub(crate) fn new(keys: &'a [String], values: &'a [Value], tags: &'a [u32]) -> (r: MvtPropertyIter<'a>)
        ensures
            r.layer_model().keys == strings_model(keys@),
            r.layer_model().values == values_model(values@),
            r.tags_model() == tags@,
            r.position() == 0,
    {
        MvtPropertyIter { keys, values, tags, next_pair: 0 }
    }

    /// The next property, or the error that reading it reports; `None` once
    /// every pair, and a trailing unpaired tag, have been read.
    pub fn next(&mut self) -> (r: Option<MvtResult<(&'a str, MvtValueRef<'a>)>>)
        ensures
            final(self).layer_model() == old(self).layer_model(),
            final(self).tags_model() == old(self).tags_model(),
            old(self).position() >= pair_count(old(self).tags_model()) ==> r.is_none()
                && final(self).position() == old(self).position(),
            old(self).position() < pair_count(old(self).tags_model()) ==> final(self).position()
                == old(self).position() + 1 && (r matches Some(res) && match property_at(
                old(self).layer_model(),
                old(self).tags_model(),
                old(self).position(),
            ) {
                Ok((k, v)) => res matches Ok((rk, rv)) && rk@ == k && rv@ == v,
                Err(e) => res == Err::<(&'a str, MvtValueRef<'a>), MvtError>(e),
            }),
    {
        let n = self.tags.len();
        if self.next_pair >= n / 2 + n % 2 {
            return None;
        }
        let i = self.next_pair;
        self.next_pair = i + 1;
        let rest = n - 2 * i;
        if rest < 2 {
            return Some(Err(MvtError::InvalidTagsLength(rest)));
        }
        let k = self.tags[2 * i];
        let v = self.tags[2 * i + 1];
        let ku = crate::bridge::u32_to_usize(k);
        let vu = crate::bridge::u32_to_usize(v);
        if ku >= self.keys.len() {
            return Some(Err(MvtError::InvalidKeyIndex(k)));
        }
        if vu >= self.values.len() {
            return Some(Err(MvtError::InvalidValueIndex(v)));
        }
        let key = self.keys[ku].as_str();
        let value = value_ref(&self.values[vu]);
        Some(Ok((key, value)))
    }
}

/// A borrowed feature of a layer.
#[derive(Clone, Copy, Debug)]
pub struct MvtFeatureRef<'a> {
    layer: &'a Layer,
    feature: &'a Feature,
}

/// A borrowed layer of a tile.
#[derive(Clone, Copy, Debug)]
pub struct MvtLayerRef<'a> {
    layer: &'a Layer,
}

impl<'a> MvtFeatureRef<'a> {
    /// The layer the feature belongs to.
    pub closed spec fn layer_model(&self) -> LayerModel {
        self.layer@
    }

    /// The feature.
    pub closed spec fn feature_model(&self) -> FeatureModel {
        self.feature@
    }

    pub(crate) fn new(layer: &'a Layer, feature: &'a Feature) -> (r: MvtFeatureRef<'a>)
        ensures
            r.layer_model() == layer@,
            r.feature_model() == feature@,
    {
        MvtFeatureRef { layer, feature }
    }

    /// The feature id, if it has one.
    #[must_use]
    pub fn id(self) -> (r: Option<u64>)
        ensures
            r == self.feature_model().id,
    {
        self.feature.id
    }

    /// The raw tags: key and value indices, in pairs.
    #[must_use]
    pub fn tags(self) -> (r: &'a [u32])
        ensures
            r@ == self.feature_model().tags,
    {
        self.feature.tags.as_slice()
    }

    /// The raw geometry command stream.
    #[must_use]
    pub fn geometry_commands(self) -> (r: &'a [u32])
        ensures
            r@ == self.feature_model().geometry,
    {
        self.feature.geometry.as_slice()
    }

    /// The declared geometry type.
    #[must_use]
    pub fn geom_type(self) -> (r: Option<GeomType>)
        ensures
            r == self.feature_model().geom_type,
    {
        self.feature.geom_type
    }

    /// The enum number of the declared geometry type.
    #[must_use]
    pub fn geom_type_value(self) -> (r: Option<i32>)
        ensures
            match self.feature_model().geom_type {
                Some(t) => r == Some(crate::proto::geom_type_code(t) as i32),
                None => r.is_none(),
            },
    {
        match self.feature.geom_type {
            Some(t) => Some(t.to_i32()),
            None => None,
        }
    }

    /// Whether the feature has any tags.
    #[must_use]
    pub fn has_properties(self) -> (r: bool)
        ensures
            r == (self.feature_model().tags.len() > 0),
    {
        self.feature.tags.len() > 0
    }

    /// Reads the feature's properties pair by pair.
    #[must_use]
    pub fn properties(self) -> (r: MvtPropertyIter<'a>)
        ensures
            r.layer_model().keys == self.layer_model().keys,
            r.layer_model().values == self.layer_model().values,
            r.tags_model() == self.feature_model().tags,
            r.position() == 0,
    {
        MvtPropertyIter::new(
            self.layer.keys.as_slice(),
            self.layer.values.as_slice(),
            self.feature.tags.as_slice(),
        )
    }

    /// All the feature's properties, or the first error in reading them.
    pub fn properties_vec(self) -> (r: MvtResult<Vec<(&'a str, MvtValueRef<'a>)>>)
        ensures
            match properties_from(self.layer_model(), self.feature_model().tags, 0) {
                Ok(ps) => r matches Ok(v) && property_refs_model(v@) == ps,
                Err(e) => r == Err::<Vec<(&'a str, MvtValueRef<'a>)>, MvtError>(e),
            },
    {
        let mut it = self.properties();
        let mut out: Vec<(&'a str, MvtValueRef<'a>)> = Vec::new();
        let ghost l = self.layer_model();
        let ghost tags = self.feature_model().tags;
        assert(property_refs_model(out@) =~= Seq::<(Seq<char>, ValueKind)>::empty());
        proof {
            match properties_from(l, tags, 0) {
                Ok(r) => { assert(Seq::<(Seq<char>, ValueKind)>::empty() + r =~= r); },
                Err(_) => {},
            }
        }
        loop
            invariant
                it.layer_model().keys == l.keys,
                it.layer_model().values == l.values,
                it.tags_model() == tags,
                it.position() <= pair_count(tags),
                l == self.layer_model(),
                tags == self.feature_model().tags,
                properties_from(l, tags, 0) == match properties_from(l, tags, it.position()) {
                    Ok(rest) => Ok(property_refs_model(out@) + rest),
                    Err(e) => Err(e),
                },
            ensures
                properties_from(l, tags, 0) == Ok::<Seq<(Seq<char>, ValueKind)>, MvtError>(property_refs_model(out@)),
            decreases pair_count(tags) - it.position(),
        {
            let ghost pos = it.position();
            let ghost done = property_refs_model(out@);
            proof {
                assert(property_at(it.layer_model(), tags, pos) == property_at(l, tags, pos));
            }
            match it.next() {
                None => {
                    assert(properties_from(l, tags, pos) == Ok::<Seq<(Seq<char>, ValueKind)>, MvtError>(Seq::empty()));
                    assert(property_refs_model(out@) + Seq::<(Seq<char>, ValueKind)>::empty() =~= property_refs_model(out@));
                    break;
                },
                Some(Ok(p)) => {
                    out.push(p);
                    proof {
                        assert(property_refs_model(out@) =~= done.push((p.0@, p.1@)));
                        if let Ok(rest) = properties_from(l, tags, pos + 1) {
                            assert(done + (seq![(p.0@, p.1@)] + rest) =~= done.push((p.0@, p.1@)) + rest);
                        }
                    }
                },
                Some(Err(e)) => {
                    return Err(e);
                },
            }
        }
        Ok(out)
    }

    /// Decodes the feature's geometry.
    pub fn geometry(self) -> (r: MvtResult<crate::geometry::MvtGeometry>)
        ensures
            match decode_geometry_spec(self.feature_model().geom_type, self.feature_model().geometry) {
                Some(g) => r matches Ok(x) && x@ == g,
                None => r matches Err(MvtError::InvalidGeometry),
            },
    {
        decode_geometry(self.feature.geom_type, self.feature.geometry.as_slice())
    }
}


/// The owned feature that a feature of a layer reads as: its properties
/// (the first error among them, if any) and then its geometry.
pub open spec fn feature_data_of(l: LayerModel, f: FeatureModel) -> Result<FeatureData, MvtError> {
    match properties_from(l, f.tags, 0) {
        Err(e) => Err(e),
        Ok(ps) => match decode_geometry_spec(f.geom_type, f.geometry) {
            None => Err(MvtError::InvalidGeometry),
            Some(g) => Ok(FeatureData { id: f.id, geometry: g, properties: ps }),
        },
    }
}

/// The owned features that features of a layer read as, or the first error.
pub open spec fn features_data_of(l: LayerModel, fs: Seq<FeatureModel>) -> Result<Seq<FeatureData>, MvtError>
    decreases fs.len(),
{
    if fs.len() == 0 {
        Ok(seq![])
    } else {
        match feature_data_of(l, fs[0]) {
            Err(e) => Err(e),
            Ok(d) => match features_data_of(l, fs.drop_first()) {
                Ok(r) => Ok(seq![d] + r),
                Err(e) => Err(e),
            },
        }
    }
}

/// The extent a layer declares, or the default one.
pub open spec fn layer_extent(l: LayerModel) -> u32 {
    match l.extent {
        Some(e) => e,
        None => DEFAULT_EXTENT_VALUE,
    }
}

/// The owned layer that a layer reads as: a declared extent of zero is an
/// error, then the features are read in order.
pub open spec fn layer_data_of(l: LayerModel) -> Result<LayerData, MvtError> {
    if l.extent == Some(0u32) {
        Err(MvtError::InvalidExtent)
    } else {
        match features_data_of(l, l.features) {
            Err(e) => Err(e),
            Ok(fs) => Ok(LayerData { name: l.name, extent: layer_extent(l), features: fs }),
        }
    }
}

/// The owned layers that layers read as, or the first error.
pub open spec fn layers_data_of(ls: Seq<LayerModel>) -> Result<Seq<LayerData>, MvtError>
    decreases ls.len(),
{
    if ls.len() == 0 {
        Ok(seq![])
    } else {
        match layer_data_of(ls[0]) {
            Err(e) => Err(e),
            Ok(d) => match layers_data_of(ls.drop_first()) {
                Ok(r) => Ok(seq![d] + r),
                Err(e) => Err(e),
            },
        }
    }
}

impl<'a> MvtFeatureRef<'a> {
    /// The owned feature: its properties, then its geometry.
    pub fn to_feature(self) -> (r: MvtResult<MvtFeature>)
        ensures
            match feature_data_of(self.layer_model(), self.feature_model()) {
                Ok(d) => r matches Ok(f) && f@ == d,
                Err(e) => r == Err::<MvtFeature, MvtError>(e),
            },
    {
        let props = self.properties_vec()?;
        let mut owned: Vec<(String, MvtValue)> = Vec::new();
        let mut i: usize = 0;
        while i < props.len()
            invariant
                i <= props@.len(),
                owned@.len() == i,
                forall|j: int| 0 <= j < i ==> (#[trigger] owned@[j]).0@ == props@[j].0@ && owned@[j].1@ == props@[j].1@,
            decreases props@.len() - i,
        {
            let (k, v) = props[i];
            owned.push((k.to_owned(), v.into_owned()));
            i = i + 1;
        }
        assert(properties_model(owned@) =~= property_refs_model(props@));
        let geometry = self.geometry()?;
        Ok(MvtFeature { id: self.id(), geometry, properties: owned })
    }
}

impl<'a> MvtLayerRef<'a> {
    /// The layer.
    pub closed spec fn layer_model(&self) -> LayerModel {
        self.layer@
    }

    pub(crate) fn new(layer: &'a Layer) -> (r: MvtLayerRef<'a>)
        ensures
            r.layer_model() == layer@,
    {
        MvtLayerRef { layer }
    }

    /// The layer's name.
    #[must_use]
    pub fn name(self) -> (r: &'a str)
        ensures
            r@ == self.layer_model().name,
    {
        self.layer.name.as_str()
    }

    /// The layer's declared version.
    #[must_use]
    pub fn version(self) -> (r: u32)
        ensures
            r == self.layer_model().version,
    {
        self.layer.version
    }

    /// The layer's extent: the declared one, or 4096.
    #[must_use]
    pub fn extent(self) -> (r: u32)
        ensures
            r == layer_extent(self.layer_model()),
    {
        match self.layer.extent {
            Some(e) => e,
            None => DEFAULT_EXTENT_VALUE,
        }
    }

    /// The number of features.
    #[must_use]
    pub fn feature_count(self) -> (r: usize)
        ensures
            r == self.layer_model().features.len(),
    {
        self.layer.features.len()
    }

    /// Whether the layer has no features.
    #[must_use]
    pub fn is_empty(self) -> (r: bool)
        ensures
            r == (self.layer_model().features.len() == 0),
    {
        self.layer.features.len() == 0
    }

    /// The layer's keys.
    #[must_use]
    pub fn keys(self) -> (r: &'a [String])
        ensures
            strings_model(r@) == self.layer_model().keys,
    {
        self.layer.keys.as_slice()
    }

    /// The layer's values, borrowed.
    #[must_use]
    pub fn values(self) -> (r: Vec<MvtValueRef<'a>>)
        ensures
            r@.len() == self.layer_model().values.len(),
            forall|i: int| 0 <= i < r@.len() ==> (#[trigger] r@[i])@ == value_kind(self.layer_model().values[i]),
    {
        let mut out: Vec<MvtValueRef<'a>> = Vec::new();
        let mut i: usize = 0;
        while i < self.layer.values.len()
            invariant
                i <= self.layer.values@.len(),
                out@.len() == i,
                forall|j: int| 0 <= j < i ==> (#[trigger] out@[j])@ == value_kind(self.layer.values@[j]@),
            decreases self.layer.values@.len() - i,
        {
            out.push(value_ref(&self.layer.values[i]));
            i = i + 1;
        }
        out
    }

    /// The layer's features, borrowed.
    #[must_use]
    pub fn features(self) -> (r: Vec<MvtFeatureRef<'a>>)
        ensures
            r@.len() == self.layer_model().features.len(),
            forall|i: int| 0 <= i < r@.len() ==> (#[trigger] r@[i]).layer_model() == self.layer_model()
                && r@[i].feature_model() == self.layer_model().features[i],
    {
        let mut out: Vec<MvtFeatureRef<'a>> = Vec::new();
        let mut i: usize = 0;
        while i < self.layer.features.len()
            invariant
                i <= self.layer.features@.len(),
                out@.len() == i,
                forall|j: int| 0 <= j < i ==> (#[trigger] out@[j]).layer_model() == self.layer@
                    && out@[j].feature_model() == self.layer.features@[j]@,
            decreases self.layer.features@.len() - i,
        {
            out.push(MvtFeatureRef::new(self.layer, &self.layer.features[i]));
            i = i + 1;
        }
        out
    }

    /// The owned layer: a declared extent of zero is an error, then the
    /// features are read in order.
    pub fn to_layer(self) -> (r: MvtResult<MvtLayer>)
        ensures
            match layer_data_of(self.layer_model()) {
                Ok(d) => r matches Ok(l) && l@ == d,
                Err(e) => r == Err::<MvtLayer, MvtError>(e),
            },
    {
        let extent = match self.layer.extent {
            Some(e) => match MvtExtent::new(e) {
                Some(x) => x,
                None => return Err(MvtError::InvalidExtent),
            },
            None => default_extent(),
        };
        let refs = self.features();
        let ghost l = self.layer_model();
        let mut out: Vec<MvtFeature> = Vec::new();
        let mut i: usize = 0;
        assert(l.features.skip(0) =~= l.features);
        assert(feature_data(out@) =~= Seq::<FeatureData>::empty());
        proof {
            if let Ok(r) = features_data_of(l, l.features) {
                assert(Seq::<FeatureData>::empty() + r =~= r);
            }
        }
        while i < refs.len()
            invariant
                i <= refs@.len(),
                refs@.len() == l.features.len(),
                l == self.layer_model(),
                l.extent != Some(0u32),
                forall|j: int| 0 <= j < refs@.len() ==> (#[trigger] refs@[j]).layer_model() == l
                    && refs@[j].feature_model() == l.features[j],
                features_data_of(l, l.features) == match features_data_of(l, l.features.skip(i as int)) {
                    Ok(rest) => Ok(feature_data(out@) + rest),
                    Err(e) => Err(e),
                },
            decreases refs@.len() - i,
        {
            let ghost t = l.features.skip(i as int);
            assert(t[0] == l.features[i as int]);
            assert(t.drop_first() =~= l.features.skip(i + 1));
            let f = match refs[i].to_feature() {
                Ok(f) => f,
                Err(e) => {
                    assert(refs@[i as int].feature_model() == t[0]);
                    assert(feature_data_of(l, t[0]) == Err::<FeatureData, MvtError>(e));
                    assert(t.len() > 0);
                    assert(features_data_of(l, t) == Err::<Seq<FeatureData>, MvtError>(e));
                    assert(features_data_of(l, l.features) == Err::<Seq<FeatureData>, MvtError>(e));
                    assert(l.extent != Some(0u32));
                    return Err(e);
                },
            };
            let ghost before = feature_data(out@);
            out.push(f);
            proof {
                assert(feature_data(out@) =~= before.push(f@));
                if let Ok(rest) = features_data_of(l, l.features.skip(i + 1)) {
                    assert(before + (seq![f@] + rest) =~= before.push(f@) + rest);
                }
            }
            i = i + 1;
        }
        assert(l.features.skip(i as int) =~= Seq::<FeatureModel>::empty());
        assert(feature_data(out@) + Seq::<FeatureData>::empty() =~= feature_data(out@));
        Ok(MvtLayer { name: self.layer.name.clone(), extent, features: out })
    }
}

/// A decoded tile whose layers all have a name and a supported version.
#[derive(Clone, Debug)]
pub struct MvtReaderRef {
    tile: Tile,
}

impl View for MvtReaderRef {
    type V = TileModel;

    closed spec fn view(&self) -> TileModel {
        self.tile@
    }
}

impl MvtReaderRef {
    /// Decodes a tile and checks that each layer has a name and a version
    /// from 1 to 3; the first layer that does not is reported.
    pub fn new(data: &[u8]) -> (r: MvtResult<MvtReaderRef>)
        ensures
            match decode_tile(data@) {
                None => r matches Err(MvtError::Decode),
                Some(t) => if forall|i: int| 0 <= i < t.layers.len() ==> layer_acceptable(#[trigger] t.layers[i]) {
                    r matches Ok(rd) && rd@ == t
                } else {
                    r matches Err(e) && exists|i: int| 0 <= i < t.layers.len() && !layer_acceptable(t.layers[i]) && (forall|j: int| 0 <= j < i ==> layer_acceptable(#[trigger] t.layers[j])) && layer_error_matches(e, #[trigger] t.layers[i])
                },
            },
    {
        let tile = match decode_tile_bytes(data) {
            Some(t) => t,
            None => return Err(MvtError::Decode),
        };
        let ghost t = tile@;
        let mut i: usize = 0;
        while i < tile.layers.len()
            invariant
                i <= tile.layers@.len(),
                t == tile@,
                decode_tile(data@) == Some(t),
                forall|j: int| 0 <= j < i ==> layer_acceptable(#[trigger] t.layers[j]),
            decreases tile.layers@.len() - i,
        {
            let layer = &tile.layers[i];
            assert(t.layers[i as int] == layer@);
            if layer.name.as_str().is_empty() {
                let e = MvtError::MissingLayerName;
                assert(!layer_acceptable(t.layers[i as int]) && layer_error_matches(e, t.layers[i as int]));
                assert(!(forall|k: int| 0 <= k < t.layers.len() ==> layer_acceptable(#[trigger] t.layers[k])));
                return Err(e);
            }
            if layer.version < 1 || layer.version > 3 {
                let e = MvtError::UnsupportedVersion { layer: layer.name.clone(), version: layer.version };
                assert(!layer_acceptable(t.layers[i as int]) && layer_error_matches(e, t.layers[i as int]));
                assert(!(forall|k: int| 0 <= k < t.layers.len() ==> layer_acceptable(#[trigger] t.layers[k])));
                return Err(e);
            }
            i = i + 1;
        }
        Ok(MvtReaderRef { tile })
    }

    /// The tile's layers, borrowed.
    #[must_use]
    pub fn layers(&self) -> (r: Vec<MvtLayerRef<'_>>)
        ensures
            r@.len() == self@.layers.len(),
            forall|i: int| 0 <= i < r@.len() ==> (#[trigger] r@[i]).layer_model() == self@.layers[i],
    {
        let mut out: Vec<MvtLayerRef<'_>> = Vec::new();
        let mut i: usize = 0;
        while i < self.tile.layers.len()
            invariant
                i <= self.tile.layers@.len(),
                out@.len() == i,
                forall|j: int| 0 <= j < i ==> (#[trigger] out@[j]).layer_model() == self.tile.layers@[j]@,
            decreases self.tile.layers@.len() - i,
        {
            out.push(MvtLayerRef::new(&self.tile.layers[i]));
            i = i + 1;
        }
        out
    }

    /// The number of layers.
    #[must_use]
    pub fn layer_count(&self) -> (r: usize)
        ensures
            r == self@.layers.len(),
    {
        self.tile.layers.len()
    }

    /// The owned tile: each layer read in order.
    pub fn to_tile(&self) -> (r: MvtResult<MvtTile>)
        ensures
            match layers_data_of(self@.layers) {
                Ok(ls) => r matches Ok(t) && t@.layers == ls,
                Err(e) => r == Err::<MvtTile, MvtError>(e),
            },
    {
        let refs = self.layers();
        let ghost ls = self@.layers;
        let mut out: Vec<MvtLayer> = Vec::new();
        let mut i: usize = 0;
        assert(ls.skip(0) =~= ls);
        assert(layer_data(out@) =~= Seq::<LayerData>::empty());
        proof {
            if let Ok(r) = layers_data_of(ls) {
                assert(Seq::<LayerData>::empty() + r =~= r);
            }
        }
        while i < refs.len()
            invariant
                i <= refs@.len(),
                refs@.len() == ls.len(),
                ls == self@.layers,
                forall|j: int| 0 <= j < refs@.len() ==> (#[trigger] refs@[j]).layer_model() == ls[j],
                layers_data_of(ls) == match layers_data_of(ls.skip(i as int)) {
                    Ok(rest) => Ok(layer_data(out@) + rest),
                    Err(e) => Err(e),
                },
            decreases refs@.len() - i,
        {
            let ghost t = ls.skip(i as int);
            assert(t[0] == ls[i as int]);
            assert(t.drop_first() =~= ls.skip(i + 1));
            let l = match refs[i].to_layer() {
                Ok(l) => l,
                Err(e) => {
                    assert(layer_data_of(t[0]) == Err::<LayerData, MvtError>(e));
                    assert(layers_data_of(t) == Err::<Seq<LayerData>, MvtError>(e));
                    return Err(e);
                },
            };
            let ghost before = layer_data(out@);
            out.push(l);
            proof {
                assert(layer_data(out@) =~= before.push(l@));
                if let Ok(rest) = layers_data_of(ls.skip(i + 1)) {
                    assert(before + (seq![l@] + rest) =~= before.push(l@) + rest);
                }
            }
            i = i + 1;
        }
        assert(ls.skip(i as int) =~= Seq::<LayerModel>::empty());
        assert(layer_data(out@) + Seq::<LayerData>::empty() =~= layer_data(out@));
        Ok(MvtTile { layers: out })
    }

    /// The decoded tile message, owned.
    #[must_use]
    pub fn to_proto(&self) -> (r: Tile)
        ensures
            r@ == self@,
    {
        crate::codec::clone_tile(&self.tile)
    }
}

impl Tile {
    /// The tile message that a reader holds, with the default extent written
    /// out for each layer that does not declare one.
    #[must_use]
    pub fn from_reader(reader: &MvtReaderRef) -> (r: Tile)
        ensures
            r@.layers.len() == reader@.layers.len(),
            forall|i: int| 0 <= i < r@.layers.len() ==> #[trigger] r@.layers[i] == (LayerModel {
                extent: Some(layer_extent(reader@.layers[i])),
                ..reader@.layers[i]
            }),
    {
        let src = reader.to_proto();
        let mut layers: Vec<Layer> = Vec::new();
        let mut i: usize = 0;
        while i < src.layers.len()
            invariant
                i <= src.layers@.len(),
                src@ == reader@,
                layers@.len() == i,
                forall|j: int| 0 <= j < i ==> (#[trigger] layers@[j])@ == (LayerModel {
                    extent: Some(layer_extent(reader@.layers[j])),
                    ..reader@.layers[j]
                }),
            decreases src.layers@.len() - i,
        {
            let mut layer = crate::codec::clone_layer(&src.layers[i]);
            assert(layer@ == reader@.layers[i as int]);
            if layer.extent.is_none() {
                layer.extent = Some(DEFAULT_EXTENT_VALUE);
            }
            layers.push(layer);
            i = i + 1;
        }
        Tile { layers }
    }
}

} // verus!
