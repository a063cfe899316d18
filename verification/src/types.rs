//! The owned tile model: tiles, layers, features and property values.
use vstd::prelude::*;
use vstd::std_specs::cmp::PartialEqSpecImpl;

use crate::geometry::{GeometryModel, MvtGeometry};

verus! {

/// The extent of the layers that do not declare one.
pub const DEFAULT_EXTENT_VALUE: u32 = 4096;

/// A layer extent: the width and height of the tile in tile coordinates,
/// never zero.
#[derive(Clone, Copy, Debug, PartialEq, Eq)]
pub struct MvtExtent {
    value: u32,
}

impl MvtExtent {
    #[verifier::type_invariant]
    spec fn nonzero(self) -> bool {
        self.value > 0
    }

    /// The extent's value.
    pub closed spec fn spec_get(self) -> u32 {
        self.value
    }

    /// An extent of `value`, or `None` for zero.
    pub fn new(value: u32) -> (r: Option<MvtExtent>)
        ensures
            value == 0 ==> r.is_none(),
            value > 0 ==> (r matches Some(e) && e.spec_get() == value),
    {
        if value == 0 {
            None
        } else {
            Some(MvtExtent { value })
        }
    }

    /// The extent's value.
    pub fn get(self) -> (r: u32)
        ensures
            r == self.spec_get(),
            r > 0,
    {
        proof {
            use_type_invariant(&self);
        }
        self.value
    }
}

/// The default extent, 4096.
pub fn default_extent() -> (e: MvtExtent)
    ensures
        e.spec_get() == DEFAULT_EXTENT_VALUE,
{
    MvtExtent { value: DEFAULT_EXTENT_VALUE }
}

/// A property value. Floating-point values are held as their IEEE-754 bit
/// patterns, so two values are the same when their bits are.
#[derive(Debug, Clone, Eq, Hash)]
pub enum MvtValue {
    String(String),
    Float(u32),
    Double(u64),
    Int(i64),
    UInt(u64),
    SInt(i64),
    Bool(bool),
    Null,
}

impl PartialEq for MvtValue {
    /// Two values are equal when they have the same kind and the same
    /// payload: strings by their text, floats and doubles by their bits (so a
    /// not-a-number equals itself), and an `int` never equals a `sint`.
    fn eq(&self, other: &Self) -> (r: bool) {
        match (self, other) {
            (MvtValue::String(a), MvtValue::String(b)) => a.eq(b),
            (MvtValue::Float(a), MvtValue::Float(b)) => a == b,
            (MvtValue::Double(a), MvtValue::Double(b)) => a == b,
            (MvtValue::Int(a), MvtValue::Int(b)) => a == b,
            (MvtValue::UInt(a), MvtValue::UInt(b)) => a == b,
            (MvtValue::SInt(a), MvtValue::SInt(b)) => a == b,
            (MvtValue::Bool(a), MvtValue::Bool(b)) => a == b,
            (MvtValue::Null, MvtValue::Null) => true,
            _ => false,
        }
    }
}

impl PartialEqSpecImpl for MvtValue {
    open spec fn obeys_eq_spec() -> bool {
        true
    }

    open spec fn eq_spec(&self, other: &Self) -> bool {
        match (self, other) {
            (MvtValue::String(a), MvtValue::String(b)) => a@ == b@,
            (MvtValue::Float(a), MvtValue::Float(b)) => a == b,
            (MvtValue::Double(a), MvtValue::Double(b)) => a == b,
            (MvtValue::Int(a), MvtValue::Int(b)) => a == b,
            (MvtValue::UInt(a), MvtValue::UInt(b)) => a == b,
            (MvtValue::SInt(a), MvtValue::SInt(b)) => a == b,
            (MvtValue::Bool(a), MvtValue::Bool(b)) => a == b,
            (MvtValue::Null, MvtValue::Null) => true,
            _ => false,
        }
    }
}

/// Whether the `f32` with these bits is finite: its exponent bits are not all
/// ones.
pub open spec fn f32_bits_finite(bits: u32) -> bool {
    (bits / 0x80_0000) % 0x100 != 0xff
}

/// Whether the `f64` with these bits is finite: its exponent bits are not all
/// ones.
pub open spec fn f64_bits_finite(bits: u64) -> bool {
    (bits / 0x10_0000_0000_0000) % 0x800 != 0x7ff
}

/// Whether the `f32` with these bits is not a number: its exponent bits are
/// all ones and its fraction is not zero.
pub open spec fn f32_bits_nan(bits: u32) -> bool {
    !f32_bits_finite(bits) && bits % 0x80_0000 != 0
}

/// Whether the `f64` with these bits is not a number: its exponent bits are
/// all ones and its fraction is not zero.
pub open spec fn f64_bits_nan(bits: u64) -> bool {
    !f64_bits_finite(bits) && bits % 0x10_0000_0000_0000 != 0
}

/// Whether two `f32`s, given by their bits, are equal as IEEE-754 numbers:
/// neither is a number that is not one, and they have the same bits or are
/// both zero, whatever their signs.
pub open spec fn f32_bits_ieee_eq(a: u32, b: u32) -> bool {
    &&& !f32_bits_nan(a)
    &&& !f32_bits_nan(b)
    &&& (a == b || (a % 0x8000_0000 == 0 && b % 0x8000_0000 == 0))
}

/// Whether two `f64`s, given by their bits, are equal as IEEE-754 numbers:
/// neither is a number that is not one, and they have the same bits or are
/// both zero, whatever their signs.
pub open spec fn f64_bits_ieee_eq(a: u64, b: u64) -> bool {
    &&& !f64_bits_nan(a)
    &&& !f64_bits_nan(b)
    &&& (a == b || (a % 0x8000_0000_0000_0000 == 0 && b % 0x8000_0000_0000_0000 == 0))
}

/// Compares two `f32`s, given by their bits, as IEEE-754 numbers.
pub fn f32_bits_eq(a: u32, b: u32) -> (r: bool)
    ensures
        r == f32_bits_ieee_eq(a, b),
{
    let a_nan = (a / 0x80_0000) % 0x100 == 0xff && a % 0x80_0000 != 0;
    let b_nan = (b / 0x80_0000) % 0x100 == 0xff && b % 0x80_0000 != 0;
    !a_nan && !b_nan && (a == b || (a % 0x8000_0000 == 0 && b % 0x8000_0000 == 0))
}

/// Compares two `f64`s, given by their bits, as IEEE-754 numbers.
pub fn f64_bits_eq(a: u64, b: u64) -> (r: bool)
    ensures
        r == f64_bits_ieee_eq(a, b),
{
    let a_nan = (a / 0x10_0000_0000_0000) % 0x800 == 0x7ff && a % 0x10_0000_0000_0000 != 0;
    let b_nan = (b / 0x10_0000_0000_0000) % 0x800 == 0x7ff && b % 0x10_0000_0000_0000 != 0;
    !a_nan && !b_nan && (a == b || (a % 0x8000_0000_0000_0000 == 0 && b % 0x8000_0000_0000_0000
        == 0))
}

/// The model of a property value.
pub enum ValueKind {
    String(Seq<char>),
    Float(u32),
    Double(u64),
    Int(i64),
    UInt(u64),
    SInt(i64),
    Bool(bool),
    Null,
}

impl View for MvtValue {
    type V = ValueKind;

    open spec fn view(&self) -> ValueKind {
        match self {
            MvtValue::String(s) => ValueKind::String(s@),
            MvtValue::Float(b) => ValueKind::Float(*b),
            MvtValue::Double(b) => ValueKind::Double(*b),
            MvtValue::Int(v) => ValueKind::Int(*v),
            MvtValue::UInt(v) => ValueKind::UInt(*v),
            MvtValue::SInt(v) => ValueKind::SInt(*v),
            MvtValue::Bool(v) => ValueKind::Bool(*v),
            MvtValue::Null => ValueKind::Null,
        }
    }
}

/// The integer value that takes the fewest bytes: non-negative values as
/// `uint`, negative values as `sint`.
pub open spec fn auto_int_kind(v: i64) -> ValueKind {
    if v >= 0 { ValueKind::UInt(v as u64) } else { ValueKind::SInt(v) }
}

impl MvtValue {
    /// The integer value that takes the fewest bytes on the wire: a
    /// non-negative value as `uint`, a negative one as `sint`.
    pub fn auto_int(v: i64) -> (r: MvtValue)
        ensures
            r@ == auto_int_kind(v),
    {
        if v >= 0 {
            MvtValue::UInt(v as u64)
        } else {
            MvtValue::SInt(v)
        }
    }

    /// Whether this is the null value.
    pub fn is_null(&self) -> (r: bool)
        ensures
            r == (self@ is Null),
    {
        match self {
            MvtValue::Null => true,
            _ => false,
        }
    }
}

impl From<String> for MvtValue {
    fn from(value: String) -> (r: MvtValue) {
        MvtValue::String(value)
    }
}

impl vstd::std_specs::convert::FromSpecImpl<String> for MvtValue {
    open spec fn obeys_from_spec() -> bool {
        true
    }

    open spec fn from_spec(value: String) -> MvtValue {
        MvtValue::String(value)
    }
}

impl From<i64> for MvtValue {
    fn from(value: i64) -> (r: MvtValue) {
        MvtValue::Int(value)
    }
}

impl vstd::std_specs::convert::FromSpecImpl<i64> for MvtValue {
    open spec fn obeys_from_spec() -> bool {
        true
    }

    open spec fn from_spec(value: i64) -> MvtValue {
        MvtValue::Int(value)
    }
}

impl From<i32> for MvtValue {
    fn from(value: i32) -> (r: MvtValue) {
        MvtValue::Int(value as i64)
    }
}

impl vstd::std_specs::convert::FromSpecImpl<i32> for MvtValue {
    open spec fn obeys_from_spec() -> bool {
        true
    }

    open spec fn from_spec(value: i32) -> MvtValue {
        MvtValue::Int(value as i64)
    }
}

impl From<i16> for MvtValue {
    fn from(value: i16) -> (r: MvtValue) {
        MvtValue::Int(value as i64)
    }
}

impl vstd::std_specs::convert::FromSpecImpl<i16> for MvtValue {
    open spec fn obeys_from_spec() -> bool {
        true
    }

    open spec fn from_spec(value: i16) -> MvtValue {
        MvtValue::Int(value as i64)
    }
}

impl From<i8> for MvtValue {
    fn from(value: i8) -> (r: MvtValue) {
        MvtValue::Int(value as i64)
    }
}

impl vstd::std_specs::convert::FromSpecImpl<i8> for MvtValue {
    open spec fn obeys_from_spec() -> bool {
        true
    }

    open spec fn from_spec(value: i8) -> MvtValue {
        MvtValue::Int(value as i64)
    }
}

impl From<u64> for MvtValue {
    fn from(value: u64) -> (r: MvtValue) {
        MvtValue::UInt(value)
    }
}

impl vstd::std_specs::convert::FromSpecImpl<u64> for MvtValue {
    open spec fn obeys_from_spec() -> bool {
        true
    }

    open spec fn from_spec(value: u64) -> MvtValue {
        MvtValue::UInt(value)
    }
}

impl From<u32> for MvtValue {
    fn from(value: u32) -> (r: MvtValue) {
        MvtValue::UInt(value as u64)
    }
}

impl vstd::std_specs::convert::FromSpecImpl<u32> for MvtValue {
    open spec fn obeys_from_spec() -> bool {
        true
    }

    open spec fn from_spec(value: u32) -> MvtValue {
        MvtValue::UInt(value as u64)
    }
}

impl From<u16> for MvtValue {
    fn from(value: u16) -> (r: MvtValue) {
        MvtValue::UInt(value as u64)
    }
}

impl vstd::std_specs::convert::FromSpecImpl<u16> for MvtValue {
    open spec fn obeys_from_spec() -> bool {
        true
    }

    open spec fn from_spec(value: u16) -> MvtValue {
        MvtValue::UInt(value as u64)
    }
}

impl From<u8> for MvtValue {
    fn from(value: u8) -> (r: MvtValue) {
        MvtValue::UInt(value as u64)
    }
}

impl vstd::std_specs::convert::FromSpecImpl<u8> for MvtValue {
    open spec fn obeys_from_spec() -> bool {
        true
    }

    open spec fn from_spec(value: u8) -> MvtValue {
        MvtValue::UInt(value as u64)
    }
}

impl From<bool> for MvtValue {
    fn from(value: bool) -> (r: MvtValue) {
        MvtValue::Bool(value)
    }
}

impl vstd::std_specs::convert::FromSpecImpl<bool> for MvtValue {
    open spec fn obeys_from_spec() -> bool {
        true
    }

    open spec fn from_spec(value: bool) -> MvtValue {
        MvtValue::Bool(value)
    }
}

/// A feature: an optional id, a geometry, and its properties in order.
#[derive(Debug, Clone, PartialEq)]
pub struct MvtFeature {
    pub id: Option<u64>,
    pub geometry: MvtGeometry,
    pub properties: Vec<(String, MvtValue)>,
}

/// A layer: a name, an extent and its features.
#[derive(Debug, Clone, PartialEq)]
pub struct MvtLayer {
    pub name: String,
    pub extent: MvtExtent,
    pub features: Vec<MvtFeature>,
}

/// A tile: its layers in order.
#[derive(Debug, Clone, PartialEq)]
pub struct MvtTile {
    pub layers: Vec<MvtLayer>,
}

/// The model of a feature.
pub struct FeatureData {
    pub id: Option<u64>,
    pub geometry: GeometryModel,
    pub properties: Seq<(Seq<char>, ValueKind)>,
}

/// The model of a layer.
pub struct LayerData {
    pub name: Seq<char>,
    pub extent: u32,
    pub features: Seq<FeatureData>,
}

/// The model of a tile.
pub struct TileData {
    pub layers: Seq<LayerData>,
}

/// The model of a list of properties.
pub open spec fn properties_model(ps: Seq<(String, MvtValue)>) -> Seq<(Seq<char>, ValueKind)> {
    Seq::new(ps.len(), |i: int| (ps[i].0@, ps[i].1@))
}

impl View for MvtFeature {
    type V = FeatureData;

    open spec fn view(&self) -> FeatureData {
        FeatureData {
            id: self.id,
            geometry: self.geometry@,
            properties: properties_model(self.properties@),
        }
    }
}

/// The models of a list of features.
pub open spec fn feature_data(fs: Seq<MvtFeature>) -> Seq<FeatureData> {
    Seq::new(fs.len(), |i: int| fs[i]@)
}

impl View for MvtLayer {
    type V = LayerData;

    open spec fn view(&self) -> LayerData {
        LayerData {
            name: self.name@,
            extent: self.extent.spec_get(),
            features: feature_data(self.features@),
        }
    }
}

/// The models of a list of layers.
pub open spec fn layer_data(ls: Seq<MvtLayer>) -> Seq<LayerData> {
    Seq::new(ls.len(), |i: int| ls[i]@)
}

impl View for MvtTile {
    type V = TileData;

    open spec fn view(&self) -> TileData {
        TileData { layers: layer_data(self.layers@) }
    }
}

impl MvtTile {
    /// A tile with no layers.
    #[must_use]
    pub fn new() -> (t: MvtTile)
        ensures
            t@.layers == Seq::<LayerData>::empty(),
    {
        let t = MvtTile { layers: Vec::new() };
        assert(t@.layers =~= Seq::<LayerData>::empty());
        t
    }

    /// Adds a layer after the others.
    pub fn add_layer(&mut self, layer: MvtLayer)
        ensures
            final(self)@.layers == old(self)@.layers.push(layer@),
    {
        self.layers.push(layer);
        assert(final(self)@.layers =~= old(self)@.layers.push(layer@));
    }
}

impl Default for MvtTile {
    fn default() -> (t: MvtTile)
        ensures
            t@.layers == Seq::<LayerData>::empty(),
    {
        MvtTile::new()
    }
}

impl MvtLayer {
    /// A layer with no features.
    #[must_use]
    pub fn new(name: String, extent: MvtExtent) -> (l: MvtLayer)
        ensures
            l@.name == name@,
            l@.extent == extent.spec_get(),
            l@.features == Seq::<FeatureData>::empty(),
    {
        let l = MvtLayer { name, extent, features: Vec::new() };
        assert(l@.features =~= Seq::<FeatureData>::empty());
        l
    }

    /// The layer's name.
    #[must_use]
    pub fn name(&self) -> (r: &str)
        ensures
            r@ == self@.name,
    {
        self.name.as_str()
    }

    /// The number of features.
    #[must_use]
    pub fn num_features(&self) -> (r: usize)
        ensures
            r == self@.features.len(),
    {
        self.features.len()
    }

    /// Adds a feature after the others.
    pub fn add_feature(&mut self, feature: MvtFeature)
        ensures
            final(self)@.name == old(self)@.name,
            final(self)@.extent == old(self)@.extent,
            final(self)@.features == old(self)@.features.push(feature@),
    {
        self.features.push(feature);
        assert(final(self)@.features =~= old(self)@.features.push(feature@));
    }
}

impl MvtFeature {
    /// A feature with a geometry, no id and no properties.
    #[must_use]
    pub fn new(geometry: MvtGeometry) -> (f: MvtFeature)
        ensures
            f@.id.is_none(),
            f@.geometry == geometry@,
            f@.properties == Seq::<(Seq<char>, ValueKind)>::empty(),
    {
        let f = MvtFeature { id: None, geometry, properties: Vec::new() };
        assert(f@.properties =~= Seq::<(Seq<char>, ValueKind)>::empty());
        f
    }

    /// Sets the id.
    pub fn set_id(&mut self, id: u64)
        ensures
            final(self)@.id == Some(id),
            final(self)@.geometry == old(self)@.geometry,
            final(self)@.properties == old(self)@.properties,
    {
        self.id = Some(id);
    }

    /// The number of properties.
    #[must_use]
    pub fn num_tags(&self) -> (r: usize)
        ensures
            r == self@.properties.len(),
    {
        self.properties.len()
    }

    /// Adds a property after the others.
    pub fn add_tag(&mut self, key: String, value: MvtValue)
        ensures
            final(self)@.id == old(self)@.id,
            final(self)@.geometry == old(self)@.geometry,
            final(self)@.properties == old(self)@.properties.push((key@, value@)),
    {
        self.properties.push((key, value));
        assert(final(self)@.properties =~= old(self)@.properties.push((key@, value@)));
    }

    /// Adds a string property.
    pub fn add_tag_string(&mut self, key: String, value: String)
        ensures
            final(self)@.id == old(self)@.id,
            final(self)@.geometry == old(self)@.geometry,
            final(self)@.properties == old(self)@.properties.push((key@, ValueKind::String(value@))),
    {
        self.add_tag(key, MvtValue::String(value));
    }

    /// Adds a float property, given by its bits.
    pub fn add_tag_float(&mut self, key: String, bits: u32)
        ensures
            final(self)@.id == old(self)@.id,
            final(self)@.geometry == old(self)@.geometry,
            final(self)@.properties == old(self)@.properties.push((key@, ValueKind::Float(bits))),
    {
        self.add_tag(key, MvtValue::Float(bits));
    }

    /// Adds a double property, given by its bits.
    pub fn add_tag_double(&mut self, key: String, bits: u64)
        ensures
            final(self)@.id == old(self)@.id,
            final(self)@.geometry == old(self)@.geometry,
            final(self)@.properties == old(self)@.properties.push((key@, ValueKind::Double(bits))),
    {
        self.add_tag(key, MvtValue::Double(bits));
    }

    /// Adds an `int` property.
    pub fn add_tag_int(&mut self, key: String, value: i64)
        ensures
            final(self)@.id == old(self)@.id,
            final(self)@.geometry == old(self)@.geometry,
            final(self)@.properties == old(self)@.properties.push((key@, ValueKind::Int(value))),
    {
        self.add_tag(key, MvtValue::Int(value));
    }

    /// Adds a `uint` property.
    pub fn add_tag_uint(&mut self, key: String, value: u64)
        ensures
            final(self)@.id == old(self)@.id,
            final(self)@.geometry == old(self)@.geometry,
            final(self)@.properties == old(self)@.properties.push((key@, ValueKind::UInt(value))),
    {
        self.add_tag(key, MvtValue::UInt(value));
    }

    /// Adds a `sint` property.
    pub fn add_tag_sint(&mut self, key: String, value: i64)
        ensures
            final(self)@.id == old(self)@.id,
            final(self)@.geometry == old(self)@.geometry,
            final(self)@.properties == old(self)@.properties.push((key@, ValueKind::SInt(value))),
    {
        self.add_tag(key, MvtValue::SInt(value));
    }

    /// Adds a boolean property.
    pub fn add_tag_bool(&mut self, key: String, value: bool)
        ensures
            final(self)@.id == old(self)@.id,
            final(self)@.geometry == old(self)@.geometry,
            final(self)@.properties == old(self)@.properties.push((key@, ValueKind::Bool(value))),
    {
        self.add_tag(key, MvtValue::Bool(value));
    }
}

} // verus!
