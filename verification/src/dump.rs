//! The human-readable dump of a tile: for each layer its name, version and
//! extent, and for each feature its id, its geometry line by line, and its
//! properties. The text of each property value is given by the caller, which
//! renders floats and quotes strings.
use vstd::prelude::*;
use vstd::string::StringExecFns;

use crate::error::{decimal, error_message, push_decimal, MvtError};
use crate::geometry::decode_geometry_spec;
use crate::proto::{strings_model, FeatureModel, LayerModel, TileModel};
use crate::reader::{
    layer_extent, pair_count, property_at, value_type_name, MvtFeatureRef, MvtLayerRef,
    MvtReaderRef, MvtValueRef,
};
use crate::text::{geom_type_label, geom_type_label_text, geometry_lines, geometry_text};
use crate::types::ValueKind;

verus! {

/// Lines, each indented under a geometry label and ended by a newline.
pub open spec fn indented_lines(ls: Seq<Seq<char>>) -> Seq<char>
    decreases ls.len(),
{
    if ls.len() == 0 {
        seq![]
    } else {
        indented_lines(ls.drop_last()) + "      "@ + ls.last() + "\n"@
    }
}

/// The dump line of the `i`-th tag pair: the key, the value's type unless
/// it is a string, and the value's text; or the error reading it reports.
pub open spec fn property_line(l: LayerModel, tags: Seq<u32>, texts: Seq<Seq<char>>, i: nat) -> Seq<char> {
    match property_at(l, tags, i) {
        Ok((k, v)) => "      "@ + k + (if v is String {
            Seq::<char>::empty()
        } else {
            " ("@ + value_type_name(v) + ")"@
        }) + " = "@ + texts[i as int] + "\n"@,
        Err(e) => "      <invalid property: "@ + error_message(e) + ">\n"@,
    }
}

/// The dump lines of the first `n` tag pairs.
pub open spec fn property_lines(l: LayerModel, tags: Seq<u32>, texts: Seq<Seq<char>>, n: nat) -> Seq<char>
    decreases n,
{
    if n == 0 {
        seq![]
    } else {
        property_lines(l, tags, texts, (n - 1) as nat) + property_line(l, tags, texts, (n - 1) as nat)
    }
}

/// The dump of a feature of a layer, with `texts[i]` the text of the value
/// of its `i`-th tag pair.
pub open spec fn feature_dump(l: LayerModel, f: FeatureModel, texts: Seq<Seq<char>>) -> Seq<char> {
    "    id: "@ + (match f.id {
        Some(id) => decimal(id as nat),
        None => "(none)"@,
    }) + "\n"@ + (match decode_geometry_spec(f.geom_type, f.geometry) {
        Some(g) => "    geometry: "@ + geom_type_label_text(f.geom_type) + "\n"@ + indented_lines(
            geometry_text(g),
        ),
        None => "    geometry: <invalid geometry: "@ + error_message(MvtError::InvalidGeometry) + ">\n"@,
    }) + "    properties:\n"@ + property_lines(l, f.tags, texts, pair_count(f.tags))
}

/// The dumps of the first `n` features of a layer, each after its index.
pub open spec fn feature_dumps(l: LayerModel, texts: Seq<Seq<Seq<char>>>, n: nat) -> Seq<char>
    decreases n,
{
    if n == 0 {
        seq![]
    } else {
        feature_dumps(l, texts, (n - 1) as nat) + "  feature: "@ + decimal((n - 1) as nat) + "\n"@
            + feature_dump(l, l.features[n - 1], texts[n - 1])
    }
}

/// The dump of a layer, with `texts[j]` the value texts of its `j`-th feature.
pub open spec fn layer_dump(l: LayerModel, texts: Seq<Seq<Seq<char>>>) -> Seq<char> {
    "  name: "@ + l.name + "\n"@ + "  version: "@ + decimal(l.version as nat) + "\n"@
        + "  extent: "@ + decimal(layer_extent(l) as nat) + "\n"@ + feature_dumps(
        l,
        texts,
        l.features.len(),
    )
}

/// The rule between two layers of a dump.
pub open spec fn layer_rule() -> Seq<char> {
    "=============================================================\n"@
}

/// The dumps of the first `n` layers of a tile, each after its index and,
/// but for the first, a rule.
pub open spec fn layer_dumps(t: TileModel, texts: Seq<Seq<Seq<Seq<char>>>>, n: nat) -> Seq<char>
    decreases n,
{
    if n == 0 {
        seq![]
    } else {
        layer_dumps(t, texts, (n - 1) as nat) + (if n > 1 { layer_rule() } else { Seq::<char>::empty() }) + "layer: "@
            + decimal((n - 1) as nat) + "\n"@ + layer_dump(t.layers[n - 1], texts[n - 1])
    }
}

/// The dump of a tile, with `texts[i][j]` the value texts of the `j`-th
/// feature of its `i`-th layer.
pub open spec fn tile_dump(t: TileModel, texts: Seq<Seq<Seq<Seq<char>>>>) -> Seq<char> {
    layer_dumps(t, texts, t.layers.len())
}

/// The value texts of the features of a layer.
pub open spec fn layer_texts_model(v: Seq<Vec<String>>) -> Seq<Seq<Seq<char>>> {
    Seq::new(v.len(), |j: int| strings_model(v[j]@))
}

/// The value texts of the layers of a tile.
pub open spec fn tile_texts_model(v: Seq<Vec<Vec<String>>>) -> Seq<Seq<Seq<Seq<char>>>> {
    Seq::new(v.len(), |i: int| layer_texts_model(v[i]@))
}

/// The decimal text of a signed integer: a minus sign before the digits of a
/// negative one.
pub open spec fn signed_decimal(v: int) -> Seq<char> {
    if v < 0 {
        "-"@ + decimal((-v) as nat)
    } else {
        decimal(v as nat)
    }
}

/// The dump text of a property value whose text needs neither float
/// formatting nor string quoting: integers in decimal, booleans as `true` or
/// `false`, null as `null`; none for strings, floats and doubles, whose text
/// the caller renders.
pub open spec fn plain_value_text(v: ValueKind) -> Option<Seq<char>> {
    match v {
        ValueKind::Int(x) => Some(signed_decimal(x as int)),
        ValueKind::SInt(x) => Some(signed_decimal(x as int)),
        ValueKind::UInt(x) => Some(decimal(x as nat)),
        ValueKind::Bool(b) => Some(if b { "true"@ } else { "false"@ }),
        ValueKind::Null => Some("null"@),
        _ => None,
    }
}

fn push_signed_decimal(out: &mut String, v: i64)
    ensures
        final(out)@ == old(out)@ + signed_decimal(v as int),
{
    if v < 0 {
        out.append("-");
        let m: u64 = (-(v + 1)) as u64 + 1;
        push_decimal(out, m);
    } else {
        push_decimal(out, v as u64);
    }
}

/// The dump text of a property value, as [`plain_value_text`] gives it.
pub fn plain_text(value: MvtValueRef) -> (r: Option<String>)
    ensures
        match plain_value_text(value@) {
            Some(t) => r matches Some(s) && s@ == t,
            None => r is None,
        },
{
    let mut out = String::new();
    match value {
        MvtValueRef::Int(x) => push_signed_decimal(&mut out, x),
        MvtValueRef::SInt(x) => push_signed_decimal(&mut out, x),
        MvtValueRef::UInt(x) => push_decimal(&mut out, x),
        MvtValueRef::Bool(b) => out.append(if b { "true" } else { "false" }),
        MvtValueRef::Null => out.append("null"),
        _ => return None,
    }
    Some(out)
}

fn push_indented_lines(out: &mut String, lines: &Vec<String>)
    ensures
        final(out)@ == old(out)@ + indented_lines(strings_model(lines@)),
{
    let ghost start = out@;
    let mut i: usize = 0;
    assert(strings_model(lines@.take(0)) =~= Seq::<Seq<char>>::empty());
    assert(start + Seq::<char>::empty() =~= start);
    while i < lines.len()
        invariant
            i <= lines@.len(),
            out@ == start + indented_lines(strings_model(lines@.take(i as int))),
        decreases lines@.len() - i,
    {
        let ghost t = strings_model(lines@.take(i + 1));
        assert(t.drop_last() =~= strings_model(lines@.take(i as int)));
        assert(t.last() == lines@[i as int]@);
        out.append("      ");
        out.append(lines[i].as_str());
        out.append("\n");
        assert(out@ =~= start + indented_lines(t));
        i = i + 1;
    }
    assert(lines@.take(i as int) =~= lines@);
}

impl<'a> MvtFeatureRef<'a> {
    /// The dump of the feature: its id, its geometry (its type, then one
    /// line per point, line string or ring), and one line per tag pair, with
    /// `value_texts[i]` the text of the `i`-th pair's value.
    pub fn dump_text(self, value_texts: &Vec<String>) -> (r: String)
        requires
            value_texts@.len() == pair_count(self.feature_model().tags),
        ensures
            r@ == feature_dump(self.layer_model(), self.feature_model(), strings_model(value_texts@)),
    {
        let ghost l = self.layer_model();
        let ghost f = self.feature_model();
        let ghost texts = strings_model(value_texts@);
        let mut out = String::from_str("    id: ");
        match self.id() {
            Some(id) => push_decimal(&mut out, id),
            None => out.append("(none)"),
        }
        out.append("\n");
        let ghost head = out@;
        match self.geometry() {
            Ok(g) => {
                out.append("    geometry: ");
                out.append(geom_type_label(self.geom_type()));
                out.append("\n");
                let lines = geometry_lines(&g);
                push_indented_lines(&mut out, &lines);
            },
            Err(e) => {
                out.append("    geometry: <invalid geometry: ");
                let m = e.message();
                out.append(m.as_str());
                out.append(">\n");
            },
        }
        out.append("    properties:\n");
        let ghost base = out@;
        let mut it = self.properties();
        let n = pair_count_of(self.tags());
        let mut i: usize = 0;
        while i < n
            invariant
                i <= n,
                n == pair_count(f.tags),
                value_texts@.len() == n,
                texts == strings_model(value_texts@),
                it.layer_model().keys == l.keys,
                it.layer_model().values == l.values,
                it.tags_model() == f.tags,
                it.position() == i,
                out@ == base + property_lines(l, f.tags, texts, i as nat),
            decreases n - i,
        {
            assert(property_at(it.layer_model(), f.tags, i as nat) == property_at(l, f.tags, i as nat));
            assert(texts[i as int] == value_texts@[i as int]@);
            let ghost before = out@;
            let ghost line = property_line(l, f.tags, texts, i as nat);
            let p = it.next();
            match p {
                Some(Ok((k, v))) => {
                    assert(property_at(l, f.tags, i as nat) == Ok::<(Seq<char>, ValueKind), MvtError>((k@, v@)));
                    out.append("      ");
                    out.append(k);
                    let ghost kind_text = if v@ is String { Seq::<char>::empty() } else { " ("@ + value_type_name(v@) + ")"@ };
                    let ghost mid = out@;
                    match v.kind_name() {
                        Some(kind) => {
                            out.append(" (");
                            out.append(kind);
                            out.append(")");
                        },
                        None => {},
                    }
                    assert(out@ =~= mid + kind_text);
                    out.append(" = ");
                    out.append(value_texts[i].as_str());
                    out.append("\n");
                    assert(line == "      "@ + k@ + kind_text + " = "@ + texts[i as int] + "\n"@);
                },
                Some(Err(e)) => {
                    assert(property_at(l, f.tags, i as nat) == Err::<(Seq<char>, ValueKind), MvtError>(e));
                    out.append("      <invalid property: ");
                    let m = e.message();
                    out.append(m.as_str());
                    out.append(">\n");
                },
                None => {},
            }
            assert(out@ =~= before + line);
            assert(out@ =~= base + property_lines(l, f.tags, texts, (i + 1) as nat));
            i = i + 1;
        }
        assert(out@ =~= feature_dump(l, f, texts));
        out
    }
}

/// The number of tag pairs, counting a trailing unpaired tag.
fn pair_count_of(tags: &[u32]) -> (r: usize)
    ensures
        r == pair_count(tags@),
{
    tags.len() / 2 + tags.len() % 2
}

impl<'a> MvtLayerRef<'a> {
    /// The dump of the layer: its name, version and extent, then each
    /// feature after its index, with `value_texts[j]` the value texts of the
    /// `j`-th feature.
    pub fn dump_text(self, value_texts: &Vec<Vec<String>>) -> (r: String)
        requires
            value_texts@.len() == self.layer_model().features.len(),
            forall|j: int|
                0 <= j < value_texts@.len() ==> (#[trigger] value_texts@[j])@.len() == pair_count(
                    self.layer_model().features[j].tags,
                ),
        ensures
            r@ == layer_dump(self.layer_model(), layer_texts_model(value_texts@)),
    {
        let ghost l = self.layer_model();
        let ghost texts = layer_texts_model(value_texts@);
        let mut out = String::from_str("  name: ");
        out.append(self.name());
        out.append("\n");
        out.append("  version: ");
        push_decimal(&mut out, self.version() as u64);
        out.append("\n");
        out.append("  extent: ");
        push_decimal(&mut out, self.extent() as u64);
        out.append("\n");
        let ghost base = out@;
        assert(base =~= "  name: "@ + l.name + "\n"@ + "  version: "@ + decimal(l.version as nat) + "\n"@
            + "  extent: "@ + decimal(layer_extent(l) as nat) + "\n"@);
        let features = self.features();
        let mut j: usize = 0;
        while j < features.len()
            invariant
                j <= features@.len(),
                features@.len() == l.features.len(),
                forall|k: int| 0 <= k < features@.len() ==> (#[trigger] features@[k]).layer_model() == l
                    && features@[k].feature_model() == l.features[k],
                value_texts@.len() == l.features.len(),
                forall|k: int|
                    0 <= k < value_texts@.len() ==> (#[trigger] value_texts@[k])@.len() == pair_count(
                        l.features[k].tags,
                    ),
                texts == layer_texts_model(value_texts@),
                out@ == base + feature_dumps(l, texts, j as nat),
            decreases features@.len() - j,
        {
            out.append("  feature: ");
            push_decimal(&mut out, j as u64);
            out.append("\n");
            let d = features[j].dump_text(&value_texts[j]);
            out.append(d.as_str());
            assert(texts[j as int] == strings_model(value_texts@[j as int]@));
            assert(out@ =~= base + feature_dumps(l, texts, (j + 1) as nat));
            j = j + 1;
        }
        out
    }
}

impl MvtReaderRef {
    /// The dump of the tile: each layer after its index, the layers
    /// separated by a rule, with `value_texts[i][j]` the value texts of the
    /// `j`-th feature of the `i`-th layer.
    pub fn dump_text(&self, value_texts: &Vec<Vec<Vec<String>>>) -> (r: String)
        requires
            value_texts@.len() == self@.layers.len(),
            forall|i: int|
                0 <= i < value_texts@.len() ==> (#[trigger] value_texts@[i])@.len()
                    == self@.layers[i].features.len(),
            forall|i: int, j: int|
                0 <= i < value_texts@.len() && 0 <= j < value_texts@[i]@.len() ==> (
                #[trigger] value_texts@[i]@[j])@.len() == pair_count(self@.layers[i].features[j].tags),
        ensures
            r@ == tile_dump(self@, tile_texts_model(value_texts@)),
    {
        let ghost t = self@;
        let ghost texts = tile_texts_model(value_texts@);
        let layers = self.layers();
        let mut out = String::new();
        let mut i: usize = 0;
        assert(out@ =~= layer_dumps(t, texts, 0));
        while i < layers.len()
            invariant
                i <= layers@.len(),
                layers@.len() == t.layers.len(),
                forall|k: int| 0 <= k < layers@.len() ==> (#[trigger] layers@[k]).layer_model() == t.layers[k],
                value_texts@.len() == t.layers.len(),
                forall|k: int|
                    0 <= k < value_texts@.len() ==> (#[trigger] value_texts@[k])@.len()
                        == t.layers[k].features.len(),
                forall|k: int, j: int|
                    0 <= k < value_texts@.len() && 0 <= j < value_texts@[k]@.len() ==> (
                    #[trigger] value_texts@[k]@[j])@.len() == pair_count(t.layers[k].features[j].tags),
                texts == tile_texts_model(value_texts@),
                out@ == layer_dumps(t, texts, i as nat),
            decreases layers@.len() - i,
        {
            let ghost before = out@;
            let ghost rule = if i > 0 { layer_rule() } else { Seq::<char>::empty() };
            if i > 0 {
                out.append("=============================================================\n");
            }
            assert(out@ =~= before + rule);
            out.append("layer: ");
            push_decimal(&mut out, i as u64);
            out.append("\n");
            let ghost head = before + rule + "layer: "@ + decimal(i as nat) + "\n"@;
            assert(out@ =~= head);
            assert forall|j: int| 0 <= j < value_texts@[i as int]@.len() implies (
            #[trigger] value_texts@[i as int]@[j])@.len() == pair_count(
                layers@[i as int].layer_model().features[j].tags,
            ) by {}
            let d = layers[i].dump_text(&value_texts[i]);
            assert(texts[i as int] == layer_texts_model(value_texts@[i as int]@));
            assert(d@ == layer_dump(t.layers[i as int], texts[i as int]));
            out.append(d.as_str());
            let ghost piece = rule + "layer: "@ + decimal(i as nat) + "\n"@ + layer_dump(t.layers[i as int], texts[i as int]);
            assert(out@ =~= before + piece);
            assert(layer_dumps(t, texts, (i + 1) as nat) == layer_dumps(t, texts, i as nat) + rule + "layer: "@
                + decimal(i as nat) + "\n"@ + layer_dump(t.layers[i as int], texts[i as int]));
            assert(layer_dumps(t, texts, (i + 1) as nat) =~= before + piece);
            i = i + 1;
        }
        out
    }
}

} // verus!
