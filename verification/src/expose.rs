use vstd::prelude::*;

use crate::json::JsonValue;
use crate::text::{join_key, joined};

verus! {

/// The kind of a Zigbee2MQTT expose (capability) of a device.
#[derive(Debug, Clone, Copy, PartialEq, Eq, Structural)]
pub enum ExposeType {
    Binary,
    Numeric,
    Enum,
    Text,
    Composite,
    Switch,
    Light,
    Climate,
    Cover,
    Fan,
    Lock,
    Unknown,
}

impl ExposeType {
    /// The generic kinds are the ones whose readings can be monitored.
    pub open spec fn spec_is_generic(self) -> bool {
        self is Binary || self is Numeric || self is Enum || self is Text
    }

    /// Returns true if this expose type is a generic/monitorable type.
    pub fn is_generic(&self) -> (r: bool)
        ensures
            r == self.spec_is_generic(),
    {
        match self {
            ExposeType::Binary | ExposeType::Numeric | ExposeType::Enum | ExposeType::Text => true,
            _ => false,
        }
    }
}

/// A value that is either a boolean or a string: the `value_on` / `value_off`
/// of a binary expose.
#[derive(Debug, PartialEq)]
pub enum BinaryValue {
    Bool(bool),
    String(String),
}

impl Clone for BinaryValue {
    fn clone(&self) -> (r: BinaryValue)
        ensures
            r == *self,
    {
        match self {
            BinaryValue::Bool(b) => BinaryValue::Bool(*b),
            BinaryValue::String(s) => BinaryValue::String(s.clone()),
        }
    }
}

impl BinaryValue {
    /// A boolean matches the same boolean; a string matches a JSON string with the same text.
    pub open spec fn spec_matches(self, value: JsonValue) -> bool {
        match self {
            BinaryValue::Bool(b) => value == JsonValue::Bool(b),
            BinaryValue::String(s) => value matches JsonValue::String(t) && t@ == s@,
        }
    }

    /// Check if this value matches the given JSON value.
    pub fn matches(&self, value: &JsonValue) -> (r: bool)
        ensures
            r == self.spec_matches(*value),
    {
        match (self, value) {
            (BinaryValue::Bool(b), JsonValue::Bool(c)) => *b == *c,
            (BinaryValue::String(s), JsonValue::String(t)) => *s == *t,
            _ => false,
        }
    }
}

/// A capability ("expose") of a device as Zigbee2MQTT describes it.
/// The numeric bounds are IEEE-754 bit patterns of the floating-point values.
#[derive(Debug)]
pub struct Expose {
    pub expose_type: ExposeType,
    pub property: Option<String>,
    pub name: Option<String>,
    pub unit: Option<String>,
    pub access: Option<u8>,
    pub category: Option<String>,
    pub description: Option<String>,
    pub features: Option<Vec<Expose>>,
    pub value_on: Option<BinaryValue>,
    pub value_off: Option<BinaryValue>,
    pub value_min_bits: Option<u64>,
    pub value_max_bits: Option<u64>,
    pub value_step_bits: Option<u64>,
    pub values: Option<Vec<String>>,
}

impl Expose {
    /// Bit 0 of the access flags: the device publishes this property.
    pub open spec fn spec_has_publish_access(self) -> bool {
        match self.access {
            Some(a) => a & 1u8 != 0,
            None => false,
        }
    }

    /// A generic expose that the device publishes.
    pub open spec fn spec_is_monitorable(self) -> bool {
        self.expose_type.spec_is_generic() && self.spec_has_publish_access()
    }

    /// Returns true if this expose has publish/read access (bit 0 set).
    pub fn has_publish_access(&self) -> (r: bool)
        ensures
            r == self.spec_has_publish_access(),
    {
        match self.access {
            Some(a) => (a & 1) != 0,
            None => false,
        }
    }

    /// Returns true if this expose should be monitored for metrics.
    pub fn is_monitorable(&self) -> (r: bool)
        ensures
            r == self.spec_is_monitorable(),
    {
        self.expose_type.is_generic() && self.has_publish_access()
    }
}

/// A monitored expose with its property path resolved.
#[derive(Debug, Clone)]
pub struct FlattenedExpose {
    pub property: String,
    pub expose_type: ExposeType,
    pub unit: Option<String>,
    pub value_on: Option<BinaryValue>,
    pub value_off: Option<BinaryValue>,
}

/// What a flattened expose holds, its property path as text.
pub struct FlatExposeView {
    pub property: Seq<char>,
    pub expose_type: ExposeType,
    pub unit: Option<String>,
    pub value_on: Option<BinaryValue>,
    pub value_off: Option<BinaryValue>,
}

impl View for FlattenedExpose {
    type V = FlatExposeView;

    open spec fn view(&self) -> FlatExposeView {
        FlatExposeView {
            property: self.property@,
            expose_type: self.expose_type,
            unit: self.unit,
            value_on: self.value_on,
            value_off: self.value_off,
        }
    }
}

/// The flattened form of expose `e` under property path `path`.
pub open spec fn flat_view_of(e: Expose, path: Seq<char>) -> FlatExposeView {
    FlatExposeView {
        property: path,
        expose_type: e.expose_type,
        unit: e.unit,
        value_on: e.value_on,
        value_off: e.value_off,
    }
}

/// The property path of `e` under `prefix`: its own property joined on, or the prefix itself.
pub open spec fn property_path(e: Expose, prefix: Seq<char>) -> Seq<char> {
    match e.property {
        Some(p) => joined(prefix, p@),
        None => prefix,
    }
}

/// Appends to `acc`, depth first from expose `i` on, each monitorable expose with its path;
/// the features of an expose are visited right after it, under its path.
pub open spec fn flatten_from(
    exposes: Seq<Expose>,
    i: int,
    prefix: Seq<char>,
    acc: Seq<FlatExposeView>,
) -> Seq<FlatExposeView>
    decreases exposes, exposes.len() - i,
{
    if 0 <= i < exposes.len() {
        let e = exposes[i];
        let path = property_path(e, prefix);
        let with_self = if e.spec_is_monitorable() {
            acc.push(flat_view_of(e, path))
        } else {
            acc
        };
        let next = match e.features {
            Some(features) => {
                proof {
                    assert(decreases_to!(exposes => exposes[i]));
                    assert(decreases_to!(features => features@));
                }
                flatten_from(features@, 0, path, with_self)
            },
            None => with_self,
        };
        flatten_from(exposes, i + 1, prefix, next)
    } else {
        acc
    }
}

/// The flattened exposes of a list of exposes.
pub open spec fn spec_flatten_exposes(exposes: Seq<Expose>) -> Seq<FlatExposeView> {
    flatten_from(exposes, 0, Seq::empty(), Seq::empty())
}

/// The views of a list of flattened exposes.
pub open spec fn flat_views(v: Seq<FlattenedExpose>) -> Seq<FlatExposeView> {
    v.map_values(|fe: FlattenedExpose| fe@)
}

fn clone_text(o: &Option<String>) -> (r: Option<String>)
    ensures
        r == *o,
{
    match o {
        Some(s) => Some(s.clone()),
        None => None,
    }
}

fn clone_binary(o: &Option<BinaryValue>) -> (r: Option<BinaryValue>)
    ensures
        r == *o,
{
    match o {
        Some(b) => Some(b.clone()),
        None => None,
    }
}

fn flatten_exposes_recursive(exposes: &[Expose], prefix: &str, result: &mut Vec<FlattenedExpose>)
    ensures
        flat_views(final(result)@) == flatten_from(exposes@, 0, prefix@, flat_views(old(result)@)),
    decreases exposes@,
{
    let n = exposes.len();
    let mut i: usize = 0;
    while i < n
        invariant
            n == exposes@.len(),
            i <= n,
            flatten_from(exposes@, 0, prefix@, flat_views(old(result)@)) == flatten_from(exposes@, i as int, prefix@, flat_views(result@)),
        decreases n - i,
    {
        let expose = &exposes[i];
        let property = match &expose.property {
            Some(p) => join_key(prefix, p.as_str()),
            None => prefix.to_owned(),
        };
        if expose.is_monitorable() {
            let ghost before = result@;
            result.push(FlattenedExpose {
                property: property.clone(),
                expose_type: expose.expose_type,
                unit: clone_text(&expose.unit),
                value_on: clone_binary(&expose.value_on),
                value_off: clone_binary(&expose.value_off),
            });
            assert(flat_views(result@) =~= flat_views(before).push(flat_view_of(*expose, property@)));
        }
        match &expose.features {
            Some(features) => {
                proof {
                    assert(decreases_to!(exposes@ => exposes@[i as int]));
                    assert(decreases_to!(*features => features@));
                }
                flatten_exposes_recursive(features.as_slice(), property.as_str(), result);
            },
            None => {},
        }
        i = i + 1;
    }
}

/// Flattens exposes recursively: each monitorable expose, composite features included,
/// with its underscore-joined property path, in depth-first order.
pub fn flatten_exposes(exposes: &[Expose]) -> (r: Vec<FlattenedExpose>)
    ensures
        flat_views(r@) == spec_flatten_exposes(exposes@),
{
    let mut result = Vec::new();
    proof {
        reveal_strlit("");
        assert(""@ =~= Seq::<char>::empty());
        assert(flat_views(result@) =~= Seq::<FlatExposeView>::empty());
    }
    flatten_exposes_recursive(exposes, "", &mut result);
    result
}

/// Every flattened expose comes from a monitorable expose: its kind is generic.
pub proof fn lemma_flattened_exposes_are_generic(exposes: Seq<Expose>)
    ensures
        forall|i: int|
            0 <= i < spec_flatten_exposes(exposes).len() ==> (#[trigger] spec_flatten_exposes(
                exposes,
            )[i]).expose_type.spec_is_generic(),
{
    lemma_flatten_from_generic(exposes, 0, Seq::empty(), Seq::empty());
}

proof fn lemma_flatten_from_generic(exposes: Seq<Expose>, i: int, prefix: Seq<char>, acc: Seq<FlatExposeView>)
    requires
        forall|j: int| 0 <= j < acc.len() ==> (#[trigger] acc[j]).expose_type.spec_is_generic(),
    ensures
        forall|j: int|
            0 <= j < flatten_from(exposes, i, prefix, acc).len() ==> (#[trigger] flatten_from(
                exposes,
                i,
                prefix,
                acc,
            )[j]).expose_type.spec_is_generic(),
    decreases exposes, exposes.len() - i,
{
    if 0 <= i < exposes.len() {
        let e = exposes[i];
        let path = property_path(e, prefix);
        let with_self = if e.spec_is_monitorable() {
            acc.push(flat_view_of(e, path))
        } else {
            acc
        };
        assert forall|j: int| 0 <= j < with_self.len() implies (#[trigger] with_self[j]).expose_type.spec_is_generic() by {
            if j < acc.len() {
                assert(with_self[j] == acc[j]);
            }
        }
        let next = match e.features {
            Some(features) => {
                assert(decreases_to!(exposes => exposes[i]));
                assert(decreases_to!(features => features@));
                lemma_flatten_from_generic(features@, 0, path, with_self);
                flatten_from(features@, 0, path, with_self)
            },
            None => with_self,
        };
        lemma_flatten_from_generic(exposes, i + 1, prefix, next);
    }
}

/// A list of monitorable exposes, each with a property and without features, flattens to
/// one entry per expose, in order, under the expose's own property.
pub proof fn lemma_simple_exposes_flatten_in_order(exposes: Seq<Expose>)
    requires
        forall|i: int|
            0 <= i < exposes.len() ==> {
                &&& (#[trigger] exposes[i]).spec_is_monitorable()
                &&& exposes[i].property is Some
                &&& exposes[i].features is None
            },
    ensures
        spec_flatten_exposes(exposes) == Seq::new(
            exposes.len(),
            |i: int| flat_view_of(exposes[i], exposes[i].property->Some_0@),
        ),
{
    lemma_simple_flatten_from(exposes, 0, Seq::empty());
    assert(Seq::<FlatExposeView>::empty() + simple_views(exposes, 0) =~= simple_views(exposes, 0));
    assert(simple_views(exposes, 0) =~= Seq::new(
        exposes.len(),
        |i: int| flat_view_of(exposes[i], exposes[i].property->Some_0@),
    ));
}

/// The entries of exposes `i` on, each under its own property.
spec fn simple_views(exposes: Seq<Expose>, i: int) -> Seq<FlatExposeView> {
    Seq::new(
        (exposes.len() - i) as nat,
        |j: int| flat_view_of(exposes[i + j], exposes[i + j].property->Some_0@),
    )
}

proof fn lemma_simple_flatten_from(exposes: Seq<Expose>, i: int, acc: Seq<FlatExposeView>)
    requires
        0 <= i <= exposes.len(),
        forall|k: int|
            0 <= k < exposes.len() ==> {
                &&& (#[trigger] exposes[k]).spec_is_monitorable()
                &&& exposes[k].property is Some
                &&& exposes[k].features is None
            },
    ensures
        flatten_from(exposes, i, Seq::empty(), acc) == acc + simple_views(exposes, i),
    decreases exposes.len() - i,
{
    if i < exposes.len() {
        let e = exposes[i];
        assert(e.spec_is_monitorable() && e.property is Some && e.features is None);
        let path = property_path(e, Seq::empty());
        assert(path == e.property->Some_0@);
        let next = acc.push(flat_view_of(e, path));
        lemma_simple_flatten_from(exposes, i + 1, next);
        assert(next + simple_views(exposes, i + 1) =~= acc + simple_views(exposes, i));
    } else {
        assert(acc + simple_views(exposes, i) =~= acc);
    }
}


/// Flattening appends to what came before: the accumulated entries stay in front, untouched.
proof fn lemma_flatten_from_appends(exposes: Seq<Expose>, i: int, prefix: Seq<char>, acc: Seq<FlatExposeView>)
    ensures
        flatten_from(exposes, i, prefix, acc) == acc + flatten_from(exposes, i, prefix, Seq::empty()),
    decreases exposes, exposes.len() - i,
{
    if 0 <= i < exposes.len() {
        let e = exposes[i];
        let path = property_path(e, prefix);
        let mine = if e.spec_is_monitorable() {
            Seq::<FlatExposeView>::empty().push(flat_view_of(e, path))
        } else {
            Seq::<FlatExposeView>::empty()
        };
        let with_self = if e.spec_is_monitorable() {
            acc.push(flat_view_of(e, path))
        } else {
            acc
        };
        assert(with_self =~= acc + mine);
        let (next, next0) = match e.features {
            Some(features) => {
                assert(decreases_to!(exposes => exposes[i]));
                assert(decreases_to!(features => features@));
                lemma_flatten_from_appends(features@, 0, path, with_self);
                lemma_flatten_from_appends(features@, 0, path, mine);
                let inner = flatten_from(features@, 0, path, Seq::empty());
                assert(with_self + inner =~= acc + (mine + inner));
                (flatten_from(features@, 0, path, with_self), flatten_from(features@, 0, path, mine))
            },
            None => (with_self, mine),
        };
        assert(next == acc + next0);
        lemma_flatten_from_appends(exposes, i + 1, prefix, next);
        lemma_flatten_from_appends(exposes, i + 1, prefix, next0);
        let rest = flatten_from(exposes, i + 1, prefix, Seq::empty());
        assert(next + rest =~= acc + (next0 + rest));
    } else {
        assert(acc + Seq::<FlatExposeView>::empty() =~= acc);
    }
}

/// Past the end of the first list, flattening the joined list is flattening the second one.
proof fn lemma_flatten_from_shift(
    xs: Seq<Expose>,
    ys: Seq<Expose>,
    j: int,
    prefix: Seq<char>,
    acc: Seq<FlatExposeView>,
)
    requires
        0 <= j <= ys.len(),
    ensures
        flatten_from(xs + ys, xs.len() + j, prefix, acc) == flatten_from(ys, j, prefix, acc),
    decreases ys.len() - j,
{
    if j < ys.len() {
        let zs = xs + ys;
        assert(zs[xs.len() + j] == ys[j]);
        let e = ys[j];
        let path = property_path(e, prefix);
        let with_self = if e.spec_is_monitorable() {
            acc.push(flat_view_of(e, path))
        } else {
            acc
        };
        let next = match e.features {
            Some(features) => flatten_from(features@, 0, path, with_self),
            None => with_self,
        };
        assert(flatten_from(zs, xs.len() + j, prefix, acc) == flatten_from(zs, xs.len() + j + 1, prefix, next));
        lemma_flatten_from_shift(xs, ys, j + 1, prefix, next);
    }
}

/// Flattening the joined list from entry `i` of the first list on.
proof fn lemma_flatten_from_joined(
    xs: Seq<Expose>,
    ys: Seq<Expose>,
    i: int,
    prefix: Seq<char>,
    acc: Seq<FlatExposeView>,
)
    requires
        0 <= i <= xs.len(),
    ensures
        flatten_from(xs + ys, i, prefix, acc) == flatten_from(ys, 0, prefix, flatten_from(xs, i, prefix, acc)),
    decreases xs.len() - i,
{
    if i < xs.len() {
        let zs = xs + ys;
        assert(zs[i] == xs[i]);
        let e = xs[i];
        let path = property_path(e, prefix);
        let with_self = if e.spec_is_monitorable() {
            acc.push(flat_view_of(e, path))
        } else {
            acc
        };
        let next = match e.features {
            Some(features) => flatten_from(features@, 0, path, with_self),
            None => with_self,
        };
        assert(flatten_from(zs, i, prefix, acc) == flatten_from(zs, i + 1, prefix, next));
        assert(flatten_from(xs, i, prefix, acc) == flatten_from(xs, i + 1, prefix, next));
        lemma_flatten_from_joined(xs, ys, i + 1, prefix, next);
    } else {
        lemma_flatten_from_shift(xs, ys, 0, prefix, acc);
    }
}

/// Sibling exposes are flattened independently: the flattened exposes of two lists one after
/// the other are those of the first list followed by those of the second, so the path of an
/// expose never depends on the exposes before it.
pub proof fn lemma_flatten_exposes_of_joined_lists(xs: Seq<Expose>, ys: Seq<Expose>)
    ensures
        spec_flatten_exposes(xs + ys) == spec_flatten_exposes(xs) + spec_flatten_exposes(ys),
{
    lemma_flatten_from_joined(xs, ys, 0, Seq::empty(), Seq::empty());
    lemma_flatten_from_appends(ys, 0, Seq::empty(), spec_flatten_exposes(xs));
}

/// An expose without features flattens, on its own, to itself under its own property when it
/// is monitorable (generic with publish access), and to nothing otherwise.
pub proof fn lemma_flatten_plain_expose(e: Expose)
    requires
        e.features is None,
        e.property is Some,
    ensures
        spec_flatten_exposes(seq![e]) == (if e.expose_type.spec_is_generic() && (e.access matches Some(
            a,
        ) && a & 1u8 != 0) {
            seq![
                FlatExposeView {
                    property: e.property->Some_0@,
                    expose_type: e.expose_type,
                    unit: e.unit,
                    value_on: e.value_on,
                    value_off: e.value_off,
                },
            ]
        } else {
            Seq::<FlatExposeView>::empty()
        }),
{
    let one = seq![e];
    assert(one[0] == e);
    let path = property_path(e, Seq::empty());
    assert(path == e.property->Some_0@);
    let with_self = if e.spec_is_monitorable() {
        Seq::<FlatExposeView>::empty().push(flat_view_of(e, path))
    } else {
        Seq::<FlatExposeView>::empty()
    };
    assert(spec_flatten_exposes(one) == flatten_from(one, 1, Seq::empty(), with_self));
    if e.spec_is_monitorable() {
        assert(with_self =~= seq![flat_view_of(e, path)]);
    }
}


/// Exactly the binary, numeric, enum and text kinds are generic; composite and specific kinds
/// (switch, light, climate, cover, fan, lock) and unknown kinds are not.
pub proof fn lemma_generic_kinds(t: ExposeType)
    ensures
        t.spec_is_generic() <==> (t == ExposeType::Binary || t == ExposeType::Numeric || t
            == ExposeType::Enum || t == ExposeType::Text),
{
}

/// A boolean "on"/"off" value matches exactly the same JSON boolean, and a text one exactly a
/// JSON string of the same text; nothing else matches.
pub proof fn lemma_binary_value_matches_same_value(v: BinaryValue, value: JsonValue)
    ensures
        v matches BinaryValue::Bool(b) ==> (v.spec_matches(value) <==> value == JsonValue::Bool(b)),
        v matches BinaryValue::String(s) ==> (v.spec_matches(value) <==> (value matches JsonValue::String(
            t,
        ) && t@ == s@)),
{
}

/// A composite expose whose features are monitorable and have no features of their own
/// flattens to itself under its property, if it is monitorable, followed by each feature, in
/// order, under the composite's property, an underscore and the feature's property.
pub proof fn lemma_flatten_composite_expose(c: Expose, features: Vec<Expose>)
    requires
        c.property is Some,
        c.property->Some_0@.len() > 0,
        c.features == Some(features),
        forall|i: int|
            0 <= i < features.len() ==> {
                &&& (#[trigger] features[i]).spec_is_monitorable()
                &&& features[i].property is Some
                &&& features[i].features is None
            },
    ensures
        ({
            let q = c.property->Some_0@;
            let own = if c.spec_is_monitorable() {
                seq![flat_view_of(c, q)]
            } else {
                Seq::<FlatExposeView>::empty()
            };
            spec_flatten_exposes(seq![c]) == own + Seq::new(
                features.len() as nat,
                |i: int|
                    FlatExposeView {
                        property: q + seq!['_'] + features[i].property->Some_0@,
                        expose_type: features[i].expose_type,
                        unit: features[i].unit,
                        value_on: features[i].value_on,
                        value_off: features[i].value_off,
                    },
            )
        }),
{
    let q = c.property->Some_0@;
    let one = seq![c];
    assert(one[0] == c);
    let path = property_path(c, Seq::empty());
    assert(path == q);
    let own = if c.spec_is_monitorable() {
        Seq::<FlatExposeView>::empty().push(flat_view_of(c, q))
    } else {
        Seq::<FlatExposeView>::empty()
    };
    let inner = flatten_from(features@, 0, q, own);
    assert(spec_flatten_exposes(one) == flatten_from(one, 1, Seq::empty(), inner));
    lemma_features_under_prefix(features@, 0, q, own);
    let expected = Seq::new(
        features.len() as nat,
        |i: int|
            FlatExposeView {
                property: q + seq!['_'] + features[i].property->Some_0@,
                expose_type: features[i].expose_type,
                unit: features[i].unit,
                value_on: features[i].value_on,
                value_off: features[i].value_off,
            },
    );
    assert(prefixed_views(features@, 0, q) =~= expected);
    if c.spec_is_monitorable() {
        assert(own =~= seq![flat_view_of(c, q)]);
    }
}

/// The entries of features `i` on, each under `q`, an underscore and its own property.
spec fn prefixed_views(features: Seq<Expose>, i: int, q: Seq<char>) -> Seq<FlatExposeView> {
    Seq::new(
        (features.len() - i) as nat,
        |j: int| flat_view_of(features[i + j], q + seq!['_'] + features[i + j].property->Some_0@),
    )
}

proof fn lemma_features_under_prefix(features: Seq<Expose>, i: int, q: Seq<char>, acc: Seq<FlatExposeView>)
    requires
        0 <= i <= features.len(),
        q.len() > 0,
        forall|k: int|
            0 <= k < features.len() ==> {
                &&& (#[trigger] features[k]).spec_is_monitorable()
                &&& features[k].property is Some
                &&& features[k].features is None
            },
    ensures
        flatten_from(features, i, q, acc) == acc + prefixed_views(features, i, q),
    decreases features.len() - i,
{
    if i < features.len() {
        let e = features[i];
        assert(e.spec_is_monitorable() && e.property is Some && e.features is None);
        let path = property_path(e, q);
        assert(path == q + seq!['_'] + e.property->Some_0@);
        let next = acc.push(flat_view_of(e, path));
        lemma_features_under_prefix(features, i + 1, q, next);
        assert(next + prefixed_views(features, i + 1, q) =~= acc + prefixed_views(features, i, q));
    } else {
        assert(acc + prefixed_views(features, i, q) =~= acc);
    }
}

} // verus!
