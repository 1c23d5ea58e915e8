//! Flattening of nested payload objects into one level of underscore-joined keys.
use vstd::prelude::*;

use crate::json::JsonValue;
use crate::keyed::{keyed_map, last_with_key, lemma_keyed_map_push, lemma_keyed_map_update, lemma_last_with_key_prefix};
use crate::text::{join_key, joined};

verus! {

/// The key of a flattened entry.
pub open spec fn entry_key<'a>() -> spec_fn((String, &'a JsonValue)) -> Seq<char> {
    |e: (String, &'a JsonValue)| e.0@
}

/// A payload flattened to one level: keys mapped to the values found under them.
pub struct FlatPayload<'a> {
    entries: Vec<(String, &'a JsonValue)>,
}

impl<'a> View for FlatPayload<'a> {
    type V = Map<Seq<char>, JsonValue>;

    closed spec fn view(&self) -> Map<Seq<char>, JsonValue> {
        let m = keyed_map(self.entries@, entry_key());
        Map::new(|k: Seq<char>| m.contains_key(k), |k: Seq<char>| *m[k].1)
    }
}

impl<'a> FlatPayload<'a> {
    /// An empty payload.
    pub fn new() -> (r: FlatPayload<'a>)
        ensures
            r@ == Map::<Seq<char>, JsonValue>::empty(),
    {
        let r = FlatPayload { entries: Vec::new() };
        assert(r@ =~= Map::<Seq<char>, JsonValue>::empty());
        r
    }

    /// Sets the value under `key`, replacing a value that was there.
    pub fn insert(&mut self, key: String, value: &'a JsonValue)
        ensures
            final(self)@ == old(self)@.insert(key@, *value),
    {
        let n = self.entries.len();
        let mut i = n;
        while i > 0
            invariant
                n == self.entries@.len(),
                self.entries@ == old(self).entries@,
                i <= n,
                forall|t: int| i <= t < n ==> (#[trigger] self.entries@[t]).0@ != key@,
            decreases i,
        {
            if self.entries[i - 1].0 == key {
                let ghost before = self.entries@;
                let ghost new_entry = (key, value);
                self.entries.set(i - 1, (key, value));
                proof {
                    assert forall|t: int| i - 1 < t < before.len() implies (entry_key::<'a>())(
                        #[trigger] before[t],
                    ) != (entry_key::<'a>())(new_entry) by {
                        assert(before[t].0@ != key@);
                    }
                    lemma_keyed_map_update(before, entry_key(), i - 1, new_entry);
                    assert(self@ =~= old(self)@.insert(key@, *value));
                }
                return;
            }
            i = i - 1;
        }
        let ghost before = self.entries@;
        self.entries.push((key, value));
        proof {
            lemma_keyed_map_push(before, entry_key(), (key, value));
            assert(self@ =~= old(self)@.insert(key@, *value));
        }
    }

    /// The value under `key`, if there is one.
    pub fn get(&self, key: &String) -> (r: Option<&'a JsonValue>)
        ensures
            r is Some == self@.contains_key(key@),
            r matches Some(v) ==> *v == self@[key@],
    {
        let n = self.entries.len();
        let mut i = n;
        assert(self.entries@.subrange(0, n as int) =~= self.entries@);
        while i > 0
            invariant
                n == self.entries@.len(),
                i <= n,
                last_with_key(self.entries@, entry_key(), key@) == last_with_key(
                    self.entries@.subrange(0, i as int),
                    entry_key(),
                    key@,
                ),
            decreases i,
        {
            if self.entries[i - 1].0 == *key {
                return Some(self.entries[i - 1].1);
            }
            proof {
                lemma_last_with_key_prefix(self.entries@, entry_key(), i as int, key@);
            }
            i = i - 1;
        }
        assert(self.entries@.subrange(0, 0) =~= Seq::<(String, &JsonValue)>::empty());
        None
    }
}

/// Folds the members of an object, from member `i` on, into `acc`: a member whose value is
/// an object is folded in under its joined key; any other value is set under its joined key.
pub open spec fn flatten_members(
    members: Vec<(String, JsonValue)>,
    i: int,
    prefix: Seq<char>,
    acc: Map<Seq<char>, JsonValue>,
) -> Map<Seq<char>, JsonValue>
    decreases members, members.len() - i,
{
    if 0 <= i < members.len() {
        let key = joined(prefix, members[i].0@);
        let next = match members[i].1 {
            JsonValue::Object(nested) => {
                proof {
                    assert(decreases_to!(members => members[i]));
                }
                flatten_members(nested, 0, key, acc)
            },
            _ => acc.insert(key, members[i].1),
        };
        flatten_members(members, i + 1, prefix, next)
    } else {
        acc
    }
}

/// The flattened form of a payload: the members of a top-level object with nested objects
/// folded in; nothing for any other value.
pub open spec fn spec_flatten_payload(value: JsonValue) -> Map<Seq<char>, JsonValue> {
    match value {
        JsonValue::Object(members) => flatten_members(members, 0, Seq::empty(), Map::empty()),
        _ => Map::empty(),
    }
}

fn flatten_recursive<'a>(members: &'a Vec<(String, JsonValue)>, prefix: &str, result: &mut FlatPayload<'a>)
    ensures
        final(result)@ == flatten_members(*members, 0, prefix@, old(result)@),
    decreases members,
{
    let n = members.len();
    let mut i: usize = 0;
    while i < n
        invariant
            n == members@.len(),
            i <= n,
            flatten_members(*members, 0, prefix@, old(result)@) == flatten_members(*members, i as int, prefix@, result@),
        decreases n - i,
    {
        let member = &members[i];
        let key = join_key(prefix, member.0.as_str());
        match &member.1 {
            JsonValue::Object(nested) => {
                proof {
                    assert(decreases_to!(*members => members[i as int]));
                }
                flatten_recursive(nested, key.as_str(), result);
            },
            other => {
                result.insert(key, other);
            },
        }
        i = i + 1;
    }
}

/// Flattens a nested payload object into a single-level map with underscore-separated keys:
/// `{"overload_protection": {"min_current": 0.5}}` becomes `{"overload_protection_min_current": 0.5}`.
/// A payload that is not an object flattens to nothing.
pub fn flatten_payload<'a>(value: &'a JsonValue) -> (r: FlatPayload<'a>)
    ensures
        r@ == spec_flatten_payload(*value),
{
    let mut result = FlatPayload::new();
    match value {
        JsonValue::Object(members) => {
            proof {
                reveal_strlit("");
                assert(""@ =~= Seq::<char>::empty());
            }
            flatten_recursive(members, "", &mut result);
        },
        _ => {},
    }
    result
}

/// Flattening a one-level object whose member names are distinct keeps each member's value
/// under the member's own name, and nothing else.
pub proof fn lemma_flat_object_flattens_to_its_members(members: Vec<(String, JsonValue)>)
    requires
        forall|i: int| 0 <= i < members.len() ==> !((#[trigger] members[i]).1 is Object),
        forall|i: int, j: int|
            0 <= i < j < members.len() ==> (#[trigger] members[i]).0@ != (#[trigger] members[j]).0@,
    ensures
        forall|i: int|
            0 <= i < members.len() ==> {
                &&& spec_flatten_payload(JsonValue::Object(members)).contains_key(
                    (#[trigger] members[i]).0@,
                )
                &&& spec_flatten_payload(JsonValue::Object(members))[members[i].0@] == members[i].1
            },
        forall|k: Seq<char>|
            #[trigger] spec_flatten_payload(JsonValue::Object(members)).contains_key(k) ==> exists|
                i: int,
            |
                0 <= i < members.len() && (#[trigger] members[i]).0@ == k,
{
    lemma_flat_members(members, 0, Seq::empty(), Map::empty());
    assert forall|i: int| 0 <= i < members.len() implies joined(Seq::empty(), (#[trigger] members[i]).0@)
        == members[i].0@ by {}
}

/// Joining distinct member names onto one prefix gives distinct keys.
proof fn lemma_joined_injective(prefix: Seq<char>, a: Seq<char>, b: Seq<char>)
    ensures
        joined(prefix, a) == joined(prefix, b) ==> a == b,
{
    if prefix.len() > 0 && joined(prefix, a) == joined(prefix, b) {
        assert((prefix + seq!['_'] + a).skip(prefix.len() + 1int) =~= a);
        assert((prefix + seq!['_'] + b).skip(prefix.len() + 1int) =~= b);
    }
}

proof fn lemma_flat_members(
    members: Vec<(String, JsonValue)>,
    i: int,
    prefix: Seq<char>,
    acc: Map<Seq<char>, JsonValue>,
)
    requires
        0 <= i <= members.len(),
        forall|t: int| 0 <= t < members.len() ==> !((#[trigger] members[t]).1 is Object),
        forall|s: int, t: int|
            0 <= s < t < members.len() ==> (#[trigger] members[s]).0@ != (#[trigger] members[t]).0@,
    ensures
        forall|t: int|
            i <= t < members.len() ==> {
                &&& flatten_members(members, i, prefix, acc).contains_key(
                    joined(prefix, (#[trigger] members[t]).0@),
                )
                &&& flatten_members(members, i, prefix, acc)[joined(prefix, members[t].0@)] == members[t].1
            },
        forall|k: Seq<char>|
            #[trigger] flatten_members(members, i, prefix, acc).contains_key(k) ==> (acc.contains_key(k)
                || exists|t: int| i <= t < members.len() && joined(prefix, (#[trigger] members[t]).0@) == k),
        forall|k: Seq<char>|
            #![trigger flatten_members(members, i, prefix, acc).contains_key(k)]
            (forall|t: int| i <= t < members.len() ==> joined(prefix, (#[trigger] members[t]).0@) != k) ==> {
                &&& flatten_members(members, i, prefix, acc).contains_key(k) == acc.contains_key(k)
                &&& acc.contains_key(k) ==> flatten_members(members, i, prefix, acc)[k] == acc[k]
            },
    decreases members.len() - i,
{
    if i < members.len() {
        let key = joined(prefix, members[i].0@);
        assert(!(members[i].1 is Object));
        let next = acc.insert(key, members[i].1);
        assert(flatten_members(members, i, prefix, acc) == flatten_members(members, i + 1, prefix, next));
        lemma_flat_members(members, i + 1, prefix, next);
        let result = flatten_members(members, i + 1, prefix, next);
        assert forall|k: Seq<char>| #[trigger] result.contains_key(k) implies (acc.contains_key(k) || exists|t: int|
            i <= t < members.len() && joined(prefix, (#[trigger] members[t]).0@) == k) by {
            if !next.contains_key(k) || acc.contains_key(k) {
            } else {
                assert(joined(prefix, members[i].0@) == k);
            }
        }
        assert forall|t: int| i <= t < members.len() implies {
            &&& result.contains_key(joined(prefix, (#[trigger] members[t]).0@))
            &&& result[joined(prefix, members[t].0@)] == members[t].1
        } by {
            if t == i {
                assert forall|u: int| i + 1 <= u < members.len() implies joined(prefix, (#[trigger] members[u]).0@)
                    != key by {
                    assert(members[i].0@ != members[u].0@);
                    lemma_joined_injective(prefix, members[i].0@, members[u].0@);
                }
                assert(result.contains_key(key) == next.contains_key(key));
                assert(next[key] == members[i].1);
            }
        }
        assert forall|k: Seq<char>|
            (forall|t: int| i <= t < members.len() ==> joined(prefix, (#[trigger] members[t]).0@) != k) implies {
            &&& result.contains_key(k) == acc.contains_key(k)
            &&& acc.contains_key(k) ==> result[k] == acc[k]
        } by {
            assert(joined(prefix, members[i].0@) != k);
            assert forall|t: int| i + 1 <= t < members.len() implies joined(prefix, (#[trigger] members[t]).0@)
                != k by {}
            assert(result.contains_key(k) == next.contains_key(k));
        }
    }
}

/// A member whose value is an object of plain values with distinct names is flattened into
/// one key per inner member, the outer name, an underscore and the inner name, each holding
/// that member's value whatever its kind (number, string, boolean, null or array); and into
/// nothing else.
pub proof fn lemma_nested_object_flattens_under_its_name(
    outer: Vec<(String, JsonValue)>,
    name: Seq<char>,
    inner: Vec<(String, JsonValue)>,
)
    requires
        outer.len() == 1,
        outer[0].0@ == name,
        outer[0].1 == JsonValue::Object(inner),
        name.len() > 0,
        forall|i: int| 0 <= i < inner.len() ==> !((#[trigger] inner[i]).1 is Object),
        forall|i: int, j: int|
            0 <= i < j < inner.len() ==> (#[trigger] inner[i]).0@ != (#[trigger] inner[j]).0@,
    ensures
        forall|i: int|
            0 <= i < inner.len() ==> {
                &&& spec_flatten_payload(JsonValue::Object(outer)).contains_key(
                    name + seq!['_'] + (#[trigger] inner[i]).0@,
                )
                &&& spec_flatten_payload(JsonValue::Object(outer))[name + seq!['_'] + inner[i].0@] == inner[i].1
            },
        forall|k: Seq<char>|
            #[trigger] spec_flatten_payload(JsonValue::Object(outer)).contains_key(k) ==> exists|i: int|
                0 <= i < inner.len() && k == name + seq!['_'] + (#[trigger] inner[i]).0@,
{
    let key = joined(Seq::empty(), name);
    assert(key == name);
    let nested = flatten_members(inner, 0, name, Map::empty());
    assert(spec_flatten_payload(JsonValue::Object(outer)) == flatten_members(outer, 1, Seq::empty(), nested));
    assert(flatten_members(outer, 1, Seq::empty(), nested) == nested);
    lemma_flat_members(inner, 0, name, Map::empty());
}


/// `b` holds each entry of `a` under `name`, an underscore and the entry's key, and nothing else.
pub open spec fn holds_under(name: Seq<char>, a: Map<Seq<char>, JsonValue>, b: Map<Seq<char>, JsonValue>) -> bool {
    &&& forall|k: Seq<char>|
        #[trigger] a.contains_key(k) ==> b.contains_key(name + seq!['_'] + k) && b[name + seq!['_'] + k] == a[k]
    &&& forall|key: Seq<char>|
        #[trigger] b.contains_key(key) ==> exists|k: Seq<char>| #[trigger] a.contains_key(k) && key == name + seq!['_'] + k
}

/// The prefix that stands, under `name`, for prefix `p`.
spec fn prefix_under(name: Seq<char>, p: Seq<char>) -> Seq<char> {
    if p.len() == 0 {
        name
    } else {
        name + seq!['_'] + p
    }
}

proof fn lemma_under_injective(name: Seq<char>, a: Seq<char>, b: Seq<char>)
    ensures
        name + seq!['_'] + a == name + seq!['_'] + b ==> a == b,
{
    if name + seq!['_'] + a == name + seq!['_'] + b {
        assert((name + seq!['_'] + a).skip(name.len() + 1int) =~= a);
        assert((name + seq!['_'] + b).skip(name.len() + 1int) =~= b);
    }
}

proof fn lemma_holds_under_insert(
    name: Seq<char>,
    a: Map<Seq<char>, JsonValue>,
    b: Map<Seq<char>, JsonValue>,
    k: Seq<char>,
    v: JsonValue,
)
    requires
        holds_under(name, a, b),
    ensures
        holds_under(name, a.insert(k, v), b.insert(name + seq!['_'] + k, v)),
{
    let a2 = a.insert(k, v);
    let b2 = b.insert(name + seq!['_'] + k, v);
    assert forall|j: Seq<char>| #[trigger] a2.contains_key(j) implies b2.contains_key(name + seq!['_'] + j)
        && b2[name + seq!['_'] + j] == a2[j] by {
        lemma_under_injective(name, j, k);
    }
    assert forall|key: Seq<char>| #[trigger] b2.contains_key(key) implies exists|j: Seq<char>|
        #[trigger] a2.contains_key(j) && key == name + seq!['_'] + j by {
        if key == name + seq!['_'] + k {
            assert(a2.contains_key(k));
        } else {
            let j = choose|j: Seq<char>| #[trigger] a.contains_key(j) && key == name + seq!['_'] + j;
            assert(a2.contains_key(j));
        }
    }
}

proof fn lemma_flatten_members_under(
    name: Seq<char>,
    members: Vec<(String, JsonValue)>,
    i: int,
    p: Seq<char>,
    a: Map<Seq<char>, JsonValue>,
    b: Map<Seq<char>, JsonValue>,
)
    requires
        name.len() > 0,
        0 <= i,
        holds_under(name, a, b),
        p.len() == 0 ==> forall|t: int|
            i <= t < members.len() && (#[trigger] members[t]).1 is Object ==> members[t].0@.len() > 0,
    ensures
        holds_under(
            name,
            flatten_members(members, i, p, a),
            flatten_members(members, i, prefix_under(name, p), b),
        ),
    decreases members, members.len() - i,
{
    if i < members.len() {
        let x = members[i].0@;
        let ka = joined(p, x);
        let kb = joined(prefix_under(name, p), x);
        assert(kb == name + seq!['_'] + ka) by {
            if p.len() == 0 {
                assert(ka == x);
            } else {
                assert(name + seq!['_'] + p + seq!['_'] + x =~= name + seq!['_'] + (p + seq!['_'] + x));
            }
        }
        match members[i].1 {
            JsonValue::Object(nested) => {
                assert(decreases_to!(members => members[i]));
                assert(ka.len() > 0);
                assert(prefix_under(name, ka) == kb);
                lemma_flatten_members_under(name, nested, 0, ka, a, b);
                let a2 = flatten_members(nested, 0, ka, a);
                let b2 = flatten_members(nested, 0, kb, b);
                assert(flatten_members(members, i, p, a) == flatten_members(members, i + 1, p, a2));
                assert(flatten_members(members, i, prefix_under(name, p), b) == flatten_members(
                    members,
                    i + 1,
                    prefix_under(name, p),
                    b2,
                ));
                lemma_flatten_members_under(name, members, i + 1, p, a2, b2);
            },
            _ => {
                let a2 = a.insert(ka, members[i].1);
                let b2 = b.insert(kb, members[i].1);
                lemma_holds_under_insert(name, a, b, ka, members[i].1);
                assert(flatten_members(members, i, p, a) == flatten_members(members, i + 1, p, a2));
                assert(flatten_members(members, i, prefix_under(name, p), b) == flatten_members(
                    members,
                    i + 1,
                    prefix_under(name, p),
                    b2,
                ));
                lemma_flatten_members_under(name, members, i + 1, p, a2, b2);
            },
        }
    }
}

/// Nesting a report one level down, under a non-empty name, moves every flattened entry under
/// that name, an underscore and the entry's key, at any depth and whatever kind of value it
/// holds; nothing else appears. (An object member with an empty name at the top level would be
/// folded into the top level itself, so the law leaves such members out.)
pub proof fn lemma_nesting_moves_entries_under_name(
    outer: Vec<(String, JsonValue)>,
    name: Seq<char>,
    inner: Vec<(String, JsonValue)>,
)
    requires
        outer.len() == 1,
        outer[0].0@ == name,
        outer[0].1 == JsonValue::Object(inner),
        name.len() > 0,
        forall|i: int| 0 <= i < inner.len() && (#[trigger] inner[i]).1 is Object ==> inner[i].0@.len() > 0,
    ensures
        holds_under(name, spec_flatten_payload(JsonValue::Object(inner)), spec_flatten_payload(JsonValue::Object(outer))),
{
    let key = joined(Seq::empty(), name);
    assert(key == name);
    let nested = flatten_members(inner, 0, name, Map::empty());
    assert(spec_flatten_payload(JsonValue::Object(outer)) == flatten_members(outer, 1, Seq::empty(), nested));
    assert(flatten_members(outer, 1, Seq::empty(), nested) == nested);
    assert(holds_under(name, Map::<Seq<char>, JsonValue>::empty(), Map::<Seq<char>, JsonValue>::empty()));
    assert(prefix_under(name, Seq::empty()) == name);
    lemma_flatten_members_under(name, inner, 0, Seq::empty(), Map::empty(), Map::empty());
}


proof fn lemma_last_of_a_name(members: Vec<(String, JsonValue)>, i: int, acc: Map<Seq<char>, JsonValue>)
    requires
        0 <= i <= members.len(),
        forall|t: int| 0 <= t < members.len() ==> !((#[trigger] members[t]).1 is Object),
    ensures
        forall|t: int|
            i <= t < members.len() && (forall|u: int| t < u < members.len() ==> (#[trigger] members[u]).0@
                != members[t].0@) ==> {
                &&& flatten_members(members, i, Seq::empty(), acc).contains_key((#[trigger] members[t]).0@)
                &&& flatten_members(members, i, Seq::empty(), acc)[members[t].0@] == members[t].1
            },
        forall|k: Seq<char>|
            #![trigger flatten_members(members, i, Seq::empty(), acc).contains_key(k)]
            (forall|t: int| i <= t < members.len() ==> (#[trigger] members[t]).0@ != k) ==> {
                &&& flatten_members(members, i, Seq::empty(), acc).contains_key(k) == acc.contains_key(k)
                &&& acc.contains_key(k) ==> flatten_members(members, i, Seq::empty(), acc)[k] == acc[k]
            },
    decreases members.len() - i,
{
    if i < members.len() {
        let name = members[i].0@;
        assert(joined(Seq::empty(), name) == name);
        assert(!(members[i].1 is Object));
        let next = acc.insert(name, members[i].1);
        assert(flatten_members(members, i, Seq::empty(), acc) == flatten_members(members, i + 1, Seq::empty(), next));
        lemma_last_of_a_name(members, i + 1, next);
        let result = flatten_members(members, i + 1, Seq::empty(), next);
        assert forall|t: int|
            i <= t < members.len() && (forall|u: int| t < u < members.len() ==> (#[trigger] members[u]).0@
                != members[t].0@) implies {
            &&& result.contains_key((#[trigger] members[t]).0@)
            &&& result[members[t].0@] == members[t].1
        } by {
            if t == i {
                assert(forall|u: int| i + 1 <= u < members.len() ==> (#[trigger] members[u]).0@ != name);
                assert(result.contains_key(name) == next.contains_key(name));
            }
        }
        assert forall|k: Seq<char>|
            (forall|t: int| i <= t < members.len() ==> (#[trigger] members[t]).0@ != k) implies {
            &&& result.contains_key(k) == acc.contains_key(k)
            &&& acc.contains_key(k) ==> result[k] == acc[k]
        } by {
            assert(members[i].0@ != k);
            assert forall|t: int| i + 1 <= t < members.len() implies (#[trigger] members[t]).0@ != k by {}
            assert(result.contains_key(k) == next.contains_key(k));
        }
    }
}

/// In a report of plain values, a name that occurs more than once keeps the value of its last
/// occurrence; every name is kept.
pub proof fn lemma_last_member_of_a_name_wins(members: Vec<(String, JsonValue)>)
    requires
        forall|i: int| 0 <= i < members.len() ==> !((#[trigger] members[i]).1 is Object),
    ensures
        forall|i: int|
            0 <= i < members.len() && (forall|j: int| i < j < members.len() ==> (#[trigger] members[j]).0@
                != members[i].0@) ==> {
                &&& spec_flatten_payload(JsonValue::Object(members)).contains_key((#[trigger] members[i]).0@)
                &&& spec_flatten_payload(JsonValue::Object(members))[members[i].0@] == members[i].1
            },
{
    lemma_last_of_a_name(members, 0, Map::empty());
}

} // verus!
