//! The JSON values that schema rendering produces.
//!
//! The core emits only objects, strings and the boolean `true`, so
//! [`JsonValue`] is restricted to those shapes.  An object keeps its
//! members as a vector of key-value pairs in insertion order; keys are
//! unique, and inserting an existing key overwrites its value in place.
//! The ghost mirror [`JsonModel`] replaces every `String` by its
//! sequence of characters, so that contracts speak of mathematical
//! values only.

use vstd::prelude::*;

verus! {

broadcast use vstd::std_specs::vec::group_vec_axioms;

/// A JSON value of the restricted shape the schema renderer emits.
#[derive(Debug, PartialEq)]
pub enum JsonValue {
    Bool(bool),
    Text(String),
    Object(Vec<(String, JsonValue)>),
}

/// The mathematical model of a [`JsonValue`]: strings become character
/// sequences and object members become a sequence of key-value pairs.
pub enum JsonModel {
    Bool(bool),
    Text(Seq<char>),
    Object(Seq<(Seq<char>, JsonModel)>),
}

/// The model of a JSON value.
pub open spec fn json_model(v: JsonValue) -> JsonModel
    decreases v,
{
    match v {
        JsonValue::Bool(b) => JsonModel::Bool(b),
        JsonValue::Text(s) => JsonModel::Text(s@),
        JsonValue::Object(pairs) => JsonModel::Object(pairs_model(pairs@)),
    }
}

/// The model of an object's member list.
pub open spec fn pairs_model(pairs: Seq<(String, JsonValue)>) -> Seq<(Seq<char>, JsonModel)>
    decreases pairs,
{
    if pairs.len() == 0 {
        Seq::empty()
    } else {
        seq![(pairs[0].0@, json_model(pairs[0].1))] + pairs_model(pairs.drop_first())
    }
}

/// The model of a member list is the member-wise model: it has the same
/// length, and the pair at each position is the model of the pair there.
pub proof fn lemma_pairs_model_index(pairs: Seq<(String, JsonValue)>)
    ensures
        pairs_model(pairs).len() == pairs.len(),
        forall|i: int|
            0 <= i < pairs.len() ==> #[trigger] pairs_model(pairs)[i] == (
                pairs[i].0@,
                json_model(pairs[i].1),
            ),
    decreases pairs.len(),
{
    if pairs.len() > 0 {
        lemma_pairs_model_index(pairs.drop_first());
    }
}

impl View for JsonValue {
    type V = JsonModel;

    open spec fn view(&self) -> JsonModel {
        json_model(*self)
    }
}

/// Insertion into an object's member list: the first pair with the given
/// key is overwritten in place; a fresh key is appended at the end.
pub open spec fn spec_obj_insert(
    pairs: Seq<(Seq<char>, JsonModel)>,
    key: Seq<char>,
    value: JsonModel,
) -> Seq<(Seq<char>, JsonModel)>
    decreases pairs.len(),
{
    if pairs.len() == 0 {
        seq![(key, value)]
    } else if pairs[0].0 == key {
        seq![(key, value)] + pairs.drop_first()
    } else {
        seq![pairs[0]] + spec_obj_insert(pairs.drop_first(), key, value)
    }
}

/// Lookup in an object's member list: the value of the first pair with
/// the given key, if any.
pub open spec fn spec_obj_lookup(
    pairs: Seq<(Seq<char>, JsonModel)>,
    key: Seq<char>,
) -> Option<JsonModel>
    decreases pairs.len(),
{
    if pairs.len() == 0 {
        None
    } else if pairs[0].0 == key {
        Some(pairs[0].1)
    } else {
        spec_obj_lookup(pairs.drop_first(), key)
    }
}

/// Skipping members whose keys all differ from the sought key leaves the
/// lookup result unchanged.
proof fn lemma_lookup_skip(pairs: Seq<(Seq<char>, JsonModel)>, key: Seq<char>, i: int)
    requires
        0 <= i <= pairs.len(),
        forall|j: int| 0 <= j < i ==> #[trigger] pairs[j].0 != key,
    ensures
        spec_obj_lookup(pairs, key) == spec_obj_lookup(
            pairs.subrange(i, pairs.len() as int),
            key,
        ),
    decreases i,
{
    if i > 0 {
        lemma_lookup_skip(pairs.drop_first(), key, i - 1);
        assert(pairs.drop_first().subrange(i - 1, pairs.drop_first().len() as int) =~= pairs
            .subrange(i, pairs.len() as int));
    } else {
        assert(pairs.subrange(0, pairs.len() as int) =~= pairs);
    }
}

impl JsonValue {
    /// A structurally equal copy of the value.
    pub fn deep_clone(&self) -> (r: JsonValue)
        ensures
            r@ == self@,
        decreases *self,
    {
        match self {
            JsonValue::Bool(b) => JsonValue::Bool(*b),
            JsonValue::Text(s) => JsonValue::Text(s.clone()),
            JsonValue::Object(pairs) => {
                let mut out: Vec<(String, JsonValue)> = Vec::new();
                let n = pairs.len();
                let mut i: usize = 0;
                while i < n
                    invariant
                        *self == JsonValue::Object(*pairs),
                        n == pairs@.len(),
                        i <= n,
                        out@.len() == i,
                        forall|j: int|
                            0 <= j < i ==> (#[trigger] out@[j]).0@ == pairs@[j].0@ && json_model(
                                out@[j].1,
                            ) == json_model(pairs@[j].1),
                    decreases n - i,
                {
                    proof {
                        assert(decreases_to!(*self => self->Object_0));
                        assert(decreases_to!(*pairs => pairs@));
                        assert(decreases_to!(pairs@ => pairs@[i as int]));
                        assert(decreases_to!(pairs@[i as int] => pairs@[i as int].1));
                    }
                    let entry = &pairs[i];
                    out.push((entry.0.clone(), entry.1.deep_clone()));
                    i += 1;
                }
                proof {
                    lemma_pairs_model_index(out@);
                    lemma_pairs_model_index(pairs@);
                    assert(pairs_model(out@) =~= pairs_model(pairs@));
                }
                JsonValue::Object(out)
            },
        }
    }

    /// The value of the member with the given key, if this value is an
    /// object that has one.
    pub fn get<'a>(&'a self, key: &str) -> (r: Option<&'a JsonValue>)
        ensures
            match self@ {
                JsonModel::Object(members) => match r {
                    Some(v) => spec_obj_lookup(members, key@) == Some(v@),
                    None => spec_obj_lookup(members, key@) is None,
                },
                _ => r is None,
            },
    {
        match self {
            JsonValue::Object(pairs) => {
                proof {
                    lemma_pairs_model_index(pairs@);
                }
                let n = pairs.len();
                let mut i: usize = 0;
                while i < n
                    invariant
                        n == pairs@.len(),
                        i <= n,
                        self@ == JsonModel::Object(pairs_model(pairs@)),
                        pairs_model(pairs@).len() == n,
                        forall|j: int|
                            0 <= j < n ==> #[trigger] pairs_model(pairs@)[j] == (
                                pairs@[j].0@,
                                json_model(pairs@[j].1),
                            ),
                        forall|j: int| 0 <= j < i ==> #[trigger] pairs@[j].0@ != key@,
                    decreases n - i,
                {
                    if crate::classify::str_eq(pairs[i].0.as_str(), key) {
                        proof {
                            lemma_lookup_skip(pairs_model(pairs@), key@, i as int);
                        }
                        return Some(&pairs[i].1);
                    }
                    i += 1;
                }
                proof {
                    lemma_lookup_skip(pairs_model(pairs@), key@, n as int);
                }
                None
            },
            _ => None,
        }
    }
}

/// A structurally equal copy of an object's member list.
pub fn deep_clone_pairs(pairs: &Vec<(String, JsonValue)>) -> (r: Vec<(String, JsonValue)>)
    ensures
        pairs_model(r@) == pairs_model(pairs@),
{
    let mut out: Vec<(String, JsonValue)> = Vec::new();
    let n = pairs.len();
    let mut i: usize = 0;
    while i < n
        invariant
            n == pairs@.len(),
            i <= n,
            out@.len() == i,
            forall|j: int|
                0 <= j < i ==> (#[trigger] out@[j]).0@ == pairs@[j].0@ && json_model(out@[j].1)
                    == json_model(pairs@[j].1),
        decreases n - i,
    {
        let entry = &pairs[i];
        out.push((entry.0.clone(), entry.1.deep_clone()));
        i += 1;
    }
    proof {
        lemma_pairs_model_index(out@);
        lemma_pairs_model_index(pairs@);
        assert(pairs_model(out@) =~= pairs_model(pairs@));
    }
    out
}

/// Inserts a member into an object's member list: the first member with
/// the same key is overwritten in place, a fresh key is appended at the
/// end.
pub fn obj_insert_pairs(pairs: Vec<(String, JsonValue)>, key: String, value: JsonValue) -> (r: Vec<
    (String, JsonValue),
>)
    ensures
        pairs_model(r@) == spec_obj_insert(pairs_model(pairs@), key@, json_model(value)),
    decreases pairs@.len(),
{
    let ghost orig = pairs@;
    let ghost key_view = key@;
    let ghost value_model = json_model(value);
    let mut pairs = pairs;
    if pairs.len() == 0 {
        pairs.push((key, value));
        proof {
            lemma_pairs_model_index(pairs@);
            lemma_pairs_model_index(orig);
            assert(pairs_model(pairs@) =~= spec_obj_insert(
                pairs_model(orig),
                key_view,
                value_model,
            ));
        }
        pairs
    } else {
        let head = pairs.remove(0);
        proof {
            assert(pairs@ =~= orig.drop_first());
            lemma_pairs_model_index(orig);
            lemma_pairs_model_index(orig.drop_first());
            assert(pairs_model(orig).drop_first() =~= pairs_model(orig.drop_first()));
        }
        if crate::classify::str_eq(head.0.as_str(), key.as_str()) {
            let mut r: Vec<(String, JsonValue)> = Vec::new();
            r.push((key, value));
            r.append(&mut pairs);
            proof {
                lemma_pairs_model_index(r@);
                assert(pairs_model(r@) =~= spec_obj_insert(
                    pairs_model(orig),
                    key_view,
                    value_model,
                ));
            }
            r
        } else {
            let rest = obj_insert_pairs(pairs, key, value);
            let ghost rest_view = rest@;
            let ghost head_model = (head.0@, json_model(head.1));
            let mut r: Vec<(String, JsonValue)> = Vec::new();
            r.push(head);
            let mut rest = rest;
            r.append(&mut rest);
            proof {
                lemma_pairs_model_index(r@);
                lemma_pairs_model_index(rest_view);
                assert(pairs_model(r@) =~= spec_obj_insert(
                    pairs_model(orig),
                    key_view,
                    value_model,
                ));
            }
            r
        }
    }
}

/// Whether the keys of an object's member list are pairwise distinct.
pub open spec fn distinct_keys(pairs: Seq<(Seq<char>, JsonModel)>) -> bool {
    forall|i: int, j: int|
        0 <= i < j < pairs.len() ==> #[trigger] pairs[i].0 != #[trigger] pairs[j].0
}

/// A lookup misses exactly when no member has the key.
pub proof fn lemma_obj_lookup_none(pairs: Seq<(Seq<char>, JsonModel)>, key: Seq<char>)
    ensures
        spec_obj_lookup(pairs, key) is None <==> (forall|i: int|
            0 <= i < pairs.len() ==> (#[trigger] pairs[i]).0 != key),
    decreases pairs.len(),
{
    if pairs.len() > 0 {
        lemma_obj_lookup_none(pairs.drop_first(), key);
        assert(forall|i: int|
            0 <= i < pairs.drop_first().len() ==> #[trigger] pairs.drop_first()[i] == pairs[i
                + 1]);
        assert(forall|i: int|
            1 <= i < pairs.len() ==> #[trigger] pairs[i] == pairs.drop_first()[i - 1]);
    }
}

/// Insertion puts the value under its key and leaves every other key's
/// value as it was.
pub proof fn lemma_obj_insert_lookup(
    pairs: Seq<(Seq<char>, JsonModel)>,
    key: Seq<char>,
    value: JsonModel,
    other: Seq<char>,
)
    ensures
        spec_obj_lookup(spec_obj_insert(pairs, key, value), key) == Some(value),
        other != key ==> spec_obj_lookup(spec_obj_insert(pairs, key, value), other)
            == spec_obj_lookup(pairs, other),
    decreases pairs.len(),
{
    reveal_with_fuel(spec_obj_lookup, 3);
    if pairs.len() == 0 {
        let ins = spec_obj_insert(pairs, key, value);
        assert(ins == seq![(key, value)]);
        assert(ins.drop_first() =~= Seq::<(Seq<char>, JsonModel)>::empty());
    } else if pairs[0].0 == key {
        assert((seq![(key, value)] + pairs.drop_first()).drop_first() =~= pairs.drop_first());
    } else {
        lemma_obj_insert_lookup(pairs.drop_first(), key, value, other);
        let ins = seq![pairs[0]] + spec_obj_insert(pairs.drop_first(), key, value);
        assert(ins.drop_first() =~= spec_obj_insert(pairs.drop_first(), key, value));
    }
}

/// Inserting under a key and then inserting under it again leaves only
/// the later value: the member list is as if only the second insertion
/// had happened.
pub proof fn lemma_obj_insert_overwrite(
    pairs: Seq<(Seq<char>, JsonModel)>,
    key: Seq<char>,
    first: JsonModel,
    second: JsonModel,
)
    ensures
        spec_obj_insert(spec_obj_insert(pairs, key, first), key, second) == spec_obj_insert(
            pairs,
            key,
            second,
        ),
    decreases pairs.len(),
{
    if pairs.len() == 0 {
        let once = spec_obj_insert(pairs, key, first);
        assert(once == seq![(key, first)]);
        assert(once[0].0 == key);
        assert(once.drop_first() =~= Seq::<(Seq<char>, JsonModel)>::empty());
        assert(spec_obj_insert(once, key, second) =~= seq![(key, second)]);
    } else if pairs[0].0 == key {
        let once = seq![(key, first)] + pairs.drop_first();
        assert(once[0].0 == key);
        assert(once.drop_first() =~= pairs.drop_first());
        assert(spec_obj_insert(once, key, second) =~= seq![(key, second)] + pairs.drop_first());
    } else {
        lemma_obj_insert_overwrite(pairs.drop_first(), key, first, second);
        let once = seq![pairs[0]] + spec_obj_insert(pairs.drop_first(), key, first);
        assert(once[0] == pairs[0]);
        assert(once.drop_first() =~= spec_obj_insert(pairs.drop_first(), key, first));
        assert(spec_obj_insert(once, key, second) =~= seq![pairs[0]] + spec_obj_insert(
            pairs.drop_first(),
            key,
            second,
        ));
    }
}

/// Insertion keeps the keys of an object's member list distinct.
pub proof fn lemma_obj_insert_distinct(
    pairs: Seq<(Seq<char>, JsonModel)>,
    key: Seq<char>,
    value: JsonModel,
)
    requires
        distinct_keys(pairs),
    ensures
        distinct_keys(spec_obj_insert(pairs, key, value)),
        spec_obj_insert(pairs, key, value).len() <= pairs.len() + 1,
    decreases pairs.len(),
{
    if pairs.len() == 0 {
    } else if pairs[0].0 == key {
        let ins = seq![(key, value)] + pairs.drop_first();
        assert forall|i: int, j: int| 0 <= i < j < ins.len() implies #[trigger] ins[i].0
            != #[trigger] ins[j].0 by {
            assert(pairs[i].0 == ins[i].0 || (i == 0 && pairs[0].0 == ins[0].0));
            assert(ins[j] == pairs[j]);
        }
    } else {
        assert(distinct_keys(pairs.drop_first()));
        lemma_obj_insert_distinct(pairs.drop_first(), key, value);
        lemma_obj_lookup_none(pairs.drop_first(), pairs[0].0);
        let tail = spec_obj_insert(pairs.drop_first(), key, value);
        lemma_obj_insert_lookup(pairs.drop_first(), key, value, pairs[0].0);
        lemma_obj_lookup_none(tail, pairs[0].0);
        let ins = seq![pairs[0]] + tail;
        assert forall|i: int, j: int| 0 <= i < j < ins.len() implies #[trigger] ins[i].0
            != #[trigger] ins[j].0 by {
            if i == 0 {
                assert(tail[j - 1].0 != pairs[0].0);
            }
        }
    }
}

} // verus!
