//! JSON values with an ordered object map.
//!
//! Objects keep their entries sorted by key, so iteration follows key order
//! and the view of a value is canonical: two values have equal views exactly
//! when they serialize to the same JSON text. Integer numbers are viewed by
//! their mathematical value, whichever width holds them.
use vstd::prelude::*;

use crate::text::{lemma_seq_less_asymmetric, lemma_seq_less_irreflexive, lemma_seq_less_total,
    lemma_seq_less_transitive, seq_less, str_eq, str_less};

verus! {

/// A JSON number: a signed or unsigned integer, or a binary64 float held by
/// its IEEE-754 bit pattern.
#[derive(Clone, Copy, Debug, PartialEq, Eq)]
pub enum JsonNumber {
    I64(i64),
    U64(u64),
    F64(u64),
}

#[derive(Debug, PartialEq)]
pub enum JsonValue {
    Null,
    Bool(bool),
    Number(JsonNumber),
    String(String),
    Array(Vec<JsonValue>),
    Object(JsonObject),
}

/// A JSON object: entries kept in strictly increasing key order.
#[derive(Debug, PartialEq)]
pub struct JsonObject {
    entries: Vec<(String, JsonValue)>,
}

/// The mathematical model of a JSON value.
pub enum JsonModel {
    Null,
    Bool(bool),
    Int(int),
    Float(u64),
    Str(Seq<char>),
    Array(Seq<JsonModel>),
    Object(Seq<(Seq<char>, JsonModel)>),
}

pub open spec fn number_model(n: JsonNumber) -> JsonModel {
    match n {
        JsonNumber::I64(i) => JsonModel::Int(i as int),
        JsonNumber::U64(u) => JsonModel::Int(u as int),
        JsonNumber::F64(bits) => JsonModel::Float(bits),
    }
}

pub open spec fn json_model(v: JsonValue) -> JsonModel
    decreases v,
{
    match v {
        JsonValue::Null => JsonModel::Null,
        JsonValue::Bool(b) => JsonModel::Bool(b),
        JsonValue::Number(n) => number_model(n),
        JsonValue::String(s) => JsonModel::Str(s@),
        JsonValue::Array(items) => JsonModel::Array(
            Seq::new(
                items@.len(),
                |i: int|
                    if 0 <= i < items@.len() {
                        proof {
                            vstd::std_specs::vec::axiom_vec_index_decreases(items, i);
                        }
                        json_model(items@[i])
                    } else {
                        JsonModel::Null
                    },
            ),
        ),
        JsonValue::Object(o) => JsonModel::Object(object_model(o)),
    }
}

pub closed spec fn object_model(o: JsonObject) -> Seq<(Seq<char>, JsonModel)>
    decreases o,
{
    Seq::new(
        o.entries@.len(),
        |i: int|
            if 0 <= i < o.entries@.len() {
                proof {
                    vstd::std_specs::vec::axiom_vec_index_decreases(o.entries, i);
                }
                (o.entries@[i].0@, json_model(o.entries@[i].1))
            } else {
                (Seq::empty(), JsonModel::Null)
            },
    )
}

/// The model of a raw entry sequence.
pub closed spec fn entries_model(e: Seq<(String, JsonValue)>) -> Seq<(Seq<char>, JsonModel)> {
    Seq::new(e.len(), |j: int| (e[j].0@, json_model(e[j].1)))
}

proof fn lemma_object_model(o: JsonObject)
    ensures
        object_model(o) == entries_model(o.entries@),
{
    assert(object_model(o) =~= entries_model(o.entries@));
}

/// The view of an array lists the views of its items.
pub proof fn lemma_array_model(items: Vec<JsonValue>)
    ensures
        json_model(JsonValue::Array(items)) is Array,
        json_model(JsonValue::Array(items))->Array_0.len() == items@.len(),
        forall|j: int|
            0 <= j < items@.len() ==> #[trigger] json_model(JsonValue::Array(items))->Array_0[j]
                == json_model(items@[j]),
{
}

/// An array item is smaller than the array.
pub proof fn lemma_array_decreases(v: JsonValue, i: int)
    requires
        v is Array,
        0 <= i < v->Array_0@.len(),
    ensures
        decreases_to!(v => v->Array_0@[i]),
{
    vstd::std_specs::vec::axiom_vec_index_decreases(v->Array_0, i);
}

proof fn lemma_entry_decreases(o: JsonObject, i: int)
    requires
        0 <= i < o.entries@.len(),
    ensures
        decreases_to!(o => o.entries@[i].1),
{
    vstd::std_specs::vec::axiom_vec_index_decreases(o.entries, i);
}

impl View for JsonValue {
    type V = JsonModel;

    open spec fn view(&self) -> JsonModel {
        json_model(*self)
    }
}

impl View for JsonObject {
    type V = Seq<(Seq<char>, JsonModel)>;

    open spec fn view(&self) -> Seq<(Seq<char>, JsonModel)> {
        object_model(*self)
    }
}

/// Keys strictly increase along the entry sequence.
pub open spec fn sorted_keys(e: Seq<(Seq<char>, JsonModel)>) -> bool {
    forall|i: int, j: int| 0 <= i < j < e.len() ==> seq_less(#[trigger] e[i].0, #[trigger] e[j].0)
}

pub open spec fn has_key(e: Seq<(Seq<char>, JsonModel)>, k: Seq<char>) -> bool {
    exists|i: int| 0 <= i < e.len() && #[trigger] e[i].0 == k
}

/// The value stored under `k`, if any.
pub open spec fn lookup(e: Seq<(Seq<char>, JsonModel)>, k: Seq<char>) -> Option<JsonModel> {
    if has_key(e, k) {
        Some(e[choose|i: int| 0 <= i < e.len() && #[trigger] e[i].0 == k].1)
    } else {
        None
    }
}

/// The keys in iteration order.
pub open spec fn key_seq(e: Seq<(Seq<char>, JsonModel)>) -> Seq<Seq<char>> {
    e.map_values(|p: (Seq<char>, JsonModel)| p.0)
}

/// The entries of `e` viewed as a finite map.
pub open spec fn entry_map(e: Seq<(Seq<char>, JsonModel)>) -> Map<Seq<char>, JsonModel> {
    Map::new(|k: Seq<char>| has_key(e, k), |k: Seq<char>| lookup(e, k)->0)
}

/// In a sorted object, the value under the key at position `i` is the
/// value there.
pub proof fn lemma_lookup_at(e: Seq<(Seq<char>, JsonModel)>, i: int)
    requires
        sorted_keys(e),
        0 <= i < e.len(),
    ensures
        has_key(e, e[i].0),
        lookup(e, e[i].0) == Some(e[i].1),
{
    assert(has_key(e, e[i].0));
    let j = choose|j: int| 0 <= j < e.len() && #[trigger] e[j].0 == e[i].0;
    if j != i {
        if j < i {
            assert(seq_less(e[j].0, e[i].0));
        } else {
            assert(seq_less(e[i].0, e[j].0));
        }
        lemma_seq_less_irreflexive(e[i].0);
    }
}

/// Extending a sorted entry prefix by one entry adds exactly that entry.
pub proof fn lemma_entry_map_prefix(e: Seq<(Seq<char>, JsonModel)>, i: int)
    requires
        sorted_keys(e),
        0 <= i < e.len(),
    ensures
        !entry_map(e.subrange(0, i)).contains_key(e[i].0),
        entry_map(e.subrange(0, i + 1)) == entry_map(e.subrange(0, i)).insert(e[i].0, e[i].1),
{
    let p = e.subrange(0, i);
    let q = e.subrange(0, i + 1);
    assert(sorted_keys(p));
    assert(sorted_keys(q));
    if has_key(p, e[i].0) {
        let j = choose|j: int| 0 <= j < p.len() && #[trigger] p[j].0 == e[i].0;
        assert(seq_less(e[j].0, e[i].0));
        lemma_seq_less_irreflexive(e[i].0);
    }
    assert forall|k: Seq<char>| #[trigger] has_key(q, k) == (has_key(p, k) || k == e[i].0) by {
        if has_key(p, k) {
            let j = choose|j: int| 0 <= j < p.len() && #[trigger] p[j].0 == k;
            assert(q[j].0 == k);
        }
        if k == e[i].0 {
            assert(q[i].0 == k);
        }
        if has_key(q, k) {
            let j = choose|j: int| 0 <= j < q.len() && #[trigger] q[j].0 == k;
            if j < i {
                assert(p[j].0 == k);
            }
        }
    }
    assert forall|k: Seq<char>| has_key(q, k) implies #[trigger] lookup(q, k) == if k == e[i].0 {
        Some(e[i].1)
    } else {
        lookup(p, k)
    } by {
        let j = choose|j: int| 0 <= j < q.len() && #[trigger] q[j].0 == k;
        lemma_lookup_at(q, j);
        if j < i {
            lemma_lookup_at(p, j);
        }
    }
    assert(entry_map(q) =~= entry_map(p).insert(e[i].0, e[i].1));
}

impl JsonObject {
    #[verifier::type_invariant]
    spec fn wf(self) -> bool {
        sorted_keys(entries_model(self.entries@))
    }

    pub open spec fn map(&self) -> Map<Seq<char>, JsonModel> {
        entry_map(self@)
    }

    pub fn new() -> (r: Self)
        ensures
            r@ == Seq::<(Seq<char>, JsonModel)>::empty(),
    {
        let r = JsonObject { entries: Vec::new() };
        assert(r@ =~= Seq::<(Seq<char>, JsonModel)>::empty());
        r
    }

    pub fn len(&self) -> (n: usize)
        ensures
            n == self@.len(),
            sorted_keys(self@),
    {
        proof {
            use_type_invariant(self);
            lemma_object_model(*self);
        }
        self.entries.len()
    }

    pub fn is_empty(&self) -> (b: bool)
        ensures
            b == (self@.len() == 0),
    {
        self.entries.len() == 0
    }

    /// The key and value of the `i`-th entry in key order.
    pub fn entry(&self, i: usize) -> (r: (&String, &JsonValue))
        requires
            i < self@.len(),
        ensures
            r.0@ == self@[i as int].0,
            r.1@ == self@[i as int].1,
            decreases_to!(*self => *r.1),
    {
        proof {
            lemma_object_model(*self);
            lemma_entry_decreases(*self, i as int);
        }
        let pair = &self.entries[i];
        (&pair.0, &pair.1)
    }

    /// Position of `key`: `(true, i)` when entry `i` holds it, otherwise
    /// `(false, p)` with `p` the insertion point that keeps keys sorted.
    fn find(&self, key: &str) -> (r: (bool, usize))
        ensures
            r.1 <= self@.len(),
            r.0 ==> r.1 < self@.len() && self@[r.1 as int].0 == key@,
            !r.0 ==> (forall|i: int| 0 <= i < r.1 ==> seq_less(#[trigger] self@[i].0, key@)),
            !r.0 ==> (forall|i: int|
                r.1 <= i < self@.len() ==> seq_less(key@, #[trigger] self@[i].0)),
            r.0 == has_key(self@, key@),
    {
        proof {
            use_type_invariant(self);
            lemma_object_model(*self);
        }
        let mut i: usize = 0;
        while i < self.entries.len() && str_less(self.entries[i].0.as_str(), key)
            invariant
                i <= self@.len(),
                self@.len() == self.entries@.len(),
                sorted_keys(self@),
                forall|j: int| 0 <= j < i ==> seq_less(#[trigger] self@[j].0, key@),
            decreases self.entries.len() - i,
        {
            i = i + 1;
        }
        if i < self.entries.len() && str_eq(self.entries[i].0.as_str(), key) {
            assert(self@[i as int].0 == key@);
            return (true, i);
        }
        proof {
            if i < self@.len() {
                lemma_seq_less_total(key@, self@[i as int].0);
                assert forall|j: int| i <= j < self@.len() implies seq_less(
                    key@,
                    #[trigger] self@[j].0,
                ) by {
                    if j > i {
                        lemma_seq_less_transitive(key@, self@[i as int].0, self@[j].0);
                    }
                }
            }
            if has_key(self@, key@) {
                let j = choose|j: int| 0 <= j < self@.len() && #[trigger] self@[j].0 == key@;
                if j < i {
                    lemma_seq_less_irreflexive(key@);
                } else {
                    lemma_seq_less_irreflexive(key@);
                }
            }
        }
        (false, i)
    }

    /// Whether the object has an entry for `key`.
    pub fn contains_key(&self, key: &str) -> (b: bool)
        ensures
            b == has_key(self@, key@),
    {
        self.find(key).0
    }

    /// The value stored under `key`, if any.
    pub fn get(&self, key: &str) -> (r: Option<&JsonValue>)
        ensures
            r matches Some(v) ==> lookup(self@, key@) == Some(v@),
            r is None ==> lookup(self@, key@) is None,
    {
        proof {
            use_type_invariant(self);
            lemma_object_model(*self);
        }
        let (found, i) = self.find(key);
        if found {
            proof {
                lemma_lookup_at(self@, i as int);
            }
            Some(&self.entries[i].1)
        } else {
            None
        }
    }

    /// Stores `value` under `key`, returning the value it replaced.
    pub fn insert(&mut self, key: String, value: JsonValue) -> (r: Option<JsonValue>)
        ensures
            final(self).map() == old(self).map().insert(key@, value@),
            r matches Some(v) ==> lookup(old(self)@, key@) == Some(v@),
            r is None ==> lookup(old(self)@, key@) is None,
            has_key(old(self)@, key@) ==> final(self)@.len() == old(self)@.len(),
            !has_key(old(self)@, key@) ==> final(self)@.len() == old(self)@.len() + 1,
    {
        proof {
            use_type_invariant(&*self);
            lemma_object_model(*self);
        }
        let ghost old_e = self@;
        let (found, i) = self.find(key.as_str());
        let mut entries: Vec<(String, JsonValue)> = Vec::new();
        std::mem::swap(&mut entries, &mut self.entries);
        let ghost new_key = key@;
        let ghost new_val = value@;
        let result;
        if found {
            proof {
                lemma_lookup_at(old_e, i as int);
            }
            let (_, prior) = entries.remove(i);
            entries.insert(i, (key, value));
            result = Some(prior);
        } else {
            entries.insert(i, (key, value));
            result = None;
        }
        let ghost new_e = entries_model(entries@);
        proof {
            if found {
                assert forall|j: int| 0 <= j < old_e.len() implies #[trigger] new_e[j] == (
                if j == i {
                    (new_key, new_val)
                } else {
                    old_e[j]
                }) by {}
                assert(new_e =~= old_e.update(i as int, (new_key, new_val)));
            } else {
                assert(new_e =~= old_e.insert(i as int, (new_key, new_val)));
            }
            assert(sorted_keys(new_e)) by {
                assert forall|a: int, b: int| 0 <= a < b < new_e.len() implies seq_less(
                    #[trigger] new_e[a].0,
                    #[trigger] new_e[b].0,
                ) by {
                    if !found {
                        if a < i && b > i {
                            lemma_seq_less_transitive(old_e[a].0, new_key, old_e[b - 1].0);
                        }
                        if a < i && b == i {
                        }
                    }
                }
            }
            assert(entry_map(new_e) =~= entry_map(old_e).insert(new_key, new_val)) by {
                assert forall|k: Seq<char>| #[trigger] has_key(new_e, k) == (has_key(old_e, k) || k
                    == new_key) by {
                    if has_key(old_e, k) {
                        let j = choose|j: int| 0 <= j < old_e.len() && #[trigger] old_e[j].0 == k;
                        if found {
                            assert(new_e[j].0 == k);
                        } else if j < i {
                            assert(new_e[j].0 == k);
                        } else {
                            assert(new_e[j + 1].0 == k);
                        }
                    }
                    if k == new_key {
                        assert(new_e[i as int].0 == k);
                    }
                    if has_key(new_e, k) {
                        let j = choose|j: int| 0 <= j < new_e.len() && #[trigger] new_e[j].0 == k;
                        if found {
                            if j != i {
                                assert(old_e[j].0 == k);
                            }
                        } else if j < i {
                            assert(old_e[j].0 == k);
                        } else if j > i {
                            assert(old_e[j - 1].0 == k);
                        }
                    }
                }
                assert forall|k: Seq<char>| has_key(new_e, k) implies #[trigger] lookup(new_e, k)
                    == if k == new_key {
                    Some(new_val)
                } else {
                    lookup(old_e, k)
                } by {
                    let j = choose|j: int| 0 <= j < new_e.len() && #[trigger] new_e[j].0 == k;
                    lemma_lookup_at(new_e, j);
                    if k == new_key {
                        lemma_lookup_at(new_e, i as int);
                    } else {
                        if found {
                            lemma_lookup_at(old_e, j);
                        } else if j < i {
                            lemma_lookup_at(old_e, j);
                        } else {
                            lemma_lookup_at(old_e, j - 1);
                        }
                    }
                }
            }
        }
        self.entries = entries;
        proof {
            lemma_object_model(*self);
        }
        result
    }

    /// Appends an entry whose key comes after the last key present.
    pub fn push_last(&mut self, key: String, value: JsonValue)
        requires
            old(self)@.len() == 0 || seq_less(old(self)@.last().0, key@),
        ensures
            final(self)@ == old(self)@.push((key@, value@)),
    {
        proof {
            use_type_invariant(&*self);
            lemma_object_model(*self);
        }
        let ghost old_e = self@;
        let mut entries: Vec<(String, JsonValue)> = Vec::new();
        std::mem::swap(&mut entries, &mut self.entries);
        let ghost k = key@;
        let ghost m = value@;
        entries.push((key, value));
        proof {
            let new_e = entries_model(entries@);
            assert(new_e =~= old_e.push((k, m)));
            assert forall|a: int, b: int| 0 <= a < b < new_e.len() implies seq_less(
                #[trigger] new_e[a].0,
                #[trigger] new_e[b].0,
            ) by {
                if b == old_e.len() && a < old_e.len() - 1 {
                    lemma_seq_less_transitive(old_e[a].0, old_e.last().0, k);
                }
            }
        }
        self.entries = entries;
        proof {
            lemma_object_model(*self);
        }
    }

    /// Removes the entry for `key`, returning its value.
    pub fn remove(&mut self, key: &str) -> (r: Option<JsonValue>)
        ensures
            final(self).map() == old(self).map().remove(key@),
            r matches Some(v) ==> lookup(old(self)@, key@) == Some(v@),
            r is None ==> lookup(old(self)@, key@) is None,
    {
        proof {
            use_type_invariant(&*self);
            lemma_object_model(*self);
        }
        let ghost old_e = self@;
        let (found, i) = self.find(key);
        if !found {
            assert(old_e =~= self@);
            assert(entry_map(old_e) =~= entry_map(old_e).remove(key@));
            return None;
        }
        proof {
            lemma_lookup_at(old_e, i as int);
        }
        let mut entries: Vec<(String, JsonValue)> = Vec::new();
        std::mem::swap(&mut entries, &mut self.entries);
        let (_, prior) = entries.remove(i);
        let ghost new_e = entries_model(entries@);
        proof {
            assert(new_e =~= old_e.remove(i as int));
            assert(sorted_keys(new_e)) by {
                assert forall|a: int, b: int| 0 <= a < b < new_e.len() implies seq_less(
                    #[trigger] new_e[a].0,
                    #[trigger] new_e[b].0,
                ) by {
                    let oa = if a < i {
                        a
                    } else {
                        a + 1
                    };
                    let ob = if b < i {
                        b
                    } else {
                        b + 1
                    };
                    assert(old_e[oa].0 == new_e[a].0);
                    assert(old_e[ob].0 == new_e[b].0);
                }
            }
            assert(entry_map(new_e) =~= entry_map(old_e).remove(key@)) by {
                assert forall|k: Seq<char>| #[trigger] has_key(new_e, k) == (has_key(old_e, k) && k
                    != key@) by {
                    if has_key(old_e, k) && k != key@ {
                        let j = choose|j: int| 0 <= j < old_e.len() && #[trigger] old_e[j].0 == k;
                        if j < i {
                            assert(new_e[j].0 == k);
                        } else {
                            assert(new_e[j - 1].0 == k);
                        }
                    }
                    if has_key(new_e, k) {
                        let j = choose|j: int| 0 <= j < new_e.len() && #[trigger] new_e[j].0 == k;
                        let oj = if j < i {
                            j
                        } else {
                            j + 1
                        };
                        assert(old_e[oj].0 == k);
                        if k == key@ {
                            assert(oj != i);
                            if oj < i {
                                assert(seq_less(old_e[oj].0, old_e[i as int].0));
                            } else {
                                assert(seq_less(old_e[i as int].0, old_e[oj].0));
                            }
                            lemma_seq_less_irreflexive(k);
                        }
                    }
                }
                assert forall|k: Seq<char>| has_key(new_e, k) implies #[trigger] lookup(new_e, k)
                    == lookup(old_e, k) by {
                    let j = choose|j: int| 0 <= j < new_e.len() && #[trigger] new_e[j].0 == k;
                    lemma_lookup_at(new_e, j);
                    if j < i {
                        lemma_lookup_at(old_e, j);
                    } else {
                        lemma_lookup_at(old_e, j + 1);
                    }
                }
            }
        }
        self.entries = entries;
        proof {
            lemma_object_model(*self);
        }
        Some(prior)
    }

    /// The keys in increasing order.
    pub fn keys(&self) -> (r: Vec<String>)
        ensures
            r@.len() == self@.len(),
            forall|i: int| 0 <= i < r@.len() ==> #[trigger] r@[i]@ == self@[i].0,
    {
        let mut r: Vec<String> = Vec::new();
        let mut i: usize = 0;
        while i < self.entries.len()
            invariant
                i <= self@.len(),
                self@.len() == self.entries@.len(),
                r@.len() == i,
                forall|j: int| 0 <= j < i ==> #[trigger] r@[j]@ == self@[j].0,
            decreases self.entries.len() - i,
        {
            r.push(self.entries[i].0.clone());
            i = i + 1;
        }
        r
    }
}

impl Clone for JsonValue {
    fn clone(&self) -> (r: Self)
        ensures
            r@ == self@,
    {
        clone_value(self)
    }
}

impl Clone for JsonObject {
    fn clone(&self) -> (r: Self)
        ensures
            r@ == self@,
    {
        clone_object(self)
    }
}

/// A copy of a JSON value with the same view.
pub fn clone_value(v: &JsonValue) -> (r: JsonValue)
    ensures
        r@ == v@,
    decreases v,
{
    match v {
        JsonValue::Null => JsonValue::Null,
        JsonValue::Bool(b) => JsonValue::Bool(*b),
        JsonValue::Number(n) => JsonValue::Number(*n),
        JsonValue::String(s) => JsonValue::String(s.clone()),
        JsonValue::Array(items) => {
            let mut out: Vec<JsonValue> = Vec::new();
            let mut i: usize = 0;
            while i < items.len()
                invariant
                    *v == JsonValue::Array(*items),
                    i <= items@.len(),
                    out@.len() == i,
                    forall|j: int| 0 <= j < i ==> #[trigger] json_model(out@[j]) == json_model(
                        items@[j],
                    ),
                decreases items.len() - i,
            {
                proof {
                    lemma_array_decreases(*v, i as int);
                }
                out.push(clone_value(&items[i]));
                i = i + 1;
            }
            proof {
                lemma_array_model(out);
                lemma_array_model(*items);
                assert(json_model(JsonValue::Array(out))->Array_0 =~= json_model(
                    JsonValue::Array(*items),
                )->Array_0);
            }
            JsonValue::Array(out)
        },
        JsonValue::Object(o) => JsonValue::Object(clone_object(o)),
    }
}

/// A copy of a JSON object with the same view.
pub fn clone_object(o: &JsonObject) -> (r: JsonObject)
    ensures
        r@ == o@,
    decreases o,
{
    proof {
        use_type_invariant(o);
        lemma_object_model(*o);
    }
    let mut out: Vec<(String, JsonValue)> = Vec::new();
    let mut i: usize = 0;
    while i < o.entries.len()
        invariant
            i <= o.entries@.len(),
            out@.len() == i,
            forall|j: int|
                0 <= j < i ==> (#[trigger] out@[j]).0@ == o.entries@[j].0@ && json_model(out@[j].1)
                    == json_model(o.entries@[j].1),
        decreases o.entries.len() - i,
    {
        proof {
            lemma_entry_decreases(*o, i as int);
        }
        let k = o.entries[i].0.clone();
        let v = clone_value(&o.entries[i].1);
        out.push((k, v));
        i = i + 1;
    }
    assert(entries_model(out@) =~= entries_model(o.entries@));
    let r = JsonObject { entries: out };
    proof {
        lemma_object_model(r);
    }
    r
}

/// Semantic equality of two JSON values: equal views.
pub fn json_eq(a: &JsonValue, b: &JsonValue) -> (r: bool)
    ensures
        r == (a@ == b@),
    decreases a,
{
    match a {
        JsonValue::Null => b.is_null(),
        JsonValue::Bool(x) => match b {
            JsonValue::Bool(y) => *x == *y,
            _ => false,
        },
        JsonValue::Number(x) => match b {
            JsonValue::Number(y) => number_eq(*x, *y),
            _ => {
                proof {
                    match *x {
                        JsonNumber::I64(_) => {},
                        JsonNumber::U64(_) => {},
                        JsonNumber::F64(_) => {},
                    }
                }
                false
            },
        },
        JsonValue::String(x) => match b {
            JsonValue::String(y) => str_eq(x.as_str(), y.as_str()),
            JsonValue::Number(y) => {
                proof {
                    match *y {
                        JsonNumber::I64(_) => {},
                        JsonNumber::U64(_) => {},
                        JsonNumber::F64(_) => {},
                    }
                }
                false
            },
            _ => false,
        },
        JsonValue::Array(x) => match b {
            JsonValue::Array(y) => {
                proof {
                    lemma_array_model(*x);
                    lemma_array_model(*y);
                }
                if x.len() != y.len() {
                    assert(json_model(JsonValue::Array(*x))->Array_0.len() != json_model(
                        JsonValue::Array(*y),
                    )->Array_0.len());
                    return false;
                }
                let mut i: usize = 0;
                while i < x.len()
                    invariant
                        *a == JsonValue::Array(*x),
                        *b == JsonValue::Array(*y),
                        x@.len() == y@.len(),
                        i <= x@.len(),
                        forall|j: int|
                            0 <= j < i ==> #[trigger] json_model(x@[j]) == json_model(y@[j]),
                    decreases x.len() - i,
                {
                    proof {
                        lemma_array_decreases(*a, i as int);
                    }
                    if !json_eq(&x[i], &y[i]) {
                        proof {
                            lemma_array_model(*x);
                            lemma_array_model(*y);
                            assert(json_model(JsonValue::Array(*x))->Array_0[i as int]
                                != json_model(JsonValue::Array(*y))->Array_0[i as int]);
                        }
                        return false;
                    }
                    i = i + 1;
                }
                proof {
                    assert(json_model(JsonValue::Array(*x))->Array_0 =~= json_model(
                        JsonValue::Array(*y),
                    )->Array_0);
                }
                true
            },
            JsonValue::Number(y) => {
                proof {
                    match *y {
                        JsonNumber::I64(_) => {},
                        JsonNumber::U64(_) => {},
                        JsonNumber::F64(_) => {},
                    }
                }
                false
            },
            _ => false,
        },
        JsonValue::Object(x) => match b {
            JsonValue::Object(y) => object_eq(x, y),
            JsonValue::Number(y) => {
                proof {
                    match *y {
                        JsonNumber::I64(_) => {},
                        JsonNumber::U64(_) => {},
                        JsonNumber::F64(_) => {},
                    }
                }
                false
            },
            _ => false,
        },
    }
}

/// Semantic equality of two JSON objects: equal views.
pub fn object_eq(x: &JsonObject, y: &JsonObject) -> (r: bool)
    ensures
        r == (x@ == y@),
    decreases x,
{
    proof {
        lemma_object_model(*x);
        lemma_object_model(*y);
    }
    if x.entries.len() != y.entries.len() {
        assert(x@.len() != y@.len());
        return false;
    }
    let mut i: usize = 0;
    while i < x.entries.len()
        invariant
            x@ == entries_model(x.entries@),
            y@ == entries_model(y.entries@),
            x.entries@.len() == y.entries@.len(),
            i <= x.entries@.len(),
            forall|j: int| 0 <= j < i ==> #[trigger] x@[j] == y@[j],
        decreases x.entries.len() - i,
    {
        proof {
            lemma_entry_decreases(*x, i as int);
        }
        if !str_eq(x.entries[i].0.as_str(), y.entries[i].0.as_str()) || !json_eq(
            &x.entries[i].1,
            &y.entries[i].1,
        ) {
            assert(x@[i as int] != y@[i as int]);
            return false;
        }
        i = i + 1;
    }
    assert(x@ =~= y@);
    true
}

pub fn number_eq(x: JsonNumber, y: JsonNumber) -> (r: bool)
    ensures
        r == (number_model(x) == number_model(y)),
{
    match (x, y) {
        (JsonNumber::I64(a), JsonNumber::I64(b)) => a == b,
        (JsonNumber::U64(a), JsonNumber::U64(b)) => a == b,
        (JsonNumber::I64(a), JsonNumber::U64(b)) => a >= 0 && (a as u64) == b,
        (JsonNumber::U64(a), JsonNumber::I64(b)) => b >= 0 && (b as u64) == a,
        (JsonNumber::F64(a), JsonNumber::F64(b)) => a == b,
        _ => false,
    }
}

impl JsonValue {
    /// The string payload of a string value.
    pub fn as_str(&self) -> (r: Option<&String>)
        ensures
            r matches Some(s) ==> self@ == JsonModel::Str(s@),
            r is None ==> !(self@ is Str),
    {
        match self {
            JsonValue::String(s) => Some(s),
            _ => None,
        }
    }

    /// The entries of an object value.
    pub fn as_object(&self) -> (r: Option<&JsonObject>)
        ensures
            r matches Some(o) ==> self@ == JsonModel::Object(o@),
            r is None ==> !(self@ is Object),
    {
        match self {
            JsonValue::Object(o) => Some(o),
            _ => None,
        }
    }

    /// The items of an array value.
    pub fn as_array(&self) -> (r: Option<&Vec<JsonValue>>)
        ensures
            r matches Some(items) ==> self@ is Array && self@->Array_0.len() == items@.len() && (
            forall|i: int| 0 <= i < items@.len() ==> #[trigger] self@->Array_0[i] == items@[i]@),
            r is None ==> !(self@ is Array),
    {
        match self {
            JsonValue::Array(items) => Some(items),
            _ => None,
        }
    }

    /// The payload of a boolean value.
    pub fn as_bool(&self) -> (r: Option<bool>)
        ensures
            r matches Some(b) ==> self@ == JsonModel::Bool(b),
            r is None ==> !(self@ is Bool),
    {
        match self {
            JsonValue::Bool(b) => Some(*b),
            _ => None,
        }
    }

    pub fn is_null(&self) -> (r: bool)
        ensures
            r == (self@ is Null),
    {
        match self {
            JsonValue::Null => true,
            _ => false,
        }
    }
}

} // verus!
