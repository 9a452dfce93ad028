//! Property documents: JSON values with a mathematical model.
//!
//! A [`JsonValue`] is what a node or an edge carries as its properties. Its
//! view, a [`JsonModel`], is the value that contracts speak of: two values are
//! equal as documents exactly when their views are equal.

use vstd::prelude::*;
use vstd::std_specs::cmp::PartialEqSpecImpl;
use crate::text::{distinct, owned, position_of, str_eq};

verus! {

/// The mathematical value of a JSON number.
///
/// An integer is kept exactly. Any other number is kept as the bits of its
/// IEEE 754 double, with the two zeros identified.
pub enum NumberModel {
    Int(int),
    Real(u64),
}

/// The mathematical value of a JSON document.
pub enum JsonModel {
    Null,
    Bool(bool),
    Number(NumberModel),
    String(Seq<char>),
    Array(Seq<JsonModel>),
    Object(Map<Seq<char>, JsonModel>),
}

/// A JSON number.
#[derive(Clone, Copy, Debug)]
pub enum JsonNumber {
    /// A non-negative integer.
    PosInt(u64),
    /// A negative integer.
    NegInt(i64),
    /// Any other number, as the bits of an IEEE 754 double.
    Real(u64),
}

/// The bits of the double `-0.0`.
pub const NEGATIVE_ZERO_BITS: u64 = 0x8000_0000_0000_0000;

impl View for JsonNumber {
    type V = NumberModel;

    open spec fn view(&self) -> NumberModel {
        match *self {
            JsonNumber::PosInt(u) => NumberModel::Int(u as int),
            JsonNumber::NegInt(i) => NumberModel::Int(i as int),
            JsonNumber::Real(bits) => NumberModel::Real(
                if bits == NEGATIVE_ZERO_BITS {
                    0
                } else {
                    bits
                },
            ),
        }
    }
}

impl JsonNumber {
    /// Whether two numbers are the same number: integers by value, the others
    /// by their bits, with `0.0` equal to `-0.0`. An integer never equals a
    /// number that is kept as a double.
    pub fn equals(&self, other: &JsonNumber) -> (r: bool)
        ensures
            r == (self@ == other@),
    {
        match (*self, *other) {
            (JsonNumber::PosInt(a), JsonNumber::PosInt(b)) => a == b,
            (JsonNumber::NegInt(a), JsonNumber::NegInt(b)) => a == b,
            (JsonNumber::PosInt(a), JsonNumber::NegInt(b)) => b >= 0 && a == b as u64,
            (JsonNumber::NegInt(a), JsonNumber::PosInt(b)) => a >= 0 && a as u64 == b,
            (JsonNumber::Real(a), JsonNumber::Real(b)) => {
                let x: u64 = if a == NEGATIVE_ZERO_BITS { 0 } else { a };
                let y: u64 = if b == NEGATIVE_ZERO_BITS { 0 } else { b };
                x == y
            },
            _ => false,
        }
    }
}

/// A JSON object: keys with their values.
#[derive(Debug)]
pub struct JsonObject {
    entries: Vec<(String, JsonValue)>,
}

/// A JSON document.
#[derive(Debug)]
pub enum JsonValue {
    Null,
    Bool(bool),
    Number(JsonNumber),
    String(String),
    Array(Vec<JsonValue>),
    Object(JsonObject),
}

impl JsonObject {
    /// The entries of the object, in the order in which they are kept.
    pub closed spec fn entries_spec(self) -> Seq<(String, JsonValue)> {
        self.entries@
    }

    /// No key occurs twice among the entries.
    #[verifier::type_invariant]
    spec fn keys_distinct(self) -> bool {
        distinct(entry_keys(self.entries@))
    }
}

/// The keys of a list of entries, in order.
pub open spec fn entry_keys(entries: Seq<(String, JsonValue)>) -> Seq<Seq<char>> {
    Seq::new(entries.len(), |i: int| entries[i].0@)
}

/// The object that a list of entries stands for.
pub open spec fn entries_model(entries: Seq<(String, JsonValue)>) -> Map<Seq<char>, JsonModel>
    decreases entries, 0nat,
{
    Map::new(
        |key: Seq<char>| entry_keys(entries).contains(key),
        |key: Seq<char>|
            {
                let i = position_of(entry_keys(entries), key);
                if 0 <= i < entries.len() {
                    value_model(entries[i].1)
                } else {
                    JsonModel::Null
                }
            },
    )
}

/// The document that a value stands for.
pub open spec fn value_model(v: JsonValue) -> JsonModel
    decreases v, 1nat,
{
    match v {
        JsonValue::Null => JsonModel::Null,
        JsonValue::Bool(b) => JsonModel::Bool(b),
        JsonValue::Number(n) => JsonModel::Number(n@),
        JsonValue::String(s) => JsonModel::String(s@),
        JsonValue::Array(items) => JsonModel::Array(array_model(items@)),
        JsonValue::Object(o) => JsonModel::Object(entries_model(o.entries_spec())),
    }
}

/// The documents that a list of values stands for, in order.
pub open spec fn array_model(items: Seq<JsonValue>) -> Seq<JsonModel>
    decreases items, 0nat,
{
    Seq::new(
        items.len(),
        |i: int|
            if 0 <= i < items.len() {
                value_model(items[i])
            } else {
                JsonModel::Null
            },
    )
}

impl View for JsonValue {
    type V = JsonModel;

    open spec fn view(&self) -> JsonModel {
        value_model(*self)
    }
}

impl View for JsonObject {
    type V = Map<Seq<char>, JsonModel>;

    open spec fn view(&self) -> Map<Seq<char>, JsonModel> {
        entries_model(self.entries_spec())
    }
}

/// What the model of a list of entries with distinct keys holds at each entry's key.
proof fn lemma_entry(entries: Seq<(String, JsonValue)>, i: int)
    requires
        distinct(entry_keys(entries)),
        0 <= i < entries.len(),
    ensures
        entries_model(entries).contains_key(entries[i].0@),
        entries_model(entries)[entries[i].0@] == entries[i].1@,
{
    let keys = entry_keys(entries);
    assert(keys[i] == entries[i].0@);
    crate::text::lemma_position_of(keys, i);
}

impl JsonObject {
    /// The object without keys.
    pub fn new() -> (r: JsonObject)
        ensures
            r@ == Map::<Seq<char>, JsonModel>::empty(),
    {
        let r = JsonObject { entries: Vec::new() };
        assert(r@ =~= Map::<Seq<char>, JsonModel>::empty()) by {
            assert forall|key: Seq<char>| !entry_keys(r.entries@).contains(key) by {}
        }
        r
    }

    /// Where `key` stands among the entries.
    fn find(&self, key: &str) -> (r: Option<usize>)
        ensures
            match r {
                Some(i) => i < self.entries@.len() && self.entries@[i as int].0@ == key@,
                None => !entry_keys(self.entries@).contains(key@),
            },
    {
        let mut i: usize = 0;
        while i < self.entries.len()
            invariant
                i <= self.entries@.len(),
                forall|j: int| 0 <= j < i ==> self.entries@[j].0@ != key@,
            decreases self.entries@.len() - i,
        {
            if str_eq(self.entries[i].0.as_str(), key) {
                return Some(i);
            }
            i += 1;
        }
        assert forall|j: int| 0 <= j < entry_keys(self.entries@).len() implies entry_keys(
            self.entries@,
        )[j] != key@ by {}
        None
    }

    /// Whether the object has the key.
    pub fn contains_key(&self, key: &str) -> (r: bool)
        ensures
            r == self@.contains_key(key@),
    {
        match self.find(key) {
            Some(i) => {
                assert(entry_keys(self.entries@)[i as int] == key@);
                true
            },
            None => false,
        }
    }

    /// The value at `key`, if the object has the key.
    pub fn get(&self, key: &str) -> (r: Option<&JsonValue>)
        ensures
            match r {
                Some(v) => self@.contains_key(key@) && v@ == self@[key@],
                None => !self@.contains_key(key@),
            },
    {
        proof {
            use_type_invariant(self);
        }
        match self.find(key) {
            Some(i) => {
                proof {
                    lemma_entry(self.entries@, i as int);
                }
                Some(&self.entries[i].1)
            },
            None => None,
        }
    }
}

impl JsonObject {
    /// Sets the value at `key`, adding the key if the object lacks it.
    pub fn insert(&mut self, key: String, value: JsonValue)
        ensures
            final(self)@ == old(self)@.insert(key@, value@),
    {
        proof {
            use_type_invariant(&*self);
        }
        let ghost before = self.entries@;
        let ghost k = key@;
        let ghost v = value@;
        let found = self.find(key.as_str());
        let mut entries: Vec<(String, JsonValue)> = Vec::new();
        core::mem::swap(&mut self.entries, &mut entries);
        match found {
            Some(i) => {
                entries.set(i, (key, value));
                proof {
                    let after = entries@;
                    assert(entry_keys(after) =~= entry_keys(before));
                    assert forall|q: Seq<char>| #[trigger]
                        entries_model(before).insert(k, v).contains_key(q) implies entries_model(
                        after,
                    ).contains_key(q) && entries_model(after)[q] == entries_model(before).insert(
                        k,
                        v,
                    )[q] by {
                        if q == k {
                            assert(entry_keys(after)[i as int] == k);
                            lemma_entry(after, i as int);
                        } else {
                            let j = choose|j: int|
                                0 <= j < entry_keys(before).len() && entry_keys(before)[j] == q;
                            lemma_entry(before, j);
                            lemma_entry(after, j);
                        }
                    }
                    assert(entries_model(after) =~= entries_model(before).insert(k, v));
                }
            },
            None => {
                entries.push((key, value));
                proof {
                    let after = entries@;
                    let n = before.len() as int;
                    assert forall|j: int| 0 <= j < n implies entry_keys(after)[j] == entry_keys(
                        before,
                    )[j] by {}
                    assert(entry_keys(after)[n] == k);
                    assert(distinct(entry_keys(after)));
                    assert forall|q: Seq<char>| #[trigger]
                        entries_model(before).insert(k, v).contains_key(q) implies entries_model(
                        after,
                    ).contains_key(q) && entries_model(after)[q] == entries_model(before).insert(
                        k,
                        v,
                    )[q] by {
                        if q == k {
                            lemma_entry(after, n);
                        } else {
                            let j = choose|j: int|
                                0 <= j < entry_keys(before).len() && entry_keys(before)[j] == q;
                            assert(entry_keys(after)[j] == q);
                            lemma_entry(before, j);
                            lemma_entry(after, j);
                        }
                    }
                    assert forall|q: Seq<char>| #[trigger]
                        entries_model(after).contains_key(q) implies entries_model(before).insert(
                        k,
                        v,
                    ).contains_key(q) by {
                        let j = choose|j: int|
                            0 <= j < entry_keys(after).len() && entry_keys(after)[j] == q;
                        if j < n {
                            assert(entry_keys(before)[j] == q);
                        }
                    }
                    assert(entries_model(after) =~= entries_model(before).insert(k, v));
                }
            },
        }
        self.entries = entries;
    }
}

/// Two lists of entries with the same keys and the same documents, place by
/// place, stand for the same object.
proof fn lemma_same_entries(a: Seq<(String, JsonValue)>, b: Seq<(String, JsonValue)>)
    requires
        a.len() == b.len(),
        forall|i: int| 0 <= i < a.len() ==> a[i].0@ == b[i].0@ && a[i].1@ == b[i].1@,
    ensures
        entry_keys(a) == entry_keys(b),
        entries_model(a) == entries_model(b),
{
    assert(entry_keys(a) =~= entry_keys(b));
    assert(entries_model(a) =~= entries_model(b));
}

impl Clone for JsonObject {
    /// A copy that stands for the same object.
    fn clone(&self) -> (r: JsonObject)
        ensures
            r@ == self@,
        decreases self,
    {
        proof {
            use_type_invariant(self);
        }
        let mut entries: Vec<(String, JsonValue)> = Vec::new();
        let mut i: usize = 0;
        while i < self.entries.len()
            invariant
                i <= self.entries@.len(),
                entries@.len() == i,
                forall|j: int|
                    0 <= j < i ==> entries@[j].0@ == self.entries@[j].0@ && entries@[j].1@
                        == self.entries@[j].1@,
            decreases self.entries@.len() - i,
        {
            let key = self.entries[i].0.clone();
            let value = self.entries[i].1.clone();
            entries.push((key, value));
            i += 1;
        }
        proof {
            lemma_same_entries(entries@, self.entries@);
        }
        JsonObject { entries }
    }
}

impl Clone for JsonValue {
    /// A copy that stands for the same document.
    fn clone(&self) -> (r: JsonValue)
        ensures
            r@ == self@,
        decreases self,
    {
        match self {
            JsonValue::Null => JsonValue::Null,
            JsonValue::Bool(b) => JsonValue::Bool(*b),
            JsonValue::Number(n) => JsonValue::Number(*n),
            JsonValue::String(s) => JsonValue::String(s.clone()),
            JsonValue::Array(items) => {
                let mut copies: Vec<JsonValue> = Vec::new();
                let mut i: usize = 0;
                while i < items.len()
                    invariant
                        *self is Array,
                        *items == self->Array_0,
                        i <= items@.len(),
                        copies@.len() == i,
                        forall|j: int| 0 <= j < i ==> copies@[j]@ == items@[j]@,
                    decreases items@.len() - i,
                {
                    let item = items[i].clone();
                    copies.push(item);
                    i += 1;
                }
                assert(array_model(copies@) =~= array_model(items@));
                JsonValue::Array(copies)
            },
            JsonValue::Object(o) => JsonValue::Object(o.clone()),
        }
    }
}

impl JsonObject {
    /// Whether every key of `self` is a key of `other` with an equal document.
    fn within(&self, other: &JsonObject) -> (r: bool)
        ensures
            r == (forall|key: Seq<char>| #[trigger]
                self@.contains_key(key) ==> other@.contains_key(key) && self@[key] == other@[key]),
        decreases self, 0nat,
    {
        proof {
            use_type_invariant(self);
        }
        let mut i: usize = 0;
        while i < self.entries.len()
            invariant
                i <= self.entries@.len(),
                distinct(entry_keys(self.entries@)),
                forall|j: int|
                    0 <= j < i ==> other@.contains_key(#[trigger] self.entries@[j].0@)
                        && self.entries@[j].1@ == other@[self.entries@[j].0@],
            decreases self.entries@.len() - i,
        {
            let ghost key = self.entries@[i as int].0@;
            proof {
                lemma_entry(self.entries@, i as int);
            }
            match other.get(self.entries[i].0.as_str()) {
                Some(theirs) => {
                    if !self.entries[i].1.equals(theirs) {
                        assert(self@.contains_key(key) && self@[key] != other@[key]);
                        return false;
                    }
                },
                None => {
                    assert(self@.contains_key(key) && !other@.contains_key(key));
                    return false;
                },
            }
            i += 1;
        }
        proof {
            assert forall|key: Seq<char>| #[trigger] self@.contains_key(key) implies other@.contains_key(
                key,
            ) && self@[key] == other@[key] by {
                let j = choose|j: int|
                    0 <= j < entry_keys(self.entries@).len() && entry_keys(self.entries@)[j] == key;
                assert(self.entries@[j].0@ == key);
                lemma_entry(self.entries@, j);
            }
        }
        true
    }

    /// Whether every key of `self` is a key of `other`.
    fn keys_within(&self, other: &JsonObject) -> (r: bool)
        ensures
            r == (forall|key: Seq<char>| #[trigger]
                self@.contains_key(key) ==> other@.contains_key(key)),
    {
        let mut i: usize = 0;
        while i < self.entries.len()
            invariant
                i <= self.entries@.len(),
                forall|j: int| 0 <= j < i ==> other@.contains_key(#[trigger] self.entries@[j].0@),
            decreases self.entries@.len() - i,
        {
            if !other.contains_key(self.entries[i].0.as_str()) {
                assert(entry_keys(self.entries@)[i as int] == self.entries@[i as int].0@);
                assert(self@.contains_key(self.entries@[i as int].0@));
                return false;
            }
            i += 1;
        }
        proof {
            assert forall|key: Seq<char>| #[trigger] self@.contains_key(key) implies other@.contains_key(
                key,
            ) by {
                let j = choose|j: int|
                    0 <= j < entry_keys(self.entries@).len() && entry_keys(self.entries@)[j] == key;
                assert(self.entries@[j].0@ == key);
            }
        }
        true
    }

    /// Whether two objects have the same keys with equal documents, whatever
    /// the order in which they were filled.
    pub fn equals(&self, other: &JsonObject) -> (r: bool)
        ensures
            r == (self@ == other@),
        decreases self, 1nat,
    {
        let r = self.within(other) && other.keys_within(self);
        proof {
            if r {
                assert(self@ =~= other@);
            }
        }
        r
    }
}

impl JsonValue {
    /// Whether two values are the same document: numbers by
    /// [`JsonNumber::equals`], arrays place by place, objects key by key.
    pub fn equals(&self, other: &JsonValue) -> (r: bool)
        ensures
            r == (self@ == other@),
        decreases self, 2nat,
    {
        match (self, other) {
            (JsonValue::Null, JsonValue::Null) => true,
            (JsonValue::Bool(a), JsonValue::Bool(b)) => *a == *b,
            (JsonValue::Number(a), JsonValue::Number(b)) => a.equals(b),
            (JsonValue::String(a), JsonValue::String(b)) => str_eq(a.as_str(), b.as_str()),
            (JsonValue::Array(a), JsonValue::Array(b)) => {
                if a.len() != b.len() {
                    assert(array_model(a@).len() != array_model(b@).len());
                    return false;
                }
                let mut i: usize = 0;
                while i < a.len()
                    invariant
                        *self is Array,
                        *a == self->Array_0,
                        *other is Array,
                        *b == other->Array_0,
                        a@.len() == b@.len(),
                        i <= a@.len(),
                        forall|j: int| 0 <= j < i ==> a@[j]@ == b@[j]@,
                    decreases a@.len() - i,
                {
                    if !a[i].equals(&b[i]) {
                        assert(array_model(a@)[i as int] != array_model(b@)[i as int]);
                        return false;
                    }
                    i += 1;
                }
                assert(array_model(a@) =~= array_model(b@));
                true
            },
            (JsonValue::Object(a), JsonValue::Object(b)) => a.equals(b),
            _ => false,
        }
    }
}

impl JsonObject {
    /// Shallow merge: every key of `patch` is set in `self` to a copy of the
    /// patch's value; the other keys of `self` stay as they are.
    pub fn merge(&mut self, patch: &JsonObject)
        ensures
            final(self)@ == old(self)@.union_prefer_right(patch@),
    {
        proof {
            use_type_invariant(patch);
        }
        let ghost before = self@;
        let mut i: usize = 0;
        while i < patch.entries.len()
            invariant
                i <= patch.entries@.len(),
                distinct(entry_keys(patch.entries@)),
                forall|key: Seq<char>| #[trigger]
                    self@.contains_key(key) <==> before.contains_key(key) || exists|j: int|
                        0 <= j < i && patch.entries@[j].0@ == key,
                forall|j: int|
                    0 <= j < i ==> self@[#[trigger] patch.entries@[j].0@] == patch.entries@[j].1@,
                forall|key: Seq<char>|
                    (forall|j: int| 0 <= j < i ==> patch.entries@[j].0@ != key) ==> #[trigger]
                    self@[key] == before[key],
            decreases patch.entries@.len() - i,
        {
            let ghost prev = self@;
            let key = patch.entries[i].0.clone();
            let value = patch.entries[i].1.clone();
            self.insert(key, value);
            proof {
                let k = patch.entries@[i as int].0@;
                assert(self@ == prev.insert(k, patch.entries@[i as int].1@));
                assert forall|j: int| 0 <= j < i + 1 implies self@[#[trigger] patch.entries@[j].0@]
                    == patch.entries@[j].1@ by {
                    if j < i {
                        assert(entry_keys(patch.entries@)[j] != entry_keys(patch.entries@)[i as int]);
                    }
                }
            }
            i += 1;
        }
        proof {
            let after = self@;
            let merged = before.union_prefer_right(patch@);
            assert forall|key: Seq<char>| #[trigger] patch@.contains_key(key) implies (exists|
                j: int,
            |
                0 <= j < patch.entries@.len() && patch.entries@[j].0@ == key && patch@[key]
                    == patch.entries@[j].1@) by {
                let j = choose|j: int|
                    0 <= j < entry_keys(patch.entries@).len() && entry_keys(patch.entries@)[j]
                        == key;
                assert(patch.entries@[j].0@ == key);
                lemma_entry(patch.entries@, j);
            }
            assert forall|key: Seq<char>| after.contains_key(key) == merged.contains_key(key) by {
                if exists|j: int| 0 <= j < patch.entries@.len() && patch.entries@[j].0@ == key {
                    let j = choose|j: int|
                        0 <= j < patch.entries@.len() && patch.entries@[j].0@ == key;
                    assert(entry_keys(patch.entries@)[j] == key);
                }
            }
            assert forall|key: Seq<char>| after.contains_key(key) implies after[key] == merged[key] by {
                if patch@.contains_key(key) {
                    let j = choose|j: int|
                        0 <= j < patch.entries@.len() && patch.entries@[j].0@ == key && patch@[key]
                            == patch.entries@[j].1@;
                    assert(after[patch.entries@[j].0@] == patch.entries@[j].1@);
                } else {
                    assert forall|j: int| 0 <= j < patch.entries@.len() implies patch.entries@[j].0@
                        != key by {
                        assert(entry_keys(patch.entries@)[j] == patch.entries@[j].0@);
                    }
                }
            }
            assert(after =~= merged);
        }
    }

    /// The keys of the object, each once.
    pub fn keys(&self) -> (r: Vec<String>)
        ensures
            distinct(Seq::new(r@.len(), |i: int| r@[i]@)),
            forall|key: Seq<char>|
                self@.contains_key(key) <==> exists|i: int| 0 <= i < r@.len() && r@[i]@ == key,
    {
        proof {
            use_type_invariant(self);
        }
        let mut keys: Vec<String> = Vec::new();
        let mut i: usize = 0;
        while i < self.entries.len()
            invariant
                i <= self.entries@.len(),
                keys@.len() == i,
                forall|j: int| 0 <= j < i ==> keys@[j]@ == self.entries@[j].0@,
            decreases self.entries@.len() - i,
        {
            keys.push(self.entries[i].0.clone());
            i += 1;
        }
        proof {
            assert(Seq::new(keys@.len(), |i: int| keys@[i]@) =~= entry_keys(self.entries@));
            assert forall|key: Seq<char>| self@.contains_key(key) implies exists|i: int|
                0 <= i < keys@.len() && keys@[i]@ == key by {
                let j = choose|j: int|
                    0 <= j < entry_keys(self.entries@).len() && entry_keys(self.entries@)[j] == key;
                assert(keys@[j]@ == key);
            }
            assert forall|key: Seq<char>|
                (exists|i: int| 0 <= i < keys@.len() && keys@[i]@ == key) implies self@.contains_key(
                key,
            ) by {
                let j = choose|i: int| 0 <= i < keys@.len() && keys@[i]@ == key;
                assert(entry_keys(self.entries@)[j] == key);
            }
        }
        keys
    }

    /// The number of keys.
    pub fn len(&self) -> (r: usize)
        ensures
            r == self@.dom().len(),
            self@.dom().finite(),
    {
        proof {
            use_type_invariant(self);
            lemma_key_count(self.entries@);
        }
        self.entries.len()
    }
}

/// A list of entries with distinct keys stands for an object with as many keys
/// as the list has entries.
proof fn lemma_key_count(entries: Seq<(String, JsonValue)>)
    requires
        distinct(entry_keys(entries)),
    ensures
        entries_model(entries).dom().finite(),
        entries_model(entries).dom().len() == entries.len(),
    decreases entries.len(),
{
    let dom = entries_model(entries).dom();
    if entries.len() == 0 {
        assert(dom =~= Set::<Seq<char>>::empty());
    } else {
        let rest = entries.drop_last();
        let last = entries.last().0@;
        assert forall|i: int, j: int| 0 <= i < j < entry_keys(rest).len() implies entry_keys(
            rest,
        )[i] != entry_keys(rest)[j] by {
            assert(entry_keys(entries)[i] != entry_keys(entries)[j]);
        }
        lemma_key_count(rest);
        let smaller = entries_model(rest).dom();
        assert(!smaller.contains(last)) by {
            if smaller.contains(last) {
                let j = choose|j: int| 0 <= j < entry_keys(rest).len() && entry_keys(rest)[j] == last;
                assert(entry_keys(entries)[j] != entry_keys(entries)[entries.len() - 1]);
            }
        }
        assert(dom =~= smaller.insert(last)) by {
            assert forall|key: Seq<char>| dom.contains(key) implies smaller.insert(last).contains(
                key,
            ) by {
                let j = choose|j: int|
                    0 <= j < entry_keys(entries).len() && entry_keys(entries)[j] == key;
                if j < rest.len() {
                    assert(entry_keys(rest)[j] == key);
                }
            }
            assert forall|key: Seq<char>| smaller.insert(last).contains(key) implies dom.contains(
                key,
            ) by {
                if key == last {
                    assert(entry_keys(entries)[entries.len() - 1] == key);
                } else {
                    let j = choose|j: int|
                        0 <= j < entry_keys(rest).len() && entry_keys(rest)[j] == key;
                    assert(entry_keys(entries)[j] == key);
                }
            }
        }
    }
}

impl JsonModel {
    /// The document at `key`, where `self` is an object with that key.
    pub open spec fn field(self, key: Seq<char>) -> Option<JsonModel> {
        match self {
            JsonModel::Object(fields) => if fields.contains_key(key) {
                Some(fields[key])
            } else {
                None
            },
            _ => None,
        }
    }
}

impl JsonValue {
    /// The string document with the characters of `s`.
    pub fn string(s: &str) -> (r: JsonValue)
        ensures
            r@ == JsonModel::String(s@),
    {
        JsonValue::String(owned(s))
    }

    /// The number document for a non-negative integer.
    pub fn unsigned(n: u64) -> (r: JsonValue)
        ensures
            r@ == JsonModel::Number(NumberModel::Int(n as int)),
    {
        JsonValue::Number(JsonNumber::PosInt(n))
    }

    /// The number document for an integer.
    pub fn signed(n: i64) -> (r: JsonValue)
        ensures
            r@ == JsonModel::Number(NumberModel::Int(n as int)),
    {
        if n >= 0 {
            JsonValue::Number(JsonNumber::PosInt(n as u64))
        } else {
            JsonValue::Number(JsonNumber::NegInt(n))
        }
    }

    /// The object inside, if the value is an object.
    pub fn as_object(&self) -> (r: Option<&JsonObject>)
        ensures
            match r {
                Some(o) => self@ == JsonModel::Object(o@),
                None => !(self@ is Object),
            },
    {
        match self {
            JsonValue::Object(o) => Some(o),
            _ => None,
        }
    }

    /// The characters inside, if the value is a string.
    pub fn as_str(&self) -> (r: Option<&str>)
        ensures
            match r {
                Some(s) => self@ == JsonModel::String(s@),
                None => !(self@ is String),
            },
    {
        match self {
            JsonValue::String(s) => Some(s.as_str()),
            _ => None,
        }
    }

    /// The items inside, if the value is an array.
    pub fn as_array(&self) -> (r: Option<&Vec<JsonValue>>)
        ensures
            match r {
                Some(items) => self@ == JsonModel::Array(array_model(items@)),
                None => !(self@ is Array),
            },
    {
        match self {
            JsonValue::Array(items) => Some(items),
            _ => None,
        }
    }

    /// The document at `key`: present only where the value is an object that
    /// has the key.
    pub fn get(&self, key: &str) -> (r: Option<&JsonValue>)
        ensures
            match r {
                Some(v) => self@.field(key@) == Some(v@),
                None => self@.field(key@) is None,
            },
    {
        match self {
            JsonValue::Object(o) => o.get(key),
            _ => None,
        }
    }
}

impl PartialEq for JsonNumber {
    fn eq(&self, other: &JsonNumber) -> (r: bool) {
        self.equals(other)
    }
}

impl PartialEqSpecImpl for JsonNumber {
    open spec fn obeys_eq_spec() -> bool {
        true
    }

    open spec fn eq_spec(&self, other: &JsonNumber) -> bool {
        self@ == other@
    }
}

impl PartialEq for JsonObject {
    fn eq(&self, other: &JsonObject) -> (r: bool) {
        self.equals(other)
    }
}

impl PartialEqSpecImpl for JsonObject {
    open spec fn obeys_eq_spec() -> bool {
        true
    }

    open spec fn eq_spec(&self, other: &JsonObject) -> bool {
        self@ == other@
    }
}

impl PartialEq for JsonValue {
    fn eq(&self, other: &JsonValue) -> (r: bool) {
        self.equals(other)
    }
}

impl PartialEqSpecImpl for JsonValue {
    open spec fn obeys_eq_spec() -> bool {
        true
    }

    open spec fn eq_spec(&self, other: &JsonValue) -> bool {
        self@ == other@
    }
}

/// `serde_json::Value`, which the parser hands back.
#[verifier::external_type_specification]
#[verifier::external_body]
pub struct ExSerdeValue(serde_json::Value);

/// `serde_json::Number`, the number inside a `serde_json::Value`.
#[verifier::external_type_specification]
#[verifier::external_body]
pub struct ExSerdeNumber(serde_json::Number);

/// The document that `serde_json::from_str` reads from a text, or `None` where
/// it rejects the text.
pub uninterp spec fn parsed(text: Seq<char>) -> Option<JsonModel>;

/// Turns a `serde_json::Number` into a [`JsonNumber`], through `as_u64`,
/// `as_i64` and `as_f64`: an integer that fits `u64`, else one that fits
/// `i64`, else the bits of the double. Nothing is assumed of the result.
#[verifier::external_body]
fn number_from_serde(n: &serde_json::Number) -> JsonNumber {
    if let Some(u) = n.as_u64() {
        JsonNumber::PosInt(u)
    } else if let Some(i) = n.as_i64() {
        JsonNumber::NegInt(i)
    } else {
        JsonNumber::Real(n.as_f64().map_or(0, |x| x.to_bits()))
    }
}

/// Turns a `serde_json::Value` into a [`JsonValue`], variant by variant and
/// item by item. The entries of an object are those of the `serde_json::Map`,
/// which holds no key twice. Nothing is assumed of the result.
#[verifier::external_body]
fn value_from_serde(v: serde_json::Value) -> JsonValue {
    match v {
        serde_json::Value::Null => JsonValue::Null,
        serde_json::Value::Bool(b) => JsonValue::Bool(b),
        serde_json::Value::Number(n) => JsonValue::Number(number_from_serde(&n)),
        serde_json::Value::String(s) => JsonValue::String(s),
        serde_json::Value::Array(a) => JsonValue::Array(a.into_iter().map(value_from_serde).collect()),
        serde_json::Value::Object(m) => JsonValue::Object(
            JsonObject { entries: m.into_iter().map(|(k, x)| (k, value_from_serde(x))).collect() },
        ),
    }
}

/// Wraps `serde_json::from_str` at the type `serde_json::Value`. Assumed: the
/// outcome depends on the characters of `text` alone, so that the document
/// read has a name, [`parsed`]. What JSON is, is not restated here.
#[verifier::external_body]
pub(crate) fn parse_text(text: &str) -> (r: Option<JsonValue>)
    ensures
        match r {
            Some(v) => parsed(text@) == Some(v@),
            None => parsed(text@) is None,
        },
{
    match serde_json::from_str::<serde_json::Value>(text) {
        Ok(v) => Some(value_from_serde(v)),
        Err(_) => None,
    }
}

impl JsonValue {
    /// Reads a JSON text. `None` where the text is not one JSON document.
    pub fn parse(text: &str) -> (r: Option<JsonValue>)
        ensures
            match r {
                Some(v) => parsed(text@) == Some(v@),
                None => parsed(text@) is None,
            },
    {
        parse_text(text)
    }
}

/// The document that an optional value stands for.
pub open spec fn optional_model(value: Option<JsonValue>) -> Option<JsonModel> {
    match value {
        Some(v) => Some(v@),
        None => None,
    }
}

/// A copy of an optional value.
pub(crate) fn clone_optional(value: &Option<JsonValue>) -> (r: Option<JsonValue>)
    ensures
        optional_model(r) == optional_model(*value),
{
    match value {
        Some(v) => Some(v.clone()),
        None => None,
    }
}

} // verus!
