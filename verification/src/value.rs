//! The in-memory value model.
//!
//! Every value is reached through a reference-counted handle, so that a
//! singleton or an interned key can be shared by any number of containers.

use std::rc::Rc;
use vstd::prelude::*;
use vstd::string::StringSliceAdditionalSpecFns;

verus! {

/// A shared handle on a value.
pub type Handle = Rc<Value>;

/// An object member name. Two keys are equal when their text is equal,
/// whether or not they share one allocation.
#[derive(Debug, Clone, PartialEq)]
pub struct Key {
    pub text: Rc<String>,
}

impl View for Key {
    type V = Seq<char>;

    open spec fn view(&self) -> Seq<char> {
        self.text@
    }
}

/// An insertion-ordered list of members with distinct keys.
#[derive(Debug, PartialEq)]
pub struct Mapping {
    entries: Vec<(Key, Handle)>,
}

/// A JSON value. `Float64` carries the IEEE-754 binary64 bit pattern, and
/// `BigInt` the sign and decimal digits of an integer beyond 128 bits.
#[derive(Debug, Clone, PartialEq)]
pub enum Value {
    Null,
    Bool(bool),
    Int64(i64),
    UInt64(u64),
    Int128(i128),
    UInt128(u128),
    BigInt { negative: bool, digits: Vec<u8> },
    Float64(u64),
    String(String),
    Sequence(Vec<Handle>),
    Mapping(Mapping),
}

/// The mathematical value behind a [`Value`]: handles are looked through, and
/// a key stands for its text.
pub enum Json {
    Null,
    Bool(bool),
    Int64(i64),
    UInt64(u64),
    Int128(i128),
    UInt128(u128),
    BigInt { negative: bool, digits: Seq<u8> },
    Float64(u64),
    String(Seq<char>),
    Sequence(Seq<Json>),
    Mapping(Seq<(Seq<char>, Json)>),
}

/// The mathematical value behind `value`.
pub open spec fn json_of(value: Value) -> Json
    decreases value,
{
    match value {
        Value::Null => Json::Null,
        Value::Bool(b) => Json::Bool(b),
        Value::Int64(v) => Json::Int64(v),
        Value::UInt64(v) => Json::UInt64(v),
        Value::Int128(v) => Json::Int128(v),
        Value::UInt128(v) => Json::UInt128(v),
        Value::BigInt { negative, digits } => Json::BigInt { negative, digits: digits@ },
        Value::Float64(bits) => Json::Float64(bits),
        Value::String(text) => Json::String(text@),
        Value::Sequence(items) => Json::Sequence(
            Seq::new(
                items@.len(),
                |i: int|
                    if 0 <= i < items@.len() {
                        json_of(*items@[i])
                    } else {
                        Json::Null
                    },
            ),
        ),
        Value::Mapping(mapping) => Json::Mapping(
            Seq::new(
                mapping.members().len(),
                |i: int|
                    if 0 <= i < mapping.members().len() {
                        (mapping.members()[i].0@, json_of(*mapping.members()[i].1))
                    } else {
                        (Seq::empty(), Json::Null)
                    },
            ),
        ),
    }
}

impl View for Value {
    type V = Json;

    open spec fn view(&self) -> Json {
        json_of(*self)
    }
}

/// Another handle on the allocation behind `handle`.
///
/// Trusted: `Rc::clone` returns a pointer to the same allocation, so the value
/// seen through the result is the value seen through `handle`.
#[verifier::external_body]
pub(crate) fn share<T>(handle: &Rc<T>) -> (r: Rc<T>)
    ensures
        r == *handle,
{
    Rc::clone(handle)
}

/// Whether two texts are the same.
pub fn text_equal(a: &str, b: &str) -> (r: bool)
    ensures
        r == (a@ == b@),
{
    let x = a.as_bytes();
    let y = b.as_bytes();
    proof {
        vstd::utf8::encode_utf8_decode_utf8(a@);
        vstd::utf8::encode_utf8_decode_utf8(b@);
    }
    if x.len() != y.len() {
        return false;
    }
    let mut i: usize = 0;
    while i < x.len()
        invariant
            i <= x@.len(),
            x@.len() == y@.len(),
            x@ == a.spec_bytes(),
            y@ == b.spec_bytes(),
            forall|j: int| 0 <= j < i ==> x@[j] == y@[j],
        decreases x@.len() - i,
    {
        if x[i] != y[i] {
            return false;
        }
        i += 1;
    }
    assert(x@ =~= y@);
    true
}

/// Whether no two members have the same name.
pub open spec fn distinct_names(members: Seq<(Key, Handle)>) -> bool {
    forall|i: int, j: int|
        0 <= i < j < members.len() ==> #[trigger] members[i].0@ != #[trigger] members[j].0@
}

/// Whether a member is named `name`.
pub open spec fn has_name(members: Seq<(Key, Handle)>, name: Seq<char>) -> bool {
    exists|i: int| 0 <= i < members.len() && #[trigger] members[i].0@ == name
}

/// The members after `key` is set to `value`. A member of that name keeps
/// its place and its key and gets the new value: the last write wins. A new
/// name is added at the end.
pub open spec fn with_member(
    before: Seq<(Key, Handle)>,
    key: Key,
    value: Handle,
    after: Seq<(Key, Handle)>,
) -> bool {
    &&& forall|i: int|
        0 <= i < before.len() && #[trigger] before[i].0@ == key@ ==> after == before.update(
            i,
            (before[i].0, value),
        )
    &&& !has_name(before, key@) ==> after == before.push((key, value))
}

impl Mapping {
    #[verifier::type_invariant]
    spec fn inv(&self) -> bool {
        distinct_names(self.entries@)
    }

    /// The members, in the order in which their names were first set.
    pub closed spec fn members(&self) -> Seq<(Key, Handle)> {
        self.entries@
    }

    /// A mapping without members.
    pub fn new() -> (mapping: Mapping)
        ensures
            mapping.members().len() == 0,
    {
        Mapping { entries: Vec::new() }
    }

    /// The number of members.
    pub fn len(&self) -> (n: usize)
        ensures
            n == self.members().len(),
            distinct_names(self.members()),
    {
        proof {
            use_type_invariant(self);
        }
        self.entries.len()
    }

    /// A share of the key of the member at `index`.
    pub fn key(&self, index: usize) -> (r: Option<Key>)
        ensures
            r is Some <==> index < self.members().len(),
            r matches Some(key) ==> key == self.members()[index as int].0,
    {
        if index < self.entries.len() {
            Some(self.entries[index].0.shared())
        } else {
            None
        }
    }

    /// A share of the value of the member at `index`.
    pub fn value(&self, index: usize) -> (r: Option<Handle>)
        ensures
            r is Some <==> index < self.members().len(),
            r matches Some(handle) ==> handle == self.members()[index as int].1,
    {
        if index < self.entries.len() {
            Some(share(&self.entries[index].1))
        } else {
            None
        }
    }

    /// The index of the member named `name`.
    pub fn position(&self, name: &str) -> (r: Option<usize>)
        ensures
            r is Some <==> has_name(self.members(), name@),
            r matches Some(i) ==> i < self.members().len() && self.members()[i as int].0@ == name@,
    {
        let mut i: usize = 0;
        while i < self.entries.len()
            invariant
                i <= self.entries@.len(),
                forall|j: int| 0 <= j < i ==> self.entries@[j].0@ != name@,
            decreases self.entries@.len() - i,
        {
            if text_equal(self.entries[i].0.as_str(), name) {
                return Some(i);
            }
            i += 1;
        }
        None
    }

    /// A share of the value of the member named `name`.
    pub fn get(&self, name: &str) -> (r: Option<Handle>)
        ensures
            r is Some <==> has_name(self.members(), name@),
            r matches Some(handle) ==> exists|i: int|
                0 <= i < self.members().len() && #[trigger] self.members()[i].0@ == name@
                    && self.members()[i].1 == handle,
    {
        match self.position(name) {
            Some(i) => Some(share(&self.entries[i].1)),
            None => None,
        }
    }

    /// Sets the member named by `key` to `value`: the last write wins.
    pub fn insert(&mut self, key: Key, value: Handle)
        ensures
            distinct_names(old(self).members()),
            distinct_names(final(self).members()),
            with_member(old(self).members(), key, value, final(self).members()),
    {
        proof {
            use_type_invariant(&*self);
        }
        let found = self.position(key.as_str());
        let ghost before = self.entries@;
        let mut entries: Vec<(Key, Handle)> = Vec::new();
        core::mem::swap(&mut self.entries, &mut entries);
        match found {
            Some(i) => {
                let kept = entries[i].0.shared();
                entries.set(i, (kept, value));
                proof {
                    assert forall|a: int, b: int| 0 <= a < b < entries@.len() implies #[trigger]
                        entries@[a].0@ != #[trigger] entries@[b].0@ by {
                        assert(entries@[a].0@ == before[a].0@);
                        assert(entries@[b].0@ == before[b].0@);
                    }
                    assert forall|j: int|
                        0 <= j < before.len() && #[trigger] before[j].0@ == key@ implies j
                        == i by {
                        if j < i {
                            assert(before[j].0@ != before[i as int].0@);
                        } else if i < j {
                            assert(before[i as int].0@ != before[j].0@);
                        }
                    }
                }
            },
            None => {
                entries.push((key, value));
                proof {
                    assert forall|a: int, b: int| 0 <= a < b < entries@.len() implies #[trigger]
                        entries@[a].0@ != #[trigger] entries@[b].0@ by {
                        if b < before.len() {
                            assert(entries@[a] == before[a]);
                            assert(entries@[b] == before[b]);
                        } else {
                            assert(entries@[a] == before[a]);
                        }
                    }
                }
            },
        }
        core::mem::swap(&mut self.entries, &mut entries);
    }
}

/// The last write wins: after a member is set, exactly one member has its
/// name, that member has the value set, every other member is as it was, and
/// the mapping has grown by one member if the name is new and not at all if
/// it is not.
pub proof fn lemma_last_write_wins(
    before: Seq<(Key, Handle)>,
    key: Key,
    value: Handle,
    after: Seq<(Key, Handle)>,
)
    requires
        distinct_names(before),
        with_member(before, key, value, after),
    ensures
        distinct_names(after),
        has_name(after, key@),
        forall|i: int| 0 <= i < after.len() && #[trigger] after[i].0@ == key@ ==> after[i].1 == value,
        forall|i: int|
            0 <= i < before.len() && #[trigger] before[i].0@ != key@ ==> after[i] == before[i],
        after.len() == before.len() + (if has_name(before, key@) {
            0int
        } else {
            1int
        }),
{
    if has_name(before, key@) {
        let i = choose|i: int| 0 <= i < before.len() && #[trigger] before[i].0@ == key@;
        assert(after == before.update(i, (before[i].0, value)));
        assert(after[i].0@ == key@);
        assert forall|a: int, b: int| 0 <= a < b < after.len() implies #[trigger] after[a].0@
            != #[trigger] after[b].0@ by {
            assert(after[a].0@ == before[a].0@);
            assert(after[b].0@ == before[b].0@);
        }
        assert forall|j: int| 0 <= j < after.len() && #[trigger] after[j].0@ == key@ implies after[j].1
            == value by {
            assert(after[j].0@ == before[j].0@);
            if j < i {
                assert(before[j].0@ != before[i].0@);
            } else if i < j {
                assert(before[i].0@ != before[j].0@);
            }
        }
    } else {
        assert(after == before.push((key, value)));
        assert(after[before.len() as int].0@ == key@);
        assert forall|a: int, b: int| 0 <= a < b < after.len() implies #[trigger] after[a].0@
            != #[trigger] after[b].0@ by {
            assert(after[a] == before[a]);
            if b < before.len() {
                assert(after[b] == before[b]);
            }
        }
        assert forall|j: int| 0 <= j < after.len() && #[trigger] after[j].0@ == key@ implies after[j].1
            == value by {
            if j < before.len() {
                assert(after[j] == before[j]);
            }
        }
    }
}

impl Clone for Mapping {
    /// A mapping of the same members: the keys and values are shared, not
    /// copied.
    fn clone(&self) -> (r: Mapping)
        ensures
            r.members() == self.members(),
    {
        proof {
            use_type_invariant(self);
        }
        let mut entries: Vec<(Key, Handle)> = Vec::new();
        let mut i: usize = 0;
        while i < self.entries.len()
            invariant
                i <= self.entries@.len(),
                entries@ == self.entries@.take(i as int),
            decreases self.entries@.len() - i,
        {
            entries.push((self.entries[i].0.shared(), share(&self.entries[i].1)));
            assert(entries@ =~= self.entries@.take(i + 1));
            i += 1;
        }
        assert(entries@ =~= self.entries@);
        Mapping { entries }
    }
}

impl Key {
    /// A key with its own allocation, holding a copy of `text`.
    pub fn fresh(text: &str) -> (key: Key)
        ensures
            key@ == text@,
    {
        Key { text: Rc::new(text.to_owned()) }
    }

    /// The key's text.
    pub fn as_str(&self) -> (s: &str)
        ensures
            s@ == self@,
    {
        self.text.as_str()
    }

    /// Another handle on this key's allocation.
    pub fn shared(&self) -> (key: Key)
        ensures
            key == *self,
    {
        Key { text: share(&self.text) }
    }

    /// Whether two keys hold the same text.
    pub fn same_text(&self, other: &Key) -> (r: bool)
        ensures
            r == (self@ == other@),
    {
        *self.text == *other.text
    }
}

} // verus!
