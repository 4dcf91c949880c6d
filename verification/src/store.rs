//! The slot store: named accumulators, each holding the bytes last written.
//!
//! A slot that was never written reads as the multiplicative identity, so a
//! computation can start from an empty store.

use vstd::prelude::*;
use crate::error::StepError;
use crate::field::{canonical, decode_spec, encode_spec, holds, identity, Element};

verus! {

/// One named slot with the bytes it holds.
#[derive(Debug)]
struct Slot {
    key: String,
    data: Vec<u8>,
}

/// A map from slot names to byte strings.
#[derive(Debug)]
pub struct Store {
    slots: Vec<Slot>,
}

spec fn key_at(slots: Seq<Slot>, i: int) -> Seq<char> {
    slots[i].key@
}

spec fn has_key(slots: Seq<Slot>, key: Seq<char>) -> bool {
    exists|i: int| 0 <= i < slots.len() && #[trigger] key_at(slots, i) == key
}

spec fn index_of(slots: Seq<Slot>, key: Seq<char>) -> int {
    choose|i: int| 0 <= i < slots.len() && #[trigger] key_at(slots, i) == key
}

spec fn distinct(slots: Seq<Slot>) -> bool {
    forall|i: int, j: int|
        0 <= i < j < slots.len() ==> #[trigger] key_at(slots, i) != #[trigger] key_at(slots, j)
}

spec fn contents(slots: Seq<Slot>) -> Map<Seq<char>, Seq<u8>> {
    Map::new(|key: Seq<char>| has_key(slots, key), |key: Seq<char>| slots[index_of(slots, key)].data@)
}

/// The slot at `i` is the one that its key finds.
proof fn lemma_lookup(slots: Seq<Slot>, i: int)
    requires
        distinct(slots),
        0 <= i < slots.len(),
    ensures
        has_key(slots, key_at(slots, i)),
        index_of(slots, key_at(slots, i)) == i,
{
    let key = key_at(slots, i);
    assert(0 <= i < slots.len() && key_at(slots, i) == key);
    let j = index_of(slots, key);
    assert(0 <= j < slots.len() && key_at(slots, j) == key);
    if i < j {
        assert(key_at(slots, i) != key_at(slots, j));
    }
    if j < i {
        assert(key_at(slots, j) != key_at(slots, i));
    }
}

/// Replacing the bytes of the slot at `i` is an insertion under its key.
proof fn lemma_overwrite(old_slots: Seq<Slot>, new_slots: Seq<Slot>, i: int)
    requires
        distinct(old_slots),
        0 <= i < old_slots.len(),
        new_slots.len() == old_slots.len(),
        forall|j: int| 0 <= j < old_slots.len() ==> key_at(new_slots, j) == key_at(old_slots, j),
        forall|j: int|
            0 <= j < old_slots.len() && j != i ==> new_slots[j].data@ == old_slots[j].data@,
    ensures
        distinct(new_slots),
        contents(new_slots) == contents(old_slots).insert(
            key_at(old_slots, i),
            new_slots[i].data@,
        ),
{
    let key = key_at(old_slots, i);
    let expected = contents(old_slots).insert(key, new_slots[i].data@);
    assert(distinct(new_slots)) by {
        assert forall|a: int, b: int| 0 <= a < b < new_slots.len() implies #[trigger] key_at(
            new_slots,
            a,
        ) != #[trigger] key_at(new_slots, b) by {
            assert(key_at(old_slots, a) != key_at(old_slots, b));
        }
    }
    assert forall|k: Seq<char>| has_key(new_slots, k) == (has_key(old_slots, k)) by {
        if has_key(new_slots, k) {
            let j = index_of(new_slots, k);
            assert(key_at(old_slots, j) == k);
        }
        if has_key(old_slots, k) {
            let j = index_of(old_slots, k);
            assert(key_at(new_slots, j) == k);
        }
    }
    lemma_lookup(old_slots, i);
    assert forall|k: Seq<char>| #[trigger] expected.contains_key(k) implies contents(
        new_slots,
    ).contains_key(k) && contents(new_slots)[k] == expected[k] by {
        assert(has_key(old_slots, k));
        assert(has_key(new_slots, k));
        let j = index_of(new_slots, k);
        assert(key_at(old_slots, j) == k);
        lemma_lookup(old_slots, j);
        lemma_lookup(new_slots, j);
    }
    assert(contents(new_slots) =~= expected);
}

/// Appending a slot under a key that is not yet held is an insertion.
proof fn lemma_append(old_slots: Seq<Slot>, new_slots: Seq<Slot>)
    requires
        distinct(old_slots),
        new_slots.len() == old_slots.len() + 1,
        forall|j: int| 0 <= j < old_slots.len() ==> new_slots[j] == old_slots[j],
        !has_key(old_slots, key_at(new_slots, old_slots.len() as int)),
    ensures
        distinct(new_slots),
        contents(new_slots) == contents(old_slots).insert(
            key_at(new_slots, old_slots.len() as int),
            new_slots[old_slots.len() as int].data@,
        ),
{
    let n = old_slots.len() as int;
    let key = key_at(new_slots, n);
    let expected = contents(old_slots).insert(key, new_slots[n].data@);
    assert forall|j: int| 0 <= j < n implies key_at(new_slots, j) == key_at(old_slots, j) by {}
    assert(distinct(new_slots)) by {
        assert forall|a: int, b: int| 0 <= a < b < new_slots.len() implies #[trigger] key_at(
            new_slots,
            a,
        ) != #[trigger] key_at(new_slots, b) by {
            if b < n {
                assert(key_at(old_slots, a) != key_at(old_slots, b));
            } else {
                assert(key_at(old_slots, a) == key_at(new_slots, a));
                if key_at(new_slots, a) == key {
                    assert(has_key(old_slots, key));
                }
            }
        }
    }
    assert(has_key(new_slots, key)) by {
        assert(0 <= n < new_slots.len() && key_at(new_slots, n) == key);
    }
    assert forall|k: Seq<char>| has_key(new_slots, k) == (has_key(old_slots, k) || k == key) by {
        if has_key(new_slots, k) {
            let j = index_of(new_slots, k);
            if j < n {
                assert(key_at(old_slots, j) == k);
            }
        }
        if has_key(old_slots, k) {
            let j = index_of(old_slots, k);
            assert(key_at(new_slots, j) == k);
        }
    }
    assert forall|k: Seq<char>| #[trigger] expected.contains_key(k) implies contents(
        new_slots,
    ).contains_key(k) && contents(new_slots)[k] == expected[k] by {
        assert(has_key(new_slots, k));
        let j = index_of(new_slots, k);
        lemma_lookup(new_slots, j);
        if j < n {
            assert(key_at(old_slots, j) == k);
            lemma_lookup(old_slots, j);
        }
    }
    assert(contents(new_slots) =~= expected);
}

impl View for Store {
    type V = Map<Seq<char>, Seq<u8>>;

    /// The bytes held under each name that was written.
    closed spec fn view(&self) -> Map<Seq<char>, Seq<u8>> {
        contents(self.slots@)
    }
}

impl Store {
    /// No name is held twice.
    #[verifier::type_invariant]
    pub closed spec fn wf(&self) -> bool {
        distinct(self.slots@)
    }

    /// A store in which no slot was written.
    pub fn new() -> (store: Store)
        ensures
            store@ == Map::<Seq<char>, Seq<u8>>::empty(),
    {
        let store = Store { slots: Vec::new() };
        assert(store@ =~= Map::<Seq<char>, Seq<u8>>::empty());
        store
    }

    /// The position of the slot named `key`, if it was written.
    fn find(&self, key: &String) -> (r: Option<usize>)
        ensures
            match r {
                Some(i) => i < self.slots@.len() && key_at(self.slots@, i as int) == key@,
                None => !has_key(self.slots@, key@),
            },
    {
        let mut i: usize = 0;
        while i < self.slots.len()
            invariant
                i <= self.slots@.len(),
                forall|j: int| 0 <= j < i ==> key_at(self.slots@, j) != key@,
            decreases self.slots@.len() - i,
        {
            if self.slots[i].key == *key {
                return Some(i);
            }
            i = i + 1;
        }
        None
    }

    /// The bytes last written under `key`, or `None` if it was never written.
    pub fn get(&self, key: &String) -> (r: Option<Vec<u8>>)
        ensures
            r is Some == self@.contains_key(key@),
            r is Some ==> r.unwrap()@ == self@[key@],
    {
        proof {
            use_type_invariant(self);
        }
        match self.find(key) {
            Some(i) => {
                proof {
                    lemma_lookup(self.slots@, i as int);
                }
                Some(vstd::slice::slice_to_vec(self.slots[i].data.as_slice()))
            },
            None => None,
        }
    }

    /// Writes `data` under `key`, in place of what was held there.
    pub fn put(&mut self, key: String, data: Vec<u8>)
        ensures
            final(self)@ == old(self)@.insert(key@, data@),
    {
        proof {
            use_type_invariant(&*self);
        }
        let found: Option<usize> = self.find(&key);
        let mut taken = Store { slots: Vec::new() };
        core::mem::swap(self, &mut taken);
        let mut slots: Vec<Slot> = taken.slots;
        let ghost old_slots = slots@;
        match found {
            Some(i) => {
                slots.set(i, Slot { key, data });
                proof {
                    lemma_overwrite(old_slots, slots@, i as int);
                }
            },
            None => {
                slots.push(Slot { key, data });
                proof {
                    lemma_append(old_slots, slots@);
                }
            },
        }
        *self = Store { slots };
    }
}

/// What reading a slot gives: the identity where the slot was never written,
/// else what decoding its bytes gives.
pub open spec fn read_slot(store: Map<Seq<char>, Seq<u8>>, key: Seq<char>) -> Result<
    Seq<nat>,
    StepError,
> {
    if store.contains_key(key) {
        decode_spec(store[key])
    } else {
        Ok(identity())
    }
}

/// The store after the element with coefficients `c` was written under `key`.
pub open spec fn write_slot(store: Map<Seq<char>, Seq<u8>>, key: Seq<char>, c: Seq<nat>) -> Map<
    Seq<char>,
    Seq<u8>,
> {
    store.insert(key, encode_spec(c))
}

/// Every slot that was written holds the encoding of an element.
pub open spec fn all_canonical(store: Map<Seq<char>, Seq<u8>>) -> bool {
    forall|key: Seq<char>| store.contains_key(key) ==> canonical(#[trigger] store[key])
}

/// Reads the element of a slot: a slot never written gives the identity, and
/// one that holds bytes gives what they decode to. The digit index `j` of the
/// step that reads plays no part: a slot reads the same at every digit.
pub fn get_account_data(store: &Store, key: String, j: usize) -> (r: Result<Element, StepError>)
    ensures
        holds(r, read_slot(store@, key@)),
{
    match store.get(&key) {
        Some(bytes) => Element::decode(bytes.as_slice()),
        None => Ok(Element::one()),
    }
}

/// Writes the encoding of `f` into a slot, in place of what was held there.
pub fn put_account_data(store: &mut Store, key: String, f: &Element)
    ensures
        final(store)@ == write_slot(old(store)@, key@, f@),
        read_slot(final(store)@, key@) == Ok::<Seq<nat>, StepError>(f@),
        all_canonical(old(store)@) ==> all_canonical(final(store)@),
{
    store.put(key, f.encode());
}

/// Cold start: a slot that was never written reads as the identity, and the
/// identity survives being written and read back.
pub proof fn lemma_cold_start(store: Map<Seq<char>, Seq<u8>>, key: Seq<char>)
    requires
        !store.contains_key(key),
    ensures
        read_slot(store, key) == Ok::<Seq<nat>, StepError>(identity()),
        read_slot(write_slot(store, key, identity()), key) == Ok::<Seq<nat>, StepError>(
            identity(),
        ),
{
    crate::field::lemma_identity();
    crate::field::lemma_decode_encode(identity());
}

/// A slot reads as the element last written to it, and a write leaves every
/// other slot as it was.
pub proof fn lemma_read_after_write(
    store: Map<Seq<char>, Seq<u8>>,
    key: Seq<char>,
    c: Seq<nat>,
    other: Seq<char>,
)
    requires
        crate::field::valid_coefficients(c),
    ensures
        read_slot(write_slot(store, key, c), key) == Ok::<Seq<nat>, StepError>(c),
        other != key ==> read_slot(write_slot(store, key, c), other) == read_slot(store, other),
{
    crate::field::lemma_decode_encode(c);
}

/// In a store whose slots all hold encodings, every read succeeds.
pub proof fn lemma_reads_succeed(store: Map<Seq<char>, Seq<u8>>, key: Seq<char>)
    requires
        all_canonical(store),
    ensures
        read_slot(store, key) is Ok,
{
    if store.contains_key(key) {
        assert(canonical(store[key]));
    }
}

} // verus!
