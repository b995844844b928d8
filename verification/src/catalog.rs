//! The table catalog: entries stored in the order of a minimal perfect hash
//! function (MPHF) over their keys, so that a lookup is one hash and one
//! index.

use vstd::prelude::*;
use vstd::set_lib::{lemma_int_range, lemma_subset_equality, set_int_range};
use ph::fmph::GOFunction;
use ph::fmph::keyset::SliceSourceWithRefs;
use crate::fxy::FXY;
use crate::header::{check_header, header_ok};
use crate::tables::{BTableEntry, DTableEntry, BitMapEntry, TableEntry};

verus! {

/// A minimal perfect hash function over descriptor keys, as `ph` builds it.
#[verifier::external_body]
pub struct Mphf {
    inner: GOFunction,
}

// The slot that a hash function gives each key it answers for.
pub uninterp spec fn mphf_slots(f: Mphf) -> Map<(i32, i32, i32), u64>;

// The slots of the hash function that a byte string encodes, if it encodes
// one.
pub uninterp spec fn mphf_decoded(bytes: Seq<u8>) -> Option<Map<(i32, i32, i32), u64>>;

// Whether a hash function is whole: it was built for a set of keys, or read
// from a consistent header, so that its levels, bits and seeds fit
// together and a lookup in it cannot go astray.
pub uninterp spec fn mphf_well_formed(f: Mphf) -> bool;

// Whether `ph` constructs a hash function for a list of key triples.
pub uninterp spec fn mphf_constructible(keys: Seq<(i32, i32, i32)>) -> bool;

/// A key as the triple that is hashed.
pub open spec fn key_triple(key: FXY) -> (i32, i32, i32) {
    (key.f, key.x, key.y)
}

/// The slot of a key under a slot map, if it has one.
pub open spec fn slot_in(slots: Map<(i32, i32, i32), u64>, key: FXY) -> Option<u64> {
    if slots.contains_key(key_triple(key)) {
        Some(slots[key_triple(key)])
    } else {
        None
    }
}

/// The slot map sends the keys one-to-one into `0 .. keys.len()`.
pub open spec fn perfect_on(slots: Map<(i32, i32, i32), u64>, keys: Seq<FXY>) -> bool {
    &&& forall|i: int|
        0 <= i < keys.len() ==> slots.contains_key(#[trigger] key_triple(keys[i])) && slots[key_triple(
            keys[i],
        )] < keys.len()
    &&& forall|i: int, j: int|
        0 <= i < j < keys.len() ==> slots[#[trigger] key_triple(keys[i])] != slots[#[trigger] key_triple(
            keys[j],
        )]
}

/// No key occurs twice.
pub open spec fn distinct_keys(keys: Seq<FXY>) -> bool {
    forall|i: int, j: int| 0 <= i < j < keys.len() ==> keys[i] != keys[j]
}

/// `GOFunction::try_with_conf_stats` of `ph`, with the default configuration,
/// on a slice of key triples. Whether it returns a function depends on the
/// keys alone. Where it returns one, that function is whole and a minimal
/// perfect hash of the keys: each key gets a slot below the number of keys,
/// and no two different keys share one.
#[verifier::external_body]
fn mphf_build(keys: &Vec<(i32, i32, i32)>) -> (r: Option<Mphf>)
    ensures
        r is Some <==> mphf_constructible(keys@),
        match r {
            Some(f) => {
                &&& mphf_well_formed(f)
                &&& forall|i: int|
                    0 <= i < keys@.len() ==> mphf_slots(f).contains_key(#[trigger] keys@[i])
                        && mphf_slots(f)[keys@[i]] < keys@.len()
                &&& forall|i: int, j: int|
                    0 <= i < keys@.len() && 0 <= j < keys@.len() && keys@[i] != keys@[j]
                        ==> mphf_slots(f)[#[trigger] keys@[i]] != mphf_slots(f)[#[trigger] keys@[j]]
            },
            None => true,
        },
{
    let source = SliceSourceWithRefs::<_, u8>::new(keys.as_slice());
    GOFunction::try_with_conf_stats(source, Default::default(), &mut ()).map(
        |inner| Mphf { inner },
    )
}

/// `GOFunction::get` of `ph` on a key triple, for a function that is whole:
/// the slot the function gives the key, or `None`. For a key outside the
/// set the function was built for, either may come back; it is the same for
/// the same function and key.
#[verifier::external_body]
fn mphf_get(f: &Mphf, key: &FXY) -> (r: Option<u64>)
    requires
        mphf_well_formed(*f),
    ensures
        r == slot_in(mphf_slots(*f), *key),
{
    f.inner.get(&(key.f, key.x, key.y))
}

/// `GOFunction::write` of `ph` into a byte vector, for a function that is
/// whole. The bytes are a consistent header, and reading them gives a
/// function with the same slots.
#[verifier::external_body]
fn mphf_write(f: &Mphf) -> (bytes: Vec<u8>)
    requires
        mphf_well_formed(*f),
    ensures
        header_ok(bytes@),
        mphf_decoded(bytes@) == Some(mphf_slots(*f)),
{
    let mut bytes: Vec<u8> = Vec::new();
    let _ = f.inner.write(&mut bytes);
    bytes
}

/// `GOFunction::read` of `ph` from a byte slice that holds a consistent
/// header: the function the bytes encode, which is whole, or `None` where
/// they encode none.
#[verifier::external_body]
fn mphf_read(bytes: &[u8]) -> (r: Option<Mphf>)
    requires
        header_ok(bytes@),
    ensures
        match r {
            Some(f) => mphf_decoded(bytes@) == Some(mphf_slots(f)) && mphf_well_formed(f),
            None => mphf_decoded(bytes@) is None,
        },
{
    let mut input: &[u8] = bytes;
    GOFunction::read(&mut input).ok().map(|inner| Mphf { inner })
}

impl Mphf {
    /// Reads a hash function from the bytes that `function_header` wrote.
    /// Bytes that are no consistent header are turned down before they are
    /// decoded.
    pub fn read(bytes: &[u8]) -> (r: Option<Mphf>)
        ensures
            match r {
                Some(f) => header_ok(bytes@) && mphf_decoded(bytes@) == Some(mphf_slots(f))
                    && mphf_well_formed(f),
                None => !header_ok(bytes@) || mphf_decoded(bytes@) is None,
            },
    {
        if !check_header(bytes) {
            return None;
        }
        mphf_read(bytes)
    }
}

/// Why a catalog could not be made.
#[derive(Clone, Copy, Debug, PartialEq, Eq, Structural)]
pub enum CatalogError {
    /// No hash function could be constructed for the keys.
    ConstructionFailed,
    /// The hash function does not send the keys one-to-one onto the slots.
    NotPerfect,
    /// The bytes are no consistent header, or encode no hash function.
    BadHeader,
}

/// A catalog of entries of one table, found by key.
pub struct BUFRTableMPH<E> {
    mphf: Mphf,
    entries: Vec<E>,
}

/// The catalog of Table B.
pub type BUFRTableB = BUFRTableMPH<BTableEntry>;

/// The catalog of Table D.
pub type BUFRTableD = BUFRTableMPH<DTableEntry>;

/// The catalog of the bitmap table.
pub type BUFRTableBitMap = BUFRTableMPH<BitMapEntry>;

/// The keys of a sequence of entries as the triples that are hashed.
pub open spec fn triples_of<E: TableEntry>(entries: Seq<E>) -> Seq<(i32, i32, i32)> {
    Seq::new(entries.len(), |i: int| key_triple(entries[i].key()))
}

/// The keys of a sequence of entries.
pub open spec fn keys_of<E: TableEntry>(entries: Seq<E>) -> Seq<FXY> {
    Seq::new(entries.len(), |i: int| entries[i].key())
}

/// Takes every value out of a vector of filled slots, in order.
fn unwrap_all<E>(slots: Vec<Option<E>>) -> (out: Vec<E>)
    requires
        forall|h: int| 0 <= h < slots@.len() ==> (#[trigger] slots@[h]) is Some,
    ensures
        out@.len() == slots@.len(),
        forall|h: int| 0 <= h < slots@.len() ==> Some(#[trigger] out@[h]) == slots@[h],
{
    let ghost filled = slots@;
    let n = slots.len();
    let mut slots = slots;
    let mut reversed: Vec<E> = Vec::new();
    while slots.len() > 0
        invariant
            n == filled.len(),
            slots@.len() + reversed@.len() == n,
            slots@ == filled.take(slots@.len() as int),
            forall|h: int| 0 <= h < filled.len() ==> (#[trigger] filled[h]) is Some,
            forall|k: int|
                0 <= k < reversed@.len() ==> Some(#[trigger] reversed@[k]) == filled[n - 1 - k],
        decreases slots@.len(),
    {
        let ghost before = slots@;
        match slots.pop() {
            Some(Some(e)) => {
                proof {
                    assert(before.last() == filled[before.len() - 1]);
                }
                reversed.push(e);
            },
            _ => {
                proof {
                    assert(before.last() == filled[before.len() - 1]);
                    assert(false);
                }
            },
        }
    }
    let mut out: Vec<E> = Vec::new();
    let ghost full = reversed@;
    while reversed.len() > 0
        invariant
            full.len() == n,
            n == filled.len(),
            reversed@.len() + out@.len() == n,
            reversed@ == full.take(reversed@.len() as int),
            forall|k: int| 0 <= k < full.len() ==> Some(#[trigger] full[k]) == filled[n - 1 - k],
            forall|h: int| 0 <= h < out@.len() ==> Some(#[trigger] out@[h]) == filled[h],
        decreases reversed@.len(),
    {
        let ghost before = reversed@;
        match reversed.pop() {
            Some(e) => {
                proof {
                    assert(before.last() == full[before.len() - 1]);
                }
                out.push(e);
            },
            None => {},
        }
    }
    out
}

/// An injective map from `0 .. n` into `0 .. n` hits every number below `n`.
proof fn lemma_injection_is_onto(order: Seq<usize>, target: int)
    requires
        order.no_duplicates(),
        forall|i: int| 0 <= i < order.len() ==> (#[trigger] order[i]) < order.len(),
        0 <= target < order.len(),
    ensures
        exists|i: int| 0 <= i < order.len() && order[i] == target,
{
    let n = order.len() as int;
    let numbers = Seq::new(order.len(), |i: int| order[i] as int);
    let image = numbers.to_set();
    let range = set_int_range(0, n);
    lemma_int_range(0, n);
    assert(numbers.no_duplicates()) by {
        assert forall|i: int, j: int|
            0 <= i < numbers.len() && 0 <= j < numbers.len() && i != j implies numbers[i]
            != numbers[j] by {
            assert(order[i] != order[j]);
        }
    }
    numbers.unique_seq_to_set();
    vstd::seq_lib::seq_to_set_is_finite(numbers);
    assert(image.subset_of(range)) by {
        assert forall|h: int| image.contains(h) implies range.contains(h) by {
            let i = choose|i: int| 0 <= i < numbers.len() && numbers[i] == h;
            assert(order[i] < order.len());
        }
    }
    lemma_subset_equality(image, range);
    assert(range.contains(target));
    assert(image.contains(target));
    let i = choose|i: int| 0 <= i < numbers.len() && numbers[i] == target;
    assert(order[i] == target);
}

impl<E> BUFRTableMPH<E> {
    #[verifier::type_invariant]
    spec fn whole(&self) -> bool {
        mphf_well_formed(self.mphf)
    }
}

impl<E: TableEntry> BUFRTableMPH<E> {
    /// The slot map of the catalog's hash function.
    pub closed spec fn slots(&self) -> Map<(i32, i32, i32), u64> {
        mphf_slots(self.mphf)
    }

    /// The entries in slot order.
    pub closed spec fn entries(&self) -> Seq<E> {
        self.entries@
    }

    /// The entry in the slot that the hash function gives a key, whatever
    /// key that entry has.
    pub open spec fn spec_lookup(&self, key: FXY) -> Option<E> {
        match slot_in(self.slots(), key) {
            Some(h) => if h < self.entries().len() {
                Some(self.entries()[h as int])
            } else {
                None
            },
            None => None,
        }
    }

    /// The entry stored under a key: the one in the key's slot, if its key
    /// is the one asked for.
    pub open spec fn spec_get(&self, key: FXY) -> Option<E> {
        match self.spec_lookup(key) {
            Some(e) => if e.key() == key {
                Some(e)
            } else {
                None
            },
            None => None,
        }
    }

    /// Every entry sits in the slot of its own key.
    pub open spec fn is_sound(&self) -> bool {
        forall|i: int|
            0 <= i < self.entries().len() ==> self.sits_at(i)
    }

    /// Entry `i` sits in the slot of its own key.
    pub open spec fn sits_at(&self, i: int) -> bool {
        let slot = slot_in(self.slots(), self.entries()[i].key());
        slot is Some && slot->0 == i
    }

    /// Puts entries into the slots that a hash function gives their keys.
    /// Succeeds exactly if the function sends the keys one-to-one into the
    /// slots; every entry is then found under its key.
    pub fn arrange(mphf: Mphf, entries: Vec<E>) -> (r: Result<Self, CatalogError>)
        requires
            mphf_well_formed(mphf),
        ensures
            match r {
                Ok(c) => {
                    &&& perfect_on(mphf_slots(mphf), keys_of(entries@))
                    &&& c.slots() == mphf_slots(mphf)
                    &&& c.entries().len() == entries@.len()
                    &&& c.is_sound()
                    &&& forall|s: int|
                        0 <= s < c.entries().len() ==> entries@.contains(
                            #[trigger] c.entries()[s],
                        )
                    &&& forall|i: int|
                        0 <= i < entries@.len() ==> c.spec_get((#[trigger] entries@[i]).key())
                            == Some(entries@[i])
                },
                Err(e) => e == CatalogError::NotPerfect && !perfect_on(
                    mphf_slots(mphf),
                    keys_of(entries@),
                ),
            },
    {
        let n = entries.len();
        let ghost input = entries@;
        let ghost keys = keys_of(input);
        let ghost slots = mphf_slots(mphf);
        // First pass: the slot of every entry, each in range and taken once.
        let mut order: Vec<usize> = Vec::with_capacity(n);
        let mut taken: Vec<bool> = Vec::with_capacity(n);
        let mut h: usize = 0;
        while h < n
            invariant
                h <= n,
                taken@.len() == h,
                forall|k: int| 0 <= k < h ==> !(#[trigger] taken@[k]),
            decreases n - h,
        {
            taken.push(false);
            h += 1;
        }
        let mut i: usize = 0;
        while i < n
            invariant
                i <= n,
                n == input.len(),
                entries@ == input,
                keys == keys_of(input),
                slots == mphf_slots(mphf),
                mphf_well_formed(mphf),
                order@.len() == i,
                taken@.len() == n,
                forall|k: int|
                    0 <= k < i ==> (#[trigger] order@[k]) < n && slot_in(slots, keys[k]) == Some(
                        order@[k] as u64,
                    ),
                forall|k: int, l: int| 0 <= k < l < i ==> order@[k] != order@[l],
                forall|s: int|
                    0 <= s < n ==> ((#[trigger] taken@[s]) <==> exists|k: int|
                        0 <= k < i && order@[k] == s),
            decreases n - i,
        {
            let key = entries[i].fxy();
            assert(key == keys[i as int]);
            let slot = match mphf_get(&mphf, &key) {
                Some(s) => s,
                None => {
                    return Err(CatalogError::NotPerfect);
                },
            };
            if slot >= n as u64 {
                return Err(CatalogError::NotPerfect);
            }
            let slot = slot as usize;
            if taken[slot] {
                proof {
                    let k = choose|k: int| 0 <= k < i && order@[k] == slot;
                    assert(slots[key_triple(keys[k])] == slots[key_triple(keys[i as int])]);
                }
                return Err(CatalogError::NotPerfect);
            }
            let ghost before = order@;
            taken.set(slot, true);
            order.push(slot);
            proof {
                assert forall|s: int| 0 <= s < n implies ((#[trigger] taken@[s]) <==> exists|k: int|
                    0 <= k < i + 1 && order@[k] == s) by {
                    if s == slot {
                        assert(order@[i as int] == s);
                    } else {
                        if taken@[s] {
                            let k = choose|k: int| 0 <= k < i && before[k] == s;
                            assert(order@[k] == s);
                        }
                        if exists|k: int| 0 <= k < i + 1 && order@[k] == s {
                            let k = choose|k: int| 0 <= k < i + 1 && order@[k] == s;
                            assert(before[k] == s);
                        }
                    }
                }
            }
            i += 1;
        }
        proof {
            assert(perfect_on(slots, keys)) by {
                assert forall|a: int| 0 <= a < keys.len() implies slots.contains_key(
                    #[trigger] key_triple(keys[a]),
                ) && slots[key_triple(keys[a])] < keys.len() by {
                    assert(order@[a] < n);
                }
                assert forall|a: int, b: int| 0 <= a < b < keys.len() implies slots[#[trigger] key_triple(
                    keys[a],
                )] != slots[#[trigger] key_triple(keys[b])] by {
                    assert(order@[a] != order@[b]);
                }
            }
        }
        // Second pass: move every entry into its slot.
        let mut placed: Vec<Option<E>> = Vec::with_capacity(n);
        let mut h: usize = 0;
        while h < n
            invariant
                h <= n,
                placed@.len() == h,
                forall|k: int| 0 <= k < h ==> (#[trigger] placed@[k]) is None,
            decreases n - h,
        {
            placed.push(None);
            h += 1;
        }
        let mut entries = entries;
        while entries.len() > 0
            invariant
                n == input.len(),
                order@.len() == n,
                placed@.len() == n,
                entries@.len() <= n,
                entries@ == input.take(entries@.len() as int),
                forall|k: int| 0 <= k < n ==> (#[trigger] order@[k]) < n,
                forall|k: int, l: int| 0 <= k < l < n ==> order@[k] != order@[l],
                forall|k: int|
                    entries@.len() <= k < n ==> placed@[#[trigger] order@[k] as int] == Some(
                        input[k],
                    ),
            decreases entries@.len(),
        {
            let ghost before = entries@;
            let ghost placed_before = placed@;
            let at = entries.len() - 1;
            let slot = order[at];
            match entries.pop() {
                Some(e) => {
                    proof {
                        assert(before.last() == input[at as int]);
                    }
                    placed.set(slot, Some(e));
                    proof {
                        assert forall|k: int| entries@.len() <= k < n implies placed@[#[trigger] order@[k] as int]
                            == Some(input[k]) by {
                            if k != at {
                                assert(order@[k] != order@[at as int]);
                                assert(placed_before[order@[k] as int] == Some(input[k]));
                            }
                        }
                    }
                },
                None => {},
            }
        }
        proof {
            assert(order@.no_duplicates());
            assert forall|s: int| 0 <= s < n implies (#[trigger] placed@[s]) is Some by {
                lemma_injection_is_onto(order@, s);
                let k = choose|k: int| 0 <= k < order@.len() && order@[k] == s;
                assert(placed@[order@[k] as int] == Some(input[k]));
            }
        }
        let arranged = unwrap_all(placed);
        let catalog = BUFRTableMPH { mphf, entries: arranged };
        proof {
            assert forall|a: int| 0 <= a < input.len() implies catalog.spec_get(
                (#[trigger] input[a]).key(),
            ) == Some(input[a]) by {
                assert(placed@[order@[a] as int] == Some(input[a]));
                assert(Some(arranged@[order@[a] as int]) == placed@[order@[a] as int]);
                assert(keys[a] == input[a].key());
            }
            assert forall|s: int| 0 <= s < catalog.entries().len() implies catalog.sits_at(
                s,
            ) by {
                lemma_injection_is_onto(order@, s);
                let k = choose|k: int| 0 <= k < order@.len() && order@[k] == s;
                assert(placed@[order@[k] as int] == Some(input[k]));
                assert(Some(arranged@[s]) == placed@[s]);
                assert(keys[k] == input[k].key());
            }
            assert forall|s: int| 0 <= s < catalog.entries().len() implies input.contains(
                #[trigger] catalog.entries()[s],
            ) by {
                lemma_injection_is_onto(order@, s);
                let k = choose|k: int| 0 <= k < order@.len() && order@[k] == s;
                assert(placed@[order@[k] as int] == Some(input[k]));
                assert(Some(arranged@[s]) == placed@[s]);
                assert(input[k] == catalog.entries()[s]);
            }
        }
        Ok(catalog)
    }

    /// Builds a catalog: constructs a hash function for the keys of the
    /// entries and stores the entries in its order. Every entry is then
    /// found under its key. The build fails with `ConstructionFailed`
    /// exactly where no hash function is constructed for the keys.
    pub fn build(entries: Vec<E>) -> (r: Result<Self, CatalogError>)
        ensures
            (r is Err && r->Err_0 == CatalogError::ConstructionFailed) <==> !mphf_constructible(
                triples_of(entries@),
            ),
            match r {
                Ok(c) => {
                    &&& c.entries().len() == entries@.len()
                    &&& c.is_sound()
                    &&& perfect_on(c.slots(), keys_of(entries@))
                    &&& forall|s: int|
                        0 <= s < c.entries().len() ==> entries@.contains(
                            #[trigger] c.entries()[s],
                        )
                    &&& forall|i: int|
                        0 <= i < entries@.len() ==> c.spec_get((#[trigger] entries@[i]).key())
                            == Some(entries@[i])
                },
                Err(e) => e == CatalogError::ConstructionFailed || (e == CatalogError::NotPerfect
                    && !distinct_keys(keys_of(entries@))),
            },
    {
        let n = entries.len();
        let ghost keys = keys_of(entries@);
        let mut triples: Vec<(i32, i32, i32)> = Vec::with_capacity(n);
        let mut i: usize = 0;
        while i < n
            invariant
                i <= n,
                n == entries@.len(),
                triples@.len() == i,
                forall|k: int| 0 <= k < i ==> #[trigger] triples@[k] == key_triple(entries@[k].key()),
            decreases n - i,
        {
            let key = entries[i].fxy();
            triples.push((key.f, key.x, key.y));
            i += 1;
        }
        assert(triples@ =~= triples_of(entries@));
        match mphf_build(&triples) {
            None => Err(CatalogError::ConstructionFailed),
            Some(mphf) => {
                proof {
                    if distinct_keys(keys) {
                        assert forall|a: int| 0 <= a < keys.len() implies mphf_slots(
                            mphf,
                        ).contains_key(#[trigger] key_triple(keys[a])) && mphf_slots(
                            mphf,
                        )[key_triple(keys[a])] < keys.len() by {
                            assert(triples@[a] == key_triple(keys[a]));
                        }
                        assert forall|a: int, b: int| 0 <= a < b < keys.len() implies mphf_slots(
                            mphf,
                        )[#[trigger] key_triple(keys[a])] != mphf_slots(
                            mphf,
                        )[#[trigger] key_triple(keys[b])] by {
                            assert(triples@[a] == key_triple(keys[a]));
                            assert(triples@[b] == key_triple(keys[b]));
                            assert(keys[a] != keys[b]);
                        }
                        assert(perfect_on(mphf_slots(mphf), keys));
                    }
                }
                Self::arrange(mphf, entries)
            },
        }
    }

    /// Makes a catalog from a stored hash function and entries stored in its
    /// order. The header has to be consistent and to encode a function;
    /// the order of the entries is not checked: a lookup still returns only
    /// entries that carry the key asked for.
    pub fn from_parts(function_header: &[u8], entries: Vec<E>) -> (r: Result<Self, CatalogError>)
        ensures
            match r {
                Ok(c) => header_ok(function_header@) && mphf_decoded(function_header@) == Some(
                    c.slots(),
                ) && c.entries() == entries@,
                Err(e) => e == CatalogError::BadHeader && (!header_ok(function_header@)
                    || mphf_decoded(function_header@) is None),
            },
    {
        match Mphf::read(function_header) {
            Some(mphf) => Ok(BUFRTableMPH { mphf, entries }),
            None => Err(CatalogError::BadHeader),
        }
    }

    /// The hash function as bytes: a consistent header, from which
    /// `from_parts` makes a catalog with the same slots.
    pub fn function_header(&self) -> (bytes: Vec<u8>)
        ensures
            header_ok(bytes@),
            mphf_decoded(bytes@) == Some(self.slots()),
    {
        proof {
            use_type_invariant(self);
        }
        mphf_write(&self.mphf)
    }

    /// The entry in the slot of a key. For a key that no entry carries this
    /// may be any entry, or none.
    pub fn lookup(&self, fxy: &FXY) -> (r: Option<&E>)
        ensures
            match r {
                Some(e) => self.spec_lookup(*fxy) == Some(*e),
                None => self.spec_lookup(*fxy) is None,
            },
    {
        proof {
            use_type_invariant(self);
        }
        match mphf_get(&self.mphf, fxy) {
            Some(slot) => {
                if slot < self.entries.len() as u64 {
                    Some(&self.entries[slot as usize])
                } else {
                    None
                }
            },
            None => None,
        }
    }

    /// The entry stored under a key, if there is one.
    pub fn get(&self, fxy: &FXY) -> (r: Option<&E>)
        ensures
            match r {
                Some(e) => self.spec_get(*fxy) == Some(*e),
                None => self.spec_get(*fxy) is None,
            },
    {
        match self.lookup(fxy) {
            Some(e) => {
                let key = e.fxy();
                if key.f == fxy.f && key.x == fxy.x && key.y == fxy.y {
                    Some(e)
                } else {
                    None
                }
            },
            None => None,
        }
    }

    /// All entries, in slot order.
    pub fn get_all_entries(&self) -> (r: Vec<&E>)
        ensures
            r@.len() == self.entries().len(),
            forall|i: int| 0 <= i < r@.len() ==> *(#[trigger] r@[i]) == self.entries()[i],
    {
        let mut result: Vec<&E> = Vec::with_capacity(self.entries.len());
        let mut i: usize = 0;
        while i < self.entries.len()
            invariant
                i <= self.entries@.len(),
                result@.len() == i,
                forall|k: int| 0 <= k < i ==> *(#[trigger] result@[k]) == self.entries@[k],
            decreases self.entries@.len() - i,
        {
            result.push(&self.entries[i]);
            i += 1;
        }
        result
    }

    /// Whether every entry sits in the slot of its own key.
    pub fn check(&self) -> (r: bool)
        ensures
            r == self.is_sound(),
    {
        proof {
            use_type_invariant(self);
        }
        let mut i: usize = 0;
        while i < self.entries.len()
            invariant
                i <= self.entries@.len(),
                mphf_well_formed(self.mphf),
                forall|k: int| 0 <= k < i ==> self.sits_at(k),
            decreases self.entries@.len() - i,
        {
            let key = self.entries[i].fxy();
            match mphf_get(&self.mphf, &key) {
                Some(slot) => {
                    if slot != i as u64 {
                        assert(!self.sits_at(i as int));
                        return false;
                    }
                },
                None => {
                    assert(!self.sits_at(i as int));
                    return false;
                },
            }
            i += 1;
        }
        true
    }
}

/// Soundness: in a catalog whose entries sit in the slots of their keys,
/// the lookup of an entry's key returns exactly that entry.
pub proof fn lemma_catalog_soundness<E: TableEntry>(catalog: BUFRTableMPH<E>, i: int)
    requires
        catalog.is_sound(),
        0 <= i < catalog.entries().len(),
    ensures
        catalog.spec_get(catalog.entries()[i].key()) == Some(catalog.entries()[i]),
{
    assert(catalog.sits_at(i));
}

/// Tightness: whatever a lookup returns carries the key asked for, so a key
/// that no entry carries is never found.
pub proof fn lemma_catalog_tightness<E: TableEntry>(catalog: BUFRTableMPH<E>, key: FXY)
    ensures
        catalog.spec_get(key) is Some ==> catalog.spec_get(key)->0.key() == key,
        (forall|i: int| 0 <= i < catalog.entries().len() ==> catalog.entries()[i].key() != key)
            ==> catalog.spec_get(key) is None,
{
}

/// A catalog whose stored entries all come from a list of source entries,
/// as those of a built catalog do, finds no key that no source entry
/// carries.
pub proof fn lemma_foreign_key_not_found<E: TableEntry>(
    catalog: BUFRTableMPH<E>,
    source: Seq<E>,
    key: FXY,
)
    requires
        forall|s: int|
            0 <= s < catalog.entries().len() ==> source.contains(#[trigger] catalog.entries()[s]),
        forall|i: int| 0 <= i < source.len() ==> (#[trigger] source[i]).key() != key,
    ensures
        catalog.spec_get(key) is None,
{
    if catalog.spec_get(key) is Some {
        let h = slot_in(catalog.slots(), key)->0 as int;
        assert(source.contains(catalog.entries()[h]));
    }
}

/// A catalog taken apart and put together again finds the same entries.
pub proof fn lemma_parts_round_trip<E: TableEntry>(
    saved: BUFRTableMPH<E>,
    header: Seq<u8>,
    loaded: BUFRTableMPH<E>,
    key: FXY,
)
    requires
        mphf_decoded(header) == Some(saved.slots()),
        mphf_decoded(header) == Some(loaded.slots()),
        loaded.entries() == saved.entries(),
    ensures
        loaded.spec_get(key) == saved.spec_get(key),
{
}

} // verus!
