//! The multi-version memory: for each memory location, the latest value written
//! by each transaction, with the incarnation that wrote it. A transaction reads the
//! value written by the highest transaction below it, or the chain state before the
//! block when no lower transaction wrote the location.
use std::collections::BTreeMap;

use vstd::prelude::*;

use crate::collections::{
    no_reads, read_origins_contents, read_origins_get, read_origins_len, read_set_contents,
    read_set_entries, read_set_new, ReadOrigins, ReadSet,
};
use crate::hashing::{hash_deterministic, location_hash, MemoryLocation, MemoryLocationHash};
use crate::primitives::Address;
use crate::types::{MemoryEntry, MemoryValue, ReadOrigin, TxIdx, TxVersion};

verus! {

// ---------------------------------------------------------------------------
// The closest entry below a transaction.
// ---------------------------------------------------------------------------

/// Some transaction below `bound` has an entry.
pub open spec fn has_key_below(m: Map<TxIdx, MemoryEntry>, bound: int) -> bool {
    exists|k: TxIdx| #[trigger] m.dom().contains(k) && k < bound
}

/// `k` is the highest transaction below `bound` that has an entry.
pub open spec fn is_max_below(m: Map<TxIdx, MemoryEntry>, bound: int, k: TxIdx) -> bool {
    &&& m.dom().contains(k)
    &&& k < bound
    &&& forall|j: TxIdx| #[trigger] m.dom().contains(j) && j < bound ==> j <= k
}

/// The entry of the highest transaction below `bound`, if there is one.
pub open spec fn closest_below(m: Map<TxIdx, MemoryEntry>, bound: int) -> Option<
    (TxIdx, MemoryEntry),
> {
    if has_key_below(m, bound) {
        let k = choose|k: TxIdx| is_max_below(m, bound, k);
        Some((k, m[k]))
    } else {
        None
    }
}

/// When some transaction below `bound` has an entry, there is a highest one.
pub proof fn lemma_max_below_exists(m: Map<TxIdx, MemoryEntry>, bound: int)
    requires
        has_key_below(m, bound),
    ensures
        exists|k: TxIdx| is_max_below(m, bound, k),
    decreases bound,
{
    let w = choose|k: TxIdx| #[trigger] m.dom().contains(k) && k < bound;
    if m.dom().contains((bound - 1) as TxIdx) && bound - 1 <= usize::MAX {
        assert(is_max_below(m, bound, (bound - 1) as TxIdx));
    } else {
        assert(has_key_below(m, bound - 1)) by {
            assert(m.dom().contains(w) && w < bound - 1);
        }
        let b1 = bound - 1;
        lemma_max_below_exists(m, b1);
        let k = choose|k: TxIdx| is_max_below(m, b1, k);
        assert(is_max_below(m, bound, k));
    }
}

/// What `closest_below` gives back, spelled out.
pub proof fn lemma_closest_below(m: Map<TxIdx, MemoryEntry>, bound: int)
    ensures
        match closest_below(m, bound) {
            Some((k, e)) => is_max_below(m, bound, k) && e == m[k],
            None => !has_key_below(m, bound),
        },
{
    if has_key_below(m, bound) {
        lemma_max_below_exists(m, bound);
    }
}

/// The entries below `bound`, highest first: what `MvEntries::last_below` gives
/// when called with `bound`, then again with each index it returned, until it
/// gives `None`.
pub open spec fn walk_below(m: Map<TxIdx, MemoryEntry>, bound: int) -> Seq<(TxIdx, MemoryEntry)>
    decreases bound,
{
    match closest_below(m, bound) {
        Some((k, e)) => {
            proof {
                lemma_closest_below(m, bound);
            }
            if 0 <= k < bound {
                seq![(k, e)] + walk_below(m, k as int)
            } else {
                Seq::empty()
            }
        },
        None => Seq::empty(),
    }
}

/// Walking down from `bound` with `last_below` visits every entry below
/// `bound` exactly once, in strictly decreasing order of index, and nothing
/// else. Both layouts of `MvEntries` have the same view, so they give the same
/// walk.
pub proof fn lemma_walk_below(m: Map<TxIdx, MemoryEntry>, bound: int)
    ensures
        forall|i: int, j: int|
            0 <= i < j < walk_below(m, bound).len() ==> #[trigger] walk_below(m, bound)[i].0
                > #[trigger] walk_below(m, bound)[j].0,
        forall|i: int|
            0 <= i < walk_below(m, bound).len() ==> m.dom().contains(#[trigger] walk_below(m, bound)[i].0)
                && walk_below(m, bound)[i].0 < bound && walk_below(m, bound)[i].1 == m[walk_below(m, bound)[i].0],
        forall|k: TxIdx|
            #[trigger] m.dom().contains(k) && k < bound ==> exists|i: int|
                0 <= i < walk_below(m, bound).len() && #[trigger] walk_below(m, bound)[i].0 == k,
    decreases bound,
{
    lemma_closest_below(m, bound);
    let w = walk_below(m, bound);
    match closest_below(m, bound) {
        Some((k, e)) => {
            let rest = walk_below(m, k as int);
            lemma_walk_below(m, k as int);
            assert(w == seq![(k, e)] + rest);
            assert forall|i: int| 0 < i < w.len() implies w[i] == rest[i - 1] by {}
            assert forall|i: int, j: int| 0 <= i < j < w.len() implies #[trigger] w[i].0 > #[trigger] w[j].0 by {
                if i > 0 {
                    assert(w[i] == rest[i - 1] && w[j] == rest[j - 1]);
                } else {
                    assert(w[j] == rest[j - 1]);
                }
            }
            assert forall|x: TxIdx| #[trigger] m.dom().contains(x) && x < bound implies exists|i: int|
                0 <= i < w.len() && #[trigger] w[i].0 == x by {
                if x == k {
                    assert(w[0].0 == x);
                } else {
                    assert(x < k);
                    let i0 = choose|i: int| 0 <= i < rest.len() && #[trigger] rest[i].0 == x;
                    assert(w[i0 + 1] == rest[i0]);
                }
            }
        },
        None => {
            assert(w.len() == 0);
        },
    }
}

/// Wraps `BTreeMap::range(..bound).next_back()`: the entry with the greatest key
/// below `bound`, found in the map's key order.
#[verifier::external_body]
fn btree_last_below(map: &BTreeMap<TxIdx, MemoryEntry>, bound: TxIdx) -> (r: Option<
    (TxIdx, MemoryEntry),
>)
    ensures
        r == closest_below(map@, bound as int),
{
    map.range(..bound).next_back().map(|(k, e)| (*k, *e))
}

// ---------------------------------------------------------------------------
// The entries of one location.
// ---------------------------------------------------------------------------

/// The entries of a vector of slots indexed by transaction.
pub open spec fn dense_view(slots: Seq<Option<MemoryEntry>>) -> Map<TxIdx, MemoryEntry> {
    Map::new(
        |i: TxIdx| (i as int) < slots.len() && slots[i as int] is Some,
        |i: TxIdx| slots[i as int]->0,
    )
}

/// Per-location multi-version storage, in one of two layouts.
///
/// Sparse: a `BTreeMap` keyed by transaction, used for most locations (storage
/// slots, code hashes, etc.), where only a handful of transactions write.
///
/// Dense: a vector of slots indexed by transaction, used for lazily updated
/// addresses (beneficiary, fee recipients, raw-transfer accounts) that can receive
/// writes from nearly every transaction in the block.
pub enum MvEntries {
    Sparse(BTreeMap<TxIdx, MemoryEntry>),
    Dense(Vec<Option<MemoryEntry>>),
}

impl View for MvEntries {
    type V = Map<TxIdx, MemoryEntry>;

    open spec fn view(&self) -> Map<TxIdx, MemoryEntry> {
        match self {
            MvEntries::Sparse(map) => map@,
            MvEntries::Dense(slots) => dense_view(slots@),
        }
    }
}

impl MvEntries {
    /// Every transaction that has an entry is in the block, and a dense vector has
    /// one slot per transaction.
    pub open spec fn wf(&self, block_size: nat) -> bool {
        match self {
            MvEntries::Sparse(map) => forall|k: TxIdx| #[trigger] map@.dom().contains(k) ==> k < block_size,
            MvEntries::Dense(slots) => slots@.len() == block_size,
        }
    }

    pub open spec fn is_dense(&self) -> bool {
        self is Dense
    }

    pub fn new_sparse() -> (r: MvEntries)
        ensures
            r@ == Map::<TxIdx, MemoryEntry>::empty(),
            !r.is_dense(),
            forall|n: nat| r.wf(n),
    {
        MvEntries::Sparse(BTreeMap::new())
    }

    pub fn new_dense(block_size: usize) -> (r: MvEntries)
        ensures
            r@ == Map::<TxIdx, MemoryEntry>::empty(),
            r.is_dense(),
            r.wf(block_size as nat),
    {
        let mut slots: Vec<Option<MemoryEntry>> = Vec::with_capacity(block_size);
        let mut i: usize = 0;
        while i < block_size
            invariant
                i <= block_size,
                slots@.len() == i,
                forall|j: int| 0 <= j < i ==> slots@[j] is None,
            decreases block_size - i,
        {
            slots.push(None);
            i = i + 1;
        }
        let r = MvEntries::Dense(slots);
        assert(r@ =~= Map::<TxIdx, MemoryEntry>::empty());
        r
    }

    /// The entry of the highest transaction below `bound`. Sparse entries are
    /// searched in key order; dense slots are scanned backwards, skipping empty ones.
    pub fn last_below(&self, bound: TxIdx) -> (r: Option<(TxIdx, MemoryEntry)>)
        ensures
            r == closest_below(self@, bound as int),
    {
        match self {
            MvEntries::Sparse(map) => btree_last_below(map, bound),
            MvEntries::Dense(slots) => {
                let ghost m = self@;
                let mut cursor: usize = if bound < slots.len() {
                    bound
                } else {
                    slots.len()
                };
                while cursor > 0
                    invariant
                        m == dense_view(slots@),
                        m == self@,
                        cursor <= bound,
                        cursor <= slots@.len(),
                        forall|j: TxIdx| cursor <= j < bound ==> !#[trigger] m.dom().contains(j),
                    decreases cursor,
                {
                    cursor = cursor - 1;
                    match slots[cursor] {
                        Some(entry) => {
                            proof {
                                assert(m.dom().contains(cursor));
                                assert(is_max_below(m, bound as int, cursor));
                                lemma_closest_below(m, bound as int);
                                let (k, e) = closest_below(m, bound as int)->0;
                                assert(k <= cursor && cursor <= k);
                                assert(m[cursor] == entry);
                            }
                            return Some((cursor, entry));
                        },
                        None => {
                            assert(!m.dom().contains(cursor));
                        },
                    }
                }
                proof {
                    assert(!has_key_below(m, bound as int)) by {
                        if has_key_below(m, bound as int) {
                            let w = choose|k: TxIdx| #[trigger] m.dom().contains(k) && k < bound;
                            assert(w < slots@.len());
                        }
                    }
                }
                None
            },
        }
    }

    /// Puts `entry` at transaction `tx_idx`, in place for either layout.
    pub fn set(&mut self, tx_idx: TxIdx, entry: MemoryEntry)
        requires
            dense_fits(*old(self), tx_idx),
        ensures
            final(self)@ == old(self)@.insert(tx_idx, entry),
            final(self).is_dense() == old(self).is_dense(),
            forall|n: nat| old(self).wf(n) && (tx_idx as nat) < n ==> #[trigger] final(self).wf(n),
    {
        match self {
            MvEntries::Sparse(map) => {
                map.insert(tx_idx, entry);
            },
            MvEntries::Dense(slots) => {
                slots.set(tx_idx, Some(entry));
            },
        }
        proof {
            assert(final(self)@ =~= old(self)@.insert(tx_idx, entry));
        }
    }

    /// Drops the entry of transaction `tx_idx`, if any.
    pub fn clear(&mut self, tx_idx: TxIdx)
        requires
            dense_fits(*old(self), tx_idx),
        ensures
            final(self)@ == old(self)@.remove(tx_idx),
            final(self).is_dense() == old(self).is_dense(),
            forall|n: nat| old(self).wf(n) ==> #[trigger] final(self).wf(n),
    {
        match self {
            MvEntries::Sparse(map) => {
                map.remove(&tx_idx);
            },
            MvEntries::Dense(slots) => {
                slots.set(tx_idx, None);
            },
        }
        proof {
            assert(final(self)@ =~= old(self)@.remove(tx_idx));
        }
    }
}

/// A transaction index always fits a sparse map; it fits a dense vector when
/// the vector has a slot for it.
pub open spec fn dense_fits(e: MvEntries, tx_idx: TxIdx) -> bool {
    match e {
        MvEntries::Sparse(_) => true,
        MvEntries::Dense(slots) => tx_idx < slots@.len(),
    }
}


// ---------------------------------------------------------------------------
// All locations: a `dashmap::DashMap<MemoryLocationHash, MvEntries>`.
// ---------------------------------------------------------------------------

/// The multi-version entries of every location that has any.
#[verifier::external_body]
pub struct MvData {
    inner: dashmap::DashMap<MemoryLocationHash, MvEntries>,
}

/// The entries held for each location.
pub uninterp spec fn mv_data_contents(data: MvData) -> Map<MemoryLocationHash, MvEntries>;

/// No location has entries.
pub open spec fn no_entries() -> Map<MemoryLocationHash, MvEntries> {
    Map::empty()
}

/// Wraps `DashMap::new`: an empty map.
#[verifier::external_body]
fn mv_data_new() -> (r: MvData)
    ensures
        mv_data_contents(r) == no_entries(),
{
    MvData { inner: dashmap::DashMap::new() }
}

/// Wraps `DashMap::contains_key`.
#[verifier::external_body]
fn mv_data_contains(data: &MvData, location: MemoryLocationHash) -> (r: bool)
    ensures
        r == mv_data_contents(*data).contains_key(location),
{
    data.inner.contains_key(&location)
}

/// Wraps `DashMap::insert`: `location` now holds `entries`.
#[verifier::external_body]
fn mv_data_insert(data: &mut MvData, location: MemoryLocationHash, entries: MvEntries)
    ensures
        mv_data_contents(*final(data)) == mv_data_contents(*old(data)).insert(location, entries),
{
    data.inner.insert(location, entries);
}

/// Wraps `DashMap::remove`: takes the entries of `location` out of the map.
#[verifier::external_body]
fn mv_data_remove(data: &mut MvData, location: MemoryLocationHash) -> (r: Option<MvEntries>)
    ensures
        mv_data_contents(*final(data)) == mv_data_contents(*old(data)).remove(location),
        match r {
            Some(e) => mv_data_contents(*old(data)).contains_key(location) && e == mv_data_contents(
                *old(data),
            )[location],
            None => !mv_data_contents(*old(data)).contains_key(location),
        },
{
    data.inner.remove(&location).map(|(_, e)| e)
}

/// Wraps `DashMap::view`, handing it `MvEntries::last_below` to find, in the
/// entries of `location`, the closest one below `bound`; `None` when the
/// location has no entries.
#[verifier::external_body]
fn mv_data_last_below(data: &MvData, location: MemoryLocationHash, bound: TxIdx) -> (r: Option<
    Option<(TxIdx, MemoryEntry)>,
>)
    ensures
        match r {
            Some(c) => mv_data_contents(*data).contains_key(location) && c == closest_below(
                mv_data_contents(*data)[location]@,
                bound as int,
            ),
            None => !mv_data_contents(*data).contains_key(location),
        },
{
    data.inner.view(&location, |_, e| e.last_below(bound))
}

// ---------------------------------------------------------------------------
// The multi-version memory.
// ---------------------------------------------------------------------------

/// The entries of each location held in `contents`.
pub open spec fn entries_of(contents: Map<MemoryLocationHash, MvEntries>) -> Map<MemoryLocationHash, Map<TxIdx, MemoryEntry>> {
    Map::new(
        |l: MemoryLocationHash| contents.contains_key(l),
        |l: MemoryLocationHash| contents[l]@,
    )
}

proof fn lemma_entries_of_insert(contents: Map<MemoryLocationHash, MvEntries>, location: MemoryLocationHash, e: MvEntries)
    ensures
        entries_of(contents.insert(location, e)) =~= entries_of(contents).insert(location, e@),
{
}

proof fn lemma_entries_of_remove_absent(contents: Map<MemoryLocationHash, MvEntries>, location: MemoryLocationHash)
    requires
        !contents.contains_key(location),
    ensures
        contents.remove(location) =~= contents,
{
}

/// The last read and written locations of a transaction.
pub struct LastLocations {
    pub read: ReadSet,
    pub write: Vec<MemoryLocationHash>,
}

impl LastLocations {
    pub fn new() -> (r: LastLocations)
        ensures
            read_set_contents(r.read) == no_reads(),
            r.write@ == Seq::<MemoryLocationHash>::empty(),
    {
        LastLocations { read: read_set_new(), write: Vec::new() }
    }
}

/// The shared memory of the block, in the form of a multi-version data structure
/// for the values written and read by the transactions. It stores several writes
/// for each memory location, each with the version of the transaction that wrote it.
pub struct MvMemory {
    /// Per-location multi-version entries: sparse for most locations, dense for
    /// lazily updated addresses.
    data: MvData,
    /// The number of transactions in the block.
    block_size: usize,
    /// The last read and written locations of each transaction.
    last_locations: Vec<LastLocations>,
    /// Lazily updated addresses that need full evaluation at the end of the block;
    /// none occurs twice.
    lazy_addresses: Vec<Address>,
}

/// The basic location of an address.
pub open spec fn basic_hash(address: Address) -> MemoryLocationHash {
    location_hash(MemoryLocation::Basic(address), usize::BITS)
}

/// The locations that a write set writes to.
pub open spec fn written_locations(write_set: Seq<(MemoryLocationHash, MemoryValue)>) -> Set<
    MemoryLocationHash,
> {
    Set::new(|l: MemoryLocationHash| exists|i: int| 0 <= i < write_set.len() && #[trigger] write_set[i].0 == l)
}

/// The value that a write set writes last to `location`.
pub open spec fn last_write(write_set: Seq<(MemoryLocationHash, MemoryValue)>, location: MemoryLocationHash) -> MemoryValue
    decreases write_set.len(),
{
    if write_set.len() == 0 {
        arbitrary()
    } else if write_set.last().0 == location {
        write_set.last().1
    } else {
        last_write(write_set.drop_last(), location)
    }
}

/// The entries after a transaction version records its write set, having written
/// `prev_writes` in its previous incarnation: each written location gets the last
/// value written to it, and the locations that are no longer written lose the entry.
pub open spec fn recorded_entries(
    entries: Map<MemoryLocationHash, Map<TxIdx, MemoryEntry>>,
    tx_version: TxVersion,
    prev_writes: Seq<MemoryLocationHash>,
    write_set: Seq<(MemoryLocationHash, MemoryValue)>,
) -> Map<MemoryLocationHash, Map<TxIdx, MemoryEntry>> {
    let written = written_locations(write_set);
    Map::new(
        |l: MemoryLocationHash| entries.contains_key(l) || written.contains(l),
        |l: MemoryLocationHash|
            if written.contains(l) {
                let before = if entries.contains_key(l) {
                    entries[l]
                } else {
                    Map::empty()
                };
                before.insert(
                    tx_version.tx_idx,
                    MemoryEntry::Data(tx_version.tx_incarnation, last_write(write_set, l)),
                )
            } else if prev_writes.contains(l) {
                entries[l].remove(tx_version.tx_idx)
            } else {
                entries[l]
            },
    )
}

/// The entries after the writes of `tx_idx` at `locations` become estimates.
pub open spec fn estimated_entries(
    entries: Map<MemoryLocationHash, Map<TxIdx, MemoryEntry>>,
    tx_idx: TxIdx,
    locations: Seq<MemoryLocationHash>,
) -> Map<MemoryLocationHash, Map<TxIdx, MemoryEntry>> {
    Map::new(
        |l: MemoryLocationHash| entries.contains_key(l),
        |l: MemoryLocationHash|
            if locations.contains(l) {
                entries[l].insert(tx_idx, MemoryEntry::Estimate)
            } else {
                entries[l]
            },
    )
}

/// The origins recorded by a read are still what a read below `bound` would see:
/// each origin from the multi-version data names the next closest entry going down,
/// which holds data of that incarnation, and an origin from storage means that no
/// entry is left below.
pub open spec fn origins_match(m: Map<TxIdx, MemoryEntry>, bound: int, origins: Seq<ReadOrigin>) -> bool
    decreases origins.len(),
{
    if origins.len() == 0 {
        true
    } else {
        match origins[0] {
            ReadOrigin::MvMemory(version) => match closest_below(m, bound) {
                Some((k, MemoryEntry::Data(incarnation, _))) => k == version.tx_idx && incarnation
                    == version.tx_incarnation && origins_match(m, k as int, origins.drop_first()),
                _ => false,
            },
            ReadOrigin::Storage => closest_below(m, bound) is None && origins_match(
                m,
                bound,
                origins.drop_first(),
            ),
        }
    }
}

/// A recorded read of `location` by transaction `tx_idx` is still valid.
pub open spec fn read_still_valid(
    entries: Map<MemoryLocationHash, Map<TxIdx, MemoryEntry>>,
    location: MemoryLocationHash,
    origins: Seq<ReadOrigin>,
    tx_idx: TxIdx,
) -> bool {
    if entries.contains_key(location) {
        origins_match(entries[location], tx_idx as int, origins)
    } else {
        origins == seq![ReadOrigin::Storage]
    }
}

/// Every recorded read of `tx_idx` is still valid.
pub open spec fn read_set_valid(
    entries: Map<MemoryLocationHash, Map<TxIdx, MemoryEntry>>,
    reads: Map<MemoryLocationHash, Seq<ReadOrigin>>,
    tx_idx: TxIdx,
) -> bool {
    forall|l: MemoryLocationHash| #[trigger] reads.contains_key(l) ==> read_still_valid(entries, l, reads[l], tx_idx)
}

/// A read set is valid only while each location read still holds what was
/// read: a read recorded as coming from incarnation `i` of transaction `k`
/// needs the closest entry below the reader to be data of transaction `k`
/// written by that same incarnation; a read recorded as coming from storage
/// needs no entry below the reader at all.
pub proof fn lemma_valid_reads_name_current_writes(
    entries: Map<MemoryLocationHash, Map<TxIdx, MemoryEntry>>,
    reads: Map<MemoryLocationHash, Seq<ReadOrigin>>,
    tx_idx: TxIdx,
    location: MemoryLocationHash,
)
    requires
        read_set_valid(entries, reads, tx_idx),
        reads.contains_key(location),
        reads[location].len() > 0,
    ensures
        reads[location][0] matches ReadOrigin::MvMemory(v) ==> entries.contains_key(location) && exists|value: MemoryValue|
            closest_below(entries[location], tx_idx as int) == Some(
                (v.tx_idx, MemoryEntry::Data(v.tx_incarnation, value)),
            ),
        reads[location][0] is Storage ==> !entries.contains_key(location) || closest_below(
            entries[location],
            tx_idx as int,
        ) is None,
{
    assert(read_still_valid(entries, location, reads[location], tx_idx));
    if let ReadOrigin::MvMemory(v) = reads[location][0] {
        if entries.contains_key(location) {
            if let Some((k, MemoryEntry::Data(incarnation, value))) = closest_below(entries[location], tx_idx as int) {
                assert(closest_below(entries[location], tx_idx as int) == Some(
                    (v.tx_idx, MemoryEntry::Data(v.tx_incarnation, value)),
                ));
            }
        } else {
            assert(reads[location] == seq![ReadOrigin::Storage]);
        }
    }
}

/// Origins that still match name, in order, the entries met walking down from
/// the reader: the `j`-th origin is the `j`-th entry below the reader, data
/// written by exactly the incarnation the origin names; once the entries run
/// out, the remaining origins are reads from storage.
pub proof fn lemma_matching_origins_follow_walk(m: Map<TxIdx, MemoryEntry>, bound: int, origins: Seq<ReadOrigin>)
    requires
        origins_match(m, bound, origins),
    ensures
        forall|j: int|
            0 <= j < origins.len() ==> if j < walk_below(m, bound).len() {
                &&& #[trigger] origins[j] matches ReadOrigin::MvMemory(v)
                &&& v.tx_idx == walk_below(m, bound)[j].0
                &&& walk_below(m, bound)[j].1 matches MemoryEntry::Data(incarnation, _)
                &&& incarnation == v.tx_incarnation
            } else {
                origins[j] is Storage
            },
    decreases origins.len(),
{
    if origins.len() > 0 {
        lemma_closest_below(m, bound);
        let rest = origins.drop_first();
        match origins[0] {
            ReadOrigin::MvMemory(version) => {
                let (k, e) = closest_below(m, bound)->0;
                assert(walk_below(m, bound) == seq![(k, e)] + walk_below(m, k as int));
                lemma_matching_origins_follow_walk(m, k as int, rest);
                assert forall|j: int| 1 <= j < origins.len() implies origins[j] == rest[j - 1] by {}
            },
            ReadOrigin::Storage => {
                assert(walk_below(m, bound).len() == 0);
                lemma_matching_origins_follow_walk(m, bound, rest);
                assert forall|j: int| 1 <= j < origins.len() implies origins[j] == rest[j - 1] by {}
            },
        }
    }
}

impl MvMemory {
    /// The entries of each location.
    pub closed spec fn entries(&self) -> Map<MemoryLocationHash, Map<TxIdx, MemoryEntry>> {
        entries_of(mv_data_contents(self.data))
    }

    /// The locations held in the dense layout.
    pub closed spec fn dense_locations(&self) -> Set<MemoryLocationHash> {
        Set::new(
            |l: MemoryLocationHash|
                mv_data_contents(self.data).contains_key(l) && mv_data_contents(self.data)[l].is_dense(),
        )
    }

    /// The number of transactions in the block.
    pub closed spec fn size(&self) -> nat {
        self.block_size as nat
    }

    /// The read set last recorded by transaction `tx_idx`.
    pub closed spec fn reads_of(&self, tx_idx: int) -> Map<MemoryLocationHash, Seq<ReadOrigin>> {
        read_set_contents(self.last_locations@[tx_idx].read)
    }

    /// The locations last written by transaction `tx_idx`.
    pub closed spec fn writes_of(&self, tx_idx: int) -> Seq<MemoryLocationHash> {
        self.last_locations@[tx_idx].write@
    }

    /// The lazily updated addresses, in the order they were added.
    pub closed spec fn lazy(&self) -> Seq<Address> {
        self.lazy_addresses@
    }

    pub closed spec fn wf(&self) -> bool {
        &&& self.last_locations@.len() == self.block_size
        &&& forall|l: MemoryLocationHash| #[trigger]
            mv_data_contents(self.data).contains_key(l) ==> mv_data_contents(self.data)[l].wf(
                self.block_size as nat,
            )
        &&& self.lazy_addresses@.no_duplicates()
        &&& forall|i: int| 0 <= i < self.lazy_addresses@.len() ==> self.dense_locations().contains(
            #[trigger] basic_hash(self.lazy_addresses@[i]),
        )
        &&& forall|t: int| 0 <= t < self.block_size ==> (#[trigger] self.last_locations@[t]).write@.no_duplicates()
    }
}


/// Whether `location` is among `locations`.
fn contains_location(locations: &Vec<MemoryLocationHash>, location: MemoryLocationHash) -> (r: bool)
    ensures
        r == locations@.contains(location),
{
    let mut i: usize = 0;
    while i < locations.len()
        invariant
            i <= locations@.len(),
            forall|j: int| 0 <= j < i ==> locations@[j] != location,
        decreases locations@.len() - i,
    {
        if locations[i] == location {
            return true;
        }
        i = i + 1;
    }
    false
}

/// Whether the write set writes to `location`.
fn writes_to(write_set: &Vec<(MemoryLocationHash, MemoryValue)>, location: MemoryLocationHash) -> (r: bool)
    ensures
        r == written_locations(write_set@).contains(location),
{
    let mut i: usize = 0;
    while i < write_set.len()
        invariant
            i <= write_set@.len(),
            forall|j: int| 0 <= j < i ==> write_set@[j].0 != location,
        decreases write_set@.len() - i,
    {
        if write_set[i].0 == location {
            assert(write_set@[i as int].0 == location);
            return true;
        }
        i = i + 1;
    }
    false
}

proof fn lemma_push_contains<T>(s: Seq<T>, x: T)
    ensures
        forall|y: T| #[trigger] s.push(x).contains(y) <==> (s.contains(y) || y == x),
        s.no_duplicates() && !s.contains(x) ==> s.push(x).no_duplicates(),
{
    assert forall|y: T| #[trigger] s.push(x).contains(y) <==> (s.contains(y) || y == x) by {
        if s.push(x).contains(y) {
            let k = choose|k: int| 0 <= k < s.push(x).len() && s.push(x)[k] == y;
            if k < s.len() {
                assert(s[k] == y);
            }
        }
        if s.contains(y) {
            let k = choose|k: int| 0 <= k < s.len() && s[k] == y;
            assert(s.push(x)[k] == y);
        }
        if y == x {
            assert(s.push(x)[s.len() as int] == y);
        }
    }
    if s.no_duplicates() && !s.contains(x) {
        assert forall|i: int, j: int| 0 <= i < s.push(x).len() && 0 <= j < s.push(x).len() && i != j implies s.push(x)[i] != s.push(x)[j] by {
            if i < s.len() && j < s.len() {
            } else if i < s.len() {
                assert(s.contains(s[i]));
            } else if j < s.len() {
                assert(s.contains(s[j]));
            }
        }
    }
}

proof fn lemma_origins_skip(origins: Seq<ReadOrigin>, i: int)
    requires
        0 <= i < origins.len(),
    ensures
        origins.skip(i).len() > 0,
        origins.skip(i)[0] == origins[i],
        origins.skip(i).drop_first() =~= origins.skip(i + 1),
{
}

impl MvMemory {
    /// Checks one recorded read of `tx_idx` against the current entries.
    fn read_location_valid(&self, location: MemoryLocationHash, origins: &ReadOrigins, tx_idx: TxIdx) -> (r: bool)
        ensures
            r == read_still_valid(self.entries(), location, read_origins_contents(*origins), tx_idx),
    {
        let ghost all = read_origins_contents(*origins);
        let n = read_origins_len(origins);
        match mv_data_last_below(&self.data, location, tx_idx) {
            None => {
                // Read from the multi-version data but now it is cleared.
                if n != 1 {
                    return false;
                }
                let only = read_origins_get(origins, 0);
                proof {
                    if only == ReadOrigin::Storage {
                        assert(all =~= seq![ReadOrigin::Storage]);
                    }
                }
                only == ReadOrigin::Storage
            },
            Some(first) => {
                let ghost m = self.entries()[location];
                let mut current = first;
                let mut bound: TxIdx = tx_idx;
                let mut i: usize = 0;
                assert(all.skip(0) =~= all);
                while i < n
                    invariant
                        n == all.len(),
                        i <= n,
                        self.entries().contains_key(location),
                        m == self.entries()[location],
                        m == mv_data_contents(self.data)[location]@,
                        current == closest_below(m, bound as int),
                        all == read_origins_contents(*origins),
                        origins_match(m, tx_idx as int, all) == origins_match(m, bound as int, all.skip(i as int)),
                    decreases n - i,
                {
                    proof {
                        lemma_origins_skip(all, i as int);
                    }
                    match read_origins_get(origins, i) {
                        ReadOrigin::MvMemory(prior) => {
                            // Found something: it must match the version. An estimate
                            // (pending re-execution) or another version means the read is stale.
                            match current {
                                Some((closest_idx, MemoryEntry::Data(incarnation, _))) => {
                                    if closest_idx != prior.tx_idx || incarnation != prior.tx_incarnation {
                                        return false;
                                    }
                                    bound = closest_idx;
                                    current = match mv_data_last_below(&self.data, location, bound) {
                                        Some(c) => c,
                                        None => {
                                            return false;
                                        },
                                    };
                                },
                                _ => {
                                    return false;
                                },
                            }
                        },
                        ReadOrigin::Storage => {
                            // Read from storage but there is now something in between.
                            if current.is_some() {
                                return false;
                            }
                        },
                    }
                    i = i + 1;
                }
                assert(all.skip(n as int) =~= Seq::<ReadOrigin>::empty());
                true
            },
        }
    }

    /// Checks that re-reading each location of the last read set recorded by
    /// `tx_idx` still gives the same origins.
    ///
    /// This runs when the incarnation being validated has executed and recorded its
    /// read set. A slow validation may observe the read set of a later incarnation;
    /// the earlier one is then already aborted and the outcome has no effect.
    pub fn validate_read_locations(&self, tx_idx: TxIdx) -> (r: bool)
        requires
            self.wf(),
            tx_idx < self.size(),
        ensures
            r == read_set_valid(self.entries(), self.reads_of(tx_idx as int), tx_idx),
    {
        let reads = read_set_entries(&self.last_locations[tx_idx].read);
        let ghost set = self.reads_of(tx_idx as int);
        let mut i: usize = 0;
        while i < reads.len()
            invariant
                i <= reads@.len(),
                set == self.reads_of(tx_idx as int),
                set == read_set_contents(self.last_locations@[tx_idx as int].read),
                forall|k: int| 0 <= k < reads@.len() ==> set.contains_key(#[trigger] reads@[k].0)
                    && read_origins_contents(reads@[k].1) == set[reads@[k].0],
                forall|l: MemoryLocationHash|
                    set.contains_key(l) ==> exists|k: int| 0 <= k < reads@.len() && #[trigger] reads@[k].0 == l,
                forall|k: int| 0 <= k < i ==> read_still_valid(self.entries(), #[trigger] reads@[k].0, set[reads@[k].0], tx_idx),
            decreases reads@.len() - i,
        {
            if !self.read_location_valid(reads[i].0, &reads[i].1, tx_idx) {
                assert(!read_still_valid(self.entries(), reads@[i as int].0, set[reads@[i as int].0], tx_idx));
                assert(set.contains_key(reads@[i as int].0));
                return false;
            }
            i = i + 1;
        }
        assert forall|l: MemoryLocationHash| #[trigger] set.contains_key(l) implies read_still_valid(self.entries(), l, set[l], tx_idx) by {
            let k = choose|k: int| 0 <= k < reads@.len() && #[trigger] reads@[k].0 == l;
            assert(read_still_valid(self.entries(), reads@[k].0, set[reads@[k].0], tx_idx));
        }
        true
    }
}


/// The entries after the locations in `removed` lose the entry of `tx_idx`.
pub open spec fn entries_without(
    entries: Map<MemoryLocationHash, Map<TxIdx, MemoryEntry>>,
    tx_idx: TxIdx,
    removed: Set<MemoryLocationHash>,
) -> Map<MemoryLocationHash, Map<TxIdx, MemoryEntry>> {
    Map::new(
        |l: MemoryLocationHash| entries.contains_key(l),
        |l: MemoryLocationHash|
            if removed.contains(l) {
                entries[l].remove(tx_idx)
            } else {
                entries[l]
            },
    )
}

/// The entries after writing the first values of a write set in order.
pub open spec fn entries_with_writes(
    entries: Map<MemoryLocationHash, Map<TxIdx, MemoryEntry>>,
    tx_version: TxVersion,
    write_set: Seq<(MemoryLocationHash, MemoryValue)>,
) -> Map<MemoryLocationHash, Map<TxIdx, MemoryEntry>> {
    let written = written_locations(write_set);
    Map::new(
        |l: MemoryLocationHash| entries.contains_key(l) || written.contains(l),
        |l: MemoryLocationHash|
            if written.contains(l) {
                let before = if entries.contains_key(l) {
                    entries[l]
                } else {
                    Map::empty()
                };
                before.insert(
                    tx_version.tx_idx,
                    MemoryEntry::Data(tx_version.tx_incarnation, last_write(write_set, l)),
                )
            } else {
                entries[l]
            },
    )
}

proof fn lemma_written_take(write_set: Seq<(MemoryLocationHash, MemoryValue)>, i: int)
    requires
        0 <= i < write_set.len(),
    ensures
        written_locations(write_set.take(i + 1)) == written_locations(write_set.take(i)).insert(write_set[i].0),
        forall|l: MemoryLocationHash|
            #[trigger] last_write(write_set.take(i + 1), l) == if write_set[i].0 == l {
                write_set[i].1
            } else {
                last_write(write_set.take(i), l)
            },
{
    let a = write_set.take(i + 1);
    let b = write_set.take(i);
    assert(a.drop_last() =~= b);
    assert(a.last() == write_set[i]);
    assert forall|l: MemoryLocationHash| written_locations(a).contains(l) == written_locations(b).insert(write_set[i].0).contains(l) by {
        if written_locations(a).contains(l) {
            let k = choose|k: int| 0 <= k < a.len() && #[trigger] a[k].0 == l;
            if k < i {
                assert(b[k].0 == l);
            }
        }
        if written_locations(b).contains(l) {
            let k = choose|k: int| 0 <= k < b.len() && #[trigger] b[k].0 == l;
            assert(a[k].0 == l);
        }
        if l == write_set[i].0 {
            assert(a[i].0 == l);
        }
    }
    assert(written_locations(a) =~= written_locations(b).insert(write_set[i].0));
}

impl MvMemory {
    /// Replaces the write set of an aborted version with estimate markers, so that
    /// higher transactions that read them stop at once.
    pub fn convert_writes_to_estimates(&mut self, tx_idx: TxIdx)
        requires
            old(self).wf(),
            tx_idx < old(self).size(),
        ensures
            final(self).wf(),
            final(self).entries() == estimated_entries(old(self).entries(), tx_idx, old(self).writes_of(tx_idx as int)),
            final(self).dense_locations() == old(self).dense_locations(),
            final(self).size() == old(self).size(),
            final(self).lazy() == old(self).lazy(),
            forall|t: int| #[trigger] final(self).reads_of(t) == old(self).reads_of(t),
            forall|t: int| #[trigger] final(self).writes_of(t) == old(self).writes_of(t),
    {
        let ghost old_entries = self.entries();
        let ghost old_dense = self.dense_locations();
        let ghost writes = self.writes_of(tx_idx as int);
        let n = self.last_locations[tx_idx].write.len();
        let mut i: usize = 0;
        while i < n
            invariant
                self.wf(),
                i <= n,
                tx_idx < self.block_size,
                n == writes.len(),
                writes == self.last_locations@[tx_idx as int].write@,
                self.block_size == old(self).block_size,
                self.lazy_addresses == old(self).lazy_addresses,
                self.last_locations == old(self).last_locations,
                self.dense_locations() == old_dense,
                self.entries() == estimated_entries(old_entries, tx_idx, writes.take(i as int)),
            decreases n - i,
        {
            let location = self.last_locations[tx_idx].write[i];
            let ghost c0 = mv_data_contents(self.data);
            let ghost before = self.entries();
            match mv_data_remove(&mut self.data, location) {
                Some(mut e) => {
                    e.set(tx_idx, MemoryEntry::Estimate);
                    mv_data_insert(&mut self.data, location, e);
                    proof {
                        assert(mv_data_contents(self.data) =~= c0.insert(location, e));
                        lemma_entries_of_insert(c0, location, e);
                    }
                },
                None => {
                    proof {
                        lemma_entries_of_remove_absent(c0, location);
                    }
                },
            }
            proof {
                assert(writes.take(i + 1) =~= writes.take(i as int).push(location));
                lemma_push_contains(writes.take(i as int), location);
                assert(self.dense_locations() =~= old_dense);
                let target = estimated_entries(old_entries, tx_idx, writes.take(i + 1));
                assert forall|l: MemoryLocationHash| #[trigger] self.entries().contains_key(l) implies self.entries()[l] =~= target[l] by {
                    if l == location {
                        assert(old_entries[l].insert(tx_idx, MemoryEntry::Estimate).insert(tx_idx, MemoryEntry::Estimate)
                            =~= old_entries[l].insert(tx_idx, MemoryEntry::Estimate));
                        assert(c0.contains_key(l));
                        assert(self.entries()[l] == c0[l]@.insert(tx_idx, MemoryEntry::Estimate));
                        assert(c0[l]@ == before[l]);
                        assert(target[l] == old_entries[l].insert(tx_idx, MemoryEntry::Estimate));
                    } else {
                        assert(self.entries()[l] == before[l]);
                        assert(target[l] == before[l]);
                    }
                }
                assert(self.entries() =~= target);
            }
            i = i + 1;
        }
        assert(writes.take(n as int) =~= writes);
    }

    /// Records a new pair of read and write sets of a transaction version. Returns
    /// whether it wrote to a location that the previous incarnation of the same
    /// transaction did not write, which decides whether the higher transactions
    /// that already executed need validating again.
    pub fn record(
        &mut self,
        tx_version: &TxVersion,
        read_set: ReadSet,
        write_set: Vec<(MemoryLocationHash, MemoryValue)>,
    ) -> (r: bool)
        requires
            old(self).wf(),
            tx_version.tx_idx < old(self).size(),
        ensures
            final(self).wf(),
            final(self).entries() == recorded_entries(
                old(self).entries(),
                *tx_version,
                old(self).writes_of(tx_version.tx_idx as int),
                write_set@,
            ),
            final(self).dense_locations() == old(self).dense_locations(),
            final(self).size() == old(self).size(),
            final(self).lazy() == old(self).lazy(),
            final(self).reads_of(tx_version.tx_idx as int) == read_set_contents(read_set),
            final(self).writes_of(tx_version.tx_idx as int).to_set() == written_locations(write_set@),
            forall|t: int| 0 <= t < old(self).size() && t != tx_version.tx_idx ==> #[trigger] final(self).reads_of(t) == old(self).reads_of(t),
            forall|t: int| 0 <= t < old(self).size() && t != tx_version.tx_idx ==> #[trigger] final(self).writes_of(t) == old(self).writes_of(t),
            r == exists|l: MemoryLocationHash| #[trigger] written_locations(write_set@).contains(l)
                && !old(self).writes_of(tx_version.tx_idx as int).contains(l),
    {
        let tx_idx = tx_version.tx_idx;
        let ghost old_entries = self.entries();
        let ghost old_dense = self.dense_locations();
        let ghost written = written_locations(write_set@);
        let prev_writes: Vec<MemoryLocationHash> = self.last_locations[tx_idx].write.clone();
        let ghost prev = self.writes_of(tx_idx as int);
        assert(prev_writes@ == prev);

        // Remove stale writes of the previous incarnation.
        let mut retained: Vec<MemoryLocationHash> = Vec::new();
        let mut idx: usize = 0;
        while idx < prev_writes.len()
            invariant
                self.wf(),
                idx <= prev_writes@.len(),
                prev_writes@ == prev,
                prev.no_duplicates(),
                tx_idx < self.block_size,
                self.block_size == old(self).block_size,
                self.lazy_addresses == old(self).lazy_addresses,
                self.last_locations == old(self).last_locations,
                self.dense_locations() == old_dense,
                written == written_locations(write_set@),
                retained@.no_duplicates(),
                forall|l: MemoryLocationHash| #[trigger] retained@.contains(l) <==> (prev.take(idx as int).contains(l) && written.contains(l)),
                self.entries() == entries_without(
                    old_entries,
                    tx_idx,
                    Set::new(|l: MemoryLocationHash| prev.take(idx as int).contains(l) && !written.contains(l)),
                ),
            decreases prev_writes@.len() - idx,
        {
            let prev_location = prev_writes[idx];
            let ghost c0 = mv_data_contents(self.data);
            let ghost before = self.entries();
            proof {
                assert(prev.take(idx + 1) =~= prev.take(idx as int).push(prev_location));
                lemma_push_contains(prev.take(idx as int), prev_location);
                lemma_push_contains(retained@, prev_location);
                assert(!prev.take(idx as int).contains(prev_location)) by {
                    if prev.take(idx as int).contains(prev_location) {
                        let k = choose|k: int| 0 <= k < idx && #[trigger] prev.take(idx as int)[k] == prev_location;
                        assert(prev[k] == prev[idx as int]);
                    }
                }
            }
            if !writes_to(&write_set, prev_location) {
                match mv_data_remove(&mut self.data, prev_location) {
                    Some(mut e) => {
                        e.clear(tx_idx);
                        mv_data_insert(&mut self.data, prev_location, e);
                        proof {
                            assert(mv_data_contents(self.data) =~= c0.insert(prev_location, e));
                            lemma_entries_of_insert(c0, prev_location, e);
                        }
                    },
                    None => {
                        proof {
                            lemma_entries_of_remove_absent(c0, prev_location);
                        }
                    },
                }
            } else {
                retained.push(prev_location);
            }
            proof {
                assert(self.dense_locations() =~= old_dense);
                let target = entries_without(
                    old_entries,
                    tx_idx,
                    Set::new(|l: MemoryLocationHash| prev.take(idx + 1).contains(l) && !written.contains(l)),
                );
                assert forall|l: MemoryLocationHash| #[trigger] self.entries().contains_key(l) implies self.entries()[l] =~= target[l] by {
                    if l == prev_location && !written.contains(l) && c0.contains_key(l) {
                        assert(self.entries()[l] == c0[l]@.remove(tx_idx));
                        assert(c0[l]@ == before[l]);
                        assert(before[l] == old_entries[l]);
                        assert(target[l] == old_entries[l].remove(tx_idx));
                    } else {
                        assert(self.entries()[l] == before[l]);
                        assert(target[l] == before[l]);
                    }
                }
                assert(self.entries() =~= target);
            }
            idx = idx + 1;
        }
        assert(prev.take(prev.len() as int) =~= prev);
        let ghost stage = self.entries();

        // Register new writes.
        let mut wrote_new_location = false;
        let mut i: usize = 0;
        while i < write_set.len()
            invariant
                self.wf(),
                i <= write_set@.len(),
                tx_idx == tx_version.tx_idx,
                tx_idx < self.block_size,
                self.block_size == old(self).block_size,
                self.lazy_addresses == old(self).lazy_addresses,
                self.last_locations == old(self).last_locations,
                self.dense_locations() == old_dense,
                written == written_locations(write_set@),
                stage == entries_without(
                    old_entries,
                    tx_idx,
                    Set::new(|l: MemoryLocationHash| prev.contains(l) && !written.contains(l)),
                ),
                retained@.no_duplicates(),
                forall|l: MemoryLocationHash| #[trigger] retained@.contains(l) <==> ((prev.contains(l) && written.contains(l))
                    || written_locations(write_set@.take(i as int)).contains(l)),
                wrote_new_location == exists|l: MemoryLocationHash| #[trigger] written_locations(write_set@.take(i as int)).contains(l)
                    && !prev.contains(l),
                self.entries() == entries_with_writes(stage, *tx_version, write_set@.take(i as int)),
            decreases write_set@.len() - i,
        {
            let (location, value) = write_set[i];
            let ghost c0 = mv_data_contents(self.data);
            let ghost before = self.entries();
            let ghost data = MemoryEntry::Data(tx_version.tx_incarnation, value);
            proof {
                lemma_written_take(write_set@, i as int);
                lemma_push_contains(retained@, location);
            }
            let mut e = match mv_data_remove(&mut self.data, location) {
                Some(e) => e,
                None => MvEntries::new_sparse(),
            };
            let ghost e0 = e;
            e.set(tx_idx, MemoryEntry::Data(tx_version.tx_incarnation, value));
            mv_data_insert(&mut self.data, location, e);
            proof {
                assert(mv_data_contents(self.data) =~= c0.insert(location, e));
                lemma_entries_of_insert(c0, location, e);
            }
            if !contains_location(&retained, location) {
                retained.push(location);
                wrote_new_location = true;
            }
            proof {
                let w0 = written_locations(write_set@.take(i as int));
                let w1 = written_locations(write_set@.take(i + 1));
                assert(w1.contains(location));
                assert(self.dense_locations() =~= old_dense);
                let target = entries_with_writes(stage, *tx_version, write_set@.take(i + 1));
                assert(last_write(write_set@.take(i + 1), location) == value);
                assert forall|l: MemoryLocationHash| #[trigger] self.entries().contains_key(l) implies self.entries()[l] =~= target[l] by {
                    if l == location {
                        let base = if stage.contains_key(l) { stage[l] } else { Map::empty() };
                        assert(self.entries()[l] == e0@.insert(tx_idx, data));
                        assert(target[l] == base.insert(tx_idx, data));
                        if w0.contains(l) {
                            let d0 = MemoryEntry::Data(tx_version.tx_incarnation, last_write(write_set@.take(i as int), l));
                            assert(before.contains_key(l));
                            assert(c0.contains_key(l));
                            assert(e0 == c0[l]);
                            assert(c0[l]@ == before[l]);
                            assert(before[l] == base.insert(tx_idx, d0));
                            assert(base.insert(tx_idx, d0).insert(tx_idx, data) =~= base.insert(tx_idx, data));
                        } else if c0.contains_key(l) {
                            assert(e0 == c0[l]);
                            assert(c0[l]@ == before[l]);
                            assert(before[l] == stage[l]);
                            assert(e0@ == stage[l]);
                        } else {
                            assert(!before.contains_key(l));
                            assert(!stage.contains_key(l));
                            assert(e0@ =~= base);
                        }
                    } else {
                        assert(self.entries()[l] == before[l]);
                        assert(w1.contains(l) == w0.contains(l));
                        assert(last_write(write_set@.take(i + 1), l) == last_write(write_set@.take(i as int), l));
                        assert(target[l] == before[l]);
                    }
                }
                assert forall|l: MemoryLocationHash| #[trigger] target.contains_key(l) implies self.entries().contains_key(l) by {
                    if l != location && w1.contains(l) {
                        assert(w0.contains(l));
                    }
                }
                assert(self.entries() =~= target);
                if wrote_new_location {
                    assert forall|l: MemoryLocationHash| #[trigger] w0.contains(l) implies w1.contains(l) by {}
                }
                assert forall|l: MemoryLocationHash| #[trigger] w1.contains(l) && !prev.contains(l) implies wrote_new_location by {
                    if l != location {
                        assert(w0.contains(l));
                    }
                }
            }
            i = i + 1;
        }
        assert(write_set@.take(write_set@.len() as int) =~= write_set@);
        self.last_locations.set(tx_idx, LastLocations { read: read_set, write: retained });
        proof {
            assert(self.entries() =~= recorded_entries(old_entries, *tx_version, prev, write_set@));
            assert(self.writes_of(tx_idx as int).to_set() =~= written);
        }
        wrote_new_location
    }
}


/// Estimate markers at the given transactions.
pub open spec fn estimate_map(idxs: Seq<TxIdx>) -> Map<TxIdx, MemoryEntry> {
    Map::new(|k: TxIdx| idxs.contains(k), |k: TxIdx| MemoryEntry::Estimate)
}

/// The entries of the estimated locations, a later location overriding an earlier
/// one with the same hash.
/// The estimated locations with their transaction indices as sequences.
pub open spec fn index_lists(estimated: Seq<(MemoryLocationHash, Vec<TxIdx>)>) -> Seq<(MemoryLocationHash, Seq<TxIdx>)> {
    estimated.map_values(|p: (MemoryLocationHash, Vec<TxIdx>)| (p.0, p.1@))
}

pub open spec fn estimated_locations_entries(estimated: Seq<(MemoryLocationHash, Seq<TxIdx>)>) -> Map<
    MemoryLocationHash,
    Map<TxIdx, MemoryEntry>,
>
    decreases estimated.len(),
{
    if estimated.len() == 0 {
        Map::empty()
    } else {
        estimated_locations_entries(estimated.drop_last()).insert(
            estimated.last().0,
            estimate_map(estimated.last().1),
        )
    }
}

/// `location` is the basic location of one of the addresses.
pub open spec fn is_lazy_location(lazy: Seq<Address>, location: MemoryLocationHash) -> bool {
    exists|i: int| 0 <= i < lazy.len() && #[trigger] basic_hash(lazy[i]) == location
}

/// The entries of a fresh memory: estimates at the estimated locations, and empty
/// entries at the locations of the lazy addresses, which override the estimates.
pub open spec fn initial_entries(
    estimated: Seq<(MemoryLocationHash, Seq<TxIdx>)>,
    lazy: Seq<Address>,
) -> Map<MemoryLocationHash, Map<TxIdx, MemoryEntry>> {
    let e = estimated_locations_entries(estimated);
    Map::new(
        |l: MemoryLocationHash| e.contains_key(l) || is_lazy_location(lazy, l),
        |l: MemoryLocationHash|
            if is_lazy_location(lazy, l) {
                Map::empty()
            } else {
                e[l]
            },
    )
}

/// Adding one lazy address to (entries, dense locations, lazy addresses): a new
/// address moves its basic location to the dense layout, keeping the entries of a
/// sparse location and starting from none otherwise.
pub open spec fn lazy_step(
    state: (Map<MemoryLocationHash, Map<TxIdx, MemoryEntry>>, Set<MemoryLocationHash>, Seq<Address>),
    address: Address,
) -> (Map<MemoryLocationHash, Map<TxIdx, MemoryEntry>>, Set<MemoryLocationHash>, Seq<Address>) {
    let (entries, dense, lazy) = state;
    if lazy.contains(address) {
        state
    } else {
        let h = basic_hash(address);
        let kept = if entries.contains_key(h) && !dense.contains(h) {
            entries[h]
        } else {
            Map::empty()
        };
        (entries.insert(h, kept), dense.insert(h), lazy.push(address))
    }
}

/// Adding the lazy addresses one after the other.
pub open spec fn lazy_steps(
    state: (Map<MemoryLocationHash, Map<TxIdx, MemoryEntry>>, Set<MemoryLocationHash>, Seq<Address>),
    addresses: Seq<Address>,
) -> (Map<MemoryLocationHash, Map<TxIdx, MemoryEntry>>, Set<MemoryLocationHash>, Seq<Address>)
    decreases addresses.len(),
{
    if addresses.len() == 0 {
        state
    } else {
        lazy_step(lazy_steps(state, addresses.drop_last()), addresses.last())
    }
}

/// Whether `address` is among `addresses`.
fn contains_address(addresses: &Vec<Address>, address: Address) -> (r: bool)
    ensures
        r == addresses@.contains(address),
{
    let mut i: usize = 0;
    while i < addresses.len()
        invariant
            i <= addresses@.len(),
            forall|j: int| 0 <= j < i ==> addresses@[j] != address,
        decreases addresses@.len() - i,
    {
        if addresses[i] == address {
            return true;
        }
        i = i + 1;
    }
    false
}

/// The estimate markers of one estimated location.
fn estimate_entries(idxs: &Vec<TxIdx>, block_size: usize) -> (r: MvEntries)
    requires
        forall|j: int| 0 <= j < idxs@.len() ==> #[trigger] idxs@[j] < block_size,
    ensures
        !r.is_dense(),
        r@ == estimate_map(idxs@),
        r.wf(block_size as nat),
{
    let mut map: BTreeMap<TxIdx, MemoryEntry> = BTreeMap::new();
    let mut i: usize = 0;
    while i < idxs.len()
        invariant
            i <= idxs@.len(),
            forall|j: int| 0 <= j < idxs@.len() ==> #[trigger] idxs@[j] < block_size,
            map@ == estimate_map(idxs@.take(i as int)),
        decreases idxs@.len() - i,
    {
        map.insert(idxs[i], MemoryEntry::Estimate);
        proof {
            assert(idxs@.take(i + 1) =~= idxs@.take(i as int).push(idxs@[i as int]));
            lemma_push_contains(idxs@.take(i as int), idxs@[i as int]);
            assert(map@ =~= estimate_map(idxs@.take(i + 1)));
        }
        i = i + 1;
    }
    assert(idxs@.take(idxs@.len() as int) =~= idxs@);
    let r = MvEntries::Sparse(map);
    assert forall|k: TxIdx| #[trigger] map@.dom().contains(k) implies k < block_size by {
        let j = choose|j: int| 0 <= j < idxs@.len() && idxs@[j] == k;
    }
    r
}

/// The entries of a sparse map moved into dense slots, one per transaction.
fn migrate_to_dense(map: BTreeMap<TxIdx, MemoryEntry>, block_size: usize) -> (r: MvEntries)
    requires
        forall|k: TxIdx| #[trigger] map@.dom().contains(k) ==> k < block_size,
    ensures
        r.is_dense(),
        r@ == map@,
        r.wf(block_size as nat),
{
    let mut slots: Vec<Option<MemoryEntry>> = Vec::with_capacity(block_size);
    let mut i: usize = 0;
    while i < block_size
        invariant
            i <= block_size,
            slots@.len() == i,
            forall|j: int| 0 <= j < i ==> slots@[j] is None,
        decreases block_size - i,
    {
        slots.push(None);
        i = i + 1;
    }
    let ghost m = map@;
    let mut bound: TxIdx = block_size;
    let mut done = false;
    while !done
        invariant
            m == map@,
            forall|k: TxIdx| #[trigger] m.dom().contains(k) ==> k < block_size,
            slots@.len() == block_size,
            bound <= block_size,
            forall|k: TxIdx| #[trigger] dense_view(slots@).dom().contains(k) <==> (m.dom().contains(k) && k >= bound),
            forall|k: TxIdx| #[trigger] dense_view(slots@).dom().contains(k) ==> dense_view(slots@)[k] == m[k],
            done ==> !has_key_below(m, bound as int),
        decreases bound, (if done { 0int } else { 1int }),
    {
        match btree_last_below(&map, bound) {
            Some((k, entry)) => {
                let ghost old_slots = slots@;
                let ghost old_bound = bound;
                proof {
                    lemma_closest_below(m, bound as int);
                }
                slots.set(k, Some(entry));
                bound = k;
                proof {
                    assert forall|j: TxIdx| #[trigger] dense_view(slots@).dom().contains(j) <==> (m.dom().contains(j) && j >= bound) by {
                        if j != k {
                            assert(dense_view(old_slots).dom().contains(j) == dense_view(slots@).dom().contains(j));
                            if m.dom().contains(j) && j >= k && j < old_bound {
                                assert(j <= k);
                            }
                        }
                    }
                    assert forall|j: TxIdx| #[trigger] dense_view(slots@).dom().contains(j) implies dense_view(slots@)[j] == m[j] by {
                        if j != k {
                            assert(dense_view(old_slots).dom().contains(j));
                        }
                    }
                }
            },
            None => {
                proof {
                    lemma_closest_below(m, bound as int);
                }
                done = true;
            },
        }
    }
    let r = MvEntries::Dense(slots);
    assert forall|k: TxIdx| #[trigger] m.dom().contains(k) implies dense_view(slots@).dom().contains(k) by {
        if k < bound {
            assert(has_key_below(m, bound as int));
        }
    }
    assert(r@ =~= m);
    r
}

impl MvMemory {
    /// A memory for a block of `block_size` transactions, with estimate markers at
    /// the estimated locations and dense entries for the lazy addresses.
    pub fn new(
        block_size: usize,
        estimated_locations: Vec<(MemoryLocationHash, Vec<TxIdx>)>,
        lazy_addresses: Vec<Address>,
    ) -> (r: MvMemory)
        requires
            forall|i: int, j: int|
                0 <= i < estimated_locations@.len() && 0 <= j < estimated_locations@[i].1@.len()
                    ==> #[trigger] estimated_locations@[i].1@[j] < block_size,
        ensures
            r.wf(),
            r.size() == block_size,
            forall|t: int| 0 <= t < block_size ==> #[trigger] r.reads_of(t) == no_reads(),
            forall|t: int| 0 <= t < block_size ==> #[trigger] r.writes_of(t) == Seq::<MemoryLocationHash>::empty(),
            r.lazy().to_set() == lazy_addresses@.to_set(),
            r.entries() == initial_entries(index_lists(estimated_locations@), lazy_addresses@),
            r.dense_locations() == Set::new(|l: MemoryLocationHash| is_lazy_location(lazy_addresses@, l)),
    {
        let mut data = mv_data_new();
        // Pre-populate the estimated locations with sparse estimate entries.
        let mut i: usize = 0;
        while i < estimated_locations.len()
            invariant
                i <= estimated_locations@.len(),
                forall|a: int, j: int|
                    0 <= a < estimated_locations@.len() && 0 <= j < estimated_locations@[a].1@.len()
                        ==> #[trigger] estimated_locations@[a].1@[j] < block_size,
                entries_of(mv_data_contents(data)) == estimated_locations_entries(index_lists(estimated_locations@).take(i as int)),
                forall|l: MemoryLocationHash| #[trigger] mv_data_contents(data).contains_key(l) ==> !mv_data_contents(data)[l].is_dense()
                    && mv_data_contents(data)[l].wf(block_size as nat),
            decreases estimated_locations@.len() - i,
        {
            let location = estimated_locations[i].0;
            let e = estimate_entries(&estimated_locations[i].1, block_size);
            let ghost c0 = mv_data_contents(data);
            mv_data_insert(&mut data, location, e);
            proof {
                lemma_entries_of_insert(c0, location, e);
                let lists = index_lists(estimated_locations@);
                let t1 = lists.take(i + 1);
                assert(t1.drop_last() =~= lists.take(i as int));
                assert(t1.last() == (location, estimated_locations@[i as int].1@));
            }
            i = i + 1;
        }
        assert(index_lists(estimated_locations@).take(estimated_locations@.len() as int) =~= index_lists(estimated_locations@));
        let ghost est = entries_of(mv_data_contents(data));

        // Lazy addresses use dense entries.
        let mut lazy: Vec<Address> = Vec::new();
        let mut k: usize = 0;
        while k < lazy_addresses.len()
            invariant
                k <= lazy_addresses@.len(),
                est == estimated_locations_entries(index_lists(estimated_locations@)),
                entries_of(mv_data_contents(data)) == Map::new(
                    |l: MemoryLocationHash| est.contains_key(l) || is_lazy_location(lazy_addresses@.take(k as int), l),
                    |l: MemoryLocationHash| if is_lazy_location(lazy_addresses@.take(k as int), l) {
                        Map::empty()
                    } else {
                        est[l]
                    },
                ),
                forall|l: MemoryLocationHash| #[trigger] mv_data_contents(data).contains_key(l) ==> mv_data_contents(data)[l].wf(
                    block_size as nat,
                ),
                forall|l: MemoryLocationHash| #[trigger] mv_data_contents(data).contains_key(l) ==> (mv_data_contents(data)[l].is_dense()
                    <==> is_lazy_location(lazy_addresses@.take(k as int), l)),
                lazy@.no_duplicates(),
                lazy@.to_set() == lazy_addresses@.take(k as int).to_set(),
            decreases lazy_addresses@.len() - k,
        {
            let address = lazy_addresses[k];
            let location = hash_deterministic(MemoryLocation::Basic(address));
            let e = MvEntries::new_dense(block_size);
            let ghost c0 = mv_data_contents(data);
            // Overwrite any sparse entry (e.g. an estimated location) with a dense one.
            mv_data_insert(&mut data, location, e);
            proof {
                lemma_entries_of_insert(c0, location, e);
                let t0 = lazy_addresses@.take(k as int);
                let t1 = lazy_addresses@.take(k + 1);
                assert(t1 =~= t0.push(address));
                lemma_push_contains(t0, address);
                assert forall|l: MemoryLocationHash| #[trigger] is_lazy_location(t1, l) <==> (is_lazy_location(t0, l) || l == location) by {
                    if is_lazy_location(t1, l) {
                        let w = choose|w: int| 0 <= w < t1.len() && #[trigger] basic_hash(t1[w]) == l;
                        if w < t0.len() {
                            assert(basic_hash(t0[w]) == l);
                        }
                    }
                    if is_lazy_location(t0, l) {
                        let w = choose|w: int| 0 <= w < t0.len() && #[trigger] basic_hash(t0[w]) == l;
                        assert(basic_hash(t1[w]) == l);
                    }
                    if l == location {
                        assert(basic_hash(t1[k as int]) == l);
                    }
                }
                assert(t1.to_set() =~= t0.to_set().insert(address));
            }
            if !contains_address(&lazy, address) {
                proof {
                    lemma_push_contains(lazy@, address);
                }
                lazy.push(address);
                proof {
                    assert(lazy@.to_set() =~= lazy_addresses@.take(k + 1).to_set());
                }
            } else {
                proof {
                    assert(lazy@.to_set() =~= lazy_addresses@.take(k + 1).to_set());
                }
            }
            proof {
                let t1 = lazy_addresses@.take(k + 1);
                assert(entries_of(mv_data_contents(data)) =~= Map::new(
                    |l: MemoryLocationHash| est.contains_key(l) || is_lazy_location(t1, l),
                    |l: MemoryLocationHash| if is_lazy_location(t1, l) {
                        Map::empty()
                    } else {
                        est[l]
                    },
                ));
            }
            k = k + 1;
        }
        assert(lazy_addresses@.take(lazy_addresses@.len() as int) =~= lazy_addresses@);

        let mut last_locations: Vec<LastLocations> = Vec::with_capacity(block_size);
        let mut t: usize = 0;
        while t < block_size
            invariant
                t <= block_size,
                last_locations@.len() == t,
                forall|u: int| 0 <= u < t ==> read_set_contents((#[trigger] last_locations@[u]).read) == no_reads()
                    && last_locations@[u].write@ == Seq::<MemoryLocationHash>::empty(),
            decreases block_size - t,
        {
            last_locations.push(LastLocations::new());
            t = t + 1;
        }
        let r = MvMemory { data, block_size, last_locations, lazy_addresses: lazy };
        proof {
            assert forall|l: MemoryLocationHash| is_lazy_location(lazy_addresses@, l) implies #[trigger] mv_data_contents(r.data).contains_key(l) by {
                assert(entries_of(mv_data_contents(r.data)).contains_key(l));
            }
            assert(r.entries() =~= initial_entries(index_lists(estimated_locations@), lazy_addresses@));
            assert(r.dense_locations() =~= Set::new(|l: MemoryLocationHash| is_lazy_location(lazy_addresses@, l)));
            assert forall|a: int| 0 <= a < r.lazy_addresses@.len() implies r.dense_locations().contains(
                #[trigger] basic_hash(r.lazy_addresses@[a]),
            ) by {
                let addr = r.lazy_addresses@[a];
                assert(r.lazy_addresses@.to_set().contains(addr));
                assert(lazy_addresses@.to_set().contains(addr));
                let w = choose|w: int| 0 <= w < lazy_addresses@.len() && lazy_addresses@[w] == addr;
                assert(basic_hash(lazy_addresses@[w]) == basic_hash(addr));
                assert(is_lazy_location(lazy_addresses@, basic_hash(addr)));
                assert(mv_data_contents(r.data).contains_key(basic_hash(addr)));
            }
            assert(r.last_locations@.len() == r.block_size);
            assert(r.lazy_addresses@.no_duplicates());
            assert forall|t: int| 0 <= t < r.block_size implies (#[trigger] r.last_locations@[t]).write@.no_duplicates() by {
                assert(r.last_locations@[t].write@ == Seq::<MemoryLocationHash>::empty());
            }
        }
        r
    }
}


fn copy_slots(slots: &Vec<Option<MemoryEntry>>) -> (r: Vec<Option<MemoryEntry>>)
    ensures
        r@ == slots@,
{
    let mut out: Vec<Option<MemoryEntry>> = Vec::with_capacity(slots.len());
    let mut i: usize = 0;
    while i < slots.len()
        invariant
            i <= slots@.len(),
            out@ == slots@.take(i as int),
        decreases slots@.len() - i,
    {
        out.push(slots[i]);
        proof {
            assert(slots@.take(i + 1) =~= slots@.take(i as int).push(slots@[i as int]));
        }
        i = i + 1;
    }
    assert(slots@.take(slots@.len() as int) =~= slots@);
    out
}

impl MvMemory {
    /// Whether any transaction has an entry at `location`.
    pub fn contains_location(&self, location: MemoryLocationHash) -> (r: bool)
        ensures
            r == self.entries().contains_key(location),
    {
        mv_data_contains(&self.data, location)
    }

    /// The entry of the highest transaction below `bound` at `location`; `None`
    /// when no transaction has an entry there.
    pub fn entry_below(&self, location: MemoryLocationHash, bound: TxIdx) -> (r: Option<
        Option<(TxIdx, MemoryEntry)>,
    >)
        ensures
            match r {
                Some(c) => self.entries().contains_key(location) && c == closest_below(
                    self.entries()[location],
                    bound as int,
                ),
                None => !self.entries().contains_key(location),
            },
    {
        mv_data_last_below(&self.data, location, bound)
    }

    /// Whether `address` is lazily updated.
    pub fn is_lazy(&self, address: &Address) -> (r: bool)
        ensures
            r == self.lazy().contains(*address),
    {
        contains_address(&self.lazy_addresses, *address)
    }

    /// Stops updating `address` lazily; its entries stay as they are.
    pub fn remove_lazy_address(&mut self, address: &Address)
        requires
            old(self).wf(),
        ensures
            final(self).wf(),
            final(self).lazy().to_set() == old(self).lazy().to_set().remove(*address),
            final(self).entries() == old(self).entries(),
            final(self).dense_locations() == old(self).dense_locations(),
            final(self).size() == old(self).size(),
            forall|t: int| #[trigger] final(self).reads_of(t) == old(self).reads_of(t),
            forall|t: int| #[trigger] final(self).writes_of(t) == old(self).writes_of(t),
    {
        let mut i: usize = 0;
        while i < self.lazy_addresses.len()
            invariant
                self == old(self),
                self.wf(),
                i <= self.lazy_addresses@.len(),
                forall|j: int| 0 <= j < i ==> self.lazy_addresses@[j] != *address,
            decreases self.lazy_addresses@.len() - i,
        {
            if self.lazy_addresses[i] == *address {
                let ghost before = self.lazy_addresses@;
                assert(before.no_duplicates());
                assert(before[i as int] == *address);
                self.lazy_addresses.remove(i);
                proof {
                    let after = self.lazy_addresses@;
                    assert(after =~= before.remove(i as int));
                    assert forall|a: Address| #[trigger] after.to_set().contains(a) <==> before.to_set().remove(*address).contains(a) by {
                        if after.contains(a) {
                            let k = choose|k: int| 0 <= k < after.len() && after[k] == a;
                            if k < i {
                                assert(before[k] == a);
                                assert(before.contains(a));
                            } else {
                                assert(before[k + 1] == a);
                                assert(k + 1 != i);
                                assert(before.contains(a));
                            }
                            assert(a != *address);
                        }
                        if before.contains(a) && a != *address {
                            let k = choose|k: int| 0 <= k < before.len() && before[k] == a;
                            if k < i {
                                assert(after[k] == a);
                            } else {
                                assert(k != i);
                                assert(after[k - 1] == a);
                            }
                        }
                    }
                    assert(after.to_set() =~= before.to_set().remove(*address));
                    assert forall|x: int, y: int| 0 <= x < after.len() && 0 <= y < after.len() && x != y implies after[x] != after[y] by {
                        let bx = if x < i { x } else { x + 1 };
                        let by_ = if y < i { y } else { y + 1 };
                        assert(before[bx] == after[x]);
                        assert(before[by_] == after[y]);
                        assert(bx != by_);
                    }
                    assert forall|k: int| 0 <= k < after.len() implies self.dense_locations().contains(
                        #[trigger] basic_hash(after[k]),
                    ) by {
                        let bk = if k < i { k } else { k + 1 };
                        assert(before[bk] == after[k]);
                        assert(self.dense_locations().contains(basic_hash(before[bk])));
                    }
                }
                return;
            }
            i = i + 1;
        }
        proof {
            assert(!self.lazy_addresses@.contains(*address));
            assert(self.lazy_addresses@.to_set() =~= self.lazy_addresses@.to_set().remove(*address));
        }
    }

    /// Takes the lazy addresses that need full evaluation at the end of the block.
    pub fn consume_lazy_addresses(&mut self) -> (r: Vec<Address>)
        requires
            old(self).wf(),
        ensures
            final(self).wf(),
            r@ == old(self).lazy(),
            final(self).lazy() == Seq::<Address>::empty(),
            final(self).entries() == old(self).entries(),
            final(self).dense_locations() == old(self).dense_locations(),
            final(self).size() == old(self).size(),
            forall|t: int| #[trigger] final(self).reads_of(t) == old(self).reads_of(t),
            forall|t: int| #[trigger] final(self).writes_of(t) == old(self).writes_of(t),
    {
        let mut taken: Vec<Address> = Vec::new();
        std::mem::swap(&mut taken, &mut self.lazy_addresses);
        taken
    }

    /// The dense slots of `location`, one per transaction, when it is held in the
    /// dense layout.
    pub fn dense_slots(&mut self, location: MemoryLocationHash) -> (r: Option<Vec<Option<MemoryEntry>>>)
        requires
            old(self).wf(),
        ensures
            final(self).wf(),
            final(self).entries() == old(self).entries(),
            final(self).dense_locations() == old(self).dense_locations(),
            final(self).lazy() == old(self).lazy(),
            final(self).size() == old(self).size(),
            forall|t: int| #[trigger] final(self).reads_of(t) == old(self).reads_of(t),
            forall|t: int| #[trigger] final(self).writes_of(t) == old(self).writes_of(t),
            match r {
                Some(slots) => old(self).dense_locations().contains(location) && slots@.len() == old(self).size()
                    && dense_view(slots@) == old(self).entries()[location],
                None => !old(self).dense_locations().contains(location),
            },
    {
        let ghost c0 = mv_data_contents(self.data);
        match mv_data_remove(&mut self.data, location) {
            Some(e) => {
                let ghost e0 = e;
                let r = match &e {
                    MvEntries::Dense(slots) => Some(copy_slots(slots)),
                    MvEntries::Sparse(_) => None,
                };
                mv_data_insert(&mut self.data, location, e);
                proof {
                    assert(mv_data_contents(self.data) =~= c0);
                    assert(self.dense_locations() =~= old(self).dense_locations());
                }
                r
            },
            None => {
                proof {
                    lemma_entries_of_remove_absent(c0, location);
                    assert(self.dense_locations() =~= old(self).dense_locations());
                }
                None
            },
        }
    }

    /// Registers new lazily updated addresses. A new address moves its basic
    /// location to the dense layout, keeping every entry of a sparse location,
    /// estimates included, so that readers still see that they must wait.
    pub fn add_lazy_addresses(&mut self, new_lazy_addresses: Vec<Address>)
        requires
            old(self).wf(),
        ensures
            final(self).wf(),
            (final(self).entries(), final(self).dense_locations(), final(self).lazy()) == lazy_steps(
                (old(self).entries(), old(self).dense_locations(), old(self).lazy()),
                new_lazy_addresses@,
            ),
            final(self).size() == old(self).size(),
            forall|t: int| #[trigger] final(self).reads_of(t) == old(self).reads_of(t),
            forall|t: int| #[trigger] final(self).writes_of(t) == old(self).writes_of(t),
    {
        let ghost start = (self.entries(), self.dense_locations(), self.lazy());
        let mut i: usize = 0;
        while i < new_lazy_addresses.len()
            invariant
                self.wf(),
                i <= new_lazy_addresses@.len(),
                self.block_size == old(self).block_size,
                self.last_locations == old(self).last_locations,
                (self.entries(), self.dense_locations(), self.lazy()) == lazy_steps(
                    start,
                    new_lazy_addresses@.take(i as int),
                ),
            decreases new_lazy_addresses@.len() - i,
        {
            let address = new_lazy_addresses[i];
            let ghost before = (self.entries(), self.dense_locations(), self.lazy());
            proof {
                let t1 = new_lazy_addresses@.take(i + 1);
                assert(t1.drop_last() =~= new_lazy_addresses@.take(i as int));
                assert(t1.last() == address);
            }
            if !contains_address(&self.lazy_addresses, address) {
                let ghost c0 = mv_data_contents(self.data);
                proof {
                    lemma_push_contains(self.lazy_addresses@, address);
                }
                self.lazy_addresses.push(address);
                let location = hash_deterministic(MemoryLocation::Basic(address));
                // Upgrade the location from sparse to dense, migrating every entry.
                let old_entries = match mv_data_remove(&mut self.data, location) {
                    Some(e) => e,
                    None => MvEntries::new_sparse(),
                };
                let ghost oe = old_entries;
                let block_size = self.block_size;
                let new_entries = match old_entries {
                    MvEntries::Sparse(map) => migrate_to_dense(map, block_size),
                    MvEntries::Dense(_) => MvEntries::new_dense(block_size),
                };
                mv_data_insert(&mut self.data, location, new_entries);
                proof {
                    assert(mv_data_contents(self.data) =~= c0.insert(location, new_entries));
                    lemma_entries_of_insert(c0, location, new_entries);
                    let kept = if before.0.contains_key(location) && !before.1.contains(location) {
                        before.0[location]
                    } else {
                        Map::empty()
                    };
                    assert(new_entries@ =~= kept);
                    assert(self.dense_locations() =~= before.1.insert(location));
                    assert forall|l: MemoryLocationHash| #[trigger] mv_data_contents(self.data).contains_key(l) implies
                        mv_data_contents(self.data)[l].wf(self.block_size as nat) by {
                    }
                    assert forall|k: int| 0 <= k < self.lazy_addresses@.len() implies self.dense_locations().contains(
                        #[trigger] basic_hash(self.lazy_addresses@[k]),
                    ) by {
                        if k < self.lazy_addresses@.len() - 1 {
                            assert(before.1.contains(basic_hash(self.lazy_addresses@[k])));
                        }
                    }
                }
            }
            i = i + 1;
        }
        assert(new_lazy_addresses@.take(new_lazy_addresses@.len() as int) =~= new_lazy_addresses@);
    }
}

/// A read by transaction `reader` of a location that a lower incarnation has just
/// written, with no transaction in between holding an entry there, finds that
/// incarnation's last write to the location.
pub proof fn lemma_read_after_record(
    entries: Map<MemoryLocationHash, Map<TxIdx, MemoryEntry>>,
    tx_version: TxVersion,
    prev_writes: Seq<MemoryLocationHash>,
    write_set: Seq<(MemoryLocationHash, MemoryValue)>,
    location: MemoryLocationHash,
    reader: TxIdx,
)
    requires
        written_locations(write_set).contains(location),
        tx_version.tx_idx < reader,
        forall|k: TxIdx|
            tx_version.tx_idx < k < reader ==> !(#[trigger] recorded_entries(entries, tx_version, prev_writes, write_set)[location].dom().contains(k)),
    ensures
        closest_below(recorded_entries(entries, tx_version, prev_writes, write_set)[location], reader as int) == Some(
            (tx_version.tx_idx, MemoryEntry::Data(tx_version.tx_incarnation, last_write(write_set, location))),
        ),
{
    let m = recorded_entries(entries, tx_version, prev_writes, write_set)[location];
    assert(m.dom().contains(tx_version.tx_idx));
    lemma_closest_below(m, reader as int);
    let (k, e) = closest_below(m, reader as int)->0;
    assert(k >= tx_version.tx_idx);
    assert(k == tx_version.tx_idx);
}

/// Once an aborted incarnation's writes become estimates, a higher transaction
/// reading one of those locations, with no transaction in between holding an
/// entry there, finds the estimate and must wait for the aborted transaction.
pub proof fn lemma_estimate_blocks_reader(
    entries: Map<MemoryLocationHash, Map<TxIdx, MemoryEntry>>,
    tx_idx: TxIdx,
    writes: Seq<MemoryLocationHash>,
    location: MemoryLocationHash,
    reader: TxIdx,
)
    requires
        entries.contains_key(location),
        writes.contains(location),
        tx_idx < reader,
        forall|k: TxIdx| tx_idx < k < reader ==> !(#[trigger] entries[location].dom().contains(k)),
    ensures
        closest_below(estimated_entries(entries, tx_idx, writes)[location], reader as int) == Some(
            (tx_idx, MemoryEntry::Estimate),
        ),
{
    let m = estimated_entries(entries, tx_idx, writes)[location];
    assert(m == entries[location].insert(tx_idx, MemoryEntry::Estimate));
    assert(m.dom().contains(tx_idx));
    lemma_closest_below(m, reader as int);
    let (k, e) = closest_below(m, reader as int)->0;
    assert(k >= tx_idx);
    assert(k == tx_idx);
}

} // verus!
