//! The outside collections that the executor keeps its read sets and its
//! multi-version data in, each behind a small interface with a contract.
use vstd::prelude::*;

use crate::hashing::MemoryLocationHash;
use crate::primitives::B256;
use crate::types::{AccountBasic, ReadOrigin};

verus! {

// ---------------------------------------------------------------------------
// Read origins of one location: a `smallvec::SmallVec<[ReadOrigin; 1]>`.
// ---------------------------------------------------------------------------

/// Most memory locations only have one read origin. Lazily updated ones like the
/// beneficiary balance have a list of lazy updates all the way to the first
/// absolute value.
#[verifier::external_body]
pub struct ReadOrigins {
    inner: smallvec::SmallVec<[ReadOrigin; 1]>,
}

/// The origins held, in the order they were pushed.
pub uninterp spec fn read_origins_contents(origins: ReadOrigins) -> Seq<ReadOrigin>;

impl View for ReadOrigins {
    type V = Seq<ReadOrigin>;

    open spec fn view(&self) -> Seq<ReadOrigin> {
        read_origins_contents(*self)
    }
}

/// Wraps `SmallVec::new`: an empty list.
#[verifier::external_body]
pub(crate) fn read_origins_new() -> (r: ReadOrigins)
    ensures
        read_origins_contents(r) == Seq::<ReadOrigin>::empty(),
{
    ReadOrigins { inner: smallvec::SmallVec::new() }
}

/// Wraps `SmallVec::push`: appends one origin at the end.
#[verifier::external_body]
pub(crate) fn read_origins_push(origins: &mut ReadOrigins, origin: ReadOrigin)
    ensures
        read_origins_contents(*final(origins)) == read_origins_contents(*old(origins)).push(origin),
{
    origins.inner.push(origin)
}

/// Wraps `SmallVec::len`.
#[verifier::external_body]
pub(crate) fn read_origins_len(origins: &ReadOrigins) -> (r: usize)
    ensures
        r == read_origins_contents(*origins).len(),
{
    origins.inner.len()
}

/// Wraps indexing of a `SmallVec`: the origin at position `i`.
#[verifier::external_body]
pub(crate) fn read_origins_get(origins: &ReadOrigins, i: usize) -> (r: ReadOrigin)
    requires
        i < read_origins_contents(*origins).len(),
    ensures
        r == read_origins_contents(*origins)[i as int],
{
    origins.inner[i]
}

/// Wraps `SmallVec::clone`, which copies every origin in order.
#[verifier::external_body]
pub(crate) fn read_origins_clone(origins: &ReadOrigins) -> (r: ReadOrigins)
    ensures
        read_origins_contents(r) == read_origins_contents(*origins),
{
    ReadOrigins { inner: origins.inner.clone() }
}

// ---------------------------------------------------------------------------
// Read sets: a `hashbrown::HashMap<MemoryLocationHash, ReadOrigins>`.
// ---------------------------------------------------------------------------

/// For validation: the read origins of each memory location that was read.
#[verifier::external_body]
pub struct ReadSet {
    inner: hashbrown::HashMap<MemoryLocationHash, ReadOrigins>,
}

/// The origins recorded for each location.
pub uninterp spec fn read_set_contents(set: ReadSet) -> Map<MemoryLocationHash, Seq<ReadOrigin>>;

impl View for ReadSet {
    type V = Map<MemoryLocationHash, Seq<ReadOrigin>>;

    open spec fn view(&self) -> Map<MemoryLocationHash, Seq<ReadOrigin>> {
        read_set_contents(*self)
    }
}

/// The read set of an execution that has read nothing yet.
pub open spec fn no_reads() -> Map<MemoryLocationHash, Seq<ReadOrigin>> {
    Map::empty()
}

/// Wraps `hashbrown::HashMap::new`: an empty map.
#[verifier::external_body]
pub(crate) fn read_set_new() -> (r: ReadSet)
    ensures
        read_set_contents(r) == no_reads(),
{
    ReadSet { inner: hashbrown::HashMap::new() }
}

/// Wraps `hashbrown::HashMap::get`, copying the origins found for `location`.
#[verifier::external_body]
pub(crate) fn read_set_get(set: &ReadSet, location: MemoryLocationHash) -> (r: Option<ReadOrigins>)
    ensures
        match r {
            Some(origins) => read_set_contents(*set).contains_key(location) && read_origins_contents(origins) == read_set_contents(*set)[location],
            None => !read_set_contents(*set).contains_key(location),
        },
{
    set.inner.get(&location).map(|origins| ReadOrigins { inner: origins.inner.clone() })
}

/// Wraps `hashbrown::HashMap::insert`: `location` now maps to `origins`.
#[verifier::external_body]
pub(crate) fn read_set_insert(set: &mut ReadSet, location: MemoryLocationHash, origins: ReadOrigins)
    ensures
        read_set_contents(*final(set)) == read_set_contents(*old(set)).insert(location, read_origins_contents(origins)),
{
    set.inner.insert(location, origins);
}

/// Wraps `hashbrown::HashMap::iter`, copying every entry out. The order is the
/// map's own; each location comes exactly once.
#[verifier::external_body]
pub(crate) fn read_set_entries(set: &ReadSet) -> (r: Vec<(MemoryLocationHash, ReadOrigins)>)
    ensures
        forall|i: int|
            0 <= i < r@.len() ==> read_set_contents(*set).contains_key(#[trigger] r@[i].0)
                && read_origins_contents(r@[i].1) == read_set_contents(*set)[r@[i].0],
        forall|l: MemoryLocationHash|
            read_set_contents(*set).contains_key(l) ==> exists|i: int|
                0 <= i < r@.len() && #[trigger] r@[i].0 == l,
        forall|i: int, j: int| 0 <= i < j < r@.len() ==> r@[i].0 != r@[j].0,
{
    set.inner.iter().map(|(l, origins)| (*l, ReadOrigins { inner: origins.inner.clone() })).collect()
}

// ---------------------------------------------------------------------------
// The accounts read by an execution: a `hashbrown::HashMap`.
// ---------------------------------------------------------------------------

/// The account state and code hash that an execution read at each basic location.
#[verifier::external_body]
pub struct ReadAccounts {
    inner: hashbrown::HashMap<MemoryLocationHash, (AccountBasic, Option<B256>)>,
}

/// What was read at each location.
pub uninterp spec fn read_accounts_contents(accounts: ReadAccounts) -> Map<
    MemoryLocationHash,
    (AccountBasic, Option<B256>),
>;

impl View for ReadAccounts {
    type V = Map<MemoryLocationHash, (AccountBasic, Option<B256>)>;

    open spec fn view(&self) -> Map<MemoryLocationHash, (AccountBasic, Option<B256>)> {
        read_accounts_contents(*self)
    }
}

/// No account read yet.
pub open spec fn no_read_accounts() -> Map<MemoryLocationHash, (AccountBasic, Option<B256>)> {
    Map::empty()
}

/// Wraps `hashbrown::HashMap::new`: an empty map.
#[verifier::external_body]
pub(crate) fn read_accounts_new() -> (r: ReadAccounts)
    ensures
        read_accounts_contents(r) == no_read_accounts(),
{
    ReadAccounts { inner: hashbrown::HashMap::new() }
}

/// Wraps `hashbrown::HashMap::get`, copying the value found.
#[verifier::external_body]
pub(crate) fn read_accounts_get(accounts: &ReadAccounts, location: MemoryLocationHash) -> (r: Option<
    (AccountBasic, Option<B256>),
>)
    ensures
        match r {
            Some(v) => read_accounts_contents(*accounts).contains_key(location) && v == read_accounts_contents(*accounts)[location],
            None => !read_accounts_contents(*accounts).contains_key(location),
        },
{
    accounts.inner.get(&location).copied()
}

/// Wraps `hashbrown::HashMap::insert`.
#[verifier::external_body]
pub(crate) fn read_accounts_insert(
    accounts: &mut ReadAccounts,
    location: MemoryLocationHash,
    value: (AccountBasic, Option<B256>),
)
    ensures
        read_accounts_contents(*final(accounts)) == read_accounts_contents(*old(accounts)).insert(location, value),
{
    accounts.inner.insert(location, value);
}

} // verus!
