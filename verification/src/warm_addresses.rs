//! The addresses that count as warm before they are first loaded: the
//! precompiles, the block's beneficiary and the transaction's access list.
//! Each operation is a few lines of set membership and is written and proved
//! here against its statement.
use vstd::prelude::*;

use crate::primitives::{Address, U256};

verus! {

/// The warm addresses of a transaction.
pub struct WarmAddresses {
    pub precompiles: Vec<Address>,
    pub coinbase: Option<Address>,
    /// Each address of the access list with its storage keys.
    pub access_list: Vec<(Address, Vec<U256>)>,
}

/// Whether `address` is in the access list.
pub open spec fn access_listed(list: Seq<(Address, Vec<U256>)>, address: Address) -> bool {
    exists|i: int| 0 <= i < list.len() && (#[trigger] list[i]).0 == address
}

/// Whether the slot `key` of `address` is in the access list: among the keys
/// of the first entry of `address`.
pub open spec fn slot_access_listed(list: Seq<(Address, Vec<U256>)>, address: Address, key: U256) -> bool {
    exists|i: int|
        0 <= i < list.len() && (#[trigger] list[i]).0 == address && list[i].1@.contains(key) && forall|j: int|
            0 <= j < i ==> list[j].0 != address
}

impl WarmAddresses {
    /// Whether `address` is warm: the beneficiary, in the access list, or a
    /// precompile.
    pub open spec fn warm(&self, address: Address) -> bool {
        ||| self.coinbase == Some(address)
        ||| access_listed(self.access_list@, address)
        ||| self.precompiles@.contains(address)
    }

    /// No warm address.
    pub fn new() -> (r: WarmAddresses)
        ensures
            r.precompiles@ == Seq::<Address>::empty(),
            r.coinbase == None::<Address>,
            r.access_list@ == Seq::<(Address, Vec<U256>)>::empty(),
    {
        WarmAddresses { precompiles: Vec::new(), coinbase: None, access_list: Vec::new() }
    }

    /// Sets the precompiles.
    pub fn set_precompile_addresses(&mut self, addresses: Vec<Address>)
        ensures
            final(self).precompiles@ == addresses@,
            final(self).coinbase == old(self).coinbase,
            final(self).access_list@ == old(self).access_list@,
    {
        self.precompiles = addresses;
    }

    /// Sets the beneficiary.
    pub fn set_coinbase(&mut self, address: Address)
        ensures
            final(self).coinbase == Some(address),
            final(self).precompiles@ == old(self).precompiles@,
            final(self).access_list@ == old(self).access_list@,
    {
        self.coinbase = Some(address);
    }

    /// Sets the access list.
    pub fn set_access_list(&mut self, access_list: Vec<(Address, Vec<U256>)>)
        ensures
            final(self).access_list@ == access_list@,
            final(self).coinbase == old(self).coinbase,
            final(self).precompiles@ == old(self).precompiles@,
    {
        self.access_list = access_list;
    }

    /// Forgets the beneficiary and the access list, at the end of a
    /// transaction; the precompiles stay.
    pub fn clear_coinbase_and_access_list(&mut self)
        ensures
            final(self).coinbase == None::<Address>,
            final(self).access_list@ == Seq::<(Address, Vec<U256>)>::empty(),
            final(self).precompiles@ == old(self).precompiles@,
    {
        self.coinbase = None;
        self.access_list = Vec::new();
    }

    /// Whether `address` is warm.
    pub fn is_warm(&self, address: Address) -> (r: bool)
        ensures
            r == self.warm(address),
    {
        if let Some(c) = self.coinbase {
            if c == address {
                return true;
            }
        }
        let mut i: usize = 0;
        while i < self.access_list.len()
            invariant
                i <= self.access_list@.len(),
                forall|j: int| 0 <= j < i ==> (#[trigger] self.access_list@[j]).0 != address,
            decreases self.access_list@.len() - i,
        {
            if self.access_list[i].0 == address {
                return true;
            }
            i = i + 1;
        }
        let mut k: usize = 0;
        while k < self.precompiles.len()
            invariant
                k <= self.precompiles@.len(),
                forall|j: int| 0 <= j < k ==> self.precompiles@[j] != address,
            decreases self.precompiles@.len() - k,
        {
            if self.precompiles[k] == address {
                proof {
                    assert(self.precompiles@[k as int] == address);
                }
                return true;
            }
            k = k + 1;
        }
        false
    }

    /// Whether `address` is cold, and so costs more to load.
    pub fn is_cold(&self, address: Address) -> (r: bool)
        ensures
            r == !self.warm(address),
    {
        !self.is_warm(address)
    }

    /// Whether the slot `key` of `address` is warm: listed with its address in
    /// the access list (the first entry of the address decides).
    pub fn is_storage_warm(&self, address: Address, key: U256) -> (r: bool)
        ensures
            r == slot_access_listed(self.access_list@, address, key),
    {
        let mut i: usize = 0;
        while i < self.access_list.len()
            invariant
                i <= self.access_list@.len(),
                forall|j: int| 0 <= j < i ==> (#[trigger] self.access_list@[j]).0 != address,
            decreases self.access_list@.len() - i,
        {
            if self.access_list[i].0 == address {
                let keys = &self.access_list[i].1;
                let mut k: usize = 0;
                while k < keys.len()
                    invariant
                        k <= keys@.len(),
                        i < self.access_list@.len(),
                        *keys == self.access_list@[i as int].1,
                        self.access_list@[i as int].0 == address,
                        forall|j: int| 0 <= j < i ==> (#[trigger] self.access_list@[j]).0 != address,
                        forall|j: int| 0 <= j < k ==> keys@[j] != key,
                    decreases keys@.len() - k,
                {
                    if keys[k] == key {
                        proof {
                            assert(self.access_list@[i as int].1@.contains(key)) by {
                                assert(keys@[k as int] == key);
                            }
                            assert(forall|j: int| 0 <= j < i ==> self.access_list@[j].0 != address);
                        }
                        return true;
                    }
                    k = k + 1;
                }
                proof {
                    assert forall|m: int|
                        0 <= m < self.access_list@.len() && (#[trigger] self.access_list@[m]).0 == address
                            && self.access_list@[m].1@.contains(key) implies exists|j: int|
                        0 <= j < m && self.access_list@[j].0 == address by {
                        if m > i {
                            assert(self.access_list@[i as int].0 == address);
                        } else if m == i {
                            let w = choose|j: int| 0 <= j < keys@.len() && keys@[j] == key;
                            assert(keys@[w] == key);
                        }
                    }
                }
                return false;
            }
            i = i + 1;
        }
        false
    }
}

} // verus!
