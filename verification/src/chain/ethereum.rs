//! Ethereum: mainnet and Sepolia.
use vstd::prelude::*;

use crate::chain::{CalculateReceiptRootError, Header, SpecId, TxType};
use crate::receipts::{
    b256_from_bytes, ethereum_encodings, ethereum_receipt_root, receipt_leaves, receipt_well_formed, trie_root,
    TxReceipt,
};
use crate::execution::rewards_spec;
use crate::execution::RewardPolicy;
use crate::hashing::{hash_deterministic, MemoryLocation, MemoryLocationHash};
use crate::mv_memory::{basic_hash, estimate_map, initial_entries, is_lazy_location, MvMemory};
use crate::primitives::{lemma_word, saturating_mul_spec, u256_saturating_mul, word, Address, B256, U256};
use crate::types::TxIdx;

verus! {

pub const SEPOLIA_CHAIN_ID: u64 = 11_155_111;

pub const SEPOLIA_PARIS_BLOCK: u64 = 1_450_409;

pub const SEPOLIA_SHANGHAI_TIMESTAMP: u64 = 1_677_557_088;

pub const SEPOLIA_CANCUN_TIMESTAMP: u64 = 1_706_655_072;

pub const SEPOLIA_PRAGUE_TIMESTAMP: u64 = 1_741_159_776;

pub const SEPOLIA_OSAKA_TIMESTAMP: u64 = 1_760_427_360;

/// The largest number of blobs a block may carry from Cancun.
pub const MAX_BLOB_NUMBER_PER_BLOCK_CANCUN: u64 = 6;

/// The largest number of blobs a block may carry from Prague.
pub const MAX_BLOB_NUMBER_PER_BLOCK_PRAGUE: u64 = 9;

#[derive(Debug, Clone, Copy, PartialEq, Eq, Structural)]
pub enum EthereumNetwork {
    Mainnet,
    Sepolia,
}

/// The Ethereum chains.
#[derive(Debug, Clone, Copy, PartialEq, Eq, Structural)]
pub struct PevmEthereum {
    network: EthereumNetwork,
}

/// Represents errors that can occur when parsing transactions
#[derive(Debug, Clone, Copy, PartialEq, Eq, Structural)]
pub enum EthereumTransactionParsingError {
    /// A legacy or EIP-2930 transaction has no gas price.
    MissingGasPrice,
}

/// The hardfork of a mainnet block. The timestamps decide from Shanghai on, the
/// block numbers before; checking the total difficulty for the merge would be
/// more precise, but many providers no longer return it.
pub open spec fn mainnet_block_spec_of(number: u64, timestamp: u64) -> SpecId {
    if timestamp >= 1710338135 {
        SpecId::CANCUN
    } else if timestamp >= 1681338455 {
        SpecId::SHANGHAI
    } else if number >= 15537394 {
        SpecId::MERGE
    } else if number >= 12965000 {
        SpecId::LONDON
    } else if number >= 12244000 {
        SpecId::BERLIN
    } else if number >= 9069000 {
        SpecId::ISTANBUL
    } else if number >= 7280000 {
        SpecId::PETERSBURG
    } else if number >= 4370000 {
        SpecId::BYZANTIUM
    } else if number >= 2675000 {
        SpecId::SPURIOUS_DRAGON
    } else if number >= 2463000 {
        SpecId::TANGERINE
    } else if number >= 1150000 {
        SpecId::HOMESTEAD
    } else {
        SpecId::FRONTIER
    }
}

/// Whether a hardfork is active on Ethereum mainnet at a block: the activation
/// blocks up to the merge and the activation times after it. The forks that
/// the executor does not tell apart (Frontier Thawing, the DAO fork,
/// Constantinople, the glacier delays) are not listed.
pub open spec fn mainnet_fork_active(fork: SpecId, number: u64, timestamp: u64) -> bool {
    match fork {
        SpecId::FRONTIER => true,
        SpecId::HOMESTEAD => number >= 1_150_000,
        SpecId::TANGERINE => number >= 2_463_000,
        SpecId::SPURIOUS_DRAGON => number >= 2_675_000,
        SpecId::BYZANTIUM => number >= 4_370_000,
        SpecId::PETERSBURG => number >= 7_280_000,
        SpecId::ISTANBUL => number >= 9_069_000,
        SpecId::BERLIN => number >= 12_244_000,
        SpecId::LONDON => number >= 12_965_000,
        SpecId::MERGE => number >= 15_537_394,
        SpecId::SHANGHAI => timestamp >= 1_681_338_455,
        SpecId::CANCUN => timestamp >= 1_710_338_135,
        _ => false,
    }
}

/// Whether a hardfork is active on Sepolia at a block: everything through
/// London from genesis, the merge by block, later forks by time.
pub open spec fn sepolia_fork_active(fork: SpecId, number: u64, timestamp: u64) -> bool {
    match fork {
        SpecId::FRONTIER | SpecId::HOMESTEAD | SpecId::TANGERINE | SpecId::SPURIOUS_DRAGON | SpecId::BYZANTIUM
        | SpecId::PETERSBURG | SpecId::ISTANBUL | SpecId::BERLIN | SpecId::LONDON => true,
        SpecId::MERGE => number >= 1_450_409,
        SpecId::SHANGHAI => timestamp >= 1_677_557_088,
        SpecId::CANCUN => timestamp >= 1_706_655_072,
        SpecId::PRAGUE => timestamp >= 1_741_159_776,
        SpecId::OSAKA => timestamp >= 1_760_427_360,
        _ => false,
    }
}

/// The hardfork of a block is the latest one active at it: it is active, and
/// every active hardfork comes no later. So a block at or after a fork's
/// activation point gets that fork or a later one, and a block before it an
/// earlier one.
pub proof fn lemma_block_spec_is_latest_active(number: u64, timestamp: u64, fork: SpecId)
    ensures
        mainnet_fork_active(mainnet_block_spec_of(number, timestamp), number, timestamp),
        mainnet_fork_active(fork, number, timestamp) ==> fork.rank() <= mainnet_block_spec_of(number, timestamp).rank(),
        sepolia_fork_active(sepolia_block_spec_of(number, timestamp), number, timestamp),
        sepolia_fork_active(fork, number, timestamp) ==> fork.rank() <= sepolia_block_spec_of(number, timestamp).rank(),
{
}

/// The hardfork of a Sepolia block. Every hardfork through London was active at
/// genesis; the merge is placed by block number, later hardforks by timestamp.
pub open spec fn sepolia_block_spec_of(number: u64, timestamp: u64) -> SpecId {
    if timestamp >= SEPOLIA_OSAKA_TIMESTAMP {
        SpecId::OSAKA
    } else if timestamp >= SEPOLIA_PRAGUE_TIMESTAMP {
        SpecId::PRAGUE
    } else if timestamp >= SEPOLIA_CANCUN_TIMESTAMP {
        SpecId::CANCUN
    } else if timestamp >= SEPOLIA_SHANGHAI_TIMESTAMP {
        SpecId::SHANGHAI
    } else if number >= SEPOLIA_PARIS_BLOCK {
        SpecId::MERGE
    } else {
        SpecId::LONDON
    }
}

/// The gas price of a transaction: its gas price for legacy and EIP-2930
/// transactions, its maximal fee per gas for the others.
pub open spec fn ethereum_gas_price_spec(tx_type: TxType, gas_price: Option<u128>, max_fee_per_gas: u128) -> Result<
    u128,
    EthereumTransactionParsingError,
> {
    match tx_type {
        TxType::Legacy | TxType::Eip2930 => match gas_price {
            Some(p) => Ok(p),
            None => Err(EthereumTransactionParsingError::MissingGasPrice),
        },
        _ => Ok(max_fee_per_gas),
    }
}

/// The gas price of an Ethereum transaction.
pub fn get_ethereum_gas_price(tx_type: TxType, gas_price: Option<u128>, max_fee_per_gas: u128) -> (r: Result<
    u128,
    EthereumTransactionParsingError,
>)
    requires
        !(tx_type is Deposit || tx_type is PostExec),
    ensures
        r == ethereum_gas_price_spec(tx_type, gas_price, max_fee_per_gas),
{
    match tx_type {
        TxType::Legacy | TxType::Eip2930 => match gas_price {
            Some(p) => Ok(p),
            None => Err(EthereumTransactionParsingError::MissingGasPrice),
        },
        _ => Ok(max_fee_per_gas),
    }
}

impl PevmEthereum {
    pub closed spec fn is_sepolia(self) -> bool {
        self.network == EthereumNetwork::Sepolia
    }

    /// The Ethereum Mainnet chain.
    pub closed spec fn mainnet_chain() -> PevmEthereum {
        PevmEthereum { network: EthereumNetwork::Mainnet }
    }

    /// The Ethereum Sepolia chain.
    pub closed spec fn sepolia_chain() -> PevmEthereum {
        PevmEthereum { network: EthereumNetwork::Sepolia }
    }

    /// The two chains differ, and only Sepolia is Sepolia.
    pub proof fn lemma_chains_differ()
        ensures
            Self::mainnet_chain() != Self::sepolia_chain(),
            !Self::mainnet_chain().is_sepolia(),
            Self::sepolia_chain().is_sepolia(),
    {
    }

    /// Ethereum Mainnet
    pub fn mainnet() -> (r: PevmEthereum)
        ensures
            r == Self::mainnet_chain(),
            !r.is_sepolia(),
    {
        PevmEthereum { network: EthereumNetwork::Mainnet }
    }

    /// Ethereum Sepolia
    pub fn sepolia() -> (r: PevmEthereum)
        ensures
            r == Self::sepolia_chain(),
            r.is_sepolia(),
    {
        PevmEthereum { network: EthereumNetwork::Sepolia }
    }

    fn mainnet_block_spec(header: &Header) -> (r: SpecId)
        ensures
            r == mainnet_block_spec_of(header.number, header.timestamp),
    {
        if header.timestamp >= 1710338135 {
            SpecId::CANCUN
        } else if header.timestamp >= 1681338455 {
            SpecId::SHANGHAI
        } else if header.number >= 15537394 {
            SpecId::MERGE
        } else if header.number >= 12965000 {
            SpecId::LONDON
        } else if header.number >= 12244000 {
            SpecId::BERLIN
        } else if header.number >= 9069000 {
            SpecId::ISTANBUL
        } else if header.number >= 7280000 {
            SpecId::PETERSBURG
        } else if header.number >= 4370000 {
            SpecId::BYZANTIUM
        } else if header.number >= 2675000 {
            SpecId::SPURIOUS_DRAGON
        } else if header.number >= 2463000 {
            SpecId::TANGERINE
        } else if header.number >= 1150000 {
            SpecId::HOMESTEAD
        } else {
            SpecId::FRONTIER
        }
    }

    fn sepolia_block_spec(header: &Header) -> (r: SpecId)
        ensures
            r == sepolia_block_spec_of(header.number, header.timestamp),
    {
        if header.timestamp >= SEPOLIA_OSAKA_TIMESTAMP {
            SpecId::OSAKA
        } else if header.timestamp >= SEPOLIA_PRAGUE_TIMESTAMP {
            SpecId::PRAGUE
        } else if header.timestamp >= SEPOLIA_CANCUN_TIMESTAMP {
            SpecId::CANCUN
        } else if header.timestamp >= SEPOLIA_SHANGHAI_TIMESTAMP {
            SpecId::SHANGHAI
        } else if header.number >= SEPOLIA_PARIS_BLOCK {
            SpecId::MERGE
        } else {
            SpecId::LONDON
        }
    }

    /// The chain id.
    pub fn id(&self) -> (r: u64)
        ensures
            r == if self.is_sepolia() {
                SEPOLIA_CHAIN_ID
            } else {
                1u64
            },
    {
        match self.network {
            EthereumNetwork::Mainnet => 1,
            EthereumNetwork::Sepolia => SEPOLIA_CHAIN_ID,
        }
    }

    /// The hardfork of a block, from the canonical schedule of the network.
    pub fn get_block_spec(&self, header: &Header) -> (r: Result<SpecId, std::convert::Infallible>)
        ensures
            r == Ok::<SpecId, std::convert::Infallible>(if self.is_sepolia() {
                sepolia_block_spec_of(header.number, header.timestamp)
            } else {
                mainnet_block_spec_of(header.number, header.timestamp)
            }),
    {
        Ok(match self.network {
            EthereumNetwork::Mainnet => Self::mainnet_block_spec(header),
            EthereumNetwork::Sepolia => Self::sepolia_block_spec(header),
        })
    }

    /// The blob limit the EVM is configured with: `None` before Cancun.
    pub fn max_blobs_per_tx(&self, spec_id: SpecId) -> (r: Option<u64>)
        ensures
            r == if spec_id.rank() >= SpecId::PRAGUE.rank() {
                Some(MAX_BLOB_NUMBER_PER_BLOCK_PRAGUE)
            } else if spec_id.rank() >= SpecId::CANCUN.rank() {
                Some(MAX_BLOB_NUMBER_PER_BLOCK_CANCUN)
            } else {
                None::<u64>
            },
    {
        if spec_id.is_enabled_in(SpecId::PRAGUE) {
            Some(MAX_BLOB_NUMBER_PER_BLOCK_PRAGUE)
        } else if spec_id.is_enabled_in(SpecId::CANCUN) {
            Some(MAX_BLOB_NUMBER_PER_BLOCK_CANCUN)
        } else {
            None
        }
    }

    /// The multi-version memory of a block: the beneficiary, whom every
    /// transaction pays, is updated lazily.
    pub fn build_mv_memory(&self, beneficiary: Address, block_size: usize) -> (r: MvMemory)
        ensures
            r.wf(),
            r.size() == block_size,
            forall|t: int| 0 <= t < block_size ==> #[trigger] r.reads_of(t) == crate::collections::no_reads(),
            forall|t: int| 0 <= t < block_size ==> #[trigger] r.writes_of(t) == Seq::<MemoryLocationHash>::empty(),
            r.lazy().to_set() == set![beneficiary],
            r.entries() == map![basic_hash(beneficiary) => Map::<TxIdx, crate::types::MemoryEntry>::empty()],
            r.dense_locations() == set![basic_hash(beneficiary)],
    {
        let beneficiary_location_hash = hash_deterministic(MemoryLocation::Basic(beneficiary));
        let mut all: Vec<TxIdx> = Vec::new();
        let mut i: usize = 0;
        while i < block_size
            invariant
                i <= block_size,
                all@.len() == i,
                forall|j: int| 0 <= j < i ==> all@[j] == j,
            decreases block_size - i,
        {
            all.push(i);
            i = i + 1;
        }
        let mut estimated: Vec<(MemoryLocationHash, Vec<TxIdx>)> = Vec::new();
        estimated.push((beneficiary_location_hash, all));
        let mut lazy: Vec<Address> = Vec::new();
        lazy.push(beneficiary);
        let r = MvMemory::new(block_size, estimated, lazy);
        proof {
            assert(lazy@ =~= seq![beneficiary]);
            assert(basic_hash(lazy@[0]) == basic_hash(beneficiary));
            assert(is_lazy_location(lazy@, basic_hash(beneficiary)));
            assert forall|l: MemoryLocationHash| is_lazy_location(lazy@, l) implies l == basic_hash(beneficiary) by {
                let k = choose|k: int| 0 <= k < lazy@.len() && #[trigger] basic_hash(lazy@[k]) == l;
                assert(k == 0);
            }
            assert(r.dense_locations() =~= set![basic_hash(beneficiary)]);
            assert(seq![beneficiary].to_set() =~= set![beneficiary]) by {
                assert(seq![beneficiary][0] == beneficiary);
            }
            let h = basic_hash(beneficiary);
            let lists = crate::mv_memory::index_lists(estimated@);
            assert(lists.len() == 1 && lists[0].0 == h);
            assert(lists.drop_last() =~= Seq::<(MemoryLocationHash, Seq<TxIdx>)>::empty());
            assert(crate::mv_memory::estimated_locations_entries(lists.drop_last()) =~= Map::empty());
            let e = crate::mv_memory::estimated_locations_entries(lists);
            assert(e.dom() =~= set![h]);
            let m = initial_entries(lists, lazy@);
            assert(m.dom() =~= set![h]);
            assert(m[h] == Map::<TxIdx, crate::types::MemoryEntry>::empty());
            assert(r.entries() =~= map![h => Map::<TxIdx, crate::types::MemoryEntry>::empty()]);
        }
        r
    }

    /// The fee of a transaction goes to the beneficiary.
    pub fn get_rewards(&self, beneficiary_location_hash: MemoryLocationHash, gas_used: U256, gas_price: U256) -> (r: Vec<
        (MemoryLocationHash, U256),
    >)
        ensures
            r@ == seq![(beneficiary_location_hash, word(saturating_mul_spec(gas_price.value(), gas_used.value())))],
    {
        let fee = u256_saturating_mul(gas_price, gas_used);
        proof {
            lemma_word(fee);
        }
        let mut r: Vec<(MemoryLocationHash, U256)> = Vec::new();
        r.push((beneficiary_location_hash, fee));
        r
    }

    /// The fee recipients of the chain.
    pub fn reward_policy(&self) -> (r: RewardPolicy)
        ensures
            r == RewardPolicy::Ethereum,
    {
        RewardPolicy::Ethereum
    }

    /// Whether EIP-1559 (the base fee) is enabled: from London.
    pub fn is_eip_1559_enabled(&self, spec_id: SpecId) -> (r: bool)
        ensures
            r == (spec_id.rank() >= SpecId::LONDON.rank()),
    {
        spec_id.is_enabled_in(SpecId::LONDON)
    }

    /// Whether EIP-161 (clearing empty accounts) is enabled: from Spurious Dragon.
    pub fn is_eip_161_enabled(&self, spec_id: SpecId) -> (r: bool)
        ensures
            r == (spec_id.rank() >= SpecId::SPURIOUS_DRAGON.rank()),
    {
        spec_id.is_enabled_in(SpecId::SPURIOUS_DRAGON)
    }
}

impl PevmEthereum {
    /// The receipt root of a block from the types of its transactions and their
    /// receipts. It can only be calculated from Byzantium: before EIP-658 a
    /// receipt holds the state root after its transaction, which is not at hand.
    pub fn calculate_receipt_root(&self, spec_id: SpecId, tx_types: &Vec<TxType>, receipts: &Vec<TxReceipt>) -> (r: Result<
        B256,
        CalculateReceiptRootError,
    >)
        requires
            forall|i: int| 0 <= i < tx_types@.len() ==> !((#[trigger] tx_types@[i]) is Deposit || tx_types@[i] is PostExec),
            forall|i: int| 0 <= i < receipts@.len() ==> receipt_well_formed(#[trigger] receipts@[i]),
        ensures
            r == if spec_id.rank() < SpecId::BYZANTIUM.rank() {
                Err::<B256, CalculateReceiptRootError>(CalculateReceiptRootError::Unsupported)
            } else {
                Ok(b256_from_bytes(trie_root(receipt_leaves(ethereum_encodings(tx_types@, receipts@)))))
            },
    {
        if !spec_id.is_enabled_in(SpecId::BYZANTIUM) {
            return Err(CalculateReceiptRootError::Unsupported);
        }
        Ok(ethereum_receipt_root(tx_types, receipts))
    }
}

} // verus!
