# pevm

The parts of a parallel EVM block executor that decide things, written in Verus
and proved against their contracts.

- `src/` is the verified library:
  - the multi-version memory that transactions of a block read and write concurrently;
  - the reads a transaction makes through it;
  - write sets, rewards and the lazy evaluation of beneficiaries and raw-transfer accounts;
  - the EVM journal with its checkpoints and reverts;
  - transaction and environment validation;
  - the chain rules of Ethereum, Optimism and RISE;
  - receipt roots and deposits.
- Calls into outside crates (revm, alloy, hashbrown, dashmap, smallvec,
  rustc-hash, ruint) stand behind small trusted wrappers whose contracts say
  what those crates' sources do.
- `tests/` exercises the library on concrete values.
- `app/` holds what Verus does not see: conversions to and from revm and alloy
  types, and the storage traits.
