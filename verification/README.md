# bip300_enforcer

The rules of a drivechain enforcer (BIP 300) and of the wallet that mines for it on
regtest, written and proved in Verus.

- `src/bip300.rs` keeps the records of sidechains and connects blocks to them; what a
  block does to the records is stated in `src/ledger.rs`, and what follows for any
  block in `src/ledger_laws.rs`.
- `src/mine.rs` computes the subsidy, makes the coinbase and the block, and searches
  its nonce. The hashes and serializations that it needs are in `src/consensus.rs`,
  most of them from the `bitcoin` crate.
- `src/coinbase.rs`, `src/select.rs` and `src/generate.rs` decide what goes into a
  block and in which order it is made. Each is a state machine that names an action
  and is told what came of it; `src/coinbase_laws.rs` and `src/select_laws.rs` state
  what a whole run asks for.
- `src/errors.rs` shows errors with their causes, and splits them; `src/chain_writer.rs`
  decides what is written next where a write can fail.
- `src/types.rs` and `src/messages.rs` hold the data.

`app/` surrounds the rules with the database, the node and the clock.
