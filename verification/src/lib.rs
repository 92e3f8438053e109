//! The rules of a drivechain enforcer and of the wallet that mines for it.

pub mod bip300;
pub mod bundle_laws;
pub mod chain_writer;
pub mod coinbase;
pub mod coinbase_laws;
pub mod consensus;
pub mod consensus_laws;
pub mod deposit_laws;
pub mod draft_laws;
pub mod errors;
pub mod generate;
pub mod generate_laws;
pub mod ledger;
pub mod ledger_laws;
pub mod messages;
pub mod mine;
pub mod mine_laws;
pub mod payout_laws;
pub mod select;
pub mod select_laws;
pub mod sidechain_laws;
pub mod text_laws;
pub mod types;
pub mod view_laws;
