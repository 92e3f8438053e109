//! The messages that a coinbase transaction carries.

use vstd::prelude::*;
use crate::types::Hash256;

verus! {

/// Marks the output that holds the coins of a sidechain (`OP_NOP5`).
pub const OP_DRIVECHAIN: u8 = 0xb4;

/// The vote that leaves every bundle of a sidechain as it is.
pub const ABSTAIN_ONE_BYTE: u8 = 0xff;

/// `ABSTAIN_ONE_BYTE` where a vote has two bytes.
pub const ABSTAIN_TWO_BYTES: u16 = 0xffff;

/// The vote against every bundle of a sidechain.
pub const ALARM_ONE_BYTE: u8 = 0xfe;

/// `ALARM_ONE_BYTE` where a vote has two bytes.
pub const ALARM_TWO_BYTES: u16 = 0xfffe;

/// What an output of a coinbase transaction says.
pub enum CoinbaseMessage {
    /// Proposes `data` as the sidechain at a number.
    M1ProposeSidechain { sidechain_number: u8, data: Vec<u8> },
    /// Votes for the proposal whose data hashes to `data_hash`.
    M2AckSidechain { sidechain_number: u8, data_hash: Hash256 },
    /// Proposes a withdrawal bundle of a sidechain.
    M3ProposeBundle { sidechain_number: u8, bundle_txid: Hash256 },
    /// Votes on the bundles of all sidechains.
    M4AckBundles(M4AckBundles),
}

/// How a coinbase votes on bundles. `upvotes` has one vote for each sidechain
/// number, from zero on: the index of a bundle, an alarm or an abstention.
#[allow(inconsistent_fields)]
pub enum M4AckBundles {
    LeadingBy50,
    RepeatPrevious,
    OneByte { upvotes: Vec<u8> },
    TwoBytes { upvotes: Vec<u16> },
}

pub enum CoinbaseMessageView {
    M1ProposeSidechain { sidechain_number: u8, data: Seq<u8> },
    M2AckSidechain { sidechain_number: u8, data_hash: Seq<u8> },
    M3ProposeBundle { sidechain_number: u8, bundle_txid: Seq<u8> },
    M4AckBundles(M4AckBundlesView),
}

#[allow(inconsistent_fields)]
pub enum M4AckBundlesView {
    LeadingBy50,
    RepeatPrevious,
    OneByte { upvotes: Seq<u8> },
    TwoBytes { upvotes: Seq<u16> },
}

impl View for M4AckBundles {
    type V = M4AckBundlesView;

    open spec fn view(&self) -> M4AckBundlesView {
        match self {
            M4AckBundles::LeadingBy50 => M4AckBundlesView::LeadingBy50,
            M4AckBundles::RepeatPrevious => M4AckBundlesView::RepeatPrevious,
            M4AckBundles::OneByte { upvotes } => M4AckBundlesView::OneByte { upvotes: upvotes@ },
            M4AckBundles::TwoBytes { upvotes } => M4AckBundlesView::TwoBytes { upvotes: upvotes@ },
        }
    }
}

impl View for CoinbaseMessage {
    type V = CoinbaseMessageView;

    open spec fn view(&self) -> CoinbaseMessageView {
        match self {
            CoinbaseMessage::M1ProposeSidechain { sidechain_number, data } => {
                CoinbaseMessageView::M1ProposeSidechain {
                    sidechain_number: *sidechain_number,
                    data: data@,
                }
            },
            CoinbaseMessage::M2AckSidechain { sidechain_number, data_hash } => {
                CoinbaseMessageView::M2AckSidechain {
                    sidechain_number: *sidechain_number,
                    data_hash: data_hash@,
                }
            },
            CoinbaseMessage::M3ProposeBundle { sidechain_number, bundle_txid } => {
                CoinbaseMessageView::M3ProposeBundle {
                    sidechain_number: *sidechain_number,
                    bundle_txid: bundle_txid@,
                }
            },
            CoinbaseMessage::M4AckBundles(m4) => CoinbaseMessageView::M4AckBundles(m4@),
        }
    }
}

/// The double SHA-256 digest of `data`: what
/// `bitcoin::hashes::sha256d::Hash::hash` returns for it.
pub uninterp spec fn sha256d_digest(data: Seq<u8>) -> Seq<u8>;

/// Calls `bitcoin::hashes::sha256d::Hash::hash`. The contract claims that the
/// digest is a function of the bytes that are hashed.
#[verifier::external_body]
pub(crate) fn sha256d(data: &[u8]) -> (digest: Hash256)
    ensures
        digest@ == sha256d_digest(data@),
{
    let digest: bitcoin::hashes::sha256d::Hash = bitcoin::hashes::Hash::hash(data);
    bitcoin::hashes::Hash::to_byte_array(digest)
}

} // verus!
