//! What messages do to proposals and sidechains.

use vstd::prelude::*;
use crate::ledger::{apply_message, propose_hashed, LedgerView};
use crate::messages::{sha256d_digest, CoinbaseMessageView};

verus! {

/// Whether `before` and `after` differ at most in the proposal with this hash.
pub open spec fn same_but_proposal(before: LedgerView, after: LedgerView, hash: Seq<u8>) -> bool {
    &&& after.bundles == before.bundles
    &&& after.ctips == before.ctips
    &&& forall|other: Seq<u8>|
        other != hash ==> #[trigger] after.proposals.contains_key(other)
            == before.proposals.contains_key(other)
    &&& forall|other: Seq<u8>|
        other != hash && #[trigger] before.proposals.contains_key(other)
            ==> after.proposals[other] == before.proposals[other]
}

/// Whether `before` and `after` have the same sidechains.
pub open spec fn same_sidechains(before: LedgerView, after: LedgerView) -> bool {
    &&& forall|n: u8| #[trigger]
        after.sidechains.contains_key(n) == before.sidechains.contains_key(n)
    &&& forall|n: u8| #[trigger]
        before.sidechains.contains_key(n) ==> after.sidechains[n] == before.sidechains[n]
}

/// A proposal is kept under the hash of its data, with its number, the height of its
/// block and no votes, unless there is one under that hash. Nothing else changes.
pub proof fn law_a_proposal_begins_without_votes(
    ledger: LedgerView,
    sidechain_number: u8,
    data: Seq<u8>,
    height: u32,
)
    ensures
        ({
            let message = CoinbaseMessageView::M1ProposeSidechain { sidechain_number, data };
            let result = apply_message(ledger, message, height);
            let after = result->0;
            let hash = sha256d_digest(data);
            &&& result is Some
            &&& same_but_proposal(ledger, after, hash)
            &&& same_sidechains(ledger, after)
            &&& after.proposals.contains_key(hash)
            &&& ledger.proposals.contains_key(hash) ==> after.proposals[hash]
                == ledger.proposals[hash]
            &&& !ledger.proposals.contains_key(hash) ==> {
                &&& after.proposals[hash].sidechain_number == sidechain_number
                &&& after.proposals[hash].data == data
                &&& after.proposals[hash].vote_count == 0
                &&& after.proposals[hash].proposal_height == height
            }
        }),
{
}

/// A vote for a hash that is not there, or for another number than that of the proposal,
/// changes nothing.
pub proof fn law_a_vote_for_nothing_changes_nothing(
    ledger: LedgerView,
    sidechain_number: u8,
    data_hash: Seq<u8>,
    height: u32,
)
    requires
        !ledger.proposals.contains_key(data_hash) || ledger.proposals[data_hash].sidechain_number
            != sidechain_number,
    ensures
        apply_message(
            ledger,
            CoinbaseMessageView::M2AckSidechain { sidechain_number, data_hash },
            height,
        ) == Some(ledger),
{
}

/// Whether a proposal with so many votes has failed at this age: it is older than 26300
/// blocks with at most 13150 votes where its number is in use, and older than 2016 with at
/// most 1815 where it is not.
pub open spec fn too_old(used: bool, age: int, votes: int) -> bool {
    ||| used && age > 26300 && votes <= 13150
    ||| !used && age > 2016 && votes <= 1815
}

/// A vote for a proposal gives it one vote more. With that it fails if it is too old for
/// its votes, becomes the sidechain at its number if it has more than 13150 votes, and
/// else waits with them. Nothing else changes. There is no rule for a vote beyond 65535 and
/// for one below the height of the proposal.
pub proof fn law_a_vote_for_a_proposal_is_counted(
    ledger: LedgerView,
    sidechain_number: u8,
    data_hash: Seq<u8>,
    height: u32,
)
    requires
        ledger.proposals.contains_key(data_hash),
        ledger.proposals[data_hash].sidechain_number == sidechain_number,
    ensures
        ({
            let message = CoinbaseMessageView::M2AckSidechain { sidechain_number, data_hash };
            let result = apply_message(ledger, message, height);
            let after = result->0;
            let proposal = ledger.proposals[data_hash];
            let votes = proposal.vote_count + 1;
            let used = ledger.sidechains.contains_key(sidechain_number);
            let failed = too_old(used, height - proposal.proposal_height, votes);
            &&& result is None <==> votes > 65535 || height < proposal.proposal_height
            &&& result is Some ==> {
                &&& same_but_proposal(ledger, after, data_hash)
                &&& failed ==> !after.proposals.contains_key(data_hash) && same_sidechains(
                    ledger,
                    after,
                )
                &&& !failed && votes <= 13150 ==> {
                    &&& same_sidechains(ledger, after)
                    &&& after.proposals.contains_key(data_hash)
                    &&& after.proposals[data_hash].vote_count == votes
                    &&& after.proposals[data_hash].sidechain_number == sidechain_number
                    &&& after.proposals[data_hash].data == proposal.data
                    &&& after.proposals[data_hash].proposal_height == proposal.proposal_height
                }
                &&& !failed && votes > 13150 ==> {
                    &&& !after.proposals.contains_key(data_hash)
                    &&& after.sidechains.contains_key(sidechain_number)
                    &&& after.sidechains[sidechain_number].sidechain_number == sidechain_number
                    &&& after.sidechains[sidechain_number].data == proposal.data
                    &&& after.sidechains[sidechain_number].vote_count == votes
                    &&& after.sidechains[sidechain_number].proposal_height
                        == proposal.proposal_height
                    &&& after.sidechains[sidechain_number].activation_height == height
                    &&& forall|n: u8|
                        n != sidechain_number ==> #[trigger] after.sidechains.contains_key(n)
                            == ledger.sidechains.contains_key(n)
                    &&& forall|n: u8|
                        n != sidechain_number && #[trigger] ledger.sidechains.contains_key(n)
                            ==> after.sidechains[n] == ledger.sidechains[n]
                }
            }
        }),
{
}

/// A proposal with more votes fares no worse: where one of the same age does not fail at a
/// vote, one with more votes does not.
pub proof fn law_more_votes_fare_no_worse(
    ledger: LedgerView,
    better: LedgerView,
    sidechain_number: u8,
    data_hash: Seq<u8>,
    height: u32,
)
    requires
        ledger.proposals.contains_key(data_hash),
        better.proposals.contains_key(data_hash),
        ledger.proposals[data_hash].sidechain_number == sidechain_number,
        better.proposals[data_hash].sidechain_number == sidechain_number,
        ledger.proposals[data_hash].proposal_height
            == better.proposals[data_hash].proposal_height,
        ledger.proposals[data_hash].vote_count <= better.proposals[data_hash].vote_count,
        better.proposals[data_hash].vote_count < 65535,
        ledger.sidechains.contains_key(sidechain_number) == better.sidechains.contains_key(
            sidechain_number,
        ),
        ledger.proposals[data_hash].proposal_height <= height,
    ensures
        ({
            let message = CoinbaseMessageView::M2AckSidechain { sidechain_number, data_hash };
            let after = apply_message(ledger, message, height)->0;
            let better_after = apply_message(better, message, height)->0;
            after.proposals.contains_key(data_hash) || after.sidechains != ledger.sidechains
                ==> better_after.proposals.contains_key(data_hash) || (
            better_after.sidechains.contains_key(sidechain_number)
                && better_after.sidechains[sidechain_number].activation_height == height
                && better_after.sidechains[sidechain_number].data
                == better.proposals[data_hash].data)
        }),
{
}

/// A proposal is kept under the hash that is given for it, whatever it is, unless there is
/// one under it. Nothing else changes.
pub proof fn law_a_proposal_is_kept_under_the_given_hash(
    ledger: LedgerView,
    hash: Seq<u8>,
    sidechain_number: u8,
    data: Seq<u8>,
    height: u32,
)
    ensures
        ({
            let after = propose_hashed(ledger, hash, sidechain_number, data, height);
            &&& same_but_proposal(ledger, after, hash)
            &&& same_sidechains(ledger, after)
            &&& after.proposals.contains_key(hash)
            &&& ledger.proposals.contains_key(hash) ==> after.proposals[hash]
                == ledger.proposals[hash]
            &&& !ledger.proposals.contains_key(hash) ==> {
                &&& after.proposals[hash].sidechain_number == sidechain_number
                &&& after.proposals[hash].data == data
                &&& after.proposals[hash].vote_count == 0
                &&& after.proposals[hash].proposal_height == height
            }
        }),
{
}

} // verus!
