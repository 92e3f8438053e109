//! What votes do to withdrawal bundles, count by count.

use vstd::prelude::*;
use crate::ledger::{
    ack_bundles, apply_message, cast_vote, one_byte_vote, propose_bundle, tally, two_bytes_vote,
    LedgerView, Vote,
};
use crate::messages::{CoinbaseMessageView, M4AckBundlesView};
use crate::types::BundleView;

verus! {

/// A vote for a bundle gives it one vote more, also where it had none, and leaves its
/// id and every other bundle as they were.
pub proof fn law_a_vote_counts_for_its_bundle(bundles: Seq<BundleView>, index: u16)
    requires
        index < bundles.len(),
        bundles[index as int].vote_count < 65535,
    ensures
        ({
            let after = tally(bundles, Vote::Upvote(index))->0;
            &&& tally(bundles, Vote::Upvote(index)) is Some
            &&& after.len() == bundles.len()
            &&& after[index as int].vote_count == bundles[index as int].vote_count + 1
            &&& after[index as int].bundle_txid == bundles[index as int].bundle_txid
            &&& forall|j: int|
                0 <= j < bundles.len() && j != index ==> #[trigger] after[j] == bundles[j]
        }),
{
}

/// An alarm takes one vote from every bundle that has any, and leaves the ids.
pub proof fn law_an_alarm_counts_against_every_bundle(bundles: Seq<BundleView>)
    ensures
        ({
            let after = tally(bundles, Vote::Alarm)->0;
            &&& tally(bundles, Vote::Alarm) is Some
            &&& after.len() == bundles.len()
            &&& forall|j: int|
                0 <= j < bundles.len() ==> {
                    &&& (#[trigger] after[j]).bundle_txid == bundles[j].bundle_txid
                    &&& bundles[j].vote_count > 0 ==> after[j].vote_count + 1
                        == bundles[j].vote_count
                    &&& bundles[j].vote_count == 0 ==> after[j].vote_count == 0
                }
        }),
{
}

/// An alarm takes back a vote for each bundle: after a vote for a bundle and an alarm it
/// has what it had.
pub proof fn law_an_alarm_takes_back_a_vote(bundles: Seq<BundleView>, index: u16)
    requires
        index < bundles.len(),
        bundles[index as int].vote_count < 65535,
    ensures
        tally(tally(bundles, Vote::Upvote(index))->0, Vote::Alarm)->0[index as int]
            == bundles[index as int],
{
}

/// Whether `after` is `before` with what `upvote` says: the highest value of its width is
/// an abstention, the one below it an alarm, any other the index of a bundle.
pub open spec fn is_count_of(
    before: Seq<BundleView>,
    upvote: int,
    highest: int,
    after: Seq<BundleView>,
) -> bool {
    &&& after.len() == before.len()
    &&& forall|j: int|
        0 <= j < before.len() ==> {
            &&& (#[trigger] after[j]).bundle_txid == before[j].bundle_txid
            &&& after[j].vote_count == (if upvote == highest - 1 && before[j].vote_count > 0 {
                before[j].vote_count - 1
            } else if upvote < highest - 1 && upvote == j {
                before[j].vote_count + 1
            } else {
                before[j].vote_count as int
            })
        }
}

/// Whether the bundle that `upvote` is for is there and has all the votes that its count
/// holds.
pub open spec fn is_full(bundles: Seq<BundleView>, upvote: int, highest: int) -> bool {
    upvote < highest - 1 && upvote < bundles.len() && bundles[upvote].vote_count == 65535
}

/// Up to 256 votes are one for each sidechain number.
proof fn lemma_votes(bundles: Map<u8, Seq<BundleView>>, votes: Seq<Vote>)
    requires
        votes.len() <= 256,
    ensures
        ack_bundles(bundles, votes) is Some <==> forall|n: u8|
            n < votes.len() && #[trigger] bundles.contains_key(n) ==> tally(
                bundles[n],
                votes[n as int],
            ) is Some,
        ack_bundles(bundles, votes) is Some ==> {
            let after = ack_bundles(bundles, votes)->0;
            &&& after.dom() == bundles.dom()
            &&& forall|n: u8| #[trigger]
                bundles.contains_key(n) ==> after[n] == (if n < votes.len() {
                    tally(bundles[n], votes[n as int])->0
                } else {
                    bundles[n]
                })
        },
    decreases votes.len(),
{
    if votes.len() > 0 {
        let first = votes.drop_last();
        lemma_votes(bundles, first);
        let last = (votes.len() - 1) as u8;
        assert((votes.len() - 1) % 256 == votes.len() - 1);
        if ack_bundles(bundles, first) is Some {
            let before = ack_bundles(bundles, first)->0;
            assert(before.contains_key(last) == bundles.contains_key(last));
            if bundles.contains_key(last) {
                assert(before[last] == bundles[last]);
            }
            assert forall|n: u8|
                n < first.len() && #[trigger] bundles.contains_key(n) implies tally(
                bundles[n],
                votes[n as int],
            ) is Some by {
                assert(first[n as int] == votes[n as int]);
            }
            if cast_vote(before, last, votes.last()) is Some {
                let after = ack_bundles(bundles, votes)->0;
                assert(after.dom() =~= bundles.dom());
                assert forall|n: u8| #[trigger] bundles.contains_key(n) implies after[n] == (if n
                    < votes.len() {
                    tally(bundles[n], votes[n as int])->0
                } else {
                    bundles[n]
                }) by {
                    if n < first.len() {
                        assert(first[n as int] == votes[n as int]);
                    }
                }
            } else {
                assert(bundles.contains_key(last));
            }
        } else {
            let n = choose|n: u8|
                n < first.len() && #[trigger] bundles.contains_key(n) && tally(
                    bundles[n],
                    first[n as int],
                ) is None;
            assert(first[n as int] == votes[n as int]);
            assert(bundles.contains_key(n));
        }
    }
}

/// Votes past a multiple of 256 begin at sidechain zero again.
proof fn lemma_votes_go_on(bundles: Map<u8, Seq<BundleView>>, first: Seq<Vote>, rest: Seq<Vote>)
    requires
        first.len() % 256 == 0,
    ensures
        ack_bundles(bundles, first + rest) == (match ack_bundles(bundles, first) {
            Some(between) => ack_bundles(between, rest),
            None => None,
        }),
    decreases rest.len(),
{
    if rest.len() == 0 {
        assert(first + rest =~= first);
    } else {
        lemma_votes_go_on(bundles, first, rest.drop_last());
        assert((first + rest).drop_last() =~= first + rest.drop_last());
        assert(((first + rest).len() - 1) % 256 == (rest.len() - 1) % 256);
    }
}

/// A message with one byte for each sidechain counts each byte for the bundles of the
/// sidechain with its number: the highest byte is an abstention, the one below an alarm,
/// any other the index of the bundle that gets a vote. All other records are as they
/// were. There is no rule where a bundle that gets a vote has 65535 already.
pub proof fn law_one_byte_votes_are_counted(ledger: LedgerView, upvotes: Seq<u8>, height: u32)
    requires
        upvotes.len() <= 256,
    ensures
        ({
            let message = CoinbaseMessageView::M4AckBundles(M4AckBundlesView::OneByte { upvotes });
            let result = apply_message(ledger, message, height);
            &&& result is None <==> exists|n: u8|
                n < upvotes.len() && #[trigger] ledger.bundles.contains_key(n) && is_full(
                    ledger.bundles[n],
                    upvotes[n as int] as int,
                    0xff,
                )
            &&& result matches Some(after) ==> {
                &&& after.proposals == ledger.proposals
                &&& after.sidechains == ledger.sidechains
                &&& after.ctips == ledger.ctips
                &&& after.bundles.dom() == ledger.bundles.dom()
                &&& forall|n: u8| #[trigger]
                    ledger.bundles.contains_key(n) ==> is_count_of(
                        ledger.bundles[n],
                        if n < upvotes.len() {
                            upvotes[n as int] as int
                        } else {
                            0xff
                        },
                        0xff,
                        after.bundles[n],
                    )
            }
        }),
{
    let votes = Seq::new(upvotes.len(), |i: int| one_byte_vote(upvotes[i]));
    lemma_votes(ledger.bundles, votes);
    assert forall|n: u8| n < upvotes.len() && #[trigger] ledger.bundles.contains_key(n) implies (
    tally(ledger.bundles[n], votes[n as int]) is None <==> is_full(
        ledger.bundles[n],
        upvotes[n as int] as int,
        0xff,
    )) by {
        assert(votes[n as int] == one_byte_vote(upvotes[n as int]));
    }
    if ack_bundles(ledger.bundles, votes) is Some {
        let after = ack_bundles(ledger.bundles, votes)->0;
        assert forall|n: u8| #[trigger] ledger.bundles.contains_key(n) implies is_count_of(
            ledger.bundles[n],
            if n < upvotes.len() {
                upvotes[n as int] as int
            } else {
                0xff
            },
            0xff,
            after[n],
        ) by {
            if n < upvotes.len() {
                assert(votes[n as int] == one_byte_vote(upvotes[n as int]));
            }
        }
    } else {
        let n = choose|n: u8|
            n < votes.len() && #[trigger] ledger.bundles.contains_key(n) && tally(
                ledger.bundles[n],
                votes[n as int],
            ) is None;
        assert(ledger.bundles.contains_key(n));
    }
}

/// A message with two bytes for each sidechain counts them as one with one byte does.
pub proof fn law_two_byte_votes_are_counted(ledger: LedgerView, upvotes: Seq<u16>, height: u32)
    requires
        upvotes.len() <= 256,
    ensures
        ({
            let message = CoinbaseMessageView::M4AckBundles(M4AckBundlesView::TwoBytes { upvotes });
            let result = apply_message(ledger, message, height);
            &&& result is None <==> exists|n: u8|
                n < upvotes.len() && #[trigger] ledger.bundles.contains_key(n) && is_full(
                    ledger.bundles[n],
                    upvotes[n as int] as int,
                    0xffff,
                )
            &&& result matches Some(after) ==> {
                &&& after.proposals == ledger.proposals
                &&& after.sidechains == ledger.sidechains
                &&& after.ctips == ledger.ctips
                &&& after.bundles.dom() == ledger.bundles.dom()
                &&& forall|n: u8| #[trigger]
                    ledger.bundles.contains_key(n) ==> is_count_of(
                        ledger.bundles[n],
                        if n < upvotes.len() {
                            upvotes[n as int] as int
                        } else {
                            0xffff
                        },
                        0xffff,
                        after.bundles[n],
                    )
            }
        }),
{
    let votes = Seq::new(upvotes.len(), |i: int| two_bytes_vote(upvotes[i]));
    lemma_votes(ledger.bundles, votes);
    assert forall|n: u8| n < upvotes.len() && #[trigger] ledger.bundles.contains_key(n) implies (
    tally(ledger.bundles[n], votes[n as int]) is None <==> is_full(
        ledger.bundles[n],
        upvotes[n as int] as int,
        0xffff,
    )) by {
        assert(votes[n as int] == two_bytes_vote(upvotes[n as int]));
    }
    if ack_bundles(ledger.bundles, votes) is Some {
        let after = ack_bundles(ledger.bundles, votes)->0;
        assert forall|n: u8| #[trigger] ledger.bundles.contains_key(n) implies is_count_of(
            ledger.bundles[n],
            if n < upvotes.len() {
                upvotes[n as int] as int
            } else {
                0xffff
            },
            0xffff,
            after[n],
        ) by {
            if n < upvotes.len() {
                assert(votes[n as int] == two_bytes_vote(upvotes[n as int]));
            }
        }
    } else {
        let n = choose|n: u8|
            n < votes.len() && #[trigger] ledger.bundles.contains_key(n) && tally(
                ledger.bundles[n],
                votes[n as int],
            ) is None;
        assert(ledger.bundles.contains_key(n));
    }
}

/// More than 256 votes of one byte are as two messages: one with the first 256 votes and
/// one with the others.
pub proof fn law_one_byte_votes_go_on(
    ledger: LedgerView,
    first: Seq<u8>,
    rest: Seq<u8>,
    height: u32,
)
    requires
        first.len() == 256,
    ensures
        ({
            let all = M4AckBundlesView::OneByte { upvotes: first + rest };
            let before = M4AckBundlesView::OneByte { upvotes: first };
            let after = M4AckBundlesView::OneByte { upvotes: rest };
            apply_message(ledger, CoinbaseMessageView::M4AckBundles(all), height) == (
            match apply_message(ledger, CoinbaseMessageView::M4AckBundles(before), height) {
                Some(between) => apply_message(
                    between,
                    CoinbaseMessageView::M4AckBundles(after),
                    height,
                ),
                None => None,
            })
        }),
{
    let a = Seq::new(first.len(), |i: int| one_byte_vote(first[i]));
    let b = Seq::new(rest.len(), |i: int| one_byte_vote(rest[i]));
    assert(a + b =~= Seq::new((first + rest).len(), |i: int| one_byte_vote((first + rest)[i])));
    lemma_votes_go_on(ledger.bundles, a, b);
}

/// More than 256 votes of two bytes are as two messages: one with the first 256 votes and
/// one with the others.
pub proof fn law_two_byte_votes_go_on(
    ledger: LedgerView,
    first: Seq<u16>,
    rest: Seq<u16>,
    height: u32,
)
    requires
        first.len() == 256,
    ensures
        ({
            let all = M4AckBundlesView::TwoBytes { upvotes: first + rest };
            let before = M4AckBundlesView::TwoBytes { upvotes: first };
            let after = M4AckBundlesView::TwoBytes { upvotes: rest };
            apply_message(ledger, CoinbaseMessageView::M4AckBundles(all), height) == (
            match apply_message(ledger, CoinbaseMessageView::M4AckBundles(before), height) {
                Some(between) => apply_message(
                    between,
                    CoinbaseMessageView::M4AckBundles(after),
                    height,
                ),
                None => None,
            })
        }),
{
    let a = Seq::new(first.len(), |i: int| two_bytes_vote(first[i]));
    let b = Seq::new(rest.len(), |i: int| two_bytes_vote(rest[i]));
    assert(a + b =~= Seq::new((first + rest).len(), |i: int| two_bytes_vote((first + rest)[i])));
    lemma_votes_go_on(ledger.bundles, a, b);
}

/// There is no rule for votes that are given by reference to others.
pub proof fn law_votes_by_reference_have_no_rule(ledger: LedgerView, height: u32)
    ensures
        apply_message(
            ledger,
            CoinbaseMessageView::M4AckBundles(M4AckBundlesView::LeadingBy50),
            height,
        ) is None,
        apply_message(
            ledger,
            CoinbaseMessageView::M4AckBundles(M4AckBundlesView::RepeatPrevious),
            height,
        ) is None,
{
}

/// A bundle that is proposed comes behind those that its sidechain has, without votes.
/// Those keep their votes, and all other records are as they were. A sidechain that has no
/// bundles gets none.
pub proof fn law_a_proposed_bundle_comes_last(
    ledger: LedgerView,
    sidechain_number: u8,
    bundle_txid: Seq<u8>,
    height: u32,
)
    ensures
        ({
            let message = CoinbaseMessageView::M3ProposeBundle { sidechain_number, bundle_txid };
            let result = apply_message(ledger, message, height);
            let after = result->0;
            &&& result is Some
            &&& after.proposals == ledger.proposals
            &&& after.sidechains == ledger.sidechains
            &&& after.ctips == ledger.ctips
            &&& after.bundles.dom() == ledger.bundles.dom()
            &&& forall|n: u8|
                n != sidechain_number && #[trigger] ledger.bundles.contains_key(n)
                    ==> after.bundles[n] == ledger.bundles[n]
            &&& ledger.bundles.contains_key(sidechain_number) ==> {
                let old_bundles = ledger.bundles[sidechain_number];
                let new_bundles = after.bundles[sidechain_number];
                &&& new_bundles.len() == old_bundles.len() + 1
                &&& forall|j: int|
                    0 <= j < old_bundles.len() ==> #[trigger] new_bundles[j] == old_bundles[j]
                &&& new_bundles.last().bundle_txid == bundle_txid
                &&& new_bundles.last().vote_count == 0
            }
        }),
{
    assert(propose_bundle(ledger, sidechain_number, bundle_txid).bundles.dom()
        =~= ledger.bundles.dom());
}

} // verus!
