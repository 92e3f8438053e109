//! What a draft of a coinbase puts into it.

use vstd::prelude::*;
use crate::coinbase::{
    acks_number, advance, bundle_vote, lemma_acks_number_add, missing_acks, unproposed,
    unproposed_of, unvoted, votes_for, DraftActionView, DraftEventView, DraftTask, StageView,
};
use crate::coinbase_laws::{
    ack_actions, all_acks, bundle_actions, draft_plan, draft_start, law_draft_follows_its_plan,
    newly_stored, run, vote_actions, Replies,
};
use crate::messages::sha256d_digest;
use crate::types::{
    BundleIdView, BundleProposalView, SidechainAckView, SidechainBundlesView,
    SidechainDescriptionView,
};

verus! {

/// The bundles of two lists of one sidechain that are in no block are those of the first,
/// then those of the second.
pub proof fn law_unproposed_bundles_of_lists_join(
    number: u8,
    first: Seq<BundleProposalView>,
    rest: Seq<BundleProposalView>,
)
    ensures
        unproposed_of(number, first + rest) == unproposed_of(number, first) + unproposed_of(
            number,
            rest,
        ),
    decreases rest.len(),
{
    if rest.len() == 0 {
        assert(first + rest =~= first);
        assert(unproposed_of(number, first) + Seq::<BundleIdView>::empty() =~= unproposed_of(
            number,
            first,
        ));
    } else {
        law_unproposed_bundles_of_lists_join(number, first, rest.drop_last());
        assert((first + rest).drop_last() =~= first + rest.drop_last());
        assert(unproposed_of(number, first + rest) =~= unproposed_of(number, first)
            + unproposed_of(number, rest));
    }
}

/// A single bundle is to be proposed if and only if it has no vote count.
pub proof fn law_a_bundle_is_proposed_until_it_is_in_a_block(
    number: u8,
    bundle: BundleProposalView,
)
    ensures
        bundle.vote_count is None ==> unproposed_of(number, seq![bundle]) == seq![
            BundleIdView { sidechain_number: number, m6id: bundle.m6id },
        ],
        bundle.vote_count is Some ==> unproposed_of(number, seq![bundle]).len() == 0,
        unproposed_of(number, Seq::empty()).len() == 0,
{
    assert(seq![bundle].drop_last() =~= Seq::empty());
    assert(unproposed_of(number, Seq::empty()) =~= Seq::empty());
    assert(Seq::<BundleIdView>::empty().push(
        BundleIdView { sidechain_number: number, m6id: bundle.m6id },
    ) =~= seq![BundleIdView { sidechain_number: number, m6id: bundle.m6id }]);
}

/// The bundles of two lists of sidechains that are in no block are those of the first, then
/// those of the second; those of a single sidechain are those of its list.
pub proof fn law_unproposed_bundles_of_sidechains_join(
    first: Seq<SidechainBundlesView>,
    rest: Seq<SidechainBundlesView>,
    entry: SidechainBundlesView,
)
    ensures
        unproposed(first + rest) == unproposed(first) + unproposed(rest),
        unproposed(seq![entry]) == unproposed_of(entry.sidechain_number, entry.bundles),
    decreases rest.len(),
{
    assert(seq![entry].drop_last() =~= Seq::empty());
    assert(unproposed(Seq::empty()) =~= Seq::empty());
    assert(unproposed(seq![entry]) =~= unproposed_of(entry.sidechain_number, entry.bundles));
    if rest.len() == 0 {
        assert(first + rest =~= first);
        assert(unproposed(first) + Seq::<BundleIdView>::empty() =~= unproposed(first));
    } else {
        law_unproposed_bundles_of_sidechains_join(first, rest.drop_last(), entry);
        assert((first + rest).drop_last() =~= first + rest.drop_last());
        assert(unproposed(first + rest) =~= unproposed(first) + unproposed(rest));
    }
}

/// Whether the bundle at `j` of the entry at `i` is `id` and has no vote count.
pub open spec fn is_new(proposals: Seq<SidechainBundlesView>, i: int, j: int, id: BundleIdView) ->
    bool {
    &&& 0 <= i < proposals.len()
    &&& 0 <= j < proposals[i].bundles.len()
    &&& proposals[i].sidechain_number == id.sidechain_number
    &&& proposals[i].bundles[j].m6id == id.m6id
    &&& proposals[i].bundles[j].vote_count is None
}

proof fn lemma_unproposed_of(number: u8, bundles: Seq<BundleProposalView>, id: BundleIdView)
    ensures
        unproposed_of(number, bundles).contains(id) <==> id.sidechain_number == number && exists|
            j: int,
        |
            0 <= j < bundles.len() && (#[trigger] bundles[j]).m6id == id.m6id
                && bundles[j].vote_count is None,
    decreases bundles.len(),
{
    if bundles.len() > 0 {
        let shorter = bundles.drop_last();
        let before = unproposed_of(number, shorter);
        let all = unproposed_of(number, bundles);
        lemma_unproposed_of(number, shorter, id);
        if all.contains(id) {
            let k = choose|k: int| 0 <= k < all.len() && all[k] == id;
            if k < before.len() {
                assert(before[k] == id);
                assert(before.contains(id));
                let j = choose|j: int|
                    0 <= j < shorter.len() && (#[trigger] shorter[j]).m6id == id.m6id
                        && shorter[j].vote_count is None;
                assert(bundles[j] == shorter[j]);
            } else {
                assert(bundles[bundles.len() - 1].m6id == id.m6id);
            }
        }
        if id.sidechain_number == number && exists|j: int|
            0 <= j < bundles.len() && (#[trigger] bundles[j]).m6id == id.m6id
                && bundles[j].vote_count is None {
            let j = choose|j: int|
                0 <= j < bundles.len() && (#[trigger] bundles[j]).m6id == id.m6id
                    && bundles[j].vote_count is None;
            if j < shorter.len() {
                assert(shorter[j] == bundles[j]);
                let k = choose|k: int| 0 <= k < before.len() && before[k] == id;
                assert(all[k] == id);
            } else {
                assert(all[all.len() - 1] == id);
            }
        }
    }
}

/// A bundle is among those to be proposed if and only if it is in the list of its sidechain
/// without a vote count.
pub proof fn law_the_bundles_in_no_block_are_proposed(
    proposals: Seq<SidechainBundlesView>,
    id: BundleIdView,
)
    ensures
        unproposed(proposals).contains(id) <==> exists|i: int, j: int| is_new(proposals, i, j, id),
    decreases proposals.len(),
{
    if proposals.len() > 0 {
        let shorter = proposals.drop_last();
        let last = proposals.last();
        let before = unproposed(shorter);
        let added = unproposed_of(last.sidechain_number, last.bundles);
        let all = unproposed(proposals);
        law_the_bundles_in_no_block_are_proposed(shorter, id);
        lemma_unproposed_of(last.sidechain_number, last.bundles, id);
        if all.contains(id) {
            let k = choose|k: int| 0 <= k < all.len() && all[k] == id;
            if k < before.len() {
                assert(before[k] == id);
                let (i, j) = choose|i: int, j: int| is_new(shorter, i, j, id);
                assert(is_new(proposals, i, j, id));
            } else {
                assert(added[k - before.len()] == id);
                assert(added.contains(id));
                let j = choose|j: int|
                    0 <= j < last.bundles.len() && (#[trigger] last.bundles[j]).m6id == id.m6id
                        && last.bundles[j].vote_count is None;
                assert(is_new(proposals, proposals.len() - 1, j, id));
            }
        }
        if exists|i: int, j: int| is_new(proposals, i, j, id) {
            let (i, j) = choose|i: int, j: int| is_new(proposals, i, j, id);
            if i < shorter.len() {
                assert(is_new(shorter, i, j, id));
                let k = choose|k: int| 0 <= k < before.len() && before[k] == id;
                assert(all[k] == id);
            } else {
                assert(last.bundles[j].m6id == id.m6id);
                let k = choose|k: int| 0 <= k < added.len() && added[k] == id;
                assert(all[before.len() + k] == id);
            }
        }
    } else {
        assert(unproposed(proposals).len() == 0);
    }
}

/// The votes that are missing for two lists of proposals are those for the first, and those
/// for the second where these are there too. For a single proposal one is missing if and
/// only if its number has none; it has the hash of the description.
pub proof fn law_missing_acks_of_lists_join(
    acks: Seq<SidechainAckView>,
    first: Seq<SidechainDescriptionView>,
    rest: Seq<SidechainDescriptionView>,
    proposal: SidechainDescriptionView,
)
    ensures
        missing_acks(acks, first + rest) == missing_acks(acks, first) + missing_acks(
            acks + missing_acks(acks, first),
            rest,
        ),
        missing_acks(acks, Seq::empty()).len() == 0,
        missing_acks(acks, seq![proposal]) == (if exists|k: int|
            0 <= k < acks.len() && #[trigger] acks[k].sidechain_number
                == proposal.sidechain_number {
            Seq::empty()
        } else {
            seq![
                SidechainAckView {
                    sidechain_number: proposal.sidechain_number,
                    description_hash: sha256d_digest(proposal.description),
                },
            ]
        }),
    decreases rest.len(),
{
    let before = missing_acks(acks, first);
    assert(votes_for(Seq::empty()) =~= Seq::empty());
    let vote = SidechainAckView {
        sidechain_number: proposal.sidechain_number,
        description_hash: sha256d_digest(proposal.description),
    };
    assert(votes_for(seq![proposal]) =~= seq![vote]);
    assert(seq![vote].drop_last() =~= Seq::empty());
    assert(unvoted(acks, Seq::empty()) =~= Seq::empty());
    assert(acks + Seq::<SidechainAckView>::empty() =~= acks);
    assert(Seq::<SidechainAckView>::empty().push(vote) =~= seq![vote]);
    if rest.len() == 0 {
        assert(first + rest =~= first);
        assert(votes_for(rest) =~= Seq::empty());
        assert(before + Seq::<SidechainAckView>::empty() =~= before);
    } else {
        let shorter = rest.drop_last();
        law_missing_acks_of_lists_join(acks, first, shorter, proposal);
        assert(votes_for(first + rest).drop_last() =~= votes_for(first + shorter));
        assert(votes_for(rest).drop_last() =~= votes_for(shorter));
        assert(votes_for(first + rest).last() == votes_for(rest).last());
        let later = missing_acks(acks + before, shorter);
        assert(acks + (before + later) =~= (acks + before) + later);
        assert(missing_acks(acks, first + rest) =~= before + missing_acks(acks + before, rest));
    }
}

/// What `part` takes of each of `actions`, in order.
pub open spec fn gathered<T>(
    actions: Seq<DraftActionView>,
    part: spec_fn(DraftActionView) -> Seq<T>,
) -> Seq<T>
    decreases actions.len(),
{
    if actions.len() == 0 {
        Seq::empty()
    } else {
        gathered(actions.drop_last(), part) + part(actions.last())
    }
}

proof fn lemma_gathered_join<T>(
    first: Seq<DraftActionView>,
    rest: Seq<DraftActionView>,
    part: spec_fn(DraftActionView) -> Seq<T>,
)
    ensures
        gathered(first + rest, part) == gathered(first, part) + gathered(rest, part),
    decreases rest.len(),
{
    if rest.len() == 0 {
        assert(first + rest =~= first);
        assert(gathered(first, part) + Seq::<T>::empty() =~= gathered(first, part));
    } else {
        lemma_gathered_join(first, rest.drop_last(), part);
        assert((first + rest).drop_last() =~= first + rest.drop_last());
        assert(gathered(first + rest, part) =~= gathered(first, part) + gathered(rest, part));
    }
}

proof fn lemma_gathered_none<T>(
    actions: Seq<DraftActionView>,
    part: spec_fn(DraftActionView) -> Seq<T>,
)
    requires
        forall|i: int| 0 <= i < actions.len() ==> part(#[trigger] actions[i]).len() == 0,
    ensures
        gathered(actions, part) == Seq::<T>::empty(),
    decreases actions.len(),
{
    if actions.len() > 0 {
        lemma_gathered_none(actions.drop_last(), part);
        assert(part(actions[actions.len() - 1]).len() == 0);
        assert(gathered(actions, part) =~= Seq::<T>::empty());
    }
}

proof fn lemma_gathered_one<T>(
    action: DraftActionView,
    part: spec_fn(DraftActionView) -> Seq<T>,
)
    ensures
        gathered(seq![action], part) == part(action),
{
    let none = Seq::<DraftActionView>::empty();
    assert(seq![action].drop_last() =~= none);
    assert(gathered(none, part) == Seq::<T>::empty());
    assert(Seq::<T>::empty() + part(action) =~= part(action));
}

proof fn lemma_gathered_two<T>(
    first: DraftActionView,
    second: DraftActionView,
    rest: Seq<DraftActionView>,
    part: spec_fn(DraftActionView) -> Seq<T>,
)
    ensures
        gathered(seq![first, second] + rest, part) == part(first) + part(second) + gathered(
            rest,
            part,
        ),
{
    lemma_gathered_one(first, part);
    lemma_gathered_one(second, part);
    lemma_gathered_join(seq![first], seq![second], part);
    assert(seq![first] + seq![second] =~= seq![first, second]);
    lemma_gathered_join(seq![first, second], rest, part);
}

/// What an action puts into the coinbase: itself, if it does.
pub open spec fn into_coinbase() -> spec_fn(DraftActionView) -> Seq<DraftActionView> {
    |action: DraftActionView|
        match action {
            DraftActionView::ProposeSidechains(_) => seq![action],
            DraftActionView::AckSidechain(_) => seq![action],
            DraftActionView::AcceptBmm(_) => seq![action],
            DraftActionView::ProposeBundles(_) => seq![action],
            DraftActionView::AckBundles(_) => seq![action],
            _ => Seq::empty(),
        }
}

/// What an action does to the votes that the wallet has stored: itself, if it does anything.
pub open spec fn into_store() -> spec_fn(DraftActionView) -> Seq<DraftActionView> {
    |action: DraftActionView|
        match action {
            DraftActionView::StoreAcks(_) => seq![action],
            DraftActionView::DeleteAck(_) => seq![action],
            _ => Seq::empty(),
        }
}

/// What an action asks to be held against the proposals: the vote and the proposals.
pub open spec fn validated() -> spec_fn(DraftActionView) -> Seq<
    (SidechainAckView, Seq<SidechainDescriptionView>),
> {
    |action: DraftActionView|
        match action {
            DraftActionView::ValidateAck { ack, active } => seq![(ack, active)],
            _ => Seq::empty(),
        }
}

/// The sidechain whose withdrawals an action asks for.
pub open spec fn checked() -> spec_fn(DraftActionView) -> Seq<u8> {
    |action: DraftActionView|
        match action {
            DraftActionView::CheckPendingWithdrawals(number) => seq![number],
            _ => Seq::empty(),
        }
}

/// Those of `votes` from place `from` on whose place `keep` takes, each as an action.
pub open spec fn picked(
    votes: Seq<SidechainAckView>,
    keep: spec_fn(int) -> bool,
    from: int,
    as_action: spec_fn(SidechainAckView) -> DraftActionView,
) -> Seq<DraftActionView>
    decreases votes.len() - from,
{
    if from >= votes.len() {
        Seq::empty()
    } else if keep(from) {
        seq![as_action(votes[from])] + picked(votes, keep, from + 1, as_action)
    } else {
        picked(votes, keep, from + 1, as_action)
    }
}

/// A vote that is added to the coinbase.
pub open spec fn as_added() -> spec_fn(SidechainAckView) -> DraftActionView {
    |ack: SidechainAckView| DraftActionView::AckSidechain(ack)
}

/// A vote that is deleted.
pub open spec fn as_deleted() -> spec_fn(SidechainAckView) -> DraftActionView {
    |ack: SidechainAckView| DraftActionView::DeleteAck(ack)
}

proof fn lemma_ack_actions(
    acks: Seq<SidechainAckView>,
    active: Seq<SidechainDescriptionView>,
    valid: spec_fn(int) -> bool,
    next: int,
)
    requires
        0 <= next <= acks.len(),
    ensures
        ({
            let actions = ack_actions(acks, active, valid, next);
            &&& actions.len() == 2 * (acks.len() - next)
            &&& gathered(actions, into_coinbase()) == picked(acks, valid, next, as_added())
            &&& gathered(actions, into_store()) == picked(
                acks,
                |i: int| !valid(i),
                next,
                as_deleted(),
            )
            &&& gathered(actions, validated()) == Seq::new(
                (acks.len() - next) as nat,
                |i: int| (acks[next + i], active),
            )
            &&& gathered(actions, checked()) == Seq::<u8>::empty()
        }),
    decreases acks.len() - next,
{
    let actions = ack_actions(acks, active, valid, next);
    let listed = Seq::new((acks.len() - next) as nat, |i: int| (acks[next + i], active));
    if next < acks.len() {
        let ask = DraftActionView::ValidateAck { ack: acks[next], active };
        let act = if valid(next) {
            DraftActionView::AckSidechain(acks[next])
        } else {
            DraftActionView::DeleteAck(acks[next])
        };
        let rest = ack_actions(acks, active, valid, next + 1);
        let invalid = |i: int| !valid(i);
        lemma_ack_actions(acks, active, valid, next + 1);
        assert(actions == seq![ask, act] + rest);
        lemma_gathered_two(ask, act, rest, into_coinbase());
        lemma_gathered_two(ask, act, rest, into_store());
        lemma_gathered_two(ask, act, rest, validated());
        lemma_gathered_two(ask, act, rest, checked());
        assert(gathered(actions, into_coinbase()) =~= picked(acks, valid, next, as_added()));
        assert(gathered(actions, into_store()) =~= picked(acks, invalid, next, as_deleted()));
        assert(gathered(actions, validated()) =~= listed);
        assert(gathered(actions, checked()) =~= Seq::<u8>::empty());
    } else {
        assert(listed =~= Seq::empty());
    }
}

proof fn lemma_vote_actions(sidechains: Seq<u8>, pending: spec_fn(int) -> bool, next: int)
    requires
        0 <= next <= sidechains.len(),
    ensures
        ({
            let actions = vote_actions(sidechains, pending, next);
            let upvotes = Seq::new(
                sidechains.len(),
                |i: int|
                    if pending(i) {
                        0u8
                    } else {
                        0xffu8
                    },
            );
            &&& actions.len() == sidechains.len() - next + 1
            &&& gathered(actions, into_coinbase()) == seq![DraftActionView::AckBundles(upvotes)]
            &&& gathered(actions, into_store()) == Seq::<DraftActionView>::empty()
            &&& gathered(actions, validated()).len() == 0
            &&& gathered(actions, checked()) == sidechains.skip(next)
        }),
    decreases sidechains.len() - next,
{
    let actions = vote_actions(sidechains, pending, next);
    if next < sidechains.len() {
        let ask = DraftActionView::CheckPendingWithdrawals(sidechains[next]);
        let rest = vote_actions(sidechains, pending, next + 1);
        lemma_vote_actions(sidechains, pending, next + 1);
        lemma_gathered_join(seq![ask], rest, into_coinbase());
        lemma_gathered_one(ask, into_coinbase());
        lemma_gathered_join(seq![ask], rest, into_store());
        lemma_gathered_one(ask, into_store());
        lemma_gathered_join(seq![ask], rest, validated());
        lemma_gathered_one(ask, validated());
        lemma_gathered_join(seq![ask], rest, checked());
        lemma_gathered_one(ask, checked());
        assert(gathered(actions, into_coinbase()) =~= gathered(rest, into_coinbase()));
        assert(gathered(actions, into_store()) =~= gathered(rest, into_store()));
        assert(gathered(actions, checked()) =~= sidechains.skip(next));
    } else {
        let upvotes = Seq::new(
            sidechains.len(),
            |i: int|
                if pending(i) {
                    0u8
                } else {
                    0xffu8
                },
        );
        assert(upvotes =~= Seq::new(sidechains.len(), |i: int| bundle_vote(pending(i))));
        let act = DraftActionView::AckBundles(upvotes);
        assert(actions =~= seq![act]);
        lemma_gathered_one(act, into_coinbase());
        lemma_gathered_one(act, into_store());
        lemma_gathered_one(act, validated());
        lemma_gathered_one(act, checked());
        assert(sidechains.skip(next) =~= Seq::empty());
    }
}

proof fn lemma_bundle_actions(task: DraftTask, replies: Replies)
    ensures
        ({
            let actions = bundle_actions(task, replies);
            let voting = task.ack_all && replies.ack_count == 0;
            let upvotes = Seq::new(
                replies.active_sidechains.len(),
                |i: int|
                    if (replies.pending)(i) {
                        0u8
                    } else {
                        0xffu8
                    },
            );
            &&& actions.len() <= replies.active_sidechains.len() + 3
            &&& gathered(actions, into_coinbase()) == (if voting {
                seq![DraftActionView::AckBundles(upvotes)]
            } else {
                Seq::empty()
            })
            &&& gathered(actions, into_store()) == Seq::<DraftActionView>::empty()
            &&& gathered(actions, validated()).len() == 0
            &&& gathered(actions, checked()) == (if voting {
                replies.active_sidechains
            } else {
                Seq::empty()
            })
        }),
{
    let actions = bundle_actions(task, replies);
    if task.ack_all && replies.ack_count == 0 {
        let head = seq![DraftActionView::CountAcks, DraftActionView::ListActiveSidechains];
        let rest = vote_actions(replies.active_sidechains, replies.pending, 0);
        lemma_vote_actions(replies.active_sidechains, replies.pending, 0);
        lemma_gathered_none(head, into_coinbase());
        lemma_gathered_none(head, into_store());
        lemma_gathered_none(head, validated());
        lemma_gathered_none(head, checked());
        lemma_gathered_join(head, rest, into_coinbase());
        lemma_gathered_join(head, rest, into_store());
        lemma_gathered_join(head, rest, validated());
        lemma_gathered_join(head, rest, checked());
        assert(gathered(actions, into_coinbase()) =~= gathered(rest, into_coinbase()));
        assert(gathered(actions, into_store()) =~= gathered(rest, into_store()));
        assert(replies.active_sidechains.skip(0) =~= replies.active_sidechains);
        assert(gathered(actions, checked()) =~= replies.active_sidechains);
    } else {
        lemma_gathered_none(actions, into_coinbase());
        lemma_gathered_none(actions, into_store());
        lemma_gathered_none(actions, validated());
        lemma_gathered_none(actions, checked());
    }
}

proof fn lemma_missing_len(acks: Seq<SidechainAckView>, votes: Seq<SidechainAckView>)
    ensures
        unvoted(acks, votes).len() <= votes.len(),
    decreases votes.len(),
{
    if votes.len() > 0 {
        lemma_missing_len(acks, votes.drop_last());
    }
}

/// All that a draft puts into the coinbase, whatever it is told: the wallet's own
/// proposals; of the votes, stored and missing ones, those that are valid, in order; the
/// commitments for its block; the bundles that are in no block; and, if it votes for all
/// and the coinbase has no vote for a sidechain, a vote for the first bundle of each
/// sidechain with pending withdrawals and an abstention for each other. It ends with the
/// outputs being made.
pub proof fn law_what_a_draft_puts_into_the_coinbase(task: DraftTask, replies: Replies, n: nat)
    requires
        n >= 13 + 2 * (replies.acks.len() + replies.active_proposals.len())
            + replies.active_sidechains.len(),
    ensures
        ({
            let actions = run(task, draft_start(), replies, n);
            let votes = replies.acks + (if task.ack_all {
                missing_acks(replies.acks, replies.active_proposals)
            } else {
                Seq::empty()
            });
            let upvotes = Seq::new(
                replies.active_sidechains.len(),
                |i: int|
                    if (replies.pending)(i) {
                        0u8
                    } else {
                        0xffu8
                    },
            );
            &&& gathered(actions, into_coinbase()) == seq![
                DraftActionView::ProposeSidechains(replies.our_proposals),
            ] + picked(votes, replies.valid, 0, as_added()) + seq![
                DraftActionView::AcceptBmm((replies.bmm_requests)(task.tip)),
                DraftActionView::ProposeBundles(unproposed(replies.bundle_proposals)),
            ] + (if task.ack_all && replies.ack_count == 0 {
                seq![DraftActionView::AckBundles(upvotes)]
            } else {
                Seq::empty()
            })
            &&& actions.len() > 0 && actions.last() is Build
        }),
{
    lemma_plan(task, replies, n);
}

/// All that a draft does to the votes that the wallet has stored: it stores those that are
/// missing, if it votes for all, and deletes those that are not valid, in order. It asks
/// of each vote once whether it is valid, and shows the proposals that are voted on.
pub proof fn law_what_a_draft_does_to_the_stored_votes(task: DraftTask, replies: Replies, n: nat)
    requires
        n >= 13 + 2 * (replies.acks.len() + replies.active_proposals.len())
            + replies.active_sidechains.len(),
    ensures
        ({
            let actions = run(task, draft_start(), replies, n);
            let missing = if task.ack_all {
                missing_acks(replies.acks, replies.active_proposals)
            } else {
                Seq::empty()
            };
            let votes = replies.acks + missing;
            &&& gathered(actions, into_store()) == seq![DraftActionView::StoreAcks(missing)]
                + picked(votes, |i: int| !(replies.valid)(i), 0, as_deleted())
            &&& gathered(actions, validated()) == Seq::new(
                votes.len(),
                |i: int| (votes[i], replies.active_proposals),
            )
            &&& gathered(actions, checked()) == (if task.ack_all && replies.ack_count == 0 {
                replies.active_sidechains
            } else {
                Seq::empty()
            })
        }),
{
    lemma_plan(task, replies, n);
}

proof fn lemma_plan(task: DraftTask, replies: Replies, n: nat)
    requires
        n >= 13 + 2 * (replies.acks.len() + replies.active_proposals.len())
            + replies.active_sidechains.len(),
    ensures
        ({
            let actions = run(task, draft_start(), replies, n);
            let missing = newly_stored(task, replies);
            let votes = all_acks(task, replies);
            let voting = task.ack_all && replies.ack_count == 0;
            let upvotes = Seq::new(
                replies.active_sidechains.len(),
                |i: int|
                    if (replies.pending)(i) {
                        0u8
                    } else {
                        0xffu8
                    },
            );
            &&& gathered(actions, into_coinbase()) == seq![
                DraftActionView::ProposeSidechains(replies.our_proposals),
            ] + picked(votes, replies.valid, 0, as_added()) + seq![
                DraftActionView::AcceptBmm((replies.bmm_requests)(task.tip)),
                DraftActionView::ProposeBundles(unproposed(replies.bundle_proposals)),
            ] + (if voting {
                seq![DraftActionView::AckBundles(upvotes)]
            } else {
                Seq::empty()
            })
            &&& gathered(actions, into_store()) == seq![DraftActionView::StoreAcks(missing)]
                + picked(votes, |i: int| !(replies.valid)(i), 0, as_deleted())
            &&& gathered(actions, validated()) == Seq::new(
                votes.len(),
                |i: int| (votes[i], replies.active_proposals),
            )
            &&& gathered(actions, checked()) == (if voting {
                replies.active_sidechains
            } else {
                Seq::empty()
            })
            &&& actions.len() > 0 && actions.last() is Build
        }),
{
    let votes = all_acks(task, replies);
    let missing = newly_stored(task, replies);
    let active = replies.active_proposals;
    let plan = draft_plan(task, replies);
    lemma_missing_len(replies.acks, votes_for(active));
    lemma_ack_actions(votes, active, replies.valid, 0);
    lemma_bundle_actions(task, replies);
    let acking = ack_actions(votes, active, replies.valid, 0);
    let voting = bundle_actions(task, replies);
    assert(plan.len() == 10 + acking.len() + voting.len());
    law_draft_follows_its_plan(task, replies, n);
    let head_0 = seq![DraftActionView::ListOurProposals];
    let propose = DraftActionView::ProposeSidechains(replies.our_proposals);
    let head_1 = seq![DraftActionView::ListAcks, DraftActionView::ListActiveProposals];
    let stored = DraftActionView::StoreAcks(missing);
    let bmm = seq![DraftActionView::ListBmmRequests { tip: task.tip }];
    let accept = DraftActionView::AcceptBmm((replies.bmm_requests)(task.tip));
    let list = seq![DraftActionView::ListBundleProposals];
    let bundles = DraftActionView::ProposeBundles(unproposed(replies.bundle_proposals));
    let build = seq![DraftActionView::Build];
    assert(plan =~= head_0 + (seq![propose] + (head_1 + (seq![stored] + (acking + (bmm + (
    seq![accept] + (list + (seq![bundles] + (voting + build))))))))));
    lemma_sections(
        head_0,
        propose,
        head_1,
        stored,
        acking,
        bmm,
        accept,
        list,
        bundles,
        voting,
        build,
        into_coinbase(),
    );
    lemma_sections(
        head_0,
        propose,
        head_1,
        stored,
        acking,
        bmm,
        accept,
        list,
        bundles,
        voting,
        build,
        into_store(),
    );
    lemma_sections(
        head_0,
        propose,
        head_1,
        stored,
        acking,
        bmm,
        accept,
        list,
        bundles,
        voting,
        build,
        validated(),
    );
    lemma_sections(
        head_0,
        propose,
        head_1,
        stored,
        acking,
        bmm,
        accept,
        list,
        bundles,
        voting,
        build,
        checked(),
    );
    let added = picked(votes, replies.valid, 0, as_added());
    assert(gathered(plan, into_coinbase()) =~= seq![propose] + added + seq![accept, bundles]
        + gathered(voting, into_coinbase()));
    assert(gathered(plan, into_store()) =~= seq![stored] + gathered(acking, into_store()));
    assert(gathered(plan, validated()) =~= gathered(acking, validated()));
    assert(Seq::new((votes.len() - 0) as nat, |i: int| (votes[0 + i], active)) =~= Seq::new(
        votes.len(),
        |i: int| (votes[i], active),
    ));
    assert(gathered(plan, checked()) =~= gathered(voting, checked()));
}

proof fn lemma_sections<T>(
    head_0: Seq<DraftActionView>,
    propose: DraftActionView,
    head_1: Seq<DraftActionView>,
    stored: DraftActionView,
    acking: Seq<DraftActionView>,
    bmm: Seq<DraftActionView>,
    accept: DraftActionView,
    list: Seq<DraftActionView>,
    bundles: DraftActionView,
    voting: Seq<DraftActionView>,
    build: Seq<DraftActionView>,
    part: spec_fn(DraftActionView) -> Seq<T>,
)
    requires
        forall|i: int| 0 <= i < head_0.len() ==> part(#[trigger] head_0[i]).len() == 0,
        forall|i: int| 0 <= i < head_1.len() ==> part(#[trigger] head_1[i]).len() == 0,
        forall|i: int| 0 <= i < bmm.len() ==> part(#[trigger] bmm[i]).len() == 0,
        forall|i: int| 0 <= i < list.len() ==> part(#[trigger] list[i]).len() == 0,
        forall|i: int| 0 <= i < build.len() ==> part(#[trigger] build[i]).len() == 0,
    ensures
        gathered(
            head_0 + (seq![propose] + (head_1 + (seq![stored] + (acking + (bmm + (seq![accept] + (
            list + (seq![bundles] + (voting + build))))))))),
            part,
        ) == part(propose) + (part(stored) + (gathered(acking, part) + (part(accept) + (part(
            bundles,
        ) + gathered(voting, part))))),
{
    let t0 = voting + build;
    let t1 = seq![bundles] + t0;
    let t2 = list + t1;
    let t3 = seq![accept] + t2;
    let t4 = bmm + t3;
    let t5 = acking + t4;
    let t6 = seq![stored] + t5;
    let t7 = head_1 + t6;
    let t8 = seq![propose] + t7;
    lemma_gathered_none(head_0, part);
    lemma_gathered_none(head_1, part);
    lemma_gathered_none(bmm, part);
    lemma_gathered_none(list, part);
    lemma_gathered_none(build, part);
    lemma_gathered_one(propose, part);
    lemma_gathered_one(stored, part);
    lemma_gathered_one(accept, part);
    lemma_gathered_one(bundles, part);
    lemma_gathered_join(voting, build, part);
    assert(gathered(t0, part) =~= gathered(voting, part));
    lemma_gathered_join(seq![bundles], t0, part);
    lemma_gathered_join(list, t1, part);
    assert(gathered(t2, part) =~= gathered(t1, part));
    lemma_gathered_join(seq![accept], t2, part);
    lemma_gathered_join(bmm, t3, part);
    assert(gathered(t4, part) =~= gathered(t3, part));
    lemma_gathered_join(acking, t4, part);
    lemma_gathered_join(seq![stored], t5, part);
    lemma_gathered_join(head_1, t6, part);
    assert(gathered(t7, part) =~= gathered(t6, part));
    lemma_gathered_join(seq![propose], t7, part);
    lemma_gathered_join(head_0, t8, part);
    assert(gathered(head_0 + t8, part) =~= gathered(t8, part));
}

/// A number has a vote in a list if one of the votes in it is for that number; also in two
/// lists together.
pub proof fn law_a_number_has_a_vote_if_one_is_for_it(
    first: Seq<SidechainAckView>,
    rest: Seq<SidechainAckView>,
    ack: SidechainAckView,
    number: u8,
)
    ensures
        acks_number(first + rest, number) <==> acks_number(first, number) || acks_number(
            rest,
            number,
        ),
        acks_number(seq![ack], number) <==> ack.sidechain_number == number,
        !acks_number(Seq::empty(), number),
{
    lemma_acks_number_add(first, rest, number);
    assert(seq![ack][0].sidechain_number == ack.sidechain_number);
}

/// Of two lists of votes those that are missing are those of the first, and those of the
/// second where these are there too. A single vote is missing if and only if its number has
/// none; it is as it was given.
pub proof fn law_unvoted_of_lists_join(
    acks: Seq<SidechainAckView>,
    first: Seq<SidechainAckView>,
    rest: Seq<SidechainAckView>,
    vote: SidechainAckView,
)
    ensures
        unvoted(acks, first + rest) == unvoted(acks, first) + unvoted(
            acks + unvoted(acks, first),
            rest,
        ),
        unvoted(acks, Seq::empty()).len() == 0,
        unvoted(acks, seq![vote]) == (if exists|k: int|
            0 <= k < acks.len() && #[trigger] acks[k].sidechain_number == vote.sidechain_number {
            Seq::empty()
        } else {
            seq![vote]
        }),
    decreases rest.len(),
{
    let before = unvoted(acks, first);
    assert(seq![vote].drop_last() =~= Seq::empty());
    assert(unvoted(acks, Seq::empty()) =~= Seq::empty());
    assert(acks + Seq::<SidechainAckView>::empty() =~= acks);
    assert(Seq::<SidechainAckView>::empty().push(vote) =~= seq![vote]);
    if rest.len() == 0 {
        assert(first + rest =~= first);
        assert(before + Seq::<SidechainAckView>::empty() =~= before);
    } else {
        law_unvoted_of_lists_join(acks, first, rest.drop_last(), vote);
        assert((first + rest).drop_last() =~= first + rest.drop_last());
        let later = unvoted(acks + before, rest.drop_last());
        assert(acks + (before + later) =~= (acks + before) + later);
        assert(unvoted(acks, first + rest) =~= before + unvoted(acks + before, rest));
    }
}

/// Whether a draft that waits at `stage` waits for `event`.
pub open spec fn waits_for(stage: StageView, event: DraftEventView) -> bool {
    match stage {
        StageView::OurProposals => event is OurProposals || event is Failed,
        StageView::Acks => event is Acks || event is Failed,
        StageView::ActiveProposals { .. } => event is ActiveProposals || event is Failed,
        StageView::AckValid { .. } => event is AckIsValid || event is Failed,
        StageView::BmmRequests => event is BmmRequests || event is Failed,
        StageView::BundleProposals => event is BundleProposals || event is Failed,
        StageView::AckCount => event is AckCount || event is Failed,
        StageView::ActiveSidechains => event is ActiveSidechains || event is Failed,
        StageView::PendingWithdrawals { .. } => event is WithdrawalsPending || event is Failed,
        StageView::Ended => false,
        _ => event is Done || event is Failed,
    }
}

/// A draft goes on with what it waits for, and with nothing else.
pub proof fn law_a_draft_takes_what_it_waits_for(
    task: DraftTask,
    stage: StageView,
    event: DraftEventView,
)
    ensures
        advance(task, stage, event) is Some <==> waits_for(stage, event),
{
}

} // verus!
