//! What a draft of a coinbase comes to.

use vstd::prelude::*;
use crate::coinbase::{
    acks_number, advance, at_ack, at_bmm, at_sidechain, bundle_vote, lemma_acks_number_add,
    missing_acks, unproposed, votes_for, DraftActionView, DraftEventView, DraftTask, StageView,
};
use crate::messages::sha256d_digest;
use crate::types::{
    BmmRequestView, SidechainAckView, SidechainBundlesView, SidechainDescriptionView,
};

verus! {

/// If votes for what is missing are added, every proposal that is voted on has a
/// vote for its number.
pub proof fn law_every_active_proposal_has_an_ack(
    acks: Seq<SidechainAckView>,
    active: Seq<SidechainDescriptionView>,
)
    ensures
        forall|i: int|
            0 <= i < active.len() ==> acks_number(
                acks + missing_acks(acks, active),
                (#[trigger] active[i]).sidechain_number,
            ),
    decreases active.len(),
{
    if active.len() > 0 {
        assert(votes_for(active).drop_last() =~= votes_for(active.drop_last()));
        let before = missing_acks(acks, active.drop_last());
        let missing = missing_acks(acks, active);
        law_every_active_proposal_has_an_ack(acks, active.drop_last());
        assert forall|i: int| 0 <= i < active.len() implies acks_number(
            acks + missing,
            (#[trigger] active[i]).sidechain_number,
        ) by {
            let number = active[i].sidechain_number;
            if i < active.len() - 1 {
                assert(active.drop_last()[i] == active[i]);
                assert(acks_number(acks + before, number));
                let k = choose|k: int|
                    0 <= k < (acks + before).len() && #[trigger] (acks + before)[k].sidechain_number
                        == number;
                assert((acks + missing)[k].sidechain_number == number);
            } else if !acks_number(acks + before, number) {
                let k = (acks + before).len() as int;
                assert((acks + missing)[k].sidechain_number == number);
            }
        }
    }
}

/// Each vote that is added is for a proposal that is voted on and has the hash of
/// its description; there was no vote for its number, and no other is added.
pub proof fn law_missing_acks_are_for_active_proposals(
    acks: Seq<SidechainAckView>,
    active: Seq<SidechainDescriptionView>,
)
    ensures
        forall|k: int|
            0 <= k < missing_acks(acks, active).len() ==> {
                let ack = #[trigger] missing_acks(acks, active)[k];
                &&& !acks_number(acks, ack.sidechain_number)
                &&& exists|i: int|
                    0 <= i < active.len() && (#[trigger] active[i]).sidechain_number
                        == ack.sidechain_number && ack.description_hash == sha256d_digest(
                        active[i].description,
                    )
            },
        forall|j: int, k: int|
            0 <= j < k < missing_acks(acks, active).len() ==> (#[trigger] missing_acks(
                acks,
                active,
            )[j]).sidechain_number != (#[trigger] missing_acks(acks, active)[k]).sidechain_number,
    decreases active.len(),
{
    if active.len() > 0 {
        let shorter = active.drop_last();
        assert(votes_for(active).drop_last() =~= votes_for(shorter));
        let before = missing_acks(acks, shorter);
        let missing = missing_acks(acks, active);
        law_missing_acks_are_for_active_proposals(acks, shorter);
        let number = active.last().sidechain_number;
        lemma_acks_number_add(acks, before, number);
        assert forall|k: int| 0 <= k < missing.len() implies {
            let ack = #[trigger] missing[k];
            &&& !acks_number(acks, ack.sidechain_number)
            &&& exists|i: int|
                0 <= i < active.len() && (#[trigger] active[i]).sidechain_number
                    == ack.sidechain_number && ack.description_hash == sha256d_digest(
                    active[i].description,
                )
        } by {
            if k < before.len() {
                assert(missing[k] == before[k]);
                let i = choose|i: int|
                    0 <= i < shorter.len() && (#[trigger] shorter[i]).sidechain_number
                        == before[k].sidechain_number && before[k].description_hash
                        == sha256d_digest(shorter[i].description);
                assert(active[i] == shorter[i]);
            } else {
                assert(active[active.len() - 1] == active.last());
            }
        }
        assert forall|j: int, k: int| 0 <= j < k < missing.len() implies (
        #[trigger] missing[j]).sidechain_number != (#[trigger] missing[k]).sidechain_number by {
            assert(missing[j] == before[j]);
            if k < before.len() {
                assert(missing[k] == before[k]);
            } else if missing[j].sidechain_number == number {
                assert(before[j].sidechain_number == number);
                assert(acks_number(before, number));
            }
        }
    }
}

/// What a draft is told, whatever it asks.
pub struct Replies {
    pub our_proposals: Seq<SidechainDescriptionView>,
    pub acks: Seq<SidechainAckView>,
    pub active_proposals: Seq<SidechainDescriptionView>,
    /// Whether the vote at a place among all is valid.
    pub valid: spec_fn(int) -> bool,
    /// The requests for commitments in the block after one.
    pub bmm_requests: spec_fn(Seq<u8>) -> Seq<BmmRequestView>,
    pub bundle_proposals: Seq<SidechainBundlesView>,
    pub ack_count: usize,
    pub active_sidechains: Seq<u8>,
    /// Whether withdrawals are pending from the sidechain at a place.
    pub pending: spec_fn(int) -> bool,
}

/// The block whose requests are asked for.
pub open spec fn asked_tip(action: DraftActionView) -> Seq<u8> {
    match action {
        DraftActionView::ListBmmRequests { tip } => tip,
        _ => Seq::empty(),
    }
}

/// What a draft that waits at a stage after asking for an action is told.
pub open spec fn reply(replies: Replies, at: (StageView, DraftActionView)) -> DraftEventView {
    match at.0 {
        StageView::OurProposals => DraftEventView::OurProposals(replies.our_proposals),
        StageView::Acks => DraftEventView::Acks(replies.acks),
        StageView::ActiveProposals { .. } => DraftEventView::ActiveProposals(
            replies.active_proposals,
        ),
        StageView::AckValid { next, .. } => DraftEventView::AckIsValid((replies.valid)(next)),
        StageView::BmmRequests => DraftEventView::BmmRequests(
            (replies.bmm_requests)(asked_tip(at.1)),
        ),
        StageView::BundleProposals => DraftEventView::BundleProposals(replies.bundle_proposals),
        StageView::AckCount => DraftEventView::AckCount(replies.ack_count),
        StageView::ActiveSidechains => DraftEventView::ActiveSidechains(
            replies.active_sidechains,
        ),
        StageView::PendingWithdrawals { upvotes, .. } => DraftEventView::WithdrawalsPending(
            (replies.pending)(upvotes.len() as int),
        ),
        _ => DraftEventView::Done,
    }
}

/// The first `n` actions of a draft from where it waits at a stage after asking
/// for an action, that one first.
pub open spec fn run(
    task: DraftTask,
    at: (StageView, DraftActionView),
    replies: Replies,
    n: nat,
) -> Seq<DraftActionView>
    decreases n,
{
    if n == 0 {
        Seq::empty()
    } else if at.0 is Ended {
        seq![at.1]
    } else {
        match advance(task, at.0, reply(replies, at)) {
            Some(next) => seq![at.1] + run(task, next, replies, (n - 1) as nat),
            None => seq![at.1],
        }
    }
}

/// The actions on the votes from place `next` on: each is validated, then added to
/// the coinbase or deleted.
pub open spec fn ack_actions(
    acks: Seq<SidechainAckView>,
    active: Seq<SidechainDescriptionView>,
    valid: spec_fn(int) -> bool,
    next: int,
) -> Seq<DraftActionView>
    decreases acks.len() - next,
{
    if next >= acks.len() {
        Seq::empty()
    } else {
        seq![
            DraftActionView::ValidateAck { ack: acks[next], active },
            if valid(next) {
                DraftActionView::AckSidechain(acks[next])
            } else {
                DraftActionView::DeleteAck(acks[next])
            },
        ] + ack_actions(acks, active, valid, next + 1)
    }
}

/// The actions on the sidechains from place `next` on: each is checked, then the
/// votes on all are added to the coinbase.
pub open spec fn vote_actions(sidechains: Seq<u8>, pending: spec_fn(int) -> bool, next: int) -> Seq<
    DraftActionView,
>
    decreases sidechains.len() - next,
{
    if next >= sidechains.len() {
        seq![
            DraftActionView::AckBundles(
                Seq::new(sidechains.len(), |i: int| bundle_vote(pending(i))),
            ),
        ]
    } else {
        seq![DraftActionView::CheckPendingWithdrawals(sidechains[next])] + vote_actions(
            sidechains,
            pending,
            next + 1,
        )
    }
}

/// The votes that a draft handles: those that were stored and, if it votes for
/// all, those that were missing.
pub open spec fn all_acks(task: DraftTask, replies: Replies) -> Seq<SidechainAckView> {
    replies.acks + newly_stored(task, replies)
}

/// The votes that a draft has stored.
pub open spec fn newly_stored(task: DraftTask, replies: Replies) -> Seq<SidechainAckView> {
    if task.ack_all {
        missing_acks(replies.acks, replies.active_proposals)
    } else {
        Seq::empty()
    }
}

/// Where a draft begins.
pub open spec fn draft_start() -> (StageView, DraftActionView) {
    (StageView::OurProposals, DraftActionView::ListOurProposals)
}

/// What a draft asks for before the votes for sidechains are handled.
pub open spec fn head_actions(task: DraftTask, replies: Replies) -> Seq<DraftActionView> {
    seq![
        DraftActionView::ListOurProposals,
        DraftActionView::ProposeSidechains(replies.our_proposals),
        DraftActionView::ListAcks,
        DraftActionView::ListActiveProposals,
        DraftActionView::StoreAcks(newly_stored(task, replies)),
    ]
}

/// All that a draft asks for, in order.
pub open spec fn draft_plan(task: DraftTask, replies: Replies) -> Seq<DraftActionView> {
    head_actions(task, replies) + ack_actions(
        all_acks(task, replies),
        replies.active_proposals,
        replies.valid,
        0,
    ) + seq![
        DraftActionView::ListBmmRequests { tip: task.tip },
        DraftActionView::AcceptBmm((replies.bmm_requests)(task.tip)),
        DraftActionView::ListBundleProposals,
        DraftActionView::ProposeBundles(unproposed(replies.bundle_proposals)),
    ] + bundle_actions(task, replies) + seq![DraftActionView::Build]
}

/// The actions that vote on bundles: only if the draft votes for all, and the
/// coinbase has no vote for a sidechain.
pub open spec fn bundle_actions(task: DraftTask, replies: Replies) -> Seq<DraftActionView> {
    if !task.ack_all {
        Seq::empty()
    } else if replies.ack_count != 0 {
        seq![DraftActionView::CountAcks]
    } else {
        seq![DraftActionView::CountAcks, DraftActionView::ListActiveSidechains] + vote_actions(
            replies.active_sidechains,
            replies.pending,
            0,
        )
    }
}

proof fn lemma_run_acks(
    task: DraftTask,
    acks: Seq<SidechainAckView>,
    active: Seq<SidechainDescriptionView>,
    next: int,
    replies: Replies,
    n: nat,
)
    requires
        0 <= next <= acks.len(),
        n >= ack_actions(acks, active, replies.valid, next).len(),
    ensures
        run(task, at_ack(task.tip, acks, active, next), replies, n) == ack_actions(
            acks,
            active,
            replies.valid,
            next,
        ) + run(
            task,
            at_bmm(task.tip),
            replies,
            (n - ack_actions(acks, active, replies.valid, next).len()) as nat,
        ),
    decreases acks.len() - next,
{
    if next < acks.len() {
        lemma_run_acks(task, acks, active, next + 1, replies, (n - 2) as nat);
        let at = at_ack(task.tip, acks, active, next);
        let handled = advance(task, at.0, reply(replies, at))->0;
        assert(run(task, at, replies, n) == seq![at.1] + run(
            task,
            handled,
            replies,
            (n - 1) as nat,
        ));
        assert(run(task, handled, replies, (n - 1) as nat) == seq![handled.1] + run(
            task,
            at_ack(task.tip, acks, active, next + 1),
            replies,
            (n - 2) as nat,
        ));
        assert(run(task, at, replies, n) =~= ack_actions(acks, active, replies.valid, next) + run(
            task,
            at_bmm(task.tip),
            replies,
            (n - ack_actions(acks, active, replies.valid, next).len()) as nat,
        ));
    } else {
        let rest = run(task, at_ack(task.tip, acks, active, next), replies, n);
        assert(Seq::<DraftActionView>::empty() + rest =~= rest);
    }
}

proof fn lemma_run_votes(
    task: DraftTask,
    sidechains: Seq<u8>,
    upvotes: Seq<u8>,
    replies: Replies,
    n: nat,
)
    requires
        upvotes.len() <= sidechains.len(),
        upvotes == Seq::new(upvotes.len(), |i: int| bundle_vote((replies.pending)(i))),
        n > vote_actions(sidechains, replies.pending, upvotes.len() as int).len(),
    ensures
        run(task, at_sidechain(sidechains, upvotes), replies, n) == vote_actions(
            sidechains,
            replies.pending,
            upvotes.len() as int,
        ) + seq![DraftActionView::Build],
    decreases sidechains.len() - upvotes.len(),
{
    let at = at_sidechain(sidechains, upvotes);
    let k = upvotes.len() as int;
    let after = advance(task, at.0, reply(replies, at))->0;
    assert(run(task, at, replies, n) == seq![at.1] + run(
        task,
        after,
        replies,
        (n - 1) as nat,
    ));
    if k < sidechains.len() {
        let more = upvotes.push(bundle_vote((replies.pending)(k)));
        assert(more =~= Seq::new(more.len(), |i: int| bundle_vote((replies.pending)(i))));
        lemma_run_votes(task, sidechains, more, replies, (n - 1) as nat);
        assert(seq![at.1] + (vote_actions(sidechains, replies.pending, k + 1)
            + seq![DraftActionView::Build]) =~= vote_actions(sidechains, replies.pending, k)
            + seq![DraftActionView::Build]);
    } else {
        assert(upvotes =~= Seq::new(sidechains.len(), |i: int| bundle_vote((replies.pending)(i))));
        assert(run(task, after, replies, (n - 1) as nat) == seq![DraftActionView::Build]);
        assert(seq![at.1] + seq![DraftActionView::Build] =~= vote_actions(
            sidechains,
            replies.pending,
            k,
        ) + seq![DraftActionView::Build]);
    }
}

/// What is asked for up to the votes for sidechains.
proof fn lemma_run_head(task: DraftTask, replies: Replies, n: nat)
    requires
        n >= 5,
    ensures
        run(task, draft_start(), replies, n) == head_actions(task, replies) + run(
            task,
            at_ack(task.tip, all_acks(task, replies), replies.active_proposals, 0),
            replies,
            (n - 5) as nat,
        ),
{
    let at_0 = draft_start();
    let at_1 = (StageView::Proposed, DraftActionView::ProposeSidechains(replies.our_proposals));
    let at_2 = (StageView::Acks, DraftActionView::ListAcks);
    let at_3 = (
        StageView::ActiveProposals { acks: replies.acks },
        DraftActionView::ListActiveProposals,
    );
    let at_4 = (
        StageView::AcksStored {
            acks: all_acks(task, replies),
            active: replies.active_proposals,
        },
        DraftActionView::StoreAcks(newly_stored(task, replies)),
    );
    let at_5 = at_ack(task.tip, all_acks(task, replies), replies.active_proposals, 0);
    let run_0 = run(task, at_0, replies, n);
    let run_1 = run(task, at_1, replies, (n - 1) as nat);
    let run_2 = run(task, at_2, replies, (n - 2) as nat);
    let run_3 = run(task, at_3, replies, (n - 3) as nat);
    let run_4 = run(task, at_4, replies, (n - 4) as nat);
    let run_5 = run(task, at_5, replies, (n - 5) as nat);
    assert(run_0 == seq![at_0.1] + run_1);
    assert(run_1 == seq![at_1.1] + run_2);
    assert(run_2 == seq![at_2.1] + run_3);
    assert(run_3 == seq![at_3.1] + run_4);
    assert(run_4 == seq![at_4.1] + run_5);
    assert(run_0 =~= seq![at_0.1, at_1.1, at_2.1, at_3.1, at_4.1] + run_5);
}

/// What is asked for from the commitments up to the votes on bundles.
proof fn lemma_run_middle(task: DraftTask, replies: Replies, n: nat)
    requires
        n >= 4,
    ensures
        run(task, at_bmm(task.tip), replies, n) == seq![
            DraftActionView::ListBmmRequests { tip: task.tip },
            DraftActionView::AcceptBmm((replies.bmm_requests)(task.tip)),
            DraftActionView::ListBundleProposals,
            DraftActionView::ProposeBundles(unproposed(replies.bundle_proposals)),
        ] + run(
            task,
            advance(task, StageView::BundlesProposed, DraftEventView::Done)->0,
            replies,
            (n - 4) as nat,
        ),
{
    let at_0 = at_bmm(task.tip);
    let at_1 = (
        StageView::BmmAccepted,
        DraftActionView::AcceptBmm((replies.bmm_requests)(task.tip)),
    );
    let at_2 = (StageView::BundleProposals, DraftActionView::ListBundleProposals);
    let at_3 = (
        StageView::BundlesProposed,
        DraftActionView::ProposeBundles(unproposed(replies.bundle_proposals)),
    );
    let at_4 = advance(task, StageView::BundlesProposed, DraftEventView::Done)->0;
    let run_0 = run(task, at_0, replies, n);
    let run_1 = run(task, at_1, replies, (n - 1) as nat);
    let run_2 = run(task, at_2, replies, (n - 2) as nat);
    let run_3 = run(task, at_3, replies, (n - 3) as nat);
    let run_4 = run(task, at_4, replies, (n - 4) as nat);
    assert(run_0 == seq![at_0.1] + run_1);
    assert(run_1 == seq![at_1.1] + run_2);
    assert(run_2 == seq![at_2.1] + run_3);
    assert(run_3 == seq![at_3.1] + run_4);
    assert(run_0 =~= seq![at_0.1, at_1.1, at_2.1, at_3.1] + run_4);
}

/// What is asked for from the votes on bundles on.
proof fn lemma_run_tail(task: DraftTask, replies: Replies, n: nat)
    requires
        n > bundle_actions(task, replies).len(),
    ensures
        run(
            task,
            advance(task, StageView::BundlesProposed, DraftEventView::Done)->0,
            replies,
            n,
        ) == bundle_actions(task, replies) + seq![DraftActionView::Build],
{
    let build = seq![DraftActionView::Build];
    let at_0 = advance(task, StageView::BundlesProposed, DraftEventView::Done)->0;
    if !task.ack_all {
        assert(Seq::<DraftActionView>::empty() + build =~= build);
    } else {
        let at_1 = advance(task, at_0.0, reply(replies, at_0))->0;
        let run_1 = run(task, at_1, replies, (n - 1) as nat);
        assert(run(task, at_0, replies, n) == seq![at_0.1] + run_1);
        if replies.ack_count == 0 {
            let sidechains = replies.active_sidechains;
            let none = Seq::<u8>::empty();
            assert(none =~= Seq::new(none.len(), |i: int| bundle_vote((replies.pending)(i))));
            let voting = vote_actions(sidechains, replies.pending, 0);
            lemma_run_votes(task, sidechains, none, replies, (n - 2) as nat);
            assert(run_1 == seq![at_1.1] + (voting + build));
            assert(seq![at_0.1] + (seq![at_1.1] + (voting + build)) =~= seq![at_0.1, at_1.1]
                + voting + build);
        }
    }
}

/// Whatever a draft is told, it asks for what its plan says, in that order, and
/// ends.
pub proof fn law_draft_follows_its_plan(task: DraftTask, replies: Replies, n: nat)
    requires
        n >= draft_plan(task, replies).len(),
    ensures
        run(task, draft_start(), replies, n) == draft_plan(task, replies),
{
    let acks = all_acks(task, replies);
    let active = replies.active_proposals;
    let acking = ack_actions(acks, active, replies.valid, 0);
    let plan = draft_plan(task, replies);
    assert(plan.len() == 10 + acking.len() + bundle_actions(task, replies).len());
    lemma_run_head(task, replies, n);
    lemma_run_acks(task, acks, active, 0, replies, (n - 5) as nat);
    lemma_run_middle(task, replies, (n - 5 - acking.len()) as nat);
    lemma_run_tail(task, replies, (n - 9 - acking.len()) as nat);
    assert(run(task, draft_start(), replies, n) =~= plan);
}

/// The commitments that are added to the coinbase by `actions`, in order.
pub open spec fn accepted(actions: Seq<DraftActionView>) -> Seq<BmmRequestView>
    decreases actions.len(),
{
    if actions.len() == 0 {
        Seq::empty()
    } else {
        accepted(actions.drop_last()) + (match actions.last() {
            DraftActionView::AcceptBmm(requests) => requests,
            _ => Seq::empty(),
        })
    }
}

proof fn lemma_accepted_none(actions: Seq<DraftActionView>)
    requires
        forall|i: int| 0 <= i < actions.len() ==> !(#[trigger] actions[i] is AcceptBmm),
    ensures
        accepted(actions) == Seq::<BmmRequestView>::empty(),
    decreases actions.len(),
{
    if actions.len() > 0 {
        lemma_accepted_none(actions.drop_last());
        assert(!(actions[actions.len() - 1] is AcceptBmm));
    }
}

proof fn lemma_accepted_once(
    before: Seq<DraftActionView>,
    requests: Seq<BmmRequestView>,
    after: Seq<DraftActionView>,
)
    requires
        forall|i: int| 0 <= i < before.len() ==> !(#[trigger] before[i] is AcceptBmm),
        forall|i: int| 0 <= i < after.len() ==> !(#[trigger] after[i] is AcceptBmm),
    ensures
        accepted(before + seq![DraftActionView::AcceptBmm(requests)] + after) == requests,
    decreases after.len(),
{
    let all = before + seq![DraftActionView::AcceptBmm(requests)] + after;
    if after.len() == 0 {
        lemma_accepted_none(before);
        assert(all.drop_last() =~= before);
        assert(accepted(all) =~= requests);
    } else {
        lemma_accepted_once(before, requests, after.drop_last());
        assert(all.drop_last() =~= before + seq![DraftActionView::AcceptBmm(requests)]
            + after.drop_last());
        assert(all.last() == after[after.len() - 1]);
        assert(accepted(all) =~= requests);
    }
}

/// What the actions on the votes are, and are not.
proof fn lemma_ack_actions(
    acks: Seq<SidechainAckView>,
    active: Seq<SidechainDescriptionView>,
    valid: spec_fn(int) -> bool,
    next: int,
)
    requires
        0 <= next <= acks.len(),
    ensures
        forall|i: int|
            0 <= i < ack_actions(acks, active, valid, next).len() ==> {
                let action = #[trigger] ack_actions(acks, active, valid, next)[i];
                action is ValidateAck || action is AckSidechain || action is DeleteAck
            },
        acks_sidechain(ack_actions(acks, active, valid, next)) <==> exists|k: int|
            next <= k < acks.len() && #[trigger] valid(k),
    decreases acks.len() - next,
{
    let actions = ack_actions(acks, active, valid, next);
    if next < acks.len() {
        let later = ack_actions(acks, active, valid, next + 1);
        lemma_ack_actions(acks, active, valid, next + 1);
        assert forall|i: int| 0 <= i < actions.len() implies {
            let action = #[trigger] actions[i];
            action is ValidateAck || action is AckSidechain || action is DeleteAck
        } by {
            if i >= 2 {
                assert(actions[i] == later[i - 2]);
            }
        }
        if valid(next) {
            assert(actions[1] is AckSidechain);
        } else {
            if acks_sidechain(later) {
                let i = choose|i: int| 0 <= i < later.len() && #[trigger] later[i] is AckSidechain;
                assert(actions[i + 2] is AckSidechain);
            }
            if acks_sidechain(actions) {
                let i = choose|i: int|
                    0 <= i < actions.len() && #[trigger] actions[i] is AckSidechain;
                assert(later[i - 2] is AckSidechain);
            }
        }
    }
}

/// What the actions on the sidechains are, and are not.
proof fn lemma_vote_actions(sidechains: Seq<u8>, pending: spec_fn(int) -> bool, next: int)
    requires
        0 <= next <= sidechains.len(),
    ensures
        forall|i: int|
            0 <= i < vote_actions(sidechains, pending, next).len() ==> {
                let action = #[trigger] vote_actions(sidechains, pending, next)[i];
                action is CheckPendingWithdrawals || action is AckBundles
            },
        vote_actions(sidechains, pending, next).len() > 0,
        vote_actions(sidechains, pending, next).last() is AckBundles,
    decreases sidechains.len() - next,
{
    if next < sidechains.len() {
        let actions = vote_actions(sidechains, pending, next);
        let later = vote_actions(sidechains, pending, next + 1);
        lemma_vote_actions(sidechains, pending, next + 1);
        assert forall|i: int| 0 <= i < actions.len() implies {
            let action = #[trigger] actions[i];
            action is CheckPendingWithdrawals || action is AckBundles
        } by {
            if i >= 1 {
                assert(actions[i] == later[i - 1]);
            }
        }
    }
}

/// What the actions that vote on bundles are, and are not.
proof fn lemma_bundle_actions(task: DraftTask, replies: Replies)
    ensures
        forall|i: int|
            0 <= i < bundle_actions(task, replies).len() ==> {
                let action = #[trigger] bundle_actions(task, replies)[i];
                action is CountAcks || action is ListActiveSidechains
                    || action is CheckPendingWithdrawals || action is AckBundles
            },
        acks_bundles(bundle_actions(task, replies)) <==> task.ack_all && replies.ack_count == 0,
{
    if task.ack_all && replies.ack_count == 0 {
        let actions = bundle_actions(task, replies);
        let voting = vote_actions(replies.active_sidechains, replies.pending, 0);
        lemma_vote_actions(replies.active_sidechains, replies.pending, 0);
        assert forall|i: int| 0 <= i < actions.len() implies {
            let action = #[trigger] actions[i];
            action is CountAcks || action is ListActiveSidechains
                || action is CheckPendingWithdrawals || action is AckBundles
        } by {
            if i >= 2 {
                assert(actions[i] == voting[i - 2]);
            }
        }
        assert(actions[actions.len() - 1] == voting.last());
        assert(actions[actions.len() - 1] is AckBundles);
    }
}

/// The commitments that a draft adds to the coinbase are those that were requested
/// for the block that the draft is for, each once and in order, and no others.
/// Whether it votes for all does not matter.
pub proof fn law_commitments_are_those_requested_for_the_block(
    task: DraftTask,
    replies: Replies,
    n: nat,
)
    requires
        n >= draft_plan(task, replies).len(),
    ensures
        accepted(run(task, draft_start(), replies, n)) == (replies.bmm_requests)(task.tip),
{
    law_draft_follows_its_plan(task, replies, n);
    let requests = (replies.bmm_requests)(task.tip);
    let head = head_actions(task, replies);
    let acking = ack_actions(
        all_acks(task, replies),
        replies.active_proposals,
        replies.valid,
        0,
    );
    let voting = bundle_actions(task, replies);
    lemma_ack_actions(all_acks(task, replies), replies.active_proposals, replies.valid, 0);
    lemma_bundle_actions(task, replies);
    let before = head + acking + seq![DraftActionView::ListBmmRequests { tip: task.tip }];
    let after = seq![
        DraftActionView::ListBundleProposals,
        DraftActionView::ProposeBundles(unproposed(replies.bundle_proposals)),
    ] + voting + seq![DraftActionView::Build];
    assert forall|i: int| 0 <= i < before.len() implies !(#[trigger] before[i] is AcceptBmm) by {
        if 5 <= i < 5 + acking.len() {
            assert(before[i] == acking[i - 5]);
        }
    }
    assert forall|i: int| 0 <= i < after.len() implies !(#[trigger] after[i] is AcceptBmm) by {
        if 2 <= i < 2 + voting.len() {
            assert(after[i] == voting[i - 2]);
        }
    }
    lemma_accepted_once(before, requests, after);
    assert(before + seq![DraftActionView::AcceptBmm(requests)] + after =~= draft_plan(
        task,
        replies,
    ));
}

/// Whether `actions` add a vote for a sidechain to the coinbase.
pub open spec fn acks_sidechain(actions: Seq<DraftActionView>) -> bool {
    exists|i: int| 0 <= i < actions.len() && #[trigger] actions[i] is AckSidechain
}

/// Whether `actions` add votes on bundles to the coinbase.
pub open spec fn acks_bundles(actions: Seq<DraftActionView>) -> bool {
    exists|i: int| 0 <= i < actions.len() && #[trigger] actions[i] is AckBundles
}

/// A draft adds votes on bundles if it votes for all that can be voted for and adds
/// no vote for a sidechain, and else none, as long as it is told that the coinbase
/// has no votes for sidechains just where none of its votes was valid.
pub proof fn law_bundles_are_voted_on_where_no_sidechain_is(
    task: DraftTask,
    replies: Replies,
    n: nat,
)
    requires
        n >= draft_plan(task, replies).len(),
        replies.ack_count == 0 <==> forall|k: int|
            0 <= k < all_acks(task, replies).len() ==> !#[trigger] (replies.valid)(k),
    ensures
        ({
            let actions = run(task, draft_start(), replies, n);
            acks_bundles(actions) <==> task.ack_all && !acks_sidechain(actions)
        }),
{
    law_draft_follows_its_plan(task, replies, n);
    let acks = all_acks(task, replies);
    let plan = draft_plan(task, replies);
    let acking = ack_actions(acks, replies.active_proposals, replies.valid, 0);
    let voting = bundle_actions(task, replies);
    let place = 5 + acking.len() + 4;
    lemma_ack_actions(acks, replies.active_proposals, replies.valid, 0);
    lemma_bundle_actions(task, replies);
    assert forall|i: int| 0 <= i < acking.len() implies #[trigger] plan[i + 5] == acking[i] by {
    }
    assert forall|i: int| 0 <= i < voting.len() implies #[trigger] plan[i + place] == voting[i] by {
    }
    if acks_sidechain(acking) {
        let i = choose|i: int| 0 <= i < acking.len() && #[trigger] acking[i] is AckSidechain;
        assert(plan[i + 5] is AckSidechain);
    }
    if acks_bundles(voting) {
        let i = choose|i: int| 0 <= i < voting.len() && #[trigger] voting[i] is AckBundles;
        assert(plan[i + place] is AckBundles);
    }
    assert forall|i: int| 0 <= i < plan.len() && #[trigger] plan[i] is AckSidechain implies 5 <= i
        < 5 + acking.len() by {
        if place <= i < place + voting.len() {
            assert(plan[i] == voting[i - place]);
        }
    }
    assert forall|i: int| 0 <= i < plan.len() && #[trigger] plan[i] is AckBundles implies place <= i
        < place + voting.len() by {
        if 5 <= i < 5 + acking.len() {
            assert(plan[i] == acking[i - 5]);
        }
    }
    if acks_sidechain(plan) {
        let i = choose|i: int| 0 <= i < plan.len() && #[trigger] plan[i] is AckSidechain;
        assert(acking[i - 5] is AckSidechain);
    }
    if acks_bundles(plan) {
        let i = choose|i: int| 0 <= i < plan.len() && #[trigger] plan[i] is AckBundles;
        assert(voting[i - place] is AckBundles);
    }
}

/// A failure ends a draft, whatever it waits for, and nothing is asked for after the
/// end.
pub proof fn law_a_failure_ends_the_draft(
    task: DraftTask,
    stage: StageView,
    event: DraftEventView,
)
    requires
        !(stage is Ended),
    ensures
        advance(task, stage, DraftEventView::Failed) == Some(
            (StageView::Ended, DraftActionView::Fail),
        ),
        advance(task, StageView::Ended, event) is None,
{
}

} // verus!
