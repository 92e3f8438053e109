//! The messages that the wallet puts into the coinbase of a block.
//!
//! A `CoinbaseDraft` decides which they are. It is driven from outside: it names
//! an action, and is told what came of it. An action on a list takes it up to the
//! first entry that fails, and has then failed; that ends the draft.

use vstd::prelude::*;
use crate::messages::{sha256d, sha256d_digest, ABSTAIN_ONE_BYTE};
use crate::types::{
    lemma_views_add, lemma_views_push, views, BmmRequest, BmmRequestView, BundleId, BundleIdView,
    BundleProposalView, Hash256, SidechainAck, SidechainAckView, SidechainBundles,
    SidechainBundlesView, SidechainDescription, SidechainDescriptionView, TxOut,
};

verus! {

/// What a draft asks for.
pub enum DraftAction {
    /// To list the wallet's own pending sidechain proposals.
    ListOurProposals,
    /// To add these to the coinbase, in order.
    ProposeSidechains(Vec<SidechainDescription>),
    /// To list the votes for sidechains that the wallet has stored.
    ListAcks,
    /// To list the sidechain proposals that are voted on.
    ListActiveProposals,
    /// To store these votes, in order.
    StoreAcks(Vec<SidechainAck>),
    /// To say whether this vote is for one of the `active` proposals.
    ValidateAck { ack: SidechainAck, active: Vec<SidechainDescription> },
    /// To delete this vote from those that are stored.
    DeleteAck(SidechainAck),
    /// To add this vote to the coinbase.
    AckSidechain(SidechainAck),
    /// To list the requests to commit to blocks of sidechains in the block after
    /// this one.
    ListBmmRequests { tip: Hash256 },
    /// To add the commitments to the coinbase, in order.
    AcceptBmm(Vec<BmmRequest>),
    /// To list the withdrawal bundles that the wallet proposes.
    ListBundleProposals,
    /// To add these to the coinbase, in order.
    ProposeBundles(Vec<BundleId>),
    /// To count the votes for sidechains in the coinbase.
    CountAcks,
    /// To list the active sidechains.
    ListActiveSidechains,
    /// To say whether withdrawals from this sidechain are pending.
    CheckPendingWithdrawals(u8),
    /// To add these votes on bundles to the coinbase, one byte for each.
    AckBundles(Vec<u8>),
    /// To make the outputs of the coinbase. The draft ends with it.
    Build,
    /// To hand out why the last action failed. The draft ends with it.
    Fail,
}

/// What came of an action.
pub enum DraftEvent {
    OurProposals(Vec<SidechainDescription>),
    /// What the action asked for is done.
    Done,
    Acks(Vec<SidechainAck>),
    ActiveProposals(Vec<SidechainDescription>),
    AckIsValid(bool),
    BmmRequests(Vec<BmmRequest>),
    BundleProposals(Vec<SidechainBundles>),
    AckCount(usize),
    ActiveSidechains(Vec<u8>),
    WithdrawalsPending(bool),
    /// The action failed.
    Failed,
}

pub enum DraftActionView {
    ListOurProposals,
    ProposeSidechains(Seq<SidechainDescriptionView>),
    ListAcks,
    ListActiveProposals,
    StoreAcks(Seq<SidechainAckView>),
    ValidateAck { ack: SidechainAckView, active: Seq<SidechainDescriptionView> },
    DeleteAck(SidechainAckView),
    AckSidechain(SidechainAckView),
    ListBmmRequests { tip: Seq<u8> },
    AcceptBmm(Seq<BmmRequestView>),
    ListBundleProposals,
    ProposeBundles(Seq<BundleIdView>),
    CountAcks,
    ListActiveSidechains,
    CheckPendingWithdrawals(u8),
    AckBundles(Seq<u8>),
    Build,
    Fail,
}

pub enum DraftEventView {
    OurProposals(Seq<SidechainDescriptionView>),
    Done,
    Acks(Seq<SidechainAckView>),
    ActiveProposals(Seq<SidechainDescriptionView>),
    AckIsValid(bool),
    BmmRequests(Seq<BmmRequestView>),
    BundleProposals(Seq<SidechainBundlesView>),
    AckCount(usize),
    ActiveSidechains(Seq<u8>),
    WithdrawalsPending(bool),
    Failed,
}

impl View for DraftAction {
    type V = DraftActionView;

    open spec fn view(&self) -> DraftActionView {
        match self {
            DraftAction::ListOurProposals => DraftActionView::ListOurProposals,
            DraftAction::ProposeSidechains(proposals) => DraftActionView::ProposeSidechains(
                views(proposals@),
            ),
            DraftAction::ListAcks => DraftActionView::ListAcks,
            DraftAction::ListActiveProposals => DraftActionView::ListActiveProposals,
            DraftAction::StoreAcks(acks) => DraftActionView::StoreAcks(views(acks@)),
            DraftAction::ValidateAck { ack, active } => DraftActionView::ValidateAck {
                ack: ack@,
                active: views(active@),
            },
            DraftAction::DeleteAck(ack) => DraftActionView::DeleteAck(ack@),
            DraftAction::AckSidechain(ack) => DraftActionView::AckSidechain(ack@),
            DraftAction::ListBmmRequests { tip } => DraftActionView::ListBmmRequests { tip: tip@ },
            DraftAction::AcceptBmm(requests) => DraftActionView::AcceptBmm(views(requests@)),
            DraftAction::ListBundleProposals => DraftActionView::ListBundleProposals,
            DraftAction::ProposeBundles(bundles) => DraftActionView::ProposeBundles(
                views(bundles@),
            ),
            DraftAction::CountAcks => DraftActionView::CountAcks,
            DraftAction::ListActiveSidechains => DraftActionView::ListActiveSidechains,
            DraftAction::CheckPendingWithdrawals(number) => {
                DraftActionView::CheckPendingWithdrawals(*number)
            },
            DraftAction::AckBundles(upvotes) => DraftActionView::AckBundles(upvotes@),
            DraftAction::Build => DraftActionView::Build,
            DraftAction::Fail => DraftActionView::Fail,
        }
    }
}

impl View for DraftEvent {
    type V = DraftEventView;

    open spec fn view(&self) -> DraftEventView {
        match self {
            DraftEvent::OurProposals(proposals) => DraftEventView::OurProposals(views(proposals@)),
            DraftEvent::Done => DraftEventView::Done,
            DraftEvent::Acks(acks) => DraftEventView::Acks(views(acks@)),
            DraftEvent::ActiveProposals(proposals) => DraftEventView::ActiveProposals(
                views(proposals@),
            ),
            DraftEvent::AckIsValid(valid) => DraftEventView::AckIsValid(*valid),
            DraftEvent::BmmRequests(requests) => DraftEventView::BmmRequests(views(requests@)),
            DraftEvent::BundleProposals(bundles) => DraftEventView::BundleProposals(
                views(bundles@),
            ),
            DraftEvent::AckCount(count) => DraftEventView::AckCount(*count),
            DraftEvent::ActiveSidechains(numbers) => DraftEventView::ActiveSidechains(numbers@),
            DraftEvent::WithdrawalsPending(pending) => DraftEventView::WithdrawalsPending(
                *pending,
            ),
            DraftEvent::Failed => DraftEventView::Failed,
        }
    }
}

/// What a draft waits for.
enum Stage {
    OurProposals,
    Proposed,
    Acks,
    ActiveProposals { acks: Vec<SidechainAck> },
    AcksStored { acks: Vec<SidechainAck>, active: Vec<SidechainDescription> },
    AckValid { acks: Vec<SidechainAck>, active: Vec<SidechainDescription>, next: usize },
    AckHandled { acks: Vec<SidechainAck>, active: Vec<SidechainDescription>, next: usize },
    BmmRequests,
    BmmAccepted,
    BundleProposals,
    BundlesProposed,
    AckCount,
    ActiveSidechains,
    PendingWithdrawals { sidechains: Vec<u8>, upvotes: Vec<u8> },
    BundlesAcked,
    Ended,
}

/// What a draft waits for, and what it knows by then.
pub enum StageView {
    OurProposals,
    Proposed,
    Acks,
    ActiveProposals { acks: Seq<SidechainAckView> },
    /// The missing votes are being stored; `acks` has them too.
    AcksStored { acks: Seq<SidechainAckView>, active: Seq<SidechainDescriptionView> },
    /// Whether the vote at `next` is valid.
    AckValid { acks: Seq<SidechainAckView>, active: Seq<SidechainDescriptionView>, next: int },
    /// The vote at `next` is being deleted or added.
    AckHandled { acks: Seq<SidechainAckView>, active: Seq<SidechainDescriptionView>, next: int },
    BmmRequests,
    BmmAccepted,
    BundleProposals,
    BundlesProposed,
    AckCount,
    ActiveSidechains,
    /// `upvotes` has the votes for the first of `sidechains`.
    PendingWithdrawals { sidechains: Seq<u8>, upvotes: Seq<u8> },
    BundlesAcked,
    Ended,
}

impl View for Stage {
    type V = StageView;

    closed spec fn view(&self) -> StageView {
        match self {
            Stage::OurProposals => StageView::OurProposals,
            Stage::Proposed => StageView::Proposed,
            Stage::Acks => StageView::Acks,
            Stage::ActiveProposals { acks } => StageView::ActiveProposals { acks: views(acks@) },
            Stage::AcksStored { acks, active } => StageView::AcksStored {
                acks: views(acks@),
                active: views(active@),
            },
            Stage::AckValid { acks, active, next } => StageView::AckValid {
                acks: views(acks@),
                active: views(active@),
                next: *next as int,
            },
            Stage::AckHandled { acks, active, next } => StageView::AckHandled {
                acks: views(acks@),
                active: views(active@),
                next: *next as int,
            },
            Stage::BmmRequests => StageView::BmmRequests,
            Stage::BmmAccepted => StageView::BmmAccepted,
            Stage::BundleProposals => StageView::BundleProposals,
            Stage::BundlesProposed => StageView::BundlesProposed,
            Stage::AckCount => StageView::AckCount,
            Stage::ActiveSidechains => StageView::ActiveSidechains,
            Stage::PendingWithdrawals { sidechains, upvotes } => StageView::PendingWithdrawals {
                sidechains: sidechains@,
                upvotes: upvotes@,
            },
            Stage::BundlesAcked => StageView::BundlesAcked,
            Stage::Ended => StageView::Ended,
        }
    }
}

/// Whether one of `acks` is for this number.
pub open spec fn acks_number(acks: Seq<SidechainAckView>, sidechain_number: u8) -> bool {
    exists|i: int| 0 <= i < acks.len() && #[trigger] acks[i].sidechain_number == sidechain_number
}

/// The votes for `active` proposals, each with the hash of its description.
pub open spec fn votes_for(active: Seq<SidechainDescriptionView>) -> Seq<SidechainAckView> {
    Seq::new(
        active.len(),
        |i: int|
            SidechainAckView {
                sidechain_number: active[i].sidechain_number,
                description_hash: sha256d_digest(active[i].description),
            },
    )
}

/// The first of `votes` for each number that has none among `acks`.
pub open spec fn unvoted(
    acks: Seq<SidechainAckView>,
    votes: Seq<SidechainAckView>,
) -> Seq<SidechainAckView>
    decreases votes.len(),
{
    if votes.len() == 0 {
        Seq::empty()
    } else {
        let before = unvoted(acks, votes.drop_last());
        if acks_number(acks + before, votes.last().sidechain_number) {
            before
        } else {
            before.push(votes.last())
        }
    }
}

/// The votes that are missing for all of the `active` proposals to have one.
pub open spec fn missing_acks(
    acks: Seq<SidechainAckView>,
    active: Seq<SidechainDescriptionView>,
) -> Seq<SidechainAckView> {
    unvoted(acks, votes_for(active))
}

/// The bundles of a sidechain that are in no block yet.
pub open spec fn unproposed_of(
    sidechain_number: u8,
    bundles: Seq<BundleProposalView>,
) -> Seq<BundleIdView>
    decreases bundles.len(),
{
    if bundles.len() == 0 {
        Seq::empty()
    } else {
        let before = unproposed_of(sidechain_number, bundles.drop_last());
        if bundles.last().vote_count is None {
            before.push(BundleIdView { sidechain_number, m6id: bundles.last().m6id })
        } else {
            before
        }
    }
}

/// The bundles of all sidechains that are in no block yet.
pub open spec fn unproposed(proposals: Seq<SidechainBundlesView>) -> Seq<BundleIdView>
    decreases proposals.len(),
{
    if proposals.len() == 0 {
        Seq::empty()
    } else {
        let last = proposals.last();
        unproposed(proposals.drop_last()) + unproposed_of(last.sidechain_number, last.bundles)
    }
}

/// The vote on the bundles of a sidechain: for the first, where there are
/// withdrawals, else none.
pub open spec fn bundle_vote(pending: bool) -> u8 {
    if pending {
        0
    } else {
        ABSTAIN_ONE_BYTE
    }
}

/// What a draft is for: whether to vote for all that can be voted for, and the
/// block that the drafted one comes after.
pub struct DraftTask {
    pub ack_all: bool,
    pub tip: Seq<u8>,
}

/// The vote at `next` is validated; after the last, commitments follow.
pub open spec fn at_ack(
    tip: Seq<u8>,
    acks: Seq<SidechainAckView>,
    active: Seq<SidechainDescriptionView>,
    next: int,
) -> (StageView, DraftActionView) {
    if next < acks.len() {
        (
            StageView::AckValid { acks, active, next },
            DraftActionView::ValidateAck { ack: acks[next], active },
        )
    } else {
        at_bmm(tip)
    }
}

/// The requests for commitments are listed.
pub open spec fn at_bmm(tip: Seq<u8>) -> (StageView, DraftActionView) {
    (StageView::BmmRequests, DraftActionView::ListBmmRequests { tip })
}

/// The next sidechain is checked; after the last, the votes are added.
pub open spec fn at_sidechain(sidechains: Seq<u8>, upvotes: Seq<u8>) -> (
    StageView,
    DraftActionView,
) {
    if upvotes.len() < sidechains.len() {
        (
            StageView::PendingWithdrawals { sidechains, upvotes },
            DraftActionView::CheckPendingWithdrawals(sidechains[upvotes.len() as int]),
        )
    } else {
        (StageView::BundlesAcked, DraftActionView::AckBundles(upvotes))
    }
}

/// What a draft that waits at `stage` does at `event`: what it waits for then, and
/// the action that it asks for. A failure ends it. There is nothing for an event
/// that it does not wait for.
pub open spec fn advance(task: DraftTask, stage: StageView, event: DraftEventView) -> Option<
    (StageView, DraftActionView),
> {
    match (stage, event) {
        (StageView::Ended, _) => None,
        (_, DraftEventView::Failed) => Some((StageView::Ended, DraftActionView::Fail)),
        (StageView::OurProposals, DraftEventView::OurProposals(proposals)) => Some(
            (StageView::Proposed, DraftActionView::ProposeSidechains(proposals)),
        ),
        (StageView::Proposed, DraftEventView::Done) => Some(
            (StageView::Acks, DraftActionView::ListAcks),
        ),
        (StageView::Acks, DraftEventView::Acks(acks)) => Some(
            (StageView::ActiveProposals { acks }, DraftActionView::ListActiveProposals),
        ),
        (StageView::ActiveProposals { acks }, DraftEventView::ActiveProposals(active)) => {
            let missing = if task.ack_all {
                missing_acks(acks, active)
            } else {
                Seq::empty()
            };
            Some(
                (
                    StageView::AcksStored { acks: acks + missing, active },
                    DraftActionView::StoreAcks(missing),
                ),
            )
        },
        (StageView::AcksStored { acks, active }, DraftEventView::Done) => Some(
            at_ack(task.tip, acks, active, 0),
        ),
        (StageView::AckValid { acks, active, next }, DraftEventView::AckIsValid(valid)) => Some(
            (
                StageView::AckHandled { acks, active, next },
                if valid {
                    DraftActionView::AckSidechain(acks[next])
                } else {
                    DraftActionView::DeleteAck(acks[next])
                },
            ),
        ),
        (StageView::AckHandled { acks, active, next }, DraftEventView::Done) => Some(
            at_ack(task.tip, acks, active, next + 1),
        ),
        (StageView::BmmRequests, DraftEventView::BmmRequests(requests)) => Some(
            (StageView::BmmAccepted, DraftActionView::AcceptBmm(requests)),
        ),
        (StageView::BmmAccepted, DraftEventView::Done) => Some(
            (StageView::BundleProposals, DraftActionView::ListBundleProposals),
        ),
        (StageView::BundleProposals, DraftEventView::BundleProposals(proposals)) => Some(
            (StageView::BundlesProposed, DraftActionView::ProposeBundles(unproposed(proposals))),
        ),
        (StageView::BundlesProposed, DraftEventView::Done) => Some(
            if task.ack_all {
                (StageView::AckCount, DraftActionView::CountAcks)
            } else {
                (StageView::Ended, DraftActionView::Build)
            },
        ),
        (StageView::AckCount, DraftEventView::AckCount(count)) => Some(
            if count == 0 {
                (StageView::ActiveSidechains, DraftActionView::ListActiveSidechains)
            } else {
                (StageView::Ended, DraftActionView::Build)
            },
        ),
        (StageView::ActiveSidechains, DraftEventView::ActiveSidechains(sidechains)) => Some(
            at_sidechain(sidechains, Seq::empty()),
        ),
        (
            StageView::PendingWithdrawals { sidechains, upvotes },
            DraftEventView::WithdrawalsPending(pending),
        ) => Some(at_sidechain(sidechains, upvotes.push(bundle_vote(pending)))),
        (StageView::BundlesAcked, DraftEventView::Done) => Some(
            (StageView::Ended, DraftActionView::Build),
        ),
        _ => None,
    }
}

/// Where a draft stands: what it is for, and what it waits for.
pub struct DraftView {
    pub task: DraftTask,
    pub stage: StageView,
}

/// Decides which messages the coinbase of a block carries.
pub struct CoinbaseDraft {
    ack_all: bool,
    tip: Hash256,
    stage: Stage,
}

impl View for CoinbaseDraft {
    type V = DraftView;

    closed spec fn view(&self) -> DraftView {
        DraftView {
            task: DraftTask { ack_all: self.ack_all, tip: self.tip@ },
            stage: self.stage@,
        }
    }
}

impl CoinbaseDraft {
    /// Whether the vote that is handled is among the votes.
    pub closed spec fn wf(&self) -> bool {
        stage_wf(self.stage)
    }

    /// Begins a draft for the block after `tip`. `ack_all` says whether to vote for
    /// all that can be voted for. It asks for the wallet's own proposals first.
    pub fn new(ack_all: bool, tip: Hash256) -> (draft: (CoinbaseDraft, DraftAction))
        ensures
            draft.0.wf(),
            draft.0@ == (DraftView {
                task: DraftTask { ack_all, tip: tip@ },
                stage: StageView::OurProposals,
            }),
            draft.1@ == DraftActionView::ListOurProposals,
    {
        (
            CoinbaseDraft { ack_all, tip, stage: Stage::OurProposals },
            DraftAction::ListOurProposals,
        )
    }

    /// Goes on with what came of the last action. There is nothing to go on with
    /// for an event that the draft does not wait for.
    pub fn step(self, event: DraftEvent) -> (next: Option<(CoinbaseDraft, DraftAction)>)
        requires
            self.wf(),
        ensures
            match (advance(self@.task, self@.stage, event@), next) {
                (Some(at), Some(step)) => {
                    &&& step.0.wf()
                    &&& step.0@.task == self@.task
                    &&& (step.0@.stage, step.1@) == at
                },
                (None, None) => true,
                _ => false,
            },
    {
        let ack_all = self.ack_all;
        let tip = self.tip;
        let (stage, action) = match (self.stage, event) {
            (Stage::Ended, _) => return None,
            (_, DraftEvent::Failed) => (Stage::Ended, DraftAction::Fail),
            (Stage::OurProposals, DraftEvent::OurProposals(proposals)) => {
                (Stage::Proposed, DraftAction::ProposeSidechains(proposals))
            },
            (Stage::Proposed, DraftEvent::Done) => (Stage::Acks, DraftAction::ListAcks),
            (Stage::Acks, DraftEvent::Acks(acks)) => {
                (Stage::ActiveProposals { acks }, DraftAction::ListActiveProposals)
            },
            (Stage::ActiveProposals { acks }, DraftEvent::ActiveProposals(active)) => {
                let missing = if ack_all {
                    find_missing_acks(&acks, &active)
                } else {
                    Vec::new()
                };
                let mut acks = acks;
                let mut added = missing.clone();
                let ghost stored = acks@;
                acks.append(&mut added);
                proof {
                    assert(added@ =~= Seq::empty());
                    assert(acks@ =~= stored + missing@);
                    lemma_views_add(stored, missing@);
                    assert(!ack_all ==> views(missing@) =~= Seq::empty());
                }
                (Stage::AcksStored { acks, active }, DraftAction::StoreAcks(missing))
            },
            (Stage::AcksStored { acks, active }, DraftEvent::Done) => {
                ack_stage(tip, acks, active, 0)
            },
            (Stage::AckValid { acks, active, next }, DraftEvent::AckIsValid(valid)) => {
                let ack = acks[next];
                (
                    Stage::AckHandled { acks, active, next },
                    if valid {
                        DraftAction::AckSidechain(ack)
                    } else {
                        DraftAction::DeleteAck(ack)
                    },
                )
            },
            (Stage::AckHandled { acks, active, next }, DraftEvent::Done) => {
                assert(next < acks.len());
                ack_stage(tip, acks, active, next + 1)
            },
            (Stage::BmmRequests, DraftEvent::BmmRequests(requests)) => {
                (Stage::BmmAccepted, DraftAction::AcceptBmm(requests))
            },
            (Stage::BmmAccepted, DraftEvent::Done) => {
                (Stage::BundleProposals, DraftAction::ListBundleProposals)
            },
            (Stage::BundleProposals, DraftEvent::BundleProposals(proposals)) => {
                (Stage::BundlesProposed, DraftAction::ProposeBundles(find_unproposed(&proposals)))
            },
            (Stage::BundlesProposed, DraftEvent::Done) => if ack_all {
                (Stage::AckCount, DraftAction::CountAcks)
            } else {
                (Stage::Ended, DraftAction::Build)
            },
            (Stage::AckCount, DraftEvent::AckCount(count)) => if count == 0 {
                (Stage::ActiveSidechains, DraftAction::ListActiveSidechains)
            } else {
                (Stage::Ended, DraftAction::Build)
            },
            (Stage::ActiveSidechains, DraftEvent::ActiveSidechains(sidechains)) => {
                sidechain_stage(sidechains, Vec::new())
            },
            (
                Stage::PendingWithdrawals { sidechains, upvotes },
                DraftEvent::WithdrawalsPending(pending),
            ) => {
                let mut upvotes = upvotes;
                upvotes.push(
                    if pending {
                        0
                    } else {
                        ABSTAIN_ONE_BYTE
                    },
                );
                sidechain_stage(sidechains, upvotes)
            },
            (Stage::BundlesAcked, DraftEvent::Done) => (Stage::Ended, DraftAction::Build),
            _ => return None,
        };
        Some((CoinbaseDraft { ack_all, tip, stage }, action))
    }
}

/// Whether what a stage works on is among what there is.
spec fn stage_wf(stage: Stage) -> bool {
    match stage {
        Stage::AckValid { acks, active, next } => next < acks@.len(),
        Stage::AckHandled { acks, active, next } => next < acks@.len(),
        Stage::PendingWithdrawals { sidechains, upvotes } => upvotes@.len() < sidechains@.len(),
        _ => true,
    }
}

/// Goes on to the vote at `next`.
fn ack_stage(
    tip: Hash256,
    acks: Vec<SidechainAck>,
    active: Vec<SidechainDescription>,
    next: usize,
) -> (at: (Stage, DraftAction))
    requires
        next <= acks@.len(),
    ensures
        (at.0@, at.1@) == at_ack(tip@, views(acks@), views(active@), next as int),
        stage_wf(at.0),
{
    if next < acks.len() {
        let ack = acks[next];
        let shown = active.clone();
        assert(views(shown@) =~= views(active@));
        (Stage::AckValid { acks, active, next }, DraftAction::ValidateAck { ack, active: shown })
    } else {
        (Stage::BmmRequests, DraftAction::ListBmmRequests { tip })
    }
}

/// Goes on to the sidechain after those that `upvotes` has votes for.
fn sidechain_stage(sidechains: Vec<u8>, upvotes: Vec<u8>) -> (at: (Stage, DraftAction))
    ensures
        (at.0@, at.1@) == at_sidechain(sidechains@, upvotes@),
        stage_wf(at.0),
{
    if upvotes.len() < sidechains.len() {
        let number = sidechains[upvotes.len()];
        (
            Stage::PendingWithdrawals { sidechains, upvotes },
            DraftAction::CheckPendingWithdrawals(number),
        )
    } else {
        (Stage::BundlesAcked, DraftAction::AckBundles(upvotes))
    }
}

/// Whether one of `acks` is for this number.
fn has_ack(acks: &Vec<SidechainAck>, sidechain_number: u8) -> (found: bool)
    ensures
        found == acks_number(views(acks@), sidechain_number),
{
    let mut i: usize = 0;
    while i < acks.len()
        invariant
            i <= acks@.len(),
            forall|j: int|
                0 <= j < i ==> (#[trigger] acks@[j]).sidechain_number != sidechain_number,
        decreases acks@.len() - i,
    {
        if acks[i].sidechain_number == sidechain_number {
            assert(views(acks@)[i as int].sidechain_number == sidechain_number);
            return true;
        }
        i += 1;
    }
    assert forall|j: int| 0 <= j < acks@.len() implies #[trigger] views(acks@)[j].sidechain_number
        != sidechain_number by {
        assert(acks@[j].sidechain_number != sidechain_number);
    }
    false
}

/// The votes that are missing for all of the `active` proposals to have one.
fn find_missing_acks(acks: &Vec<SidechainAck>, active: &Vec<SidechainDescription>) -> (missing: Vec<
    SidechainAck,
>)
    ensures
        views(missing@) == missing_acks(views(acks@), views(active@)),
{
    let mut votes: Vec<SidechainAck> = Vec::new();
    let mut i: usize = 0;
    while i < active.len()
        invariant
            i <= active@.len(),
            votes@.len() == i,
            forall|j: int| 0 <= j < i ==> #[trigger] votes@[j]@ == votes_for(views(active@))[j],
        decreases active@.len() - i,
    {
        votes.push(
            SidechainAck {
                sidechain_number: active[i].sidechain_number,
                description_hash: sha256d(active[i].description.as_slice()),
            },
        );
        i += 1;
    }
    assert(views(votes@) =~= votes_for(views(active@)));
    find_unvoted(acks, &votes)
}

/// The first of `votes` for each number that has none among `acks`.
pub fn find_unvoted(acks: &Vec<SidechainAck>, votes: &Vec<SidechainAck>) -> (missing: Vec<
    SidechainAck,
>)
    ensures
        views(missing@) == unvoted(views(acks@), views(votes@)),
{
    let mut missing: Vec<SidechainAck> = Vec::new();
    let ghost all = views(votes@);
    let mut i: usize = 0;
    assert(views(missing@) =~= unvoted(views(acks@), all.take(0)));
    while i < votes.len()
        invariant
            i <= votes@.len(),
            all == views(votes@),
            views(missing@) == unvoted(views(acks@), all.take(i as int)),
        decreases votes@.len() - i,
    {
        let vote = votes[i];
        proof {
            let next = all.take(i + 1);
            assert(next.drop_last() =~= all.take(i as int));
            assert(next.last() == vote@);
            lemma_acks_number_add(views(acks@), views(missing@), vote.sidechain_number);
        }
        if !has_ack(acks, vote.sidechain_number) && !has_ack(&missing, vote.sidechain_number) {
            proof {
                lemma_views_push(missing@, vote);
            }
            missing.push(vote);
        }
        i += 1;
    }
    assert(all.take(i as int) =~= all);
    missing
}

/// A number has a vote among two lists if it has one among either.
pub proof fn lemma_acks_number_add(a: Seq<SidechainAckView>, b: Seq<SidechainAckView>, number: u8)
    ensures
        acks_number(a + b, number) == (acks_number(a, number) || acks_number(b, number)),
{
    if acks_number(a, number) {
        let i = choose|i: int| 0 <= i < a.len() && #[trigger] a[i].sidechain_number == number;
        assert((a + b)[i].sidechain_number == number);
    }
    if acks_number(b, number) {
        let i = choose|i: int| 0 <= i < b.len() && #[trigger] b[i].sidechain_number == number;
        assert((a + b)[a.len() + i].sidechain_number == number);
    }
    if acks_number(a + b, number) {
        let i = choose|i: int|
            0 <= i < (a + b).len() && #[trigger] (a + b)[i].sidechain_number == number;
        if i < a.len() {
            assert(a[i].sidechain_number == number);
        } else {
            assert(b[i - a.len()].sidechain_number == number);
        }
    }
}

/// The bundles of all sidechains that are in no block yet.
fn find_unproposed(proposals: &Vec<SidechainBundles>) -> (bundles: Vec<BundleId>)
    ensures
        views(bundles@) == unproposed(views(proposals@)),
{
    let mut bundles: Vec<BundleId> = Vec::new();
    let ghost all = views(proposals@);
    let mut i: usize = 0;
    assert(views(bundles@) =~= unproposed(all.take(0)));
    while i < proposals.len()
        invariant
            i <= proposals@.len(),
            all == views(proposals@),
            views(bundles@) == unproposed(all.take(i as int)),
        decreases proposals@.len() - i,
    {
        let number = proposals[i].sidechain_number;
        let of_sidechain = &proposals[i].bundles;
        let ghost before = views(bundles@);
        let ghost listed = views(of_sidechain@);
        let mut j: usize = 0;
        assert(before + unproposed_of(number, listed.take(0)) =~= before);
        while j < of_sidechain.len()
            invariant
                j <= of_sidechain@.len(),
                listed == views(of_sidechain@),
                views(bundles@) == before + unproposed_of(number, listed.take(j as int)),
            decreases of_sidechain@.len() - j,
        {
            proof {
                let next = listed.take(j + 1);
                assert(next.drop_last() =~= listed.take(j as int));
                assert(next.last() == of_sidechain@[j as int]@);
            }
            if of_sidechain[j].vote_count.is_none() {
                let bundle = BundleId { sidechain_number: number, m6id: of_sidechain[j].m6id };
                proof {
                    lemma_views_push(bundles@, bundle);
                    assert(views(bundles@).push(bundle@) =~= before + unproposed_of(
                        number,
                        listed.take(j + 1),
                    ));
                }
                bundles.push(bundle);
            }
            j += 1;
        }
        proof {
            assert(listed.take(j as int) =~= listed);
            let next = all.take(i + 1);
            assert(next.drop_last() =~= all.take(i as int));
            assert(next.last() == proposals@[i as int]@);
        }
        i += 1;
    }
    assert(all.take(i as int) =~= all);
    bundles
}

/// Adds the outputs that were generated for a coinbase to those that a block template
/// has.
pub fn extend_template(coinbase_txouts: &mut Vec<TxOut>, generated: Vec<TxOut>)
    ensures
        views(final(coinbase_txouts)@) == views(old(coinbase_txouts)@) + views(generated@),
{
    let mut generated = generated;
    proof {
        lemma_views_add(coinbase_txouts@, generated@);
    }
    coinbase_txouts.append(&mut generated);
}

} // verus!
