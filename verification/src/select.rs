//! The transactions that the wallet puts into a block, besides the coinbase.
//!
//! A `Selection` decides which they are. It is driven from outside: it names an
//! action, and is told what came of it. An action that fails ends the selection.

use vstd::prelude::*;
use crate::consensus::{compute_txid, txid};
use crate::types::{
    lemma_views_push, views, BundleProposalView, Ctip, CtipView, Hash256, OutPoint, OutPointView,
    SidechainBundles, SidechainBundlesView, Transaction, TransactionView,
    WITHDRAWAL_BUNDLE_INCLUSION_THRESHOLD,
};

verus! {

/// A withdrawal bundle that is to be paid out. `first` says whether it is the
/// first of its sidechain.
#[derive(Clone, Copy, Debug)]
pub struct Payout {
    pub sidechain_number: u8,
    pub m6id: Hash256,
    pub fee: u64,
    pub payout: u64,
    pub first: bool,
}

pub struct PayoutView {
    pub sidechain_number: u8,
    pub m6id: Seq<u8>,
    pub fee: u64,
    pub payout: u64,
    pub first: bool,
}

impl View for Payout {
    type V = PayoutView;

    open spec fn view(&self) -> PayoutView {
        PayoutView {
            sidechain_number: self.sidechain_number,
            m6id: self.m6id@,
            fee: self.fee,
            payout: self.payout,
            first: self.first,
        }
    }
}

/// What a selection asks for.
pub enum SelectAction {
    /// To list the withdrawal bundles that the wallet proposes.
    ListBundleProposals,
    /// To read which output holds the coins of this sidechain.
    ReadCtip(u8),
    /// To make the transaction that pays out the bundle with this id of the
    /// sidechain, from the output that holds its coins.
    MakeM6 { sidechain_number: u8, m6id: Hash256, ctip: Ctip },
    /// To list the ids of the transactions that wait for a block.
    ListMempool,
    /// To fetch the transaction with this id.
    FetchTransaction(Hash256),
    /// To put these into the block, in order. The selection ends with it.
    Finish(Vec<Transaction>),
    /// To hand out why the last action failed. The selection ends with it.
    Fail,
}

/// What came of an action.
pub enum SelectEvent {
    BundleProposals(Vec<SidechainBundles>),
    Ctip(Ctip),
    M6(Transaction),
    Mempool(Vec<Hash256>),
    Transaction(Transaction),
    /// The action failed.
    Failed,
}

pub enum SelectActionView {
    ListBundleProposals,
    ReadCtip(u8),
    MakeM6 { sidechain_number: u8, m6id: Seq<u8>, ctip: CtipView },
    ListMempool,
    FetchTransaction(Seq<u8>),
    Finish(Seq<TransactionView>),
    Fail,
}

pub enum SelectEventView {
    BundleProposals(Seq<SidechainBundlesView>),
    Ctip(CtipView),
    M6(TransactionView),
    Mempool(Seq<Seq<u8>>),
    Transaction(TransactionView),
    Failed,
}

impl View for SelectAction {
    type V = SelectActionView;

    open spec fn view(&self) -> SelectActionView {
        match self {
            SelectAction::ListBundleProposals => SelectActionView::ListBundleProposals,
            SelectAction::ReadCtip(number) => SelectActionView::ReadCtip(*number),
            SelectAction::MakeM6 { sidechain_number, m6id, ctip } => SelectActionView::MakeM6 {
                sidechain_number: *sidechain_number,
                m6id: m6id@,
                ctip: ctip@,
            },
            SelectAction::ListMempool => SelectActionView::ListMempool,
            SelectAction::FetchTransaction(id) => SelectActionView::FetchTransaction(id@),
            SelectAction::Finish(txs) => SelectActionView::Finish(views(txs@)),
            SelectAction::Fail => SelectActionView::Fail,
        }
    }
}

impl View for SelectEvent {
    type V = SelectEventView;

    open spec fn view(&self) -> SelectEventView {
        match self {
            SelectEvent::BundleProposals(proposals) => SelectEventView::BundleProposals(
                views(proposals@),
            ),
            SelectEvent::Ctip(ctip) => SelectEventView::Ctip(ctip@),
            SelectEvent::M6(tx) => SelectEventView::M6(tx@),
            SelectEvent::Mempool(ids) => SelectEventView::Mempool(views(ids@)),
            SelectEvent::Transaction(tx) => SelectEventView::Transaction(tx@),
            SelectEvent::Failed => SelectEventView::Failed,
        }
    }
}

/// What a selection waits for.
enum SelectStage {
    BundleProposals,
    Ctip { payouts: Vec<Payout>, next: usize, chosen: Vec<Transaction> },
    M6 { payouts: Vec<Payout>, next: usize, ctip: Ctip, chosen: Vec<Transaction> },
    Mempool { chosen: Vec<Transaction> },
    Transaction { ids: Vec<Hash256>, next: usize, chosen: Vec<Transaction> },
    Ended,
}

/// What a selection waits for, and what it knows by then.
pub enum SelectStageView {
    BundleProposals,
    /// The output that holds the coins of the sidechain of the payout at `next`.
    Ctip { payouts: Seq<PayoutView>, next: int, chosen: Seq<TransactionView> },
    /// The transaction that makes the payout at `next`.
    M6 { payouts: Seq<PayoutView>, next: int, ctip: CtipView, chosen: Seq<TransactionView> },
    Mempool { chosen: Seq<TransactionView> },
    /// The transaction with the id at `next`.
    Transaction { ids: Seq<Seq<u8>>, next: int, chosen: Seq<TransactionView> },
    Ended,
}

impl View for SelectStage {
    type V = SelectStageView;

    closed spec fn view(&self) -> SelectStageView {
        match self {
            SelectStage::BundleProposals => SelectStageView::BundleProposals,
            SelectStage::Ctip { payouts, next, chosen } => SelectStageView::Ctip {
                payouts: views(payouts@),
                next: *next as int,
                chosen: views(chosen@),
            },
            SelectStage::M6 { payouts, next, ctip, chosen } => SelectStageView::M6 {
                payouts: views(payouts@),
                next: *next as int,
                ctip: ctip@,
                chosen: views(chosen@),
            },
            SelectStage::Mempool { chosen } => SelectStageView::Mempool { chosen: views(chosen@) },
            SelectStage::Transaction { ids, next, chosen } => SelectStageView::Transaction {
                ids: views(ids@),
                next: *next as int,
                chosen: views(chosen@),
            },
            SelectStage::Ended => SelectStageView::Ended,
        }
    }
}

/// Whether a bundle has the votes to be paid out.
pub open spec fn is_included(bundle: BundleProposalView) -> bool {
    bundle.vote_count matches Some(votes) && votes > WITHDRAWAL_BUNDLE_INCLUSION_THRESHOLD
}

/// The bundles of a sidechain that are to be paid out, in order.
pub open spec fn payouts_of(
    sidechain_number: u8,
    bundles: Seq<BundleProposalView>,
) -> Seq<PayoutView>
    decreases bundles.len(),
{
    if bundles.len() == 0 {
        Seq::empty()
    } else {
        let before = payouts_of(sidechain_number, bundles.drop_last());
        let bundle = bundles.last();
        if is_included(bundle) {
            before.push(
                PayoutView {
                    sidechain_number,
                    m6id: bundle.m6id,
                    fee: bundle.fee,
                    payout: bundle.payout,
                    first: before.len() == 0,
                },
            )
        } else {
            before
        }
    }
}

/// The bundles of all sidechains that are to be paid out, in order.
pub open spec fn payouts(proposals: Seq<SidechainBundlesView>) -> Seq<PayoutView>
    decreases proposals.len(),
{
    if proposals.len() == 0 {
        Seq::empty()
    } else {
        let last = proposals.last();
        payouts(proposals.drop_last()) + payouts_of(last.sidechain_number, last.bundles)
    }
}

/// The output that holds the coins of a sidechain after a payout from `ctip` by the
/// transaction with this id and so many outputs: the last of them. There is none
/// where the payout and its fee are more than `ctip` holds, or there are no outputs.
pub open spec fn ctip_after(
    ctip: CtipView,
    payout: PayoutView,
    id: Seq<u8>,
    outputs: nat,
) -> Option<CtipView> {
    if payout.fee + payout.payout > ctip.value || outputs == 0 {
        None
    } else {
        Some(
            CtipView {
                outpoint: OutPointView { txid: id, vout: (outputs - 1) as u32 },
                value: (ctip.value - payout.fee - payout.payout) as u64,
            },
        )
    }
}

/// The output that holds the coins of a sidechain after `m6` has made a payout
/// from `ctip`.
pub open spec fn next_ctip(ctip: CtipView, payout: PayoutView, m6: TransactionView) -> Option<
    CtipView,
> {
    ctip_after(ctip, payout, txid(m6), m6.output.len())
}

/// The payout at `next` is made from `ctip`. There is nothing to be done where it
/// does not hold enough.
pub open spec fn at_m6(
    payouts: Seq<PayoutView>,
    next: int,
    ctip: CtipView,
    chosen: Seq<TransactionView>,
) -> Option<(SelectStageView, SelectActionView)> {
    let payout = payouts[next];
    if payout.fee + payout.payout > ctip.value {
        None
    } else {
        Some(
            (
                SelectStageView::M6 { payouts, next, ctip, chosen },
                SelectActionView::MakeM6 {
                    sidechain_number: payout.sidechain_number,
                    m6id: payout.m6id,
                    ctip,
                },
            ),
        )
    }
}

/// The payout at `next` is begun: the first of a sidechain from the output that
/// holds its coins, the others from `ctip`. After the last, waiting transactions
/// follow.
pub open spec fn at_payout(
    payouts: Seq<PayoutView>,
    next: int,
    ctip: CtipView,
    chosen: Seq<TransactionView>,
) -> Option<(SelectStageView, SelectActionView)> {
    if next >= payouts.len() {
        Some((SelectStageView::Mempool { chosen }, SelectActionView::ListMempool))
    } else if payouts[next].first {
        Some(
            (
                SelectStageView::Ctip { payouts, next, chosen },
                SelectActionView::ReadCtip(payouts[next].sidechain_number),
            ),
        )
    } else {
        at_m6(payouts, next, ctip, chosen)
    }
}

/// The transaction with the id at `next` is fetched; after the last, the selection
/// ends.
pub open spec fn at_fetch(ids: Seq<Seq<u8>>, next: int, chosen: Seq<TransactionView>) -> (
    SelectStageView,
    SelectActionView,
) {
    if next < ids.len() {
        (
            SelectStageView::Transaction { ids, next, chosen },
            SelectActionView::FetchTransaction(ids[next]),
        )
    } else {
        (SelectStageView::Ended, SelectActionView::Finish(chosen))
    }
}

/// No output.
pub open spec fn no_ctip() -> CtipView {
    CtipView { outpoint: OutPointView { txid: Seq::new(32, |i: int| 0u8), vout: 0 }, value: 0 }
}

/// What a selection that waits at `stage` does at `event`: what it waits for then,
/// and the action that it asks for. A failure ends it. There is nothing for an event
/// that it does not wait for, for a payout that takes more than its sidechain holds,
/// and for one that leaves no output.
pub open spec fn advance(stage: SelectStageView, event: SelectEventView) -> Option<
    (SelectStageView, SelectActionView),
> {
    match (stage, event) {
        (SelectStageView::Ended, _) => None,
        (_, SelectEventView::Failed) => Some((SelectStageView::Ended, SelectActionView::Fail)),
        (SelectStageView::BundleProposals, SelectEventView::BundleProposals(proposals)) => {
            at_payout(payouts(proposals), 0, no_ctip(), Seq::empty())
        },
        (SelectStageView::Ctip { payouts, next, chosen }, SelectEventView::Ctip(ctip)) => at_m6(
            payouts,
            next,
            ctip,
            chosen,
        ),
        (SelectStageView::M6 { payouts, next, ctip, chosen }, SelectEventView::M6(m6)) => {
            match next_ctip(ctip, payouts[next], m6) {
                Some(left) => at_payout(payouts, next + 1, left, chosen.push(m6)),
                None => None,
            }
        },
        (SelectStageView::Mempool { chosen }, SelectEventView::Mempool(ids)) => Some(
            at_fetch(ids, 0, chosen),
        ),
        (
            SelectStageView::Transaction { ids, next, chosen },
            SelectEventView::Transaction(tx),
        ) => Some(at_fetch(ids, next + 1, chosen.push(tx))),
        _ => None,
    }
}

/// Decides which transactions a block has, besides the coinbase.
pub struct Selection {
    stage: SelectStage,
}

impl Selection {
    /// What the selection waits for.
    pub closed spec fn stage(&self) -> SelectStageView {
        self.stage@
    }

    /// Whether what is worked on is among what there is, and the output that a
    /// payout is made from holds enough for it.
    pub closed spec fn wf(&self) -> bool {
        match self.stage {
            SelectStage::Ctip { payouts, next, chosen } => next < payouts@.len(),
            SelectStage::M6 { payouts, next, ctip, chosen } => {
                &&& next < payouts@.len()
                &&& payouts@[next as int].fee + payouts@[next as int].payout <= ctip.value
            },
            SelectStage::Transaction { ids, next, chosen } => next < ids@.len(),
            _ => true,
        }
    }

    /// Begins a selection. It asks for the withdrawal bundles first.
    pub fn new() -> (selection: (Selection, SelectAction))
        ensures
            selection.0.wf(),
            selection.0.stage() == SelectStageView::BundleProposals,
            selection.1@ == SelectActionView::ListBundleProposals,
    {
        (Selection { stage: SelectStage::BundleProposals }, SelectAction::ListBundleProposals)
    }

    /// Goes on with what came of the last action, if there is anything to go on
    /// with.
    pub fn step(self, event: SelectEvent) -> (next: Option<(Selection, SelectAction)>)
        requires
            self.wf(),
        ensures
            match (advance(self.stage(), event@), next) {
                (Some(at), Some(step)) => step.0.wf() && (step.0.stage(), step.1@) == at,
                (None, None) => true,
                _ => false,
            },
    {
        match (self.stage, event) {
            (SelectStage::Ended, _) => None,
            (_, SelectEvent::Failed) => Some(
                (Selection { stage: SelectStage::Ended }, SelectAction::Fail),
            ),
            (SelectStage::BundleProposals, SelectEvent::BundleProposals(proposals)) => {
                let txid: Hash256 = [0u8; 32];
                let none = Ctip { outpoint: OutPoint { txid, vout: 0 }, value: 0 };
                assert(txid@ =~= Seq::new(32, |i: int| 0u8));
                let chosen: Vec<Transaction> = Vec::new();
                assert(views(chosen@) =~= Seq::empty());
                payout_stage(find_payouts(&proposals), 0, none, chosen)
            },
            (SelectStage::Ctip { payouts, next, chosen }, SelectEvent::Ctip(ctip)) => m6_stage(
                payouts,
                next,
                ctip,
                chosen,
            ),
            (SelectStage::M6 { payouts, next, ctip, chosen }, SelectEvent::M6(m6)) => {
                let payout = payouts[next];
                assert(views(payouts@)[next as int] == payout@);
                let id = compute_txid(&m6);
                let left = match find_ctip_after(&ctip, &payout, id, m6.output.len()) {
                    Some(left) => left,
                    None => return None,
                };
                let mut chosen = chosen;
                proof {
                    lemma_views_push(chosen@, m6);
                }
                chosen.push(m6);
                assert(next < payouts.len());
                payout_stage(payouts, next + 1, left, chosen)
            },
            (SelectStage::Mempool { chosen }, SelectEvent::Mempool(ids)) => Some(
                fetch_stage(ids, 0, chosen),
            ),
            (SelectStage::Transaction { ids, next, chosen }, SelectEvent::Transaction(tx)) => {
                let mut chosen = chosen;
                proof {
                    lemma_views_push(chosen@, tx);
                }
                chosen.push(tx);
                assert(next < ids.len());
                Some(fetch_stage(ids, next + 1, chosen))
            },
            _ => None,
        }
    }
}

/// The output that holds the coins of a sidechain after a payout from `ctip` by the
/// transaction with this id and so many outputs, if there is one.
pub fn find_ctip_after(ctip: &Ctip, payout: &Payout, id: Hash256, outputs: usize) -> (left: Option<
    Ctip,
>)
    ensures
        match (ctip_after(ctip@, payout@, id@, outputs as nat), left) {
            (Some(model), Some(left)) => left@ == model,
            (None, None) => true,
            _ => false,
        },
{
    if payout.fee > ctip.value || payout.payout > ctip.value - payout.fee || outputs == 0 {
        None
    } else {
        Some(
            Ctip {
                outpoint: OutPoint { txid: id, vout: (outputs - 1) as u32 },
                value: ctip.value - payout.fee - payout.payout,
            },
        )
    }
}

/// Goes on to make the payout at `next`.
fn m6_stage(
    payouts: Vec<Payout>,
    next: usize,
    ctip: Ctip,
    chosen: Vec<Transaction>,
) -> (at: Option<(Selection, SelectAction)>)
    requires
        next < payouts@.len(),
    ensures
        match (at_m6(views(payouts@), next as int, ctip@, views(chosen@)), at) {
            (Some(model), Some(step)) => step.0.wf() && (step.0.stage(), step.1@) == model,
            (None, None) => true,
            _ => false,
        },
{
    let payout = payouts[next];
    assert(views(payouts@)[next as int] == payout@);
    if payout.fee > ctip.value || payout.payout > ctip.value - payout.fee {
        None
    } else {
        Some(
            (
                Selection { stage: SelectStage::M6 { payouts, next, ctip, chosen } },
                SelectAction::MakeM6 {
                    sidechain_number: payout.sidechain_number,
                    m6id: payout.m6id,
                    ctip,
                },
            ),
        )
    }
}

/// Goes on to the payout at `next`.
fn payout_stage(
    payouts: Vec<Payout>,
    next: usize,
    ctip: Ctip,
    chosen: Vec<Transaction>,
) -> (at: Option<(Selection, SelectAction)>)
    requires
        next <= payouts@.len(),
    ensures
        match (at_payout(views(payouts@), next as int, ctip@, views(chosen@)), at) {
            (Some(model), Some(step)) => step.0.wf() && (step.0.stage(), step.1@) == model,
            (None, None) => true,
            _ => false,
        },
{
    if next >= payouts.len() {
        Some(
            (Selection { stage: SelectStage::Mempool { chosen } }, SelectAction::ListMempool),
        )
    } else {
        assert(views(payouts@)[next as int] == payouts@[next as int]@);
        if payouts[next].first {
            let number = payouts[next].sidechain_number;
            Some(
                (
                    Selection { stage: SelectStage::Ctip { payouts, next, chosen } },
                    SelectAction::ReadCtip(number),
                ),
            )
        } else {
            m6_stage(payouts, next, ctip, chosen)
        }
    }
}

/// Goes on to the waiting transaction at `next`.
fn fetch_stage(ids: Vec<Hash256>, next: usize, chosen: Vec<Transaction>) -> (at: (
    Selection,
    SelectAction,
))
    requires
        next <= ids@.len(),
    ensures
        at.0.wf(),
        (at.0.stage(), at.1@) == at_fetch(views(ids@), next as int, views(chosen@)),
{
    if next < ids.len() {
        let id = ids[next];
        assert(views(ids@)[next as int] == id@);
        (
            Selection { stage: SelectStage::Transaction { ids, next, chosen } },
            SelectAction::FetchTransaction(id),
        )
    } else {
        (Selection { stage: SelectStage::Ended }, SelectAction::Finish(chosen))
    }
}

/// The bundles of all sidechains that are to be paid out.
fn find_payouts(proposals: &Vec<SidechainBundles>) -> (found: Vec<Payout>)
    ensures
        views(found@) == payouts(views(proposals@)),
{
    let mut found: Vec<Payout> = Vec::new();
    let ghost all = views(proposals@);
    let mut i: usize = 0;
    assert(views(found@) =~= payouts(all.take(0)));
    while i < proposals.len()
        invariant
            i <= proposals@.len(),
            all == views(proposals@),
            views(found@) == payouts(all.take(i as int)),
        decreases proposals@.len() - i,
    {
        let number = proposals[i].sidechain_number;
        let bundles = &proposals[i].bundles;
        let ghost before = views(found@);
        let ghost listed = views(bundles@);
        let mut first = true;
        let mut j: usize = 0;
        assert(before + payouts_of(number, listed.take(0)) =~= before);
        while j < bundles.len()
            invariant
                j <= bundles@.len(),
                listed == views(bundles@),
                views(found@) == before + payouts_of(number, listed.take(j as int)),
                first == (payouts_of(number, listed.take(j as int)).len() == 0),
            decreases bundles@.len() - j,
        {
            let bundle = bundles[j];
            proof {
                let next = listed.take(j + 1);
                assert(next.drop_last() =~= listed.take(j as int));
                assert(next.last() == bundle@);
            }
            let included = match bundle.vote_count {
                Some(votes) => votes > WITHDRAWAL_BUNDLE_INCLUSION_THRESHOLD,
                None => false,
            };
            if included {
                let payout = Payout {
                    sidechain_number: number,
                    m6id: bundle.m6id,
                    fee: bundle.fee,
                    payout: bundle.payout,
                    first,
                };
                proof {
                    lemma_views_push(found@, payout);
                    assert(views(found@).push(payout@) =~= before + payouts_of(
                        number,
                        listed.take(j + 1),
                    ));
                }
                found.push(payout);
                first = false;
            }
            j += 1;
        }
        proof {
            assert(listed.take(j as int) =~= listed);
            let next = all.take(i + 1);
            assert(next.drop_last() =~= all.take(i as int));
            assert(next.last() == proposals@[i as int]@);
        }
        i += 1;
    }
    assert(all.take(i as int) =~= all);
    found
}

} // verus!
