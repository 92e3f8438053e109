//! What a selection of transactions comes to.

use vstd::prelude::*;
use crate::select::{
    advance, at_fetch, at_m6, at_payout, next_ctip, no_ctip, payouts, payouts_of, PayoutView,
    SelectActionView, SelectEventView, SelectStageView,
};
use crate::types::{BundleProposalView, CtipView, SidechainBundlesView, TransactionView};

verus! {

/// What a selection is told, whatever it asks.
pub struct SelectReplies {
    pub bundle_proposals: Seq<SidechainBundlesView>,
    /// The output that holds the coins of the sidechain of the payout at a place.
    pub ctip: spec_fn(int) -> CtipView,
    /// The transaction that makes the payout at a place.
    pub m6: spec_fn(int) -> TransactionView,
    pub mempool: Seq<Seq<u8>>,
    /// The waiting transaction at a place.
    pub fetched: spec_fn(int) -> TransactionView,
}

/// What a selection that waits at `stage` is told.
pub open spec fn reply(replies: SelectReplies, stage: SelectStageView) -> SelectEventView {
    match stage {
        SelectStageView::BundleProposals => SelectEventView::BundleProposals(
            replies.bundle_proposals,
        ),
        SelectStageView::Ctip { next, .. } => SelectEventView::Ctip((replies.ctip)(next)),
        SelectStageView::M6 { next, .. } => SelectEventView::M6((replies.m6)(next)),
        SelectStageView::Mempool { .. } => SelectEventView::Mempool(replies.mempool),
        SelectStageView::Transaction { next, .. } => SelectEventView::Transaction(
            (replies.fetched)(next),
        ),
        SelectStageView::Ended => SelectEventView::Mempool(Seq::empty()),
    }
}

/// The first `n` actions of a selection from where it waits at a stage after asking
/// for an action, that one first.
pub open spec fn run(
    at: (SelectStageView, SelectActionView),
    replies: SelectReplies,
    n: nat,
) -> Seq<SelectActionView>
    decreases n,
{
    if n == 0 {
        Seq::empty()
    } else if at.0 is Ended {
        seq![at.1]
    } else {
        match advance(at.0, reply(replies, at.0)) {
            Some(next) => seq![at.1] + run(next, replies, (n - 1) as nat),
            None => seq![at.1],
        }
    }
}

/// The output that the payout at `i` is made from: for the first of a sidechain
/// the one that holds its coins, else what the payout before has left.
pub open spec fn ctip_at(payouts: Seq<PayoutView>, replies: SelectReplies, i: int) -> CtipView
    decreases i,
{
    if payouts[i].first || i <= 0 {
        (replies.ctip)(i)
    } else {
        next_ctip(ctip_at(payouts, replies, i - 1), payouts[i - 1], (replies.m6)(i - 1))->0
    }
}

/// Whether every payout takes what is there, and leaves an output.
pub open spec fn can_pay(payouts: Seq<PayoutView>, replies: SelectReplies) -> bool {
    forall|i: int|
        0 <= i < payouts.len() ==> next_ctip(
            #[trigger] ctip_at(payouts, replies, i),
            payouts[i],
            (replies.m6)(i),
        ) is Some
}

/// The actions for the payouts from place `i` on.
pub open spec fn payout_actions(payouts: Seq<PayoutView>, replies: SelectReplies, i: int) -> Seq<
    SelectActionView,
>
    decreases payouts.len() - i,
{
    if i >= payouts.len() {
        Seq::empty()
    } else {
        let read = if payouts[i].first {
            seq![SelectActionView::ReadCtip(payouts[i].sidechain_number)]
        } else {
            Seq::empty()
        };
        read + seq![
            SelectActionView::MakeM6 {
                sidechain_number: payouts[i].sidechain_number,
                m6id: payouts[i].m6id,
                ctip: ctip_at(payouts, replies, i),
            },
        ] + payout_actions(payouts, replies, i + 1)
    }
}

/// The actions for the waiting transactions from place `i` on.
pub open spec fn fetch_actions(ids: Seq<Seq<u8>>, i: int) -> Seq<SelectActionView> {
    Seq::new((ids.len() - i) as nat, |k: int| SelectActionView::FetchTransaction(ids[i + k]))
}

/// The transactions that are chosen: the payouts, then those that wait.
pub open spec fn chosen(replies: SelectReplies) -> Seq<TransactionView> {
    Seq::new(payouts(replies.bundle_proposals).len(), replies.m6) + Seq::new(
        replies.mempool.len(),
        replies.fetched,
    )
}

/// All that a selection asks for, in order.
pub open spec fn selection_plan(replies: SelectReplies) -> Seq<SelectActionView> {
    seq![SelectActionView::ListBundleProposals] + payout_actions(
        payouts(replies.bundle_proposals),
        replies,
        0,
    ) + seq![SelectActionView::ListMempool] + fetch_actions(replies.mempool, 0) + seq![
        SelectActionView::Finish(chosen(replies)),
    ]
}

proof fn lemma_run_fetches(replies: SelectReplies, i: int, before: Seq<TransactionView>, n: nat)
    requires
        0 <= i <= replies.mempool.len(),
        n > replies.mempool.len() - i,
    ensures
        run(
            at_fetch(replies.mempool, i, before + Seq::new(i as nat, replies.fetched)),
            replies,
            n,
        ) == fetch_actions(replies.mempool, i) + seq![
            SelectActionView::Finish(
                before + Seq::new(replies.mempool.len(), replies.fetched),
            ),
        ],
    decreases replies.mempool.len() - i,
{
    let ids = replies.mempool;
    let txs = before + Seq::new(i as nat, replies.fetched);
    let at = at_fetch(ids, i, txs);
    if i < ids.len() {
        lemma_run_fetches(replies, i + 1, before, (n - 1) as nat);
        let more = before + Seq::new((i + 1) as nat, replies.fetched);
        assert(txs.push((replies.fetched)(i)) =~= more);
        assert(run(at, replies, n) == seq![at.1] + run(
            at_fetch(ids, i + 1, more),
            replies,
            (n - 1) as nat,
        ));
        assert(fetch_actions(ids, i) =~= seq![at.1] + fetch_actions(ids, i + 1));
        let finish = seq![
            SelectActionView::Finish(before + Seq::new(ids.len(), replies.fetched)),
        ];
        assert(seq![at.1] + (fetch_actions(ids, i + 1) + finish) =~= fetch_actions(ids, i)
            + finish);
    } else {
        assert(fetch_actions(ids, i) =~= Seq::empty());
        assert(run(at, replies, n) =~= fetch_actions(ids, i) + seq![at.1]);
    }
}

proof fn lemma_run_payouts(
    payouts: Seq<PayoutView>,
    replies: SelectReplies,
    i: int,
    ctip: CtipView,
    n: nat,
)
    requires
        0 <= i <= payouts.len(),
        can_pay(payouts, replies),
        i < payouts.len() && !payouts[i].first ==> i > 0 && ctip == ctip_at(payouts, replies, i),
        n >= payout_actions(payouts, replies, i).len(),
    ensures
        at_payout(payouts, i, ctip, Seq::new(i as nat, replies.m6)) is Some,
        run(
            at_payout(payouts, i, ctip, Seq::new(i as nat, replies.m6))->0,
            replies,
            n,
        ) == payout_actions(payouts, replies, i) + run(
            (
                SelectStageView::Mempool { chosen: Seq::new(payouts.len(), replies.m6) },
                SelectActionView::ListMempool,
            ),
            replies,
            (n - payout_actions(payouts, replies, i).len()) as nat,
        ),
    decreases payouts.len() - i,
{
    let txs = Seq::new(i as nat, replies.m6);
    let at = at_payout(payouts, i, ctip, txs)->0;
    let actions = payout_actions(payouts, replies, i);
    let mempool = (
        SelectStageView::Mempool { chosen: Seq::new(payouts.len(), replies.m6) },
        SelectActionView::ListMempool,
    );
    let rest = run(mempool, replies, (n - actions.len()) as nat);
    if i >= payouts.len() {
        assert(actions + rest =~= rest);
    } else {
        let from = ctip_at(payouts, replies, i);
        assert(next_ctip(from, payouts[i], (replies.m6)(i)) is Some);
        let left = next_ctip(from, payouts[i], (replies.m6)(i))->0;
        let later = payout_actions(payouts, replies, i + 1);
        let made = at_m6(payouts, i, from, txs)->0;
        let more = Seq::new((i + 1) as nat, replies.m6);
        assert(txs.push((replies.m6)(i)) =~= more);
        let m = if payouts[i].first {
            (n - 1) as nat
        } else {
            n
        };
        lemma_run_payouts(payouts, replies, i + 1, left, (m - 1) as nat);
        let next = at_payout(payouts, i + 1, left, more)->0;
        assert(run(made, replies, m) == seq![made.1] + run(next, replies, (m - 1) as nat));
        if payouts[i].first {
            assert(run(at, replies, n) == seq![at.1] + run(made, replies, m));
            assert(seq![at.1] + (seq![made.1] + (later + rest)) =~= actions + rest);
        } else {
            assert(seq![made.1] + (later + rest) =~= actions + rest);
        }
    }
}

/// The first payout of all is the first of its sidechain.
proof fn lemma_first_payout(proposals: Seq<SidechainBundlesView>)
    ensures
        payouts(proposals).len() > 0 ==> payouts(proposals)[0].first,
    decreases proposals.len(),
{
    if proposals.len() > 0 {
        lemma_first_payout(proposals.drop_last());
        lemma_first_payout_of(proposals.last().sidechain_number, proposals.last().bundles);
    }
}

proof fn lemma_first_payout_of(number: u8, bundles: Seq<BundleProposalView>)
    ensures
        payouts_of(number, bundles).len() > 0 ==> payouts_of(number, bundles)[0].first,
    decreases bundles.len(),
{
    if bundles.len() > 0 {
        lemma_first_payout_of(number, bundles.drop_last());
    }
}

/// Whatever a selection is told, as long as every payout takes what is there, it
/// asks for what its plan says, in that order, and ends with the payouts and then
/// the transactions that wait, each in their order.
pub proof fn law_selection_follows_its_plan(replies: SelectReplies, n: nat)
    requires
        can_pay(payouts(replies.bundle_proposals), replies),
        n >= selection_plan(replies).len(),
    ensures
        run(
            (SelectStageView::BundleProposals, SelectActionView::ListBundleProposals),
            replies,
            n,
        ) == selection_plan(replies),
{
    let all = payouts(replies.bundle_proposals);
    let paying = payout_actions(all, replies, 0);
    let start = (SelectStageView::BundleProposals, SelectActionView::ListBundleProposals);
    let none = Seq::<TransactionView>::empty();
    lemma_first_payout(replies.bundle_proposals);
    assert(none =~= Seq::new(0, replies.m6));
    assert(selection_plan(replies).len() == 3 + paying.len() + replies.mempool.len());
    lemma_run_payouts(all, replies, 0, no_ctip(), (n - 1) as nat);
    let paid = Seq::new(all.len(), replies.m6);
    let m = (n - 1 - paying.len()) as nat;
    let mempool = (SelectStageView::Mempool { chosen: paid }, SelectActionView::ListMempool);
    assert(run(start, replies, n) == seq![start.1] + (paying + run(mempool, replies, m)));
    assert(paid + Seq::new(0, replies.fetched) =~= paid);
    lemma_run_fetches(replies, 0, paid, (m - 1) as nat);
    assert(run(mempool, replies, m) == seq![mempool.1] + run(
        at_fetch(replies.mempool, 0, paid),
        replies,
        (m - 1) as nat,
    ));
    assert(run(start, replies, n) =~= selection_plan(replies));
}

/// What the payouts at `from` and after, before `to`, take.
pub open spec fn taken(payouts: Seq<PayoutView>, from: int, to: int) -> int
    decreases to - from,
{
    if to <= from {
        0
    } else {
        taken(payouts, from, to - 1) + payouts[to - 1].fee + payouts[to - 1].payout
    }
}

/// The payouts of a sidechain are made one from what the other has left: what the
/// one at `to` finds, and what those before it took, is what there was at first.
pub proof fn law_payouts_take_from_each_other(
    payouts: Seq<PayoutView>,
    replies: SelectReplies,
    from: int,
    to: int,
)
    requires
        0 <= from <= to < payouts.len(),
        can_pay(payouts, replies),
        payouts[from].first,
        forall|i: int| from < i <= to ==> !(#[trigger] payouts[i]).first,
    ensures
        ctip_at(payouts, replies, to).value + taken(payouts, from, to)
            == (replies.ctip)(from).value,
    decreases to - from,
{
    if from < to {
        law_payouts_take_from_each_other(payouts, replies, from, to - 1);
        assert(next_ctip(
            ctip_at(payouts, replies, to - 1),
            payouts[to - 1],
            (replies.m6)(to - 1),
        ) is Some);
        assert(!payouts[to].first);
    }
}

/// A failure ends a selection, whatever it waits for, and nothing is asked for after
/// the end.
pub proof fn law_a_failure_ends_the_selection(stage: SelectStageView, event: SelectEventView)
    requires
        !(stage is Ended),
    ensures
        advance(stage, SelectEventView::Failed) == Some(
            (SelectStageView::Ended, SelectActionView::Fail),
        ),
        advance(SelectStageView::Ended, event) is None,
{
}

} // verus!
