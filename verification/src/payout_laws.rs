//! Which withdrawal bundles a selection pays out, from what, and what it chooses.

use vstd::prelude::*;
use crate::consensus::txid;
use crate::select::{
    advance, ctip_after, is_included, next_ctip, payouts, payouts_of, PayoutView,
    SelectActionView, SelectEventView, SelectStageView,
};
use crate::select_laws::{
    can_pay, chosen, ctip_at, fetch_actions, law_selection_follows_its_plan, payout_actions, run,
    selection_plan, SelectReplies,
};
use crate::types::{BundleProposalView, CtipView, SidechainBundlesView, TransactionView};

verus! {

/// A single bundle is paid out if and only if it has a vote count above 13150, whatever it
/// is above it.
pub proof fn law_a_bundle_is_paid_out_above_the_threshold(number: u8, bundle: BundleProposalView)
    ensures
        bundle.vote_count is None ==> payouts_of(number, seq![bundle]).len() == 0,
        bundle.vote_count matches Some(votes) ==> {
            &&& votes <= 13150 ==> payouts_of(number, seq![bundle]).len() == 0
            &&& votes > 13150 ==> payouts_of(number, seq![bundle]) == seq![
                PayoutView {
                    sidechain_number: number,
                    m6id: bundle.m6id,
                    fee: bundle.fee,
                    payout: bundle.payout,
                    first: true,
                },
            ]
        },
        payouts_of(number, Seq::empty()).len() == 0,
{
    let none = Seq::<BundleProposalView>::empty();
    assert(seq![bundle].drop_last() =~= none);
    assert(payouts_of(number, none) == Seq::<PayoutView>::empty());
    if is_included(bundle) {
        let payout = PayoutView {
            sidechain_number: number,
            m6id: bundle.m6id,
            fee: bundle.fee,
            payout: bundle.payout,
            first: true,
        };
        assert(Seq::<PayoutView>::empty().push(payout) =~= seq![payout]);
    }
}

/// A bundle that is paid out with its votes is also paid out, and just so, with any more.
pub proof fn law_more_votes_are_paid_out_too(number: u8, bundle: BundleProposalView, votes: u16)
    requires
        payouts_of(number, seq![bundle]).len() > 0,
        bundle.vote_count matches Some(fewer) && fewer <= votes,
    ensures
        payouts_of(number, seq![BundleProposalView { vote_count: Some(votes), ..bundle }])
            == payouts_of(number, seq![bundle]),
{
    law_a_bundle_is_paid_out_above_the_threshold(number, bundle);
    law_a_bundle_is_paid_out_above_the_threshold(
        number,
        BundleProposalView { vote_count: Some(votes), ..bundle },
    );
}

/// `list`, each marked as not the first of its sidechain.
pub open spec fn not_first(list: Seq<PayoutView>) -> Seq<PayoutView> {
    Seq::new(list.len(), |i: int| PayoutView { first: false, ..list[i] })
}

/// The payouts of two lists of one sidechain are those of the first, then those of the
/// second, which are marked as not the first if there are any before them.
pub proof fn law_payouts_of_lists_join(
    number: u8,
    first: Seq<BundleProposalView>,
    rest: Seq<BundleProposalView>,
)
    ensures
        payouts_of(number, first + rest) == payouts_of(number, first) + (if payouts_of(
            number,
            first,
        ).len() == 0 {
            payouts_of(number, rest)
        } else {
            not_first(payouts_of(number, rest))
        }),
    decreases rest.len(),
{
    let before = payouts_of(number, first);
    if rest.len() == 0 {
        assert(first + rest =~= first);
        assert(payouts_of(number, rest) =~= Seq::empty());
        assert(not_first(payouts_of(number, rest)) =~= Seq::empty());
        assert(before + Seq::<PayoutView>::empty() =~= before);
    } else {
        law_payouts_of_lists_join(number, first, rest.drop_last());
        assert((first + rest).drop_last() =~= first + rest.drop_last());
        let all = payouts_of(number, first + rest);
        let later = payouts_of(number, rest);
        if before.len() == 0 {
            assert(all =~= before + later);
        } else {
            assert(all =~= before + not_first(later));
        }
    }
}

/// The payouts of two lists of sidechains are those of the first, then those of the second;
/// those of a single sidechain are those of its list.
pub proof fn law_payouts_of_sidechains_join(
    first: Seq<SidechainBundlesView>,
    rest: Seq<SidechainBundlesView>,
    entry: SidechainBundlesView,
)
    ensures
        payouts(first + rest) == payouts(first) + payouts(rest),
        payouts(seq![entry]) == payouts_of(entry.sidechain_number, entry.bundles),
    decreases rest.len(),
{
    let none = Seq::<SidechainBundlesView>::empty();
    assert(seq![entry].drop_last() =~= none);
    assert(payouts(none) == Seq::<PayoutView>::empty());
    assert(payouts(seq![entry]) =~= payouts_of(entry.sidechain_number, entry.bundles));
    if rest.len() == 0 {
        assert(first + rest =~= first);
        assert(payouts(first) + Seq::<PayoutView>::empty() =~= payouts(first));
    } else {
        law_payouts_of_sidechains_join(first, rest.drop_last(), entry);
        assert((first + rest).drop_last() =~= first + rest.drop_last());
        assert(payouts(first + rest) =~= payouts(first) + payouts(rest));
    }
}

/// Whether `payout` is for this bundle of this sidechain.
pub open spec fn is_for(payout: PayoutView, number: u8, bundle: BundleProposalView) -> bool {
    &&& payout.sidechain_number == number
    &&& payout.m6id == bundle.m6id
    &&& payout.fee == bundle.fee
    &&& payout.payout == bundle.payout
}

/// Whether the payout at `k` is for the bundle at `j` of the entry at `i`, which has more
/// than 13150 votes.
pub open spec fn is_due(
    list: Seq<PayoutView>,
    k: int,
    proposals: Seq<SidechainBundlesView>,
    i: int,
    j: int,
) -> bool {
    &&& 0 <= i < proposals.len()
    &&& 0 <= j < proposals[i].bundles.len()
    &&& is_for(list[k], proposals[i].sidechain_number, proposals[i].bundles[j])
    &&& has_votes(proposals[i].bundles[j])
}

/// Whether the payout at `k` is for a bundle with more than 13150 votes.
pub open spec fn has_bundle(
    list: Seq<PayoutView>,
    k: int,
    proposals: Seq<SidechainBundlesView>,
) -> bool {
    exists|i: int, j: int| #[trigger] is_due(list, k, proposals, i, j)
}

/// Whether `bundle` has more than 13150 votes.
pub open spec fn has_votes(bundle: BundleProposalView) -> bool {
    bundle.vote_count matches Some(votes) && votes > 13150
}

proof fn lemma_bundle_of_payout(number: u8, bundles: Seq<BundleProposalView>, k: int) -> (j: int)
    requires
        0 <= k < payouts_of(number, bundles).len(),
    ensures
        0 <= j < bundles.len(),
        is_for(payouts_of(number, bundles)[k], number, bundles[j]),
        has_votes(bundles[j]),
    decreases bundles.len(),
{
    let shorter = bundles.drop_last();
    if k < payouts_of(number, shorter).len() {
        let j = lemma_bundle_of_payout(number, shorter, k);
        j
    } else {
        bundles.len() - 1
    }
}

proof fn lemma_payout_of_bundle(number: u8, bundles: Seq<BundleProposalView>, j: int) -> (k: int)
    requires
        0 <= j < bundles.len(),
        has_votes(bundles[j]),
    ensures
        0 <= k < payouts_of(number, bundles).len(),
        is_for(payouts_of(number, bundles)[k], number, bundles[j]),
    decreases bundles.len(),
{
    let shorter = bundles.drop_last();
    if j < shorter.len() {
        let k = lemma_payout_of_bundle(number, shorter, j);
        k
    } else {
        payouts_of(number, bundles).len() - 1
    }
}

/// Every payout is for a bundle with more than 13150 votes, and for every such bundle there
/// is a payout.
pub proof fn law_the_bundles_above_the_threshold_are_paid_out(
    proposals: Seq<SidechainBundlesView>,
)
    ensures
        forall|k: int|
            0 <= k < payouts(proposals).len() ==> #[trigger] has_bundle(
                payouts(proposals),
                k,
                proposals,
            ),
        forall|i: int, j: int|
            0 <= i < proposals.len() && 0 <= j < proposals[i].bundles.len() && has_votes(
                #[trigger] proposals[i].bundles[j],
            ) ==> exists|k: int|
                0 <= k < payouts(proposals).len() && #[trigger] is_due(
                    payouts(proposals),
                    k,
                    proposals,
                    i,
                    j,
                ),
    decreases proposals.len(),
{
    let all = payouts(proposals);
    if proposals.len() > 0 {
        let shorter = proposals.drop_last();
        let last = proposals.last();
        let before = payouts(shorter);
        let added = payouts_of(last.sidechain_number, last.bundles);
        law_the_bundles_above_the_threshold_are_paid_out(shorter);
        assert forall|k: int|
            0 <= k < all.len() implies #[trigger] has_bundle(all, k, proposals) by {
            if k < before.len() {
                assert(has_bundle(before, k, shorter));
                let (i, j) = choose|i: int, j: int| #[trigger] is_due(before, k, shorter, i, j);
                assert(is_due(all, k, proposals, i, j));
            } else {
                let added_k = added[k - before.len()];
                assert(all[k] == added_k);
                let j = lemma_bundle_of_payout(
                    last.sidechain_number,
                    last.bundles,
                    k - before.len(),
                );
                assert(is_due(all, k, proposals, proposals.len() - 1, j));
            }
        }
        assert forall|i: int, j: int|
            0 <= i < proposals.len() && 0 <= j < proposals[i].bundles.len() && has_votes(
                #[trigger] proposals[i].bundles[j],
            ) implies exists|k: int|
            0 <= k < all.len() && #[trigger] is_due(all, k, proposals, i, j) by {
            if i < shorter.len() {
                assert(shorter[i].bundles[j] == proposals[i].bundles[j]);
                let k = choose|k: int|
                    0 <= k < before.len() && #[trigger] is_due(before, k, shorter, i, j);
                assert(is_due(all, k, proposals, i, j));
            } else {
                assert(last.bundles[j] == proposals[i].bundles[j]);
                let k = lemma_payout_of_bundle(last.sidechain_number, last.bundles, j);
                assert(all[before.len() + k] == added[k]);
                assert(is_due(all, before.len() + k, proposals, i, j));
            }
        }
    }
}

/// After a payout the coins of a sidechain are in the last output of the transaction that
/// makes it: what it holds, the payout and the fee are together what there was. There is
/// nothing after a payout of more than there was, or by a transaction without outputs.
pub proof fn law_a_payout_leaves_the_rest(
    ctip: CtipView,
    payout: PayoutView,
    m6: TransactionView,
)
    requires
        m6.output.len() <= 0x1_0000_0000,
    ensures
        next_ctip(ctip, payout, m6) is Some <==> payout.fee + payout.payout <= ctip.value
            && m6.output.len() > 0,
        next_ctip(ctip, payout, m6) matches Some(left) ==> {
            &&& left.value + payout.fee + payout.payout == ctip.value
            &&& left.outpoint.txid == txid(m6)
            &&& left.outpoint.vout + 1 == m6.output.len()
        },
{
}

/// `law_a_payout_leaves_the_rest` for a transaction of which the id and the number of
/// outputs are known.
pub proof fn law_what_is_left_is_in_the_last_output(
    ctip: CtipView,
    payout: PayoutView,
    id: Seq<u8>,
    outputs: nat,
)
    requires
        outputs <= 0x1_0000_0000,
    ensures
        ctip_after(ctip, payout, id, outputs) is Some <==> payout.fee + payout.payout
            <= ctip.value && outputs > 0,
        ctip_after(ctip, payout, id, outputs) matches Some(left) ==> {
            &&& left.value + payout.fee + payout.payout == ctip.value
            &&& left.outpoint.txid == id
            &&& left.outpoint.vout + 1 == outputs
        },
{
}

/// Those of `actions` that make payouts, in order.
pub open spec fn made(actions: Seq<SelectActionView>) -> Seq<SelectActionView>
    decreases actions.len(),
{
    if actions.len() == 0 {
        Seq::empty()
    } else if actions.last() is MakeM6 {
        made(actions.drop_last()).push(actions.last())
    } else {
        made(actions.drop_last())
    }
}

/// Those of `actions` that read which output holds the coins of a sidechain, in order.
pub open spec fn read(actions: Seq<SelectActionView>) -> Seq<SelectActionView>
    decreases actions.len(),
{
    if actions.len() == 0 {
        Seq::empty()
    } else if actions.last() is ReadCtip {
        read(actions.drop_last()).push(actions.last())
    } else {
        read(actions.drop_last())
    }
}

/// Those of `actions` that fetch waiting transactions, in order.
pub open spec fn fetched(actions: Seq<SelectActionView>) -> Seq<SelectActionView>
    decreases actions.len(),
{
    if actions.len() == 0 {
        Seq::empty()
    } else if actions.last() is FetchTransaction {
        fetched(actions.drop_last()).push(actions.last())
    } else {
        fetched(actions.drop_last())
    }
}

proof fn lemma_join(first: Seq<SelectActionView>, rest: Seq<SelectActionView>)
    ensures
        made(first + rest) == made(first) + made(rest),
        read(first + rest) == read(first) + read(rest),
        fetched(first + rest) == fetched(first) + fetched(rest),
    decreases rest.len(),
{
    if rest.len() == 0 {
        assert(first + rest =~= first);
    } else {
        lemma_join(first, rest.drop_last());
        assert((first + rest).drop_last() =~= first + rest.drop_last());
    }
    assert(made(first + rest) =~= made(first) + made(rest));
    assert(read(first + rest) =~= read(first) + read(rest));
    assert(fetched(first + rest) =~= fetched(first) + fetched(rest));
}

proof fn lemma_one(action: SelectActionView)
    ensures
        made(seq![action]) == (if action is MakeM6 {
            seq![action]
        } else {
            Seq::empty()
        }),
        read(seq![action]) == (if action is ReadCtip {
            seq![action]
        } else {
            Seq::empty()
        }),
        fetched(seq![action]) == (if action is FetchTransaction {
            seq![action]
        } else {
            Seq::empty()
        }),
{
    let none = Seq::<SelectActionView>::empty();
    assert(seq![action].drop_last() =~= none);
    assert(made(none) == none);
    assert(read(none) == none);
    assert(fetched(none) == none);
    assert(none.push(action) =~= seq![action]);
}

/// The places of the payouts from `i` on that are the first of their sidechain.
pub open spec fn first_places(list: Seq<PayoutView>, i: int) -> Seq<int>
    decreases list.len() - i,
{
    if i >= list.len() {
        Seq::empty()
    } else if list[i].first {
        seq![i] + first_places(list, i + 1)
    } else {
        first_places(list, i + 1)
    }
}

proof fn lemma_payout_actions(list: Seq<PayoutView>, replies: SelectReplies, i: int)
    requires
        0 <= i <= list.len(),
    ensures
        ({
            let actions = payout_actions(list, replies, i);
            &&& actions.len() <= 2 * (list.len() - i)
            &&& made(actions) == Seq::new(
                (list.len() - i) as nat,
                |k: int|
                    SelectActionView::MakeM6 {
                        sidechain_number: list[i + k].sidechain_number,
                        m6id: list[i + k].m6id,
                        ctip: ctip_at(list, replies, i + k),
                    },
            )
            &&& read(actions) == Seq::new(
                first_places(list, i).len(),
                |k: int|
                    SelectActionView::ReadCtip(
                        list[first_places(list, i)[k]].sidechain_number,
                    ),
            )
            &&& fetched(actions).len() == 0
        }),
    decreases list.len() - i,
{
    let actions = payout_actions(list, replies, i);
    let all = Seq::new(
        (list.len() - i) as nat,
        |k: int|
            SelectActionView::MakeM6 {
                sidechain_number: list[i + k].sidechain_number,
                m6id: list[i + k].m6id,
                ctip: ctip_at(list, replies, i + k),
            },
    );
    let reads = Seq::new(
        first_places(list, i).len(),
        |k: int| SelectActionView::ReadCtip(list[first_places(list, i)[k]].sidechain_number),
    );
    if i < list.len() {
        let rest = payout_actions(list, replies, i + 1);
        let ask = SelectActionView::ReadCtip(list[i].sidechain_number);
        let act = SelectActionView::MakeM6 {
            sidechain_number: list[i].sidechain_number,
            m6id: list[i].m6id,
            ctip: ctip_at(list, replies, i),
        };
        lemma_payout_actions(list, replies, i + 1);
        lemma_one(ask);
        lemma_one(act);
        lemma_join(seq![act], rest);
        if list[i].first {
            assert(actions =~= seq![ask] + (seq![act] + rest));
            lemma_join(seq![ask], seq![act] + rest);
        } else {
            assert(actions =~= seq![act] + rest);
        }
        assert(made(actions) =~= all);
        assert(read(actions) =~= reads);
    } else {
        assert(all =~= Seq::empty());
        assert(reads =~= Seq::empty());
    }
}

proof fn lemma_fetch_actions(ids: Seq<Seq<u8>>, n: nat)
    requires
        n <= ids.len(),
    ensures
        ({
            let actions = fetch_actions(ids, 0).take(n as int);
            &&& made(actions).len() == 0
            &&& read(actions).len() == 0
            &&& fetched(actions) == actions
        }),
    decreases n,
{
    let actions = fetch_actions(ids, 0).take(n as int);
    if n > 0 {
        lemma_fetch_actions(ids, (n - 1) as nat);
        assert(actions.drop_last() =~= fetch_actions(ids, 0).take(n - 1));
        assert(fetched(actions) =~= actions);
    }
}

/// What a selection does, whatever it is told, as long as every payout takes what is there:
/// it makes each payout once, in order, the first of a sidechain from the output that it
/// read to hold its coins, each other from the last output of the one before, less what
/// that took; it fetches each waiting transaction once, in order; and it ends with the
/// transactions of the payouts, then those that waited.
pub proof fn law_what_a_selection_chooses(replies: SelectReplies, n: nat)
    requires
        can_pay(payouts(replies.bundle_proposals), replies),
        n >= 3 + 2 * payouts(replies.bundle_proposals).len() + replies.mempool.len(),
        forall|i: int| #[trigger] (replies.m6)(i).output.len() <= 0x1_0000_0000,
    ensures
        ({
            let list = payouts(replies.bundle_proposals);
            let actions = run(
                (SelectStageView::BundleProposals, SelectActionView::ListBundleProposals),
                replies,
                n,
            );
            let making = made(actions);
            &&& making.len() == list.len()
            &&& forall|i: int|
                0 <= i < list.len() ==> {
                    &&& (#[trigger] making[i])->MakeM6_sidechain_number
                        == list[i].sidechain_number
                    &&& making[i]->MakeM6_m6id == list[i].m6id
                    &&& list[i].first ==> making[i]->MakeM6_ctip == (replies.ctip)(i)
                }
            &&& forall|i: int|
                0 < i < list.len() && !(#[trigger] list[i]).first ==> {
                    let before = making[i - 1]->MakeM6_ctip;
                    let now = making[i]->MakeM6_ctip;
                    &&& now.outpoint.txid == txid((replies.m6)(i - 1))
                    &&& now.outpoint.vout + 1 == (replies.m6)(i - 1).output.len()
                    &&& now.value + list[i - 1].fee + list[i - 1].payout == before.value
                }
            &&& read(actions).len() == first_places(list, 0).len()
            &&& forall|k: int|
                0 <= k < first_places(list, 0).len() ==> #[trigger] read(actions)[k]
                    == SelectActionView::ReadCtip(list[first_places(list, 0)[k]].sidechain_number)
            &&& fetched(actions).len() == replies.mempool.len()
            &&& forall|j: int|
                0 <= j < replies.mempool.len() ==> #[trigger] fetched(actions)[j]
                    == SelectActionView::FetchTransaction(replies.mempool[j])
            &&& actions.len() > 0 && actions.last() is Finish
            &&& actions.last()->Finish_0.len() == list.len() + replies.mempool.len()
            &&& forall|i: int|
                0 <= i < list.len() ==> #[trigger] actions.last()->Finish_0[i] == (replies.m6)(i)
            &&& forall|j: int|
                list.len() <= j < list.len() + replies.mempool.len()
                    ==> #[trigger] actions.last()->Finish_0[j] == (replies.fetched)(
                    j - list.len(),
                )
        }),
{
    let list = payouts(replies.bundle_proposals);
    let ids = replies.mempool;
    let plan = selection_plan(replies);
    let paying = payout_actions(list, replies, 0);
    let fetching = fetch_actions(ids, 0);
    let finish = SelectActionView::Finish(chosen(replies));
    lemma_payout_actions(list, replies, 0);
    lemma_fetch_actions(ids, ids.len());
    assert(fetching.take(ids.len() as int) =~= fetching);
    assert(plan.len() == 3 + paying.len() + ids.len());
    law_selection_follows_its_plan(replies, n);
    let start = seq![SelectActionView::ListBundleProposals];
    let waiting = seq![SelectActionView::ListMempool];
    assert(plan =~= start + (paying + (waiting + (fetching + seq![finish]))));
    lemma_one(SelectActionView::ListBundleProposals);
    lemma_one(SelectActionView::ListMempool);
    lemma_one(finish);
    lemma_join(fetching, seq![finish]);
    lemma_join(waiting, fetching + seq![finish]);
    lemma_join(paying, waiting + (fetching + seq![finish]));
    lemma_join(start, paying + (waiting + (fetching + seq![finish])));
    assert(made(plan) =~= made(paying));
    assert(read(plan) =~= read(paying));
    assert(fetched(plan) =~= fetching);
    assert(plan.last() == finish);
    assert forall|i: int| 0 < i < list.len() && !(#[trigger] list[i]).first implies {
        let before = made(plan)[i - 1]->MakeM6_ctip;
        let now = made(plan)[i]->MakeM6_ctip;
        &&& now.outpoint.txid == txid((replies.m6)(i - 1))
        &&& now.outpoint.vout + 1 == (replies.m6)(i - 1).output.len()
        &&& now.value + list[i - 1].fee + list[i - 1].payout == before.value
    } by {
        assert(made(plan)[i]->MakeM6_ctip == ctip_at(list, replies, i));
        let before = ctip_at(list, replies, i - 1);
        assert(made(plan)[i - 1]->MakeM6_ctip == before);
        assert((replies.m6)(i - 1).output.len() <= 0x1_0000_0000);
        law_a_payout_leaves_the_rest(before, list[i - 1], (replies.m6)(i - 1));
    }
}

/// A selection goes on with what it waits for, and with nothing else, but for a payout of more
/// than there is and one that leaves no output.
pub proof fn law_a_selection_takes_what_it_waits_for(
    stage: SelectStageView,
    event: SelectEventView,
)
    ensures
        !(stage is Ended) && event is Failed ==> advance(stage, event) is Some,
        stage is Ended ==> advance(stage, event) is None,
        stage is Mempool && !(event is Failed) ==> (advance(stage, event) is Some <==> event
            is Mempool),
        stage is Transaction && !(event is Failed) ==> (advance(stage, event) is Some <==> event
            is Transaction),
        stage is BundleProposals && !(event is Failed || event is BundleProposals) ==> advance(
            stage,
            event,
        ) is None,
        stage matches SelectStageView::Ctip { payouts, next, chosen } ==> (!(event is Failed) ==> (
        advance(stage, event) is Some <==> (event matches SelectEventView::Ctip(ctip)
            && payouts[next].fee + payouts[next].payout <= ctip.value))),
        stage matches SelectStageView::M6 { payouts, next, ctip, chosen } ==> (!(event is Failed)
            ==> (advance(stage, event) is Some <==> (event matches SelectEventView::M6(m6) && {
            let left = ctip.value - payouts[next].fee - payouts[next].payout;
            &&& left >= 0
            &&& m6.output.len() > 0
            &&& next + 1 >= payouts.len() || payouts[next + 1].first || payouts[next + 1].fee
                + payouts[next + 1].payout <= left
        }))),
{
}

} // verus!
