//! How many blocks a generation makes, and of what.

use vstd::prelude::*;
use crate::generate::{
    advance, run, GenerateActionView, GenerateEventView, GenerateStageView, GenerationView,
};
use crate::types::{TransactionView, TxOutView};

verus! {

/// Whether a generation that waits at `stage` waits for `event`.
pub open spec fn waits_for(stage: GenerateStageView, event: GenerateEventView) -> bool {
    match stage {
        GenerateStageView::Next => event is Next,
        GenerateStageView::Tip => event is Tip || event is Failed,
        GenerateStageView::Txouts { .. } => event is Txouts || event is Failed,
        GenerateStageView::Txs { .. } => event is Txs || event is Failed,
        GenerateStageView::Mined { .. } => event is Mined || event is Failed,
        GenerateStageView::ProposalsDeleted { .. } => event is Done || event is Failed,
        GenerateStageView::BmmRequestsDeleted { .. } => event is Done || event is Failed,
    }
}

/// A generation goes on with what it waits for, and with nothing else.
pub proof fn law_a_generation_takes_what_it_waits_for(at: GenerationView, event: GenerateEventView)
    ensures
        advance(at, event) is Some <==> waits_for(at.stage, event),
{
}

/// What is asked for a block that nothing fails of: the tip; the outputs of a coinbase after
/// it, with votes as asked for; the other transactions; a block of just these; that the
/// proposals and the requests for that tip are deleted; and that its hash is handed out. One
/// block less is left then.
pub proof fn law_a_block_is_made_of_what_is_told(
    ack_all: bool,
    remaining: u32,
    tip: Seq<u8>,
    txouts: Seq<TxOutView>,
    transactions: Seq<TransactionView>,
    block_hash: Seq<u8>,
)
    requires
        remaining > 0,
    ensures
        ({
            let before = GenerationView { ack_all, remaining, stage: GenerateStageView::Next };
            let events = seq![
                GenerateEventView::Next,
                GenerateEventView::Tip(Some(tip)),
                GenerateEventView::Txouts(txouts),
                GenerateEventView::Txs(transactions),
                GenerateEventView::Mined(block_hash),
                GenerateEventView::Done,
                GenerateEventView::Done,
            ];
            &&& run(before, events) is Some
            &&& {
                let (after, actions) = run(before, events)->0;
                &&& actions.len() == 7
                &&& actions[0] is ReadTip
                &&& actions[1] == GenerateActionView::GenerateTxouts { tip, ack_all }
                &&& actions[2] is SelectTxs
                &&& actions[3] == GenerateActionView::Mine { txouts, transactions }
                &&& actions[4] is DeleteProposals
                &&& actions[5] == GenerateActionView::DeleteBmmRequests { tip }
                &&& actions[6] == GenerateActionView::Yield { block_hash }
                &&& after.remaining + 1 == remaining
                &&& after.ack_all == ack_all
                &&& after.stage is Next
            }
        }),
{
    let replies = crate::generate::BlockReplies { tip, txouts, transactions, block_hash };
    crate::generate::law_each_block_is_made_in_order(ack_all, remaining, replies);
}

/// How many hashes of blocks `actions` hand out.
pub open spec fn handed_out(actions: Seq<GenerateActionView>) -> nat
    decreases actions.len(),
{
    if actions.len() == 0 {
        0
    } else {
        handed_out(actions.drop_last()) + if actions.last() is Yield {
            1nat
        } else {
            0
        }
    }
}

/// Whether `actions` hand out that something failed.
pub open spec fn some_failed(actions: Seq<GenerateActionView>) -> bool {
    exists|i: int|
        0 <= i < actions.len() && (#[trigger] actions[i] is Fail || actions[i] is NotSynced)
}

/// Whatever a generation is told, it hands out no more blocks than were asked for. Those that
/// it handed out and those that are left are together as many as were asked for, unless
/// something failed; then none is left.
pub proof fn law_no_more_blocks_than_asked_for(
    at: GenerationView,
    events: Seq<GenerateEventView>,
)
    requires
        at.stage is Next,
        run(at, events) is Some,
    ensures
        ({
            let (after, actions) = run(at, events)->0;
            &&& handed_out(actions) + after.remaining <= at.remaining
            &&& !some_failed(actions) ==> handed_out(actions) + after.remaining == at.remaining
            &&& some_failed(actions) ==> after.remaining == 0
            &&& after.ack_all == at.ack_all
            &&& after.stage is Next || after.remaining > 0
        }),
    decreases events.len(),
{
    if events.len() > 0 {
        law_no_more_blocks_than_asked_for(at, events.drop_last());
        let (before, earlier) = run(at, events.drop_last())->0;
        let (after, actions) = run(at, events)->0;
        let action = actions.last();
        assert(actions.drop_last() =~= earlier);
        if some_failed(earlier) {
            let i = choose|i: int|
                0 <= i < earlier.len() && (#[trigger] earlier[i] is Fail || earlier[i]
                    is NotSynced);
            assert(actions[i] == earlier[i]);
            assert(some_failed(actions));
        }
        if action is Fail || action is NotSynced {
            assert(actions[actions.len() - 1] == action);
            assert(some_failed(actions));
        } else if some_failed(actions) {
            let i = choose|i: int|
                0 <= i < actions.len() && (#[trigger] actions[i] is Fail || actions[i]
                    is NotSynced);
            assert(earlier[i] == actions[i]);
        }
    }
}

/// A validator without a tip, and a failure of whatever is asked for, end the generation:
/// nothing is left of it, and the end is handed out when the next block is asked for.
pub proof fn law_nothing_is_left_after_a_failure(at: GenerationView)
    requires
        !(at.stage is Next),
    ensures
        ({
            let (after, action) = advance(at, GenerateEventView::Failed)->0;
            &&& action is Fail
            &&& after.remaining == 0
            &&& (advance(after, GenerateEventView::Next)->0).1 is End
        }),
        at.stage is Tip ==> {
            let (after, action) = advance(at, GenerateEventView::Tip(None))->0;
            &&& action is NotSynced
            &&& after.remaining == 0
            &&& (advance(after, GenerateEventView::Next)->0).1 is End
        },
{
}

/// When the next block is asked for, the tip is read if and only if one is left.
pub proof fn law_a_block_is_begun_while_one_is_left(at: GenerationView)
    requires
        at.stage is Next,
    ensures
        at.remaining > 0 ==> (advance(at, GenerateEventView::Next)->0).1 is ReadTip,
        at.remaining == 0 ==> (advance(at, GenerateEventView::Next)->0).1 is End,
{
}

} // verus!
