//! The generation of blocks, one after the other.
//!
//! A `Generation` is driven from outside: it names an action, and is told what came
//! of it.

use vstd::prelude::*;
use crate::types::{views, Hash256, Transaction, TransactionView, TxOut, TxOutView};

verus! {

/// What a generation asks for.
pub enum GenerateAction {
    /// To read the hash of the last block of the chain.
    ReadTip,
    /// To make the outputs of a coinbase for the block after this one. `ack_all`
    /// says whether to vote for all that can be voted for.
    GenerateTxouts { tip: Hash256, ack_all: bool },
    /// To select the other transactions of the block.
    SelectTxs,
    /// To mine and hand in a block with these.
    Mine { txouts: Vec<TxOut>, transactions: Vec<Transaction> },
    /// To delete the wallet's own pending sidechain proposals.
    DeleteProposals,
    /// To delete the requests to commit to blocks of sidechains after this block.
    DeleteBmmRequests { tip: Hash256 },
    /// To hand out the hash of the block that was mined.
    Yield { block_hash: Hash256 },
    /// To hand out that there is no last block yet.
    NotSynced,
    /// To hand out why the last action failed.
    Fail,
    /// To end: there is no block any more.
    End,
}

/// What came of an action.
pub enum GenerateEvent {
    /// The next block is asked for.
    Next,
    Tip(Option<Hash256>),
    Txouts(Vec<TxOut>),
    Txs(Vec<Transaction>),
    Mined(Hash256),
    /// What the action asked for is done.
    Done,
    /// The action failed.
    Failed,
}

pub enum GenerateActionView {
    ReadTip,
    GenerateTxouts { tip: Seq<u8>, ack_all: bool },
    SelectTxs,
    Mine { txouts: Seq<TxOutView>, transactions: Seq<TransactionView> },
    DeleteProposals,
    DeleteBmmRequests { tip: Seq<u8> },
    Yield { block_hash: Seq<u8> },
    NotSynced,
    Fail,
    End,
}

pub enum GenerateEventView {
    Next,
    Tip(Option<Seq<u8>>),
    Txouts(Seq<TxOutView>),
    Txs(Seq<TransactionView>),
    Mined(Seq<u8>),
    Done,
    Failed,
}

impl View for GenerateAction {
    type V = GenerateActionView;

    open spec fn view(&self) -> GenerateActionView {
        match self {
            GenerateAction::ReadTip => GenerateActionView::ReadTip,
            GenerateAction::GenerateTxouts { tip, ack_all } => {
                GenerateActionView::GenerateTxouts { tip: tip@, ack_all: *ack_all }
            },
            GenerateAction::SelectTxs => GenerateActionView::SelectTxs,
            GenerateAction::Mine { txouts, transactions } => GenerateActionView::Mine {
                txouts: views(txouts@),
                transactions: views(transactions@),
            },
            GenerateAction::DeleteProposals => GenerateActionView::DeleteProposals,
            GenerateAction::DeleteBmmRequests { tip } => GenerateActionView::DeleteBmmRequests {
                tip: tip@,
            },
            GenerateAction::Yield { block_hash } => GenerateActionView::Yield {
                block_hash: block_hash@,
            },
            GenerateAction::NotSynced => GenerateActionView::NotSynced,
            GenerateAction::Fail => GenerateActionView::Fail,
            GenerateAction::End => GenerateActionView::End,
        }
    }
}

impl View for GenerateEvent {
    type V = GenerateEventView;

    open spec fn view(&self) -> GenerateEventView {
        match self {
            GenerateEvent::Next => GenerateEventView::Next,
            GenerateEvent::Tip(None) => GenerateEventView::Tip(None),
            GenerateEvent::Tip(Some(tip)) => GenerateEventView::Tip(Some(tip@)),
            GenerateEvent::Txouts(txouts) => GenerateEventView::Txouts(views(txouts@)),
            GenerateEvent::Txs(transactions) => GenerateEventView::Txs(views(transactions@)),
            GenerateEvent::Mined(block_hash) => GenerateEventView::Mined(block_hash@),
            GenerateEvent::Done => GenerateEventView::Done,
            GenerateEvent::Failed => GenerateEventView::Failed,
        }
    }
}

/// What a generation waits for.
enum GenerateStage {
    Next,
    Tip,
    Txouts { tip: Hash256 },
    Txs { tip: Hash256, txouts: Vec<TxOut> },
    Mined { tip: Hash256 },
    ProposalsDeleted { tip: Hash256, block_hash: Hash256 },
    BmmRequestsDeleted { block_hash: Hash256 },
}

/// What a generation waits for, and what it knows by then.
pub enum GenerateStageView {
    Next,
    Tip,
    Txouts { tip: Seq<u8> },
    Txs { tip: Seq<u8>, txouts: Seq<TxOutView> },
    Mined { tip: Seq<u8> },
    ProposalsDeleted { tip: Seq<u8>, block_hash: Seq<u8> },
    BmmRequestsDeleted { block_hash: Seq<u8> },
}

impl View for GenerateStage {
    type V = GenerateStageView;

    closed spec fn view(&self) -> GenerateStageView {
        match self {
            GenerateStage::Next => GenerateStageView::Next,
            GenerateStage::Tip => GenerateStageView::Tip,
            GenerateStage::Txouts { tip } => GenerateStageView::Txouts { tip: tip@ },
            GenerateStage::Txs { tip, txouts } => GenerateStageView::Txs {
                tip: tip@,
                txouts: views(txouts@),
            },
            GenerateStage::Mined { tip } => GenerateStageView::Mined { tip: tip@ },
            GenerateStage::ProposalsDeleted { tip, block_hash } => {
                GenerateStageView::ProposalsDeleted { tip: tip@, block_hash: block_hash@ }
            },
            GenerateStage::BmmRequestsDeleted { block_hash } => {
                GenerateStageView::BmmRequestsDeleted { block_hash: block_hash@ }
            },
        }
    }
}

/// Where a generation stands: whether it votes for all that can be voted for, how
/// many blocks are left, the one that is worked on included, and what it waits for.
pub struct GenerationView {
    pub ack_all: bool,
    pub remaining: u32,
    pub stage: GenerateStageView,
}

/// A generation that has no block left.
pub open spec fn spent(ack_all: bool) -> GenerationView {
    ready(ack_all, 0)
}

/// A generation that waits for the next of so many blocks to be asked for.
pub open spec fn ready(ack_all: bool, remaining: u32) -> GenerationView {
    GenerationView { ack_all, remaining, stage: GenerateStageView::Next }
}

/// What a generation does at `event`: where it stands then, and the action that it
/// asks for. After a failure there is no block any more. There is nothing for an
/// event that it does not wait for.
pub open spec fn advance(at: GenerationView, event: GenerateEventView) -> Option<
    (GenerationView, GenerateActionView),
> {
    match (at.stage, event) {
        (GenerateStageView::Next, GenerateEventView::Next) => if at.remaining == 0 {
            Some((at, GenerateActionView::End))
        } else {
            Some(
                (
                    GenerationView { stage: GenerateStageView::Tip, ..at },
                    GenerateActionView::ReadTip,
                ),
            )
        },
        (GenerateStageView::Next, _) => None,
        (_, GenerateEventView::Failed) => Some((spent(at.ack_all), GenerateActionView::Fail)),
        (GenerateStageView::Tip, GenerateEventView::Tip(None)) => Some(
            (spent(at.ack_all), GenerateActionView::NotSynced),
        ),
        (GenerateStageView::Tip, GenerateEventView::Tip(Some(tip))) => Some(
            (
                GenerationView { stage: GenerateStageView::Txouts { tip }, ..at },
                GenerateActionView::GenerateTxouts { tip, ack_all: at.ack_all },
            ),
        ),
        (GenerateStageView::Txouts { tip }, GenerateEventView::Txouts(txouts)) => Some(
            (
                GenerationView { stage: GenerateStageView::Txs { tip, txouts }, ..at },
                GenerateActionView::SelectTxs,
            ),
        ),
        (GenerateStageView::Txs { tip, txouts }, GenerateEventView::Txs(transactions)) => Some(
            (
                GenerationView { stage: GenerateStageView::Mined { tip }, ..at },
                GenerateActionView::Mine { txouts, transactions },
            ),
        ),
        (GenerateStageView::Mined { tip }, GenerateEventView::Mined(block_hash)) => Some(
            (
                GenerationView {
                    stage: GenerateStageView::ProposalsDeleted { tip, block_hash },
                    ..at
                },
                GenerateActionView::DeleteProposals,
            ),
        ),
        (GenerateStageView::ProposalsDeleted { tip, block_hash }, GenerateEventView::Done) => Some(
            (
                GenerationView {
                    stage: GenerateStageView::BmmRequestsDeleted { block_hash },
                    ..at
                },
                GenerateActionView::DeleteBmmRequests { tip },
            ),
        ),
        (GenerateStageView::BmmRequestsDeleted { block_hash }, GenerateEventView::Done) => Some(
            (
                ready(at.ack_all, (at.remaining - 1) as u32),
                GenerateActionView::Yield { block_hash },
            ),
        ),
        _ => None,
    }
}

/// Generates blocks, one after the other.
pub struct Generation {
    ack_all: bool,
    remaining: u32,
    stage: GenerateStage,
}

impl View for Generation {
    type V = GenerationView;

    closed spec fn view(&self) -> GenerationView {
        GenerationView {
            ack_all: self.ack_all,
            remaining: self.remaining,
            stage: self.stage@,
        }
    }
}

impl Generation {
    /// Whether there is a block left while one is worked on.
    pub closed spec fn wf(&self) -> bool {
        self.stage is Next || self.remaining > 0
    }

    /// Begins to generate `count` blocks. It waits for the first to be asked for.
    /// `ack_all` says whether to vote for all that can be voted for.
    pub fn new(count: u32, ack_all: bool) -> (generation: Generation)
        ensures
            generation.wf(),
            generation@ == ready(ack_all, count),
    {
        Generation { ack_all, remaining: count, stage: GenerateStage::Next }
    }

    /// Goes on with what came of the last action. There is nothing to go on with for
    /// an event that the generation does not wait for.
    pub fn step(self, event: GenerateEvent) -> (next: Option<(Generation, GenerateAction)>)
        requires
            self.wf(),
        ensures
            match (advance(self@, event@), next) {
                (Some(at), Some(step)) => step.0.wf() && (step.0@, step.1@) == at,
                (None, None) => true,
                _ => false,
            },
    {
        let ack_all = self.ack_all;
        let remaining = self.remaining;
        let (stage, action) = match (self.stage, event) {
            (GenerateStage::Next, GenerateEvent::Next) => if remaining == 0 {
                (GenerateStage::Next, GenerateAction::End)
            } else {
                (GenerateStage::Tip, GenerateAction::ReadTip)
            },
            (GenerateStage::Next, _) => return None,
            (_, GenerateEvent::Failed) => {
                return Some(
                    (
                        Generation { ack_all, remaining: 0, stage: GenerateStage::Next },
                        GenerateAction::Fail,
                    ),
                )
            },
            (GenerateStage::Tip, GenerateEvent::Tip(None)) => {
                return Some(
                    (
                        Generation { ack_all, remaining: 0, stage: GenerateStage::Next },
                        GenerateAction::NotSynced,
                    ),
                )
            },
            (GenerateStage::Tip, GenerateEvent::Tip(Some(tip))) => {
                (GenerateStage::Txouts { tip }, GenerateAction::GenerateTxouts { tip, ack_all })
            },
            (GenerateStage::Txouts { tip }, GenerateEvent::Txouts(txouts)) => {
                (GenerateStage::Txs { tip, txouts }, GenerateAction::SelectTxs)
            },
            (GenerateStage::Txs { tip, txouts }, GenerateEvent::Txs(transactions)) => {
                (GenerateStage::Mined { tip }, GenerateAction::Mine { txouts, transactions })
            },
            (GenerateStage::Mined { tip }, GenerateEvent::Mined(block_hash)) => {
                (
                    GenerateStage::ProposalsDeleted { tip, block_hash },
                    GenerateAction::DeleteProposals,
                )
            },
            (GenerateStage::ProposalsDeleted { tip, block_hash }, GenerateEvent::Done) => {
                (
                    GenerateStage::BmmRequestsDeleted { block_hash },
                    GenerateAction::DeleteBmmRequests { tip },
                )
            },
            (GenerateStage::BmmRequestsDeleted { block_hash }, GenerateEvent::Done) => {
                return Some(
                    (
                        Generation {
                            ack_all,
                            remaining: remaining - 1,
                            stage: GenerateStage::Next,
                        },
                        GenerateAction::Yield { block_hash },
                    ),
                )
            },
            _ => return None,
        };
        Some((Generation { ack_all, remaining, stage }, action))
    }
}

/// What a generation is told while it works on a block.
pub struct BlockReplies {
    pub tip: Seq<u8>,
    pub txouts: Seq<TxOutView>,
    pub transactions: Seq<TransactionView>,
    pub block_hash: Seq<u8>,
}

/// What is told of a block, in order, from when it is asked for.
pub open spec fn block_events(replies: BlockReplies) -> Seq<GenerateEventView> {
    seq![
        GenerateEventView::Next,
        GenerateEventView::Tip(Some(replies.tip)),
        GenerateEventView::Txouts(replies.txouts),
        GenerateEventView::Txs(replies.transactions),
        GenerateEventView::Mined(replies.block_hash),
        GenerateEventView::Done,
        GenerateEventView::Done,
    ]
}

/// What is asked for a block, in order.
pub open spec fn block_actions(ack_all: bool, replies: BlockReplies) -> Seq<GenerateActionView> {
    seq![
        GenerateActionView::ReadTip,
        GenerateActionView::GenerateTxouts { tip: replies.tip, ack_all },
        GenerateActionView::SelectTxs,
        GenerateActionView::Mine { txouts: replies.txouts, transactions: replies.transactions },
        GenerateActionView::DeleteProposals,
        GenerateActionView::DeleteBmmRequests { tip: replies.tip },
        GenerateActionView::Yield { block_hash: replies.block_hash },
    ]
}

/// Where a generation stands after `events`, and the actions that it asks for at
/// them.
pub open spec fn run(at: GenerationView, events: Seq<GenerateEventView>) -> Option<
    (GenerationView, Seq<GenerateActionView>),
>
    decreases events.len(),
{
    if events.len() == 0 {
        Some((at, Seq::empty()))
    } else {
        match run(at, events.drop_last()) {
            Some((before, actions)) => match advance(before, events.last()) {
                Some((after, action)) => Some((after, actions.push(action))),
                None => None,
            },
            None => None,
        }
    }
}

/// A block that nothing fails of takes one off the blocks that are left, and ends
/// with its hash.
pub proof fn law_each_block_is_made_in_order(
    ack_all: bool,
    remaining: u32,
    replies: BlockReplies,
)
    requires
        remaining > 0,
    ensures
        run(ready(ack_all, remaining), block_events(replies)) == Some(
            (ready(ack_all, (remaining - 1) as u32), block_actions(ack_all, replies)),
        ),
{
    let at = ready(ack_all, remaining);
    let events = block_events(replies);
    let actions = block_actions(ack_all, replies);
    assert(events.take(0) =~= Seq::empty());
    assert(run(at, events.take(0)) == Some((at, actions.take(0)))) by {
        assert(actions.take(0) =~= Seq::empty());
    }
    assert forall|i: int| 0 < i <= 7 implies #[trigger] events.take(i).drop_last() == events.take(
        i - 1,
    ) && events.take(i).last() == events[i - 1] by {
        assert(events.take(i).drop_last() =~= events.take(i - 1));
    }
    assert forall|i: int| 0 < i <= 7 implies #[trigger] actions.take(i) == actions.take(i - 1).push(
        actions[i - 1],
    ) by {
        assert(actions.take(i) =~= actions.take(i - 1).push(actions[i - 1]));
    }
    assert((run(at, events.take(1))->0).1 == actions.take(1));
    assert((run(at, events.take(2))->0).1 == actions.take(2));
    assert((run(at, events.take(3))->0).1 == actions.take(3));
    assert((run(at, events.take(4))->0).1 == actions.take(4));
    assert((run(at, events.take(5))->0).1 == actions.take(5));
    assert((run(at, events.take(6))->0).1 == actions.take(6));
    assert((run(at, events.take(7))->0).1 == actions.take(7));
    assert(events.take(7) =~= events);
    assert(actions.take(7) =~= actions);
}

/// What is told of blocks, one after the other.
pub open spec fn all_events(blocks: Seq<BlockReplies>) -> Seq<GenerateEventView>
    decreases blocks.len(),
{
    if blocks.len() == 0 {
        Seq::empty()
    } else {
        all_events(blocks.drop_last()) + block_events(blocks.last())
    }
}

/// What is asked for blocks, one after the other.
pub open spec fn all_actions(ack_all: bool, blocks: Seq<BlockReplies>) -> Seq<GenerateActionView>
    decreases blocks.len(),
{
    if blocks.len() == 0 {
        Seq::empty()
    } else {
        all_actions(ack_all, blocks.drop_last()) + block_actions(ack_all, blocks.last())
    }
}

proof fn lemma_run_on(
    at: GenerationView,
    first: Seq<GenerateEventView>,
    rest: Seq<GenerateEventView>,
)
    requires
        run(at, first) is Some,
        run((run(at, first)->0).0, rest) is Some,
    ensures
        run(at, first + rest) == Some(
            (
                (run((run(at, first)->0).0, rest)->0).0,
                (run(at, first)->0).1 + (run((run(at, first)->0).0, rest)->0).1,
            ),
        ),
    decreases rest.len(),
{
    let between = run(at, first)->0;
    if rest.len() == 0 {
        assert(first + rest =~= first);
        assert(between.1 + Seq::<GenerateActionView>::empty() =~= between.1);
    } else {
        lemma_run_on(at, first, rest.drop_last());
        assert((first + rest).drop_last() =~= first + rest.drop_last());
        let before = run(between.0, rest.drop_last())->0;
        let last = advance(before.0, rest.last())->0;
        assert(between.1 + before.1.push(last.1) =~= (between.1 + before.1).push(last.1));
    }
}

/// If nothing fails, as many blocks are made as were to be made, each in order, and
/// then there is none any more.
pub proof fn law_as_many_blocks_are_made_as_asked_for(
    ack_all: bool,
    count: u32,
    blocks: Seq<BlockReplies>,
)
    requires
        blocks.len() == count,
    ensures
        run(ready(ack_all, count), all_events(blocks)) == Some(
            (spent(ack_all), all_actions(ack_all, blocks)),
        ),
        advance(spent(ack_all), GenerateEventView::Next) == Some(
            (spent(ack_all), GenerateActionView::End),
        ),
{
    lemma_blocks(ack_all, count, blocks);
}

proof fn lemma_blocks(ack_all: bool, remaining: u32, blocks: Seq<BlockReplies>)
    requires
        blocks.len() <= remaining,
    ensures
        run(ready(ack_all, remaining), all_events(blocks)) == Some(
            (ready(ack_all, (remaining - blocks.len()) as u32), all_actions(ack_all, blocks)),
        ),
    decreases blocks.len(),
{
    if blocks.len() > 0 {
        lemma_blocks(ack_all, remaining, blocks.drop_last());
        let left = (remaining - (blocks.len() - 1)) as u32;
        law_each_block_is_made_in_order(ack_all, left, blocks.last());
        lemma_run_on(
            ready(ack_all, remaining),
            all_events(blocks.drop_last()),
            block_events(blocks.last()),
        );
    }
}

/// After a failure nothing is made any more.
pub proof fn law_a_failure_ends_the_generation(at: GenerationView)
    requires
        !(at.stage is Next),
    ensures
        advance(at, GenerateEventView::Failed) == Some(
            (spent(at.ack_all), GenerateActionView::Fail),
        ),
        advance(spent(at.ack_all), GenerateEventView::Next) == Some(
            (spent(at.ack_all), GenerateActionView::End),
        ),
{
}

} // verus!
