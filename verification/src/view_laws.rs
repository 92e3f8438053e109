//! What the views of values show of them: all of it.

use vstd::prelude::*;
use crate::bip300::FoundOutput;
use crate::coinbase::{DraftAction, DraftActionView, DraftEvent, DraftEventView};
use crate::generate::{GenerateAction, GenerateActionView, GenerateEvent, GenerateEventView};
use crate::ledger::{BlockContents, ConnectBlockError, ConnectBlockErrorView, Search};
use crate::messages::{CoinbaseMessage, CoinbaseMessageView, M4AckBundles, M4AckBundlesView};
use crate::select::{Payout, SelectAction, SelectActionView, SelectEvent, SelectEventView};
use crate::types::{
    views, Block, BmmRequest, Bundle, BundleId, BundleProposal, Ctip, Header, OutPoint, Sidechain,
    SidechainAck, SidechainBundles, SidechainDescription, SidechainProposal, Transaction, TxIn,
    TxOut,
};

verus! {

/// The views of a list are as many as there are items, each at its place.
pub proof fn law_views_are_those_of_the_items<T: View>(items: Seq<T>, i: int)
    ensures
        views(items).len() == items.len(),
        0 <= i < items.len() ==> views(items)[i] == items[i]@,
{
}

/// Outputs are told apart by their transaction and their place in it.
pub proof fn law_outpoints_are_told_apart(a: OutPoint, b: OutPoint)
    ensures
        a@ == b@ <==> a.txid@ == b.txid@ && a.vout == b.vout,
{
}

/// The view of a transaction shows its fields, all its inputs and all its outputs.
pub proof fn law_view_of_transaction(tx: Transaction, input: TxIn, output: TxOut, i: int)
    ensures
        tx@.version == tx.version,
        tx@.lock_time == tx.lock_time,
        tx@.input.len() == tx.input@.len(),
        tx@.output.len() == tx.output@.len(),
        0 <= i < tx.input@.len() ==> tx@.input[i] == tx.input@[i]@,
        0 <= i < tx.output@.len() ==> tx@.output[i] == tx.output@[i]@,
        input@.previous_output.txid == input.previous_output.txid@,
        input@.previous_output.vout == input.previous_output.vout,
        input@.script_sig == input.script_sig@,
        input@.sequence == input.sequence,
        input@.witness.len() == input.witness@.len(),
        0 <= i < input.witness@.len() ==> input@.witness[i] == input.witness@[i]@,
        output@.value == output.value,
        output@.script_pubkey == output.script_pubkey@,
{
}

/// The view of a block shows its header and all its transactions.
pub proof fn law_view_of_block(block: Block, header: Header, i: int)
    ensures
        block@.header == block.header@,
        block@.txdata.len() == block.txdata@.len(),
        0 <= i < block.txdata@.len() ==> block@.txdata[i] == block.txdata@[i]@,
        header@.version == header.version,
        header@.prev_blockhash == header.prev_blockhash@,
        header@.merkle_root == header.merkle_root@,
        header@.time == header.time,
        header@.bits == header.bits,
        header@.nonce == header.nonce,
{
}

/// The views of what is recorded of sidechains show all fields.
pub proof fn law_view_of_records(
    proposal: SidechainProposal,
    sidechain: Sidechain,
    bundle: Bundle,
    ctip: Ctip,
)
    ensures
        proposal@.sidechain_number == proposal.sidechain_number,
        proposal@.data == proposal.data@,
        proposal@.vote_count == proposal.vote_count,
        proposal@.proposal_height == proposal.proposal_height,
        sidechain@.sidechain_number == sidechain.sidechain_number,
        sidechain@.data == sidechain.data@,
        sidechain@.vote_count == sidechain.vote_count,
        sidechain@.proposal_height == sidechain.proposal_height,
        sidechain@.activation_height == sidechain.activation_height,
        bundle@.bundle_txid == bundle.bundle_txid@,
        bundle@.vote_count == bundle.vote_count,
        ctip@.outpoint.txid == ctip.outpoint.txid@,
        ctip@.outpoint.vout == ctip.outpoint.vout,
        ctip@.value == ctip.value,
{
}

/// The views of what the wallet lists show all fields and all items.
pub proof fn law_view_of_wallet_lists(
    ack: SidechainAck,
    description: SidechainDescription,
    request: BmmRequest,
    bundle: BundleProposal,
    list: SidechainBundles,
    id: BundleId,
    payout: Payout,
    i: int,
)
    ensures
        ack@.sidechain_number == ack.sidechain_number,
        ack@.description_hash == ack.description_hash@,
        description@.sidechain_number == description.sidechain_number,
        description@.description == description.description@,
        request@.sidechain_number == request.sidechain_number,
        request@.bmm_hash == request.bmm_hash@,
        bundle@.m6id == bundle.m6id@,
        bundle@.fee == bundle.fee,
        bundle@.payout == bundle.payout,
        bundle@.vote_count == bundle.vote_count,
        list@.sidechain_number == list.sidechain_number,
        list@.bundles.len() == list.bundles@.len(),
        0 <= i < list.bundles@.len() ==> list@.bundles[i] == list.bundles@[i]@,
        id@.sidechain_number == id.sidechain_number,
        id@.m6id == id.m6id@,
        payout@.sidechain_number == payout.sidechain_number,
        payout@.m6id == payout.m6id@,
        payout@.fee == payout.fee,
        payout@.payout == payout.payout,
        payout@.first == payout.first,
{
}

/// The view of a coinbase message shows what it says, with all its votes.
pub proof fn law_view_of_messages(message: CoinbaseMessage, m4: M4AckBundles)
    ensures
        message matches CoinbaseMessage::M1ProposeSidechain { sidechain_number, data } ==> message@
            == (CoinbaseMessageView::M1ProposeSidechain { sidechain_number, data: data@ }),
        message matches CoinbaseMessage::M2AckSidechain { sidechain_number, data_hash } ==> message@
            == (CoinbaseMessageView::M2AckSidechain { sidechain_number, data_hash: data_hash@ }),
        message matches CoinbaseMessage::M3ProposeBundle { sidechain_number, bundle_txid }
            ==> message@ == (CoinbaseMessageView::M3ProposeBundle {
            sidechain_number,
            bundle_txid: bundle_txid@,
        }),
        message matches CoinbaseMessage::M4AckBundles(votes) ==> message@
            == CoinbaseMessageView::M4AckBundles(votes@),
        m4 is LeadingBy50 ==> m4@ is LeadingBy50,
        m4 is RepeatPrevious ==> m4@ is RepeatPrevious,
        m4 matches M4AckBundles::OneByte { upvotes } ==> m4@ == (M4AckBundlesView::OneByte {
            upvotes: upvotes@,
        }),
        m4 matches M4AckBundles::TwoBytes { upvotes } ==> m4@ == (M4AckBundlesView::TwoBytes {
            upvotes: upvotes@,
        }),
{
}

/// The view of what is read of a block shows every coinbase output and every transaction;
/// that of an error shows which it is.
pub proof fn law_view_of_block_contents(
    contents: BlockContents,
    error: ConnectBlockError,
    found: FoundOutput,
    i: int,
)
    ensures
        contents@.coinbase.len() == contents.coinbase@.len(),
        contents@.transactions.len() == contents.transactions@.len(),
        0 <= i < contents.transactions@.len() ==> contents@.transactions[i]
            == contents.transactions@[i]@,
        0 <= i < contents.coinbase@.len() ==> (match contents.coinbase@[i] {
            Ok(message) => contents@.coinbase[i] is Ok && contents@.coinbase[i]->Ok_0 == message@,
            Err(reason) => contents@.coinbase[i] is Err && contents@.coinbase[i]->Err_0 == reason@,
        }),
        error matches ConnectBlockError::ParseCoinbaseScript(reason) ==> error@
            == ConnectBlockErrorView::ParseCoinbaseScript(reason@),
        error is MultipleDrivechainOutputs <==> error@ is MultipleDrivechainOutputs,
        error is InvalidDrivechainOutput <==> error@ is InvalidDrivechainOutput,
        error matches ConnectBlockError::NoCtip { sidechain_number } ==> error@ == (
        ConnectBlockErrorView::NoCtip { sidechain_number }),
        error matches ConnectBlockError::CtipNotSpent { sidechain_number } ==> error@ == (
        ConnectBlockErrorView::CtipNotSpent { sidechain_number }),
        found matches FoundOutput::Found(output) ==> found@ == Search::Found(output),
        found matches FoundOutput::Rejected(reason) ==> found@ == Search::Rejected(reason@),
        found is Unsupported ==> found@ is Unsupported,
{
}

/// The view of what a draft asks for shows which it is and all that it carries.
pub proof fn law_view_of_draft_actions(action: DraftAction)
    ensures
        match action {
            DraftAction::ListOurProposals => action@ is ListOurProposals,
            DraftAction::ProposeSidechains(list) => action@ == DraftActionView::ProposeSidechains(
                views(list@),
            ),
            DraftAction::ListAcks => action@ is ListAcks,
            DraftAction::ListActiveProposals => action@ is ListActiveProposals,
            DraftAction::StoreAcks(list) => action@ == DraftActionView::StoreAcks(views(list@)),
            DraftAction::ValidateAck { ack, active } => action@ == (DraftActionView::ValidateAck {
                ack: ack@,
                active: views(active@),
            }),
            DraftAction::DeleteAck(ack) => action@ == DraftActionView::DeleteAck(ack@),
            DraftAction::AckSidechain(ack) => action@ == DraftActionView::AckSidechain(ack@),
            DraftAction::ListBmmRequests { tip } => action@ == (DraftActionView::ListBmmRequests {
                tip: tip@,
            }),
            DraftAction::AcceptBmm(list) => action@ == DraftActionView::AcceptBmm(views(list@)),
            DraftAction::ListBundleProposals => action@ is ListBundleProposals,
            DraftAction::ProposeBundles(list) => action@ == DraftActionView::ProposeBundles(
                views(list@),
            ),
            DraftAction::CountAcks => action@ is CountAcks,
            DraftAction::ListActiveSidechains => action@ is ListActiveSidechains,
            DraftAction::CheckPendingWithdrawals(number) => action@
                == DraftActionView::CheckPendingWithdrawals(number),
            DraftAction::AckBundles(upvotes) => action@ == DraftActionView::AckBundles(upvotes@),
            DraftAction::Build => action@ is Build,
            DraftAction::Fail => action@ is Fail,
        },
{
}

/// The view of what a draft is told shows which it is and all that it carries.
pub proof fn law_view_of_draft_events(event: DraftEvent)
    ensures
        match event {
            DraftEvent::OurProposals(list) => event@ == DraftEventView::OurProposals(views(list@)),
            DraftEvent::Done => event@ is Done,
            DraftEvent::Acks(list) => event@ == DraftEventView::Acks(views(list@)),
            DraftEvent::ActiveProposals(list) => event@ == DraftEventView::ActiveProposals(
                views(list@),
            ),
            DraftEvent::AckIsValid(valid) => event@ == DraftEventView::AckIsValid(valid),
            DraftEvent::BmmRequests(list) => event@ == DraftEventView::BmmRequests(views(list@)),
            DraftEvent::BundleProposals(list) => event@ == DraftEventView::BundleProposals(
                views(list@),
            ),
            DraftEvent::AckCount(count) => event@ == DraftEventView::AckCount(count),
            DraftEvent::ActiveSidechains(list) => event@ == DraftEventView::ActiveSidechains(
                list@,
            ),
            DraftEvent::WithdrawalsPending(pending) => event@
                == DraftEventView::WithdrawalsPending(pending),
            DraftEvent::Failed => event@ is Failed,
        },
{
}

/// The views of what a selection asks for and is told show which they are and all that they
/// carry.
pub proof fn law_view_of_selection(action: SelectAction, event: SelectEvent)
    ensures
        match action {
            SelectAction::ListBundleProposals => action@ is ListBundleProposals,
            SelectAction::ReadCtip(number) => action@ == SelectActionView::ReadCtip(number),
            SelectAction::MakeM6 { sidechain_number, m6id, ctip } => action@ == (
            SelectActionView::MakeM6 { sidechain_number, m6id: m6id@, ctip: ctip@ }),
            SelectAction::ListMempool => action@ is ListMempool,
            SelectAction::FetchTransaction(id) => action@ == SelectActionView::FetchTransaction(
                id@,
            ),
            SelectAction::Finish(txs) => action@ == SelectActionView::Finish(views(txs@)),
            SelectAction::Fail => action@ is Fail,
        },
        match event {
            SelectEvent::BundleProposals(list) => event@ == SelectEventView::BundleProposals(
                views(list@),
            ),
            SelectEvent::Ctip(ctip) => event@ == SelectEventView::Ctip(ctip@),
            SelectEvent::M6(tx) => event@ == SelectEventView::M6(tx@),
            SelectEvent::Mempool(ids) => event@ == SelectEventView::Mempool(views(ids@)),
            SelectEvent::Transaction(tx) => event@ == SelectEventView::Transaction(tx@),
            SelectEvent::Failed => event@ is Failed,
        },
{
}

/// The views of what a generation asks for and is told show which they are and all that they
/// carry.
pub proof fn law_view_of_generation(action: GenerateAction, event: GenerateEvent)
    ensures
        match action {
            GenerateAction::ReadTip => action@ is ReadTip,
            GenerateAction::GenerateTxouts { tip, ack_all } => action@ == (
            GenerateActionView::GenerateTxouts { tip: tip@, ack_all }),
            GenerateAction::SelectTxs => action@ is SelectTxs,
            GenerateAction::Mine { txouts, transactions } => action@ == (GenerateActionView::Mine {
                txouts: views(txouts@),
                transactions: views(transactions@),
            }),
            GenerateAction::DeleteProposals => action@ is DeleteProposals,
            GenerateAction::DeleteBmmRequests { tip } => action@ == (
            GenerateActionView::DeleteBmmRequests { tip: tip@ }),
            GenerateAction::Yield { block_hash } => action@ == (GenerateActionView::Yield {
                block_hash: block_hash@,
            }),
            GenerateAction::NotSynced => action@ is NotSynced,
            GenerateAction::Fail => action@ is Fail,
            GenerateAction::End => action@ is End,
        },
        match event {
            GenerateEvent::Next => event@ is Next,
            GenerateEvent::Tip(None) => event@ == GenerateEventView::Tip(None),
            GenerateEvent::Tip(Some(tip)) => event@ == GenerateEventView::Tip(Some(tip@)),
            GenerateEvent::Txouts(list) => event@ == GenerateEventView::Txouts(views(list@)),
            GenerateEvent::Txs(list) => event@ == GenerateEventView::Txs(views(list@)),
            GenerateEvent::Mined(block_hash) => event@ == GenerateEventView::Mined(block_hash@),
            GenerateEvent::Done => event@ is Done,
            GenerateEvent::Failed => event@ is Failed,
        },
{
}

} // verus!
