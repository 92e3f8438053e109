//! What connecting blocks keeps of the records of sidechains.

use vstd::prelude::*;
use crate::consensus::txid;
use crate::ledger::{
    ack_bundles, ack_sidechain, apply_message, cast_vote, connect, connect_coinbase,
    connect_transactions, find_drivechain_output, listed_votes, propose_sidechain,
    BlockContentsView, LedgerView, Outcome, Search, Vote, USED_THRESHOLD,
};
use crate::messages::{sha256d_digest, CoinbaseMessageView, OP_DRIVECHAIN};
use crate::types::{BundleView, CtipView, OutPointView, TransactionView, TxOutView};

verus! {

/// Whether every proposal is kept under the hash of its data and waits for votes,
/// and every sidechain is kept under its number and had the votes.
pub open spec fn consistent(ledger: LedgerView) -> bool {
    &&& forall|hash: Seq<u8>| #[trigger]
        ledger.proposals.contains_key(hash) ==> sha256d_digest(ledger.proposals[hash].data) == hash
            && ledger.proposals[hash].vote_count <= USED_THRESHOLD
    &&& forall|n: u8| #[trigger]
        ledger.sidechains.contains_key(n) ==> ledger.sidechains[n].sidechain_number == n
            && ledger.sidechains[n].vote_count > USED_THRESHOLD
}

/// Whether no proposal is from a height above this one.
pub open spec fn proposed_by(ledger: LedgerView, height: u32) -> bool {
    forall|hash: Seq<u8>| #[trigger]
        ledger.proposals.contains_key(hash) ==> ledger.proposals[hash].proposal_height <= height
}

/// Whether `after` has the bundles of `before`, in their order and perhaps with
/// other votes, and perhaps more.
pub open spec fn keeps_bundles(before: Seq<BundleView>, after: Seq<BundleView>) -> bool {
    &&& before.len() <= after.len()
    &&& forall|i: int|
        0 <= i < before.len() ==> #[trigger] after[i].bundle_txid == before[i].bundle_txid
}

/// Whether `after` has all that blocks never take away of `before`: the active
/// sidechains, the bundles, and the coins that each sidechain holds.
pub open spec fn grows(before: LedgerView, after: LedgerView) -> bool {
    &&& before.sidechains.dom().subset_of(after.sidechains.dom())
    &&& before.bundles.dom() == after.bundles.dom()
    &&& forall|n: u8| #[trigger]
        before.bundles.contains_key(n) ==> keeps_bundles(before.bundles[n], after.bundles[n])
    &&& before.ctips.dom() == after.ctips.dom()
    &&& forall|n: u8| #[trigger]
        before.ctips.contains_key(n) ==> before.ctips[n].value <= after.ctips[n].value
}

/// What `grows` says of steps, it says of what they come to.
proof fn lemma_grows_twice(a: LedgerView, b: LedgerView, c: LedgerView)
    requires
        grows(a, b),
        grows(b, c),
    ensures
        grows(a, c),
{
    assert forall|n: u8| #[trigger] a.bundles.contains_key(n) implies keeps_bundles(
        a.bundles[n],
        c.bundles[n],
    ) by {
        assert(b.bundles.dom().contains(n));
        assert(b.bundles.contains_key(n));
        assert forall|i: int|
            0 <= i < a.bundles[n].len() implies #[trigger] c.bundles[n][i].bundle_txid
            == a.bundles[n][i].bundle_txid by {
            assert(b.bundles[n][i].bundle_txid == a.bundles[n][i].bundle_txid);
        }
    }
    assert forall|n: u8| #[trigger] a.ctips.contains_key(n) implies a.ctips[n].value
        <= c.ctips[n].value by {
        assert(b.ctips.dom().contains(n));
        assert(b.ctips.contains_key(n));
    }
}

/// A vote keeps the bundles.
proof fn lemma_cast_vote(bundles: Map<u8, Seq<BundleView>>, number: u8, vote: Vote)
    requires
        cast_vote(bundles, number, vote) is Some,
    ensures
        bundles.dom() == cast_vote(bundles, number, vote)->0.dom(),
        forall|n: u8| #[trigger]
            bundles.contains_key(n) ==> keeps_bundles(
                bundles[n],
                cast_vote(bundles, number, vote)->0[n],
            ),
{
    let after = cast_vote(bundles, number, vote)->0;
    assert(bundles.dom() =~= after.dom());
}

/// Votes keep the bundles.
proof fn lemma_ack_bundles(bundles: Map<u8, Seq<BundleView>>, votes: Seq<Vote>)
    requires
        ack_bundles(bundles, votes) is Some,
    ensures
        bundles.dom() == ack_bundles(bundles, votes)->0.dom(),
        forall|n: u8| #[trigger]
            bundles.contains_key(n) ==> keeps_bundles(
                bundles[n],
                ack_bundles(bundles, votes)->0[n],
            ),
    decreases votes.len(),
{
    if votes.len() > 0 {
        let before = ack_bundles(bundles, votes.drop_last())->0;
        lemma_ack_bundles(bundles, votes.drop_last());
        let number = ((votes.len() - 1) % 256) as u8;
        lemma_cast_vote(before, number, votes.last());
        let after = ack_bundles(bundles, votes)->0;
        assert forall|n: u8| #[trigger] bundles.contains_key(n) implies keeps_bundles(
            bundles[n],
            after[n],
        ) by {
            assert(before.dom().contains(n));
            assert(before.contains_key(n));
            assert forall|i: int|
                0 <= i < bundles[n].len() implies #[trigger] after[n][i].bundle_txid
                == bundles[n][i].bundle_txid by {
                assert(before[n][i].bundle_txid == bundles[n][i].bundle_txid);
            }
        }
    }
}

/// A coinbase message keeps what a block keeps.
proof fn lemma_message(ledger: LedgerView, message: CoinbaseMessageView, height: u32)
    requires
        apply_message(ledger, message, height) is Some,
    ensures
        grows(ledger, apply_message(ledger, message, height)->0),
        consistent(ledger) ==> consistent(apply_message(ledger, message, height)->0),
        proposed_by(ledger, height) ==> proposed_by(
            apply_message(ledger, message, height)->0,
            height,
        ),
{
    let after = apply_message(ledger, message, height)->0;
    if let CoinbaseMessageView::M4AckBundles(m4) = message {
        lemma_ack_bundles(ledger.bundles, listed_votes(m4)->0);
    }
    assert(ledger.bundles.dom() =~= after.bundles.dom());
    assert(ledger.ctips.dom() =~= after.ctips.dom());
}

/// The outputs of a coinbase keep what a block keeps.
proof fn lemma_coinbase(
    ledger: LedgerView,
    coinbase: Seq<Result<CoinbaseMessageView, Seq<char>>>,
    height: u32,
)
    requires
        connect_coinbase(ledger, coinbase, height) is Connected,
    ensures
        grows(ledger, connect_coinbase(ledger, coinbase, height)->Connected_0),
        consistent(ledger) ==> consistent(
            connect_coinbase(ledger, coinbase, height)->Connected_0,
        ),
        proposed_by(ledger, height) ==> proposed_by(
            connect_coinbase(ledger, coinbase, height)->Connected_0,
            height,
        ),
    decreases coinbase.len(),
{
    if coinbase.len() > 0 {
        lemma_coinbase(ledger, coinbase.drop_last(), height);
        let before = connect_coinbase(ledger, coinbase.drop_last(), height)->Connected_0;
        lemma_message(before, coinbase.last()->Ok_0, height);
        lemma_grows_twice(
            ledger,
            before,
            connect_coinbase(ledger, coinbase, height)->Connected_0,
        );
    }
}

/// Transactions change nothing but the outputs that hold the coins of sidechains,
/// and keep what a block keeps.
proof fn lemma_transactions(ledger: LedgerView, txs: Seq<TransactionView>)
    requires
        connect_transactions(ledger, txs) is Connected,
    ensures
        grows(ledger, connect_transactions(ledger, txs)->Connected_0),
        connect_transactions(ledger, txs)->Connected_0 == (LedgerView {
            ctips: connect_transactions(ledger, txs)->Connected_0.ctips,
            ..ledger
        }),
    decreases txs.len(),
{
    if txs.len() > 0 {
        lemma_transactions(ledger, txs.drop_last());
        let before = connect_transactions(ledger, txs.drop_last())->Connected_0;
        let after = connect_transactions(ledger, txs)->Connected_0;
        assert(before.ctips.dom() =~= after.ctips.dom());
        assert(grows(before, after));
        lemma_grows_twice(ledger, before, after);
    }
}

/// A block that is connected takes away no active sidechain and no bundle, and no
/// coins from a sidechain. It begins no sidechain's bundles and no sidechain's
/// holdings.
pub proof fn law_blocks_take_nothing_away(
    ledger: LedgerView,
    block: BlockContentsView,
    height: u32,
)
    requires
        connect(ledger, block, height) is Connected,
    ensures
        grows(ledger, connect(ledger, block, height)->Connected_0),
{
    lemma_coinbase(ledger, block.coinbase, height);
    let before = connect_coinbase(ledger, block.coinbase, height)->Connected_0;
    lemma_transactions(before, block.transactions);
    lemma_grows_twice(ledger, before, connect(ledger, block, height)->Connected_0);
}

/// A block that is connected leaves every proposal under the hash of its data and
/// short of the votes that it needs, and every sidechain with those votes.
pub proof fn law_blocks_keep_consistency(
    ledger: LedgerView,
    block: BlockContentsView,
    height: u32,
)
    requires
        consistent(ledger),
        connect(ledger, block, height) is Connected,
    ensures
        consistent(connect(ledger, block, height)->Connected_0),
{
    lemma_coinbase(ledger, block.coinbase, height);
    let before = connect_coinbase(ledger, block.coinbase, height)->Connected_0;
    lemma_transactions(before, block.transactions);
}

/// The records that there are at first are consistent.
pub proof fn law_empty_records_are_consistent(height: u32)
    ensures
        consistent(
            LedgerView {
                proposals: Map::empty(),
                bundles: Map::empty(),
                sidechains: Map::empty(),
                ctips: Map::empty(),
            },
        ),
        proposed_by(
            LedgerView {
                proposals: Map::empty(),
                bundles: Map::empty(),
                sidechains: Map::empty(),
                ctips: Map::empty(),
            },
            height,
        ),
{
}

/// A block that is connected at a height leaves no proposal from above it, if
/// there was none.
pub proof fn law_proposals_come_from_connected_heights(
    ledger: LedgerView,
    block: BlockContentsView,
    height: u32,
)
    requires
        proposed_by(ledger, height),
        connect(ledger, block, height) is Connected,
    ensures
        proposed_by(connect(ledger, block, height)->Connected_0, height),
{
    lemma_coinbase(ledger, block.coinbase, height);
    let before = connect_coinbase(ledger, block.coinbase, height)->Connected_0;
    lemma_transactions(before, block.transactions);
}

/// While blocks are connected at heights that do not fall, there is a rule for
/// every vote for a proposal.
pub proof fn law_votes_for_proposals_are_counted(
    ledger: LedgerView,
    sidechain_number: u8,
    hash: Seq<u8>,
    height: u32,
)
    requires
        consistent(ledger),
        proposed_by(ledger, height),
    ensures
        ack_sidechain(ledger, sidechain_number, hash, height) is Some,
{
}

/// Proposing the same data again, for whatever number and at whatever height,
/// changes nothing.
pub proof fn law_second_proposal_changes_nothing(
    ledger: LedgerView,
    data: Seq<u8>,
    number: u8,
    height: u32,
    other_number: u8,
    other_height: u32,
)
    ensures
        ({
            let proposed = propose_sidechain(ledger, number, data, height);
            propose_sidechain(proposed, other_number, data, other_height) == proposed
        }),
{
}

/// The outputs of a coinbase are connected one after the other: those that follow
/// meet the records that the first leave, and nothing follows an output that is
/// not connected.
pub proof fn law_coinbase_outputs_are_connected_in_order(
    ledger: LedgerView,
    first: Seq<Result<CoinbaseMessageView, Seq<char>>>,
    rest: Seq<Result<CoinbaseMessageView, Seq<char>>>,
    height: u32,
)
    ensures
        connect_coinbase(ledger, first + rest, height) == (match connect_coinbase(
            ledger,
            first,
            height,
        ) {
            Outcome::Connected(between) => connect_coinbase(between, rest, height),
            other => other,
        }),
    decreases rest.len(),
{
    if rest.len() == 0 {
        assert(first + rest =~= first);
    } else {
        law_coinbase_outputs_are_connected_in_order(ledger, first, rest.drop_last(), height);
        assert((first + rest).drop_last() =~= first + rest.drop_last());
    }
}

/// Transactions are connected one after the other: those that follow meet the
/// records that the first leave, and nothing follows one that is not connected.
pub proof fn law_transactions_are_connected_in_order(
    ledger: LedgerView,
    first: Seq<TransactionView>,
    rest: Seq<TransactionView>,
)
    ensures
        connect_transactions(ledger, first + rest) == (match connect_transactions(ledger, first) {
            Outcome::Connected(between) => connect_transactions(between, rest),
            other => other,
        }),
    decreases rest.len(),
{
    if rest.len() == 0 {
        assert(first + rest =~= first);
    } else {
        law_transactions_are_connected_in_order(ledger, first, rest.drop_last());
        assert((first + rest).drop_last() =~= first + rest.drop_last());
    }
}

/// Whether an output is an `OP_DRIVECHAIN` output.
pub open spec fn is_drivechain(output: TxOutView) -> bool {
    output.script_pubkey.len() > 0 && output.script_pubkey[0] == OP_DRIVECHAIN
}

/// A transaction is accepted with at most one `OP_DRIVECHAIN` output: where the
/// search finds none there is none, and where it finds one there is no other.
pub proof fn law_drivechain_output_is_the_only_one(outputs: Seq<TxOutView>)
    requires
        find_drivechain_output(outputs) is Found,
        outputs.len() <= u32::MAX,
    ensures
        match find_drivechain_output(outputs)->Found_0 {
            None => forall|i: int| 0 <= i < outputs.len() ==> !is_drivechain(#[trigger] outputs[i]),
            Some(output) => {
                &&& output.vout < outputs.len()
                &&& output.value == outputs[output.vout as int].value
                &&& forall|i: int|
                    0 <= i < outputs.len() ==> (is_drivechain(#[trigger] outputs[i]) <==> i
                        == output.vout)
            },
        },
    decreases outputs.len(),
{
    if outputs.len() > 0 {
        let before = outputs.drop_last();
        law_drivechain_output_is_the_only_one(before);
        assert forall|i: int| 0 <= i < before.len() implies #[trigger] outputs[i] == before[i] by {
        }
    }
}

/// Whether `tx` has an `OP_DRIVECHAIN` output for this sidechain.
pub open spec fn pays_to(tx: TransactionView, sidechain_number: u8) -> bool {
    match find_drivechain_output(tx.output) {
        Search::Found(Some(output)) => output.sidechain_number == sidechain_number,
        _ => false,
    }
}

/// After transactions that are connected, the coins of a sidechain are in the
/// `OP_DRIVECHAIN` output of the last of them that has one for it. Where none has
/// one, the coins are where they were.
pub proof fn law_coins_are_in_the_last_drivechain_output(
    ledger: LedgerView,
    txs: Seq<TransactionView>,
    sidechain_number: u8,
    last: int,
)
    requires
        connect_transactions(ledger, txs) is Connected,
        -1 <= last < txs.len(),
        last >= 0 ==> pays_to(txs[last], sidechain_number),
        forall|i: int| last < i < txs.len() ==> !pays_to(#[trigger] txs[i], sidechain_number),
    ensures
        ({
            let after = connect_transactions(ledger, txs)->Connected_0;
            if last >= 0 {
                let output = find_drivechain_output(txs[last].output)->Found_0->0;
                &&& after.ctips.contains_key(sidechain_number)
                &&& after.ctips[sidechain_number] == CtipView {
                    outpoint: OutPointView { txid: txid(txs[last]), vout: output.vout },
                    value: output.value,
                }
            } else {
                &&& after.ctips.contains_key(sidechain_number) == ledger.ctips.contains_key(
                    sidechain_number,
                )
                &&& after.ctips[sidechain_number] == ledger.ctips[sidechain_number]
            }
        }),
    decreases txs.len(),
{
    if txs.len() > 0 && last < txs.len() - 1 {
        let before = txs.drop_last();
        assert forall|i: int| last < i < before.len() implies !pays_to(
            #[trigger] before[i],
            sidechain_number,
        ) by {
            assert(before[i] == txs[i]);
        }
        law_coins_are_in_the_last_drivechain_output(ledger, before, sidechain_number, last);
        assert(!pays_to(txs[txs.len() - 1], sidechain_number));
    }
}

/// The outputs of a coinbase leave the coins of all sidechains where they are.
pub proof fn law_coinbase_leaves_the_coins(
    ledger: LedgerView,
    coinbase: Seq<Result<CoinbaseMessageView, Seq<char>>>,
    height: u32,
)
    requires
        connect_coinbase(ledger, coinbase, height) is Connected,
    ensures
        connect_coinbase(ledger, coinbase, height)->Connected_0.ctips == ledger.ctips,
    decreases coinbase.len(),
{
    if coinbase.len() > 0 {
        law_coinbase_leaves_the_coins(ledger, coinbase.drop_last(), height);
    }
}

/// Whether every proposal is short of the votes that it needs.
pub open spec fn all_short(ledger: LedgerView) -> bool {
    forall|hash: Seq<u8>| #[trigger]
        ledger.proposals.contains_key(hash) ==> ledger.proposals[hash].vote_count
            <= USED_THRESHOLD
}

/// Whether every sidechain of `after` is as in `before`, or came with the vote that it
/// needed at this height.
pub open spec fn activated_at(before: LedgerView, after: LedgerView, height: u32) -> bool {
    forall|n: u8| #[trigger]
        after.sidechains.contains_key(n) ==> {
            ||| before.sidechains.contains_key(n) && after.sidechains[n] == before.sidechains[n]
            ||| after.sidechains[n].vote_count == USED_THRESHOLD + 1
                && after.sidechains[n].activation_height == height
        }
}

proof fn lemma_activations(
    ledger: LedgerView,
    coinbase: Seq<Result<CoinbaseMessageView, Seq<char>>>,
    height: u32,
)
    requires
        all_short(ledger),
        connect_coinbase(ledger, coinbase, height) is Connected,
    ensures
        all_short(connect_coinbase(ledger, coinbase, height)->Connected_0),
        activated_at(ledger, connect_coinbase(ledger, coinbase, height)->Connected_0, height),
    decreases coinbase.len(),
{
    if coinbase.len() > 0 {
        lemma_activations(ledger, coinbase.drop_last(), height);
        let before = connect_coinbase(ledger, coinbase.drop_last(), height)->Connected_0;
        let after = connect_coinbase(ledger, coinbase, height)->Connected_0;
        assert(all_short(after));
        assert(activated_at(before, after, height));
    }
}

/// Where every proposal is short of the votes that it needs, a sidechain that a block
/// adds or replaces has one vote more than the threshold and the height of the block
/// as that of its activation. The proposals are short of votes afterwards too.
pub proof fn law_sidechains_are_activated_by_the_vote_they_need(
    ledger: LedgerView,
    block: BlockContentsView,
    height: u32,
)
    requires
        all_short(ledger),
        connect(ledger, block, height) is Connected,
    ensures
        activated_at(ledger, connect(ledger, block, height)->Connected_0, height),
        all_short(connect(ledger, block, height)->Connected_0),
{
    lemma_activations(ledger, block.coinbase, height);
    lemma_transactions(
        connect_coinbase(ledger, block.coinbase, height)->Connected_0,
        block.transactions,
    );
}

} // verus!
