//! What transactions do to the coins of sidechains.

use vstd::prelude::*;
use crate::consensus::txid;
use crate::ledger::{
    apply_message, connect, connect_coinbase, connect_transaction, connect_transactions, deposit,
    find_drivechain_output, BlockContentsView, ConnectBlockErrorView, DrivechainOutput,
    LedgerView, Outcome, Search,
};
use crate::messages::CoinbaseMessageView;
use crate::types::{OutPointView, TransactionView, TxInView, TxOutView};

verus! {

/// Whether an output has a script that does not begin with `OP_DRIVECHAIN`.
pub open spec fn is_plain(output: TxOutView) -> bool {
    output.script_pubkey.len() > 0 && output.script_pubkey[0] != 0xb4
}

/// Whether an output has the script that holds the coins of this sidechain.
pub open spec fn holds_coins_of(output: TxOutView, sidechain_number: u8) -> bool {
    &&& output.script_pubkey.len() >= 4
    &&& output.script_pubkey[0] == 0xb4
    &&& output.script_pubkey[1] == 0x01
    &&& output.script_pubkey[2] == sidechain_number
    &&& output.script_pubkey[3] == 0x51
}

/// Whether the output at `place` holds the coins of this sidechain and all others are
/// plain.
pub open spec fn pays_once(outputs: Seq<TxOutView>, place: int, sidechain_number: u8) -> bool {
    &&& 0 <= place < outputs.len() <= 0x1_0000_0000
    &&& holds_coins_of(outputs[place], sidechain_number)
    &&& forall|j: int| 0 <= j < outputs.len() && j != place ==> is_plain(#[trigger] outputs[j])
}

/// Plain outputs behind the first ones change nothing about what is found.
proof fn lemma_plain_outputs(outputs: Seq<TxOutView>, n: int)
    requires
        0 <= n <= outputs.len(),
        forall|j: int| n <= j < outputs.len() ==> is_plain(#[trigger] outputs[j]),
    ensures
        find_drivechain_output(outputs) == find_drivechain_output(outputs.take(n)),
    decreases outputs.len() - n,
{
    if n == outputs.len() {
        assert(outputs.take(n) =~= outputs);
    } else {
        let before = outputs.drop_last();
        lemma_plain_outputs(before, n);
        assert(before.take(n) =~= outputs.take(n));
        assert(is_plain(outputs[outputs.len() - 1]));
    }
}

/// What ends the search in the first outputs ends it in all.
proof fn lemma_search_ends(outputs: Seq<TxOutView>, n: int)
    requires
        0 <= n <= outputs.len(),
        !(find_drivechain_output(outputs.take(n)) is Found),
    ensures
        find_drivechain_output(outputs) == find_drivechain_output(outputs.take(n)),
    decreases outputs.len() - n,
{
    if n == outputs.len() {
        assert(outputs.take(n) =~= outputs);
    } else {
        assert(outputs.drop_last().take(n) =~= outputs.take(n));
        lemma_search_ends(outputs.drop_last(), n);
    }
}

proof fn lemma_first_plain(outputs: Seq<TxOutView>, place: int)
    requires
        0 <= place < outputs.len(),
        forall|j: int| 0 <= j < place ==> is_plain(#[trigger] outputs[j]),
    ensures
        find_drivechain_output(outputs.take(place)) == Search::Found(None),
        outputs.take(place + 1).drop_last() == outputs.take(place),
        outputs.take(place + 1).last() == outputs[place],
{
    let before = outputs.take(place);
    assert forall|j: int| 0 <= j < before.len() implies is_plain(#[trigger] before[j]) by {
        assert(before[j] == outputs[j]);
    }
    lemma_plain_outputs(before, 0);
    assert(before.take(0) =~= Seq::empty());
    assert(outputs.take(place + 1).drop_last() =~= before);
}

/// A transaction all of whose outputs are plain changes nothing.
pub proof fn law_plain_transactions_change_nothing(ledger: LedgerView, tx: TransactionView)
    requires
        forall|j: int| 0 <= j < tx.output.len() ==> is_plain(#[trigger] tx.output[j]),
    ensures
        connect_transaction(ledger, tx) == Outcome::Connected(ledger),
{
    lemma_plain_outputs(tx.output, 0);
    assert(tx.output.take(0) =~= Seq::empty());
}

/// An output that holds the coins of a sidechain is found wherever it is, if all others
/// are plain.
pub proof fn law_the_output_is_found_at_any_place(
    outputs: Seq<TxOutView>,
    place: int,
    sidechain_number: u8,
)
    requires
        pays_once(outputs, place, sidechain_number),
    ensures
        find_drivechain_output(outputs) == Search::Found(
            Some(
                DrivechainOutput {
                    vout: place as u32,
                    sidechain_number,
                    value: outputs[place].value,
                },
            ),
        ),
{
    lemma_first_plain(outputs, place);
    lemma_plain_outputs(outputs, place + 1);
}

/// A deposit is connected if any of its inputs, at whatever place and whatever the others
/// are, spends the output that holds the coins of its sidechain, and its own output holds
/// as much or more. That output holds the coins then; nothing else changes.
pub proof fn law_a_deposit_may_spend_the_coins_at_any_place(
    ledger: LedgerView,
    tx: TransactionView,
    place: int,
    sidechain_number: u8,
    k: int,
)
    requires
        pays_once(tx.output, place, sidechain_number),
        ledger.ctips.contains_key(sidechain_number),
        ledger.ctips[sidechain_number].value <= tx.output[place].value,
        0 <= k < tx.input.len(),
        tx.input[k].previous_output == ledger.ctips[sidechain_number].outpoint,
    ensures
        ({
            let outcome = connect_transaction(ledger, tx);
            let after = outcome->Connected_0;
            &&& outcome is Connected
            &&& after.proposals == ledger.proposals
            &&& after.sidechains == ledger.sidechains
            &&& after.bundles == ledger.bundles
            &&& after.ctips.dom() == ledger.ctips.dom()
            &&& after.ctips[sidechain_number].outpoint == OutPointView {
                txid: txid(tx),
                vout: place as u32,
            }
            &&& after.ctips[sidechain_number].value == tx.output[place].value
            &&& forall|n: u8|
                n != sidechain_number && #[trigger] ledger.ctips.contains_key(n) ==> after.ctips[n]
                    == ledger.ctips[n]
        }),
{
    law_the_output_is_found_at_any_place(tx.output, place, sidechain_number);
    let after = connect_transaction(ledger, tx)->Connected_0;
    assert(after.ctips.dom() =~= ledger.ctips.dom());
}

/// A transaction that pays to a sidechain is rejected as not spending its coins if and
/// only if the sidechain has coins and no input, at any place, spends the output that
/// holds them. It is rejected for want of coins if and only if there are none. There is no
/// rule for one that leaves less than there was.
pub proof fn law_a_deposit_is_rejected_only_without_the_coins(
    ledger: LedgerView,
    tx: TransactionView,
    place: int,
    sidechain_number: u8,
)
    requires
        pays_once(tx.output, place, sidechain_number),
    ensures
        ({
            let outcome = connect_transaction(ledger, tx);
            let coins = ledger.ctips.contains_key(sidechain_number);
            let ctip = ledger.ctips[sidechain_number];
            let spent = exists|k: int|
                0 <= k < tx.input.len() && #[trigger] tx.input[k].previous_output == ctip.outpoint;
            &&& outcome == Outcome::Rejected(
                ConnectBlockErrorView::CtipNotSpent { sidechain_number },
            ) <==> coins && !spent
            &&& outcome == Outcome::Rejected(ConnectBlockErrorView::NoCtip { sidechain_number })
                <==> !coins
            &&& outcome is Unsupported <==> coins && spent && tx.output[place].value < ctip.value
            &&& outcome is Connected <==> coins && spent && tx.output[place].value >= ctip.value
        }),
{
    law_the_output_is_found_at_any_place(tx.output, place, sidechain_number);
}

/// A second `OP_DRIVECHAIN` output behind one that holds coins is rejected, whatever
/// follows it.
pub proof fn law_a_second_drivechain_output_is_rejected(
    ledger: LedgerView,
    tx: TransactionView,
    place: int,
    sidechain_number: u8,
    second: int,
)
    requires
        0 <= place < second < tx.output.len(),
        holds_coins_of(tx.output[place], sidechain_number),
        forall|j: int| 0 <= j < second && j != place ==> is_plain(#[trigger] tx.output[j]),
        tx.output[second].script_pubkey.len() > 0,
        tx.output[second].script_pubkey[0] == 0xb4,
    ensures
        connect_transaction(ledger, tx) == Outcome::Rejected(
            ConnectBlockErrorView::MultipleDrivechainOutputs,
        ),
{
    let outputs = tx.output;
    lemma_first_plain(outputs, place);
    let before = outputs.take(second);
    assert forall|j: int| place + 1 <= j < before.len() implies is_plain(#[trigger] before[j]) by {
        assert(before[j] == outputs[j]);
    }
    lemma_plain_outputs(before, place + 1);
    assert(before.take(place + 1) =~= outputs.take(place + 1));
    assert(outputs.take(second + 1).drop_last() =~= before);
    assert(outputs.take(second + 1).last() == outputs[second]);
    lemma_search_ends(outputs, second + 1);
}

/// An `OP_DRIVECHAIN` output of another form is rejected, whatever follows it, if its
/// script is long enough to tell. There is no rule for a script that ends before that, and
/// for one that is empty.
pub proof fn law_a_drivechain_output_of_another_form_is_rejected(
    ledger: LedgerView,
    tx: TransactionView,
    place: int,
)
    requires
        0 <= place < tx.output.len(),
        forall|j: int| 0 <= j < place ==> is_plain(#[trigger] tx.output[j]),
        !is_plain(tx.output[place]),
    ensures
        ({
            let script = tx.output[place].script_pubkey;
            let outcome = connect_transaction(ledger, tx);
            &&& script.len() <= 1 ==> outcome is Unsupported
            &&& script.len() >= 2 && script[1] != 0x01 ==> outcome == Outcome::Rejected(
                ConnectBlockErrorView::InvalidDrivechainOutput,
            )
            &&& 2 <= script.len() <= 3 && script[1] == 0x01 ==> outcome is Unsupported
            &&& script.len() >= 4 && script[1] == 0x01 && script[3] != 0x51 ==> outcome
                == Outcome::Rejected(ConnectBlockErrorView::InvalidDrivechainOutput)
        }),
{
    let outputs = tx.output;
    let script = outputs[place].script_pubkey;
    lemma_first_plain(outputs, place);
    if script.len() <= 3 || script[1] != 0x01 || script[3] != 0x51 {
        lemma_search_ends(outputs, place + 1);
    }
}

/// There is no rule for an output with an empty script behind one that holds coins.
pub proof fn law_an_empty_script_has_no_rule(
    ledger: LedgerView,
    tx: TransactionView,
    place: int,
    sidechain_number: u8,
    empty: int,
)
    requires
        0 <= place < empty < tx.output.len(),
        holds_coins_of(tx.output[place], sidechain_number),
        forall|j: int| 0 <= j < empty && j != place ==> is_plain(#[trigger] tx.output[j]),
        tx.output[empty].script_pubkey.len() == 0,
    ensures
        connect_transaction(ledger, tx) is Unsupported,
{
    let outputs = tx.output;
    lemma_first_plain(outputs, place);
    let before = outputs.take(empty);
    assert forall|j: int| place + 1 <= j < before.len() implies is_plain(#[trigger] before[j]) by {
        assert(before[j] == outputs[j]);
    }
    lemma_plain_outputs(before, place + 1);
    assert(before.take(place + 1) =~= outputs.take(place + 1));
    assert(outputs.take(empty + 1).drop_last() =~= before);
    assert(outputs.take(empty + 1).last() == outputs[empty]);
    lemma_search_ends(outputs, empty + 1);
}

/// A block with one transaction behind its coinbase is that transaction connected; one
/// with one coinbase output is that message applied, or rejected for the reason that there
/// is none; one with neither changes nothing.
pub proof fn law_a_block_is_its_parts(
    ledger: LedgerView,
    tx: TransactionView,
    message: CoinbaseMessageView,
    reason: Seq<char>,
    height: u32,
)
    ensures
        connect(
            ledger,
            BlockContentsView { coinbase: Seq::empty(), transactions: Seq::empty() },
            height,
        ) == Outcome::Connected(ledger),
        connect(
            ledger,
            BlockContentsView { coinbase: Seq::empty(), transactions: seq![tx] },
            height,
        ) == connect_transaction(ledger, tx),
        connect(
            ledger,
            BlockContentsView { coinbase: seq![Ok(message)], transactions: Seq::empty() },
            height,
        ) == (match apply_message(ledger, message, height) {
            Some(after) => Outcome::Connected(after),
            None => Outcome::Unsupported,
        }),
        connect(
            ledger,
            BlockContentsView { coinbase: seq![Err(reason)], transactions: Seq::empty() },
            height,
        ) == Outcome::Rejected(ConnectBlockErrorView::ParseCoinbaseScript(reason)),
{
    let none = Seq::<Result<CoinbaseMessageView, Seq<char>>>::empty();
    let read: Seq<Result<CoinbaseMessageView, Seq<char>>> = seq![Ok(message)];
    let unread: Seq<Result<CoinbaseMessageView, Seq<char>>> = seq![Err(reason)];
    assert(seq![tx].drop_last() =~= Seq::empty());
    assert(read.drop_last() =~= none);
    assert(unread.drop_last() =~= none);
    assert(connect_coinbase(ledger, none, height) == Outcome::Connected(ledger));
    assert(connect_transactions(ledger, Seq::empty()) == Outcome::Connected(ledger));
    assert(connect_transactions(ledger, seq![tx]) == connect_transaction(ledger, tx));
}

/// A block is connected part after part: the outputs of its coinbase in order, then its
/// transactions in order. What is not connected ends it.
pub proof fn law_a_block_is_connected_in_order(
    ledger: LedgerView,
    coinbase: Seq<Result<CoinbaseMessageView, Seq<char>>>,
    more_coinbase: Seq<Result<CoinbaseMessageView, Seq<char>>>,
    txs: Seq<TransactionView>,
    more_txs: Seq<TransactionView>,
    height: u32,
)
    ensures
        connect(
            ledger,
            BlockContentsView {
                coinbase: coinbase + more_coinbase,
                transactions: txs + more_txs,
            },
            height,
        ) == (match connect(
            ledger,
            BlockContentsView { coinbase, transactions: Seq::empty() },
            height,
        ) {
            Outcome::Connected(first) => match connect(
                first,
                BlockContentsView { coinbase: more_coinbase, transactions: txs },
                height,
            ) {
                Outcome::Connected(second) => connect(
                    second,
                    BlockContentsView { coinbase: Seq::empty(), transactions: more_txs },
                    height,
                ),
                other => other,
            },
            other => other,
        }),
{
    crate::ledger_laws::law_coinbase_outputs_are_connected_in_order(
        ledger,
        coinbase,
        more_coinbase,
        height,
    );
    let between = connect_coinbase(ledger, coinbase + more_coinbase, height);
    if between is Connected {
        crate::ledger_laws::law_transactions_are_connected_in_order(
            between->Connected_0,
            txs,
            more_txs,
        );
    }
}

/// An output that pays to a sidechain is connected if and only if the sidechain has coins, any
/// of the inputs spends the output that holds them, and it holds as much or more. It holds
/// the coins then, under the id that is given; nothing else changes.
pub proof fn law_a_deposit_moves_the_coins(
    ledger: LedgerView,
    id: Seq<u8>,
    output: DrivechainOutput,
    inputs: Seq<TxInView>,
)
    ensures
        ({
            let n = output.sidechain_number;
            let outcome = deposit(ledger, id, output, inputs);
            let coins = ledger.ctips.contains_key(n);
            let spent = exists|k: int|
                0 <= k < inputs.len() && #[trigger] inputs[k].previous_output
                    == ledger.ctips[n].outpoint;
            let enough = output.value >= ledger.ctips[n].value;
            let after = outcome->Connected_0;
            &&& !coins ==> outcome == Outcome::Rejected(
                ConnectBlockErrorView::NoCtip { sidechain_number: n },
            )
            &&& coins && !spent ==> outcome == Outcome::Rejected(
                ConnectBlockErrorView::CtipNotSpent { sidechain_number: n },
            )
            &&& coins && spent && !enough ==> outcome is Unsupported
            &&& coins && spent && enough ==> {
                &&& outcome is Connected
                &&& after.proposals == ledger.proposals
                &&& after.sidechains == ledger.sidechains
                &&& after.bundles == ledger.bundles
                &&& after.ctips.dom() == ledger.ctips.dom()
                &&& after.ctips[n].outpoint.txid == id
                &&& after.ctips[n].outpoint.vout == output.vout
                &&& after.ctips[n].value == output.value
                &&& forall|m: u8|
                    m != n && #[trigger] ledger.ctips.contains_key(m) ==> after.ctips[m]
                        == ledger.ctips[m]
            }
        }),
{
    let n = output.sidechain_number;
    if deposit(ledger, id, output, inputs) is Connected {
        assert(deposit(ledger, id, output, inputs)->Connected_0.ctips.dom() =~= ledger.ctips.dom());
    }
}

} // verus!
