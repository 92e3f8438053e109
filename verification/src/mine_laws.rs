//! What the blocks that are mined hold.

use vstd::prelude::*;
use crate::consensus::{
    header_bytes, le_number, meets_target, merkle_root, push_int_script, target, transaction_bytes,
    txid, txids, witness_leaves,
};
use crate::messages::sha256d_digest;
use crate::mine::{
    coinbase_transaction, halvings, headed_block, is_first_solution, law_subsidy_halves,
    law_subsidy_is_bounded, subsidy, unsolved_block, with_commitment, with_nonce, Network,
};
use crate::types::{HeaderView, TransactionView, TxOutView};

verus! {

/// Before the first halving, which is at 150 on regtest and at 210000 elsewhere, the
/// subsidy is fifty coins. So many blocks later it is half of what it was, rounded down.
pub proof fn law_subsidy_by_height(height: u32, later: u32, network: Network)
    ensures
        ({
            let interval = if network == Network::Regtest {
                150int
            } else {
                210_000
            };
            &&& height < interval ==> subsidy(height, network) == 5_000_000_000
            &&& later == height + interval ==> subsidy(later, network) == subsidy(height, network)
                / 2
        }),
{
    vstd::arithmetic::power2::lemma2_to64();
    let interval = if network == Network::Regtest {
        150int
    } else {
        210_000
    };
    if height < interval {
        assert(halvings(height, network) == 0);
        assert(5_000_000_000int / 1 == 5_000_000_000);
    }
    if later == height + interval {
        law_subsidy_halves(height, later, network);
    }
}

/// The first output of a coinbase pays the subsidy of the height after the best block to
/// the wallet, or nothing to nobody where there is none. The others are those that were
/// handed in, in order.
pub proof fn law_a_coinbase_pays_the_subsidy(
    coinbase_spk: Seq<u8>,
    best_block_height: u32,
    coinbase_outputs: Seq<TxOutView>,
)
    requires
        best_block_height < u32::MAX,
    ensures
        ({
            let height = (best_block_height + 1) as u32;
            let output = coinbase_transaction(
                coinbase_spk,
                best_block_height,
                coinbase_outputs,
            ).output;
            &&& output.len() == coinbase_outputs.len() + 1
            &&& output[0].value == subsidy(height, Network::Regtest)
            &&& output[0].value > 0 ==> output[0].script_pubkey == coinbase_spk
            &&& output[0].value == 0 ==> output[0].script_pubkey == seq![0x6au8]
            &&& forall|j: int|
                0 <= j < coinbase_outputs.len() ==> #[trigger] output[j + 1] == coinbase_outputs[j]
        }),
{
    law_subsidy_is_bounded((best_block_height + 1) as u32, Network::Regtest);
}

/// What the first output of a coinbase pays is fifty coins up to height 149, and 150 blocks
/// later half of what it was, rounded down.
pub proof fn law_the_reward_of_a_coinbase_halves(
    coinbase_spk: Seq<u8>,
    best_block_height: u32,
    coinbase_outputs: Seq<TxOutView>,
    later_spk: Seq<u8>,
    later_outputs: Seq<TxOutView>,
)
    requires
        best_block_height < u32::MAX - 150,
    ensures
        ({
            let now = coinbase_transaction(coinbase_spk, best_block_height, coinbase_outputs);
            let later = coinbase_transaction(
                later_spk,
                (best_block_height + 150) as u32,
                later_outputs,
            );
            &&& best_block_height < 149 ==> now.output[0].value == 5_000_000_000
            &&& later.output[0].value == now.output[0].value as int / 2
        }),
{
    let height = (best_block_height + 1) as u32;
    let later = (best_block_height + 151) as u32;
    law_subsidy_by_height(height, later, Network::Regtest);
    law_subsidy_is_bounded(height, Network::Regtest);
    law_subsidy_is_bounded(later, Network::Regtest);
}

/// What a coinbase is besides its outputs: of version two, without a lock time, with one
/// input that spends nothing, names the height, and has 32 zero bytes as its witness.
pub proof fn law_a_coinbase_spends_nothing(
    coinbase_spk: Seq<u8>,
    best_block_height: u32,
    coinbase_outputs: Seq<TxOutView>,
)
    requires
        best_block_height < u32::MAX,
    ensures
        ({
            let coinbase = coinbase_transaction(coinbase_spk, best_block_height, coinbase_outputs);
            &&& coinbase.version == 2
            &&& coinbase.lock_time == 0
            &&& coinbase.input.len() == 1
            &&& coinbase.input[0].previous_output.vout == 0xffff_ffff
            &&& coinbase.input[0].previous_output.txid == Seq::new(32, |i: int| 0u8)
            &&& coinbase.input[0].sequence == 0xffff_ffff
            &&& coinbase.input[0].script_sig == push_int_script(best_block_height + 1).push(0u8)
            &&& coinbase.input[0].witness == seq![Seq::new(32, |i: int| 0u8)]
        }),
{
    assert(push_int_script(best_block_height + 1) + seq![0u8] =~= push_int_script(
        best_block_height + 1,
    ).push(0u8));
}

/// What a block is made of: the coinbase with one output more, then the transactions in
/// order. That output pays nothing and carries, behind six fixed bytes, the digest of the
/// root over the ids with witnesses, zeroes for the coinbase, and of 32 zero bytes. The
/// header names the block before, the time in seconds up to 32 bits, and the root over the
/// ids of all transactions.
pub proof fn law_what_a_block_is_made_of(
    best_block_hash: Seq<u8>,
    timestamp: u64,
    coinbase: TransactionView,
    transactions: Seq<TransactionView>,
)
    ensures
        ({
            let block = unsolved_block(best_block_hash, timestamp, coinbase, transactions);
            let first = block.txdata[0];
            let leaves = Seq::new(
                transactions.len() + 1,
                |i: int|
                    if i == 0 {
                        Seq::new(32, |j: int| 0u8)
                    } else {
                        sha256d_digest(transaction_bytes(transactions[i - 1]))
                    },
            );
            &&& block.txdata.len() == transactions.len() + 1
            &&& forall|i: int|
                0 <= i < transactions.len() ==> #[trigger] block.txdata[i + 1] == transactions[i]
            &&& first.version == coinbase.version
            &&& first.lock_time == coinbase.lock_time
            &&& first.input == coinbase.input
            &&& first.output.len() == coinbase.output.len() + 1
            &&& first.output.drop_last() == coinbase.output
            &&& first.output.last().value == 0
            &&& first.output.last().script_pubkey == seq![
                0x6au8,
                0x24u8,
                0xaau8,
                0x21u8,
                0xa9u8,
                0xedu8,
            ] + sha256d_digest(merkle_root(leaves) + Seq::new(32, |j: int| 0u8))
            &&& block.header.version == 0x2000_0000
            &&& block.header.prev_blockhash == best_block_hash
            &&& block.header.merkle_root == merkle_root(
                Seq::new(block.txdata.len(), |i: int| txid(block.txdata[i])),
            )
            &&& block.header.time == timestamp as int % 0x1_0000_0000
            &&& block.header.bits == 0x207f_ffff
            &&& block.header.nonce == 0
        }),
{
    let block = unsolved_block(best_block_hash, timestamp, coinbase, transactions);
    let all = seq![coinbase] + transactions;
    let leaves = Seq::new(
        transactions.len() + 1,
        |i: int|
            if i == 0 {
                Seq::new(32, |j: int| 0u8)
            } else {
                sha256d_digest(transaction_bytes(transactions[i - 1]))
            },
    );
    assert(witness_leaves(all) =~= leaves);
    assert(block.txdata[0].output.drop_last() =~= coinbase.output);
    assert(txids(block.txdata) =~= Seq::new(
        block.txdata.len(),
        |i: int| txid(block.txdata[i]),
    ));
    assert(timestamp as u32 == timestamp % 0x1_0000_0000) by (bit_vector);
}

/// An output that carries a commitment comes last, pays nothing, and has the commitment
/// behind six fixed bytes. All else of the coinbase is as it was.
pub proof fn law_a_commitment_comes_last(coinbase: TransactionView, commitment: Seq<u8>)
    ensures
        ({
            let after = with_commitment(coinbase, commitment);
            &&& after.version == coinbase.version
            &&& after.lock_time == coinbase.lock_time
            &&& after.input == coinbase.input
            &&& after.output.len() == coinbase.output.len() + 1
            &&& after.output.drop_last() == coinbase.output
            &&& after.output.last().value == 0
            &&& after.output.last().script_pubkey == seq![
                0x6au8,
                0x24u8,
                0xaau8,
                0x21u8,
                0xa9u8,
                0xedu8,
            ] + commitment
        }),
{
    assert(with_commitment(coinbase, commitment).output.drop_last() =~= coinbase.output);
}

/// A header with another nonce has that nonce and is else the same.
pub proof fn law_another_nonce_changes_nothing_else(header: HeaderView, nonce: u32)
    ensures
        with_nonce(header, nonce).nonce == nonce,
        with_nonce(header, nonce).version == header.version,
        with_nonce(header, nonce).prev_blockhash == header.prev_blockhash,
        with_nonce(header, nonce).merkle_root == header.merkle_root,
        with_nonce(header, nonce).time == header.time,
        with_nonce(header, nonce).bits == header.bits,
{
}

/// A solution is above the nonce of the header, meets the target as a number with the low
/// byte first, and is the lowest of all that do.
pub proof fn law_the_first_solution_is_the_lowest(header: HeaderView, nonce: u32, other: u32)
    requires
        is_first_solution(header, nonce),
    ensures
        header.nonce < nonce,
        le_number(sha256d_digest(header_bytes(HeaderView { nonce, ..header }))) <= target(
            header.bits,
        ),
        header.nonce < other && le_number(
            sha256d_digest(header_bytes(HeaderView { nonce: other, ..header })),
        ) <= target(header.bits) ==> nonce <= other,
{
    assert(meets_target(with_nonce(header, nonce)));
    if header.nonce < other < nonce {
        assert(!meets_target(with_nonce(header, other)));
    }
}

/// The header of a block has the block before, the time up to 32 bits and the root that are
/// given; its transactions are those that are given.
pub proof fn law_a_header_has_what_is_given(
    best_block_hash: Seq<u8>,
    timestamp: u64,
    root: Seq<u8>,
    txdata: Seq<TransactionView>,
)
    ensures
        ({
            let block = headed_block(best_block_hash, timestamp, root, txdata);
            &&& block.txdata == txdata
            &&& block.header.version == 0x2000_0000
            &&& block.header.prev_blockhash == best_block_hash
            &&& block.header.merkle_root == root
            &&& block.header.time == timestamp as int % 0x1_0000_0000
            &&& block.header.bits == 0x207f_ffff
            &&& block.header.nonce == 0
        }),
{
    assert(timestamp as u32 == timestamp % 0x1_0000_0000) by (bit_vector);
}

} // verus!
