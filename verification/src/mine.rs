//! Blocks that are mined on regtest.

use vstd::arithmetic::power::pow;
use vstd::arithmetic::power2::pow2;
use vstd::prelude::*;
use crate::consensus::{
    block_bytes, block_hash, byte_of, compute_witness_commitment, header_bytes, hex_digits,
    hex_encode, meets_target, merkle_root, new_op_return, push_int, push_int_script,
    regtest_genesis_bits, serialize_block, target_met, transaction_fits, transaction_root, txids,
    validate_pow, witness_fits, witness_leaves, witness_offset, witness_root,
};
use crate::messages::sha256d_digest;
use crate::types::{
    views, Block, BlockView, Hash256, Header, HeaderView, OutPoint, OutPointView, Transaction,
    TransactionView, TxIn, TxInView, TxOut, TxOutView,
};

verus! {

/// The number of blocks after which the subsidy halves, but on regtest.
pub const SUBSIDY_HALVING_INTERVAL: u32 = 210_000;

/// The number of blocks after which the subsidy halves on regtest.
pub const REGTEST_HALVING_INTERVAL: u32 = 150;

/// The subsidy of the first blocks, in satoshis.
pub const INITIAL_SUBSIDY: u64 = 5_000_000_000;

/// The opcode that pushes nothing.
pub const OP_0: u8 = 0x00;

/// The opcode that makes an output unspendable.
pub const OP_RETURN: u8 = 0x6a;

/// A chain of blocks.
#[derive(Clone, Copy, Debug, PartialEq, Eq, Structural)]
pub enum Network {
    Bitcoin,
    Testnet,
    Testnet4,
    Signet,
    Regtest,
}

/// The number of blocks after which the subsidy halves.
pub open spec fn halving_interval(network: Network) -> int {
    if network == Network::Regtest {
        REGTEST_HALVING_INTERVAL as int
    } else {
        SUBSIDY_HALVING_INTERVAL as int
    }
}

/// How often the subsidy has halved at a height.
pub open spec fn halvings(height: u32, network: Network) -> int {
    if network == Network::Regtest {
        height as int / REGTEST_HALVING_INTERVAL as int
    } else {
        height as int / SUBSIDY_HALVING_INTERVAL as int
    }
}

/// The subsidy of the block at a height, in satoshis: halved once for each
/// interval that has passed, and nothing from the 64th halving on.
pub open spec fn subsidy(height: u32, network: Network) -> int {
    if halvings(height, network) >= 64 {
        0
    } else {
        INITIAL_SUBSIDY as int / pow2(halvings(height, network) as nat) as int
    }
}

/// What a miner may pay out of the block at a height: the fees and the subsidy.
/// The subsidy is the initial one at most.
pub fn get_block_value(height: u32, fees: u64, network: Network) -> (value: u64)
    requires
        fees + subsidy(height, network) <= u64::MAX || fees + INITIAL_SUBSIDY <= u64::MAX,
    ensures
        value == fees + subsidy(height, network),
{
    let interval: u32 = if network == Network::Regtest {
        REGTEST_HALVING_INTERVAL
    } else {
        SUBSIDY_HALVING_INTERVAL
    };
    let halved: u32 = height / interval;
    assert(halved == halvings(height, network));
    if halved >= 64 {
        fees
    } else {
        proof {
            law_subsidy_is_bounded(height, network);
            vstd::bits::lemma_u64_shr_is_div(INITIAL_SUBSIDY, halved as u64);
            assert(INITIAL_SUBSIDY >> halved == INITIAL_SUBSIDY >> halved as u64) by (bit_vector)
                requires
                    halved < 64,
            ;
        }
        fees + (INITIAL_SUBSIDY >> halved)
    }
}

/// The subsidy is the initial one at most.
pub proof fn law_subsidy_is_bounded(height: u32, network: Network)
    ensures
        0 <= subsidy(height, network) <= INITIAL_SUBSIDY,
{
    let halved = halvings(height, network);
    if halved < 64 {
        vstd::arithmetic::power2::lemma_pow2_pos(halved as nat);
        let divisor = pow2(halved as nat) as int;
        assert(0 <= INITIAL_SUBSIDY as int / divisor <= INITIAL_SUBSIDY) by (nonlinear_arith)
            requires
                divisor > 0,
                INITIAL_SUBSIDY == 5_000_000_000,
        ;
    }
}

/// The subsidy halves after each interval, rounded down.
pub proof fn law_subsidy_halves(height: u32, later: u32, network: Network)
    requires
        later == height + halving_interval(network),
    ensures
        subsidy(later, network) == subsidy(height, network) / 2,
{
    let halved = halvings(height, network);
    assert(halvings(later, network) == halved + 1);
    if halved < 64 {
        let divisor = pow2(halved as nat) as int;
        vstd::arithmetic::power2::lemma_pow2_pos(halved as nat);
        vstd::arithmetic::power2::lemma_pow2_unfold((halved + 1) as nat);
        assert(pow2((halved + 1) as nat) == 2 * divisor);
        vstd::arithmetic::div_mod::lemma_div_denominator(INITIAL_SUBSIDY as int, divisor, 2);
        assert(divisor * 2 == 2 * divisor);
        if halved == 63 {
            vstd::arithmetic::power2::lemma2_to64_rest();
            assert(divisor == 0x8000_0000_0000_0000);
            assert(INITIAL_SUBSIDY as int / divisor == 0) by (nonlinear_arith)
                requires
                    divisor > INITIAL_SUBSIDY,
                    INITIAL_SUBSIDY >= 0,
            ;
        }
    }
}

/// The subsidy never rises.
pub proof fn law_subsidy_never_rises(height: u32, later: u32, network: Network)
    requires
        height <= later,
    ensures
        subsidy(later, network) <= subsidy(height, network),
{
    let a = halvings(height, network);
    let b = halvings(later, network);
    assert(a <= b);
    law_subsidy_is_bounded(height, network);
    if b < 64 {
        if a < b {
            vstd::arithmetic::power2::lemma_pow2_strictly_increases(a as nat, b as nat);
        }
        vstd::arithmetic::power2::lemma_pow2_pos(a as nat);
        vstd::arithmetic::div_mod::lemma_div_is_ordered_by_denominator(
            INITIAL_SUBSIDY as int,
            pow2(a as nat) as int,
            pow2(b as nat) as int,
        );
    }
}

/// There is a subsidy until the 33rd halving, and none from then on.
pub proof fn law_subsidy_ends(height: u32, network: Network)
    ensures
        subsidy(height, network) > 0 <==> halvings(height, network) <= 32,
{
    let halved = halvings(height, network);
    vstd::arithmetic::power2::lemma_pow2_pos(halved as nat);
    vstd::arithmetic::power2::lemma2_to64();
    if halved < 64 {
        let p = pow2(halved as nat) as int;
        if halved < 32 {
            vstd::arithmetic::power2::lemma_pow2_strictly_increases(halved as nat, 32);
        } else if halved > 32 {
            vstd::arithmetic::power2::lemma2_to64_rest();
            if halved > 33 {
                vstd::arithmetic::power2::lemma_pow2_strictly_increases(33, halved as nat);
            }
            assert(INITIAL_SUBSIDY as int / p == 0) by (nonlinear_arith)
                requires
                    p > INITIAL_SUBSIDY,
                    INITIAL_SUBSIDY >= 0,
            ;
        }
        if halved <= 32 {
            assert(INITIAL_SUBSIDY as int / p > 0) by (nonlinear_arith)
                requires
                    0 < p <= INITIAL_SUBSIDY,
            ;
        }
    }
}

/// The subsidies of all blocks below a height, in satoshis.
pub open spec fn supply(height: u32, network: Network) -> int
    decreases height,
{
    if height == 0 {
        0
    } else {
        supply((height - 1) as u32, network) + subsidy((height - 1) as u32, network)
    }
}

/// `n`, its half, the half of that and so on, each rounded down, together.
pub open spec fn halves(n: nat) -> nat
    decreases n,
{
    if n == 0 {
        0
    } else {
        n + halves(n / 2)
    }
}

/// All that one block of each interval has as its subsidy, in satoshis.
pub const TOTAL_SUBSIDY: u64 = 9_999_999_989;

/// All subsidies together are at most `TOTAL_SUBSIDY` for each block of an interval.
/// From the 33rd halving on they are just that.
pub proof fn law_supply_is_bounded(height: u32, network: Network)
    ensures
        supply(height, network) <= TOTAL_SUBSIDY * halving_interval(network),
        halvings(height, network) >= 33 ==> supply(height, network) == TOTAL_SUBSIDY
            * halving_interval(network),
{
    let interval = halving_interval(network);
    let now = subsidy(height, network);
    let passed = height as int % interval;
    lemma_supply(height, network);
    lemma_total_subsidy();
    law_subsidy_is_bounded(height, network);
    law_subsidy_ends(height, network);
    let later = halves(now as nat) as int;
    assert(now <= later);
    assert(0 <= passed < interval);
    assert(interval * (TOTAL_SUBSIDY - later) + passed * now <= TOTAL_SUBSIDY * interval)
        by (nonlinear_arith)
        requires
            0 <= passed < interval,
            0 <= now <= later,
    ;
    if halvings(height, network) >= 33 {
        assert(now == 0 && later == 0);
        assert(interval * (TOTAL_SUBSIDY - 0) + passed * 0 == TOTAL_SUBSIDY * interval)
            by (nonlinear_arith);
    }
}

/// What was paid out: whole intervals at the subsidies before the present one, and
/// what has passed of the interval at the present one.
proof fn lemma_supply(height: u32, network: Network)
    ensures
        supply(height, network) == halving_interval(network) * (halves(INITIAL_SUBSIDY as nat)
            - halves(subsidy(height, network) as nat)) + (height as int % halving_interval(
            network,
        )) * subsidy(height, network),
    decreases height,
{
    let interval = halving_interval(network);
    let total = halves(INITIAL_SUBSIDY as nat) as int;
    let now = subsidy(height, network);
    let passed = height as int % interval;
    if height == 0 {
        lemma_first_subsidy(network);
        assert(passed == 0);
        assert(interval * (total - total) + 0 * now == 0) by (nonlinear_arith);
    } else {
        let below = (height - 1) as u32;
        let before = subsidy(below, network);
        lemma_supply(below, network);
        law_subsidy_is_bounded(below, network);
        if passed == 0 {
            let start = (height - interval) as u32;
            assert(below as int % interval == interval - 1);
            assert(halvings(start, network) == halvings(below, network));
            law_subsidy_halves(start, height, network);
            let now_on = halves(now as nat) as int;
            assert(halves(before as nat) == before + now_on);
            assert(interval * (total - (before + now_on)) + (interval - 1) * before + before
                == interval * (total - now_on) + 0 * now) by (nonlinear_arith);
        } else {
            assert(below as int % interval == passed - 1);
            assert(halvings(height, network) == halvings(below, network));
            assert((passed - 1) * now + now == passed * now) by (nonlinear_arith);
        }
    }
}

proof fn lemma_total_subsidy()
    ensures
        halves(INITIAL_SUBSIDY as nat) == TOTAL_SUBSIDY,
{
    assert(halves(298) == 592) by {
        reveal_with_fuel(halves, 10);
    }
    assert(halves(76_293) == 152_580) by {
        reveal_with_fuel(halves, 10);
    }
    assert(halves(19_531_250) == 39_062_489) by {
        reveal_with_fuel(halves, 10);
    }
    assert(halves(5_000_000_000) == 9_999_999_989) by {
        reveal_with_fuel(halves, 10);
    }
}

/// The first block has the initial subsidy.
proof fn lemma_first_subsidy(network: Network)
    ensures
        subsidy(0, network) == INITIAL_SUBSIDY,
{
    vstd::arithmetic::power2::lemma2_to64();
    assert(halvings(0, network) == 0);
    assert(INITIAL_SUBSIDY as int / 1 == INITIAL_SUBSIDY);
}

/// The output that pays the miner of the block at a height, or one that pays
/// nobody where there is nothing to pay.
pub open spec fn reward_output(coinbase_spk: Seq<u8>, height: u32) -> TxOutView {
    let value = subsidy(height, Network::Regtest);
    if value > 0 {
        TxOutView { value: value as u64, script_pubkey: coinbase_spk }
    } else {
        TxOutView { value: 0, script_pubkey: seq![OP_RETURN] }
    }
}

/// The input of a coinbase: it spends nothing, names the height of its block, and
/// has the reserved value as its witness.
pub open spec fn coinbase_input(height: u32) -> TxInView {
    TxInView {
        previous_output: OutPointView { txid: zeroes(), vout: 0xffff_ffff },
        script_sig: push_int_script(height as int) + seq![OP_0],
        sequence: 0xffff_ffff,
        witness: seq![zeroes()],
    }
}

/// The 32 zero bytes.
pub open spec fn zeroes() -> Seq<u8> {
    Seq::new(32, |i: int| 0u8)
}

/// The coinbase of the block after the one at `best_block_height`, before the
/// witness commitment is added.
pub open spec fn coinbase_transaction(
    coinbase_spk: Seq<u8>,
    best_block_height: u32,
    coinbase_outputs: Seq<TxOutView>,
) -> TransactionView {
    let height = (best_block_height + 1) as u32;
    TransactionView {
        version: 2,
        lock_time: 0,
        input: seq![coinbase_input(height)],
        output: seq![reward_output(coinbase_spk, height)] + coinbase_outputs,
    }
}

/// Coinbases of blocks at different heights are different transactions, and differ
/// in more than their witnesses: each names its height in the script of its input.
pub proof fn law_coinbases_differ_between_heights(
    coinbase_spk: Seq<u8>,
    best_block_height: u32,
    coinbase_outputs: Seq<TxOutView>,
    other_spk: Seq<u8>,
    other_height: u32,
    other_outputs: Seq<TxOutView>,
)
    requires
        best_block_height < other_height < u32::MAX,
    ensures
        coinbase_transaction(coinbase_spk, best_block_height, coinbase_outputs).input[0].script_sig
            != coinbase_transaction(other_spk, other_height, other_outputs).input[0].script_sig,
{
    let a = push_int_script(best_block_height + 1);
    let b = push_int_script(other_height + 1);
    if a + seq![OP_0] == b + seq![OP_0] {
        assert(a =~= (a + seq![OP_0]).drop_last());
        assert(b =~= (b + seq![OP_0]).drop_last());
        lemma_push_int_is_injective(best_block_height + 1, other_height + 1);
    }
}

/// Different numbers are pushed by different scripts.
proof fn lemma_push_int_is_injective(a: int, b: int)
    requires
        1 <= a <= u32::MAX,
        1 <= b <= u32::MAX,
        push_int_script(a) == push_int_script(b),
    ensures
        a == b,
{
    let script = push_int_script(a);
    assert(script.len() == push_int_script(b).len());
    if script.len() > 1 {
        assert forall|i: int| 0 <= i < script.len() - 1 implies #[trigger] byte_of(a, i) == byte_of(
            b,
            i,
        ) by {
            assert(script[i + 1] == byte_of(a, i));
            assert(push_int_script(b)[i + 1] == byte_of(b, i));
        }
        lemma_number_of_bytes(a);
        lemma_number_of_bytes(b);
        assert(byte_of(a, 0) == byte_of(b, 0));
        if script.len() > 2 {
            assert(byte_of(a, 1) == byte_of(b, 1));
        }
        if script.len() > 3 {
            assert(byte_of(a, 2) == byte_of(b, 2));
        }
        if script.len() > 4 {
            assert(byte_of(a, 3) == byte_of(b, 3));
        }
    } else {
        assert(script[0] == (0x50 + a) as u8);
        assert(push_int_script(b)[0] == (0x50 + b) as u8);
    }
}

/// A number of 32 bits is made of its four bytes.
proof fn lemma_number_of_bytes(n: int)
    requires
        0 <= n <= u32::MAX,
    ensures
        n == byte_of(n, 0) + 0x100 * byte_of(n, 1) + 0x1_0000 * byte_of(n, 2) + 0x100_0000
            * byte_of(n, 3),
        n < 0x100 ==> byte_of(n, 1) == 0,
        n < 0x1_0000 ==> byte_of(n, 2) == 0,
        n < 0x100_0000 ==> byte_of(n, 3) == 0,
{
    reveal_with_fuel(pow, 5);
    assert(pow(256, 0) == 1);
    assert(pow(256, 1) == 0x100);
    assert(pow(256, 2) == 0x1_0000);
    assert(pow(256, 3) == 0x100_0000);
    assert(n / 1 == n);
    assert(byte_of(n, 0) == n % 256);
    assert(byte_of(n, 1) == (n / 0x100) % 256);
    assert(byte_of(n, 2) == (n / 0x1_0000) % 256);
    assert(byte_of(n, 3) == (n / 0x100_0000) % 256);
}

/// Makes the coinbase of the block after the one at `best_block_height`. It pays
/// to `coinbase_spk`, and has `coinbase_outputs` after that.
pub fn finalize_coinbase(
    coinbase_spk: Vec<u8>,
    best_block_height: u32,
    coinbase_outputs: &Vec<TxOut>,
) -> (coinbase: Transaction)
    requires
        best_block_height < u32::MAX,
    ensures
        coinbase@ == coinbase_transaction(
            coinbase_spk@,
            best_block_height,
            views(coinbase_outputs@),
        ),
{
    let height: u32 = best_block_height + 1;
    let mut script_sig = push_int(height as i64);
    script_sig.push(OP_0);
    assert(script_sig@ =~= push_int_script(height as int) + seq![OP_0]);
    proof {
        law_subsidy_is_bounded(height, Network::Regtest);
    }
    let value = get_block_value(height, 0, Network::Regtest);
    let reward = if value > 0 {
        TxOut { value, script_pubkey: coinbase_spk }
    } else {
        let mut script_pubkey: Vec<u8> = Vec::new();
        script_pubkey.push(OP_RETURN);
        assert(script_pubkey@ =~= seq![OP_RETURN]);
        TxOut { value: 0, script_pubkey }
    };
    let mut output: Vec<TxOut> = Vec::new();
    output.push(reward);
    let mut i: usize = 0;
    while i < coinbase_outputs.len()
        invariant
            i <= coinbase_outputs@.len(),
            output@.len() == i + 1,
            output@[0] == reward,
            forall|j: int| 0 <= j < i ==> #[trigger] output@[j + 1]@ == coinbase_outputs@[j]@,
        decreases coinbase_outputs@.len() - i,
    {
        output.push(coinbase_outputs[i].clone());
        i += 1;
    }
    let zero_bytes: Hash256 = [0u8; 32];
    assert(zero_bytes@ =~= zeroes());
    let mut reserved: Vec<u8> = Vec::new();
    reserved.extend_from_slice(zero_bytes.as_slice());
    assert(reserved@ =~= zeroes());
    let mut witness: Vec<Vec<u8>> = Vec::new();
    witness.push(reserved);
    assert(views(witness@) =~= seq![zeroes()]);
    let input_0 = TxIn {
        previous_output: OutPoint { txid: zero_bytes, vout: 0xffff_ffff },
        script_sig,
        sequence: 0xffff_ffff,
        witness,
    };
    let mut input: Vec<TxIn> = Vec::new();
    input.push(input_0);
    let coinbase = Transaction { version: 2, lock_time: 0, input, output };
    proof {
        let model = coinbase_transaction(
            coinbase_spk@,
            best_block_height,
            views(coinbase_outputs@),
        );
        assert(coinbase@.input =~= model.input);
        assert forall|j: int| 0 <= j < coinbase@.output.len() implies coinbase@.output[j]
            == model.output[j] by {
            if j > 0 {
                assert(output@[(j - 1) + 1]@ == coinbase_outputs@[j - 1]@);
            }
        }
        assert(coinbase@.output =~= model.output);
    }
    coinbase
}

/// The script of the output that carries a witness commitment: the opcode
/// `OP_RETURN`, and a push of four bytes that mark it and the commitment.
pub open spec fn commitment_script(commitment: Seq<u8>) -> Seq<u8> {
    seq![OP_RETURN, 36u8, 0xaau8, 0x21u8, 0xa9u8, 0xedu8] + commitment
}

/// The witness commitment of a block with these transactions.
pub open spec fn witness_commitment(txdata: Seq<TransactionView>) -> Seq<u8> {
    sha256d_digest(merkle_root(witness_leaves(txdata)) + zeroes())
}

/// `coinbase` with an output that carries a witness commitment.
pub open spec fn with_commitment(coinbase: TransactionView, commitment: Seq<u8>) ->
    TransactionView {
    TransactionView {
        output: coinbase.output.push(
            TxOutView { value: 0, script_pubkey: commitment_script(commitment) },
        ),
        ..coinbase
    }
}

/// Adds the output that carries a witness commitment.
pub fn add_commitment(coinbase: Transaction, commitment: &Hash256) -> (committed: Transaction)
    ensures
        committed@ == with_commitment(coinbase@, commitment@),
{
    let mut coinbase = coinbase;
    let ghost outputs = coinbase.output@;
    let mut data: Vec<u8> = Vec::new();
    data.push(0xaa);
    data.push(0x21);
    data.push(0xa9);
    data.push(0xed);
    data.extend_from_slice(commitment.as_slice());
    assert(data@ =~= seq![0xaau8, 0x21u8, 0xa9u8, 0xedu8] + commitment@);
    let script_pubkey = new_op_return(data);
    assert(script_pubkey@ =~= commitment_script(commitment@));
    let output = TxOut { value: 0, script_pubkey };
    coinbase.output.push(output);
    assert(views(coinbase.output@) =~= views(outputs).push(output@));
    coinbase
}

/// `coinbase` with the witness commitment of a block of it and `transactions`.
pub open spec fn committed(coinbase: TransactionView, transactions: Seq<TransactionView>) ->
    TransactionView {
    with_commitment(coinbase, witness_commitment(seq![coinbase] + transactions))
}

/// The block of these transactions, whose ids have this merkle root, after
/// `best_block_hash`, before its nonce is searched.
pub open spec fn headed_block(
    best_block_hash: Seq<u8>,
    timestamp: u64,
    merkle_root: Seq<u8>,
    txdata: Seq<TransactionView>,
) -> BlockView {
    BlockView {
        header: HeaderView {
            version: 0x2000_0000,
            prev_blockhash: best_block_hash,
            merkle_root,
            time: timestamp as u32,
            bits: 0x207f_ffff,
            nonce: 0,
        },
        txdata,
    }
}

/// Makes the block of these transactions, whose ids have this merkle root, after
/// `best_block_hash`.
pub fn head_block(
    best_block_hash: Hash256,
    timestamp: u64,
    merkle_root: Hash256,
    txdata: Vec<Transaction>,
) -> (block: Block)
    ensures
        block@ == headed_block(best_block_hash@, timestamp, merkle_root@, views(txdata@)),
        block.txdata == txdata,
{
    let header = Header {
        version: 0x2000_0000,
        prev_blockhash: best_block_hash,
        merkle_root,
        time: timestamp as u32,
        bits: regtest_genesis_bits(),
        nonce: 0,
    };
    Block { header, txdata }
}

/// The block of `coinbase` and `transactions`, before its nonce is searched.
pub open spec fn unsolved_block(
    best_block_hash: Seq<u8>,
    timestamp: u64,
    coinbase: TransactionView,
    transactions: Seq<TransactionView>,
) -> BlockView {
    let txdata = seq![committed(coinbase, transactions)] + transactions;
    headed_block(best_block_hash, timestamp, merkle_root(txids(txdata)), txdata)
}

/// Makes the block after `best_block_hash`, which is at `best_block_height`: its
/// coinbase as `finalize_coinbase` makes it and with a witness commitment, then
/// `transactions`. `timestamp` is in seconds.
pub fn finalize_block(
    coinbase_spk: Vec<u8>,
    best_block_hash: Hash256,
    best_block_height: u32,
    timestamp: u64,
    coinbase_outputs: &Vec<TxOut>,
    transactions: Vec<Transaction>,
) -> (block: Block)
    requires
        best_block_height < u32::MAX,
        forall|i: int| 0 <= i < transactions@.len() ==> transaction_fits(
            #[trigger] transactions@[i]@,
        ),
    ensures
        block@ == unsolved_block(
            best_block_hash@,
            timestamp,
            coinbase_transaction(coinbase_spk@, best_block_height, views(coinbase_outputs@)),
            views(transactions@),
        ),
        forall|i: int| 0 <= i < block.txdata@.len() ==> transaction_fits(
            #[trigger] block.txdata@[i]@,
        ),
{
    let ghost txs = views(transactions@);
    let coinbase = finalize_coinbase(coinbase_spk, best_block_height, coinbase_outputs);
    let ghost model = coinbase@;
    let mut transactions = transactions;
    let ghost others = transactions@;
    let mut txdata: Vec<Transaction> = Vec::new();
    txdata.push(coinbase);
    txdata.append(&mut transactions);
    assert(txdata@ =~= seq![coinbase] + others);
    assert(views(txdata@) =~= seq![model] + txs);
    let root = witness_root(&txdata).unwrap();
    let reserved: Hash256 = [0u8; 32];
    assert(reserved@ =~= zeroes());
    let commitment = compute_witness_commitment(&root, &reserved);
    let coinbase = add_commitment(txdata.remove(0), &commitment);
    assert(coinbase@ == committed(model, txs));
    txdata.insert(0, coinbase);
    assert(txdata@ =~= seq![coinbase] + others);
    assert(views(txdata@) =~= seq![committed(model, txs)] + txs);
    let merkle_root = transaction_root(&txdata).unwrap();
    proof {
        assert(witness_fits(seq![zeroes()])) by {
            assert(witness_offset(seq![zeroes()], 0) == 0);
        }
        assert(transaction_fits(txdata@[0]@));
        assert forall|i: int| 0 <= i < txdata@.len() implies transaction_fits(
            #[trigger] txdata@[i]@,
        ) by {
            if i > 0 {
                assert(txdata@[i] == others[i - 1]);
            }
        }
    }
    head_block(best_block_hash, timestamp, merkle_root, txdata)
}

/// The witness commitment in a block is that of the block itself, the output that
/// carries it included: it takes the coinbase for zeroes.
pub proof fn law_block_carries_its_own_commitment(
    best_block_hash: Seq<u8>,
    timestamp: u64,
    coinbase: TransactionView,
    transactions: Seq<TransactionView>,
)
    ensures
        ({
            let block = unsolved_block(best_block_hash, timestamp, coinbase, transactions);
            block.txdata[0].output.last() == TxOutView {
                value: 0,
                script_pubkey: commitment_script(witness_commitment(block.txdata)),
            }
        }),
{
    let block = unsolved_block(best_block_hash, timestamp, coinbase, transactions);
    assert(witness_leaves(block.txdata) =~= witness_leaves(seq![coinbase] + transactions));
}

/// `header` with another nonce.
pub open spec fn with_nonce(header: HeaderView, nonce: u32) -> HeaderView {
    HeaderView { nonce, ..header }
}

/// Whether `nonce` is the first above that of `header` with which the header
/// meets its target.
pub open spec fn is_first_solution(header: HeaderView, nonce: u32) -> bool {
    &&& header.nonce < nonce
    &&& meets_target(with_nonce(header, nonce))
    &&& forall|n: u32| header.nonce < n < nonce ==> !meets_target(#[trigger] with_nonce(header, n))
}

/// The first nonce above that of `header` with which it meets its target, if there
/// is one.
pub fn solve(header: &Header) -> (nonce: Option<u32>)
    ensures
        match nonce {
            Some(n) => is_first_solution(header@, n),
            None => forall|n: u32|
                header.nonce < n ==> !meets_target(#[trigger] with_nonce(header@, n)),
        },
{
    let mut attempt = *header;
    while attempt.nonce < u32::MAX
        invariant
            header.nonce <= attempt.nonce,
            attempt@ == with_nonce(header@, attempt.nonce),
            forall|n: u32|
                header.nonce < n <= attempt.nonce ==> !meets_target(
                    #[trigger] with_nonce(header@, n),
                ),
        decreases u32::MAX - attempt.nonce,
    {
        attempt.nonce += 1;
        assert(attempt@ == with_nonce(header@, attempt.nonce));
        if validate_pow(&attempt) {
            return Some(attempt.nonce);
        }
    }
    None
}

/// A block whose header meets its target, as it is handed in.
pub struct MinedBlock {
    pub block: Block,
    /// The serialized block in hexadecimal digits.
    pub submission: String,
    pub block_hash: Hash256,
}

/// Searches the nonce of a block. There is none if no nonce above that of the
/// block is a solution.
pub fn mine(block: Block) -> (mined: Option<MinedBlock>)
    requires
        forall|i: int| 0 <= i < block.txdata@.len() ==> transaction_fits(
            #[trigger] block.txdata@[i]@,
        ),
    ensures
        match mined {
            Some(mined) => {
                &&& is_first_solution(block@.header, mined.block.header.nonce)
                &&& mined.block@ == (BlockView {
                    header: with_nonce(block@.header, mined.block.header.nonce),
                    ..block@
                })
                &&& mined.submission@ == hex_digits(block_bytes(mined.block@))
                &&& mined.block_hash@ == sha256d_digest(header_bytes(mined.block@.header))
                &&& target_met(block.header.bits, mined.block_hash@)
            },
            None => forall|n: u32|
                block.header.nonce < n ==> !meets_target(#[trigger] with_nonce(block@.header, n)),
        },
{
    match solve(&block.header) {
        None => None,
        Some(nonce) => {
            let mut block = block;
            block.header.nonce = nonce;
            let bytes = serialize_block(&block);
            let submission = hex_encode(&bytes);
            let block_hash = block_hash(&block.header);
            Some(MinedBlock { block, submission, block_hash })
        },
    }
}

} // verus!
