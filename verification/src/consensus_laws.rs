//! What is hashed and serialized of transactions and blocks.

use vstd::prelude::*;
use crate::consensus::{
    block_bytes, compact_size, compact_size_len, concat, header_bytes, joined_block,
    transaction_bytes, transaction_fits, txid, txids, without_witness, witness_fits,
    witness_leaves, witness_offset,
};
use crate::messages::sha256d_digest;
use crate::types::{BlockView, TransactionView};

verus! {

/// The leaves of the tree over ids with witnesses: zeroes for the coinbase, and for every
/// other transaction, at any place, the digest of its serialization.
pub proof fn law_leaves_with_witnesses(txdata: Seq<TransactionView>, i: int)
    requires
        0 <= i < txdata.len(),
    ensures
        witness_leaves(txdata).len() == txdata.len(),
        i == 0 ==> witness_leaves(txdata)[i] == Seq::new(32, |j: int| 0u8),
        i > 0 ==> witness_leaves(txdata)[i] == sha256d_digest(transaction_bytes(txdata[i])),
{
}

/// The leaves of the tree over ids are the ids of all transactions, in order.
pub proof fn law_leaves_are_ids(txdata: Seq<TransactionView>, i: int)
    requires
        0 <= i < txdata.len(),
    ensures
        txids(txdata).len() == txdata.len(),
        txids(txdata)[i] == txid(txdata[i]),
{
}

/// Transactions that differ in nothing but their witnesses have the same id.
pub proof fn law_witnesses_take_no_part_in_the_id(tx: TransactionView, other: TransactionView)
    requires
        tx.version == other.version,
        tx.lock_time == other.lock_time,
        tx.output == other.output,
        tx.input.len() == other.input.len(),
        forall|i: int|
            0 <= i < tx.input.len() ==> {
                &&& (#[trigger] tx.input[i]).previous_output == other.input[i].previous_output
                &&& tx.input[i].script_sig == other.input[i].script_sig
                &&& tx.input[i].sequence == other.input[i].sequence
            },
    ensures
        txid(tx) == txid(other),
{
    assert(without_witness(tx).input =~= without_witness(other).input);
}

/// Parts of two lists are put together one list after the other; a single part is itself.
pub proof fn law_parts_are_joined_in_order(
    first: Seq<Seq<u8>>,
    rest: Seq<Seq<u8>>,
    part: Seq<u8>,
)
    ensures
        concat(first + rest) == concat(first) + concat(rest),
        concat(seq![part]) == part,
        concat(Seq::empty()).len() == 0,
    decreases rest.len(),
{
    let none = Seq::<Seq<u8>>::empty();
    assert(seq![part].drop_last() =~= none);
    assert(concat(none) == Seq::<u8>::empty());
    assert(concat(seq![part]) =~= part);
    if rest.len() == 0 {
        assert(first + rest =~= first);
        assert(concat(first) + Seq::<u8>::empty() =~= concat(first));
    } else {
        law_parts_are_joined_in_order(first, rest.drop_last(), part);
        assert((first + rest).drop_last() =~= first + rest.drop_last());
        assert(concat(first + rest) =~= concat(first) + concat(rest));
    }
}

/// A serialized block begins with its header; the number of its transactions and these, one
/// after the other, follow.
pub proof fn law_a_block_is_serialized_in_order(header: Seq<u8>, transactions: Seq<Seq<u8>>)
    requires
        transactions.len() <= u64::MAX,
    ensures
        ({
            let bytes = joined_block(header, transactions);
            let count = compact_size(transactions.len() as u64);
            &&& bytes.len() == header.len() + count.len() + concat(transactions).len()
            &&& bytes.take(header.len() as int) == header
            &&& bytes.subrange(header.len() as int, (header.len() + count.len()) as int) == count
            &&& bytes.skip((header.len() + count.len()) as int) == concat(transactions)
        }),
{
    let bytes = joined_block(header, transactions);
    let count = compact_size(transactions.len() as u64);
    assert(bytes.take(header.len() as int) =~= header);
    assert(bytes.subrange(header.len() as int, (header.len() + count.len()) as int) =~= count);
    assert(bytes.skip((header.len() + count.len()) as int) =~= concat(transactions));
}

/// What is serialized of a block is its header and every one of its transactions, in order.
pub proof fn law_all_of_a_block_is_serialized(block: BlockView)
    ensures
        block_bytes(block) == header_bytes(block.header) + compact_size(block.txdata.len() as u64)
            + concat(Seq::new(block.txdata.len(), |i: int| transaction_bytes(block.txdata[i]))),
{
}

/// How many bytes the first `n` items of a witness have, without their length prefixes.
pub open spec fn item_bytes(witness: Seq<Seq<u8>>, n: nat) -> nat
    decreases n,
{
    if n == 0 {
        0
    } else {
        item_bytes(witness, (n - 1) as nat) + witness[n - 1].len()
    }
}

proof fn lemma_offset(witness: Seq<Seq<u8>>, n: nat, m: nat)
    requires
        n <= m,
    ensures
        item_bytes(witness, n) + n <= witness_offset(witness, n) <= item_bytes(witness, n) + 9 * n,
        item_bytes(witness, n) <= item_bytes(witness, m),
    decreases m,
{
    if n < m {
        lemma_offset(witness, n, (m - 1) as nat);
    } else if n > 0 {
        lemma_offset(witness, (n - 1) as nat, (n - 1) as nat);
        assert(1 <= compact_size_len(witness[n - 1].len()) <= 9);
    }
}

/// A witness whose items have together, with nine bytes more for each, at most 32 bits of
/// bytes fits. Where one fits, the items before the last have no more bytes than that.
pub proof fn law_ordinary_witnesses_fit(witness: Seq<Seq<u8>>)
    ensures
        item_bytes(witness, witness.len()) + 9 * witness.len() <= 0xffff_ffff ==> witness_fits(
            witness,
        ),
        witness_fits(witness) && witness.len() > 0 ==> item_bytes(
            witness,
            (witness.len() - 1) as nat,
        ) + witness.len() - 1 <= 0xffff_ffff,
        witness.len() <= 1 ==> witness_fits(witness),
{
    assert forall|n: nat| n < witness.len() && item_bytes(witness, witness.len()) + 9
        * witness.len() <= 0xffff_ffff implies #[trigger] witness_offset(witness, n)
        <= u32::MAX by {
        lemma_offset(witness, n, witness.len());
    }
    if witness.len() > 0 {
        let last = (witness.len() - 1) as nat;
        lemma_offset(witness, last, last);
        if witness_fits(witness) {
            assert(witness_offset(witness, last) <= u32::MAX);
        }
    }
    assert(witness_offset(witness, 0) == 0);
}

/// A transaction fits if and only if the witness of every input, at any place, fits.
pub proof fn law_a_transaction_fits_if_its_witnesses_do(tx: TransactionView)
    ensures
        transaction_fits(tx) <==> forall|i: int|
            0 <= i < tx.input.len() ==> witness_fits((#[trigger] tx.input[i]).witness),
{
    if transaction_fits(tx) {
        assert forall|i: int| 0 <= i < tx.input.len() implies witness_fits(
            (#[trigger] tx.input[i]).witness,
        ) by {
            assert(witness_fits(tx.input[i].witness));
        }
    }
}

/// An item of a witness begins behind the item before it, which takes its length prefix and
/// its bytes.
pub proof fn law_items_follow_each_other(witness: Seq<Seq<u8>>, n: nat)
    requires
        n < witness.len(),
        witness[n as int].len() <= u64::MAX,
    ensures
        witness_offset(witness, 0) == 0,
        witness_offset(witness, n + 1) == witness_offset(witness, n) + compact_size(
            witness[n as int].len() as u64,
        ).len() + witness[n as int].len(),
{
}

} // verus!
