//! Hashes and serializations of transactions, headers and blocks.

use bitcoin::absolute::LockTime;
use bitcoin::transaction::Version;
use bitcoin::{Amount, OutPoint, ScriptBuf, Sequence, Witness};
use vstd::arithmetic::power::pow;
use vstd::prelude::*;
use crate::messages::{sha256d, sha256d_digest};
use crate::types::{
    views, Block, BlockView, Hash256, Header, HeaderView, Transaction,
    TransactionView, TxInView,
};

verus! {

/// The byte of `n` at place `i`, counted from the lowest.
pub open spec fn byte_of(n: int, i: int) -> u8 {
    ((n / pow(256, i as nat)) % 256) as u8
}

/// The lowest `len` bytes of `n`, low byte first.
pub open spec fn le_bytes(n: int, len: nat) -> Seq<u8> {
    Seq::new(len, |i: int| byte_of(n, i))
}

/// The number that `bytes` stand for, low byte first.
pub open spec fn le_number(bytes: Seq<u8>) -> int
    decreases bytes.len(),
{
    if bytes.len() == 0 {
        0
    } else {
        le_number(bytes.drop_last()) + bytes.last() * pow(256, (bytes.len() - 1) as nat)
    }
}

/// How many bytes the length prefix `n` takes.
pub open spec fn compact_size_len(n: nat) -> nat {
    if n < 0xfd {
        1
    } else if n <= 0xffff {
        3
    } else if n <= 0xffff_ffff {
        5
    } else {
        9
    }
}

/// The length prefix `n`: one byte, or a mark and two, four or eight bytes, low
/// byte first.
pub open spec fn compact_size(n: u64) -> Seq<u8> {
    if n < 0xfd {
        seq![n as u8]
    } else if n <= 0xffff {
        seq![0xfdu8] + le_bytes(n as int, 2)
    } else if n <= 0xffff_ffff {
        seq![0xfeu8] + le_bytes(n as int, 4)
    } else {
        seq![0xffu8] + le_bytes(n as int, 8)
    }
}

/// How many bytes the first `n` items of a witness take, each with its length
/// prefix.
pub open spec fn witness_offset(witness: Seq<Seq<u8>>, n: nat) -> nat
    decreases n,
{
    if n == 0 {
        0
    } else {
        let len = witness[n - 1].len();
        witness_offset(witness, (n - 1) as nat) + compact_size_len(len) + len
    }
}

/// Whether every item of the witness begins at an offset of at most 32 bits, as
/// in every witness that exists.
pub open spec fn witness_fits(witness: Seq<Seq<u8>>) -> bool {
    forall|n: nat| n < witness.len() ==> #[trigger] witness_offset(witness, n) <= u32::MAX
}

/// Whether the witnesses of `tx` are such as can exist.
pub open spec fn transaction_fits(tx: TransactionView) -> bool {
    forall|i: int| 0 <= i < tx.input.len() ==> witness_fits(#[trigger] tx.input[i].witness)
}

/// Whether the witness is such as can exist.
fn check_witness(witness: &Vec<Vec<u8>>) -> (fits: bool)
    ensures
        fits == witness_fits(views(witness@)),
{
    let ghost items = views(witness@);
    let mut offset: u64 = 0;
    let mut n: usize = 0;
    while n < witness.len()
        invariant
            n <= witness@.len(),
            items == views(witness@),
            n < witness@.len() ==> offset == witness_offset(items, n as nat),
            forall|k: nat| k < n ==> #[trigger] witness_offset(items, k) <= u32::MAX,
        decreases witness@.len() - n,
    {
        if offset > u32::MAX as u64 {
            assert(witness_offset(items, n as nat) > u32::MAX);
            return false;
        }
        let len = witness[n].len();
        assert(items[n as int].len() == len);
        if n + 1 < witness.len() {
            assert(witness_offset(items, (n + 1) as nat) == offset + compact_size_len(len as nat)
                + len);
            if len as u64 > u32::MAX as u64 {
                assert(witness_offset(items, (n + 1) as nat) > u32::MAX);
                return false;
            }
            let prefix: u64 = if len < 0xfd {
                1
            } else if len <= 0xffff {
                3
            } else {
                5
            };
            offset = offset + prefix + len as u64;
        }
        n += 1;
    }
    true
}

/// Whether the witnesses of `tx` are such as can exist.
pub fn check_transaction(tx: &Transaction) -> (fits: bool)
    ensures
        fits == transaction_fits(tx@),
{
    let mut i: usize = 0;
    while i < tx.input.len()
        invariant
            i <= tx.input@.len(),
            forall|j: int| 0 <= j < i ==> witness_fits(#[trigger] tx@.input[j].witness),
        decreases tx.input@.len() - i,
    {
        if !check_witness(&tx.input[i].witness) {
            assert(!witness_fits(tx@.input[i as int].witness));
            return false;
        }
        i += 1;
    }
    true
}

/// `tx` with empty witnesses.
pub open spec fn without_witness(tx: TransactionView) -> TransactionView {
    TransactionView {
        input: Seq::new(
            tx.input.len(),
            |i: int| TxInView { witness: Seq::empty(), ..tx.input[i] },
        ),
        ..tx
    }
}

/// The id of a transaction with empty witnesses: what
/// `bitcoin::Transaction::compute_txid` returns for it.
pub uninterp spec fn stripped_txid(tx: TransactionView) -> Seq<u8>;

/// The id of `tx`. Its witnesses take no part in it.
pub open spec fn txid(tx: TransactionView) -> Seq<u8> {
    stripped_txid(without_witness(tx))
}

/// Calls `bitcoin::Transaction::compute_txid`. The contract claims that the id
/// is a function of the transaction without its witnesses, which are not handed
/// to the call.
#[verifier::external_body]
pub(crate) fn compute_txid(tx: &Transaction) -> (id: Hash256)
    ensures
        id@ == stripped_txid(without_witness(tx@)),
{
    bitcoin::hashes::Hash::to_byte_array(bitcoin::Transaction {
        version: Version(tx.version),
        lock_time: LockTime::from_consensus(tx.lock_time),
        input: tx.input.iter().map(|i| bitcoin::TxIn {
            previous_output: OutPoint::new(bitcoin::hashes::Hash::from_byte_array(
                i.previous_output.txid), i.previous_output.vout),
            script_sig: ScriptBuf::from_bytes(i.script_sig.clone()),
            sequence: Sequence(i.sequence),
            witness: Witness::new(),
        }).collect(),
        output: tx.output.iter().map(|o| bitcoin::TxOut {
            value: Amount::from_sat(o.value),
            script_pubkey: ScriptBuf::from_bytes(o.script_pubkey.clone()),
        }).collect(),
    }.compute_txid())
}

/// The serialization of `tx`: what `bitcoin::consensus::serialize` returns for
/// it.
pub uninterp spec fn transaction_bytes(tx: TransactionView) -> Seq<u8>;

/// Calls `bitcoin::consensus::serialize` on a transaction. The contract claims
/// that the serialization is a function of the transaction.
#[verifier::external_body]
pub(crate) fn serialize_transaction(tx: &Transaction) -> (bytes: Vec<u8>)
    requires
        transaction_fits(tx@),
    ensures
        bytes@ == transaction_bytes(tx@),
{
    bitcoin::consensus::serialize(&bitcoin::Transaction {
        version: Version(tx.version),
        lock_time: LockTime::from_consensus(tx.lock_time),
        input: tx.input.iter().map(|i| bitcoin::TxIn {
            previous_output: OutPoint::new(bitcoin::hashes::Hash::from_byte_array(
                i.previous_output.txid), i.previous_output.vout),
            script_sig: ScriptBuf::from_bytes(i.script_sig.clone()),
            sequence: Sequence(i.sequence),
            witness: Witness::from_slice(&i.witness),
        }).collect(),
        output: tx.output.iter().map(|o| bitcoin::TxOut {
            value: Amount::from_sat(o.value),
            script_pubkey: ScriptBuf::from_bytes(o.script_pubkey.clone()),
        }).collect(),
    })
}

/// The serialization of `header`: its fields in order, the numbers in four bytes,
/// low byte first.
pub open spec fn header_bytes(header: HeaderView) -> Seq<u8> {
    le_bytes(header.version as u32 as int, 4) + header.prev_blockhash + header.merkle_root
        + le_bytes(header.time as int, 4) + le_bytes(header.bits as int, 4) + le_bytes(
        header.nonce as int,
        4,
    )
}

/// Calls `bitcoin::consensus::serialize` on a header. The contract claims that
/// this is the fields in order, the numbers in four bytes, low byte first.
#[verifier::external_body]
pub(crate) fn serialize_header(header: &Header) -> (bytes: Vec<u8>)
    ensures
        bytes@ == header_bytes(header@),
{
    bitcoin::consensus::serialize(&bitcoin::block::Header {
        version: bitcoin::block::Version::from_consensus(header.version),
        prev_blockhash: bitcoin::hashes::Hash::from_byte_array(header.prev_blockhash),
        merkle_root: bitcoin::hashes::Hash::from_byte_array(header.merkle_root),
        time: header.time,
        bits: bitcoin::CompactTarget::from_consensus(header.bits),
        nonce: header.nonce,
    })
}

/// Calls `bitcoin::consensus::serialize` on a `bitcoin::consensus::encode::VarInt`.
/// The contract claims that this is the length prefix `n`.
#[verifier::external_body]
pub(crate) fn serialize_compact_size(n: u64) -> (bytes: Vec<u8>)
    ensures
        bytes@ == compact_size(n),
{
    bitcoin::consensus::serialize(&bitcoin::consensus::encode::VarInt(n))
}

/// The target that `bits` stands for. The high byte says how many bytes the target
/// has, the others are the highest three of them; a sign in these makes it zero.
/// A size past the 256 bits of a target wraps around.
pub open spec fn target(bits: u32) -> int {
    let size = bits as int / 0x100_0000;
    let digits = bits as int % 0x100_0000;
    let mantissa = if size <= 3 {
        digits / pow(256, (3 - size) as nat)
    } else {
        digits
    };
    if mantissa > 0x7f_ffff {
        0
    } else if size <= 3 {
        mantissa
    } else {
        (mantissa * pow(256, ((size - 3) % 32) as nat)) % pow(256, 32)
    }
}

/// Whether `hash`, as a number, is at most the target that `bits` stands for.
pub open spec fn target_met(bits: u32, hash: Seq<u8>) -> bool {
    le_number(hash) <= target(bits)
}

/// Calls `bitcoin::block::Header::validate_pow` with the header's own target. The
/// contract claims that it accepts a header if the double SHA-256 digest of the
/// serialized header, as a number with the low byte first, is at most the target
/// that the bits of the header stand for.
#[verifier::external_body]
pub(crate) fn validate_pow(header: &Header) -> (valid: bool)
    ensures
        valid == target_met(header.bits, sha256d_digest(header_bytes(header@))),
{
    let header = bitcoin::block::Header {
        version: bitcoin::block::Version::from_consensus(header.version),
        prev_blockhash: bitcoin::hashes::Hash::from_byte_array(header.prev_blockhash),
        merkle_root: bitcoin::hashes::Hash::from_byte_array(header.merkle_root),
        time: header.time,
        bits: bitcoin::CompactTarget::from_consensus(header.bits),
        nonce: header.nonce,
    };
    header.validate_pow(header.target()).is_ok()
}

/// Whether the hash of `header` is at most the target that its bits stand for.
pub open spec fn meets_target(header: HeaderView) -> bool {
    target_met(header.bits, sha256d_digest(header_bytes(header)))
}

/// Calls `bitcoin::block::Header::block_hash`. The contract claims that this is
/// the double SHA-256 digest of the serialized header.
#[verifier::external_body]
pub(crate) fn block_hash(header: &Header) -> (hash: Hash256)
    ensures
        hash@ == sha256d_digest(header_bytes(header@)),
{
    let header = bitcoin::block::Header {
        version: bitcoin::block::Version::from_consensus(header.version),
        prev_blockhash: bitcoin::hashes::Hash::from_byte_array(header.prev_blockhash),
        merkle_root: bitcoin::hashes::Hash::from_byte_array(header.merkle_root),
        time: header.time,
        bits: bitcoin::CompactTarget::from_consensus(header.bits),
        nonce: header.nonce,
    };
    bitcoin::hashes::Hash::to_byte_array(header.block_hash())
}

/// The nodes of a merkle tree above `hashes`: the digest of each two in turn, the
/// last taken twice if it is left over.
pub open spec fn merkle_parents(hashes: Seq<Seq<u8>>) -> Seq<Seq<u8>> {
    Seq::new(
        (hashes.len() + 1) / 2,
        |i: int|
            if 2 * i + 1 < hashes.len() {
                sha256d_digest(hashes[2 * i] + hashes[2 * i + 1])
            } else {
                sha256d_digest(hashes[2 * i] + hashes[2 * i])
            },
    )
}

/// The root of the merkle tree over a list of hashes that is not empty.
pub open spec fn merkle_root(hashes: Seq<Seq<u8>>) -> Seq<u8>
    decreases hashes.len(),
{
    if hashes.len() <= 1 {
        hashes[0]
    } else {
        merkle_root(merkle_parents(hashes))
    }
}

/// Calls `bitcoin::merkle_tree::calculate_root_inline`. The contract claims that
/// there is a root unless there are no hashes, and that it is what is left of the
/// hashes after two at a time were replaced by their digest, over and over.
#[verifier::external_body]
pub(crate) fn calculate_root(hashes: &Vec<Hash256>) -> (root: Option<Hash256>)
    ensures
        root is Some <==> hashes@.len() > 0,
        root is Some ==> root->0@ == merkle_root(views(hashes@)),
{
    let mut nodes: Vec<bitcoin::Txid> = hashes.iter().map(
        |hash| bitcoin::hashes::Hash::from_byte_array(*hash)).collect();
    bitcoin::merkle_tree::calculate_root_inline(&mut nodes).map(
        |root| bitcoin::hashes::Hash::to_byte_array(root))
}

/// Calls `bitcoin::Block::compute_witness_commitment`. The contract claims that
/// this is the double SHA-256 digest of the root followed by the reserved value.
#[verifier::external_body]
pub(crate) fn compute_witness_commitment(witness_root: &Hash256, reserved: &Hash256) -> (commitment:
    Hash256)
    ensures
        commitment@ == sha256d_digest(witness_root@ + reserved@),
{
    let root: bitcoin::WitnessMerkleNode = bitcoin::hashes::Hash::from_byte_array(*witness_root);
    let commitment = bitcoin::Block::compute_witness_commitment(&root, reserved);
    bitcoin::hashes::Hash::to_byte_array(commitment)
}

/// The script that pushes `n`: an opcode for a small number, else the length of
/// the shortest signed form of `n` and that form, low byte first.
pub open spec fn push_int_script(n: int) -> Seq<u8> {
    if n <= 16 {
        seq![(0x50 + n) as u8]
    } else {
        let len: nat = if n <= 0x7f {
            1
        } else if n <= 0x7fff {
            2
        } else if n <= 0x7f_ffff {
            3
        } else if n <= 0x7fff_ffff {
            4
        } else {
            5
        };
        seq![len as u8] + le_bytes(n, len)
    }
}

/// Calls `bitcoin::script::Builder::push_int`. The contract claims what is pushed
/// for numbers of 32 bits other than zero.
#[verifier::external_body]
pub(crate) fn push_int(n: i64) -> (script: Vec<u8>)
    requires
        1 <= n <= u32::MAX,
    ensures
        script@ == push_int_script(n as int),
{
    bitcoin::script::Builder::new().push_int(n).into_script().into_bytes()
}

/// Calls `bitcoin::ScriptBuf::new_op_return`. The contract claims that the script
/// is the opcode `OP_RETURN`, the length of the data and the data, for data whose
/// length is pushed by one byte.
#[verifier::external_body]
pub(crate) fn new_op_return(data: Vec<u8>) -> (script: Vec<u8>)
    requires
        data@.len() <= 75,
    ensures
        script@ == seq![0x6au8, data@.len() as u8] + data@,
{
    let data = bitcoin::script::PushBytesBuf::try_from(data).unwrap();
    bitcoin::ScriptBuf::new_op_return(data).into_bytes()
}

/// Calls `bitcoin::constants::genesis_block` for regtest, for the target of its
/// header. The contract claims which it is.
#[verifier::external_body]
pub(crate) fn regtest_genesis_bits() -> (bits: u32)
    ensures
        bits == 0x207f_ffff,
{
    bitcoin::constants::genesis_block(bitcoin::Network::Regtest).header.bits.to_consensus()
}

/// The lower-case hexadecimal digit of `n`.
pub open spec fn hex_digit(n: int) -> char {
    if n < 10 {
        ('0' as int + n) as char
    } else {
        ('a' as int + n - 10) as char
    }
}

/// Two digits for each of `bytes`, the high one first.
pub open spec fn hex_digits(bytes: Seq<u8>) -> Seq<char> {
    Seq::new(
        2 * bytes.len(),
        |i: int|
            if i % 2 == 0 {
                hex_digit(bytes[i / 2] as int / 16)
            } else {
                hex_digit(bytes[i / 2] as int % 16)
            },
    )
}

/// Calls `hex::encode`. The contract claims that it writes each byte as two
/// lower-case hexadecimal digits.
#[verifier::external_body]
pub(crate) fn hex_encode(bytes: &Vec<u8>) -> (digits: String)
    ensures
        digits@ == hex_digits(bytes@),
{
    hex::encode(bytes)
}

/// The id of `tx` with its witnesses.
pub open spec fn wtxid(tx: TransactionView) -> Seq<u8> {
    sha256d_digest(transaction_bytes(tx))
}

/// The ids with witnesses of the transactions of a block, with zeroes for the
/// coinbase.
pub open spec fn witness_leaves(txdata: Seq<TransactionView>) -> Seq<Seq<u8>> {
    Seq::new(
        txdata.len(),
        |i: int|
            if i == 0 {
                Seq::new(32, |j: int| 0u8)
            } else {
                wtxid(txdata[i])
            },
    )
}

/// The merkle root over the ids with witnesses of the transactions of a block.
/// There is none in a block without transactions.
pub fn witness_root(txdata: &Vec<Transaction>) -> (root: Option<Hash256>)
    requires
        forall|i: int| 1 <= i < txdata@.len() ==> transaction_fits(#[trigger] txdata@[i]@),
    ensures
        root is Some <==> txdata@.len() > 0,
        root matches Some(node) ==> node@ == merkle_root(witness_leaves(views(txdata@))),
{
    let mut leaves: Vec<Hash256> = Vec::new();
    let mut i: usize = 0;
    while i < txdata.len()
        invariant
            i <= txdata@.len(),
            leaves@.len() == i,
            forall|j: int| 1 <= j < txdata@.len() ==> transaction_fits(#[trigger] txdata@[j]@),
            forall|j: int|
                0 <= j < i ==> #[trigger] leaves@[j]@ == witness_leaves(views(txdata@))[j],
        decreases txdata@.len() - i,
    {
        if i == 0 {
            let zeroes: Hash256 = [0u8; 32];
            assert(zeroes@ =~= Seq::new(32, |j: int| 0u8));
            leaves.push(zeroes);
        } else {
            let bytes = serialize_transaction(&txdata[i]);
            leaves.push(sha256d(bytes.as_slice()));
        }
        i += 1;
    }
    assert(views(leaves@) =~= witness_leaves(views(txdata@)));
    calculate_root(&leaves)
}

/// The ids of the transactions of a block.
pub open spec fn txids(txdata: Seq<TransactionView>) -> Seq<Seq<u8>> {
    Seq::new(txdata.len(), |i: int| txid(txdata[i]))
}

/// The merkle root over the ids of the transactions of a block. There is none in
/// a block without transactions.
pub fn transaction_root(txdata: &Vec<Transaction>) -> (root: Option<Hash256>)
    ensures
        root is Some <==> txdata@.len() > 0,
        root matches Some(node) ==> node@ == merkle_root(txids(views(txdata@))),
{
    let mut leaves: Vec<Hash256> = Vec::new();
    let mut i: usize = 0;
    while i < txdata.len()
        invariant
            i <= txdata@.len(),
            leaves@.len() == i,
            forall|j: int| 0 <= j < i ==> #[trigger] leaves@[j]@ == txids(views(txdata@))[j],
        decreases txdata@.len() - i,
    {
        leaves.push(compute_txid(&txdata[i]));
        i += 1;
    }
    assert(views(leaves@) =~= txids(views(txdata@)));
    calculate_root(&leaves)
}

/// All bytes of `parts`, one part after the other.
pub open spec fn concat(parts: Seq<Seq<u8>>) -> Seq<u8>
    decreases parts.len(),
{
    if parts.len() == 0 {
        Seq::empty()
    } else {
        concat(parts.drop_last()) + parts.last()
    }
}

/// A serialized block: its header, the number of its transactions and the
/// transactions.
pub open spec fn joined_block(header: Seq<u8>, transactions: Seq<Seq<u8>>) -> Seq<u8> {
    header + compact_size(transactions.len() as u64) + concat(transactions)
}

/// The serialization of a block from those of its header and its transactions.
pub fn join_block(header: Vec<u8>, transactions: &Vec<Vec<u8>>) -> (bytes: Vec<u8>)
    ensures
        bytes@ == joined_block(header@, views(transactions@)),
{
    let mut bytes = header;
    let mut count = serialize_compact_size(transactions.len() as u64);
    bytes.append(&mut count);
    let ghost head = bytes@;
    let ghost parts = views(transactions@);
    let mut i: usize = 0;
    assert(bytes@ =~= head + concat(parts.take(0)));
    while i < transactions.len()
        invariant
            i <= transactions@.len(),
            parts == views(transactions@),
            bytes@ == head + concat(parts.take(i as int)),
        decreases transactions@.len() - i,
    {
        bytes.extend_from_slice(transactions[i].as_slice());
        proof {
            let next = parts.take(i + 1);
            assert(next.drop_last() =~= parts.take(i as int));
            assert(next.last() == transactions@[i as int]@);
            assert(bytes@ =~= head + concat(next));
        }
        i += 1;
    }
    assert(parts.take(i as int) =~= parts);
    bytes
}

/// The serialization of `block`.
pub open spec fn block_bytes(block: BlockView) -> Seq<u8> {
    joined_block(
        header_bytes(block.header),
        Seq::new(block.txdata.len(), |i: int| transaction_bytes(block.txdata[i])),
    )
}

/// Serializes `block`.
pub fn serialize_block(block: &Block) -> (bytes: Vec<u8>)
    requires
        forall|i: int| 0 <= i < block.txdata@.len() ==> transaction_fits(
            #[trigger] block.txdata@[i]@,
        ),
    ensures
        bytes@ == block_bytes(block@),
{
    let mut transactions: Vec<Vec<u8>> = Vec::new();
    let mut i: usize = 0;
    while i < block.txdata.len()
        invariant
            i <= block.txdata@.len(),
            transactions@.len() == i,
            forall|j: int| 0 <= j < block.txdata@.len() ==> transaction_fits(
                #[trigger] block.txdata@[j]@,
            ),
            forall|j: int|
                0 <= j < i ==> #[trigger] transactions@[j]@ == transaction_bytes(
                    block.txdata@[j]@,
                ),
        decreases block.txdata@.len() - i,
    {
        transactions.push(serialize_transaction(&block.txdata[i]));
        i += 1;
    }
    assert(views(transactions@) =~= Seq::new(
        block@.txdata.len(),
        |j: int| transaction_bytes(block@.txdata[j]),
    ));
    join_block(serialize_header(&block.header), &transactions)
}

} // verus!
