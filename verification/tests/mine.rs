use bip300_enforcer::consensus::{
    check_transaction, join_block, serialize_block, transaction_root, witness_root,
};
use bip300_enforcer::mine::{
    add_commitment, finalize_block, finalize_coinbase, get_block_value, head_block, mine, solve,
    Network, INITIAL_SUBSIDY, SUBSIDY_HALVING_INTERVAL, TOTAL_SUBSIDY,
};
use bip300_enforcer::types::{Block, Header, OutPoint, Transaction, TxIn, TxOut};
use bitcoin::hashes::Hash as _;

fn outside(tx: &Transaction) -> bitcoin::Transaction {
    bitcoin::Transaction {
        version: bitcoin::transaction::Version(tx.version),
        lock_time: bitcoin::absolute::LockTime::from_consensus(tx.lock_time),
        input: tx
            .input
            .iter()
            .map(|i| bitcoin::TxIn {
                previous_output: bitcoin::OutPoint {
                    txid: bitcoin::Txid::from_byte_array(i.previous_output.txid),
                    vout: i.previous_output.vout,
                },
                script_sig: bitcoin::ScriptBuf::from_bytes(i.script_sig.clone()),
                sequence: bitcoin::Sequence(i.sequence),
                witness: bitcoin::Witness::from_slice(&i.witness),
            })
            .collect(),
        output: tx
            .output
            .iter()
            .map(|o| bitcoin::TxOut {
                value: bitcoin::Amount::from_sat(o.value),
                script_pubkey: bitcoin::ScriptBuf::from_bytes(o.script_pubkey.clone()),
            })
            .collect(),
    }
}

fn outside_header(header: &Header) -> bitcoin::block::Header {
    bitcoin::block::Header {
        version: bitcoin::block::Version::from_consensus(header.version),
        prev_blockhash: bitcoin::BlockHash::from_byte_array(header.prev_blockhash),
        merkle_root: bitcoin::hash_types::TxMerkleNode::from_byte_array(header.merkle_root),
        time: header.time,
        bits: bitcoin::CompactTarget::from_consensus(header.bits),
        nonce: header.nonce,
    }
}

fn outside_block(block: &Block) -> bitcoin::Block {
    bitcoin::Block {
        header: outside_header(&block.header),
        txdata: block.txdata.iter().map(outside).collect(),
    }
}

fn tx(n: u8) -> Transaction {
    Transaction {
        version: 1 + n as i32,
        lock_time: 500 + n as u32,
        input: vec![
            TxIn {
                previous_output: OutPoint { txid: [n; 32], vout: n as u32 },
                script_sig: vec![n, n],
                sequence: 0xffff_fffe,
                witness: vec![vec![n; 3], vec![]],
            },
            TxIn {
                previous_output: OutPoint { txid: [n + 1; 32], vout: 0 },
                script_sig: vec![],
                sequence: n as u32,
                witness: vec![],
            },
        ],
        output: vec![TxOut { value: 10_000 + n as u64, script_pubkey: vec![0x51, n] }],
    }
}

fn txs(count: u16) -> Vec<Transaction> {
    (0..count).map(|i| tx((i % 200) as u8)).collect()
}

fn outputs() -> Vec<TxOut> {
    vec![
        TxOut { value: 0, script_pubkey: vec![0x6a, 1, 2] },
        TxOut { value: 3, script_pubkey: vec![0x51] },
    ]
}

#[test]
fn constants_are_those_of_the_chain() {
    assert_eq!(SUBSIDY_HALVING_INTERVAL, bitcoin::constants::SUBSIDY_HALVING_INTERVAL);
    assert_eq!(INITIAL_SUBSIDY, 50 * bitcoin::Amount::ONE_BTC.to_sat());
}

#[test]
fn block_value_halves() {
    assert_eq!(get_block_value(0, 0, Network::Bitcoin), 5_000_000_000);
    assert_eq!(get_block_value(209_999, 7, Network::Bitcoin), 5_000_000_007);
    assert_eq!(get_block_value(210_000, 7, Network::Bitcoin), 2_500_000_007);
    assert_eq!(get_block_value(420_000, 0, Network::Signet), 1_250_000_000);
    assert_eq!(get_block_value(149, 0, Network::Regtest), 5_000_000_000);
    assert_eq!(get_block_value(150, 0, Network::Regtest), 2_500_000_000);
    assert_eq!(get_block_value(150 * 9, 0, Network::Regtest), 9_765_625);
    assert_eq!(get_block_value(150, 0, Network::Testnet), 5_000_000_000);
}

#[test]
fn block_value_ends() {
    assert_eq!(get_block_value(150 * 32 + 149, 0, Network::Regtest), 1);
    assert_eq!(get_block_value(150 * 33, 0, Network::Regtest), 0);
    assert_eq!(get_block_value(150 * 63, 5, Network::Regtest), 5);
    assert_eq!(get_block_value(150 * 64, 5, Network::Regtest), 5);
    assert_eq!(get_block_value(u32::MAX, u64::MAX, Network::Regtest), u64::MAX);
}

#[test]
fn subsidy_never_rises_on_regtest() {
    let mut last = u64::MAX;
    for height in 0..10_000 {
        let value = get_block_value(height, 0, Network::Regtest);
        assert!(value <= last);
        last = value;
    }
}

#[test]
fn coinbase_pays_the_subsidy_and_has_the_outputs() {
    let coinbase = finalize_coinbase(vec![0x51, 0x20], 99, &outputs());
    assert_eq!(coinbase.version, 2);
    assert_eq!(coinbase.lock_time, 0);
    assert_eq!(coinbase.input.len(), 1);
    assert_eq!(coinbase.input[0].previous_output.txid, [0; 32]);
    assert_eq!(coinbase.input[0].previous_output.vout, 0xffff_ffff);
    assert_eq!(coinbase.input[0].sequence, 0xffff_ffff);
    assert_eq!(coinbase.input[0].witness, vec![vec![0u8; 32]]);
    assert_eq!(coinbase.input[0].script_sig, vec![1, 100, 0]);
    assert_eq!(coinbase.output.len(), 3);
    assert_eq!(coinbase.output[0].value, 5_000_000_000);
    assert_eq!(coinbase.output[0].script_pubkey, vec![0x51, 0x20]);
    assert_eq!(coinbase.output[1].script_pubkey, vec![0x6a, 1, 2]);
    assert_eq!(coinbase.output[2].value, 3);
    assert!(outside(&coinbase).is_coinbase());
}

#[test]
fn coinbase_pays_nobody_without_subsidy() {
    let coinbase = finalize_coinbase(vec![0x51, 0x20], 150 * 33 - 1, &vec![]);
    assert_eq!(coinbase.output.len(), 1);
    assert_eq!(coinbase.output[0].value, 0);
    assert_eq!(coinbase.output[0].script_pubkey, vec![0x6a]);
}

#[test]
fn coinbase_names_its_height() {
    for height in [
        1u32, 2, 15, 16, 17, 127, 128, 255, 256, 32767, 32768, 65535, 65536, 8388607, 8388608,
        2147483647, 2147483648, u32::MAX,
    ] {
        let coinbase = finalize_coinbase(vec![0x51], height - 1, &vec![]);
        let script = bitcoin::script::Builder::new()
            .push_int(height as i64)
            .push_opcode(bitcoin::opcodes::OP_0)
            .into_script();
        assert_eq!(coinbase.input[0].script_sig, script.into_bytes());
    }
    let coinbase = finalize_coinbase(vec![0x51], 8388607, &vec![]);
    assert_eq!(coinbase.input[0].script_sig, vec![4, 0, 0, 0x80, 0, 0]);
}

#[test]
fn finalized_block_is_what_the_chain_expects() {
    let block = finalize_block(
        vec![0x51, 0x20],
        [9; 32],
        99,
        0x1_2345_6789,
        &outputs(),
        txs(5),
    );
    assert_eq!(block.header.version, 0x2000_0000);
    assert_eq!(block.header.prev_blockhash, [9; 32]);
    assert_eq!(block.header.time, 0x2345_6789);
    assert_eq!(block.header.nonce, 0);
    assert_eq!(
        block.header.bits,
        bitcoin::constants::genesis_block(bitcoin::Network::Regtest).header.bits.to_consensus(),
    );
    assert_eq!(block.txdata.len(), 6);
    let block = outside_block(&block);
    assert!(block.check_merkle_root());
    assert!(block.check_witness_commitment());
    let root = block.witness_root().unwrap();
    let commitment = bitcoin::Block::compute_witness_commitment(&root, &[0; 32]);
    let mut script = vec![0x6a, 36, 0xaa, 0x21, 0xa9, 0xed];
    script.extend_from_slice(commitment.as_byte_array());
    let last = block.txdata[0].output.last().unwrap();
    assert_eq!(last.script_pubkey.to_bytes(), script);
    assert_eq!(last.value.to_sat(), 0);
    assert_eq!(block.txdata[0].output.len(), 4);
}

#[test]
fn roots_are_those_of_the_chain() {
    assert!(transaction_root(&vec![]).is_none());
    assert!(witness_root(&vec![]).is_none());
    for count in [1u16, 2, 3, 7] {
        let txdata = txs(count);
        let block = bitcoin::Block {
            header: bitcoin::constants::genesis_block(bitcoin::Network::Regtest).header,
            txdata: txdata.iter().map(outside).collect(),
        };
        assert_eq!(
            transaction_root(&txdata).unwrap(),
            block.compute_merkle_root().unwrap().to_byte_array(),
        );
        assert_eq!(
            witness_root(&txdata).unwrap(),
            block.witness_root().unwrap().to_byte_array(),
        );
    }
    assert_eq!(
        transaction_root(&txs(1)).unwrap(),
        outside(&tx(0)).compute_txid().to_byte_array(),
    );
    assert_eq!(witness_root(&txs(1)).unwrap(), [0; 32]);
}

#[test]
fn witness_takes_no_part_in_the_id() {
    let mut other = tx(4);
    other.input[0].witness = vec![];
    let ids = (transaction_root(&vec![tx(4)]), transaction_root(&vec![other]));
    assert_eq!(ids.0, ids.1);
}

#[test]
fn block_is_serialized_as_the_chain_does() {
    for count in [0u16, 1, 252, 253, 300] {
        let block = Block {
            header: Header {
                version: 0x2000_0001,
                prev_blockhash: [3; 32],
                merkle_root: [4; 32],
                time: 77,
                bits: 0x1d00_ffff,
                nonce: 99,
            },
            txdata: txs(count),
        };
        let bytes = serialize_block(&block);
        assert_eq!(bytes, bitcoin::consensus::serialize(&outside_block(&block)));
    }
}

#[test]
fn first_solution_is_found() {
    let block = finalize_block(vec![0x51], [9; 32], 99, 1_700_000_000, &outputs(), txs(2));
    let mut header = outside_header(&block.header);
    loop {
        header.nonce += 1;
        if header.validate_pow(header.target()).is_ok() {
            break;
        }
    }
    assert_eq!(solve(&block.header), Some(header.nonce));
}

#[test]
fn no_solution_is_left_above_the_last_nonce() {
    let header = Header {
        version: 1,
        prev_blockhash: [0; 32],
        merkle_root: [0; 32],
        time: 0,
        bits: 0x207f_ffff,
        nonce: u32::MAX,
    };
    assert_eq!(solve(&header), None);
    let hard = Header { bits: 0, nonce: u32::MAX - 20, ..header };
    assert_eq!(solve(&hard), None);
    assert!(mine(Block { header: hard, txdata: vec![] }).is_none());
}

#[test]
fn mined_block_is_ready_to_hand_in() {
    let block = finalize_block(vec![0x51], [9; 32], 99, 1_700_000_000, &outputs(), txs(2));
    let nonce = solve(&block.header).unwrap();
    let mined = mine(block).unwrap();
    assert_eq!(mined.block.header.nonce, nonce);
    let block = outside_block(&mined.block);
    assert!(block.header.validate_pow(block.header.target()).is_ok());
    assert_eq!(mined.block_hash, block.block_hash().to_byte_array());
    assert_eq!(mined.submission, hex::encode(bitcoin::consensus::serialize(&block)));
    assert!(mined.submission.starts_with("00000020"));
}

#[test]
fn ordinary_transactions_fit() {
    assert!(check_transaction(&tx(3)));
    let mut large = tx(3);
    large.input[0].witness = vec![vec![0; 252], vec![0; 253], vec![0; 70_000], vec![]];
    assert!(check_transaction(&large));
}

#[test]
fn subsidy_halves_after_each_interval() {
    for height in (0..10_000).step_by(37) {
        let now = get_block_value(height, 0, Network::Regtest);
        assert!(now <= INITIAL_SUBSIDY);
        assert_eq!(get_block_value(height + 150, 0, Network::Regtest), now / 2);
    }
    for height in [0, 209_999, 210_000, 6_929_999, 6_930_000] {
        let now = get_block_value(height, 0, Network::Signet);
        assert_eq!(get_block_value(height + 210_000, 0, Network::Signet), now / 2);
        assert_eq!(now > 0, height < 33 * 210_000);
    }
}

#[test]
fn commitment_is_added_behind_the_outputs() {
    let coinbase = add_commitment(tx(1), &[5; 32]);
    assert_eq!(coinbase.version, 2);
    assert_eq!(coinbase.output.len(), 2);
    assert_eq!(coinbase.output[0].value, 10_001);
    assert_eq!(coinbase.output[1].value, 0);
    let mut script = vec![0x6a, 36, 0xaa, 0x21, 0xa9, 0xed];
    script.extend_from_slice(&[5; 32]);
    assert_eq!(coinbase.output[1].script_pubkey, script);
}

#[test]
fn header_has_what_it_is_given() {
    let block = head_block([1; 32], 0x7_0000_0008, [2; 32], txs(3));
    assert_eq!(block.header.prev_blockhash, [1; 32]);
    assert_eq!(block.header.merkle_root, [2; 32]);
    assert_eq!(block.header.time, 8);
    assert_eq!(block.header.bits, 0x207f_ffff);
    assert_eq!(block.txdata.len(), 3);
}

#[test]
fn block_is_joined_from_its_parts() {
    assert_eq!(join_block(vec![9, 8], &vec![]), vec![9, 8, 0]);
    assert_eq!(join_block(vec![9], &vec![vec![1, 2], vec![], vec![3]]), vec![9, 3, 1, 2, 3]);
    let bytes = join_block(vec![], &vec![vec![]; 0x1234]);
    assert_eq!(bytes, vec![0xfd, 0x34, 0x12]);
    let bytes = join_block(vec![], &vec![vec![]; 0x1_0000]);
    assert_eq!(bytes, vec![0xfe, 0, 0, 1, 0]);
}

#[test]
fn supply_is_bounded() {
    let mut supply: u64 = 0;
    for height in 0..150 * 33 {
        assert!(supply < TOTAL_SUBSIDY * 150);
        supply += get_block_value(height, 0, Network::Regtest);
    }
    assert_eq!(supply, TOTAL_SUBSIDY * 150);
    assert_eq!(supply, 1_499_999_998_350);
}

#[test]
fn coinbases_differ_between_heights() {
    let mut scripts = vec![];
    for height in [0u32, 1, 15, 16, 127, 255, 256, 32767, 65535, 8388607, 16777215, 2147483647] {
        scripts.push(finalize_coinbase(vec![0x51], height, &vec![]).input[0].script_sig.clone());
    }
    for i in 0..scripts.len() {
        for j in 0..i {
            assert_ne!(scripts[i], scripts[j]);
        }
    }
}

#[test]
fn targets_of_other_bits_are_met_as_the_chain_says() {
    for bits in [
        0x207f_ffffu32, 0x1f7f_ffff, 0x1f00_ffff, 0x2100_7fff, 0x2200_007f, 0x237f_ffff,
        0x2080_0000, 0x0300_ffff, 0x4300_7fff, 0xff7f_ffff,
    ] {
        let header = Header {
            version: -7,
            prev_blockhash: [3; 32],
            merkle_root: [4; 32],
            time: 5,
            bits,
            nonce: u32::MAX - 200,
        };
        let mut expected = None;
        for nonce in u32::MAX - 199..=u32::MAX {
            let candidate = outside_header(&Header { nonce, ..header });
            if candidate.validate_pow(candidate.target()).is_ok() {
                expected = Some(nonce);
                break;
            }
        }
        assert_eq!(solve(&header), expected);
    }
}

/// The number that `bits` stands for, as 32 bytes with the low one first.
fn expected_target(bits: u32) -> [u8; 32] {
    let size = (bits >> 24) as usize;
    let digits = bits & 0xff_ffff;
    let mantissa = if size <= 3 { digits >> (8 * (3 - size)) } else { digits };
    let mut bytes = [0; 32];
    if mantissa > 0x7f_ffff {
        return bytes;
    }
    let place = if size <= 3 { 0 } else { (size - 3) % 32 };
    for i in 0..3 {
        if place + i < 32 {
            bytes[place + i] = (mantissa >> (8 * i)) as u8;
        }
    }
    bytes
}

#[test]
fn targets_are_decoded_as_stated() {
    for size in 0..=255u32 {
        for digits in [0u32, 1, 0x7f, 0x80, 0xffff, 0x12_3456, 0x7f_ffff, 0x80_0000, 0xff_ffff] {
            let bits = (size << 24) | digits;
            let target = bitcoin::Target::from_compact(bitcoin::CompactTarget::from_consensus(bits));
            assert_eq!(target.to_le_bytes(), expected_target(bits));
        }
    }
}

#[test]
fn header_is_serialized_field_by_field() {
    let block = Block {
        header: Header {
            version: -2,
            prev_blockhash: [3; 32],
            merkle_root: [4; 32],
            time: 0x0102_0304,
            bits: 0x207f_ffff,
            nonce: 0x0a0b_0c0d,
        },
        txdata: vec![],
    };
    let mut expected = vec![0xfe, 0xff, 0xff, 0xff];
    expected.extend_from_slice(&[3; 32]);
    expected.extend_from_slice(&[4; 32]);
    expected.extend_from_slice(&[4, 3, 2, 1, 0xff, 0xff, 0x7f, 0x20, 0x0d, 0x0c, 0x0b, 0x0a, 0]);
    assert_eq!(serialize_block(&block), expected);
}

#[test]
fn merkle_root_is_made_of_pairs() {
    let digest = |a: [u8; 32], b: [u8; 32]| {
        bitcoin::hashes::sha256d::Hash::hash(&[a, b].concat()).to_byte_array()
    };
    let ids: Vec<[u8; 32]> =
        txs(3).iter().map(|tx| outside(tx).compute_txid().to_byte_array()).collect();
    let expected = digest(digest(ids[0], ids[1]), digest(ids[2], ids[2]));
    assert_eq!(transaction_root(&txs(3)).unwrap(), expected);
}
