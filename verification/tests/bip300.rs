use bip300_enforcer::bip300::{find_output, Bip300, FoundOutput, Verdict};
use bip300_enforcer::ledger::{
    BlockContents, ConnectBlockError, DrivechainOutput, UNUSED_MAX_AGE, UNUSED_THRESHOLD, USED_MAX_AGE,
    USED_THRESHOLD,
};
use bip300_enforcer::messages::{CoinbaseMessage, M4AckBundles};
use bip300_enforcer::types::{
    Bundle, Ctip, OutPoint, Sidechain, SidechainProposal, Transaction, TxIn, TxOut,
};
use bitcoin::hashes::{sha256d, Hash as _};

fn digest(data: &[u8]) -> [u8; 32] {
    sha256d::Hash::hash(data).to_byte_array()
}

fn coinbase(messages: Vec<CoinbaseMessage>) -> BlockContents {
    BlockContents { coinbase: messages.into_iter().map(Ok).collect(), transactions: vec![] }
}

fn transactions(transactions: Vec<Transaction>) -> BlockContents {
    BlockContents { coinbase: vec![], transactions }
}

fn propose(sidechain_number: u8, data: &[u8]) -> CoinbaseMessage {
    CoinbaseMessage::M1ProposeSidechain { sidechain_number, data: data.to_vec() }
}

fn ack(sidechain_number: u8, data: &[u8]) -> CoinbaseMessage {
    CoinbaseMessage::M2AckSidechain { sidechain_number, data_hash: digest(data) }
}

fn one_byte(upvotes: Vec<u8>) -> CoinbaseMessage {
    CoinbaseMessage::M4AckBundles(M4AckBundles::OneByte { upvotes })
}

fn two_bytes(upvotes: Vec<u16>) -> CoinbaseMessage {
    CoinbaseMessage::M4AckBundles(M4AckBundles::TwoBytes { upvotes })
}

fn connect(ledger: &mut Bip300, block: &BlockContents, height: u32) {
    match ledger.try_connect_block(block, height) {
        Some(Ok(())) => {}
        Some(Err(error)) => panic!("rejected: {}", error.to_string()),
        None => panic!("unsupported"),
    }
}

fn error(ledger: &mut Bip300, block: &BlockContents) -> ConnectBlockError {
    match ledger.try_connect_block(block, 10) {
        Some(Err(error)) => error,
        _ => panic!("not rejected"),
    }
}

fn with_votes(sidechain_number: u8, data: &[u8], vote_count: u16, height: u32) -> Bip300 {
    let mut ledger = Bip300::new();
    ledger.insert_proposal(
        digest(data),
        SidechainProposal {
            sidechain_number,
            data: data.to_vec(),
            vote_count,
            proposal_height: height,
        },
    );
    ledger
}

fn used(ledger: &mut Bip300, sidechain_number: u8) {
    ledger.insert_sidechain(
        sidechain_number,
        Sidechain {
            sidechain_number,
            data: vec![9],
            vote_count: 13_151,
            proposal_height: 1,
            activation_height: 2,
        },
    );
}

fn bundles(votes: &[u16]) -> Vec<Bundle> {
    let mut bundles = vec![];
    for (i, vote_count) in votes.iter().enumerate() {
        bundles.push(Bundle { bundle_txid: [i as u8; 32], vote_count: *vote_count });
    }
    bundles
}

fn votes(ledger: &Bip300, sidechain_number: u8) -> Vec<u16> {
    ledger.bundles(sidechain_number).unwrap().iter().map(|b| b.vote_count).collect()
}

fn spending(previous_output: OutPoint, output: Vec<TxOut>) -> Transaction {
    Transaction {
        version: 2,
        lock_time: 0,
        input: vec![TxIn {
            previous_output,
            script_sig: vec![1, 2],
            sequence: 5,
            witness: vec![vec![3, 4]],
        }],
        output,
    }
}

fn drivechain_output(sidechain_number: u8, value: u64) -> TxOut {
    TxOut { value, script_pubkey: vec![0xb4, 0x01, sidechain_number, 0x51] }
}

fn plain_output() -> TxOut {
    TxOut { value: 1, script_pubkey: vec![0x51] }
}

fn with_ctip(sidechain_number: u8, value: u64) -> (Bip300, OutPoint) {
    let outpoint = OutPoint { txid: [7; 32], vout: 3 };
    let mut ledger = Bip300::new();
    ledger.insert_ctip(sidechain_number, Ctip { outpoint, value });
    (ledger, outpoint)
}

fn outside(tx: &Transaction) -> bitcoin::Transaction {
    bitcoin::Transaction {
        version: bitcoin::transaction::Version(tx.version),
        lock_time: bitcoin::absolute::LockTime::from_consensus(tx.lock_time),
        input: tx
            .input
            .iter()
            .map(|i| bitcoin::TxIn {
                previous_output: bitcoin::OutPoint {
                    txid: bitcoin::Txid::from_byte_array(i.previous_output.txid),
                    vout: i.previous_output.vout,
                },
                script_sig: bitcoin::ScriptBuf::from_bytes(i.script_sig.clone()),
                sequence: bitcoin::Sequence(i.sequence),
                witness: bitcoin::Witness::from_slice(&i.witness),
            })
            .collect(),
        output: tx
            .output
            .iter()
            .map(|o| bitcoin::TxOut {
                value: bitcoin::Amount::from_sat(o.value),
                script_pubkey: bitcoin::ScriptBuf::from_bytes(o.script_pubkey.clone()),
            })
            .collect(),
    }
}

#[test]
fn proposal_is_kept_under_the_hash_of_its_data() {
    let mut ledger = Bip300::new();
    connect(&mut ledger, &coinbase(vec![propose(4, b"chain")]), 100);
    let proposal = ledger.proposal(&digest(b"chain")).unwrap();
    assert_eq!(proposal.sidechain_number, 4);
    assert_eq!(proposal.data, b"chain".to_vec());
    assert_eq!(proposal.vote_count, 0);
    assert_eq!(proposal.proposal_height, 100);
    assert_eq!(ledger.proposals().len(), 1);
    assert!(ledger.proposal(&digest(b"other")).is_none());
}

#[test]
fn second_proposal_of_the_same_data_changes_nothing() {
    let mut ledger = Bip300::new();
    connect(&mut ledger, &coinbase(vec![propose(4, b"chain")]), 100);
    connect(&mut ledger, &coinbase(vec![ack(4, b"chain")]), 101);
    connect(&mut ledger, &coinbase(vec![propose(5, b"chain")]), 102);
    let proposal = ledger.proposal(&digest(b"chain")).unwrap();
    assert_eq!(proposal.sidechain_number, 4);
    assert_eq!(proposal.vote_count, 1);
    assert_eq!(proposal.proposal_height, 100);
    assert_eq!(ledger.proposals().len(), 1);
}

#[test]
fn vote_for_another_number_is_not_counted() {
    let mut ledger = with_votes(4, b"chain", 3, 100);
    connect(&mut ledger, &coinbase(vec![ack(5, b"chain"), ack(4, b"unknown")]), 101);
    assert_eq!(ledger.proposal(&digest(b"chain")).unwrap().vote_count, 3);
}

#[test]
fn votes_in_one_block_add_up() {
    let mut ledger = Bip300::new();
    let block = coinbase(vec![propose(4, b"chain"), ack(4, b"chain"), ack(4, b"chain")]);
    connect(&mut ledger, &block, 100);
    assert_eq!(ledger.proposal(&digest(b"chain")).unwrap().vote_count, 2);
}

#[test]
fn proposal_becomes_a_sidechain_after_the_votes_of_a_used_number() {
    let mut ledger = with_votes(4, b"chain", USED_THRESHOLD - 1, 100);
    connect(&mut ledger, &coinbase(vec![ack(4, b"chain")]), 200);
    assert!(ledger.sidechain(4).is_none());
    assert_eq!(ledger.proposal(&digest(b"chain")).unwrap().vote_count, 13_150);
    connect(&mut ledger, &coinbase(vec![ack(4, b"chain")]), 201);
    let sidechain = ledger.sidechain(4).unwrap();
    assert_eq!(sidechain.sidechain_number, 4);
    assert_eq!(sidechain.data, b"chain".to_vec());
    assert_eq!(sidechain.vote_count, 13_151);
    assert_eq!(sidechain.proposal_height, 100);
    assert_eq!(sidechain.activation_height, 201);
    assert!(ledger.proposal(&digest(b"chain")).is_none());
}

#[test]
fn unused_number_needs_its_votes_only_to_outlive_its_age() {
    assert_eq!(UNUSED_THRESHOLD, 2016 - 201);
    let late = 100 + UNUSED_MAX_AGE as u32 + 1;
    let mut ledger = with_votes(4, b"chain", UNUSED_THRESHOLD - 1, 100);
    connect(&mut ledger, &coinbase(vec![ack(4, b"chain")]), late);
    assert!(ledger.proposal(&digest(b"chain")).is_none());

    let mut ledger = with_votes(4, b"chain", UNUSED_THRESHOLD - 1, 100);
    connect(&mut ledger, &coinbase(vec![ack(4, b"chain")]), late - 1);
    assert_eq!(ledger.proposal(&digest(b"chain")).unwrap().vote_count, 1815);

    let mut ledger = with_votes(4, b"chain", UNUSED_THRESHOLD, 100);
    connect(&mut ledger, &coinbase(vec![ack(4, b"chain")]), late);
    assert_eq!(ledger.proposal(&digest(b"chain")).unwrap().vote_count, 1816);
    assert!(ledger.sidechain(4).is_none());
}

#[test]
fn used_number_lets_a_proposal_grow_older() {
    let late = 100 + USED_MAX_AGE as u32 + 1;
    let mut ledger = with_votes(4, b"chain", 5, 100);
    used(&mut ledger, 4);
    connect(&mut ledger, &coinbase(vec![ack(4, b"chain")]), late - 1);
    assert_eq!(ledger.proposal(&digest(b"chain")).unwrap().vote_count, 6);
    connect(&mut ledger, &coinbase(vec![ack(4, b"chain")]), late);
    assert!(ledger.proposal(&digest(b"chain")).is_none());
    assert_eq!(ledger.sidechain(4).unwrap().data, vec![9]);
}

#[test]
fn sidechain_of_a_used_number_is_replaced() {
    let mut ledger = with_votes(4, b"chain", USED_THRESHOLD, 100);
    used(&mut ledger, 4);
    connect(&mut ledger, &coinbase(vec![ack(4, b"chain")]), 100 + USED_MAX_AGE as u32 + 1);
    assert_eq!(ledger.sidechain(4).unwrap().data, b"chain".to_vec());
}

#[test]
fn vote_for_a_proposal_from_above_is_not_supported() {
    let mut ledger = with_votes(4, b"chain", 5, 100);
    let block = coinbase(vec![ack(4, b"chain")]);
    assert!(!ledger.supports_block(&block, 99));
    assert!(ledger.try_connect_block(&block, 99).is_none());
    assert_eq!(ledger.proposal(&digest(b"chain")).unwrap().vote_count, 5);
    assert!(ledger.supports_block(&block, 100));
}

#[test]
fn bundle_is_proposed_only_where_there_are_bundles() {
    let mut ledger = Bip300::new();
    ledger.insert_bundles(2, bundles(&[4]));
    let block = coinbase(vec![
        CoinbaseMessage::M3ProposeBundle { sidechain_number: 2, bundle_txid: [8; 32] },
        CoinbaseMessage::M3ProposeBundle { sidechain_number: 3, bundle_txid: [8; 32] },
    ]);
    connect(&mut ledger, &block, 10);
    assert_eq!(votes(&ledger, 2), vec![4, 0]);
    assert_eq!(ledger.bundles(2).unwrap()[1].bundle_txid, [8; 32]);
    assert!(ledger.bundles(3).is_none());
}

#[test]
fn one_byte_votes_are_counted() {
    let mut ledger = Bip300::new();
    ledger.insert_bundles(0, bundles(&[5, 0, 7]));
    ledger.insert_bundles(1, bundles(&[5, 0, 7]));
    ledger.insert_bundles(2, bundles(&[5, 0, 7]));
    ledger.insert_bundles(3, bundles(&[5, 0, 7]));
    connect(&mut ledger, &coinbase(vec![one_byte(vec![2, 0xff, 0xfe, 3])]), 10);
    assert_eq!(votes(&ledger, 0), vec![5, 0, 8]);
    assert_eq!(votes(&ledger, 1), vec![5, 0, 7]);
    assert_eq!(votes(&ledger, 2), vec![4, 0, 6]);
    assert_eq!(votes(&ledger, 3), vec![5, 0, 7]);
}

#[test]
fn two_byte_votes_are_counted() {
    let mut ledger = Bip300::new();
    let many: Vec<u16> = vec![1; 300];
    ledger.insert_bundles(0, bundles(&many));
    ledger.insert_bundles(1, bundles(&[1, 0]));
    ledger.insert_bundles(2, bundles(&[1, 0]));
    connect(&mut ledger, &coinbase(vec![two_bytes(vec![0xff, 0xfffe, 0xffff])]), 10);
    assert_eq!(votes(&ledger, 0)[255], 2);
    assert_eq!(votes(&ledger, 0).iter().map(|v| *v as u32).sum::<u32>(), 301);
    assert_eq!(votes(&ledger, 1), vec![0, 0]);
    assert_eq!(votes(&ledger, 2), vec![1, 0]);
}

#[test]
fn votes_past_the_last_number_begin_at_zero_again() {
    let mut ledger = Bip300::new();
    ledger.insert_bundles(0, bundles(&[5, 6]));
    ledger.insert_bundles(1, bundles(&[5, 6]));
    let mut upvotes = vec![0xff; 256];
    upvotes.push(0);
    upvotes.push(1);
    connect(&mut ledger, &coinbase(vec![one_byte(upvotes)]), 10);
    assert_eq!(votes(&ledger, 0), vec![6, 6]);
    assert_eq!(votes(&ledger, 1), vec![5, 7]);
}

#[test]
fn vote_that_cannot_be_counted_is_not_supported() {
    let mut ledger = Bip300::new();
    ledger.insert_bundles(0, bundles(&[65535]));
    assert!(ledger.try_connect_block(&coinbase(vec![one_byte(vec![0])]), 10).is_none());
    assert_eq!(votes(&ledger, 0), vec![65535]);
}

#[test]
fn votes_by_reference_are_not_supported() {
    let mut ledger = Bip300::new();
    let block = coinbase(vec![CoinbaseMessage::M4AckBundles(M4AckBundles::LeadingBy50)]);
    assert!(ledger.try_connect_block(&block, 10).is_none());
    let block = coinbase(vec![CoinbaseMessage::M4AckBundles(M4AckBundles::RepeatPrevious)]);
    assert!(ledger.try_connect_block(&block, 10).is_none());
}

#[test]
fn script_without_message_rejects_the_block_and_changes_nothing() {
    let mut ledger = Bip300::new();
    let block = BlockContents {
        coinbase: vec![
            Ok(propose(4, b"chain")),
            Err("bad tag".to_string()),
            Ok(CoinbaseMessage::M4AckBundles(M4AckBundles::LeadingBy50)),
        ],
        transactions: vec![],
    };
    let error = error(&mut ledger, &block);
    assert!(matches!(error, ConnectBlockError::ParseCoinbaseScript(_)));
    assert_eq!(error.to_string(), "failed to parse coinbase script: bad tag");
    assert!(ledger.proposals().is_empty());
}

#[test]
fn deposit_moves_the_coins() {
    let (mut ledger, outpoint) = with_ctip(6, 1000);
    let tx = spending(outpoint, vec![plain_output(), drivechain_output(6, 1500)]);
    let id = outside(&tx).compute_txid().to_byte_array();
    connect(&mut ledger, &transactions(vec![tx]), 10);
    let ctip = ledger.ctip(6).unwrap();
    assert_eq!(ctip.value, 1500);
    assert_eq!(ctip.outpoint.vout, 1);
    assert_eq!(ctip.outpoint.txid, id);
}

#[test]
fn deposits_in_one_block_follow_each_other() {
    let (mut ledger, outpoint) = with_ctip(6, 1000);
    let first = spending(outpoint, vec![drivechain_output(6, 1000)]);
    let between = OutPoint { txid: outside(&first).compute_txid().to_byte_array(), vout: 0 };
    let second = spending(between, vec![drivechain_output(6, 1001)]);
    connect(&mut ledger, &transactions(vec![first, second]), 10);
    assert_eq!(ledger.ctip(6).unwrap().value, 1001);
}

#[test]
fn withdrawal_is_not_supported() {
    let (mut ledger, outpoint) = with_ctip(6, 1000);
    let block = transactions(vec![spending(outpoint, vec![drivechain_output(6, 999)])]);
    assert!(ledger.try_connect_block(&block, 10).is_none());
    assert_eq!(ledger.ctip(6).unwrap().value, 1000);
}

#[test]
fn transaction_without_drivechain_output_changes_nothing() {
    let (mut ledger, outpoint) = with_ctip(6, 1000);
    connect(&mut ledger, &transactions(vec![spending(outpoint, vec![plain_output()])]), 10);
    assert_eq!(ledger.ctip(6).unwrap().outpoint.txid, [7; 32]);
}

#[test]
fn more_than_one_drivechain_output_is_rejected() {
    let (mut ledger, outpoint) = with_ctip(6, 1000);
    let tx = spending(outpoint, vec![drivechain_output(6, 1000), drivechain_output(7, 1000)]);
    let error = error(&mut ledger, &transactions(vec![tx]));
    assert!(matches!(error, ConnectBlockError::MultipleDrivechainOutputs));
    assert_eq!(error.to_string(), "more than one OP_DRIVECHAIN output");
}

#[test]
fn drivechain_output_of_the_wrong_form_is_rejected() {
    let (mut ledger, outpoint) = with_ctip(6, 1000);
    for script_pubkey in [vec![0xb4, 0x02], vec![0xb4, 0x01, 6, 0x52]] {
        let tx = spending(outpoint, vec![TxOut { value: 1000, script_pubkey }]);
        let error = error(&mut ledger, &transactions(vec![tx]));
        assert!(matches!(error, ConnectBlockError::InvalidDrivechainOutput));
        assert_eq!(error.to_string(), "invalid OP_DRIVECHAIN output");
    }
}

#[test]
fn script_that_ends_too_soon_is_not_supported() {
    let (mut ledger, outpoint) = with_ctip(6, 1000);
    for script_pubkey in [vec![], vec![0xb4], vec![0xb4, 0x01], vec![0xb4, 0x01, 6]] {
        let tx = spending(outpoint, vec![TxOut { value: 1000, script_pubkey }]);
        assert!(ledger.try_connect_block(&transactions(vec![tx]), 10).is_none());
    }
}

#[test]
fn deposit_without_coins_is_rejected() {
    let (mut ledger, outpoint) = with_ctip(6, 1000);
    let tx = spending(outpoint, vec![drivechain_output(107, 1000)]);
    let error = error(&mut ledger, &transactions(vec![tx]));
    assert!(matches!(error, ConnectBlockError::NoCtip { sidechain_number: 107 }));
    assert_eq!(error.to_string(), "sidechain 107 doesn't have ctip");
}

#[test]
fn deposit_that_does_not_spend_the_coins_is_rejected() {
    let (mut ledger, outpoint) = with_ctip(60, 1000);
    let other = OutPoint { txid: outpoint.txid, vout: outpoint.vout + 1 };
    let tx = spending(other, vec![drivechain_output(60, 2000)]);
    let error = error(&mut ledger, &transactions(vec![tx]));
    assert!(matches!(error, ConnectBlockError::CtipNotSpent { sidechain_number: 60 }));
    assert_eq!(error.to_string(), "old ctip wasn't spent for sidechain 60");
}

#[test]
fn rejected_transaction_takes_back_the_whole_block() {
    let (mut ledger, outpoint) = with_ctip(6, 1000);
    let block = BlockContents {
        coinbase: vec![Ok(propose(4, b"chain"))],
        transactions: vec![
            spending(outpoint, vec![drivechain_output(6, 1200)]),
            spending(outpoint, vec![drivechain_output(6, 1300)]),
        ],
    };
    let error = error(&mut ledger, &block);
    assert!(matches!(error, ConnectBlockError::CtipNotSpent { sidechain_number: 6 }));
    assert_eq!(ledger.ctip(6).unwrap().value, 1000);
    assert!(ledger.proposals().is_empty());
}

#[test]
fn blocks_take_nothing_away() {
    let (mut ledger, outpoint) = with_ctip(6, 1000);
    used(&mut ledger, 1);
    ledger.insert_bundles(2, bundles(&[1, 2]));
    let block = BlockContents {
        coinbase: vec![
            Ok(one_byte(vec![0xff, 0xff, 0xfe])),
            Ok(CoinbaseMessage::M3ProposeBundle { sidechain_number: 2, bundle_txid: [8; 32] }),
        ],
        transactions: vec![spending(outpoint, vec![drivechain_output(6, 1000)])],
    };
    connect(&mut ledger, &block, 10);
    assert!(ledger.sidechain(1).is_some());
    assert_eq!(votes(&ledger, 2), vec![0, 1, 0]);
    assert_eq!(ledger.bundles(2).unwrap()[1].bundle_txid, [1; 32]);
    assert_eq!(ledger.ctip(6).unwrap().value, 1000);
}

#[test]
fn records_stay_consistent() {
    let mut ledger = with_votes(4, b"chain", USED_THRESHOLD, 100);
    let block = coinbase(vec![
        propose(1, b"a"),
        ack(1, b"a"),
        propose(2, b"b"),
        ack(4, b"chain"),
        propose(1, b"a"),
    ]);
    connect(&mut ledger, &block, 300);
    assert_eq!(ledger.proposals().len(), 2);
    for (hash, proposal) in ledger.proposals() {
        assert_eq!(*hash, digest(&proposal.data));
        assert!(proposal.vote_count <= USED_THRESHOLD);
        assert!(proposal.proposal_height <= 300);
    }
    let sidechain = ledger.sidechain(4).unwrap();
    assert_eq!(sidechain.sidechain_number, 4);
    assert!(sidechain.vote_count > USED_THRESHOLD);
}

#[test]
fn coinbase_outputs_are_connected_in_order() {
    let mut together = Bip300::new();
    let block = coinbase(vec![propose(4, b"chain"), ack(4, b"chain"), propose(5, b"chain")]);
    connect(&mut together, &block, 100);
    let mut apart = Bip300::new();
    connect(&mut apart, &coinbase(vec![propose(4, b"chain")]), 100);
    connect(&mut apart, &coinbase(vec![ack(4, b"chain"), propose(5, b"chain")]), 100);
    let hash = digest(b"chain");
    for ledger in [together, apart] {
        assert_eq!(ledger.proposals().len(), 1);
        assert_eq!(ledger.proposal(&hash).unwrap().vote_count, 1);
        assert_eq!(ledger.proposal(&hash).unwrap().sidechain_number, 4);
    }
    let mut ledger = Bip300::new();
    connect(&mut ledger, &coinbase(vec![ack(4, b"chain"), propose(4, b"chain")]), 100);
    assert_eq!(ledger.proposal(&hash).unwrap().vote_count, 0);
}

#[test]
fn connect_block_answers_as_the_checked_call_does() {
    let mut ledger = Bip300::new();
    let block = coinbase(vec![propose(4, b"chain")]);
    assert!(ledger.supports_block(&block, 100));
    assert!(ledger.connect_block(&block, 100).is_ok());
    assert_eq!(ledger.proposals().len(), 1);
    let block = transactions(vec![spending(
        OutPoint { txid: [7; 32], vout: 3 },
        vec![drivechain_output(9, 10)],
    )]);
    assert!(ledger.supports_block(&block, 101));
    assert!(matches!(
        ledger.connect_block(&block, 101),
        Err(ConnectBlockError::NoCtip { sidechain_number: 9 }),
    ));
}

#[test]
fn proposal_with_all_votes_is_not_supported() {
    let mut ledger = with_votes(4, b"chain", u16::MAX, 100);
    assert!(ledger.try_connect_block(&coinbase(vec![ack(4, b"chain")]), 100).is_none());
}

#[test]
fn loaded_records_replace_those_with_the_same_key() {
    let mut ledger = with_votes(4, b"chain", 7, 100);
    ledger.insert_proposal(
        digest(b"chain"),
        SidechainProposal {
            sidechain_number: 5,
            data: b"chain".to_vec(),
            vote_count: 8,
            proposal_height: 9,
        },
    );
    assert_eq!(ledger.proposals().len(), 1);
    assert_eq!(ledger.proposal(&digest(b"chain")).unwrap().vote_count, 8);
}

#[test]
fn proposal_is_kept_under_the_hash_that_is_given() {
    let mut ledger = Bip300::new();
    ledger.propose_hashed([1; 32], 4, &b"chain".to_vec(), 100);
    ledger.propose_hashed([1; 32], 5, &b"other".to_vec(), 101);
    ledger.propose_hashed([2; 32], 6, &b"chain".to_vec(), 102);
    assert_eq!(ledger.proposals().len(), 2);
    assert_eq!(ledger.proposal(&[1; 32]).unwrap().data, b"chain".to_vec());
    assert_eq!(ledger.proposal(&[1; 32]).unwrap().sidechain_number, 4);
    assert_eq!(ledger.proposal(&[2; 32]).unwrap().proposal_height, 102);
}

#[test]
fn drivechain_output_is_found() {
    let outputs = vec![plain_output(), drivechain_output(6, 70), plain_output()];
    let expected = DrivechainOutput { vout: 1, sidechain_number: 6, value: 70 };
    match find_output(&outputs) {
        FoundOutput::Found(Some(output)) => assert_eq!(output, expected),
        _ => panic!("not found"),
    }
    assert!(matches!(find_output(&vec![plain_output()]), FoundOutput::Found(None)));
    assert!(matches!(find_output(&vec![]), FoundOutput::Found(None)));
}

#[test]
fn deposit_takes_the_id_that_is_given() {
    let (mut ledger, outpoint) = with_ctip(6, 1000);
    let inputs = spending(outpoint, vec![]).input;
    let output = DrivechainOutput { vout: 9, sidechain_number: 6, value: 1000 };
    let less = DrivechainOutput { value: 999, ..output };
    assert!(matches!(ledger.deposit([8; 32], less, &inputs), Verdict::Unsupported));
    assert_eq!(ledger.ctip(6).unwrap().outpoint.txid, [7; 32]);
    assert!(matches!(ledger.deposit([8; 32], output, &inputs), Verdict::Connected));
    assert_eq!(ledger.ctip(6).unwrap().outpoint.txid, [8; 32]);
    assert_eq!(ledger.ctip(6).unwrap().outpoint.vout, 9);
    assert!(matches!(
        ledger.deposit([9; 32], output, &inputs),
        Verdict::Rejected(ConnectBlockError::CtipNotSpent { sidechain_number: 6 }),
    ));
}

#[test]
fn coins_are_in_the_last_drivechain_output() {
    let (mut ledger, outpoint) = with_ctip(6, 1000);
    ledger.insert_ctip(8, Ctip { outpoint: OutPoint { txid: [9; 32], vout: 0 }, value: 5 });
    let first = spending(outpoint, vec![drivechain_output(6, 1000)]);
    let between = OutPoint { txid: outside(&first).compute_txid().to_byte_array(), vout: 0 };
    let last = spending(between, vec![plain_output(), drivechain_output(6, 1001)]);
    let id = outside(&last).compute_txid().to_byte_array();
    let other = spending(outpoint, vec![plain_output()]);
    connect(&mut ledger, &transactions(vec![first, last, other]), 10);
    assert_eq!(ledger.ctip(6).unwrap().outpoint.txid, id);
    assert_eq!(ledger.ctip(6).unwrap().outpoint.vout, 1);
    assert_eq!(ledger.ctip(8).unwrap().outpoint.txid, [9; 32]);
}

#[test]
fn sidechains_are_activated_by_the_vote_they_need() {
    let mut ledger = with_votes(4, b"chain", USED_THRESHOLD - 1, 100);
    used(&mut ledger, 4);
    used(&mut ledger, 5);
    let (votes, last) = (vec![ack(4, b"chain"), ack(4, b"chain"), ack(4, b"chain")], 777);
    connect(&mut ledger, &coinbase(votes), last);
    assert_eq!(ledger.sidechain(4).unwrap().vote_count, 13_151);
    assert_eq!(ledger.sidechain(4).unwrap().activation_height, last);
    assert_eq!(ledger.sidechain(4).unwrap().data, b"chain".to_vec());
    assert_eq!(ledger.sidechain(5).unwrap().activation_height, 2);
}

#[test]
fn coinbase_leaves_the_coins() {
    let (mut ledger, outpoint) = with_ctip(6, 1000);
    ledger.insert_bundles(6, bundles(&[1]));
    let block = coinbase(vec![
        propose(6, b"chain"),
        ack(6, b"chain"),
        CoinbaseMessage::M3ProposeBundle { sidechain_number: 6, bundle_txid: [8; 32] },
        one_byte(vec![0, 0, 0, 0, 0, 0, 0]),
    ]);
    connect(&mut ledger, &block, 100);
    assert_eq!(ledger.ctip(6).unwrap().value, 1000);
    assert_eq!(ledger.ctip(6).unwrap().outpoint.txid, outpoint.txid);
    assert_eq!(votes(&ledger, 6), vec![2, 0]);
}
