use bip300_enforcer::consensus::transaction_root;
use bip300_enforcer::select::{find_ctip_after, Payout, SelectAction, SelectEvent, Selection};
use bip300_enforcer::types::{
    BundleProposal, Ctip, OutPoint, SidechainBundles, Transaction, TxOut,
    WITHDRAWAL_BUNDLE_INCLUSION_THRESHOLD,
};

fn tx(n: i32, outputs: usize) -> Transaction {
    let mut output = vec![];
    for i in 0..outputs {
        output.push(TxOut { value: i as u64, script_pubkey: vec![0x51] });
    }
    Transaction { version: n, lock_time: 0, input: vec![], output }
}

fn id(tx: Transaction) -> [u8; 32] {
    transaction_root(&vec![tx]).unwrap()
}

fn bundle(n: u8, fee: u64, payout: u64, vote_count: Option<u16>) -> BundleProposal {
    BundleProposal { m6id: [n; 32], fee, payout, vote_count }
}

fn ready() -> Option<u16> {
    Some(WITHDRAWAL_BUNDLE_INCLUSION_THRESHOLD + 1)
}

struct Run {
    log: Vec<String>,
    made: Vec<Ctip>,
    chosen: Option<Vec<i32>>,
}

/// Each M6 has the first byte of its id as its version, and two outputs.
fn drive(bundles: Vec<(u8, Vec<BundleProposal>)>, mempool: Vec<u8>, m6_outputs: usize) -> Run {
    let mut run = Run { log: vec![], made: vec![], chosen: None };
    let (mut selection, mut action) = Selection::new();
    loop {
        let event = match action {
            SelectAction::ListBundleProposals => SelectEvent::BundleProposals(
                bundles
                    .iter()
                    .map(|(n, b)| SidechainBundles { sidechain_number: *n, bundles: b.clone() })
                    .collect(),
            ),
            SelectAction::ReadCtip(n) => {
                run.log.push(format!("ctip {}", n));
                SelectEvent::Ctip(Ctip {
                    outpoint: OutPoint { txid: [n; 32], vout: n as u32 },
                    value: 1000,
                })
            }
            SelectAction::MakeM6 { sidechain_number, m6id, ctip } => {
                run.log.push(format!("m6 {} {} {}", sidechain_number, m6id[0], ctip.value));
                run.made.push(ctip);
                SelectEvent::M6(tx(m6id[0] as i32, m6_outputs))
            }
            SelectAction::ListMempool => {
                run.log.push("mempool".to_string());
                SelectEvent::Mempool(mempool.iter().map(|n| [*n; 32]).collect())
            }
            SelectAction::FetchTransaction(id) => {
                run.log.push(format!("fetch {}", id[0]));
                SelectEvent::Transaction(tx(id[0] as i32, 1))
            }
            SelectAction::Finish(txs) => {
                run.chosen = Some(txs.iter().map(|t| t.version).collect());
                return run;
            }
            SelectAction::Fail => panic!("nothing has failed"),
        };
        match selection.step(event) {
            Some(next) => {
                selection = next.0;
                action = next.1;
            }
            None => return run,
        }
    }
}

#[test]
fn mempool_is_taken_whole() {
    let run = drive(vec![], vec![5, 3, 4], 2);
    assert_eq!(run.log, vec!["mempool", "fetch 5", "fetch 3", "fetch 4"]);
    assert_eq!(run.chosen, Some(vec![5, 3, 4]));
    assert_eq!(drive(vec![], vec![], 2).chosen, Some(vec![]));
}

#[test]
fn only_bundles_with_enough_votes_are_paid_out() {
    let run = drive(
        vec![(
            2,
            vec![
                bundle(1, 1, 2, None),
                bundle(2, 1, 2, Some(WITHDRAWAL_BUNDLE_INCLUSION_THRESHOLD)),
                bundle(3, 10, 20, ready()),
            ],
        )],
        vec![],
        2,
    );
    assert_eq!(run.log, vec!["ctip 2", "m6 2 3 1000", "mempool"]);
    assert_eq!(run.chosen, Some(vec![3]));
}

#[test]
fn payouts_of_a_sidechain_follow_each_other() {
    let run = drive(
        vec![
            (2, vec![bundle(1, 10, 90, ready()), bundle(2, 1, 2, None), bundle(3, 0, 900, ready())]),
            (7, vec![bundle(4, 1, 1, None)]),
            (8, vec![bundle(5, 1, 1, ready())]),
        ],
        vec![9],
        2,
    );
    let expected = vec![
        "ctip 2", "m6 2 1 1000", "m6 2 3 900", "ctip 8", "m6 8 5 1000", "mempool", "fetch 9",
    ];
    assert_eq!(run.log, expected);
    assert_eq!(run.chosen, Some(vec![1, 3, 5, 9]));
    assert_eq!(run.made[0].outpoint.txid, [2; 32]);
    assert_eq!(run.made[0].outpoint.vout, 2);
    assert_eq!(run.made[1].outpoint.txid, id(tx(1, 2)));
    assert_eq!(run.made[1].outpoint.vout, 1);
    assert_eq!(run.made[2].outpoint.txid, [8; 32]);
}

#[test]
fn payout_of_more_than_there_is_stops_the_selection() {
    let run = drive(vec![(2, vec![bundle(1, 1, 1000, ready())])], vec![9], 2);
    assert_eq!(run.log, vec!["ctip 2"]);
    assert_eq!(run.chosen, None);
    let run = drive(vec![(2, vec![bundle(1, u64::MAX, u64::MAX, ready())])], vec![9], 2);
    assert_eq!(run.chosen, None);
    let run = drive(
        vec![(2, vec![bundle(1, 0, 600, ready()), bundle(2, 0, 600, ready())])],
        vec![9],
        2,
    );
    assert_eq!(run.log, vec!["ctip 2", "m6 2 1 1000"]);
    assert_eq!(run.chosen, None);
}

#[test]
fn payout_without_outputs_stops_the_selection() {
    let run = drive(vec![(2, vec![bundle(1, 1, 2, ready())])], vec![9], 0);
    assert_eq!(run.chosen, None);
}

#[test]
fn unexpected_event_is_not_taken() {
    let (selection, _) = Selection::new();
    assert!(selection.step(SelectEvent::Mempool(vec![])).is_none());
}

#[test]
fn payout_leaves_the_rest_in_the_last_output() {
    let ctip = Ctip { outpoint: OutPoint { txid: [1; 32], vout: 0 }, value: 100 };
    let payout = Payout { sidechain_number: 2, m6id: [3; 32], fee: 10, payout: 90, first: true };
    let left = find_ctip_after(&ctip, &payout, [4; 32], 3).unwrap();
    assert_eq!(left.value, 0);
    assert_eq!(left.outpoint.txid, [4; 32]);
    assert_eq!(left.outpoint.vout, 2);
    assert!(find_ctip_after(&ctip, &payout, [4; 32], 0).is_none());
    let more = Payout { payout: 91, ..payout };
    assert!(find_ctip_after(&ctip, &more, [4; 32], 3).is_none());
    let most = Payout { fee: u64::MAX, payout: u64::MAX, ..payout };
    assert!(find_ctip_after(&ctip, &most, [4; 32], 3).is_none());
}

#[test]
fn failure_ends_the_selection() {
    let (selection, _) = Selection::new();
    let (selection, action) = selection.step(SelectEvent::BundleProposals(vec![])).unwrap();
    assert!(matches!(action, SelectAction::ListMempool));
    let (selection, action) = selection.step(SelectEvent::Failed).unwrap();
    assert!(matches!(action, SelectAction::Fail));
    assert!(selection.step(SelectEvent::Mempool(vec![])).is_none());
    let (selection, _) = Selection::new();
    let (selection, action) = selection.step(SelectEvent::Failed).unwrap();
    assert!(matches!(action, SelectAction::Fail));
    assert!(selection.step(SelectEvent::Failed).is_none());
}
