use bip300_enforcer::generate::{GenerateAction, GenerateEvent, Generation};
use bip300_enforcer::types::{Transaction, TxOut};

fn name(action: &GenerateAction) -> String {
    match action {
        GenerateAction::ReadTip => "tip".to_string(),
        GenerateAction::GenerateTxouts { tip, ack_all } => {
            format!("txouts {} {}", tip[0], ack_all)
        }
        GenerateAction::SelectTxs => "txs".to_string(),
        GenerateAction::Mine { txouts, transactions } => {
            format!("mine {} {}", txouts.len(), transactions.len())
        }
        GenerateAction::DeleteProposals => "delete proposals".to_string(),
        GenerateAction::DeleteBmmRequests { tip } => format!("delete bmm {}", tip[0]),
        GenerateAction::Yield { block_hash } => format!("yield {}", block_hash[0]),
        GenerateAction::NotSynced => "not synced".to_string(),
        GenerateAction::Fail => "fail".to_string(),
        GenerateAction::End => "end".to_string(),
    }
}

fn feed(mut generation: Generation, events: Vec<GenerateEvent>) -> (Generation, Vec<String>) {
    let mut log = vec![];
    for event in events {
        let next = generation.step(event).unwrap();
        generation = next.0;
        log.push(name(&next.1));
    }
    (generation, log)
}

fn block(n: u8) -> Vec<GenerateEvent> {
    vec![
        GenerateEvent::Next,
        GenerateEvent::Tip(Some([n; 32])),
        GenerateEvent::Txouts(vec![TxOut { value: 1, script_pubkey: vec![] }]),
        GenerateEvent::Txs(vec![
            Transaction { version: 1, lock_time: 0, input: vec![], output: vec![] },
            Transaction { version: 2, lock_time: 0, input: vec![], output: vec![] },
        ]),
        GenerateEvent::Mined([n + 1; 32]),
        GenerateEvent::Done,
        GenerateEvent::Done,
    ]
}

#[test]
fn blocks_are_made_in_order() {
    let (generation, log) = feed(Generation::new(2, true), block(5));
    let expected = vec![
        "tip", "txouts 5 true", "txs", "mine 1 2", "delete proposals", "delete bmm 5", "yield 6",
    ];
    assert_eq!(log, expected);
    let (generation, log) = feed(generation, block(6));
    assert_eq!(log.last().unwrap(), "yield 7");
    let (_, log) = feed(generation, vec![GenerateEvent::Next, GenerateEvent::Next]);
    assert_eq!(log, vec!["end", "end"]);
}

#[test]
fn no_blocks_end_at_once() {
    let (_, log) = feed(Generation::new(0, true), vec![GenerateEvent::Next]);
    assert_eq!(log, vec!["end"]);
}

#[test]
fn missing_tip_ends_the_generation() {
    let events = vec![GenerateEvent::Next, GenerateEvent::Tip(None), GenerateEvent::Next];
    let (_, log) = feed(Generation::new(3, true), events);
    assert_eq!(log, vec!["tip", "not synced", "end"]);
}

#[test]
fn failure_ends_the_generation() {
    for failing in 1..7 {
        let mut events = block(5);
        events.truncate(failing);
        events.push(GenerateEvent::Failed);
        events.push(GenerateEvent::Next);
        let (_, log) = feed(Generation::new(3, true), events);
        assert_eq!(log[failing], "fail");
        assert_eq!(log[failing + 1], "end");
    }
}

#[test]
fn unexpected_event_goes_nowhere() {
    assert!(Generation::new(1, true).step(GenerateEvent::Done).is_none());
    assert!(Generation::new(1, true).step(GenerateEvent::Failed).is_none());
}

#[test]
fn votes_are_cast_as_asked_for() {
    let (generation, log) = feed(Generation::new(2, false), block(5));
    assert_eq!(log[1], "txouts 5 false");
    let (_, log) = feed(generation, block(6));
    assert_eq!(log[1], "txouts 6 false");
}
