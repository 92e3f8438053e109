use bip300_enforcer::coinbase::{
    extend_template, find_unvoted, CoinbaseDraft, DraftAction, DraftEvent,
};
use bip300_enforcer::types::{
    BmmRequest, BundleProposal, SidechainAck, SidechainBundles, SidechainDescription, TxOut,
};
use bitcoin::hashes::{sha256d, Hash as _};

struct Wallet {
    our: Vec<(u8, Vec<u8>)>,
    acks: Vec<SidechainAck>,
    active: Vec<(u8, Vec<u8>)>,
    /// Block, number and hash.
    bmm: Vec<([u8; 32], u8, [u8; 32])>,
    bundles: Vec<(u8, Vec<BundleProposal>)>,
    sidechains: Vec<(u8, bool)>,
}

fn empty() -> Wallet {
    Wallet {
        our: vec![],
        acks: vec![],
        active: vec![],
        bmm: vec![],
        bundles: vec![],
        sidechains: vec![],
    }
}

fn digest(data: &[u8]) -> [u8; 32] {
    sha256d::Hash::hash(data).to_byte_array()
}

fn descriptions(list: &Vec<(u8, Vec<u8>)>) -> Vec<SidechainDescription> {
    list.iter()
        .map(|(n, d)| SidechainDescription { sidechain_number: *n, description: d.clone() })
        .collect()
}

fn ack(sidechain_number: u8, description: &[u8]) -> SidechainAck {
    SidechainAck { sidechain_number, description_hash: digest(description) }
}

fn bundle(n: u8, vote_count: Option<u16>) -> BundleProposal {
    BundleProposal { m6id: [n; 32], fee: 1, payout: 2, vote_count }
}

const TIP: [u8; 32] = [0x77; 32];

fn drive(wallet: &Wallet, ack_all: bool) -> Vec<String> {
    let mut log = vec![];
    let mut acked = 0;
    let (mut draft, mut action) = CoinbaseDraft::new(ack_all, TIP);
    loop {
        let event = match action {
            DraftAction::ListOurProposals => DraftEvent::OurProposals(descriptions(&wallet.our)),
            DraftAction::ProposeSidechains(list) => {
                for p in list {
                    log.push(format!("propose {} {:?}", p.sidechain_number, p.description));
                }
                DraftEvent::Done
            }
            DraftAction::ListAcks => DraftEvent::Acks(wallet.acks.clone()),
            DraftAction::ListActiveProposals => {
                DraftEvent::ActiveProposals(descriptions(&wallet.active))
            }
            DraftAction::StoreAcks(list) => {
                for a in list {
                    log.push(format!("store {} {:02x}", a.sidechain_number, a.description_hash[0]));
                }
                DraftEvent::Done
            }
            DraftAction::ValidateAck { ack, active } => {
                assert_eq!(active.len(), wallet.active.len());
                DraftEvent::AckIsValid(active.iter().any(|p| {
                    p.sidechain_number == ack.sidechain_number
                        && digest(&p.description) == ack.description_hash
                }))
            }
            DraftAction::DeleteAck(a) => {
                log.push(format!("delete {}", a.sidechain_number));
                DraftEvent::Done
            }
            DraftAction::AckSidechain(a) => {
                acked += 1;
                log.push(format!("ack {}", a.sidechain_number));
                DraftEvent::Done
            }
            DraftAction::ListBmmRequests { tip } => DraftEvent::BmmRequests(
                wallet
                    .bmm
                    .iter()
                    .filter(|(block, _, _)| *block == tip)
                    .map(|(_, n, h)| BmmRequest { sidechain_number: *n, bmm_hash: *h })
                    .collect(),
            ),
            DraftAction::AcceptBmm(list) => {
                for r in list {
                    log.push(format!("bmm {} {}", r.sidechain_number, r.bmm_hash[0]));
                }
                DraftEvent::Done
            }
            DraftAction::ListBundleProposals => DraftEvent::BundleProposals(
                wallet
                    .bundles
                    .iter()
                    .map(|(n, b)| SidechainBundles { sidechain_number: *n, bundles: b.clone() })
                    .collect(),
            ),
            DraftAction::ProposeBundles(list) => {
                for b in list {
                    log.push(format!("bundle {} {}", b.sidechain_number, b.m6id[0]));
                }
                DraftEvent::Done
            }
            DraftAction::CountAcks => DraftEvent::AckCount(acked),
            DraftAction::ListActiveSidechains => {
                DraftEvent::ActiveSidechains(wallet.sidechains.iter().map(|(n, _)| *n).collect())
            }
            DraftAction::CheckPendingWithdrawals(n) => DraftEvent::WithdrawalsPending(
                wallet.sidechains.iter().any(|(m, pending)| *m == n && *pending),
            ),
            DraftAction::AckBundles(upvotes) => {
                log.push(format!("upvotes {:?}", upvotes));
                DraftEvent::Done
            }
            DraftAction::Build => {
                log.push("build".to_string());
                return log;
            }
            DraftAction::Fail => panic!("nothing has failed"),
        };
        let next = draft.step(event).unwrap();
        draft = next.0;
        action = next.1;
    }
}

#[test]
fn empty_wallet_builds_at_once() {
    assert_eq!(drive(&empty(), false), vec!["build"]);
    assert_eq!(drive(&empty(), true), vec!["upvotes []", "build"]);
}

#[test]
fn own_proposals_come_first() {
    let mut wallet = empty();
    wallet.our = vec![(3, vec![1, 2]), (1, vec![])];
    wallet.bmm = vec![(TIP, 9, [8; 32]), ([1; 32], 4, [6; 32]), (TIP, 2, [7; 32])];
    let expected = vec!["propose 3 [1, 2]", "propose 1 []", "bmm 9 8", "bmm 2 7", "build"];
    assert_eq!(drive(&wallet, false), expected);
}

#[test]
fn stored_acks_are_added_or_deleted() {
    let mut wallet = empty();
    wallet.active = vec![(3, vec![1]), (4, vec![2])];
    wallet.acks = vec![ack(3, &[1]), ack(4, &[9]), ack(5, &[2])];
    assert_eq!(drive(&wallet, false), vec!["ack 3", "delete 4", "delete 5", "build"]);
}

#[test]
fn missing_acks_are_stored_and_added() {
    let mut wallet = empty();
    wallet.active = vec![(3, vec![1]), (4, vec![2]), (5, vec![3])];
    wallet.acks = vec![ack(4, &[9])];
    let expected = vec![
        format!("store 3 {:02x}", digest(&[1])[0]),
        format!("store 5 {:02x}", digest(&[3])[0]),
        "delete 4".to_string(),
        "ack 3".to_string(),
        "ack 5".to_string(),
        "build".to_string(),
    ];
    assert_eq!(drive(&wallet, true), expected);
}

#[test]
fn a_number_gets_one_missing_ack() {
    let mut wallet = empty();
    wallet.active = vec![(3, vec![1]), (3, vec![2])];
    let expected = vec![
        format!("store 3 {:02x}", digest(&[1])[0]),
        "ack 3".to_string(),
        "build".to_string(),
    ];
    assert_eq!(drive(&wallet, true), expected);
}

#[test]
fn bundles_that_are_in_no_block_are_proposed() {
    let mut wallet = empty();
    wallet.bundles = vec![
        (2, vec![bundle(1, None), bundle(2, Some(0)), bundle(3, None)]),
        (1, vec![bundle(4, Some(9))]),
        (7, vec![bundle(5, None)]),
    ];
    assert_eq!(drive(&wallet, false), vec!["bundle 2 1", "bundle 2 3", "bundle 7 5", "build"]);
}

#[test]
fn bundles_are_voted_on_where_withdrawals_are_pending() {
    let mut wallet = empty();
    wallet.sidechains = vec![(2, true), (5, false), (9, true)];
    assert_eq!(drive(&wallet, true), vec!["upvotes [0, 255, 0]", "build"]);
    assert_eq!(drive(&wallet, false), vec!["build"]);
}

#[test]
fn bundles_are_not_voted_on_beside_a_sidechain() {
    let mut wallet = empty();
    wallet.sidechains = vec![(2, true)];
    wallet.active = vec![(3, vec![1])];
    wallet.acks = vec![ack(3, &[1])];
    assert_eq!(drive(&wallet, true), vec!["ack 3", "build"]);
}

#[test]
fn unexpected_event_is_refused() {
    let (draft, _) = CoinbaseDraft::new(true, TIP);
    assert!(draft.step(DraftEvent::Done).is_none());
}

#[test]
fn requests_for_another_block_are_not_accepted() {
    let mut wallet = empty();
    wallet.bmm = vec![([0x76; 32], 9, [8; 32]), ([0; 32], 2, [7; 32])];
    assert_eq!(drive(&wallet, false), vec!["build"]);
    assert_eq!(drive(&wallet, true), vec!["upvotes []", "build"]);
}

#[test]
fn failure_ends_the_draft() {
    for failing in 0..4 {
        let (mut draft, _) = CoinbaseDraft::new(true, TIP);
        let mut events = vec![
            DraftEvent::OurProposals(vec![]),
            DraftEvent::Done,
            DraftEvent::Acks(vec![ack(1, &[])]),
            DraftEvent::ActiveProposals(vec![]),
        ];
        events.truncate(failing);
        for event in events {
            draft = draft.step(event).unwrap().0;
        }
        let (draft, action) = draft.step(DraftEvent::Failed).unwrap();
        assert!(matches!(action, DraftAction::Fail));
        assert!(draft.step(DraftEvent::Done).is_none());
    }
    let (draft, _) = CoinbaseDraft::new(true, TIP);
    let (draft, _) = draft.step(DraftEvent::Failed).unwrap();
    assert!(draft.step(DraftEvent::Failed).is_none());
}

#[test]
fn template_is_extended() {
    let mut txouts = vec![TxOut { value: 1, script_pubkey: vec![1] }];
    extend_template(
        &mut txouts,
        vec![
            TxOut { value: 2, script_pubkey: vec![2] },
            TxOut { value: 3, script_pubkey: vec![3] },
        ],
    );
    assert_eq!(txouts.iter().map(|o| o.value).collect::<Vec<_>>(), vec![1, 2, 3]);
    assert_eq!(txouts[2].script_pubkey, vec![3]);
}

#[test]
fn first_vote_for_each_number_without_one_is_missing() {
    let vote = |sidechain_number: u8, n: u8| SidechainAck {
        sidechain_number,
        description_hash: [n; 32],
    };
    let missing = find_unvoted(
        &vec![vote(1, 0)],
        &vec![vote(1, 1), vote(2, 2), vote(3, 3), vote(2, 4)],
    );
    let found: Vec<(u8, u8)> =
        missing.iter().map(|a| (a.sidechain_number, a.description_hash[0])).collect();
    assert_eq!(found, vec![(2, 2), (3, 3)]);
}
