//! What a block does to the records kept of sidechains.

use vstd::prelude::*;
use vstd::string::*;
use crate::consensus::txid;
use crate::messages::{
    sha256d_digest, CoinbaseMessage, CoinbaseMessageView, M4AckBundlesView, ABSTAIN_ONE_BYTE,
    ABSTAIN_TWO_BYTES, ALARM_ONE_BYTE, ALARM_TWO_BYTES, OP_DRIVECHAIN,
};
use crate::types::{
    views, BundleView, CtipView, OutPointView, SidechainProposalView, SidechainView, Transaction,
    TransactionView, TxInView, TxOutView,
};

verus! {

/// A proposal for a number that is in use fails once it is older than this.
pub const USED_MAX_AGE: u16 = 26_300;

/// A proposal needs more votes than this to become a sidechain, and to outlive
/// `USED_MAX_AGE` where its number is in use.
pub const USED_THRESHOLD: u16 = 13_150;

/// A proposal for a number that is not in use fails once it is older than this.
pub const UNUSED_MAX_AGE: u16 = 2016;

/// A proposal for a number that is not in use needs more votes than this to
/// outlive `UNUSED_MAX_AGE`.
pub const UNUSED_THRESHOLD: u16 = 1815;

/// The opcode that pushes one byte.
pub const OP_PUSHBYTES_1: u8 = 0x01;

/// The opcode that pushes the number one.
pub const OP_TRUE: u8 = 0x51;

/// The records kept of sidechains.
pub struct LedgerView {
    /// The proposals that are voted on, by the hash of their data.
    pub proposals: Map<Seq<u8>, SidechainProposalView>,
    /// The withdrawal bundles of each sidechain, in the order of their proposal.
    pub bundles: Map<u8, Seq<BundleView>>,
    /// The active sidechains.
    pub sidechains: Map<u8, SidechainView>,
    /// The output that holds the coins of each sidechain.
    pub ctips: Map<u8, CtipView>,
}

/// What connecting reads of a block: for each output of the coinbase the message
/// in its script or why there is none, and the other transactions.
pub struct BlockContents {
    pub coinbase: Vec<Result<CoinbaseMessage, String>>,
    pub transactions: Vec<Transaction>,
}

pub struct BlockContentsView {
    pub coinbase: Seq<Result<CoinbaseMessageView, Seq<char>>>,
    pub transactions: Seq<TransactionView>,
}

/// The view of what was read from the script of a coinbase output.
pub open spec fn parsed_view(parsed: Result<CoinbaseMessage, String>) -> Result<
    CoinbaseMessageView,
    Seq<char>,
> {
    match parsed {
        Ok(message) => Ok(message@),
        Err(reason) => Err(reason@),
    }
}

impl View for BlockContents {
    type V = BlockContentsView;

    open spec fn view(&self) -> BlockContentsView {
        BlockContentsView {
            coinbase: Seq::new(self.coinbase@.len(), |i: int| parsed_view(self.coinbase@[i])),
            transactions: views(self.transactions@),
        }
    }
}

/// Why a block is rejected.
#[derive(Debug)]
pub enum ConnectBlockError {
    /// The script of a coinbase output holds no message.
    ParseCoinbaseScript(String),
    /// A transaction has more than one `OP_DRIVECHAIN` output.
    MultipleDrivechainOutputs,
    /// An `OP_DRIVECHAIN` output has the wrong form.
    InvalidDrivechainOutput,
    /// A transaction pays to a sidechain that holds no coins.
    NoCtip { sidechain_number: u8 },
    /// A transaction pays to a sidechain without spending the output that holds
    /// its coins.
    CtipNotSpent { sidechain_number: u8 },
}

pub enum ConnectBlockErrorView {
    ParseCoinbaseScript(Seq<char>),
    MultipleDrivechainOutputs,
    InvalidDrivechainOutput,
    NoCtip { sidechain_number: u8 },
    CtipNotSpent { sidechain_number: u8 },
}

impl View for ConnectBlockError {
    type V = ConnectBlockErrorView;

    open spec fn view(&self) -> ConnectBlockErrorView {
        match self {
            ConnectBlockError::ParseCoinbaseScript(reason) => {
                ConnectBlockErrorView::ParseCoinbaseScript(reason@)
            },
            ConnectBlockError::MultipleDrivechainOutputs => {
                ConnectBlockErrorView::MultipleDrivechainOutputs
            },
            ConnectBlockError::InvalidDrivechainOutput => {
                ConnectBlockErrorView::InvalidDrivechainOutput
            },
            ConnectBlockError::NoCtip { sidechain_number } => ConnectBlockErrorView::NoCtip {
                sidechain_number: *sidechain_number,
            },
            ConnectBlockError::CtipNotSpent { sidechain_number } => {
                ConnectBlockErrorView::CtipNotSpent { sidechain_number: *sidechain_number }
            },
        }
    }
}

/// The digit of a number below ten.
pub open spec fn digit(n: int) -> char {
    ('0' as int + n) as char
}

/// The decimal digits of a number, without leading zeroes.
pub open spec fn decimal(n: nat) -> Seq<char>
    decreases n,
{
    if n < 10 {
        seq![digit(n as int)]
    } else {
        decimal(n / 10).push(digit((n % 10) as int))
    }
}

/// Appends the decimal digits of `n`.
fn append_decimal(text: &mut String, n: u8)
    ensures
        final(text)@ == old(text)@ + decimal(n as nat),
    decreases n,
{
    let ghost start = text@;
    if n >= 10 {
        append_decimal(text, n / 10);
    }
    let last: u8 = n % 10;
    proof {
        reveal_strlit("0");
        reveal_strlit("1");
        reveal_strlit("2");
        reveal_strlit("3");
        reveal_strlit("4");
        reveal_strlit("5");
        reveal_strlit("6");
        reveal_strlit("7");
        reveal_strlit("8");
        reveal_strlit("9");
    }
    let shown: &str = match last {
        0 => "0",
        1 => "1",
        2 => "2",
        3 => "3",
        4 => "4",
        5 => "5",
        6 => "6",
        7 => "7",
        8 => "8",
        _ => "9",
    };
    assert(shown@ =~= seq![digit(last as int)]);
    text.append(shown);
    assert(text@ =~= start + decimal(n as nat));
}

impl ConnectBlockErrorView {
    /// What is said of the error.
    pub open spec fn text(&self) -> Seq<char> {
        match self {
            ConnectBlockErrorView::ParseCoinbaseScript(reason) => {
                "failed to parse coinbase script: "@ + *reason
            },
            ConnectBlockErrorView::MultipleDrivechainOutputs => {
                "more than one OP_DRIVECHAIN output"@
            },
            ConnectBlockErrorView::InvalidDrivechainOutput => "invalid OP_DRIVECHAIN output"@,
            ConnectBlockErrorView::NoCtip { sidechain_number } => {
                "sidechain "@ + decimal(*sidechain_number as nat) + " doesn't have ctip"@
            },
            ConnectBlockErrorView::CtipNotSpent { sidechain_number } => {
                "old ctip wasn't spent for sidechain "@ + decimal(*sidechain_number as nat)
            },
        }
    }
}

impl ConnectBlockError {
    /// What is said of the error.
    pub fn to_string(&self) -> (text: String)
        ensures
            text@ == self@.text(),
    {
        let mut text = String::new();
        match self {
            ConnectBlockError::ParseCoinbaseScript(reason) => {
                text.append("failed to parse coinbase script: ");
                text.append(reason.as_str());
            },
            ConnectBlockError::MultipleDrivechainOutputs => {
                text.append("more than one OP_DRIVECHAIN output");
            },
            ConnectBlockError::InvalidDrivechainOutput => {
                text.append("invalid OP_DRIVECHAIN output");
            },
            ConnectBlockError::NoCtip { sidechain_number } => {
                text.append("sidechain ");
                append_decimal(&mut text, *sidechain_number);
                text.append(" doesn't have ctip");
            },
            ConnectBlockError::CtipNotSpent { sidechain_number } => {
                text.append("old ctip wasn't spent for sidechain ");
                append_decimal(&mut text, *sidechain_number);
            },
        }
        assert(text@ =~= self@.text());
        text
    }
}

/// What comes of connecting a block, or a part of it.
pub enum Outcome {
    /// The records afterwards.
    Connected(LedgerView),
    /// The block is invalid.
    Rejected(ConnectBlockErrorView),
    /// The block asks for what there is no rule for: a vote by reference, a
    /// withdrawal, a vote that its count does not hold, a vote for a proposal from
    /// a later height, or a script that ends too soon.
    Unsupported,
}

/// M1: a proposal begins without votes. A second proposal of the same data
/// changes nothing.
pub open spec fn propose_sidechain(
    ledger: LedgerView,
    sidechain_number: u8,
    data: Seq<u8>,
    height: u32,
) -> LedgerView {
    propose_hashed(ledger, sha256d_digest(data), sidechain_number, data, height)
}

/// M1, with the hash of the data.
pub open spec fn propose_hashed(
    ledger: LedgerView,
    hash: Seq<u8>,
    sidechain_number: u8,
    data: Seq<u8>,
    height: u32,
) -> LedgerView {
    if ledger.proposals.contains_key(hash) {
        ledger
    } else {
        let proposal = SidechainProposalView {
            sidechain_number,
            data,
            vote_count: 0,
            proposal_height: height,
        };
        LedgerView { proposals: ledger.proposals.insert(hash, proposal), ..ledger }
    }
}

/// Whether a proposal of this age has failed with these votes. `used` says
/// whether its number is in use.
pub open spec fn proposal_failed(used: bool, age: int, vote_count: int) -> bool {
    if used {
        age > USED_MAX_AGE && vote_count <= USED_THRESHOLD
    } else {
        age > UNUSED_MAX_AGE && vote_count <= UNUSED_THRESHOLD
    }
}

/// M2: a vote for the proposal with this hash, if it is for this number. With it
/// the proposal fails, becomes a sidechain or waits for more votes. There is no
/// rule for a vote that cannot be counted or that precedes the proposal.
pub open spec fn ack_sidechain(
    ledger: LedgerView,
    sidechain_number: u8,
    hash: Seq<u8>,
    height: u32,
) -> Option<LedgerView> {
    if !ledger.proposals.contains_key(hash) || ledger.proposals[hash].sidechain_number
        != sidechain_number {
        Some(ledger)
    } else {
        let proposal = ledger.proposals[hash];
        let votes = proposal.vote_count + 1;
        let age = height - proposal.proposal_height;
        let used = ledger.sidechains.contains_key(sidechain_number);
        if votes > u16::MAX || age < 0 {
            None
        } else if proposal_failed(used, age, votes) {
            Some(LedgerView { proposals: ledger.proposals.remove(hash), ..ledger })
        } else if votes > USED_THRESHOLD {
            let sidechain = SidechainView {
                sidechain_number,
                data: proposal.data,
                vote_count: votes as u16,
                proposal_height: proposal.proposal_height,
                activation_height: height,
            };
            Some(
                LedgerView {
                    proposals: ledger.proposals.remove(hash),
                    sidechains: ledger.sidechains.insert(sidechain_number, sidechain),
                    ..ledger
                },
            )
        } else {
            let voted = SidechainProposalView { vote_count: votes as u16, ..proposal };
            Some(LedgerView { proposals: ledger.proposals.insert(hash, voted), ..ledger })
        }
    }
}

/// M3: a bundle begins without votes, in a sidechain that has bundles.
pub open spec fn propose_bundle(ledger: LedgerView, sidechain_number: u8, bundle_txid: Seq<u8>) ->
    LedgerView {
    if ledger.bundles.contains_key(sidechain_number) {
        let bundle = BundleView { bundle_txid, vote_count: 0 };
        let bundles = ledger.bundles[sidechain_number].push(bundle);
        LedgerView { bundles: ledger.bundles.insert(sidechain_number, bundles), ..ledger }
    } else {
        ledger
    }
}

/// A vote on the bundles of one sidechain.
#[derive(Clone, Copy, Debug, PartialEq, Eq, Structural)]
pub enum Vote {
    Abstain,
    /// Against every bundle.
    Alarm,
    /// For the bundle at this index.
    Upvote(u16),
}

/// The vote that a byte stands for.
pub open spec fn one_byte_vote(upvote: u8) -> Vote {
    if upvote == ABSTAIN_ONE_BYTE {
        Vote::Abstain
    } else if upvote == ALARM_ONE_BYTE {
        Vote::Alarm
    } else {
        Vote::Upvote(upvote as u16)
    }
}

/// The vote that two bytes stand for.
pub open spec fn two_bytes_vote(upvote: u16) -> Vote {
    if upvote == ABSTAIN_TWO_BYTES {
        Vote::Abstain
    } else if upvote == ALARM_TWO_BYTES {
        Vote::Alarm
    } else {
        Vote::Upvote(upvote)
    }
}

/// `bundle` after an alarm: a vote less, if it had one.
pub open spec fn downvoted(bundle: BundleView) -> BundleView {
    BundleView {
        vote_count: if bundle.vote_count > 0 {
            (bundle.vote_count - 1) as u16
        } else {
            0
        },
        ..bundle
    }
}

/// `bundle` with a vote more.
pub open spec fn upvoted(bundle: BundleView) -> BundleView {
    BundleView { vote_count: (bundle.vote_count + 1) as u16, ..bundle }
}

/// The bundles of a sidechain after a vote. A vote for a bundle that is not there
/// changes nothing. There is no rule for a vote that cannot be counted.
pub open spec fn tally(bundles: Seq<BundleView>, vote: Vote) -> Option<Seq<BundleView>> {
    match vote {
        Vote::Abstain => Some(bundles),
        Vote::Alarm => Some(Seq::new(bundles.len(), |i: int| downvoted(bundles[i]))),
        Vote::Upvote(index) => if index >= bundles.len() {
            Some(bundles)
        } else if bundles[index as int].vote_count == u16::MAX {
            None
        } else {
            Some(bundles.update(index as int, upvoted(bundles[index as int])))
        },
    }
}

/// The bundles of all sidechains after a vote on those of one.
pub open spec fn cast_vote(
    bundles: Map<u8, Seq<BundleView>>,
    sidechain_number: u8,
    vote: Vote,
) -> Option<Map<u8, Seq<BundleView>>> {
    if bundles.contains_key(sidechain_number) {
        match tally(bundles[sidechain_number], vote) {
            Some(tallied) => Some(bundles.insert(sidechain_number, tallied)),
            None => None,
        }
    } else {
        Some(bundles)
    }
}

/// M4: the bundles of all sidechains after one vote for each sidechain number,
/// from zero on. Past the last number the votes begin at zero again.
pub open spec fn ack_bundles(bundles: Map<u8, Seq<BundleView>>, votes: Seq<Vote>) -> Option<
    Map<u8, Seq<BundleView>>,
>
    decreases votes.len(),
{
    if votes.len() == 0 {
        Some(bundles)
    } else {
        match ack_bundles(bundles, votes.drop_last()) {
            Some(before) => cast_vote(before, ((votes.len() - 1) % 256) as u8, votes.last()),
            None => None,
        }
    }
}

/// The votes of an M4 that lists them.
pub open spec fn listed_votes(m4: M4AckBundlesView) -> Option<Seq<Vote>> {
    match m4 {
        M4AckBundlesView::LeadingBy50 => None,
        M4AckBundlesView::RepeatPrevious => None,
        M4AckBundlesView::OneByte { upvotes } => Some(
            Seq::new(upvotes.len(), |i: int| one_byte_vote(upvotes[i])),
        ),
        M4AckBundlesView::TwoBytes { upvotes } => Some(
            Seq::new(upvotes.len(), |i: int| two_bytes_vote(upvotes[i])),
        ),
    }
}

/// The records after a coinbase message, where there is a rule for it.
pub open spec fn apply_message(
    ledger: LedgerView,
    message: CoinbaseMessageView,
    height: u32,
) -> Option<LedgerView> {
    match message {
        CoinbaseMessageView::M1ProposeSidechain { sidechain_number, data } => Some(
            propose_sidechain(ledger, sidechain_number, data, height),
        ),
        CoinbaseMessageView::M2AckSidechain { sidechain_number, data_hash } => ack_sidechain(
            ledger,
            sidechain_number,
            data_hash,
            height,
        ),
        CoinbaseMessageView::M3ProposeBundle { sidechain_number, bundle_txid } => Some(
            propose_bundle(ledger, sidechain_number, bundle_txid),
        ),
        CoinbaseMessageView::M4AckBundles(m4) => match listed_votes(m4) {
            None => None,
            Some(votes) => match ack_bundles(ledger.bundles, votes) {
                None => None,
                Some(bundles) => Some(LedgerView { bundles, ..ledger }),
            },
        },
    }
}

/// What comes of the outputs of a coinbase, taken in order up to the first that
/// is not connected.
pub open spec fn connect_coinbase(
    ledger: LedgerView,
    coinbase: Seq<Result<CoinbaseMessageView, Seq<char>>>,
    height: u32,
) -> Outcome
    decreases coinbase.len(),
{
    if coinbase.len() == 0 {
        Outcome::Connected(ledger)
    } else {
        match connect_coinbase(ledger, coinbase.drop_last(), height) {
            Outcome::Connected(before) => match coinbase.last() {
                Err(reason) => Outcome::Rejected(
                    ConnectBlockErrorView::ParseCoinbaseScript(reason),
                ),
                Ok(message) => match apply_message(before, message, height) {
                    Some(after) => Outcome::Connected(after),
                    None => Outcome::Unsupported,
                },
            },
            other => other,
        }
    }
}

/// The output of a transaction that holds the coins of a sidechain.
#[derive(Clone, Copy, Debug, PartialEq, Eq, Structural)]
pub struct DrivechainOutput {
    pub vout: u32,
    pub sidechain_number: u8,
    pub value: u64,
}

/// What a search for the `OP_DRIVECHAIN` output of a transaction finds.
pub enum Search {
    Found(Option<DrivechainOutput>),
    Rejected(ConnectBlockErrorView),
    Unsupported,
}

/// Searches the outputs in order, up to the first that is not to be accepted. An
/// `OP_DRIVECHAIN` output has the script
/// `OP_DRIVECHAIN OP_PUSHBYTES_1 <sidechain number> OP_TRUE`, and what follows.
pub open spec fn find_drivechain_output(outputs: Seq<TxOutView>) -> Search
    decreases outputs.len(),
{
    if outputs.len() == 0 {
        Search::Found(None)
    } else {
        match find_drivechain_output(outputs.drop_last()) {
            Search::Found(found) => {
                let script = outputs.last().script_pubkey;
                if script.len() == 0 {
                    Search::Unsupported
                } else if script[0] != OP_DRIVECHAIN {
                    Search::Found(found)
                } else if found is Some {
                    Search::Rejected(ConnectBlockErrorView::MultipleDrivechainOutputs)
                } else if script.len() < 2 {
                    Search::Unsupported
                } else if script[1] != OP_PUSHBYTES_1 {
                    Search::Rejected(ConnectBlockErrorView::InvalidDrivechainOutput)
                } else if script.len() < 4 {
                    Search::Unsupported
                } else if script[3] != OP_TRUE {
                    Search::Rejected(ConnectBlockErrorView::InvalidDrivechainOutput)
                } else {
                    Search::Found(
                        Some(
                            DrivechainOutput {
                                vout: (outputs.len() - 1) as u32,
                                sidechain_number: script[2],
                                value: outputs.last().value,
                            },
                        ),
                    )
                }
            },
            other => other,
        }
    }
}

/// Whether one of `inputs` spends `outpoint`.
pub open spec fn spends(inputs: Seq<TxInView>, outpoint: OutPointView) -> bool {
    exists|i: int| 0 <= i < inputs.len() && #[trigger] inputs[i].previous_output == outpoint
}

/// What comes of an `OP_DRIVECHAIN` output of the transaction with this id, which
/// has these inputs: a deposit (M5) replaces the output that holds the coins of a
/// sidechain by one that holds as much or more. There is no rule for a withdrawal
/// (M6).
pub open spec fn deposit(
    ledger: LedgerView,
    id: Seq<u8>,
    output: DrivechainOutput,
    inputs: Seq<TxInView>,
) -> Outcome {
    let sidechain_number = output.sidechain_number;
    if !ledger.ctips.contains_key(sidechain_number) {
        Outcome::Rejected(ConnectBlockErrorView::NoCtip { sidechain_number })
    } else if !spends(inputs, ledger.ctips[sidechain_number].outpoint) {
        Outcome::Rejected(ConnectBlockErrorView::CtipNotSpent { sidechain_number })
    } else if output.value < ledger.ctips[sidechain_number].value {
        Outcome::Unsupported
    } else {
        let ctip = CtipView {
            outpoint: OutPointView { txid: id, vout: output.vout },
            value: output.value,
        };
        Outcome::Connected(
            LedgerView { ctips: ledger.ctips.insert(sidechain_number, ctip), ..ledger },
        )
    }
}

/// What comes of a transaction.
pub open spec fn connect_transaction(ledger: LedgerView, tx: TransactionView) -> Outcome {
    match find_drivechain_output(tx.output) {
        Search::Rejected(error) => Outcome::Rejected(error),
        Search::Unsupported => Outcome::Unsupported,
        Search::Found(None) => Outcome::Connected(ledger),
        Search::Found(Some(output)) => deposit(ledger, txid(tx), output, tx.input),
    }
}

/// What comes of transactions, taken in order up to the first that is not
/// connected.
pub open spec fn connect_transactions(ledger: LedgerView, txs: Seq<TransactionView>) -> Outcome
    decreases txs.len(),
{
    if txs.len() == 0 {
        Outcome::Connected(ledger)
    } else {
        match connect_transactions(ledger, txs.drop_last()) {
            Outcome::Connected(before) => connect_transaction(before, txs.last()),
            other => other,
        }
    }
}

/// What comes of a block: first its coinbase, then the other transactions.
pub open spec fn connect(ledger: LedgerView, block: BlockContentsView, height: u32) -> Outcome {
    match connect_coinbase(ledger, block.coinbase, height) {
        Outcome::Connected(before) => connect_transactions(before, block.transactions),
        other => other,
    }
}

} // verus!
