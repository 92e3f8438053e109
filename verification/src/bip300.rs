//! The records kept of sidechains, and the blocks that change them.

use std::collections::BTreeMap;
use vstd::prelude::*;
use crate::consensus::compute_txid;
use crate::ledger::{
    ack_bundles, ack_sidechain, apply_message, cast_vote, connect, connect_coinbase,
    connect_transaction, connect_transactions, deposit, downvoted, find_drivechain_output,
    one_byte_vote, parsed_view, propose_bundle, propose_hashed, propose_sidechain, spends, tally,
    two_bytes_vote, BlockContents, ConnectBlockError, DrivechainOutput, LedgerView, Outcome, Search,
    Vote, OP_PUSHBYTES_1, OP_TRUE, UNUSED_MAX_AGE, UNUSED_THRESHOLD, USED_MAX_AGE, USED_THRESHOLD,
};
use crate::messages::{
    sha256d, CoinbaseMessage, CoinbaseMessageView, M4AckBundles, ABSTAIN_ONE_BYTE,
    ABSTAIN_TWO_BYTES, ALARM_ONE_BYTE, ALARM_TWO_BYTES, OP_DRIVECHAIN,
};
use crate::types::{
    same_hash, views, Bundle, BundleView, Ctip, CtipView, Hash256, OutPoint, Sidechain,
    SidechainProposal, SidechainProposalView, SidechainView, Transaction, TransactionView,
    TxIn, TxOut, TxOutView,
};

verus! {

/// The records kept of sidechains.
pub struct Bip300 {
    proposals: Vec<(Hash256, SidechainProposal)>,
    bundles: BTreeMap<u8, Vec<Bundle>>,
    sidechains: BTreeMap<u8, Sidechain>,
    ctips: BTreeMap<u8, Ctip>,
}

/// Whether `i` is the place of `hash` among `entries`.
spec fn is_place(entries: Seq<(Hash256, SidechainProposal)>, hash: Seq<u8>, i: int) -> bool {
    0 <= i < entries.len() && entries[i].0@ == hash
}

/// Whether no hash occurs twice among `entries`.
spec fn distinct(entries: Seq<(Hash256, SidechainProposal)>) -> bool {
    forall|i: int, j: int|
        0 <= i < entries.len() && 0 <= j < entries.len() && i != j
            ==> #[trigger] entries[i].0@ != #[trigger] entries[j].0@
}

/// The proposals among `entries` by their hashes.
spec fn proposal_table(entries: Seq<(Hash256, SidechainProposal)>) -> Map<
    Seq<u8>,
    SidechainProposalView,
> {
    Map::new(
        |hash: Seq<u8>| exists|i: int| is_place(entries, hash, i),
        |hash: Seq<u8>| entries[choose|i: int| is_place(entries, hash, i)].1@,
    )
}

spec fn bundle_table(bundles: Map<u8, Vec<Bundle>>) -> Map<u8, Seq<BundleView>> {
    Map::new(|n: u8| bundles.contains_key(n), |n: u8| views(bundles[n]@))
}

spec fn sidechain_table(sidechains: Map<u8, Sidechain>) -> Map<u8, SidechainView> {
    Map::new(|n: u8| sidechains.contains_key(n), |n: u8| sidechains[n]@)
}

spec fn ctip_table(ctips: Map<u8, Ctip>) -> Map<u8, CtipView> {
    Map::new(|n: u8| ctips.contains_key(n), |n: u8| ctips[n]@)
}

impl View for Bip300 {
    type V = LedgerView;

    closed spec fn view(&self) -> LedgerView {
        LedgerView {
            proposals: proposal_table(self.proposals@),
            bundles: bundle_table(self.bundles@),
            sidechains: sidechain_table(self.sidechains@),
            ctips: ctip_table(self.ctips@),
        }
    }
}

proof fn lemma_place(entries: Seq<(Hash256, SidechainProposal)>, hash: Seq<u8>, i: int)
    requires
        distinct(entries),
        is_place(entries, hash, i),
    ensures
        proposal_table(entries).contains_key(hash),
        proposal_table(entries)[hash] == entries[i].1@,
{
    let k = choose|k: int| is_place(entries, hash, k);
    assert(is_place(entries, hash, k));
    if k != i {
        assert(entries[i].0@ != entries[k].0@);
    }
}

proof fn lemma_push(
    entries: Seq<(Hash256, SidechainProposal)>,
    entry: (Hash256, SidechainProposal),
)
    requires
        distinct(entries),
        !proposal_table(entries).contains_key(entry.0@),
    ensures
        distinct(entries.push(entry)),
        proposal_table(entries.push(entry)) == proposal_table(entries).insert(entry.0@, entry.1@),
{
    let after = entries.push(entry);
    assert forall|i: int| 0 <= i < entries.len() implies #[trigger] entries[i].0@ != entry.0@ by {
        if entries[i].0@ == entry.0@ {
            assert(is_place(entries, entry.0@, i));
        }
    }
    assert forall|i: int, j: int|
        0 <= i < after.len() && 0 <= j < after.len() && i != j implies #[trigger] after[i].0@
        != #[trigger] after[j].0@ by {
        if i < entries.len() {
            assert(after[i] == entries[i]);
        }
        if j < entries.len() {
            assert(after[j] == entries[j]);
        }
    }
    let table = proposal_table(entries).insert(entry.0@, entry.1@);
    assert forall|k: Seq<u8>| #[trigger] proposal_table(after).contains_key(k) implies (
    table.contains_key(k) && proposal_table(after)[k] == table[k]) by {
        let i = choose|i: int| is_place(after, k, i);
        assert(is_place(after, k, i));
        lemma_place(after, k, i);
        if i < entries.len() {
            assert(after[i] == entries[i]);
            lemma_place(entries, k, i);
        }
    }
    assert forall|k: Seq<u8>| #[trigger] table.contains_key(k) implies proposal_table(
        after,
    ).contains_key(k) by {
        if k == entry.0@ {
            lemma_place(after, k, entries.len() as int);
        } else {
            let i = choose|i: int| is_place(entries, k, i);
            assert(is_place(entries, k, i));
            assert(after[i] == entries[i]);
            lemma_place(after, k, i);
        }
    }
    assert(proposal_table(after) =~= table);
}

proof fn lemma_remove(entries: Seq<(Hash256, SidechainProposal)>, hash: Seq<u8>, i: int)
    requires
        distinct(entries),
        is_place(entries, hash, i),
    ensures
        distinct(entries.remove(i)),
        proposal_table(entries.remove(i)) == proposal_table(entries).remove(hash),
{
    let after = entries.remove(i);
    let old_place = |k: int| if k < i {
        k
    } else {
        k + 1
    };
    assert forall|a: int, b: int|
        0 <= a < after.len() && 0 <= b < after.len() && a != b implies #[trigger] after[a].0@
        != #[trigger] after[b].0@ by {
        assert(after[a] == entries[old_place(a)]);
        assert(after[b] == entries[old_place(b)]);
    }
    let table = proposal_table(entries).remove(hash);
    assert forall|k: Seq<u8>| #[trigger] proposal_table(after).contains_key(k) implies (
    table.contains_key(k) && proposal_table(after)[k] == table[k]) by {
        let a = choose|a: int| is_place(after, k, a);
        assert(is_place(after, k, a));
        lemma_place(after, k, a);
        assert(after[a] == entries[old_place(a)]);
        lemma_place(entries, k, old_place(a));
        if k == hash {
            assert(entries[old_place(a)].0@ != entries[i].0@);
        }
    }
    assert forall|k: Seq<u8>| #[trigger] table.contains_key(k) implies proposal_table(
        after,
    ).contains_key(k) by {
        let b = choose|b: int| is_place(entries, k, b);
        assert(is_place(entries, k, b));
        let a = if b < i {
            b
        } else {
            b - 1
        };
        assert(b != i);
        assert(after[a] == entries[b]);
        assert(is_place(after, k, a));
    }
    assert(proposal_table(after) =~= table);
}

impl Bip300 {
    /// Whether no hash of a proposal is kept twice.
    pub closed spec fn wf(&self) -> bool {
        distinct(self.proposals@)
    }

    /// Without any records.
    pub fn new() -> (ledger: Self)
        ensures
            ledger.wf(),
            ledger@ == (LedgerView {
                proposals: Map::empty(),
                bundles: Map::empty(),
                sidechains: Map::empty(),
                ctips: Map::empty(),
            }),
    {
        let ledger = Bip300 {
            proposals: Vec::new(),
            bundles: BTreeMap::new(),
            sidechains: BTreeMap::new(),
            ctips: BTreeMap::new(),
        };
        assert(ledger@.proposals =~= Map::empty());
        assert(ledger@.bundles =~= Map::empty());
        assert(ledger@.sidechains =~= Map::empty());
        assert(ledger@.ctips =~= Map::empty());
        ledger
    }

    /// The place of the proposal with this hash.
    fn find_proposal(&self, hash: &Hash256) -> (place: Option<usize>)
        requires
            self.wf(),
        ensures
            place is Some <==> self@.proposals.contains_key(hash@),
            place matches Some(i) ==> is_place(self.proposals@, hash@, i as int)
                && self@.proposals[hash@] == self.proposals@[i as int].1@,
    {
        let mut i: usize = 0;
        while i < self.proposals.len()
            invariant
                i <= self.proposals@.len(),
                self.wf(),
                forall|j: int| 0 <= j < i ==> !is_place(self.proposals@, hash@, j),
            decreases self.proposals@.len() - i,
        {
            if same_hash(&self.proposals[i].0, hash) {
                proof {
                    lemma_place(self.proposals@, hash@, i as int);
                }
                return Some(i);
            }
            i += 1;
        }
        assert(forall|j: int| !is_place(self.proposals@, hash@, j));
        None
    }

    /// M1.
    fn propose_sidechain(&mut self, sidechain_number: u8, data: &Vec<u8>, height: u32)
        requires
            old(self).wf(),
        ensures
            final(self).wf(),
            final(self)@ == propose_sidechain(old(self)@, sidechain_number, data@, height),
    {
        let data_hash = sha256d(data.as_slice());
        self.propose_hashed(data_hash, sidechain_number, data, height);
    }

    /// M1, with the hash of the data.
    pub fn propose_hashed(
        &mut self,
        data_hash: Hash256,
        sidechain_number: u8,
        data: &Vec<u8>,
        height: u32,
    )
        requires
            old(self).wf(),
        ensures
            final(self).wf(),
            final(self)@ == propose_hashed(
                old(self)@,
                data_hash@,
                sidechain_number,
                data@,
                height,
            ),
    {
        if self.find_proposal(&data_hash).is_some() {
            return;
        }
        let proposal = SidechainProposal {
            sidechain_number,
            data: data.clone(),
            vote_count: 0,
            proposal_height: height,
        };
        proof {
            assert(proposal.data@ =~= data@);
            lemma_push(self.proposals@, (data_hash, proposal));
        }
        self.proposals.push((data_hash, proposal));
    }

    /// M2. It says whether there is a rule for the vote.
    fn ack_sidechain(&mut self, sidechain_number: u8, data_hash: &Hash256, height: u32) -> (counted:
        bool)
        requires
            old(self).wf(),
        ensures
            final(self).wf(),
            counted <==> ack_sidechain(old(self)@, sidechain_number, data_hash@, height) is Some,
            counted ==> final(self)@ == ack_sidechain(
                old(self)@,
                sidechain_number,
                data_hash@,
                height,
            )->0,
    {
        let place = match self.find_proposal(data_hash) {
            Some(place) => place,
            None => return true,
        };
        if self.proposals[place].1.sidechain_number != sidechain_number {
            return true;
        }
        let vote_count = self.proposals[place].1.vote_count;
        let proposal_height = self.proposals[place].1.proposal_height;
        if vote_count == u16::MAX || height < proposal_height {
            return false;
        }
        let vote_count: u16 = vote_count + 1;
        let age: u32 = height - proposal_height;
        let used = self.sidechains.contains_key(&sidechain_number);
        let failed = if used {
            age > USED_MAX_AGE as u32 && vote_count <= USED_THRESHOLD
        } else {
            age > UNUSED_MAX_AGE as u32 && vote_count <= UNUSED_THRESHOLD
        };
        let ghost before = self.proposals@;
        let (hash, proposal) = self.proposals.remove(place);
        proof {
            lemma_remove(before, data_hash@, place as int);
        }
        if failed {
            return true;
        }
        if vote_count > USED_THRESHOLD {
            let sidechain = Sidechain {
                sidechain_number,
                data: proposal.data,
                vote_count,
                proposal_height,
                activation_height: height,
            };
            let ghost sidechains = self.sidechains@;
            self.sidechains.insert(sidechain_number, sidechain);
            assert(sidechain_table(self.sidechains@) =~= sidechain_table(sidechains).insert(
                sidechain_number,
                sidechain@,
            ));
        } else {
            let voted = SidechainProposal {
                sidechain_number,
                data: proposal.data,
                vote_count,
                proposal_height,
            };
            proof {
                lemma_push(self.proposals@, (hash, voted));
                assert(proposal_table(before).remove(data_hash@).insert(data_hash@, voted@)
                    =~= proposal_table(before).insert(data_hash@, voted@));
            }
            self.proposals.push((hash, voted));
        }
        true
    }

    /// M3.
    fn propose_bundle(&mut self, sidechain_number: u8, bundle_txid: Hash256)
        requires
            old(self).wf(),
        ensures
            final(self).wf(),
            final(self)@ == propose_bundle(old(self)@, sidechain_number, bundle_txid@),
    {
        let ghost before = self.bundles@;
        match self.bundles.remove(&sidechain_number) {
            None => {
                assert(self.bundles@ =~= before);
            },
            Some(mut bundles) => {
                let ghost old_bundles = bundles@;
                let bundle = Bundle { bundle_txid, vote_count: 0 };
                bundles.push(bundle);
                assert(views(bundles@) =~= views(old_bundles).push(bundle@));
                self.bundles.insert(sidechain_number, bundles);
                assert(bundle_table(self.bundles@) =~= bundle_table(before).insert(
                    sidechain_number,
                    views(bundles@),
                ));
            },
        }
    }

    /// Counts a vote on the bundles of a sidechain. It says whether there is a rule
    /// for it.
    fn cast_vote(&mut self, sidechain_number: u8, vote: Vote) -> (counted: bool)
        requires
            old(self).wf(),
        ensures
            final(self).wf(),
            counted <==> cast_vote(old(self)@.bundles, sidechain_number, vote) is Some,
            counted ==> final(self)@ == (LedgerView {
                bundles: cast_vote(old(self)@.bundles, sidechain_number, vote)->0,
                ..old(self)@
            }),
    {
        let ghost before = self.bundles@;
        match self.bundles.remove(&sidechain_number) {
            None => {
                assert(self.bundles@ =~= before);
                true
            },
            Some(mut bundles) => {
                if !tally_vote(&mut bundles, vote) {
                    return false;
                }
                self.bundles.insert(sidechain_number, bundles);
                assert(bundle_table(self.bundles@) =~= bundle_table(before).insert(
                    sidechain_number,
                    views(bundles@),
                ));
                true
            },
        }
    }

    /// Counts votes on the bundles of all sidechains. It says whether there is a
    /// rule for all of them.
    fn ack_bundles(&mut self, votes: &Vec<Vote>) -> (counted: bool)
        requires
            old(self).wf(),
        ensures
            final(self).wf(),
            counted <==> ack_bundles(old(self)@.bundles, votes@) is Some,
            counted ==> final(self)@ == (LedgerView {
                bundles: ack_bundles(old(self)@.bundles, votes@)->0,
                ..old(self)@
            }),
    {
        let mut i: usize = 0;
        while i < votes.len()
            invariant
                i <= votes@.len(),
                self.wf(),
                ack_bundles(old(self)@.bundles, votes@.take(i as int)) == Some(self@.bundles),
                self@ == (LedgerView { bundles: self@.bundles, ..old(self)@ }),
            decreases votes@.len() - i,
        {
            proof {
                let next = votes@.take(i + 1);
                assert(next.drop_last() =~= votes@.take(i as int));
                assert((i as u8) == (i % 256) as u8) by (bit_vector);
                if ack_bundles(old(self)@.bundles, next) is None {
                    lemma_votes_stop(old(self)@.bundles, votes@, i + 1);
                }
            }
            if !self.cast_vote(i as u8, votes[i]) {
                return false;
            }
            i += 1;
        }
        assert(votes@.take(i as int) =~= votes@);
        true
    }
}

impl Bip300 {
    /// The proposal whose data has this hash.
    pub fn proposal(&self, hash: &Hash256) -> (proposal: Option<&SidechainProposal>)
        requires
            self.wf(),
        ensures
            proposal is Some <==> self@.proposals.contains_key(hash@),
            proposal matches Some(found) ==> found@ == self@.proposals[hash@],
    {
        match self.find_proposal(hash) {
            Some(place) => Some(&self.proposals[place].1),
            None => None,
        }
    }

    /// The proposals and the hashes of their data.
    pub fn proposals(&self) -> (rows: &Vec<(Hash256, SidechainProposal)>)
        requires
            self.wf(),
        ensures
            forall|i: int|
                0 <= i < rows@.len() ==> self@.proposals.contains_key((#[trigger] rows@[i]).0@)
                    && self@.proposals[rows@[i].0@] == rows@[i].1@,
            forall|hash: Seq<u8>| #[trigger]
                self@.proposals.contains_key(hash) ==> exists|i: int|
                    0 <= i < rows@.len() && (#[trigger] rows@[i]).0@ == hash,
            forall|i: int, j: int|
                0 <= i < rows@.len() && 0 <= j < rows@.len() && i != j
                    ==> #[trigger] rows@[i].0@ != #[trigger] rows@[j].0@,
    {
        proof {
            assert forall|i: int| 0 <= i < self.proposals@.len() implies (
            self@.proposals.contains_key((#[trigger] self.proposals@[i]).0@)
                && self@.proposals[self.proposals@[i].0@] == self.proposals@[i].1@) by {
                lemma_place(self.proposals@, self.proposals@[i].0@, i);
            }
            assert forall|hash: Seq<u8>| #[trigger]
                self@.proposals.contains_key(hash) implies exists|i: int|
                0 <= i < self.proposals@.len() && (#[trigger] self.proposals@[i]).0@ == hash by {
                let i = choose|i: int| is_place(self.proposals@, hash, i);
                assert(self.proposals@[i].0@ == hash);
            }
        }
        &self.proposals
    }

    /// The withdrawal bundles of a sidechain.
    pub fn bundles(&self, sidechain_number: u8) -> (bundles: Option<&Vec<Bundle>>)
        ensures
            bundles is Some <==> self@.bundles.contains_key(sidechain_number),
            bundles matches Some(found) ==> views(found@) == self@.bundles[sidechain_number],
    {
        self.bundles.get(&sidechain_number)
    }

    /// The active sidechain at a number.
    pub fn sidechain(&self, sidechain_number: u8) -> (sidechain: Option<&Sidechain>)
        ensures
            sidechain is Some <==> self@.sidechains.contains_key(sidechain_number),
            sidechain matches Some(found) ==> found@ == self@.sidechains[sidechain_number],
    {
        self.sidechains.get(&sidechain_number)
    }

    /// The output that holds the coins of a sidechain.
    pub fn ctip(&self, sidechain_number: u8) -> (ctip: Option<Ctip>)
        ensures
            ctip is Some <==> self@.ctips.contains_key(sidechain_number),
            ctip matches Some(found) ==> found@ == self@.ctips[sidechain_number],
    {
        match self.ctips.get(&sidechain_number) {
            Some(ctip) => Some(*ctip),
            None => None,
        }
    }

    /// Keeps a proposal under the hash of its data.
    pub fn insert_proposal(&mut self, hash: Hash256, proposal: SidechainProposal)
        requires
            old(self).wf(),
        ensures
            final(self).wf(),
            final(self)@ == (LedgerView {
                proposals: old(self)@.proposals.insert(hash@, proposal@),
                ..old(self)@
            }),
    {
        let ghost before = self.proposals@;
        if let Some(place) = self.find_proposal(&hash) {
            proof {
                lemma_remove(before, hash@, place as int);
            }
            self.proposals.remove(place);
        }
        proof {
            lemma_push(self.proposals@, (hash, proposal));
            assert(proposal_table(self.proposals@).insert(hash@, proposal@) =~= proposal_table(
                before,
            ).insert(hash@, proposal@));
        }
        self.proposals.push((hash, proposal));
    }

    /// Keeps the withdrawal bundles of a sidechain.
    pub fn insert_bundles(&mut self, sidechain_number: u8, bundles: Vec<Bundle>)
        requires
            old(self).wf(),
        ensures
            final(self).wf(),
            final(self)@ == (LedgerView {
                bundles: old(self)@.bundles.insert(sidechain_number, views(bundles@)),
                ..old(self)@
            }),
    {
        let ghost before = self.bundles@;
        self.bundles.insert(sidechain_number, bundles);
        assert(bundle_table(self.bundles@) =~= bundle_table(before).insert(
            sidechain_number,
            views(bundles@),
        ));
    }

    /// Keeps an active sidechain.
    pub fn insert_sidechain(&mut self, sidechain_number: u8, sidechain: Sidechain)
        requires
            old(self).wf(),
        ensures
            final(self).wf(),
            final(self)@ == (LedgerView {
                sidechains: old(self)@.sidechains.insert(sidechain_number, sidechain@),
                ..old(self)@
            }),
    {
        let ghost before = self.sidechains@;
        self.sidechains.insert(sidechain_number, sidechain);
        assert(sidechain_table(self.sidechains@) =~= sidechain_table(before).insert(
            sidechain_number,
            sidechain@,
        ));
    }

    /// Keeps the output that holds the coins of a sidechain.
    pub fn insert_ctip(&mut self, sidechain_number: u8, ctip: Ctip)
        requires
            old(self).wf(),
        ensures
            final(self).wf(),
            final(self)@ == (LedgerView {
                ctips: old(self)@.ctips.insert(sidechain_number, ctip@),
                ..old(self)@
            }),
    {
        let ghost before = self.ctips@;
        self.ctips.insert(sidechain_number, ctip);
        assert(ctip_table(self.ctips@) =~= ctip_table(before).insert(sidechain_number, ctip@));
    }
}

/// What came of connecting a part of a block.
pub enum Verdict {
    Connected,
    Rejected(ConnectBlockError),
    Unsupported,
}

impl Verdict {
    /// Whether this verdict, with these records, is what `outcome` says.
    pub open spec fn is(&self, ledger: LedgerView, outcome: Outcome) -> bool {
        match self {
            Verdict::Connected => outcome == Outcome::Connected(ledger),
            Verdict::Rejected(error) => outcome == Outcome::Rejected(error@),
            Verdict::Unsupported => outcome == Outcome::Unsupported,
        }
    }
}

impl Bip300 {
    /// Applies a coinbase message. It says whether there is a rule for it.
    fn apply_message(&mut self, message: &CoinbaseMessage, height: u32) -> (applied: bool)
        requires
            old(self).wf(),
        ensures
            final(self).wf(),
            applied <==> apply_message(old(self)@, message@, height) is Some,
            applied ==> final(self)@ == apply_message(old(self)@, message@, height)->0,
    {
        match message {
            CoinbaseMessage::M1ProposeSidechain { sidechain_number, data } => {
                self.propose_sidechain(*sidechain_number, data, height);
                true
            },
            CoinbaseMessage::M2AckSidechain { sidechain_number, data_hash } => {
                self.ack_sidechain(*sidechain_number, data_hash, height)
            },
            CoinbaseMessage::M3ProposeBundle { sidechain_number, bundle_txid } => {
                self.propose_bundle(*sidechain_number, *bundle_txid);
                true
            },
            CoinbaseMessage::M4AckBundles(m4) => match m4 {
                M4AckBundles::LeadingBy50 => false,
                M4AckBundles::RepeatPrevious => false,
                M4AckBundles::OneByte { upvotes } => {
                    let votes = one_byte_votes(upvotes);
                    self.ack_bundles(&votes)
                },
                M4AckBundles::TwoBytes { upvotes } => {
                    let votes = two_bytes_votes(upvotes);
                    self.ack_bundles(&votes)
                },
            },
        }
    }

    /// Connects the outputs of a coinbase.
    fn connect_coinbase(
        &mut self,
        coinbase: &Vec<Result<CoinbaseMessage, String>>,
        height: u32,
    ) -> (verdict: Verdict)
        requires
            old(self).wf(),
        ensures
            final(self).wf(),
            verdict.is(
                final(self)@,
                connect_coinbase(old(self)@, parsed_views(coinbase@), height),
            ),
    {
        let ghost outputs = parsed_views(coinbase@);
        let mut i: usize = 0;
        while i < coinbase.len()
            invariant
                i <= coinbase@.len(),
                outputs == parsed_views(coinbase@),
                self.wf(),
                connect_coinbase(old(self)@, outputs.take(i as int), height) == Outcome::Connected(
                    self@,
                ),
            decreases coinbase@.len() - i,
        {
            proof {
                let next = outputs.take(i + 1);
                assert(next.drop_last() =~= outputs.take(i as int));
                assert(next.last() == parsed_view(coinbase@[i as int]));
                if !(connect_coinbase(old(self)@, next, height) is Connected) {
                    lemma_coinbase_stop(old(self)@, outputs, height, i + 1);
                }
            }
            match &coinbase[i] {
                Err(reason) => {
                    return Verdict::Rejected(
                        ConnectBlockError::ParseCoinbaseScript(reason.clone()),
                    );
                },
                Ok(message) => {
                    if !self.apply_message(message, height) {
                        return Verdict::Unsupported;
                    }
                },
            }
            i += 1;
        }
        assert(outputs.take(i as int) =~= outputs);
        Verdict::Connected
    }

    /// Connects a transaction.
    fn connect_transaction(&mut self, tx: &Transaction) -> (verdict: Verdict)
        requires
            old(self).wf(),
        ensures
            final(self).wf(),
            verdict.is(final(self)@, connect_transaction(old(self)@, tx@)),
    {
        match find_output(&tx.output) {
            FoundOutput::Rejected(error) => Verdict::Rejected(error),
            FoundOutput::Unsupported => Verdict::Unsupported,
            FoundOutput::Found(None) => Verdict::Connected,
            FoundOutput::Found(Some(output)) => {
                self.deposit(compute_txid(tx), output, &tx.input)
            },
        }
    }

    /// Connects an `OP_DRIVECHAIN` output of the transaction with this id, which has
    /// these inputs. Where it is not connected, nothing changes.
    pub fn deposit(
        &mut self,
        txid: Hash256,
        output: DrivechainOutput,
        inputs: &Vec<TxIn>,
    ) -> (verdict: Verdict)
        requires
            old(self).wf(),
        ensures
            final(self).wf(),
            verdict.is(final(self)@, deposit(old(self)@, txid@, output, views(inputs@))),
            !(verdict is Connected) ==> final(self)@ == old(self)@,
    {
        let sidechain_number = output.sidechain_number;
        let old_ctip = match self.ctips.get(&sidechain_number) {
            Some(ctip) => *ctip,
            None => return Verdict::Rejected(ConnectBlockError::NoCtip { sidechain_number }),
        };
        if !spends_output(inputs, &old_ctip.outpoint) {
            return Verdict::Rejected(ConnectBlockError::CtipNotSpent { sidechain_number });
        }
        if output.value < old_ctip.value {
            return Verdict::Unsupported;
        }
        let ctip = Ctip {
            outpoint: OutPoint { txid, vout: output.vout },
            value: output.value,
        };
        let ghost before = self.ctips@;
        self.ctips.insert(sidechain_number, ctip);
        assert(ctip_table(self.ctips@) =~= ctip_table(before).insert(sidechain_number, ctip@));
        Verdict::Connected
    }

    /// Connects transactions.
    fn connect_transactions(&mut self, txs: &Vec<Transaction>) -> (verdict: Verdict)
        requires
            old(self).wf(),
        ensures
            final(self).wf(),
            verdict.is(final(self)@, connect_transactions(old(self)@, views(txs@))),
    {
        let ghost all = views(txs@);
        let mut i: usize = 0;
        while i < txs.len()
            invariant
                i <= txs@.len(),
                all == views(txs@),
                self.wf(),
                connect_transactions(old(self)@, all.take(i as int)) == Outcome::Connected(self@),
            decreases txs@.len() - i,
        {
            proof {
                let next = all.take(i + 1);
                assert(next.drop_last() =~= all.take(i as int));
                assert(next.last() == txs@[i as int]@);
                if !(connect_transactions(old(self)@, next) is Connected) {
                    lemma_transactions_stop(old(self)@, all, i + 1);
                }
            }
            match self.connect_transaction(&txs[i]) {
                Verdict::Connected => {},
                other => return other,
            }
            i += 1;
        }
        assert(all.take(i as int) =~= all);
        Verdict::Connected
    }

    /// A copy of these records.
    fn snapshot(&self) -> (copy: Self)
        requires
            self.wf(),
        ensures
            copy.wf(),
            copy@ == self@,
    {
        let mut proposals: Vec<(Hash256, SidechainProposal)> = Vec::new();
        let mut i: usize = 0;
        while i < self.proposals.len()
            invariant
                i <= self.proposals@.len(),
                proposals@.len() == i,
                forall|j: int|
                    0 <= j < i ==> (#[trigger] proposals@[j]).0@ == self.proposals@[j].0@
                        && proposals@[j].1@ == self.proposals@[j].1@,
            decreases self.proposals@.len() - i,
        {
            proposals.push((self.proposals[i].0, self.proposals[i].1.clone()));
            i += 1;
        }
        let copy = Bip300 {
            proposals,
            bundles: self.bundles.clone(),
            sidechains: self.sidechains.clone(),
            ctips: self.ctips.clone(),
        };
        proof {
            lemma_same_entries(self.proposals@, copy.proposals@);
        }
        copy
    }

    /// Connects a block to a copy of the records.
    fn connected(&self, block: &BlockContents, height: u32) -> (result: (Bip300, Verdict))
        requires
            self.wf(),
        ensures
            result.0.wf(),
            result.1.is(result.0@, connect(self@, block@, height)),
    {
        let mut ledger = self.snapshot();
        assert(block@.coinbase =~= parsed_views(block.coinbase@));
        match ledger.connect_coinbase(&block.coinbase, height) {
            Verdict::Connected => {},
            other => return (ledger, other),
        }
        let verdict = ledger.connect_transactions(&block.transactions);
        (ledger, verdict)
    }

    /// Whether there is a rule for everything that the block asks for, up to where
    /// it is rejected.
    pub fn supports_block(&self, block: &BlockContents, height: u32) -> (supported: bool)
        requires
            self.wf(),
        ensures
            supported <==> !(connect(self@, block@, height) is Unsupported),
    {
        match self.connected(block, height).1 {
            Verdict::Unsupported => false,
            _ => true,
        }
    }

    /// Connects a block at a height. A block that is rejected changes nothing.
    pub fn connect_block(&mut self, block: &BlockContents, height: u32) -> (result: Result<
        (),
        ConnectBlockError,
    >)
        requires
            old(self).wf(),
            !(connect(old(self)@, block@, height) is Unsupported),
        ensures
            final(self).wf(),
            match connect(old(self)@, block@, height) {
                Outcome::Connected(after) => result is Ok && final(self)@ == after,
                Outcome::Rejected(error) => result is Err && result->Err_0@ == error
                    && final(self)@ == old(self)@,
                Outcome::Unsupported => false,
            },
    {
        let (ledger, verdict) = self.connected(block, height);
        match verdict {
            Verdict::Rejected(error) => Err(error),
            _ => {
                *self = ledger;
                Ok(())
            },
        }
    }

    /// Connects a block at a height if there is a rule for all that it asks for.
    /// Else, or if the block is rejected, nothing changes.
    pub fn try_connect_block(&mut self, block: &BlockContents, height: u32) -> (result: Option<
        Result<(), ConnectBlockError>,
    >)
        requires
            old(self).wf(),
        ensures
            final(self).wf(),
            match connect(old(self)@, block@, height) {
                Outcome::Connected(after) => result is Some && result->0 is Ok
                    && final(self)@ == after,
                Outcome::Rejected(error) => result is Some && result->0 is Err
                    && result->0->Err_0@ == error && final(self)@ == old(self)@,
                Outcome::Unsupported => result is None && final(self)@ == old(self)@,
            },
    {
        if self.supports_block(block, height) {
            Some(self.connect_block(block, height))
        } else {
            None
        }
    }
}

/// The views of what was read from the scripts of coinbase outputs.
spec fn parsed_views(coinbase: Seq<Result<CoinbaseMessage, String>>) -> Seq<
    Result<CoinbaseMessageView, Seq<char>>,
> {
    Seq::new(coinbase.len(), |i: int| parsed_view(coinbase[i]))
}

/// If the first `n` outputs of a coinbase are not connected, all are not, for the
/// same reason.
proof fn lemma_coinbase_stop(
    ledger: LedgerView,
    outputs: Seq<Result<CoinbaseMessageView, Seq<char>>>,
    height: u32,
    n: int,
)
    requires
        0 <= n <= outputs.len(),
        !(connect_coinbase(ledger, outputs.take(n), height) is Connected),
    ensures
        connect_coinbase(ledger, outputs, height) == connect_coinbase(
            ledger,
            outputs.take(n),
            height,
        ),
    decreases outputs.len() - n,
{
    if n == outputs.len() {
        assert(outputs.take(n) =~= outputs);
    } else {
        assert(outputs.take(n + 1).drop_last() =~= outputs.take(n));
        lemma_coinbase_stop(ledger, outputs, height, n + 1);
    }
}

/// If the first `n` transactions are not connected, all are not, for the same
/// reason.
proof fn lemma_transactions_stop(ledger: LedgerView, txs: Seq<TransactionView>, n: int)
    requires
        0 <= n <= txs.len(),
        !(connect_transactions(ledger, txs.take(n)) is Connected),
    ensures
        connect_transactions(ledger, txs) == connect_transactions(ledger, txs.take(n)),
    decreases txs.len() - n,
{
    if n == txs.len() {
        assert(txs.take(n) =~= txs);
    } else {
        assert(txs.take(n + 1).drop_last() =~= txs.take(n));
        lemma_transactions_stop(ledger, txs, n + 1);
    }
}

/// If the search stops in the first `n` outputs, it stops there in all.
proof fn lemma_search_stop(outputs: Seq<TxOutView>, n: int)
    requires
        0 <= n <= outputs.len(),
        !(find_drivechain_output(outputs.take(n)) is Found),
    ensures
        find_drivechain_output(outputs) == find_drivechain_output(outputs.take(n)),
    decreases outputs.len() - n,
{
    if n == outputs.len() {
        assert(outputs.take(n) =~= outputs);
    } else {
        assert(outputs.take(n + 1).drop_last() =~= outputs.take(n));
        lemma_search_stop(outputs, n + 1);
    }
}

/// Entries with the same views have the same table.
proof fn lemma_same_entries(
    a: Seq<(Hash256, SidechainProposal)>,
    b: Seq<(Hash256, SidechainProposal)>,
)
    requires
        distinct(a),
        a.len() == b.len(),
        forall|i: int| 0 <= i < a.len() ==> (#[trigger] b[i]).0@ == a[i].0@ && b[i].1@ == a[i].1@,
    ensures
        distinct(b),
        proposal_table(b) == proposal_table(a),
{
    assert(distinct(b));
    assert forall|k: Seq<u8>| #[trigger] proposal_table(b).contains_key(k) implies (proposal_table(
        a,
    ).contains_key(k) && proposal_table(b)[k] == proposal_table(a)[k]) by {
        let i = choose|i: int| is_place(b, k, i);
        assert(is_place(b, k, i));
        lemma_place(b, k, i);
        lemma_place(a, k, i);
    }
    assert forall|k: Seq<u8>| #[trigger] proposal_table(a).contains_key(k) implies proposal_table(
        b,
    ).contains_key(k) by {
        let i = choose|i: int| is_place(a, k, i);
        assert(is_place(a, k, i));
        lemma_place(b, k, i);
    }
    assert(proposal_table(b) =~= proposal_table(a));
}

/// What a search for an `OP_DRIVECHAIN` output found.
pub enum FoundOutput {
    Found(Option<DrivechainOutput>),
    Rejected(ConnectBlockError),
    Unsupported,
}

impl View for FoundOutput {
    type V = Search;

    open spec fn view(&self) -> Search {
        match self {
            FoundOutput::Found(output) => Search::Found(*output),
            FoundOutput::Rejected(error) => Search::Rejected(error@),
            FoundOutput::Unsupported => Search::Unsupported,
        }
    }
}

/// Searches the outputs of a transaction for the `OP_DRIVECHAIN` output.
pub fn find_output(outputs: &Vec<TxOut>) -> (found: FoundOutput)
    ensures
        found@ == find_drivechain_output(views(outputs@)),
{
    let ghost all = views(outputs@);
    let mut found: Option<DrivechainOutput> = None;
    let mut i: usize = 0;
    while i < outputs.len()
        invariant
            i <= outputs@.len(),
            all == views(outputs@),
            find_drivechain_output(all.take(i as int)) == Search::Found(found),
        decreases outputs@.len() - i,
    {
        let script = &outputs[i].script_pubkey;
        proof {
            let next = all.take(i + 1);
            assert(next.drop_last() =~= all.take(i as int));
            assert(next.last() == outputs@[i as int]@);
            if !(find_drivechain_output(next) is Found) {
                lemma_search_stop(all, i + 1);
            }
        }
        if script.len() == 0 {
            return FoundOutput::Unsupported;
        }
        if script[0] == OP_DRIVECHAIN {
            if found.is_some() {
                return FoundOutput::Rejected(ConnectBlockError::MultipleDrivechainOutputs);
            }
            if script.len() < 2 {
                return FoundOutput::Unsupported;
            }
            if script[1] != OP_PUSHBYTES_1 {
                return FoundOutput::Rejected(ConnectBlockError::InvalidDrivechainOutput);
            }
            if script.len() < 4 {
                return FoundOutput::Unsupported;
            }
            if script[3] != OP_TRUE {
                return FoundOutput::Rejected(ConnectBlockError::InvalidDrivechainOutput);
            }
            found = Some(
                DrivechainOutput {
                    vout: i as u32,
                    sidechain_number: script[2],
                    value: outputs[i].value,
                },
            );
        }
        i += 1;
    }
    assert(all.take(i as int) =~= all);
    FoundOutput::Found(found)
}

/// Whether one of the inputs spends `outpoint`.
fn spends_output(inputs: &Vec<TxIn>, outpoint: &OutPoint) -> (found: bool)
    ensures
        found == spends(views(inputs@), outpoint@),
{
    let mut i: usize = 0;
    while i < inputs.len()
        invariant
            i <= inputs@.len(),
            forall|j: int| 0 <= j < i ==> (#[trigger] inputs@[j]).previous_output@ != outpoint@,
        decreases inputs@.len() - i,
    {
        if inputs[i].previous_output.same(outpoint) {
            assert(views(inputs@)[i as int].previous_output == outpoint@);
            return true;
        }
        i += 1;
    }
    assert forall|j: int| 0 <= j < inputs@.len() implies #[trigger] views(
        inputs@,
    )[j].previous_output != outpoint@ by {
        assert(views(inputs@)[j] == inputs@[j]@);
    }
    false
}

/// If there is no rule for the first `n` votes, there is none for all.
proof fn lemma_votes_stop(bundles: Map<u8, Seq<BundleView>>, votes: Seq<Vote>, n: int)
    requires
        0 <= n <= votes.len(),
        ack_bundles(bundles, votes.take(n)) is None,
    ensures
        ack_bundles(bundles, votes) is None,
    decreases votes.len() - n,
{
    if n == votes.len() {
        assert(votes.take(n) =~= votes);
    } else {
        assert(votes.take(n + 1).drop_last() =~= votes.take(n));
        lemma_votes_stop(bundles, votes, n + 1);
    }
}

/// Counts a vote on `bundles`. It says whether there is a rule for it.
fn tally_vote(bundles: &mut Vec<Bundle>, vote: Vote) -> (counted: bool)
    ensures
        counted <==> tally(views(old(bundles)@), vote) is Some,
        counted ==> views(final(bundles)@) == tally(views(old(bundles)@), vote)->0,
{
    match vote {
        Vote::Abstain => true,
        Vote::Alarm => {
            let ghost before = bundles@;
            let mut i: usize = 0;
            while i < bundles.len()
                invariant
                    i <= bundles@.len(),
                    bundles@.len() == before.len(),
                    forall|j: int| 0 <= j < i ==> #[trigger] bundles@[j]@ == downvoted(before[j]@),
                    forall|j: int| i <= j < bundles@.len() ==> #[trigger] bundles@[j] == before[j],
                decreases bundles@.len() - i,
            {
                let bundle = bundles[i];
                if bundle.vote_count > 0 {
                    bundles.set(
                        i,
                        Bundle {
                            bundle_txid: bundle.bundle_txid,
                            vote_count: bundle.vote_count - 1,
                        },
                    );
                }
                i += 1;
            }
            assert(views(bundles@) =~= tally(views(before), vote)->0);
            true
        },
        Vote::Upvote(index) => {
            let index: usize = index as usize;
            if index >= bundles.len() {
                return true;
            }
            let ghost before = bundles@;
            let bundle = bundles[index];
            if bundle.vote_count == u16::MAX {
                return false;
            }
            bundles.set(
                index,
                Bundle { bundle_txid: bundle.bundle_txid, vote_count: bundle.vote_count + 1 },
            );
            assert(views(bundles@) =~= tally(views(before), vote)->0);
            true
        },
    }
}

/// The votes that single bytes stand for.
fn one_byte_votes(upvotes: &Vec<u8>) -> (votes: Vec<Vote>)
    ensures
        votes@ == Seq::new(upvotes@.len(), |i: int| one_byte_vote(upvotes@[i])),
{
    let mut votes: Vec<Vote> = Vec::new();
    let mut i: usize = 0;
    while i < upvotes.len()
        invariant
            i <= upvotes@.len(),
            votes@ =~= Seq::new(i as nat, |j: int| one_byte_vote(upvotes@[j])),
        decreases upvotes@.len() - i,
    {
        let upvote = upvotes[i];
        if upvote == ABSTAIN_ONE_BYTE {
            votes.push(Vote::Abstain);
        } else if upvote == ALARM_ONE_BYTE {
            votes.push(Vote::Alarm);
        } else {
            votes.push(Vote::Upvote(upvote as u16));
        }
        i += 1;
    }
    votes
}

/// The votes that pairs of bytes stand for.
fn two_bytes_votes(upvotes: &Vec<u16>) -> (votes: Vec<Vote>)
    ensures
        votes@ == Seq::new(upvotes@.len(), |i: int| two_bytes_vote(upvotes@[i])),
{
    let mut votes: Vec<Vote> = Vec::new();
    let mut i: usize = 0;
    while i < upvotes.len()
        invariant
            i <= upvotes@.len(),
            votes@ =~= Seq::new(i as nat, |j: int| two_bytes_vote(upvotes@[j])),
        decreases upvotes@.len() - i,
    {
        let upvote = upvotes[i];
        if upvote == ABSTAIN_TWO_BYTES {
            votes.push(Vote::Abstain);
        } else if upvote == ALARM_TWO_BYTES {
            votes.push(Vote::Alarm);
        } else {
            votes.push(Vote::Upvote(upvote));
        }
        i += 1;
    }
    votes
}

} // verus!
