//! Transactions, blocks and the records kept of sidechains.

use vstd::prelude::*;

verus! {

/// A hash, in the byte order in which it is serialized.
pub type Hash256 = [u8; 32];

/// A withdrawal bundle with more votes than this may be paid out.
pub const WITHDRAWAL_BUNDLE_INCLUSION_THRESHOLD: u16 = 13_150;

/// The views of the items of `s`, in order.
pub open spec fn views<T: View>(s: Seq<T>) -> Seq<T::V> {
    Seq::new(s.len(), |i: int| s[i]@)
}

pub proof fn lemma_views_push<T: View>(s: Seq<T>, x: T)
    ensures
        views(s.push(x)) == views(s).push(x@),
{
    assert(views(s.push(x)) =~= views(s).push(x@));
}

pub proof fn lemma_views_add<T: View>(s: Seq<T>, t: Seq<T>)
    ensures
        views(s + t) == views(s) + views(t),
{
    assert(views(s + t) =~= views(s) + views(t));
}

/// Whether `a` and `b` are the same bytes.
pub fn same_hash(a: &Hash256, b: &Hash256) -> (same: bool)
    ensures
        same == (a@ == b@),
{
    let mut i: usize = 0;
    while i < 32
        invariant
            i <= 32,
            forall|j: int| 0 <= j < i ==> a@[j] == b@[j],
        decreases 32 - i,
    {
        if a[i] != b[i] {
            assert(a@[i as int] != b@[i as int]);
            return false;
        }
        i += 1;
    }
    assert(a@ =~= b@);
    true
}

/// A reference to an output of a transaction.
#[derive(Clone, Copy, Debug)]
pub struct OutPoint {
    pub txid: Hash256,
    pub vout: u32,
}

pub struct OutPointView {
    pub txid: Seq<u8>,
    pub vout: u32,
}

impl View for OutPoint {
    type V = OutPointView;

    open spec fn view(&self) -> OutPointView {
        OutPointView { txid: self.txid@, vout: self.vout }
    }
}

impl OutPoint {
    /// Whether this and `other` refer to the same output.
    pub fn same(&self, other: &OutPoint) -> (same: bool)
        ensures
            same == (self@ == other@),
    {
        self.vout == other.vout && same_hash(&self.txid, &other.txid)
    }
}

/// An input of a transaction. `sequence` is the sequence number as it is
/// serialized.
pub struct TxIn {
    pub previous_output: OutPoint,
    pub script_sig: Vec<u8>,
    pub sequence: u32,
    pub witness: Vec<Vec<u8>>,
}

pub struct TxInView {
    pub previous_output: OutPointView,
    pub script_sig: Seq<u8>,
    pub sequence: u32,
    pub witness: Seq<Seq<u8>>,
}

impl View for TxIn {
    type V = TxInView;

    open spec fn view(&self) -> TxInView {
        TxInView {
            previous_output: self.previous_output@,
            script_sig: self.script_sig@,
            sequence: self.sequence,
            witness: views(self.witness@),
        }
    }
}

/// An output of a transaction. `value` is in satoshis.
pub struct TxOut {
    pub value: u64,
    pub script_pubkey: Vec<u8>,
}

pub struct TxOutView {
    pub value: u64,
    pub script_pubkey: Seq<u8>,
}

impl View for TxOut {
    type V = TxOutView;

    open spec fn view(&self) -> TxOutView {
        TxOutView { value: self.value, script_pubkey: self.script_pubkey@ }
    }
}

impl Clone for TxOut {
    fn clone(&self) -> (copy: Self)
        ensures
            copy@ == self@,
    {
        let script_pubkey = self.script_pubkey.clone();
        assert(script_pubkey@ =~= self.script_pubkey@);
        TxOut { value: self.value, script_pubkey }
    }
}

/// A transaction. `lock_time` is the lock time as it is serialized.
pub struct Transaction {
    pub version: i32,
    pub lock_time: u32,
    pub input: Vec<TxIn>,
    pub output: Vec<TxOut>,
}

pub struct TransactionView {
    pub version: i32,
    pub lock_time: u32,
    pub input: Seq<TxInView>,
    pub output: Seq<TxOutView>,
}

impl View for Transaction {
    type V = TransactionView;

    open spec fn view(&self) -> TransactionView {
        TransactionView {
            version: self.version,
            lock_time: self.lock_time,
            input: views(self.input@),
            output: views(self.output@),
        }
    }
}

/// A block header. `bits` is the compact target as it is serialized.
#[derive(Clone, Copy, Debug)]
pub struct Header {
    pub version: i32,
    pub prev_blockhash: Hash256,
    pub merkle_root: Hash256,
    pub time: u32,
    pub bits: u32,
    pub nonce: u32,
}

pub struct HeaderView {
    pub version: i32,
    pub prev_blockhash: Seq<u8>,
    pub merkle_root: Seq<u8>,
    pub time: u32,
    pub bits: u32,
    pub nonce: u32,
}

impl View for Header {
    type V = HeaderView;

    open spec fn view(&self) -> HeaderView {
        HeaderView {
            version: self.version,
            prev_blockhash: self.prev_blockhash@,
            merkle_root: self.merkle_root@,
            time: self.time,
            bits: self.bits,
            nonce: self.nonce,
        }
    }
}

/// A block. The first transaction is the coinbase.
pub struct Block {
    pub header: Header,
    pub txdata: Vec<Transaction>,
}

pub struct BlockView {
    pub header: HeaderView,
    pub txdata: Seq<TransactionView>,
}

impl View for Block {
    type V = BlockView;

    open spec fn view(&self) -> BlockView {
        BlockView { header: self.header@, txdata: views(self.txdata@) }
    }
}

/// A proposed sidechain that miners vote on.
#[derive(Debug)]
pub struct SidechainProposal {
    pub sidechain_number: u8,
    pub data: Vec<u8>,
    pub vote_count: u16,
    pub proposal_height: u32,
}

pub struct SidechainProposalView {
    pub sidechain_number: u8,
    pub data: Seq<u8>,
    pub vote_count: u16,
    pub proposal_height: u32,
}

impl View for SidechainProposal {
    type V = SidechainProposalView;

    open spec fn view(&self) -> SidechainProposalView {
        SidechainProposalView {
            sidechain_number: self.sidechain_number,
            data: self.data@,
            vote_count: self.vote_count,
            proposal_height: self.proposal_height,
        }
    }
}

impl Clone for SidechainProposal {
    fn clone(&self) -> (copy: Self)
        ensures
            copy@ == self@,
    {
        let data = self.data.clone();
        assert(data@ =~= self.data@);
        SidechainProposal {
            sidechain_number: self.sidechain_number,
            data,
            vote_count: self.vote_count,
            proposal_height: self.proposal_height,
        }
    }
}

/// An active sidechain.
#[derive(Debug)]
pub struct Sidechain {
    pub sidechain_number: u8,
    pub data: Vec<u8>,
    pub vote_count: u16,
    pub proposal_height: u32,
    pub activation_height: u32,
}

pub struct SidechainView {
    pub sidechain_number: u8,
    pub data: Seq<u8>,
    pub vote_count: u16,
    pub proposal_height: u32,
    pub activation_height: u32,
}

impl View for Sidechain {
    type V = SidechainView;

    open spec fn view(&self) -> SidechainView {
        SidechainView {
            sidechain_number: self.sidechain_number,
            data: self.data@,
            vote_count: self.vote_count,
            proposal_height: self.proposal_height,
            activation_height: self.activation_height,
        }
    }
}

impl Clone for Sidechain {
    fn clone(&self) -> (copy: Self)
        ensures
            copy@ == self@,
    {
        let data = self.data.clone();
        assert(data@ =~= self.data@);
        Sidechain {
            sidechain_number: self.sidechain_number,
            data,
            vote_count: self.vote_count,
            proposal_height: self.proposal_height,
            activation_height: self.activation_height,
        }
    }
}

/// A withdrawal bundle that miners vote on.
#[derive(Clone, Copy, Debug)]
pub struct Bundle {
    pub bundle_txid: Hash256,
    pub vote_count: u16,
}

pub struct BundleView {
    pub bundle_txid: Seq<u8>,
    pub vote_count: u16,
}

impl View for Bundle {
    type V = BundleView;

    open spec fn view(&self) -> BundleView {
        BundleView { bundle_txid: self.bundle_txid@, vote_count: self.vote_count }
    }
}

/// The output that holds all coins of a sidechain. `value` is in satoshis.
#[derive(Clone, Copy, Debug)]
pub struct Ctip {
    pub outpoint: OutPoint,
    pub value: u64,
}

pub struct CtipView {
    pub outpoint: OutPointView,
    pub value: u64,
}

impl View for Ctip {
    type V = CtipView;

    open spec fn view(&self) -> CtipView {
        CtipView { outpoint: self.outpoint@, value: self.value }
    }
}

/// A vote of the wallet for a sidechain proposal.
#[derive(Clone, Copy, Debug)]
pub struct SidechainAck {
    pub sidechain_number: u8,
    pub description_hash: Hash256,
}

pub struct SidechainAckView {
    pub sidechain_number: u8,
    pub description_hash: Seq<u8>,
}

impl View for SidechainAck {
    type V = SidechainAckView;

    open spec fn view(&self) -> SidechainAckView {
        SidechainAckView {
            sidechain_number: self.sidechain_number,
            description_hash: self.description_hash@,
        }
    }
}

/// A sidechain that is proposed, with the bytes that describe it.
pub struct SidechainDescription {
    pub sidechain_number: u8,
    pub description: Vec<u8>,
}

pub struct SidechainDescriptionView {
    pub sidechain_number: u8,
    pub description: Seq<u8>,
}

impl View for SidechainDescription {
    type V = SidechainDescriptionView;

    open spec fn view(&self) -> SidechainDescriptionView {
        SidechainDescriptionView {
            sidechain_number: self.sidechain_number,
            description: self.description@,
        }
    }
}

impl Clone for SidechainDescription {
    fn clone(&self) -> (copy: Self)
        ensures
            copy@ == self@,
    {
        let description = self.description.clone();
        assert(description@ =~= self.description@);
        SidechainDescription { sidechain_number: self.sidechain_number, description }
    }
}

/// A request to commit to a block of a sidechain.
#[derive(Clone, Copy, Debug)]
pub struct BmmRequest {
    pub sidechain_number: u8,
    pub bmm_hash: Hash256,
}

pub struct BmmRequestView {
    pub sidechain_number: u8,
    pub bmm_hash: Seq<u8>,
}

impl View for BmmRequest {
    type V = BmmRequestView;

    open spec fn view(&self) -> BmmRequestView {
        BmmRequestView { sidechain_number: self.sidechain_number, bmm_hash: self.bmm_hash@ }
    }
}

/// A withdrawal bundle that the wallet proposes. `fee` and `payout` are in
/// satoshis. `vote_count` is there once the bundle is in a block.
#[derive(Clone, Copy, Debug)]
pub struct BundleProposal {
    pub m6id: Hash256,
    pub fee: u64,
    pub payout: u64,
    pub vote_count: Option<u16>,
}

pub struct BundleProposalView {
    pub m6id: Seq<u8>,
    pub fee: u64,
    pub payout: u64,
    pub vote_count: Option<u16>,
}

impl View for BundleProposal {
    type V = BundleProposalView;

    open spec fn view(&self) -> BundleProposalView {
        BundleProposalView {
            m6id: self.m6id@,
            fee: self.fee,
            payout: self.payout,
            vote_count: self.vote_count,
        }
    }
}

/// The withdrawal bundles that the wallet proposes for a sidechain.
pub struct SidechainBundles {
    pub sidechain_number: u8,
    pub bundles: Vec<BundleProposal>,
}

pub struct SidechainBundlesView {
    pub sidechain_number: u8,
    pub bundles: Seq<BundleProposalView>,
}

impl View for SidechainBundles {
    type V = SidechainBundlesView;

    open spec fn view(&self) -> SidechainBundlesView {
        SidechainBundlesView {
            sidechain_number: self.sidechain_number,
            bundles: views(self.bundles@),
        }
    }
}

/// A withdrawal bundle that a coinbase proposes.
#[derive(Clone, Copy, Debug)]
pub struct BundleId {
    pub sidechain_number: u8,
    pub m6id: Hash256,
}

pub struct BundleIdView {
    pub sidechain_number: u8,
    pub m6id: Seq<u8>,
}

impl View for BundleId {
    type V = BundleIdView;

    open spec fn view(&self) -> BundleIdView {
        BundleIdView { sidechain_number: self.sidechain_number, m6id: self.m6id@ }
    }
}

} // verus!
