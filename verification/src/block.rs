//! A block: a batch of transactions under a mined header.
//!
//! The header's hash is the digest of its canonical text (fields joined with
//! `|`). Mining searches for a nonce whose header hash starts with
//! `difficulty` zero characters: parsing that prefix as a decimal integer
//! yields zero exactly when every character of it is `0`, so the all-zero
//! prefix is the stopping condition.
use vstd::prelude::*;
use crate::clock;
use crate::digest;
use crate::digest::{dec_int, hash_text};
use crate::transaction::{append_sep, Transaction, TransactionView};

verus! {

/// Identifier of a particular block on an entire blockchain.
pub struct BlockHeader {
    /// Timestamp at which a block was mined.
    pub timestamp: i64,
    /// Integer to achieve the network's difficulty.
    pub nonce: u32,
    /// Hash of a previous block.
    pub previous_hash: String,
    /// Merkle root hash.
    pub merkle: String,
    /// Current difficulty level of the network.
    pub difficulty: u32,
}

/// The mathematical value of a block header.
#[verifier::ext_equal]
pub ghost struct BlockHeaderView {
    pub timestamp: int,
    pub nonce: int,
    pub previous_hash: Seq<char>,
    pub merkle: Seq<char>,
    pub difficulty: int,
}

impl View for BlockHeader {
    type V = BlockHeaderView;

    open spec fn view(&self) -> BlockHeaderView {
        BlockHeaderView {
            timestamp: self.timestamp as int,
            nonce: self.nonce as int,
            previous_hash: self.previous_hash@,
            merkle: self.merkle@,
            difficulty: self.difficulty as int,
        }
    }
}

impl DeepView for BlockHeader {
    type V = BlockHeaderView;

    open spec fn deep_view(&self) -> BlockHeaderView {
        self.view()
    }
}

/// Data storage in a blockchain.
pub struct Block {
    /// Information about the block and the miner.
    pub header: BlockHeader,
    /// Total amount of transactions.
    pub count: usize,
    /// An amount of transactions.
    pub transactions: Vec<Transaction>,
}

/// The mathematical value of a block.
#[verifier::ext_equal]
pub ghost struct BlockView {
    pub header: BlockHeaderView,
    pub count: int,
    pub transactions: Seq<TransactionView>,
}

impl View for Block {
    type V = BlockView;

    open spec fn view(&self) -> BlockView {
        BlockView {
            header: self.header@,
            count: self.count as int,
            transactions: self.transactions.deep_view(),
        }
    }
}

impl DeepView for Block {
    type V = BlockView;

    open spec fn deep_view(&self) -> BlockView {
        self.view()
    }
}

/// The canonical text of a header: timestamp, nonce, previous hash, Merkle
/// root and difficulty, joined with `|`.
pub open spec fn header_text(h: BlockHeaderView) -> Seq<char> {
    dec_int(h.timestamp) + seq!['|'] + dec_int(h.nonce) + seq!['|'] + h.previous_hash + seq!['|']
        + h.merkle + seq!['|'] + dec_int(h.difficulty)
}

/// The hash of a header: the digest of its canonical text.
pub open spec fn header_hash(h: BlockHeaderView) -> Seq<char> {
    hash_text(header_text(h))
}

/// A hash meets a difficulty level when its first `d` characters are all `0`.
pub open spec fn meets_difficulty(hash: Seq<char>, d: int) -> bool {
    d <= hash.len() && (forall|i: int| 0 <= i < d ==> hash[i] == '0')
}

/// The header with its nonce replaced.
pub open spec fn with_nonce(h: BlockHeaderView, n: int) -> BlockHeaderView {
    BlockHeaderView { nonce: n, ..h }
}

/// Whether nonce `n` mines the header: the hash of the header carrying `n`
/// meets the header's difficulty.
pub open spec fn pow_at(h: BlockHeaderView, n: int) -> bool {
    meets_difficulty(header_hash(with_nonce(h, n)), h.difficulty)
}

pub(crate) fn header_string(h: &BlockHeader) -> (r: String)
    ensures
        r@ == header_text(h@),
{
    let mut s = digest::i64_dec(h.timestamp);
    append_sep(&mut s);
    let n = digest::i64_dec(h.nonce as i64);
    s.append(n.as_str());
    append_sep(&mut s);
    s.append(h.previous_hash.as_str());
    append_sep(&mut s);
    s.append(h.merkle.as_str());
    append_sep(&mut s);
    let d = digest::i64_dec(h.difficulty as i64);
    s.append(d.as_str());
    s
}

fn meets(hash: &str, d: u32) -> (b: bool)
    ensures
        b == meets_difficulty(hash@, d as int),
{
    let len = hash.unicode_len();
    if (d as usize) > len {
        return false;
    }
    let mut i: usize = 0;
    while i < (d as usize)
        invariant
            i <= d as int <= hash@.len(),
            forall|j: int| 0 <= j < i ==> hash@[j] == '0',
        decreases d as int - i,
    {
        if hash.get_char(i) != '0' {
            return false;
        }
        i = i + 1;
    }
    true
}

fn header_pow_ok(h: &BlockHeader) -> (b: bool)
    ensures
        b == pow_at(h@, h@.nonce),
{
    let text = header_string(h);
    let hash = digest::hash_str(text.as_str());
    proof {
        assert(with_nonce(h@, h@.nonce) =~= h@);
    }
    meets(hash.as_str(), h.difficulty)
}

impl Block {
    /// Create a new block: a fresh header carrying the given previous hash and
    /// difficulty, a zero nonce, an empty Merkle root, the current time, and no
    /// transactions.
    pub fn new(previous_hash: String, difficulty: u32) -> (b: Block)
        ensures
            b@.header.nonce == 0,
            b@.header.previous_hash == previous_hash@,
            b@.header.merkle == Seq::<char>::empty(),
            b@.header.difficulty == difficulty as int,
            b@.count == 0,
            b@.transactions == Seq::<TransactionView>::empty(),
    {
        let header = BlockHeader {
            nonce: 0,
            difficulty,
            previous_hash,
            merkle: String::new(),
            timestamp: clock::now_timestamp(),
        };
        let b = Block { header, count: 0, transactions: Vec::new() };
        proof {
            assert(b@.transactions =~= Seq::<TransactionView>::empty());
        }
        b
    }

    /// Mine the header: starting from its current nonce, advance to the first
    /// nonce whose header hash meets the difficulty. Only the nonce changes.
    /// If no nonce in the remaining search space works, the search stops with
    /// the nonce at its maximum.
    pub fn proof_of_work(header: &mut BlockHeader)
        ensures
            final(header)@.timestamp == old(header)@.timestamp,
            final(header)@.previous_hash == old(header)@.previous_hash,
            final(header)@.merkle == old(header)@.merkle,
            final(header)@.difficulty == old(header)@.difficulty,
            old(header)@.nonce <= final(header)@.nonce <= u32::MAX,
            forall|n: int|
                old(header)@.nonce <= n < final(header)@.nonce ==> !pow_at(old(header)@, n),
            pow_at(old(header)@, final(header)@.nonce) || final(header)@.nonce == u32::MAX,
    {
        let ghost h0 = header@;
        while !header_pow_ok(header) && header.nonce < u32::MAX
            invariant
                header@.timestamp == h0.timestamp,
                header@.previous_hash == h0.previous_hash,
                header@.merkle == h0.merkle,
                header@.difficulty == h0.difficulty,
                h0.nonce <= header@.nonce <= u32::MAX,
                forall|n: int| h0.nonce <= n < header@.nonce ==> !pow_at(h0, n),
            decreases u32::MAX - header@.nonce,
        {
            proof {
                assert(with_nonce(header@, header@.nonce) =~= with_nonce(h0, header@.nonce));
                assert(!pow_at(h0, header@.nonce));
            }
            header.nonce = header.nonce + 1;
        }
        proof {
            assert(with_nonce(header@, header@.nonce) =~= with_nonce(h0, header@.nonce));
        }
    }
}

} // verus!
