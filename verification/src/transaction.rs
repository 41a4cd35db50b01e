//! A transaction: an immutable transfer record, self-hashing at construction.
//!
//! Monetary values are held in thousandths of a coin; the fee is a rate in
//! thousandths. The hash of a transaction covers its sender, receiver, amount
//! and timestamp — the fee is excluded — rendered as a canonical text whose
//! fields are joined with `|`.
use vstd::prelude::*;
use crate::clock;
use crate::digest;
use crate::digest::{dec_int, hash_text};

verus! {

/// Exchange of assets between two parties.
pub struct Transaction {
    /// Transaction hash.
    pub hash: String,
    /// Transaction sender address.
    pub from: String,
    /// Transaction receiver address.
    pub to: String,
    /// Transaction fee rate, in thousandths.
    pub fee: i64,
    /// Transaction amount, in thousandths of a coin.
    pub amount: i64,
    /// Transaction timestamp, in seconds since the Unix epoch.
    pub timestamp: i64,
}

/// The mathematical value of a transaction.
#[verifier::ext_equal]
pub ghost struct TransactionView {
    pub hash: Seq<char>,
    pub from: Seq<char>,
    pub to: Seq<char>,
    pub fee: int,
    pub amount: int,
    pub timestamp: int,
}

impl View for Transaction {
    type V = TransactionView;

    open spec fn view(&self) -> TransactionView {
        TransactionView {
            hash: self.hash@,
            from: self.from@,
            to: self.to@,
            fee: self.fee as int,
            amount: self.amount as int,
            timestamp: self.timestamp as int,
        }
    }
}

impl DeepView for Transaction {
    type V = TransactionView;

    open spec fn deep_view(&self) -> TransactionView {
        self.view()
    }
}

/// The canonical text hashed when a transaction is created: sender, receiver,
/// amount and timestamp, joined with `|`. The fee is excluded.
pub open spec fn tx_core_text(from: Seq<char>, to: Seq<char>, amount: int, timestamp: int) -> Seq<
    char,
> {
    from + seq!['|'] + to + seq!['|'] + dec_int(amount) + seq!['|'] + dec_int(timestamp)
}

/// The hash a new transaction carries.
pub open spec fn tx_hash(from: Seq<char>, to: Seq<char>, amount: int, timestamp: int) -> Seq<
    char,
> {
    hash_text(tx_core_text(from, to, amount, timestamp))
}

/// The canonical text of a whole transaction record, every field included,
/// joined with `|`. Blocks hash this text when computing their Merkle root.
pub open spec fn tx_leaf_text(t: TransactionView) -> Seq<char> {
    t.hash + seq!['|'] + t.from + seq!['|'] + t.to + seq!['|'] + dec_int(t.fee) + seq!['|']
        + dec_int(t.amount) + seq!['|'] + dec_int(t.timestamp)
}

/// The Merkle leaf hash of a transaction record.
pub open spec fn tx_leaf_hash(t: TransactionView) -> Seq<char> {
    hash_text(tx_leaf_text(t))
}

pub(crate) fn append_sep(s: &mut String)
    ensures
        final(s)@ == old(s)@ + seq!['|'],
{
    s.append("|");
    proof {
        reveal_strlit("|");
        assert("|"@ =~= seq!['|']);
    }
}

fn tx_core_string(from: &str, to: &str, amount: i64, timestamp: i64) -> (r: String)
    ensures
        r@ == tx_core_text(from@, to@, amount as int, timestamp as int),
{
    let mut s = String::from_str(from);
    append_sep(&mut s);
    s.append(to);
    append_sep(&mut s);
    let a = digest::i64_dec(amount);
    s.append(a.as_str());
    append_sep(&mut s);
    let t = digest::i64_dec(timestamp);
    s.append(t.as_str());
    s
}

pub(crate) fn tx_leaf_string(t: &Transaction) -> (r: String)
    ensures
        r@ == tx_leaf_text(t@),
{
    let mut s = t.hash.clone();
    append_sep(&mut s);
    s.append(t.from.as_str());
    append_sep(&mut s);
    s.append(t.to.as_str());
    append_sep(&mut s);
    let f = digest::i64_dec(t.fee);
    s.append(f.as_str());
    append_sep(&mut s);
    let a = digest::i64_dec(t.amount);
    s.append(a.as_str());
    append_sep(&mut s);
    let ts = digest::i64_dec(t.timestamp);
    s.append(ts.as_str());
    s
}

impl Transaction {
    /// Create a new transaction, stamped with the current time and carrying
    /// the hash of its sender, receiver, amount and timestamp.
    pub fn new(from: String, to: String, fee: i64, amount: i64) -> (t: Transaction)
        ensures
            t@.from == from@,
            t@.to == to@,
            t@.fee == fee as int,
            t@.amount == amount as int,
            t@.hash == tx_hash(from@, to@, amount as int, t@.timestamp),
    {
        let timestamp = clock::now_timestamp();
        let text = tx_core_string(from.as_str(), to.as_str(), amount, timestamp);
        let hash = digest::hash_str(text.as_str());
        Transaction { hash, from, to, fee, amount, timestamp }
    }

    /// An exact copy of the record.
    pub fn duplicate(&self) -> (r: Transaction)
        ensures
            r@ == self@,
    {
        let r = Transaction {
            hash: self.hash.clone(),
            from: self.from.clone(),
            to: self.to.clone(),
            fee: self.fee,
            amount: self.amount,
            timestamp: self.timestamp,
        };
        proof {
            assert(r@ =~= self@);
        }
        r
    }
}

} // verus!
