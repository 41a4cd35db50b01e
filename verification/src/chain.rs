//! The chain aggregate: wallet registry, pending-transaction pool and block
//! history, with transaction validation, pagination, Merkle-root computation
//! and proof-of-work sealing.
//!
//! Monetary values are in thousandths of a coin; the fee is a rate in
//! thousandths, so a submission of `amount` debits the sender
//! `amount * fee / 1000`, truncated toward zero.
use vstd::prelude::*;
use rand::Rng;
use crate::block::{header_hash, pow_at, Block, BlockView};
use crate::digest;
use crate::digest::hash_text;
use crate::pagination::{page_slice, page_start, total_pages};
use crate::transaction::{tx_hash, tx_leaf_hash, Transaction, TransactionView};
use crate::wallet::{Wallet, WalletView};

verus! {

/// A blockchain.
pub struct Chain {
    /// Chain of blocks.
    pub chain: Vec<Block>,
    /// List of pending transactions.
    pub current_transactions: Vec<Transaction>,
    /// Current difficulty level of the network: how many `0` characters a
    /// block hash must start with.
    pub difficulty: u32,
    /// Blockchain genesis address.
    pub address: String,
    /// Block reward, in thousandths of a coin.
    pub reward: i64,
    /// Transaction fee rate, in thousandths.
    pub fee: i64,
    /// The wallet registry, keyed by each wallet's address.
    pub wallets: Vec<Wallet>,
}

/// The mathematical value of a chain.
#[verifier::ext_equal]
pub ghost struct ChainView {
    pub chain: Seq<BlockView>,
    pub current_transactions: Seq<TransactionView>,
    pub difficulty: int,
    pub address: Seq<char>,
    pub reward: int,
    pub fee: int,
    pub wallets: Seq<WalletView>,
}

impl View for Chain {
    type V = ChainView;

    open spec fn view(&self) -> ChainView {
        ChainView {
            chain: self.chain.deep_view(),
            current_transactions: self.current_transactions.deep_view(),
            difficulty: self.difficulty as int,
            address: self.address@,
            reward: self.reward as int,
            fee: self.fee as int,
            wallets: self.wallets.deep_view(),
        }
    }
}

/// Whether the registry holds a wallet with this address.
pub open spec fn has_wallet(ws: Seq<WalletView>, a: Seq<char>) -> bool {
    exists|i: int| 0 <= i < ws.len() && ws[i].address == a
}

/// The index of the first wallet with this address.
pub open spec fn wallet_at(ws: Seq<WalletView>, a: Seq<char>) -> int
    decreases ws.len(),
{
    if ws.len() == 0 {
        0
    } else if ws[0].address == a {
        0
    } else {
        1 + wallet_at(ws.drop_first(), a)
    }
}

/// The balance recorded for this address.
pub open spec fn balance_of(ws: Seq<WalletView>, a: Seq<char>) -> int {
    ws[wallet_at(ws, a)].balance
}

/// Whether the pool holds a transaction with this hash.
pub open spec fn has_tx(pool: Seq<TransactionView>, h: Seq<char>) -> bool {
    exists|i: int| 0 <= i < pool.len() && pool[i].hash == h
}

/// The index of the first pooled transaction with this hash.
pub open spec fn tx_at(pool: Seq<TransactionView>, h: Seq<char>) -> int
    decreases pool.len(),
{
    if pool.len() == 0 {
        0
    } else if pool[0].hash == h {
        0
    } else {
        1 + tx_at(pool.drop_first(), h)
    }
}

/// A present address's first match is a valid index, carries the address, and
/// nothing before it does.
pub proof fn lemma_wallet_at(ws: Seq<WalletView>, a: Seq<char>)
    requires
        has_wallet(ws, a),
    ensures
        0 <= wallet_at(ws, a) < ws.len(),
        ws[wallet_at(ws, a)].address == a,
        forall|k: int| 0 <= k < wallet_at(ws, a) ==> ws[k].address != a,
    decreases ws.len(),
{
    if ws.len() == 0 {
    } else if ws[0].address == a {
    } else {
        let i = choose|i: int| 0 <= i < ws.len() && ws[i].address == a;
        assert(ws.drop_first()[i - 1].address == a);
        lemma_wallet_at(ws.drop_first(), a);
        assert forall|k: int| 1 <= k < wallet_at(ws, a) implies ws[k].address != a by {
            assert(ws.drop_first()[k - 1] == ws[k]);
        }
    }
}

/// The first index whose wallet carries the address is the first match.
pub proof fn lemma_wallet_at_is(ws: Seq<WalletView>, a: Seq<char>, i: int)
    requires
        0 <= i < ws.len(),
        ws[i].address == a,
        forall|k: int| 0 <= k < i ==> ws[k].address != a,
    ensures
        has_wallet(ws, a),
        wallet_at(ws, a) == i,
    decreases ws.len(),
{
    if i == 0 {
    } else {
        assert(forall|k: int| 0 <= k < i - 1 ==> ws.drop_first()[k].address != a);
        lemma_wallet_at_is(ws.drop_first(), a, i - 1);
    }
}

/// The first index whose transaction carries the hash is the first match.
pub proof fn lemma_tx_at_is(pool: Seq<TransactionView>, h: Seq<char>, i: int)
    requires
        0 <= i < pool.len(),
        pool[i].hash == h,
        forall|k: int| 0 <= k < i ==> pool[k].hash != h,
    ensures
        has_tx(pool, h),
        tx_at(pool, h) == i,
    decreases pool.len(),
{
    if i == 0 {
    } else {
        assert(forall|k: int| 0 <= k < i - 1 ==> pool.drop_first()[k].hash != h);
        lemma_tx_at_is(pool.drop_first(), h, i - 1);
    }
}

/// The business rules a submission must pass: the sender is not the minting
/// address `Root`, sender and receiver differ, the debited amount is
/// positive, both wallets exist, and the sender can cover the debit.
pub open spec fn tx_valid(
    ws: Seq<WalletView>,
    from: Seq<char>,
    to: Seq<char>,
    amount: int,
) -> bool {
    &&& from != "Root"@
    &&& from != to
    &&& amount > 0
    &&& has_wallet(ws, from)
    &&& has_wallet(ws, to)
    &&& balance_of(ws, from) >= amount
}

/// The sender-side debit of a submission: `amount * fee / 1000`, truncated
/// toward zero.
pub open spec fn debit_of(amount: int, fee: int) -> int {
    let p = amount * fee;
    if p >= 0 {
        p / 1000
    } else {
        -((-p) / 1000)
    }
}

/// Whether a submission of `amount` will be accepted and applied: the debited
/// total must pass every business rule, and the credited receiver balance
/// must stay representable.
pub open spec fn add_ok(c: ChainView, from: Seq<char>, to: Seq<char>, amount: int) -> bool {
    &&& tx_valid(c.wallets, from, to, debit_of(amount, c.fee))
    &&& i64::MIN <= balance_of(c.wallets, to) + amount <= i64::MAX
}

/// How a successful submission transforms the chain: one new transaction at
/// the end of the pool carrying the debited total; the sender debited and the
/// receiver credited, both histories extended with the new hash; everything
/// else unchanged.
pub open spec fn add_applied(
    pre: ChainView,
    post: ChainView,
    from: Seq<char>,
    to: Seq<char>,
    amount: int,
) -> bool {
    let total = debit_of(amount, pre.fee);
    let si = wallet_at(pre.wallets, from);
    let ri = wallet_at(pre.wallets, to);
    let sender = pre.wallets[si];
    let receiver = pre.wallets[ri];
    let newtx = post.current_transactions.last();
    &&& post.current_transactions == pre.current_transactions.push(newtx)
    &&& newtx.from == from
    &&& newtx.to == to
    &&& newtx.fee == pre.fee
    &&& newtx.amount == total
    &&& newtx.hash == tx_hash(from, to, total, newtx.timestamp)
    &&& post.wallets == pre.wallets.update(
        si,
        WalletView {
            balance: sender.balance - total,
            transactions: sender.transactions.push(newtx.hash),
            ..sender
        },
    ).update(
        ri,
        WalletView {
            balance: receiver.balance + amount,
            transactions: receiver.transactions.push(newtx.hash),
            ..receiver
        },
    )
    &&& post.chain == pre.chain
    &&& post.difficulty == pre.difficulty
    &&& post.address == pre.address
    &&& post.reward == pre.reward
    &&& post.fee == pre.fee
}

/// First-match wallet lookup depends on the registry's addresses alone.
pub proof fn lemma_wallet_at_same_addrs(ws1: Seq<WalletView>, ws2: Seq<WalletView>, a: Seq<char>)
    requires
        ws1.len() == ws2.len(),
        forall|i: int| 0 <= i < ws1.len() ==> ws1[i].address == ws2[i].address,
    ensures
        has_wallet(ws1, a) == has_wallet(ws2, a),
        wallet_at(ws1, a) == wallet_at(ws2, a),
    decreases ws1.len(),
{
    assert(has_wallet(ws1, a) == has_wallet(ws2, a)) by {
        if has_wallet(ws1, a) {
            let i = choose|i: int| 0 <= i < ws1.len() && ws1[i].address == a;
            assert(ws2[i].address == a);
        }
        if has_wallet(ws2, a) {
            let i = choose|i: int| 0 <= i < ws2.len() && ws2[i].address == a;
            assert(ws1[i].address == a);
        }
    }
    if ws1.len() == 0 {
    } else if ws1[0].address == a {
    } else {
        assert(forall|i: int|
            0 <= i < ws1.drop_first().len() ==> ws1.drop_first()[i].address
                == ws2.drop_first()[i].address);
        lemma_wallet_at_same_addrs(ws1.drop_first(), ws2.drop_first(), a);
    }
}

/// A character a wallet address is drawn from: an ASCII letter or digit.
pub open spec fn is_address_char(c: char) -> bool {
    ('a' <= c && c <= 'z') || ('A' <= c && c <= 'Z') || ('0' <= c && c <= '9')
}

/// Relies on str's `==`: two string slices are equal exactly when their
/// characters are.
#[verifier::external_body]
pub(crate) fn str_eq(a: &str, b: &str) -> (r: bool)
    ensures
        r == (a@ == b@),
{
    a == b
}

/// Relies on rand's Alphanumeric distribution: every sampled byte is an ASCII
/// letter or digit.
#[verifier::external_body]
fn random_address_char() -> (r: String)
    ensures
        r@.len() == 1,
        is_address_char(r@[0]),
{
    let c = rand::thread_rng().sample(rand::distributions::Alphanumeric) as char;
    String::from(c)
}

/// The all-zero sentinel standing for the hash before the genesis block.
pub open spec fn zeros64() -> Seq<char> {
    Seq::new(64, |i: int| '0')
}

fn zeros_string() -> (r: String)
    ensures
        r@ == zeros64(),
{
    let mut r = String::new();
    let mut i: usize = 0;
    while i < 64
        invariant
            i <= 64,
            r@.len() == i,
            forall|j: int| 0 <= j < i ==> r@[j] == '0',
        decreases 64 - i,
    {
        r.append("0");
        proof {
            reveal_strlit("0");
        }
        i = i + 1;
    }
    proof {
        assert(r@ =~= zeros64());
    }
    r
}

/// The queue-style Merkle fold: repeatedly take the two front hashes, hash
/// their concatenation, and push the result to the back, until one hash
/// remains.
pub open spec fn merkle_fold(s: Seq<Seq<char>>) -> Seq<char>
    decreases s.len(),
{
    if s.len() == 0 {
        Seq::empty()
    } else if s.len() == 1 {
        s[0]
    } else {
        merkle_fold(s.subrange(2, s.len() as int).push(hash_text(s[0] + s[1])))
    }
}

/// The Merkle leaves: each transaction's full record hashed.
pub open spec fn merkle_leaves(txs: Seq<TransactionView>) -> Seq<Seq<char>> {
    txs.map_values(|t: TransactionView| tx_leaf_hash(t))
}

/// An odd number of leaves is padded by duplicating the last one.
pub open spec fn merkle_pad(hs: Seq<Seq<char>>) -> Seq<Seq<char>> {
    if hs.len() % 2 == 1 {
        hs.push(hs.last())
    } else {
        hs
    }
}

/// The Merkle root of a transaction list: the queue-style fold of its padded
/// leaf hashes.
pub open spec fn merkle_root(txs: Seq<TransactionView>) -> Seq<char> {
    merkle_fold(merkle_pad(merkle_leaves(txs)))
}

fn push_str_deep(v: &mut Vec<String>, x: String)
    ensures
        final(v).deep_view() == old(v).deep_view().push(x@),
        final(v)@.len() == old(v)@.len() + 1,
{
    let ghost prev = v@;
    let ghost prev_deep = v.deep_view();
    v.push(x);
    proof {
        assert(v@ == prev.push(x));
        assert(prev_deep.len() == prev.len());
        assert forall|i: int| 0 <= i < v@.len() implies #[trigger] v.deep_view()[i]
            == prev_deep.push(x@)[i] by {
            if i < prev.len() {
                assert(v@[i] == prev[i]);
                assert(v.deep_view()[i] == prev_deep[i]);
            } else {
                assert(v@[i] == x);
            }
        }
        assert(v.deep_view() =~= prev_deep.push(x@));
    }
}

fn push_tx_deep(v: &mut Vec<Transaction>, x: Transaction)
    ensures
        final(v).deep_view() == old(v).deep_view().push(x@),
        final(v)@.len() == old(v)@.len() + 1,
{
    let ghost prev = v@;
    let ghost prev_deep = v.deep_view();
    let ghost xv = x@;
    v.push(x);
    proof {
        assert(v@ == prev.push(x));
        assert(prev_deep.len() == prev.len());
        assert forall|i: int| 0 <= i < v@.len() implies #[trigger] v.deep_view()[i]
            == prev_deep.push(xv)[i] by {
            if i < prev.len() {
                assert(v@[i] == prev[i]);
                assert(v.deep_view()[i] == prev_deep[i]);
            } else {
                assert(v@[i] == x);
            }
        }
        assert(v.deep_view() =~= prev_deep.push(xv));
    }
}

fn duplicate_txs(v: &Vec<Transaction>) -> (r: Vec<Transaction>)
    ensures
        r.deep_view() == v.deep_view(),
{
    let mut r: Vec<Transaction> = Vec::new();
    let mut i: usize = 0;
    while i < v.len()
        invariant
            i <= v@.len(),
            r.deep_view() =~= v.deep_view().take(i as int),
            r@.len() == i,
        decreases v@.len() - i,
    {
        let t = v[i].duplicate();
        push_tx_deep(&mut r, t);
        proof {
            assert(r.deep_view() =~= v.deep_view().take(i + 1));
        }
        i = i + 1;
    }
    proof {
        assert(v.deep_view().take(v@.len() as int) =~= v.deep_view());
    }
    r
}

/// The hash of the last block's header, or the 64-zero sentinel for an empty
/// chain.
pub open spec fn last_hash(c: ChainView) -> Seq<char> {
    if c.chain.len() == 0 {
        zeros64()
    } else {
        header_hash(c.chain.last().header)
    }
}

/// Resolve a list of transaction hashes against the pending pool: each hash
/// still pending contributes its first matching transaction, in order; the
/// others are skipped.
pub open spec fn resolve(pool: Seq<TransactionView>, hs: Seq<Seq<char>>) -> Seq<TransactionView>
    decreases hs.len(),
{
    if hs.len() == 0 {
        Seq::empty()
    } else {
        (if has_tx(pool, hs[0]) {
            seq![pool[tx_at(pool, hs[0])]]
        } else {
            Seq::empty()
        }) + resolve(pool, hs.drop_first())
    }
}

/// Resolving one more hash appends its match, if any.
pub proof fn lemma_resolve_push(pool: Seq<TransactionView>, hs: Seq<Seq<char>>, h: Seq<char>)
    ensures
        resolve(pool, hs.push(h)) == resolve(pool, hs) + (if has_tx(pool, h) {
            seq![pool[tx_at(pool, h)]]
        } else {
            Seq::empty()
        }),
    decreases hs.len(),
{
    let mh: Seq<TransactionView> = if has_tx(pool, h) {
        seq![pool[tx_at(pool, h)]]
    } else {
        Seq::empty()
    };
    if hs.len() == 0 {
        assert(hs.push(h).drop_first() =~= Seq::<Seq<char>>::empty());
        assert(hs.push(h)[0] == h);
        assert(resolve(pool, hs.push(h)) == mh + resolve(pool, hs.push(h).drop_first()));
        assert(resolve(pool, hs.push(h).drop_first()) == Seq::<TransactionView>::empty());
        assert(mh + Seq::<TransactionView>::empty() =~= mh);
        assert(resolve(pool, hs) == Seq::<TransactionView>::empty());
        assert(Seq::<TransactionView>::empty() + mh =~= mh);
    } else {
        let m0: Seq<TransactionView> = if has_tx(pool, hs[0]) {
            seq![pool[tx_at(pool, hs[0])]]
        } else {
            Seq::empty()
        };
        assert(hs.push(h).drop_first() =~= hs.drop_first().push(h));
        assert(hs.push(h)[0] == hs[0]);
        assert(resolve(pool, hs.push(h)) == m0 + resolve(pool, hs.drop_first().push(h)));
        lemma_resolve_push(pool, hs.drop_first(), h);
        assert(resolve(pool, hs.drop_first().push(h)) == resolve(pool, hs.drop_first()) + mh);
        assert(resolve(pool, hs) == m0 + resolve(pool, hs.drop_first()));
        assert(m0 + (resolve(pool, hs.drop_first()) + mh) =~= (m0 + resolve(
            pool,
            hs.drop_first(),
        )) + mh);
    }
}

/// The page window taken from a wallet's hash list: the page count is
/// computed over the pending pool, while the offsets are clamped to the
/// wallet's own history.
pub open spec fn wallet_page_hashes(
    pool_len: int,
    hs: Seq<Seq<char>>,
    page: int,
    size: int,
) -> Seq<Seq<char>>
    recommends
        size >= 1,
{
    if page > total_pages(pool_len, size) {
        Seq::empty()
    } else {
        let start = page_start(page, size);
        let lo = if start <= hs.len() {
            start
        } else {
            hs.len() as int
        };
        let hi = if start + size <= hs.len() {
            start + size
        } else {
            hs.len() as int
        };
        hs.subrange(lo, hi)
    }
}

/// What sealing a block over the chain state `pre` produces: the block points
/// at the previous block's hash, copies the difficulty, counts its
/// transactions, opens with the reward transaction minted from `Root` to the
/// chain's own address, continues with the whole pending pool in order, and
/// carries the Merkle root of all of them. Its nonce either mines the header
/// or exhausted the search space.
pub open spec fn new_block_ok(pre: ChainView, b: BlockView) -> bool {
    &&& b.header.previous_hash == last_hash(pre)
    &&& b.header.difficulty == pre.difficulty
    &&& b.header.merkle == merkle_root(b.transactions)
    &&& b.count == b.transactions.len()
    &&& b.transactions.len() == 1 + pre.current_transactions.len()
    &&& b.transactions[0].from == "Root"@
    &&& b.transactions[0].to == pre.address
    &&& b.transactions[0].fee == pre.fee
    &&& b.transactions[0].amount == pre.reward
    &&& b.transactions[0].hash == tx_hash("Root"@, pre.address, pre.reward, b.transactions[0].timestamp)
    &&& b.transactions.subrange(1, b.transactions.len() as int) == pre.current_transactions
    &&& (pow_at(b.header, b.header.nonce) || b.header.nonce == u32::MAX)
    &&& (forall|n: int| 0 <= n < b.header.nonce ==> !pow_at(b.header, n))
}

impl Chain {
    /// Find the first wallet carrying this address.
    fn find_wallet(&self, address: &str) -> (r: Option<usize>)
        ensures
            match r {
                Some(i) => has_wallet(self@.wallets, address@) && i == wallet_at(
                    self@.wallets,
                    address@,
                ),
                None => !has_wallet(self@.wallets, address@),
            },
    {
        let mut i: usize = 0;
        while i < self.wallets.len()
            invariant
                i <= self.wallets@.len(),
                forall|k: int| 0 <= k < i ==> self@.wallets[k].address != address@,
            decreases self.wallets@.len() - i,
        {
            if str_eq(self.wallets[i].address.as_str(), address) {
                proof {
                    lemma_wallet_at_is(self@.wallets, address@, i as int);
                }
                return Some(i);
            }
            i = i + 1;
        }
        proof {
            assert(!has_wallet(self@.wallets, address@)) by {
                if has_wallet(self@.wallets, address@) {
                    let k = choose|k: int|
                        0 <= k < self@.wallets.len() && self@.wallets[k].address == address@;
                }
            }
        }
        None
    }

    /// Validate a transaction: `true` exactly when every business rule
    /// passes.
    pub fn validate_transaction(&self, from: &str, to: &str, amount: i64) -> (r: bool)
        ensures
            r == tx_valid(self@.wallets, from@, to@, amount as int),
    {
        if str_eq(from, "Root") {
            return false;
        }
        if str_eq(from, to) {
            return false;
        }
        if amount <= 0 {
            return false;
        }
        let sender = match self.find_wallet(from) {
            Some(i) => i,
            None => {
                return false;
            },
        };
        if self.find_wallet(to).is_none() {
            return false;
        }
        proof {
            lemma_wallet_at(self@.wallets, from@);
        }
        if self.wallets[sender].balance < amount {
            return false;
        }
        true
    }

    /// Generate a random alphanumeric address of the given length.
    pub fn generate_address(length: usize) -> (r: String)
        ensures
            r@.len() == length,
            forall|i: int| 0 <= i < r@.len() ==> is_address_char(r@[i]),
    {
        let mut s = String::new();
        let mut i: usize = 0;
        while i < length
            invariant
                i <= length,
                s@.len() == i,
                forall|j: int| 0 <= j < i ==> is_address_char(s@[j]),
            decreases length - i,
        {
            let c = random_address_char();
            s.append(c.as_str());
            i = i + 1;
        }
        s
    }

    /// Look up a wallet's balance.
    pub fn get_wallet_balance(&self, address: String) -> (r: Option<i64>)
        ensures
            match r {
                Some(b) => has_wallet(self@.wallets, address@) && b as int == balance_of(
                    self@.wallets,
                    address@,
                ),
                None => !has_wallet(self@.wallets, address@),
            },
    {
        match self.find_wallet(address.as_str()) {
            Some(i) => {
                proof {
                    lemma_wallet_at(self@.wallets, address@);
                }
                Some(self.wallets[i].balance)
            },
            None => None,
        }
    }

    /// Find a pending transaction by its hash; sealed transactions are not
    /// searched.
    pub fn get_transaction(&self, hash: String) -> (r: Option<&Transaction>)
        ensures
            match r {
                Some(t) => has_tx(self@.current_transactions, hash@) && t@.hash == hash@ && t@
                    == self@.current_transactions[tx_at(self@.current_transactions, hash@)],
                None => !has_tx(self@.current_transactions, hash@),
            },
    {
        let mut i: usize = 0;
        while i < self.current_transactions.len()
            invariant
                i <= self.current_transactions@.len(),
                forall|k: int| 0 <= k < i ==> self@.current_transactions[k].hash != hash@,
            decreases self.current_transactions@.len() - i,
        {
            if str_eq(self.current_transactions[i].hash.as_str(), hash.as_str()) {
                proof {
                    lemma_tx_at_is(self@.current_transactions, hash@, i as int);
                }
                return Some(&self.current_transactions[i]);
            }
            i = i + 1;
        }
        proof {
            assert(!has_tx(self@.current_transactions, hash@)) by {
                if has_tx(self@.current_transactions, hash@) {
                    let k = choose|k: int|
                        0 <= k < self@.current_transactions.len()
                            && self@.current_transactions[k].hash == hash@;
                }
            }
        }
        None
    }

    /// The hash of the last block in the blockchain, or the 64-zero sentinel
    /// when no block exists yet.
    pub fn get_last_hash(&self) -> (r: String)
        ensures
            r@ == last_hash(self@),
    {
        if self.chain.len() == 0 {
            zeros_string()
        } else {
            let b = &self.chain[self.chain.len() - 1];
            let text = crate::block::header_string(&b.header);
            digest::hash_str(text.as_str())
        }
    }

    /// Update the mining difficulty; always succeeds.
    pub fn update_difficulty(&mut self, difficulty: u32) -> (r: bool)
        ensures
            r,
            final(self)@ == (ChainView { difficulty: difficulty as int, ..old(self)@ }),
    {
        self.difficulty = difficulty;
        true
    }

    /// Update the block reward; always succeeds.
    pub fn update_reward(&mut self, reward: i64) -> (r: bool)
        ensures
            r,
            final(self)@ == (ChainView { reward: reward as int, ..old(self)@ }),
    {
        self.reward = reward;
        true
    }

    /// Update the transaction fee rate; always succeeds.
    pub fn update_fee(&mut self, fee: i64) -> (r: bool)
        ensures
            r,
            final(self)@ == (ChainView { fee: fee as int, ..old(self)@ }),
    {
        self.fee = fee;
        true
    }

    /// Submit a transfer: debit the sender `amount * fee / 1000`, credit the
    /// receiver `amount`, record the new transaction's hash in both wallets'
    /// histories, and append the transaction to the pending pool — or reject
    /// the submission, changing nothing at all.
    pub fn add_transaction(&mut self, from: String, to: String, amount: i64) -> (r: bool)
        ensures
            r == add_ok(old(self)@, from@, to@, amount as int),
            !r ==> final(self)@ == old(self)@,
            r ==> add_applied(old(self)@, final(self)@, from@, to@, amount as int),
            r ==> balance_of(final(self)@.wallets, from@) == balance_of(old(self)@.wallets, from@)
                - debit_of(amount as int, old(self)@.fee),
            r ==> balance_of(final(self)@.wallets, to@) == balance_of(old(self)@.wallets, to@)
                + amount,
    {
        let a128: i128 = amount as i128;
        let fee128: i128 = self.fee as i128;
        proof {
            assert(-0x4000_0000_0000_0000_0000_0000_0000_0000 <= a128 * fee128
                <= 0x4000_0000_0000_0000_0000_0000_0000_0000) by (nonlinear_arith)
                requires
                    -0x8000_0000_0000_0000 <= a128 <= 0x8000_0000_0000_0000,
                    -0x8000_0000_0000_0000 <= fee128 <= 0x8000_0000_0000_0000,
            ;
        }
        let p: i128 = a128 * fee128;
        let ghost debit = debit_of(amount as int, self.fee as int);
        let total: i64;
        if p >= 1000 {
            let q: u128 = (p as u128) / 1000;
            proof {
                assert(q == debit);
            }
            if q > (i64::MAX as u128) {
                proof {
                    assert(!tx_valid(self@.wallets, from@, to@, debit)) by {
                        if has_wallet(self@.wallets, from@) {
                            lemma_wallet_at(self@.wallets, from@);
                            let si = wallet_at(self@.wallets, from@);
                            assert(self@.wallets[si] == self.wallets@[si]@);
                            assert(self.wallets@[si].balance <= i64::MAX);
                        }
                    }
                }
                return false;
            }
            total = q as i64;
        } else {
            proof {
                assert(debit <= 0) by {
                    if p >= 0 {
                        vstd::arithmetic::div_mod::lemma_basic_div(p as int, 1000);
                    } else {
                        vstd::arithmetic::div_mod::lemma_div_pos_is_pos(-(p as int), 1000);
                    }
                }
            }
            return false;
        }
        if !self.validate_transaction(from.as_str(), to.as_str(), total) {
            return false;
        }
        proof {
            lemma_wallet_at(self@.wallets, from@);
            lemma_wallet_at(self@.wallets, to@);
        }
        let si = match self.find_wallet(from.as_str()) {
            Some(i) => i,
            None => {
                proof {
                    assert(false);
                }
                return false;
            },
        };
        let ri = match self.find_wallet(to.as_str()) {
            Some(i) => i,
            None => {
                proof {
                    assert(false);
                }
                return false;
            },
        };
        let receiver_balance = self.wallets[ri].balance;
        let s128: i128 = (receiver_balance as i128) + (amount as i128);
        if s128 > (i64::MAX as i128) || s128 < (i64::MIN as i128) {
            return false;
        }
        let transaction = Transaction::new(from.clone(), to.clone(), self.fee, total);
        let ghost txv = transaction@;
        let h1 = transaction.hash.clone();
        let h2 = transaction.hash.clone();
        let ghost ws0 = self@.wallets;
        let ghost sender0 = ws0[si as int];
        let ghost receiver0 = ws0[ri as int];
        proof {
            assert(si != ri);
            assert(sender0.balance == self.wallets@[si as int].balance);
        }
        let w = &mut self.wallets[si];
        w.balance = w.balance - total;
        w.record(h1);
        proof {
            assert(self.wallets@[si as int]@ == (WalletView {
                balance: sender0.balance - total,
                transactions: sender0.transactions.push(txv.hash),
                ..sender0
            }));
            assert(self.wallets@[ri as int].balance == receiver_balance);
        }
        let w2 = &mut self.wallets[ri];
        w2.balance = w2.balance + amount;
        w2.record(h2);
        proof {
            assert(self.wallets@[ri as int]@ == (WalletView {
                balance: receiver0.balance + amount,
                transactions: receiver0.transactions.push(txv.hash),
                ..receiver0
            }));
        }
        let ghost pool0 = self@.current_transactions;
        let ghost poolpre = self.current_transactions@;
        let ghost poolpre_deep = self.current_transactions.deep_view();
        self.current_transactions.push(transaction);
        proof {
            assert(self.current_transactions@ == poolpre.push(transaction));
            assert(poolpre_deep.len() == poolpre.len());
            assert forall|i: int| 0 <= i < self.current_transactions@.len() implies #[trigger] self
                .current_transactions
                .deep_view()[i] == pool0.push(txv)[i] by {
                if i < poolpre.len() {
                    assert(self.current_transactions@[i] == poolpre[i]);
                    assert(self.current_transactions.deep_view()[i] == poolpre_deep[i]);
                } else {
                    assert(self.current_transactions@[i] == transaction);
                }
            }
            assert(self.current_transactions.deep_view() =~= pool0.push(txv));
            let wsf = self@.wallets;
            let s1 = (WalletView {
                balance: sender0.balance - total,
                transactions: sender0.transactions.push(txv.hash),
                ..sender0
            });
            let r1 = (WalletView {
                balance: receiver0.balance + amount,
                transactions: receiver0.transactions.push(txv.hash),
                ..receiver0
            });
            assert(wsf.len() == ws0.len());
            assert forall|i: int| 0 <= i < wsf.len() implies wsf[i] == ws0.update(
                si as int,
                s1,
            ).update(ri as int, r1)[i] by {
                assert(wsf[i] == self.wallets@[i]@);
            }
            assert(wsf =~= ws0.update(si as int, s1).update(ri as int, r1));
            assert forall|i: int| 0 <= i < wsf.len() implies wsf[i].address == ws0[i].address by {
                assert(wsf[i] == ws0.update(si as int, s1).update(ri as int, r1)[i]);
            }
            lemma_wallet_at_same_addrs(ws0, wsf, from@);
            lemma_wallet_at_same_addrs(ws0, wsf, to@);
            assert(balance_of(wsf, from@) == sender0.balance - total);
            assert(balance_of(wsf, to@) == receiver0.balance + amount);
            assert(add_applied(old(self)@, self@, from@, to@, amount as int));
        }
        true
    }

    /// Create a new wallet under a fresh random 42-character address with a
    /// zero starting balance, and return the address. In the astronomically
    /// unlikely event that the random address is already registered, the
    /// existing entry is overwritten.
    pub fn create_wallet(&mut self, email: String) -> (r: String)
        ensures
            r@.len() == 42,
            forall|i: int| 0 <= i < r@.len() ==> is_address_char(r@[i]),
            !has_wallet(old(self)@.wallets, r@) ==> final(self)@ == (ChainView {
                wallets: old(self)@.wallets.push(
                    WalletView {
                        email: email@,
                        address: r@,
                        balance: 0,
                        transactions: Seq::empty(),
                    },
                ),
                ..old(self)@
            }),
            has_wallet(old(self)@.wallets, r@) ==> final(self)@ == (ChainView {
                wallets: old(self)@.wallets.update(
                    wallet_at(old(self)@.wallets, r@),
                    WalletView {
                        email: email@,
                        address: r@,
                        balance: 0,
                        transactions: Seq::empty(),
                    },
                ),
                ..old(self)@
            }),
    {
        let address = Chain::generate_address(42);
        let wallet = Wallet::new(email, address.clone(), 0);
        let ghost wv = wallet@;
        match self.find_wallet(address.as_str()) {
            Some(i) => {
                proof {
                    lemma_wallet_at(self@.wallets, address@);
                }
                let w = &mut self.wallets[i];
                *w = wallet;
                proof {
                    assert(self@.wallets =~= old(self)@.wallets.update(
                        wallet_at(old(self)@.wallets, address@),
                        wv,
                    ));
                    assert(final(self)@ =~= (ChainView {
                        wallets: old(self)@.wallets.update(
                            wallet_at(old(self)@.wallets, address@),
                            wv,
                        ),
                        ..old(self)@
                    }));
                }
            },
            None => {
                self.wallets.push(wallet);
                proof {
                    assert(self@.wallets =~= old(self)@.wallets.push(wv));
                    assert(final(self)@ =~= (ChainView {
                        wallets: old(self)@.wallets.push(wv),
                        ..old(self)@
                    }));
                }
            },
        }
        address
    }

    /// One page of the pending pool, oldest first.
    pub fn get_transactions(&self, page: usize, size: usize) -> (r: Vec<Transaction>)
        requires
            size >= 1,
        ensures
            r.deep_view() == page_slice(self@.current_transactions, page as int, size as int),
    {
        let len = self.current_transactions.len();
        let total: usize = if len == 0 {
            0
        } else {
            (len - 1) / size + 1
        };
        proof {
            crate::pagination::lemma_total_pages(len as int, size as int);
        }
        if page > total {
            let r: Vec<Transaction> = Vec::new();
            proof {
                assert(r.deep_view() =~= page_slice(
                    self@.current_transactions,
                    page as int,
                    size as int,
                ));
            }
            return r;
        }
        let start: usize = if page <= 1 {
            0
        } else {
            proof {
                crate::pagination::lemma_page_start_in_range(
                    len as int,
                    size as int,
                    page as int,
                );
            }
            (page - 1) * size
        };
        let end: usize = if size <= len - start {
            start + size
        } else {
            len
        };
        let mut r: Vec<Transaction> = Vec::new();
        let mut k: usize = start;
        while k < end
            invariant
                start <= k <= end <= self.current_transactions@.len(),
                r.deep_view() =~= self@.current_transactions.subrange(start as int, k as int),
            decreases end - k,
        {
            let t = self.current_transactions[k].duplicate();
            let ghost prev = r@;
            let ghost prev_deep = r.deep_view();
            r.push(t);
            proof {
                assert(r@ == prev.push(t));
                assert(prev_deep.len() == prev.len());
                assert(prev_deep.len() == k - start);
                assert(t.deep_view() == self@.current_transactions[k as int]);
                assert forall|i: int| 0 <= i < r@.len() implies #[trigger] r.deep_view()[i]
                    == self@.current_transactions.subrange(start as int, k as int + 1)[i] by {
                    if i < prev.len() {
                        assert(r@[i] == prev[i]);
                        assert(r.deep_view()[i] == prev_deep[i]);
                        assert(prev_deep[i] == self@.current_transactions.subrange(
                            start as int,
                            k as int,
                        )[i]);
                    } else {
                        assert(r@[i] == t);
                    }
                }
                assert(r.deep_view() =~= self@.current_transactions.subrange(
                    start as int,
                    k as int + 1,
                ));
            }
            k = k + 1;
        }
        proof {
            assert(start as int == page_start(page as int, size as int));
            assert(r.deep_view() =~= page_slice(
                self@.current_transactions,
                page as int,
                size as int,
            ));
        }
        r
    }

    /// One page of a wallet's transaction history, each recorded hash
    /// resolved against the pending pool; hashes no longer pending are
    /// skipped. `None` when the wallet does not exist. The page count is
    /// computed over the pending pool.
    pub fn get_wallet_transactions(&self, address: String, page: usize, size: usize) -> (r:
        Option<Vec<Transaction>>)
        requires
            size >= 1,
        ensures
            match r {
                Some(v) => has_wallet(self@.wallets, address@) && v.deep_view() == resolve(
                    self@.current_transactions,
                    wallet_page_hashes(
                        self@.current_transactions.len() as int,
                        self@.wallets[wallet_at(self@.wallets, address@)].transactions,
                        page as int,
                        size as int,
                    ),
                ),
                None => !has_wallet(self@.wallets, address@),
            },
    {
        let wi = match self.find_wallet(address.as_str()) {
            Some(i) => i,
            None => {
                return None;
            },
        };
        proof {
            lemma_wallet_at(self@.wallets, address@);
        }
        let ghost hsv = self@.wallets[wi as int].transactions;
        let mut result: Vec<Transaction> = Vec::new();
        let len = self.current_transactions.len();
        let total: usize = if len == 0 {
            0
        } else {
            (len - 1) / size + 1
        };
        proof {
            crate::pagination::lemma_total_pages(len as int, size as int);
        }
        if page > total {
            proof {
                assert(result.deep_view() =~= Seq::<TransactionView>::empty());
            }
            return Some(result);
        }
        let start: usize = if page <= 1 {
            0
        } else {
            proof {
                crate::pagination::lemma_page_start_in_range(
                    len as int,
                    size as int,
                    page as int,
                );
            }
            (page - 1) * size
        };
        let txs = &self.wallets[wi].transactions;
        let hlen = txs.len();
        let lo: usize = if start <= hlen {
            start
        } else {
            hlen
        };
        let hi: usize = if start <= hlen {
            if size <= hlen - start {
                start + size
            } else {
                hlen
            }
        } else {
            hlen
        };
        let ghost window = wallet_page_hashes(len as int, hsv, page as int, size as int);
        proof {
            assert(hsv.len() == txs@.len());
            assert(start as int == page_start(page as int, size as int));
            assert(window == hsv.subrange(lo as int, hi as int));
        }
        let mut k: usize = lo;
        while k < hi
            invariant
                lo <= k <= hi,
                hi <= txs@.len(),
                hsv == txs.deep_view(),
                window == hsv.subrange(lo as int, hi as int),
                result.deep_view() =~= resolve(
                    self@.current_transactions,
                    window.take((k - lo) as int),
                ),
            decreases hi - k,
        {
            let h = txs[k].clone();
            proof {
                assert(h@ == hsv[k as int]);
                assert(window.take((k - lo) as int + 1) =~= window.take((k - lo) as int).push(
                    hsv[k as int],
                ));
                lemma_resolve_push(
                    self@.current_transactions,
                    window.take((k - lo) as int),
                    hsv[k as int],
                );
            }
            match self.get_transaction(h) {
                Some(t) => {
                    let dup = t.duplicate();
                    push_tx_deep(&mut result, dup);
                },
                None => {
                    proof {
                        assert(result.deep_view() + Seq::<TransactionView>::empty()
                            =~= result.deep_view());
                    }
                },
            }
            k = k + 1;
        }
        proof {
            assert(window.take((hi - lo) as int) =~= window);
        }
        Some(result)
    }

    /// Calculate the Merkle root hash for a list of transactions.
    pub fn get_merkle(transactions: Vec<Transaction>) -> (r: String)
        requires
            transactions@.len() >= 1,
        ensures
            r@ == merkle_root(transactions.deep_view()),
    {
        let mut merkle: Vec<String> = Vec::new();
        let mut i: usize = 0;
        while i < transactions.len()
            invariant
                i <= transactions@.len(),
                merkle@.len() == i,
                merkle.deep_view() =~= merkle_leaves(transactions.deep_view()).take(i as int),
            decreases transactions@.len() - i,
        {
            let text = crate::transaction::tx_leaf_string(&transactions[i]);
            let h = digest::hash_str(text.as_str());
            push_str_deep(&mut merkle, h);
            proof {
                assert(merkle_leaves(transactions.deep_view()).take(i + 1) =~= merkle_leaves(
                    transactions.deep_view(),
                ).take(i as int).push(tx_leaf_hash(transactions.deep_view()[i as int])));
            }
            i = i + 1;
        }
        proof {
            assert(merkle_leaves(transactions.deep_view()).take(transactions@.len() as int)
                =~= merkle_leaves(transactions.deep_view()));
        }
        if merkle.len() % 2 == 1 {
            let last = merkle[merkle.len() - 1].clone();
            push_str_deep(&mut merkle, last);
            proof {
                assert(merkle.deep_view() =~= merkle_pad(
                    merkle_leaves(transactions.deep_view()),
                ));
            }
        }
        let ghost padded = merkle.deep_view();
        proof {
            assert(padded == merkle_pad(merkle_leaves(transactions.deep_view())));
            assert(merkle.deep_view().subrange(0, merkle@.len() as int) =~= padded);
        }
        let mut head: usize = 0;
        while merkle.len() - head > 1
            invariant
                head <= merkle@.len(),
                merkle@.len() - head >= 1,
                merkle_fold(merkle.deep_view().subrange(head as int, merkle@.len() as int))
                    == merkle_fold(padded),
            decreases merkle@.len() - head,
        {
            let mut h1 = merkle[head].clone();
            h1.append(merkle[head + 1].as_str());
            let nh = digest::hash_str(h1.as_str());
            let ghost win = merkle.deep_view().subrange(head as int, merkle@.len() as int);
            push_str_deep(&mut merkle, nh);
            head = head + 2;
            proof {
                let win2 = merkle.deep_view().subrange(head as int, merkle@.len() as int);
                assert(win2 =~= win.subrange(2, win.len() as int).push(
                    hash_text(win[0] + win[1]),
                ));
                assert(merkle_fold(win) == merkle_fold(win2));
            }
        }
        let r = merkle[merkle.len() - 1].clone();
        proof {
            let win = merkle.deep_view().subrange(head as int, merkle@.len() as int);
            assert(win.len() == 1);
            assert(win[0] == merkle.deep_view()[merkle@.len() - 1]);
            assert(r@ == merkle_fold(padded));
        }
        r
    }

    /// Seal a new block: mint the reward transaction from `Root` to the
    /// chain's own address, absorb the whole pending pool after it, compute
    /// the Merkle root over all of them, run proof-of-work, and append the
    /// block. Always succeeds, and the pending pool is empty afterwards. The
    /// chain's own wallet entry, if any, is not credited by the reward.
    pub fn generate_new_block(&mut self) -> (r: bool)
        ensures
            r,
            final(self)@.chain == old(self)@.chain.push(final(self)@.chain.last()),
            final(self)@.chain.len() == old(self)@.chain.len() + 1,
            new_block_ok(old(self)@, final(self)@.chain.last()),
            final(self)@.current_transactions == Seq::<TransactionView>::empty(),
            final(self)@.wallets == old(self)@.wallets,
            final(self)@.difficulty == old(self)@.difficulty,
            final(self)@.address == old(self)@.address,
            final(self)@.reward == old(self)@.reward,
            final(self)@.fee == old(self)@.fee,
    {
        let ghost pre = self@;
        let previous_hash = self.get_last_hash();
        let mut block = Block::new(previous_hash, self.difficulty);
        let transaction = Transaction::new(
            String::from_str("Root"),
            self.address.clone(),
            self.fee,
            self.reward,
        );
        let ghost txv = transaction@;
        push_tx_deep(&mut block.transactions, transaction);
        let ghost poolpre = self.current_transactions@;
        let ghost pool_deep = self@.current_transactions;
        let ghost btpre = block.transactions@;
        let ghost bt_deep = block.transactions.deep_view();
        block.transactions.append(&mut self.current_transactions);
        proof {
            assert(block.transactions@ == btpre + poolpre);
            assert(bt_deep.len() == btpre.len());
            assert(pool_deep.len() == poolpre.len());
            assert forall|i: int| 0 <= i < block.transactions@.len() implies #[trigger] block
                .transactions
                .deep_view()[i] == (bt_deep + pool_deep)[i] by {
                if i < btpre.len() {
                    assert(block.transactions@[i] == btpre[i]);
                    assert(block.transactions.deep_view()[i] == bt_deep[i]);
                } else {
                    assert(block.transactions@[i] == poolpre[i - btpre.len()]);
                    assert(block.transactions.deep_view()[i] == pool_deep[i - btpre.len()]);
                }
            }
            assert(block.transactions.deep_view() =~= bt_deep + pool_deep);
            assert(bt_deep =~= seq![txv]);
            assert(self.current_transactions.deep_view() =~= Seq::<TransactionView>::empty());
        }
        block.count = block.transactions.len();
        let dup = duplicate_txs(&block.transactions);
        let merkle = Chain::get_merkle(dup);
        block.header.merkle = merkle;
        let ghost hpre = block.header@;
        Block::proof_of_work(&mut block.header);
        proof {
            assert(crate::block::with_nonce(block.header@, block.header@.nonce) =~= crate::block::with_nonce(
                hpre,
                block.header@.nonce,
            ));
            assert forall|n: int| 0 <= n < block.header@.nonce implies !pow_at(
                block.header@,
                n,
            ) by {
                assert(hpre.nonce == 0);
                assert(!pow_at(hpre, n));
                assert(crate::block::with_nonce(block.header@, n) =~= crate::block::with_nonce(
                    hpre,
                    n,
                ));
            }
        }
        let ghost bv = block@;
        let ghost chainpre = self.chain@;
        let ghost chain_deep = self@.chain;
        self.chain.push(block);
        proof {
            assert(self.chain@ == chainpre.push(block));
            assert(chain_deep.len() == chainpre.len());
            assert forall|i: int| 0 <= i < self.chain@.len() implies #[trigger] self
                .chain
                .deep_view()[i] == chain_deep.push(bv)[i] by {
                if i < chainpre.len() {
                    assert(self.chain@[i] == chainpre[i]);
                    assert(self.chain.deep_view()[i] == chain_deep[i]);
                } else {
                    assert(self.chain@[i] == block);
                }
            }
            assert(self.chain.deep_view() =~= chain_deep.push(bv));
            assert(bv.transactions[0] == txv);
            assert(bv.transactions.subrange(1, bv.transactions.len() as int)
                =~= pre.current_transactions);
            assert(new_block_ok(pre, bv));
        }
        true
    }

    /// Initialize a new blockchain: a fresh random 42-character chain
    /// address, empty registries, and a synchronously mined genesis block.
    pub fn new(difficulty: u32, reward: i64, fee: i64) -> (c: Chain)
        ensures
            c@.difficulty == difficulty as int,
            c@.reward == reward as int,
            c@.fee == fee as int,
            c@.wallets == Seq::<WalletView>::empty(),
            c@.current_transactions == Seq::<TransactionView>::empty(),
            c@.chain.len() == 1,
            c@.address.len() == 42,
            forall|i: int| 0 <= i < c@.address.len() ==> is_address_char(c@.address[i]),
            new_block_ok(
                (ChainView {
                    chain: Seq::empty(),
                    current_transactions: Seq::empty(),
                    ..c@
                }),
                c@.chain[0],
            ),
    {
        let mut chain = Chain {
            fee,
            reward,
            difficulty,
            chain: Vec::new(),
            wallets: Vec::new(),
            current_transactions: Vec::new(),
            address: Chain::generate_address(42),
        };
        proof {
            assert(chain@.chain =~= Seq::<BlockView>::empty());
            assert(chain@.current_transactions =~= Seq::<TransactionView>::empty());
            assert(chain@.wallets =~= Seq::<WalletView>::empty());
        }
        let ghost pre = chain@;
        chain.generate_new_block();
        proof {
            assert(chain@.chain.len() == 1);
            assert(chain@.chain[0] == chain@.chain.last());
            assert((ChainView {
                chain: Seq::<BlockView>::empty(),
                current_transactions: Seq::<TransactionView>::empty(),
                ..chain@
            }) =~= pre);
        }
        chain
    }

    /// The digest of a canonical text: SHA-256 of its UTF-8 bytes, rendered
    /// as unpadded hexadecimal.
    pub fn hash(input: &str) -> (r: String)
        ensures
            r@ == hash_text(input@),
    {
        digest::hash_str(input)
    }
}

} // verus!
