//! A wallet: a balance and a history of transaction hashes, keyed by address.
//!
//! Monetary values are held in thousandths of a coin, so a balance is a plain
//! signed integer.
use vstd::prelude::*;

verus! {

/// A wallet that holds a balance of a cryptocurrency.
pub struct Wallet {
    /// Unique email address associated with the wallet.
    pub email: String,
    /// Address uniquely identifying the wallet.
    pub address: String,
    /// The current balance of the wallet, in thousandths of a coin.
    pub balance: i64,
    /// A history of transaction hashes associated with the wallet.
    pub transactions: Vec<String>,
}

/// The mathematical value of a wallet.
#[verifier::ext_equal]
pub ghost struct WalletView {
    pub email: Seq<char>,
    pub address: Seq<char>,
    pub balance: int,
    pub transactions: Seq<Seq<char>>,
}

impl View for Wallet {
    type V = WalletView;

    open spec fn view(&self) -> WalletView {
        WalletView {
            email: self.email@,
            address: self.address@,
            balance: self.balance as int,
            transactions: self.transactions.deep_view(),
        }
    }
}

impl DeepView for Wallet {
    type V = WalletView;

    open spec fn deep_view(&self) -> WalletView {
        self.view()
    }
}

impl Wallet {
    /// Create a new wallet with an empty transaction history.
    pub fn new(email: String, address: String, balance: i64) -> (w: Wallet)
        ensures
            w@ == (WalletView {
                email: email@,
                address: address@,
                balance: balance as int,
                transactions: Seq::empty(),
            }),
    {
        let w = Wallet { email, address, balance, transactions: Vec::new() };
        proof {
            assert(w@.transactions =~= Seq::<Seq<char>>::empty());
            assert(w@ =~= (WalletView {
                email: w.email@,
                address: w.address@,
                balance: w.balance as int,
                transactions: Seq::empty(),
            }));
        }
        w
    }
    /// Record a transaction hash in the wallet's history.
    pub fn record(&mut self, hash: String)
        ensures
            final(self)@ == (WalletView {
                transactions: old(self)@.transactions.push(hash@),
                ..old(self)@
            }),
    {
        let ghost prev = self.transactions@;
        let ghost prev_deep = self.transactions.deep_view();
        self.transactions.push(hash);
        proof {
            assert(self.transactions@ == prev.push(hash));
            assert(prev_deep.len() == prev.len());
            assert forall|i: int| 0 <= i < self.transactions@.len() implies #[trigger] self
                .transactions
                .deep_view()[i] == old(self)@.transactions.push(hash@)[i] by {
                if i < prev.len() {
                    assert(self.transactions@[i] == prev[i]);
                    assert(self.transactions.deep_view()[i] == prev_deep[i]);
                } else {
                    assert(self.transactions@[i] == hash);
                }
            }
            assert(self.transactions.deep_view() =~= old(self)@.transactions.push(hash@));
            assert(self@ =~= (WalletView {
                transactions: old(self)@.transactions.push(hash@),
                ..old(self)@
            }));
        }
    }
}

} // verus!
