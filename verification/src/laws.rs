//! Laws of the validation rules, stated over every chain state.
//!
//! The per-call guarantees — balance deltas applied atomically, pages beyond
//! the page count coming back empty, lookups hitting exactly the pending
//! pool — are stated on the operations themselves; this module holds the
//! universally quantified consequences of the validation rules.
use vstd::prelude::*;
use crate::chain::{add_ok, balance_of, debit_of, has_wallet, tx_valid, ChainView};
use crate::wallet::WalletView;

verus! {

/// A submission whose sender is the minting address `Root` never validates.
pub proof fn lemma_root_never_valid(ws: Seq<WalletView>, to: Seq<char>, amount: int)
    ensures
        !tx_valid(ws, "Root"@, to, amount),
{
}

/// A self-transfer never validates.
pub proof fn lemma_self_transfer_never_valid(ws: Seq<WalletView>, a: Seq<char>, amount: int)
    ensures
        !tx_valid(ws, a, a, amount),
{
}

/// A non-positive amount never validates.
pub proof fn lemma_nonpositive_never_valid(
    ws: Seq<WalletView>,
    from: Seq<char>,
    to: Seq<char>,
    amount: int,
)
    requires
        amount <= 0,
    ensures
        !tx_valid(ws, from, to, amount),
{
}

/// A debit the sender's balance cannot cover never validates.
pub proof fn lemma_insufficient_never_valid(
    ws: Seq<WalletView>,
    from: Seq<char>,
    to: Seq<char>,
    amount: int,
)
    requires
        has_wallet(ws, from),
        balance_of(ws, from) < amount,
    ensures
        !tx_valid(ws, from, to, amount),
{
}

/// A submission from the minting address `Root` is never accepted, on any
/// chain state.
pub proof fn lemma_add_from_root_fails(c: ChainView, to: Seq<char>, amount: int)
    ensures
        !add_ok(c, "Root"@, to, amount),
{
}

/// A submission whose sender and receiver coincide is never accepted, on any
/// chain state.
pub proof fn lemma_add_self_fails(c: ChainView, a: Seq<char>, amount: int)
    ensures
        !add_ok(c, a, a, amount),
{
}

/// With a non-negative fee rate, a submission of a non-positive amount is
/// never accepted: the debited total cannot be positive.
pub proof fn lemma_add_nonpositive_fails(c: ChainView, from: Seq<char>, to: Seq<char>, amount: int)
    requires
        amount <= 0,
        c.fee >= 0,
    ensures
        !add_ok(c, from, to, amount),
{
    assert(amount * c.fee <= 0) by (nonlinear_arith)
        requires
            amount <= 0,
            c.fee >= 0,
    ;
    let p = amount * c.fee;
    if p < 0 {
        vstd::arithmetic::div_mod::lemma_div_pos_is_pos(-p, 1000);
    } else {
        vstd::arithmetic::div_mod::lemma_div_pos_is_pos(p, 1000);
        vstd::arithmetic::div_mod::lemma_basic_div(p, 1000);
    }
}

/// A submission whose debited total the sender cannot cover is never
/// accepted. That a rejected submission leaves every balance unchanged is
/// part of the submission operation's own contract.
pub proof fn lemma_add_insufficient_fails(
    c: ChainView,
    from: Seq<char>,
    to: Seq<char>,
    amount: int,
)
    requires
        has_wallet(c.wallets, from),
        balance_of(c.wallets, from) < debit_of(amount, c.fee),
    ensures
        !add_ok(c, from, to, amount),
{
}

} // verus!
