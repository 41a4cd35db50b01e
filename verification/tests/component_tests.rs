//! Unit tests for the blocks, transactions, wallets and address generation.
use blockchain::block::Block;
use blockchain::chain::Chain;
use blockchain::transaction::Transaction;
use blockchain::wallet::Wallet;

#[test]
fn test_proof_of_work() {
    let mut block = Block::new("0".to_string(), 1);
    Block::proof_of_work(&mut block.header);

    assert_eq!(block.header.difficulty, 1);
    assert!(!block.header.previous_hash.is_empty());
}

#[test]
fn test_new_block() {
    let block = Block::new("0".to_string(), 3);

    assert_eq!(block.count, 0);
    assert_eq!(block.transactions.len(), 0);
}

#[test]
fn test_new_transaction() {
    let from = "0x 1234".to_string();
    let to = "0x 5678".to_string();
    let fee = 100;
    let amount = 100_000;
    let transaction = Transaction::new(from.to_owned(), to.to_owned(), fee, amount);

    assert_eq!(transaction.from, from);
    assert_eq!(transaction.to, to);
    assert_eq!(transaction.fee, fee);
    assert_eq!(transaction.amount, amount);
}

#[test]
fn test_new_wallet() {
    let email = "email".to_string();
    let address = "0x 1234".to_string();
    let balance = 100_000;
    let wallet = Wallet::new(email.to_owned(), address.to_owned(), balance);

    assert_eq!(wallet.email, email);
    assert_eq!(wallet.address, address);
    assert_eq!(wallet.balance, balance);
    assert!(wallet.transactions.is_empty());
}

#[test]
fn test_generate_address() {
    let result = Chain::generate_address(42);

    assert_eq!(result.len(), 42);
}
