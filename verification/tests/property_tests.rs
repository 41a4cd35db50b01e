//! Scenario and property tests: balance deltas, rejection rules, wallet
//! creation, block sealing, pagination aliasing, and exact digest values.
use blockchain::block::Block;
use blockchain::chain::Chain;
use blockchain::transaction::Transaction;

fn setup() -> Chain {
    Chain::new(1, 100_000, 100)
}

fn credit(chain: &mut Chain, address: &str, delta: i64) {
    let wallet = chain
        .wallets
        .iter_mut()
        .find(|w| w.address == address)
        .unwrap();
    wallet.balance += delta;
}

/// End to end: difficulty 1, a reward of a hundred coins, a fee rate of one
/// tenth. A twenty-coin wallet sends ten coins: the sender pays the one-coin
/// fee total, the receiver gets the full ten, one transaction is pending, and
/// sealing a block empties the pool.
#[test]
fn test_end_to_end_scenario() {
    let mut chain = setup();

    let a = chain.create_wallet("a@mail.com".to_string());
    let b = chain.create_wallet("b@mail.com".to_string());

    credit(&mut chain, &a, 20_000);

    let accepted = chain.add_transaction(a.clone(), b.clone(), 10_000);

    assert!(accepted);
    assert_eq!(chain.get_wallet_balance(a.clone()), Some(19_000));
    assert_eq!(chain.get_wallet_balance(b.clone()), Some(10_000));
    assert_eq!(chain.current_transactions.len(), 1);

    let sealed = chain.generate_new_block();

    assert!(sealed);
    assert_eq!(chain.chain.len(), 2);
    assert_eq!(chain.current_transactions.len(), 0);
}

#[test]
fn test_add_transaction_from_root_fails() {
    let mut chain = setup();
    let b = chain.create_wallet("b@mail.com".to_string());

    let accepted = chain.add_transaction("Root".to_string(), b, 1_000);

    assert!(!accepted);
    assert!(chain.current_transactions.is_empty());
}

#[test]
fn test_add_transaction_same_addresses_fails() {
    let mut chain = setup();
    let a = chain.create_wallet("a@mail.com".to_string());

    credit(&mut chain, &a, 20_000);

    let accepted = chain.add_transaction(a.clone(), a.clone(), 1_000);

    assert!(!accepted);
    assert_eq!(chain.get_wallet_balance(a), Some(20_000));
}

#[test]
fn test_add_transaction_nonpositive_fails() {
    let mut chain = setup();
    let a = chain.create_wallet("a@mail.com".to_string());
    let b = chain.create_wallet("b@mail.com".to_string());

    credit(&mut chain, &a, 20_000);

    assert!(!chain.add_transaction(a.clone(), b.clone(), 0));
    assert!(!chain.add_transaction(a.clone(), b.clone(), -5_000));
    assert_eq!(chain.get_wallet_balance(a), Some(20_000));
    assert_eq!(chain.get_wallet_balance(b), Some(0));
}

#[test]
fn test_add_transaction_insufficient_balance_leaves_balances() {
    let mut chain = setup();
    let a = chain.create_wallet("a@mail.com".to_string());
    let b = chain.create_wallet("b@mail.com".to_string());

    credit(&mut chain, &a, 500);

    // The debit of 10 coins at a tenth is one coin; half a coin is not enough.
    let accepted = chain.add_transaction(a.clone(), b.clone(), 10_000);

    assert!(!accepted);
    assert_eq!(chain.get_wallet_balance(a), Some(500));
    assert_eq!(chain.get_wallet_balance(b), Some(0));
}

#[test]
fn test_create_wallet_fresh_entry() {
    let mut chain = setup();
    let before = chain.wallets.len();

    let address = chain.create_wallet("a@mail.com".to_string());

    assert_eq!(address.len(), 42);
    assert!(address.chars().all(|c| c.is_ascii_alphanumeric()));
    assert_eq!(chain.wallets.len(), before + 1);
    assert_eq!(chain.get_wallet_balance(address), Some(0));
}

#[test]
fn test_generate_new_block_links_and_drains() {
    let mut chain = setup();
    let a = chain.create_wallet("a@mail.com".to_string());
    let b = chain.create_wallet("b@mail.com".to_string());

    credit(&mut chain, &a, 20_000);
    chain.add_transaction(a.clone(), b.clone(), 2_000);
    chain.add_transaction(a.clone(), b.clone(), 3_000);

    let pending = chain.current_transactions.len();
    assert_eq!(pending, 2);

    let previous = chain.get_last_hash();
    assert!(chain.generate_new_block());

    let block = chain.chain.last().unwrap();
    assert_eq!(block.header.previous_hash, previous);
    assert_eq!(block.transactions.len(), 1 + pending);
    assert_eq!(block.count, 1 + pending);
    assert_eq!(block.transactions[0].from, "Root");
    assert_eq!(block.transactions[0].amount, 100_000);
    assert!(chain.current_transactions.is_empty());
}

#[test]
fn test_pagination_page_zero_equals_page_one() {
    let mut chain = setup();
    let a = chain.create_wallet("a@mail.com".to_string());
    let b = chain.create_wallet("b@mail.com".to_string());

    credit(&mut chain, &a, 20_000);
    chain.add_transaction(a.clone(), b.clone(), 2_000);
    chain.add_transaction(a.clone(), b.clone(), 3_000);

    let page0 = chain.get_transactions(0, 1);
    let page1 = chain.get_transactions(1, 1);
    assert_eq!(page0.len(), 1);
    assert_eq!(page0[0].hash, page1[0].hash);

    let page2 = chain.get_transactions(2, 1);
    assert_eq!(page2.len(), 1);
    assert_ne!(page0[0].hash, page2[0].hash);

    assert!(chain.get_transactions(3, 1).is_empty());
}

#[test]
fn test_get_transactions_huge_page_size() {
    let mut chain = setup();
    let a = chain.create_wallet("a@mail.com".to_string());
    let b = chain.create_wallet("b@mail.com".to_string());

    credit(&mut chain, &a, 20_000);
    chain.add_transaction(a.clone(), b.clone(), 2_000);
    chain.add_transaction(a.clone(), b.clone(), 3_000);

    let transactions = chain.get_transactions(1, usize::MAX);
    assert_eq!(transactions.len(), 2);
}

#[test]
fn test_get_wallet_transactions_beyond_pages_is_empty() {
    let mut chain = setup();
    let a = chain.create_wallet("a@mail.com".to_string());
    let b = chain.create_wallet("b@mail.com".to_string());

    credit(&mut chain, &a, 20_000);
    chain.add_transaction(a.clone(), b.clone(), 2_000);

    let transactions = chain.get_wallet_transactions(a, 10, 10).unwrap();
    assert!(transactions.is_empty());
}

#[test]
fn test_get_transaction_sealed_absent() {
    let mut chain = setup();
    let a = chain.create_wallet("a@mail.com".to_string());
    let b = chain.create_wallet("b@mail.com".to_string());

    credit(&mut chain, &a, 20_000);
    chain.add_transaction(a.clone(), b.clone(), 10_000);

    let hash = chain.current_transactions[0].hash.clone();
    assert!(chain.get_transaction(hash.clone()).is_some());

    chain.generate_new_block();

    assert!(chain.get_transaction(hash).is_none());
}

/// The published SHA-256 digest of `abc`, rendered without zero-padding: the
/// bytes `0x01`, `0x03` and `0x00` come out as single characters.
#[test]
fn test_hash_known_vector() {
    let digest = Chain::hash("abc");
    assert_eq!(
        digest,
        "ba7816bf8f1cfea414140de5dae2223b0361a396177a9cb410ff61f2015ad"
    );
}

#[test]
fn test_hash_deterministic() {
    assert_eq!(Chain::hash("header"), Chain::hash("header"));
    assert_ne!(Chain::hash("header"), Chain::hash("headers"));
}

fn fixed_transaction(hash: &str, amount: i64, timestamp: i64) -> Transaction {
    Transaction {
        hash: hash.to_string(),
        from: "f".to_string(),
        to: "t".to_string(),
        fee: 100,
        amount,
        timestamp,
    }
}

/// A single transaction is padded by duplicating its leaf, so the root is the
/// hash of the leaf concatenated with itself.
#[test]
fn test_merkle_single_transaction() {
    let t = fixed_transaction("h", 2_000, 3);
    let leaf = Chain::hash("h|f|t|100|2000|3");
    let expected = Chain::hash(&format!("{}{}", leaf, leaf));

    assert_eq!(Chain::get_merkle(vec![t]), expected);
}

/// Two transactions fold left to right: the root hashes the two leaves'
/// concatenation.
#[test]
fn test_merkle_two_transactions() {
    let t1 = fixed_transaction("h1", 2_000, 3);
    let t2 = fixed_transaction("h2", -4_000, 5);
    let l1 = Chain::hash("h1|f|t|100|2000|3");
    let l2 = Chain::hash("h2|f|t|100|-4000|5");
    let expected = Chain::hash(&format!("{}{}", l1, l2));

    assert_eq!(Chain::get_merkle(vec![t1, t2]), expected);
}

/// Mining at difficulty 1 leaves a header whose canonical text hashes to a
/// string starting with `0`.
#[test]
fn test_proof_of_work_prefix() {
    let mut block = Block::new("prev".to_string(), 1);
    Block::proof_of_work(&mut block.header);

    let text = format!(
        "{}|{}|{}|{}|{}",
        block.header.timestamp,
        block.header.nonce,
        block.header.previous_hash,
        block.header.merkle,
        block.header.difficulty
    );
    assert!(Chain::hash(&text).starts_with('0'));
}

/// The genesis block exists from construction and points at the all-zero
/// sentinel.
#[test]
fn test_genesis_block() {
    let chain = setup();

    assert_eq!(chain.chain.len(), 1);
    assert_eq!(chain.chain[0].header.previous_hash, "0".repeat(64));
    assert_eq!(chain.chain[0].transactions.len(), 1);
    assert_eq!(chain.chain[0].transactions[0].from, "Root");
    assert_eq!(chain.chain[0].transactions[0].to, chain.address);
}
