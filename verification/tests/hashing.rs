use stakechain::block::Block;
use stakechain::chain::Blockchain;
use stakechain::transaction::Transaction;

fn sample_txs() -> Vec<Transaction> {
    vec![Transaction {
        sender: "Alice".to_string(),
        receiver: "Bob".to_string(),
        amount: 50,
    }]
}

#[test]
fn digest_is_deterministic() {
    let h1 = Block::calculate_hash(3, 1700000000, &sample_txs(), "abc123");
    let h2 = Block::calculate_hash(3, 1700000000, &sample_txs(), "abc123");
    assert_eq!(h1, h2);
}

#[test]
fn digest_is_a_real_digest() {
    // A 256-bit digest rendered in lowercase hex: 64 characters, none of the
    // input text echoed back.
    let h = Block::calculate_hash(0, 0, &vec![], "0");
    assert_eq!(h.len(), 64);
    assert_ne!(h, "000");
    assert!(h.chars().all(|c| c.is_ascii_hexdigit() && !c.is_ascii_uppercase()));
}

#[test]
fn digest_changes_with_each_field() {
    let base = Block::calculate_hash(3, 1700000000, &sample_txs(), "abc123");
    assert_ne!(base, Block::calculate_hash(4, 1700000000, &sample_txs(), "abc123"));
    assert_ne!(base, Block::calculate_hash(3, 1700000001, &sample_txs(), "abc123"));
    assert_ne!(base, Block::calculate_hash(3, 1700000000, &vec![], "abc123"));
    assert_ne!(base, Block::calculate_hash(3, 1700000000, &sample_txs(), "abc124"));

    let other_tx = vec![Transaction {
        sender: "Alice".to_string(),
        receiver: "Bob".to_string(),
        amount: 51,
    }];
    assert_ne!(base, Block::calculate_hash(3, 1700000000, &other_tx, "abc123"));
}

fn chain_of_one_block() -> Blockchain {
    let mut bc = Blockchain::new();
    bc.create_account("Alice", 100);
    bc.create_account("Bob", 100);
    bc.add_validator("Alice", 1);
    let result = bc.add_block(sample_txs());
    assert_eq!(result, Ok(()));
    assert!(bc.is_chain_valid());
    bc
}

#[test]
fn tampered_index_detected() {
    let mut bc = chain_of_one_block();
    bc.chain[1].index = 7;
    assert!(!bc.is_chain_valid());
}

#[test]
fn tampered_timestamp_detected() {
    let mut bc = chain_of_one_block();
    bc.chain[1].timestamp += 1;
    assert!(!bc.is_chain_valid());
}

#[test]
fn tampered_transactions_detected() {
    let mut bc = chain_of_one_block();
    bc.chain[1].transactions[0].amount = 49;
    assert!(!bc.is_chain_valid());
}

#[test]
fn tampered_previous_hash_detected() {
    let mut bc = chain_of_one_block();
    bc.chain[1].previous_hash = "0".to_string();
    assert!(!bc.is_chain_valid());
}

#[test]
fn tampered_stored_hash_detected() {
    let mut bc = chain_of_one_block();
    bc.chain[1].hash = Block::calculate_hash(9, 9, &vec![], "9");
    assert!(!bc.is_chain_valid());
}

#[test]
fn broken_link_detected() {
    let mut bc = chain_of_one_block();
    // Rewrite the genesis block's stored hash: block 1 no longer points at it.
    bc.chain[0].hash = Block::calculate_hash(9, 9, &vec![], "9");
    assert!(!bc.is_chain_valid());
}

#[test]
fn transaction_rendering() {
    let tx = Transaction {
        sender: "Alice".to_string(),
        receiver: "Bob".to_string(),
        amount: 50,
    };
    assert_eq!(tx.render(), "Transaction: Alice -> Bob | Amount: 50");
}

#[test]
fn block_rendering_lists_fields() {
    let bc = chain_of_one_block();
    let text = bc.chain[1].render();
    assert!(text.starts_with("Block 1\nTimestamp: "));
    assert!(text.contains(&format!("\nHash: {}", bc.chain[1].hash)));
    assert!(text.ends_with("Transactions:\nTransaction: Alice -> Bob | Amount: 50"));

    let whole = bc.render();
    assert!(whole.starts_with("Block 0\n"));
    assert!(whole.contains("\n\nBlock 1\n"));
}
