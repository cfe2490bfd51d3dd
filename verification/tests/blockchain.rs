use stakechain::chain::{Blockchain, RejectReason};
use stakechain::transaction::Transaction;

#[test]
fn test_create_account() {
    let mut blockchain = Blockchain::new();

    blockchain.create_account("Alice", 100);

    assert_eq!(blockchain.get_balance("Alice"), 100);
}

#[test]
fn test_create_account_already_exists() {
    let mut blockchain = Blockchain::new();

    blockchain.create_account("Alice", 100);
    blockchain.create_account("Alice", 1001);

    assert_eq!(blockchain.get_balance("Alice"), 100);
}

#[test]
fn test_add_block() {
    let mut blockchain = Blockchain::new();

    blockchain.create_account("Alice", 100);
    blockchain.create_account("Bob", 100);
    blockchain.create_account("Charlie", 100);

    blockchain.add_validator("Charlie", 20);

    let tx = Transaction {
        sender: "Alice".to_string(),
        receiver: "Bob".to_string(),
        amount: 50,
    };

    let _ = blockchain.add_block(vec![tx]);

    assert_eq!(blockchain.get_balance("Alice"), 50);
    assert_eq!(blockchain.get_balance("Bob"), 150);
    assert_eq!(blockchain.get_balance("Charlie"), 180);
}

#[test]
fn test_add_block_insufficient_funds() {
    let mut blockchain = Blockchain::new();

    blockchain.create_account("Alice", 100);
    blockchain.create_account("Bob", 100);
    blockchain.create_account("Charlie", 100);

    blockchain.add_validator("Charlie", 20);

    let tx = Transaction {
        sender: "Alice".to_string(),
        receiver: "Bob".to_string(),
        amount: 150,
    };

    let _ = blockchain.add_block(vec![tx]);

    assert_eq!(blockchain.get_balance("Alice"), 100);
    assert_eq!(blockchain.get_balance("Bob"), 100);
    assert_eq!(blockchain.get_balance("Charlie"), 80);
}

#[test]
fn test_is_chain_valid() {
    let mut blockchain = Blockchain::new();

    blockchain.create_account("Alice", 100);
    blockchain.create_account("Bob", 100);
    blockchain.create_account("Charlie", 100);

    blockchain.add_validator("Charlie", 20);

    let tx1 = Transaction {
        sender: "Alice".to_string(),
        receiver: "Bob".to_string(),
        amount: 50,
    };
    let tx2 = Transaction {
        sender: "Bob".to_string(),
        receiver: "Alice".to_string(),
        amount: 5,
    };
    let tx3 = Transaction {
        sender: "Alice".to_string(),
        receiver: "Bob".to_string(),
        amount: 20,
    };
    let tx4 = Transaction {
        sender: "Bob".to_string(),
        receiver: "Alice".to_string(),
        amount: 5,
    };

    let _ = blockchain.add_block(vec![tx1, tx2]);
    let _ = blockchain.add_block(vec![tx3, tx4]);

    assert_eq!(blockchain.is_chain_valid(), true);
}

#[test]
fn single_validator_block_sequence() {
    // Accounts Alice=100 and Bob=100; Alice stakes 1 and is the only
    // validator, so selection is deterministic. One transfer Alice -> Bob of
    // 50 in one block: Alice ends at 100 - 1 (stake) - 50 + 100 (reward),
    // Bob at 150, the chain at length 2 and valid.
    let mut bc = Blockchain::new();
    assert!(bc.create_account("Alice", 100));
    assert!(bc.create_account("Bob", 100));
    assert!(bc.add_validator("Alice", 1));

    let tx = Transaction {
        sender: "Alice".to_string(),
        receiver: "Bob".to_string(),
        amount: 50,
    };
    let result = bc.add_block(vec![tx]);
    assert_eq!(result, Ok(()));

    assert_eq!(bc.get_balance("Alice"), 149);
    assert_eq!(bc.get_balance("Bob"), 150);
    assert_eq!(bc.chain.len(), 2);
    assert!(bc.is_chain_valid());
}

#[test]
fn insufficient_funds_is_atomic() {
    // A transfer above the sender's balance: the block is rejected with
    // InvalidTransactions, and neither the balances nor the chain move.
    let mut bc = Blockchain::new();
    bc.create_account("Alice", 100);
    bc.create_account("Bob", 100);
    bc.add_validator("Bob", 10);

    let tx = Transaction {
        sender: "Alice".to_string(),
        receiver: "Bob".to_string(),
        amount: 101,
    };
    let result = bc.add_block(vec![tx]);
    assert_eq!(result, Err(RejectReason::InvalidTransactions));
    assert_eq!(bc.get_balance("Alice"), 100);
    assert_eq!(bc.get_balance("Bob"), 90);
    assert_eq!(bc.chain.len(), 1);
}

#[test]
fn no_validator_is_atomic() {
    // A valid batch with nobody staked: rejected with NoValidator, and the
    // transfers are not applied.
    let mut bc = Blockchain::new();
    bc.create_account("Alice", 100);
    bc.create_account("Bob", 100);

    let tx = Transaction {
        sender: "Alice".to_string(),
        receiver: "Bob".to_string(),
        amount: 50,
    };
    let result = bc.add_block(vec![tx]);
    assert_eq!(result, Err(RejectReason::NoValidator));
    assert_eq!(bc.get_balance("Alice"), 100);
    assert_eq!(bc.get_balance("Bob"), 100);
    assert_eq!(bc.chain.len(), 1);
}

#[test]
fn reward_overflow_is_atomic() {
    // The only validator's balance cannot take the block reward: rejected
    // with RewardOverflow, nothing changes.
    let mut bc = Blockchain::new();
    bc.create_account("Alice", u64::MAX);
    assert!(bc.add_validator("Alice", 1));
    assert_eq!(bc.get_balance("Alice"), u64::MAX - 1);

    let result = bc.add_block(vec![]);
    assert_eq!(result, Err(RejectReason::RewardOverflow));
    assert_eq!(bc.get_balance("Alice"), u64::MAX - 1);
    assert_eq!(bc.chain.len(), 1);
}

#[test]
fn totals_conserved_plus_reward() {
    // Transfers conserve the total spendable balance; a sealed block mints
    // exactly the block reward on top.
    let mut bc = Blockchain::new();
    bc.create_account("Alice", 100);
    bc.create_account("Bob", 100);
    bc.create_account("Charlie", 100);
    bc.add_validator("Charlie", 20);

    let before =
        bc.get_balance("Alice") + bc.get_balance("Bob") + bc.get_balance("Charlie");
    assert_eq!(before, 280);

    let tx1 = Transaction {
        sender: "Alice".to_string(),
        receiver: "Bob".to_string(),
        amount: 70,
    };
    let tx2 = Transaction {
        sender: "Bob".to_string(),
        receiver: "Charlie".to_string(),
        amount: 30,
    };
    let result = bc.add_block(vec![tx1, tx2]);
    assert_eq!(result, Ok(()));

    let after =
        bc.get_balance("Alice") + bc.get_balance("Bob") + bc.get_balance("Charlie");
    assert_eq!(after, 380);
}

#[test]
fn sequential_batch_validation() {
    // Validation follows the listed order against running balances: the same
    // sender may spend twice only what it holds across both transfers.
    let mut bc = Blockchain::new();
    bc.create_account("Alice", 100);
    bc.create_account("Bob", 0);
    bc.add_validator("Alice", 10);

    // 60 + 60 overdraws the remaining 90 at the second transfer.
    let t1 = Transaction {
        sender: "Alice".to_string(),
        receiver: "Bob".to_string(),
        amount: 60,
    };
    let t2 = Transaction {
        sender: "Alice".to_string(),
        receiver: "Bob".to_string(),
        amount: 60,
    };
    assert!(!bc.validate_transactions(&vec![t1, t2]));

    // Money received earlier in the batch may be spent later in it.
    let t3 = Transaction {
        sender: "Alice".to_string(),
        receiver: "Bob".to_string(),
        amount: 90,
    };
    let t4 = Transaction {
        sender: "Bob".to_string(),
        receiver: "Alice".to_string(),
        amount: 90,
    };
    assert!(bc.validate_transactions(&vec![t3, t4]));
}

#[test]
fn self_transfer_conserves_balance() {
    // A transfer from an account to itself needs the funds but moves nothing:
    // the debit and the credit cancel.
    let mut bc = Blockchain::new();
    bc.create_account("Alice", 100);
    bc.create_account("Bob", 100);
    bc.add_validator("Bob", 10);

    let tx = Transaction {
        sender: "Alice".to_string(),
        receiver: "Alice".to_string(),
        amount: 60,
    };
    let result = bc.add_block(vec![tx]);
    assert_eq!(result, Ok(()));
    assert_eq!(bc.get_balance("Alice"), 100);
    assert_eq!(bc.get_balance("Bob"), 190);

    // Above the balance it is rejected like any other overdraft.
    let tx2 = Transaction {
        sender: "Alice".to_string(),
        receiver: "Alice".to_string(),
        amount: 101,
    };
    let result2 = bc.add_block(vec![tx2]);
    assert_eq!(result2, Err(RejectReason::InvalidTransactions));
}

#[test]
fn validator_registration_edge_cases() {
    let mut bc = Blockchain::new();
    bc.create_account("Alice", 100);

    // Unknown account.
    assert!(!bc.add_validator("Mallory", 10));
    // Stake above the spendable balance.
    assert!(!bc.add_validator("Alice", 101));
    assert_eq!(bc.get_balance("Alice"), 100);
    // A zero-stake validator can register but is never drawn.
    assert!(bc.add_validator("Alice", 0));
    assert_eq!(bc.select_validator(), None);
    // Re-staking is rejected, not topped up.
    assert!(!bc.add_validator("Alice", 10));
    assert_eq!(bc.get_balance("Alice"), 100);
}
