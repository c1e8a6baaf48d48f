use ledger_chain::blockchain::{
    serialize_transactions, Block, Blockchain, Transaction, TransactionType, TxOutcome,
};
use ledger_chain::encoding::{i64_to_string, parse_u64, u64_to_string};
use ledger_chain::hashing::to_hex;

fn create_tx(id: &str, balance: u64) -> Transaction {
    Transaction {
        transaction_type: TransactionType::CreateAccount {
            account_id: id.to_string(),
            balance,
        },
    }
}

fn transfer_tx(from: &str, to: &str, amount: u64) -> Transaction {
    Transaction {
        transaction_type: TransactionType::Transfer {
            from_account: from.to_string(),
            to_account: to.to_string(),
            amount,
        },
    }
}

#[test]
fn fresh_chain_holds_only_the_genesis_block() {
    let bc = Blockchain::new();
    assert_eq!(bc.chain.len(), 1);
    assert_eq!(bc.chain[0].index, 0);
    assert_eq!(bc.chain[0].prev_hash, "0");
    assert!(bc.chain[0].transactions.is_empty());
    assert_eq!(bc.chain[0].hash.len(), 64);
}

#[test]
fn empty_tick_still_mines_a_linked_block() {
    let mut bc = Blockchain::new();
    let outcomes = bc.mine_block(Vec::new());
    assert!(outcomes.is_empty());
    assert_eq!(bc.chain.len(), 2);
    let b = &bc.chain[1];
    assert_eq!(b.index, 1);
    assert!(b.transactions.is_empty());
    assert_eq!(b.prev_hash, bc.chain[0].hash);
    let rehash = Block::calculate_hash(b.index, b.timestamp, &b.transactions, &b.prev_hash);
    assert_eq!(rehash, b.hash);
}

#[test]
fn rehashing_stored_fields_reproduces_every_stored_hash() {
    let mut bc = Blockchain::new();
    bc.add_transaction(create_tx("alice", 100));
    bc.mine_block(Vec::new());
    bc.mine_block(vec![create_tx("bob", 0), transfer_tx("alice", "bob", 40)]);
    for i in 1..bc.chain.len() {
        assert_eq!(bc.chain[i].prev_hash, bc.chain[i - 1].hash);
        let b = &bc.chain[i];
        let rehash =
            Block::calculate_hash(b.index, b.timestamp, &b.transactions, &b.prev_hash);
        assert_eq!(rehash, b.hash);
        assert_eq!(b.index as usize, i);
    }
}

#[test]
fn serialization_is_canonical_and_tagged() {
    assert_eq!(serialize_transactions(&Vec::new()), "0:");
    let batch = vec![create_tx("alice", 100), transfer_tx("alice", "bob", 40)];
    assert_eq!(
        serialize_transactions(&batch),
        "2:C5:alice:100;T5:alice:3:bob:40;"
    );
    // The same logical batch always serializes identically.
    assert_eq!(serialize_transactions(&batch), serialize_transactions(&batch));
}

#[test]
fn hash_matches_a_known_digest() {
    let empty: Vec<Transaction> = Vec::new();
    // SHA-256 of the material "0" ++ "0" ++ "0:" ++ "0".
    assert_eq!(
        Block::calculate_hash(0, 0, &empty, "0"),
        "be3f6882cd390e0e88609f3ac1e5f0795a31fb2174c3bb3f514ee854fd047a67"
    );
}

#[test]
fn different_fields_give_a_different_hash() {
    let empty: Vec<Transaction> = Vec::new();
    let one = vec![create_tx("alice", 100)];
    let base = Block::calculate_hash(0, 0, &empty, "0");
    assert_ne!(Block::calculate_hash(1, 0, &empty, "0"), base);
    assert_ne!(Block::calculate_hash(0, 1, &empty, "0"), base);
    assert_ne!(Block::calculate_hash(0, 0, &one, "0"), base);
    assert_ne!(Block::calculate_hash(0, 0, &empty, "1"), base);
}

#[test]
fn mining_applies_the_log_before_the_pending_queue() {
    let mut bc = Blockchain::new();
    // The in-memory queue creates alice; the log holds a transfer that needs
    // both accounts, so it must run after the log's own create but the block
    // must record the log's transactions first.
    bc.add_transaction(create_tx("alice", 10));
    let outcomes = bc.mine_block(vec![create_tx("bob", 0)]);
    assert_eq!(outcomes, vec![TxOutcome::Succeeded, TxOutcome::Succeeded]);
    let b = &bc.chain[1];
    assert_eq!(b.transactions.len(), 2);
    match &b.transactions[0].transaction_type {
        TransactionType::CreateAccount { account_id, balance } => {
            assert_eq!(account_id, "bob");
            assert_eq!(*balance, 0);
        }
        _ => panic!("expected the logged transaction first"),
    }
    assert!(bc.pending_transactions.is_empty());
}

#[test]
fn failed_transactions_are_recorded_but_do_not_abort_the_batch() {
    let mut bc = Blockchain::new();
    let outcomes = bc.mine_block(vec![
        create_tx("alice", 100),
        create_tx("alice", 7),
        transfer_tx("alice", "ghost", 1),
        transfer_tx("alice", "alice", 1000),
        transfer_tx("alice", "alice", 40),
    ]);
    assert_eq!(
        outcomes,
        vec![
            TxOutcome::Succeeded,
            TxOutcome::DuplicateAccount,
            TxOutcome::AccountNotFound,
            TxOutcome::InsufficientBalance,
            TxOutcome::Succeeded,
        ]
    );
    // The block records everything attempted, even the failures.
    assert_eq!(bc.chain[1].transactions.len(), 5);
    assert_eq!(bc.accounts.get_balance("alice"), Ok(100));
}

#[test]
fn decimal_rendering_matches_known_values() {
    assert_eq!(u64_to_string(0), "0");
    assert_eq!(u64_to_string(42), "42");
    assert_eq!(u64_to_string(u64::MAX), "18446744073709551615");
    assert_eq!(i64_to_string(0), "0");
    assert_eq!(i64_to_string(-5), "-5");
    assert_eq!(i64_to_string(i64::MIN), "-9223372036854775808");
    assert_eq!(i64_to_string(i64::MAX), "9223372036854775807");
}

#[test]
fn hex_rendering_matches_known_values() {
    assert_eq!(to_hex(&vec![]), "");
    assert_eq!(to_hex(&vec![0x00, 0xff, 0x10, 0x0a]), "00ff100a");
}

#[test]
fn decimal_parsing_matches_known_values() {
    assert_eq!(parse_u64("0"), Some(0));
    assert_eq!(parse_u64("007"), Some(7));
    assert_eq!(parse_u64("+42"), Some(42));
    assert_eq!(parse_u64("18446744073709551615"), Some(u64::MAX));
    assert_eq!(parse_u64("18446744073709551616"), None);
    assert_eq!(parse_u64(""), None);
    assert_eq!(parse_u64("+"), None);
    assert_eq!(parse_u64("-1"), None);
    assert_eq!(parse_u64("4 2"), None);
    assert_eq!(parse_u64("12a"), None);
}
