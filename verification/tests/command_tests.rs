use ledger_chain::blockchain::Blockchain;
use ledger_chain::commands::{process_command, tokenize};

/// Runs one command against the service, enqueueing any mutating transaction
/// into `queue` as the durable log would.
fn run(bc: &mut Blockchain, queue: &mut Vec<ledger_chain::blockchain::Transaction>, cmd: &str) -> String {
    let (response, action) = process_command(cmd, bc);
    if let Some(tx) = action {
        queue.push(tx);
    }
    response
}

#[test]
fn tokenizing_splits_on_runs_of_whitespace() {
    let toks = tokenize("  balance\t alice\n");
    assert_eq!(toks, vec!["balance".to_string(), "alice".to_string()]);
    assert_eq!(tokenize(""), Vec::<String>::new());
    assert_eq!(tokenize("   \t\r\n"), Vec::<String>::new());
}

#[test]
fn full_client_scenario_across_three_ticks() {
    let mut bc = Blockchain::new();
    let mut queue = Vec::new();

    assert_eq!(
        run(&mut bc, &mut queue, "create-account alice 100"),
        "Account alice with balance 100 added to mempool"
    );
    assert_eq!(
        run(&mut bc, &mut queue, "create-account bob 0"),
        "Account bob with balance 0 added to mempool"
    );
    bc.mine_block(std::mem::take(&mut queue));
    assert_eq!(bc.chain.len(), 2);
    assert_eq!(bc.chain[1].transactions.len(), 2);
    assert_eq!(run(&mut bc, &mut queue, "balance alice"), "Balance for alice: 100");
    assert_eq!(run(&mut bc, &mut queue, "balance bob"), "Balance for bob: 0");

    assert_eq!(
        run(&mut bc, &mut queue, "transfer alice bob 40"),
        "Transaction alice with balance 40 added to mempool"
    );
    bc.mine_block(std::mem::take(&mut queue));
    assert_eq!(bc.chain.len(), 3);
    assert_eq!(run(&mut bc, &mut queue, "balance alice"), "Balance for alice: 60");
    assert_eq!(run(&mut bc, &mut queue, "balance bob"), "Balance for bob: 40");

    assert_eq!(
        run(&mut bc, &mut queue, "transfer alice bob 1000"),
        "Transaction alice with balance 1000 added to mempool"
    );
    bc.mine_block(std::mem::take(&mut queue));
    assert_eq!(bc.chain.len(), 4);
    assert_eq!(bc.chain[3].transactions.len(), 1);
    assert_eq!(run(&mut bc, &mut queue, "balance alice"), "Balance for alice: 60");
    assert_eq!(run(&mut bc, &mut queue, "balance bob"), "Balance for bob: 40");
}

#[test]
fn balance_of_nonexistent_account_is_not_found() {
    let bc = Blockchain::new();
    let (response, action) = process_command("balance nonexistent", &bc);
    assert_eq!(response, "Account not found.");
    assert!(action.is_none());
}

#[test]
fn malformed_numbers_are_rejected_without_state_change() {
    let bc = Blockchain::new();
    let (response, action) = process_command("create-account alice abc", &bc);
    assert_eq!(response, "Invalid balance amount.");
    assert!(action.is_none());
    let (response, action) = process_command("transfer alice bob 10x", &bc);
    assert_eq!(response, "Invalid transfer amount.");
    assert!(action.is_none());
}

#[test]
fn unrecognized_command_shapes_are_invalid() {
    let bc = Blockchain::new();
    for cmd in [
        "",
        "   ",
        "frobnicate",
        "balance",
        "balance a b",
        "create-account alice",
        "create-account alice 1 2",
        "transfer alice bob",
        "transfer alice bob 1 2",
        "CREATE-ACCOUNT alice 1",
    ] {
        let (response, action) = process_command(cmd, &bc);
        assert_eq!(response, "Invalid command.", "command: {:?}", cmd);
        assert!(action.is_none());
    }
}

#[test]
fn queries_never_see_unmined_transactions() {
    let mut bc = Blockchain::new();
    let mut queue = Vec::new();
    run(&mut bc, &mut queue, "create-account alice 100");
    // Not mined yet: the account does not exist for queries.
    assert_eq!(run(&mut bc, &mut queue, "balance alice"), "Account not found.");
    bc.mine_block(std::mem::take(&mut queue));
    assert_eq!(run(&mut bc, &mut queue, "balance alice"), "Balance for alice: 100");
}
