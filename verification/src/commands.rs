//! The client command protocol: a stateless translator from one command line
//! to either a transaction to enqueue for the next mining tick, or an
//! immediate balance answer. Malformed input yields an error response, never a
//! panic and never a state change.
use vstd::prelude::*;

use crate::blockchain::{Blockchain, Transaction, TransactionType, TransactionView};
use crate::encoding::{dec_nat, parse_u64, parse_u64_of, str_eq, u64_to_string};

verus! {

/// The separators between command tokens.
pub open spec fn is_space(c: char) -> bool {
    c == ' ' || c == '\t' || c == '\n' || c == '\r'
}

/// The position just past the run of non-separator characters starting at `i`.
pub open spec fn token_end(s: Seq<char>, i: int) -> int
    decreases s.len() - i,
    when i <= s.len()
{
    if i < 0 || i >= s.len() || is_space(s[i]) {
        i
    } else {
        token_end(s, i + 1)
    }
}

/// `token_end` stays within the string and past its starting point.
proof fn lemma_token_end_bounds(s: Seq<char>, i: int)
    requires
        0 <= i <= s.len(),
    ensures
        i <= token_end(s, i) <= s.len(),
        i < s.len() && !is_space(s[i]) ==> token_end(s, i) > i,
    decreases s.len() - i,
{
    if i < s.len() && !is_space(s[i]) {
        lemma_token_end_bounds(s, i + 1);
    }
}

/// A scan that saw no separator up to `j`, and a separator or the end at `j`,
/// found exactly `token_end`.
proof fn lemma_token_end_at(s: Seq<char>, i: int, j: int)
    requires
        0 <= i <= j <= s.len(),
        forall|k: int| i <= k < j ==> !is_space(#[trigger] s[k]),
        j == s.len() || is_space(s[j]),
    ensures
        token_end(s, i) == j,
    decreases j - i,
{
    if i < j {
        lemma_token_end_at(s, i + 1, j);
    }
}

/// The command tokens from position `i` on: maximal runs of non-separator
/// characters, in order.
pub open spec fn tokens_from(s: Seq<char>, i: int) -> Seq<Seq<char>>
    decreases s.len() - i,
    when 0 <= i
    via tokens_from_dec
{
    if i < 0 || i >= s.len() {
        Seq::empty()
    } else if is_space(s[i]) {
        tokens_from(s, i + 1)
    } else {
        seq![s.subrange(i, token_end(s, i))] + tokens_from(s, token_end(s, i))
    }
}

#[via_fn]
proof fn tokens_from_dec(s: Seq<char>, i: int) {
    if 0 <= i < s.len() && !is_space(s[i]) {
        lemma_token_end_bounds(s, i);
    }
}

/// The command tokens of a whole line.
pub open spec fn tokens_of(s: Seq<char>) -> Seq<Seq<char>> {
    tokens_from(s, 0)
}

/// Whether `c` separates tokens.
fn is_space_char(c: char) -> (r: bool)
    ensures
        r == is_space(c),
{
    c == ' ' || c == '\t' || c == '\n' || c == '\r'
}

/// Scans for the end of the token starting at `i`.
fn token_end_at(s: &str, i: usize, n: usize) -> (j: usize)
    requires
        n == s@.len(),
        i <= n,
    ensures
        j == token_end(s@, i as int),
        i <= j <= n,
    decreases n - i,
{
    let mut j = i;
    while j < n && !is_space_char(s.get_char(j))
        invariant
            n == s@.len(),
            i <= j <= n,
            forall|k: int| i <= k < j ==> !is_space(#[trigger] s@[k]),
        decreases n - j,
    {
        j = j + 1;
    }
    proof {
        lemma_token_end_at(s@, i as int, j as int);
    }
    j
}

/// Collects the tokens from position `i` on, exactly as `tokens_from` says.
fn tokenize_from(s: &str, i: usize, n: usize) -> (tokens: Vec<String>)
    requires
        n == s@.len(),
        i <= n,
    ensures
        tokens.deep_view() == tokens_from(s@, i as int),
    decreases n - i,
{
    if i == n {
        let tokens: Vec<String> = Vec::new();
        proof {
            assert(tokens.deep_view() =~= tokens_from(s@, i as int));
        }
        tokens
    } else if is_space_char(s.get_char(i)) {
        tokenize_from(s, i + 1, n)
    } else {
        let j = token_end_at(s, i, n);
        proof {
            lemma_token_end_bounds(s@, i as int);
        }
        let tok = s.substring_char(i, j).to_owned();
        let mut tokens = tokenize_from(s, j, n);
        tokens.insert(0, tok);
        proof {
            assert(tokens.deep_view() =~= tokens_from(s@, i as int));
        }
        tokens
    }
}

/// Splits a command line into its whitespace-separated tokens.
pub fn tokenize(s: &str) -> (tokens: Vec<String>)
    ensures
        tokens.deep_view() == tokens_of(s@),
{
    let n = s.unicode_len();
    tokenize_from(s, 0, n)
}

/// The confirmation for an accepted create-account command.
pub open spec fn create_response(id: Seq<char>, balance: u64) -> Seq<char> {
    "Account "@ + id + " with balance "@ + dec_nat(balance as nat) + " added to mempool"@
}

/// The confirmation for an accepted transfer command.
pub open spec fn transfer_response(from: Seq<char>, amount: u64) -> Seq<char> {
    "Transaction "@ + from + " with balance "@ + dec_nat(amount as nat) + " added to mempool"@
}

/// The answer to a balance query for an existing account.
pub open spec fn balance_response(id: Seq<char>, balance: u64) -> Seq<char> {
    "Balance for "@ + id + ": "@ + dec_nat(balance as nat)
}

/// What a command line yields against ledger state `m`: the response text, and
/// the transaction to enqueue if the command mutates.
pub open spec fn process_spec(cmd: Seq<char>, m: Map<Seq<char>, u64>) -> (Seq<char>, Option<
    TransactionView,
>) {
    let toks = tokens_of(cmd);
    if toks.len() == 3 && toks[0] == "create-account"@ {
        match parse_u64_of(toks[2]) {
            Some(balance) => (
                create_response(toks[1], balance),
                Some(TransactionView::CreateAccount { account_id: toks[1], balance }),
            ),
            None => ("Invalid balance amount."@, None),
        }
    } else if toks.len() == 4 && toks[0] == "transfer"@ {
        match parse_u64_of(toks[3]) {
            Some(amount) => (
                transfer_response(toks[1], amount),
                Some(
                    TransactionView::Transfer {
                        from_account: toks[1],
                        to_account: toks[2],
                        amount,
                    },
                ),
            ),
            None => ("Invalid transfer amount."@, None),
        }
    } else if toks.len() == 2 && toks[0] == "balance"@ {
        if m.dom().contains(toks[1]) {
            (balance_response(toks[1], m[toks[1]]), None)
        } else {
            ("Account not found."@, None)
        }
    } else {
        ("Invalid command."@, None)
    }
}

/// Translates one command line. A mutating command is returned as the
/// transaction to append to the durable queue together with its confirmation;
/// a balance query is answered immediately from the ledger; anything else
/// yields an error response and no state change.
pub fn process_command(command: &str, blockchain: &Blockchain) -> (r: (String, Option<
    Transaction,
>))
    ensures
        r.0@ == process_spec(command@, blockchain.accounts@).0,
        match r.1 {
            Some(t) => process_spec(command@, blockchain.accounts@).1 == Some(t@),
            None => process_spec(command@, blockchain.accounts@).1 is None,
        },
{
    let tokens = tokenize(command);
    let ghost toks = tokens_of(command@);
    if tokens.len() == 3 && str_eq(tokens[0].as_str(), "create-account") {
        match parse_u64(tokens[2].as_str()) {
            Some(balance) => {
                let mut resp = String::from_str("Account ");
                resp.append(tokens[1].as_str());
                resp.append(" with balance ");
                resp.append(u64_to_string(balance).as_str());
                resp.append(" added to mempool");
                let tx = Transaction {
                    transaction_type: TransactionType::CreateAccount {
                        account_id: tokens[1].clone(),
                        balance,
                    },
                };
                proof {
                    assert(resp@ =~= create_response(toks[1], balance));
                }
                (resp, Some(tx))
            },
            None => (String::from_str("Invalid balance amount."), None),
        }
    } else if tokens.len() == 4 && str_eq(tokens[0].as_str(), "transfer") {
        match parse_u64(tokens[3].as_str()) {
            Some(amount) => {
                let mut resp = String::from_str("Transaction ");
                resp.append(tokens[1].as_str());
                resp.append(" with balance ");
                resp.append(u64_to_string(amount).as_str());
                resp.append(" added to mempool");
                let tx = Transaction {
                    transaction_type: TransactionType::Transfer {
                        from_account: tokens[1].clone(),
                        to_account: tokens[2].clone(),
                        amount,
                    },
                };
                proof {
                    assert(resp@ =~= transfer_response(toks[1], amount));
                }
                (resp, Some(tx))
            },
            None => (String::from_str("Invalid transfer amount."), None),
        }
    } else if tokens.len() == 2 && str_eq(tokens[0].as_str(), "balance") {
        match blockchain.accounts.get_balance(tokens[1].as_str()) {
            Ok(balance) => {
                let mut resp = String::from_str("Balance for ");
                resp.append(tokens[1].as_str());
                resp.append(": ");
                resp.append(u64_to_string(balance).as_str());
                proof {
                    assert(resp@ =~= balance_response(toks[1], balance));
                }
                (resp, None)
            },
            Err(_) => (String::from_str("Account not found."), None),
        }
    } else {
        (String::from_str("Invalid command."), None)
    }
}

} // verus!
