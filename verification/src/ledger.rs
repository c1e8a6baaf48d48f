//! The account-balance state machine: a mapping from account identifier to
//! balance, mutated only by validated create and transfer operations. Its
//! mathematical model is a `Map<Seq<char>, u64>`, and every operation's
//! contract pins the new map and the reported outcome exactly.
use vstd::prelude::*;

use crate::encoding::str_eq;
use vstd::pervasive::VecAdditionalExecFns;

verus! {

/// One account: a unique identifier and a non-negative balance.
#[derive(Debug, Clone)]
pub struct Account {
    pub account_id: String,
    pub balance: u64,
}

/// A semantic failure of one ledger operation. Such failures never abort a
/// batch and never change any balance.
#[derive(Debug, Clone, Copy, PartialEq, Eq, Structural)]
pub enum LedgerError {
    /// A named account does not exist.
    AccountNotFound,
    /// The sending account holds less than the transfer amount.
    InsufficientBalance,
    /// The account to create already exists; the existing account is kept.
    DuplicateAccount,
    /// Crediting the receiving account would exceed the balance type's range.
    BalanceOverflow,
}

/// Whether some account in `s` has the identifier `id`.
pub open spec fn has_id(s: Seq<Account>, id: Seq<char>) -> bool
    decreases s.len(),
{
    if s.len() == 0 {
        false
    } else {
        s[0].account_id@ == id || has_id(s.drop_first(), id)
    }
}

/// The balance of the first account in `s` with identifier `id`.
pub open spec fn first_bal(s: Seq<Account>, id: Seq<char>) -> u64
    decreases s.len(),
{
    if s.len() == 0 {
        0
    } else if s[0].account_id@ == id {
        s[0].balance
    } else {
        first_bal(s.drop_first(), id)
    }
}

/// The identifier-to-balance mapping that a sequence of accounts represents.
pub open spec fn account_map(s: Seq<Account>) -> Map<Seq<char>, u64> {
    Map::new(|id: Seq<char>| has_id(s, id), |id: Seq<char>| first_bal(s, id))
}

/// The sum of all balances held in `s`.
pub open spec fn total_of(s: Seq<Account>) -> int
    decreases s.len(),
{
    if s.len() == 0 {
        0
    } else {
        total_of(s.drop_last()) + s.last().balance
    }
}

/// What creating `id` reports: a duplicate is refused, anything else succeeds.
pub open spec fn create_result(m: Map<Seq<char>, u64>, id: Seq<char>) -> Result<
    (),
    LedgerError,
> {
    if m.dom().contains(id) {
        Err(LedgerError::DuplicateAccount)
    } else {
        Ok(())
    }
}

/// The ledger after creating `id` with `initial_balance`: an existing account
/// is left untouched.
pub open spec fn apply_create(
    m: Map<Seq<char>, u64>,
    id: Seq<char>,
    initial_balance: u64,
) -> Map<Seq<char>, u64> {
    if m.dom().contains(id) {
        m
    } else {
        m.insert(id, initial_balance)
    }
}

/// What a transfer reports: both accounts must exist, the sender must hold the
/// amount, and the receiver's new balance must fit in the balance type.
pub open spec fn transfer_result(
    m: Map<Seq<char>, u64>,
    from: Seq<char>,
    to: Seq<char>,
    amount: u64,
) -> Result<(), LedgerError> {
    if !m.dom().contains(from) || !m.dom().contains(to) {
        Err(LedgerError::AccountNotFound)
    } else if m[from] < amount {
        Err(LedgerError::InsufficientBalance)
    } else if from != to && m[to] + amount > u64::MAX {
        Err(LedgerError::BalanceOverflow)
    } else {
        Ok(())
    }
}

/// The ledger after a transfer: on success the sender is debited and the
/// receiver credited; a failed transfer, or one from an account to itself,
/// changes nothing.
pub open spec fn apply_transfer(
    m: Map<Seq<char>, u64>,
    from: Seq<char>,
    to: Seq<char>,
    amount: u64,
) -> Map<Seq<char>, u64> {
    if transfer_result(m, from, to, amount) is Ok && from != to {
        m.insert(from, (m[from] - amount) as u64).insert(to, (m[to] + amount) as u64)
    } else {
        m
    }
}

/// What a balance query returns: the stored balance, or a not-found failure.
pub open spec fn balance_result(m: Map<Seq<char>, u64>, id: Seq<char>) -> Result<
    u64,
    LedgerError,
> {
    if m.dom().contains(id) {
        Ok(m[id])
    } else {
        Err(LedgerError::AccountNotFound)
    }
}

/// The account mapping. The representation keeps at most one entry per
/// identifier because insertion is guarded, but the model is first-match, so
/// no operation needs a representation invariant.
#[derive(Debug)]
pub struct AccountsDatabase {
    accounts: Vec<Account>,
}

impl View for AccountsDatabase {
    type V = Map<Seq<char>, u64>;

    closed spec fn view(&self) -> Map<Seq<char>, u64> {
        account_map(self.accounts@)
    }
}

impl Default for AccountsDatabase {
    fn default() -> (r: Self)
        ensures
            r@ == Map::<Seq<char>, u64>::empty(),
            r.total() == 0,
    {
        AccountsDatabase::new()
    }
}

impl AccountsDatabase {
    /// The sum of all balances, the quantity that transfers conserve.
    pub closed spec fn total(&self) -> int {
        total_of(self.accounts@)
    }

    pub fn new() -> (r: Self)
        ensures
            r@ == Map::<Seq<char>, u64>::empty(),
            r.total() == 0,
    {
        let r = AccountsDatabase { accounts: Vec::new() };
        proof {
            assert(r@ =~= Map::<Seq<char>, u64>::empty());
        }
        r
    }

    /// The index of the first account named `id`, if any.
    fn find_index(&self, id: &str) -> (r: Option<usize>)
        ensures
            match r {
                Some(i) => i < self.accounts@.len() && self.accounts@[i as int].account_id@ == id@
                    && (forall|k: int|
                    0 <= k < i ==> self.accounts@[k].account_id@ != id@),
                None => !has_id(self.accounts@, id@),
            },
    {
        let mut i: usize = 0;
        while i < self.accounts.len()
            invariant
                i <= self.accounts@.len(),
                forall|k: int| 0 <= k < i ==> self.accounts@[k].account_id@ != id@,
            decreases self.accounts@.len() - i,
        {
            if str_eq(self.accounts[i].account_id.as_str(), id) {
                return Some(i);
            }
            i = i + 1;
        }
        proof {
            lemma_has_id_exists(self.accounts@, id@);
        }
        None
    }

    /// Creates a new account with the given balance; an existing identifier is
    /// refused and the existing account is preserved.
    pub fn create_account(&mut self, account_id: String, initial_balance: u64) -> (r: Result<
        (),
        LedgerError,
    >)
        ensures
            r == create_result(old(self)@, account_id@),
            final(self)@ == apply_create(old(self)@, account_id@, initial_balance),
            final(self).total() == old(self).total() + if old(self)@.dom().contains(
                account_id@,
            ) {
                0
            } else {
                initial_balance as int
            },
    {
        match self.find_index(account_id.as_str()) {
            Some(i) => {
                proof {
                    lemma_first_bal_at(self.accounts@, account_id@, i as int);
                }
                Err(LedgerError::DuplicateAccount)
            },
            None => {
                let ghost s0 = self.accounts@;
                let account = Account { account_id, balance: initial_balance };
                let ghost a = account;
                self.accounts.push(account);
                proof {
                    lemma_total_push(s0, a);
                    lemma_push_view(s0, a);
                }
                Ok(())
            },
        }
    }

    /// Moves `amount` from `from_account` to `to_account`. Exactly the
    /// failures of `transfer_result` occur, a failure changes nothing, and the
    /// total of all balances is conserved either way.
    pub fn transfer(&mut self, from_account: &str, to_account: &str, amount: u64) -> (r: Result<
        (),
        LedgerError,
    >)
        ensures
            r == transfer_result(old(self)@, from_account@, to_account@, amount),
            final(self)@ == apply_transfer(old(self)@, from_account@, to_account@, amount),
            final(self).total() == old(self).total(),
    {
        let from_idx = match self.find_index(from_account) {
            Some(i) => i,
            None => {
                return Err(LedgerError::AccountNotFound);
            },
        };
        let to_idx = match self.find_index(to_account) {
            Some(i) => i,
            None => {
                return Err(LedgerError::AccountNotFound);
            },
        };
        proof {
            lemma_first_bal_at(self.accounts@, from_account@, from_idx as int);
            lemma_first_bal_at(self.accounts@, to_account@, to_idx as int);
        }
        let from_balance = self.accounts[from_idx].balance;
        if from_balance < amount {
            return Err(LedgerError::InsufficientBalance);
        }
        if from_idx == to_idx {
            return Ok(());
        }
        proof {
            assert(from_account@ != to_account@);
        }
        let to_balance = self.accounts[to_idx].balance;
        if amount > u64::MAX - to_balance {
            return Err(LedgerError::BalanceOverflow);
        }
        let ghost s0 = self.accounts@;
        let debited = Account {
            account_id: self.accounts[from_idx].account_id.clone(),
            balance: from_balance - amount,
        };
        let ghost d = debited;
        self.accounts.set(from_idx, debited);
        proof {
            lemma_total_update(s0, from_idx as int, d);
            lemma_update_view(s0, from_idx as int, d);
        }
        let ghost s1 = self.accounts@;
        let credited = Account {
            account_id: self.accounts[to_idx].account_id.clone(),
            balance: to_balance + amount,
        };
        let ghost c = credited;
        self.accounts.set(to_idx, credited);
        proof {
            assert(s1[to_idx as int] == s0[to_idx as int]);
            assert forall|k: int| 0 <= k < to_idx implies s1[k].account_id@ != to_account@ by {
                if k != from_idx {
                    assert(s1[k] == s0[k]);
                }
            }
            lemma_total_update(s1, to_idx as int, c);
            lemma_update_view(s1, to_idx as int, c);
            assert(self@ =~= apply_transfer(account_map(s0), from_account@, to_account@, amount));
        }
        Ok(())
    }

    /// Reads the balance of `account_id`, or reports that it does not exist.
    pub fn get_balance(&self, account_id: &str) -> (r: Result<u64, LedgerError>)
        ensures
            r == balance_result(self@, account_id@),
    {
        match self.find_index(account_id) {
            Some(i) => {
                proof {
                    lemma_first_bal_at(self.accounts@, account_id@, i as int);
                }
                Ok(self.accounts[i].balance)
            },
            None => Err(LedgerError::AccountNotFound),
        }
    }
}

/// An identifier occurs in `s` exactly when some position holds it.
proof fn lemma_has_id_exists(s: Seq<Account>, id: Seq<char>)
    ensures
        has_id(s, id) <==> exists|k: int| 0 <= k < s.len() && s[k].account_id@ == id,
    decreases s.len(),
{
    if s.len() > 0 {
        lemma_has_id_exists(s.drop_first(), id);
        if s[0].account_id@ == id {
            assert(s[0].account_id@ == id);
        } else if has_id(s, id) {
            let k = choose|k: int|
                0 <= k < s.drop_first().len() && s.drop_first()[k].account_id@ == id;
            assert(s[k + 1].account_id@ == id);
        } else {
            assert forall|k: int| 0 <= k < s.len() implies s[k].account_id@ != id by {
                if k > 0 {
                    assert(s.drop_first()[k - 1] == s[k]);
                }
            }
        }
    }
}

/// The first match determines the modelled balance: a position whose prefix
/// holds no match is the first match.
proof fn lemma_first_bal_at(s: Seq<Account>, id: Seq<char>, i: int)
    requires
        0 <= i < s.len(),
        s[i].account_id@ == id,
        forall|k: int| 0 <= k < i ==> s[k].account_id@ != id,
    ensures
        has_id(s, id),
        first_bal(s, id) == s[i].balance,
    decreases i,
{
    if i > 0 {
        assert forall|k: int| 0 <= k < i - 1 implies s.drop_first()[k].account_id@ != id by {
            assert(s.drop_first()[k] == s[k + 1]);
        }
        assert(s.drop_first()[i - 1] == s[i]);
        lemma_first_bal_at(s.drop_first(), id, i - 1);
    }
}

/// How appending one account changes membership and first-match balances.
proof fn lemma_push_id(s: Seq<Account>, a: Account, id: Seq<char>)
    ensures
        has_id(s.push(a), id) == (has_id(s, id) || a.account_id@ == id),
        has_id(s, id) ==> first_bal(s.push(a), id) == first_bal(s, id),
        !has_id(s, id) && a.account_id@ == id ==> first_bal(s.push(a), id) == a.balance,
    decreases s.len(),
{
    if s.len() == 0 {
        assert(s.push(a)[0] == a);
        assert(s.push(a).drop_first() =~= Seq::<Account>::empty());
        assert(!has_id(s.push(a).drop_first(), id));
        assert(has_id(s.push(a), id) == (a.account_id@ == id));
    } else {
        assert(s.push(a)[0] == s[0]);
        assert(s.push(a).drop_first() =~= s.drop_first().push(a));
        lemma_push_id(s.drop_first(), a, id);
        assert(has_id(s.push(a), id) == (s[0].account_id@ == id || has_id(
            s.drop_first().push(a),
            id,
        )));
    }
}

/// Replacing the first account of an identifier with one of the same
/// identifier changes only that identifier's modelled balance.
proof fn lemma_update_id(s: Seq<Account>, i: int, a2: Account, id: Seq<char>)
    requires
        0 <= i < s.len(),
        s[i].account_id@ == a2.account_id@,
        forall|k: int| 0 <= k < i ==> s[k].account_id@ != a2.account_id@,
    ensures
        has_id(s.update(i, a2), id) == has_id(s, id),
        id != a2.account_id@ && has_id(s, id) ==> first_bal(s.update(i, a2), id) == first_bal(
            s,
            id,
        ),
        id == a2.account_id@ && has_id(s, id) ==> first_bal(s.update(i, a2), id) == a2.balance,
    decreases i,
{
    if i == 0 {
        assert(s.update(i, a2)[0] == a2);
        assert(s.update(i, a2).drop_first() =~= s.drop_first());
    } else {
        assert(s.update(i, a2)[0] == s[0]);
        assert(s.update(i, a2).drop_first() =~= s.drop_first().update(i - 1, a2));
        assert forall|k: int|
            0 <= k < i - 1 implies s.drop_first()[k].account_id@ != a2.account_id@ by {
            assert(s.drop_first()[k] == s[k + 1]);
        }
        assert(s.drop_first()[i - 1] == s[i]);
        lemma_update_id(s.drop_first(), i - 1, a2, id);
    }
}

/// Appending an account with a fresh identifier inserts it into the model.
proof fn lemma_push_view(s: Seq<Account>, a: Account)
    requires
        !has_id(s, a.account_id@),
    ensures
        account_map(s.push(a)) == account_map(s).insert(a.account_id@, a.balance),
{
    let m1 = account_map(s.push(a));
    let m2 = account_map(s).insert(a.account_id@, a.balance);
    assert forall|id2: Seq<char>| m1.dom().contains(id2) == m2.dom().contains(id2) by {
        lemma_push_id(s, a, id2);
    }
    assert forall|id2: Seq<char>| m1.dom().contains(id2) implies m1[id2] == m2[id2] by {
        lemma_push_id(s, a, id2);
    }
    assert(m1 =~= m2);
}

/// Replacing the first account of an identifier with one of the same
/// identifier updates exactly that identifier's entry in the model.
proof fn lemma_update_view(s: Seq<Account>, i: int, a2: Account)
    requires
        0 <= i < s.len(),
        s[i].account_id@ == a2.account_id@,
        forall|k: int| 0 <= k < i ==> s[k].account_id@ != a2.account_id@,
    ensures
        account_map(s.update(i, a2)) == account_map(s).insert(a2.account_id@, a2.balance),
{
    lemma_first_bal_at(s, a2.account_id@, i);
    let m1 = account_map(s.update(i, a2));
    let m2 = account_map(s).insert(a2.account_id@, a2.balance);
    assert forall|id2: Seq<char>| m1.dom().contains(id2) == m2.dom().contains(id2) by {
        lemma_update_id(s, i, a2, id2);
    }
    assert forall|id2: Seq<char>| m1.dom().contains(id2) implies m1[id2] == m2[id2] by {
        lemma_update_id(s, i, a2, id2);
    }
    assert(m1 =~= m2);
}

/// Replacing one account changes the total by the difference in its balance.
proof fn lemma_total_update(s: Seq<Account>, i: int, a2: Account)
    requires
        0 <= i < s.len(),
    ensures
        total_of(s.update(i, a2)) == total_of(s) - s[i].balance + a2.balance,
    decreases s.len(),
{
    if i == s.len() - 1 {
        assert(s.update(i, a2).drop_last() =~= s.drop_last());
        assert(s.update(i, a2).last() == a2);
    } else {
        assert(s.update(i, a2).drop_last() =~= s.drop_last().update(i, a2));
        assert(s.update(i, a2).last() == s.last());
        lemma_total_update(s.drop_last(), i, a2);
    }
}

/// Appending one account adds its balance to the total.
proof fn lemma_total_push(s: Seq<Account>, a: Account)
    ensures
        total_of(s.push(a)) == total_of(s) + a.balance,
{
    assert(s.push(a).drop_last() =~= s);
    assert(s.push(a).last() == a);
}

/// Creating an account and then reading its balance, with no transfer in
/// between, returns exactly the initial balance.
pub proof fn lemma_create_then_get_balance(
    m: Map<Seq<char>, u64>,
    id: Seq<char>,
    initial_balance: u64,
)
    requires
        !m.dom().contains(id),
    ensures
        balance_result(apply_create(m, id, initial_balance), id) == Ok::<u64, LedgerError>(
            initial_balance,
        ),
{
}

/// A transfer whose sender holds less than the amount fails with
/// `InsufficientBalance` and leaves every balance unchanged.
pub proof fn lemma_insufficient_transfer(
    m: Map<Seq<char>, u64>,
    from: Seq<char>,
    to: Seq<char>,
    amount: u64,
)
    requires
        m.dom().contains(from),
        m.dom().contains(to),
        m[from] < amount,
    ensures
        transfer_result(m, from, to, amount) == Err::<(), LedgerError>(
            LedgerError::InsufficientBalance,
        ),
        apply_transfer(m, from, to, amount) == m,
{
}

} // verus!
