//! Blocks, the chain, and the mining step: a block is an immutable record of an
//! ordered transaction batch, hash-linked to its predecessor; a mining tick
//! drains the pending batch, applies it to the account ledger, and appends one
//! block recording exactly what was attempted.
use vstd::prelude::*;

use crate::encoding::{dec_int, dec_nat, i64_to_string, u64_to_string};
use crate::hashing::{hex_of, sha256_digest, sha256_of, to_hex};
use crate::ledger::{
    apply_create, apply_transfer, transfer_result, AccountsDatabase, LedgerError,
};

verus! {

/// What one transaction asks for: creating an account or moving funds.
#[derive(Debug, Clone)]
pub enum TransactionType {
    CreateAccount { account_id: String, balance: u64 },
    Transfer { from_account: String, to_account: String, amount: u64 },
}

/// One immutable transaction, consumed exactly once during block assembly.
#[derive(Debug, Clone)]
pub struct Transaction {
    pub transaction_type: TransactionType,
}

/// The mathematical value of a transaction: its identifiers as character
/// sequences.
pub enum TransactionView {
    CreateAccount { account_id: Seq<char>, balance: u64 },
    Transfer { from_account: Seq<char>, to_account: Seq<char>, amount: u64 },
}

impl View for Transaction {
    type V = TransactionView;

    open spec fn view(&self) -> TransactionView {
        match self.transaction_type {
            TransactionType::CreateAccount { account_id, balance } => {
                TransactionView::CreateAccount { account_id: account_id@, balance }
            },
            TransactionType::Transfer { from_account, to_account, amount } => {
                TransactionView::Transfer {
                    from_account: from_account@,
                    to_account: to_account@,
                    amount,
                }
            },
        }
    }
}

impl DeepView for Transaction {
    type V = TransactionView;

    open spec fn deep_view(&self) -> TransactionView {
        self@
    }
}

/// The canonical text of one transaction: a variant tag, length-prefixed
/// identifiers, and decimal amounts, so that a batch always serializes the
/// same way.
pub open spec fn ser_tx(t: TransactionView) -> Seq<char> {
    match t {
        TransactionView::CreateAccount { account_id, balance } => {
            seq!['C'] + dec_nat(account_id.len()) + seq![':'] + account_id + seq![':'] + dec_nat(
                balance as nat,
            ) + seq![';']
        },
        TransactionView::Transfer { from_account, to_account, amount } => {
            seq!['T'] + dec_nat(from_account.len()) + seq![':'] + from_account + seq![':']
                + dec_nat(to_account.len()) + seq![':'] + to_account + seq![':'] + dec_nat(
                amount as nat,
            ) + seq![';']
        },
    }
}

/// The concatenated canonical texts of a transaction sequence.
pub open spec fn ser_txs(txs: Seq<TransactionView>) -> Seq<char>
    decreases txs.len(),
{
    if txs.len() == 0 {
        Seq::empty()
    } else {
        ser_txs(txs.drop_last()) + ser_tx(txs.last())
    }
}

/// The canonical text of a whole batch: its length, then each transaction.
pub open spec fn ser_batch(txs: Seq<TransactionView>) -> Seq<char> {
    dec_nat(txs.len()) + seq![':'] + ser_txs(txs)
}

/// Appends the canonical text of one transaction to `s`.
fn append_tx(s: &mut String, t: &Transaction)
    ensures
        final(s)@ == old(s)@ + ser_tx(t@),
{
    proof {
        reveal_strlit("C");
        reveal_strlit("T");
        reveal_strlit(":");
        reveal_strlit(";");
    }
    match &t.transaction_type {
        TransactionType::CreateAccount { account_id, balance } => {
            s.append("C");
            s.append(u64_to_string(account_id.unicode_len() as u64).as_str());
            s.append(":");
            s.append(account_id.as_str());
            s.append(":");
            s.append(u64_to_string(*balance).as_str());
            s.append(";");
            proof {
                assert(final(s)@ =~= old(s)@ + ser_tx(t@));
            }
        },
        TransactionType::Transfer { from_account, to_account, amount } => {
            s.append("T");
            s.append(u64_to_string(from_account.unicode_len() as u64).as_str());
            s.append(":");
            s.append(from_account.as_str());
            s.append(":");
            s.append(u64_to_string(to_account.unicode_len() as u64).as_str());
            s.append(":");
            s.append(to_account.as_str());
            s.append(":");
            s.append(u64_to_string(*amount).as_str());
            s.append(";");
            proof {
                assert(final(s)@ =~= old(s)@ + ser_tx(t@));
            }
        },
    }
}

/// Renders a batch in its canonical serialization, exactly as `ser_batch`
/// describes; the same logical batch always yields the same text.
pub fn serialize_transactions(transactions: &Vec<Transaction>) -> (s: String)
    ensures
        s@ == ser_batch(transactions.deep_view()),
{
    proof {
        reveal_strlit(":");
    }
    let ghost txsv = transactions.deep_view();
    let mut s = u64_to_string(transactions.len() as u64);
    s.append(":");
    proof {
        assert(s@ =~= dec_nat(txsv.len()) + seq![':'] + ser_txs(txsv.take(0)));
    }
    let mut i: usize = 0;
    while i < transactions.len()
        invariant
            i <= transactions@.len(),
            txsv == transactions.deep_view(),
            s@ == dec_nat(txsv.len()) + seq![':'] + ser_txs(txsv.take(i as int)),
        decreases transactions@.len() - i,
    {
        append_tx(&mut s, &transactions[i]);
        proof {
            assert(txsv.take(i + 1).drop_last() =~= txsv.take(i as int));
            assert(txsv.take(i + 1).last() == txsv[i as int]);
            assert(s@ =~= dec_nat(txsv.len()) + seq![':'] + ser_txs(txsv.take(i + 1)));
        }
        i = i + 1;
    }
    proof {
        assert(txsv.take(txsv.len() as int) =~= txsv);
    }
    s
}

/// The material a block's hash is computed over: its index, its timestamp, the
/// canonical serialization of its transactions, and its predecessor's hash.
pub open spec fn hash_material(
    index: u64,
    timestamp: i64,
    txs: Seq<TransactionView>,
    prev_hash: Seq<char>,
) -> Seq<char> {
    dec_nat(index as nat) + dec_int(timestamp as int) + ser_batch(txs) + prev_hash
}

/// A block's hash: the SHA-256 digest of its hash material, in lowercase hex.
pub open spec fn block_hash_of(
    index: u64,
    timestamp: i64,
    txs: Seq<TransactionView>,
    prev_hash: Seq<char>,
) -> Seq<char> {
    hex_of(sha256_of(hash_material(index, timestamp, txs, prev_hash)))
}

/// One block: an ordered transaction batch with the metadata that chains it to
/// its predecessor. `hash` is always the hash of the other four fields.
#[derive(Debug)]
pub struct Block {
    pub index: u64,
    pub timestamp: i64,
    pub transactions: Vec<Transaction>,
    pub prev_hash: String,
    pub hash: String,
}

/// A block's stored hash matches its own stored fields.
pub open spec fn block_wf(b: Block) -> bool {
    b.hash@ == block_hash_of(b.index, b.timestamp, b.transactions.deep_view(), b.prev_hash@)
}

/// Relies on chrono's `Utc::now`: the current wall-clock time in seconds since
/// the epoch. The value depends on the clock, so nothing is promised of it.
#[verifier::external_body]
fn now_timestamp() -> i64 {
    chrono::Utc::now().timestamp()
}

impl Block {
    /// Builds a block over `transactions`, stamped with the current wall-clock
    /// time and hashed over exactly its stored fields.
    pub fn new(index: u64, transactions: Vec<Transaction>, prev_hash: String) -> (b: Block)
        ensures
            b.index == index,
            b.transactions == transactions,
            b.prev_hash == prev_hash,
            block_wf(b),
    {
        let timestamp = now_timestamp();
        let hash: String = Self::calculate_hash(index, timestamp, &transactions, prev_hash.as_str());
        Block { index, timestamp, transactions, prev_hash, hash }
    }

    /// Computes the hash a block with these fields must store. Re-running this
    /// on a stored block's own fields reproduces its stored hash: the result
    /// depends on nothing else.
    pub fn calculate_hash(
        index: u64,
        timestamp: i64,
        transactions: &Vec<Transaction>,
        prev_hash: &str,
    ) -> (h: String)
        ensures
            h@ == block_hash_of(index, timestamp, transactions.deep_view(), prev_hash@),
    {
        let mut material = u64_to_string(index);
        material.append(i64_to_string(timestamp).as_str());
        material.append(serialize_transactions(transactions).as_str());
        material.append(prev_hash);
        let digest = sha256_digest(material.as_str());
        to_hex(&digest)
    }
}

/// The outcome of applying one transaction during mining. Failures are
/// recorded, not fatal: they abort neither the batch nor the chain.
#[derive(Debug, Clone, Copy, PartialEq, Eq, Structural)]
pub enum TxOutcome {
    Succeeded,
    DuplicateAccount,
    AccountNotFound,
    InsufficientBalance,
    BalanceOverflow,
}

/// The outcome reported for a ledger failure.
pub open spec fn outcome_of_error(e: LedgerError) -> TxOutcome {
    match e {
        LedgerError::AccountNotFound => TxOutcome::AccountNotFound,
        LedgerError::InsufficientBalance => TxOutcome::InsufficientBalance,
        LedgerError::DuplicateAccount => TxOutcome::DuplicateAccount,
        LedgerError::BalanceOverflow => TxOutcome::BalanceOverflow,
    }
}

/// The ledger after one transaction.
pub open spec fn apply_tx_state(m: Map<Seq<char>, u64>, t: TransactionView) -> Map<Seq<char>, u64> {
    match t {
        TransactionView::CreateAccount { account_id, balance } => {
            apply_create(m, account_id, balance)
        },
        TransactionView::Transfer { from_account, to_account, amount } => {
            apply_transfer(m, from_account, to_account, amount)
        },
    }
}

/// The outcome of one transaction against ledger state `m`.
pub open spec fn tx_outcome(m: Map<Seq<char>, u64>, t: TransactionView) -> TxOutcome {
    match t {
        TransactionView::CreateAccount { account_id, balance } => {
            if m.dom().contains(account_id) {
                TxOutcome::DuplicateAccount
            } else {
                TxOutcome::Succeeded
            }
        },
        TransactionView::Transfer { from_account, to_account, amount } => {
            match transfer_result(m, from_account, to_account, amount) {
                Ok(u) => TxOutcome::Succeeded,
                Err(e) => outcome_of_error(e),
            }
        },
    }
}

/// The balance a transaction mints: a successful creation adds its initial
/// balance, everything else adds nothing.
pub open spec fn tx_minted(m: Map<Seq<char>, u64>, t: TransactionView) -> int {
    match t {
        TransactionView::CreateAccount { account_id, balance } => {
            if m.dom().contains(account_id) {
                0
            } else {
                balance as int
            }
        },
        TransactionView::Transfer { from_account, to_account, amount } => 0,
    }
}

/// The ledger after a batch, applied in order; failures skip their transaction
/// and roll nothing back.
pub open spec fn apply_batch(m: Map<Seq<char>, u64>, txs: Seq<TransactionView>) -> Map<
    Seq<char>,
    u64,
>
    decreases txs.len(),
{
    if txs.len() == 0 {
        m
    } else {
        apply_batch(apply_tx_state(m, txs[0]), txs.drop_first())
    }
}

/// The per-transaction outcomes of a batch, in batch order.
pub open spec fn batch_outcomes(m: Map<Seq<char>, u64>, txs: Seq<TransactionView>) -> Seq<TxOutcome>
    decreases txs.len(),
{
    if txs.len() == 0 {
        Seq::empty()
    } else {
        seq![tx_outcome(m, txs[0])] + batch_outcomes(apply_tx_state(m, txs[0]), txs.drop_first())
    }
}

/// The total balance a batch mints. Transfers mint nothing, so the sum of all
/// balances changes across a batch by exactly this amount.
pub open spec fn batch_minted(m: Map<Seq<char>, u64>, txs: Seq<TransactionView>) -> int
    decreases txs.len(),
{
    if txs.len() == 0 {
        0
    } else {
        tx_minted(m, txs[0]) + batch_minted(apply_tx_state(m, txs[0]), txs.drop_first())
    }
}

/// Extending a batch by one transaction applies it to, and judges it against,
/// the state the shorter batch reaches.
proof fn lemma_batch_snoc(m: Map<Seq<char>, u64>, txs: Seq<TransactionView>, t: TransactionView)
    ensures
        apply_batch(m, txs.push(t)) == apply_tx_state(apply_batch(m, txs), t),
        batch_outcomes(m, txs.push(t)) == batch_outcomes(m, txs).push(
            tx_outcome(apply_batch(m, txs), t),
        ),
        batch_minted(m, txs.push(t)) == batch_minted(m, txs) + tx_minted(apply_batch(m, txs), t),
    decreases txs.len(),
{
    let e = Seq::<TransactionView>::empty();
    let m1 = apply_tx_state(m, t);
    if txs.len() == 0 {
        assert(txs.push(t)[0] == t);
        assert(txs.push(t).drop_first() =~= e);
        assert(apply_batch(m1, e) == m1);
        assert(batch_outcomes(m1, e) =~= Seq::<TxOutcome>::empty());
        assert(batch_minted(m1, e) == 0);
        assert(apply_batch(m, txs) == m);
        assert(batch_outcomes(m, txs) =~= Seq::<TxOutcome>::empty());
        assert(batch_minted(m, txs) == 0);
        assert(apply_batch(m, txs.push(t)) == apply_batch(m1, e));
        assert(batch_outcomes(m, txs.push(t)) == seq![tx_outcome(m, t)] + batch_outcomes(m1, e));
        assert(batch_minted(m, txs.push(t)) == tx_minted(m, t) + batch_minted(m1, e));
        assert(batch_outcomes(m, txs.push(t)) =~= batch_outcomes(m, txs).push(
            tx_outcome(apply_batch(m, txs), t),
        ));
    } else {
        let m2 = apply_tx_state(m, txs[0]);
        assert(txs.push(t)[0] == txs[0]);
        assert(txs.push(t).drop_first() =~= txs.drop_first().push(t));
        lemma_batch_snoc(m2, txs.drop_first(), t);
        assert(apply_batch(m, txs.push(t)) == apply_batch(m2, txs.drop_first().push(t)));
        assert(batch_outcomes(m, txs.push(t)) == seq![tx_outcome(m, txs[0])] + batch_outcomes(
            m2,
            txs.drop_first().push(t),
        ));
        assert(batch_minted(m, txs.push(t)) == tx_minted(m, txs[0]) + batch_minted(
            m2,
            txs.drop_first().push(t),
        ));
        assert(apply_batch(m, txs) == apply_batch(m2, txs.drop_first()));
        assert(batch_outcomes(m, txs) == seq![tx_outcome(m, txs[0])] + batch_outcomes(
            m2,
            txs.drop_first(),
        ));
        assert(batch_minted(m, txs) == tx_minted(m, txs[0]) + batch_minted(m2, txs.drop_first()));
        assert(batch_outcomes(m, txs.push(t)) =~= batch_outcomes(m, txs).push(
            tx_outcome(apply_batch(m, txs), t),
        ));
    }
}

/// A batch holding only transfers mints nothing: applied to any ledger state,
/// it conserves the total of all balances, whether each transfer succeeds or
/// fails.
pub proof fn lemma_transfers_conserve_total(m: Map<Seq<char>, u64>, txs: Seq<TransactionView>)
    requires
        forall|k: int| 0 <= k < txs.len() ==> (#[trigger] txs[k]) is Transfer,
    ensures
        batch_minted(m, txs) == 0,
    decreases txs.len(),
{
    if txs.len() > 0 {
        assert(txs[0] is Transfer);
        assert forall|k: int| 0 <= k < txs.drop_first().len() implies (#[trigger] txs.drop_first()[k]) is Transfer by {
            assert(txs.drop_first()[k] == txs[k + 1]);
        }
        lemma_transfers_conserve_total(apply_tx_state(m, txs[0]), txs.drop_first());
    }
}

/// A well-formed chain: the genesis block at index zero with the sentinel
/// predecessor hash and no transactions, sequential indexes, each block
/// linking to its predecessor's hash, and every stored hash matching its
/// block's own stored fields.
pub open spec fn chain_wf(c: Seq<Block>) -> bool {
    &&& c.len() >= 1
    &&& c[0].prev_hash@ == seq!['0']
    &&& c[0].transactions@ == Seq::<Transaction>::empty()
    &&& forall|i: int| 0 <= i < c.len() ==> (#[trigger] c[i]).index as int == i
    &&& forall|i: int| 1 <= i < c.len() ==> (#[trigger] c[i]).prev_hash@ == c[i - 1].hash@
    &&& forall|i: int| 0 <= i < c.len() ==> block_wf(#[trigger] c[i])
}

/// The whole ledger service state: the chain, the in-memory pending queue, and
/// the account balances.
pub struct Blockchain {
    pub chain: Vec<Block>,
    pub pending_transactions: Vec<Transaction>,
    pub accounts: AccountsDatabase,
}

impl Blockchain {
    /// The service state is well formed when its chain is.
    pub open spec fn wf(&self) -> bool {
        chain_wf(self.chain@)
    }

    /// A fresh service: only the genesis block, no pending transactions, no
    /// accounts.
    pub fn new() -> (r: Blockchain)
        ensures
            r.wf(),
            r.chain@.len() == 1,
            r.chain@[0].index == 0,
            r.chain@[0].transactions@ == Seq::<Transaction>::empty(),
            r.chain@[0].prev_hash@ == seq!['0'],
            r.pending_transactions@ == Seq::<Transaction>::empty(),
            r.accounts@ == Map::<Seq<char>, u64>::empty(),
            r.accounts.total() == 0,
    {
        proof {
            reveal_strlit("0");
        }
        let genesis_block = Block::new(0, Vec::new(), "0".to_owned());
        let mut chain: Vec<Block> = Vec::new();
        chain.push(genesis_block);
        let r = Blockchain {
            chain,
            pending_transactions: Vec::new(),
            accounts: AccountsDatabase::new(),
        };
        proof {
            assert(r.chain@[0].prev_hash@ =~= seq!['0']);
        }
        r
    }

    /// Queues one transaction for the next mining tick; nothing else changes.
    pub fn add_transaction(&mut self, transaction: Transaction)
        ensures
            final(self).pending_transactions@ == old(self).pending_transactions@.push(transaction),
            final(self).chain == old(self).chain,
            final(self).accounts == old(self).accounts,
    {
        self.pending_transactions.push(transaction);
    }

    /// Applies every transaction of the batch to the accounts, in order,
    /// returning each transaction's outcome. A failure skips its transaction
    /// and rolls nothing back; the chain and the pending queue are untouched,
    /// and the total of all balances grows by exactly what the batch mints.
    #[verifier::loop_isolation(false)]
    pub fn execute_transaction(&mut self, transactions: &Vec<Transaction>) -> (outcomes: Vec<
        TxOutcome,
    >)
        ensures
            final(self).accounts@ == apply_batch(old(self).accounts@, transactions.deep_view()),
            final(self).accounts.total() == old(self).accounts.total() + batch_minted(
                old(self).accounts@,
                transactions.deep_view(),
            ),
            outcomes@ == batch_outcomes(old(self).accounts@, transactions.deep_view()),
            final(self).chain == old(self).chain,
            final(self).pending_transactions == old(self).pending_transactions,
    {
        let ghost m0 = self.accounts@;
        let ghost txsv = transactions.deep_view();
        let mut outcomes: Vec<TxOutcome> = Vec::new();
        let mut i: usize = 0;
        while i < transactions.len()
            invariant
                i <= txsv.len(),
                self.accounts@ == apply_batch(m0, txsv.take(i as int)),
                self.accounts.total() == old(self).accounts.total() + batch_minted(
                    m0,
                    txsv.take(i as int),
                ),
                outcomes@ == batch_outcomes(m0, txsv.take(i as int)),
                self.chain == old(self).chain,
                self.pending_transactions == old(self).pending_transactions,
            decreases txsv.len() - i,
        {
            let ghost m_before = self.accounts@;
            let t = &transactions[i];
            let outcome = match &t.transaction_type {
                TransactionType::CreateAccount { account_id, balance } => {
                    match self.accounts.create_account(account_id.clone(), *balance) {
                        Ok(_) => TxOutcome::Succeeded,
                        Err(_) => TxOutcome::DuplicateAccount,
                    }
                },
                TransactionType::Transfer { from_account, to_account, amount } => {
                    match self.accounts.transfer(
                        from_account.as_str(),
                        to_account.as_str(),
                        *amount,
                    ) {
                        Ok(_) => TxOutcome::Succeeded,
                        Err(e) => match e {
                            LedgerError::AccountNotFound => TxOutcome::AccountNotFound,
                            LedgerError::InsufficientBalance => TxOutcome::InsufficientBalance,
                            LedgerError::DuplicateAccount => TxOutcome::DuplicateAccount,
                            LedgerError::BalanceOverflow => TxOutcome::BalanceOverflow,
                        },
                    }
                },
            };
            outcomes.push(outcome);
            proof {
                assert(self.accounts@ == apply_tx_state(m_before, txsv[i as int]));
                assert(outcome == tx_outcome(m_before, txsv[i as int]));
                assert(txsv.take(i as int).push(txsv[i as int]) =~= txsv.take(i + 1));
                lemma_batch_snoc(m0, txsv.take(i as int), txsv[i as int]);
            }
            i = i + 1;
        }
        proof {
            assert(txsv.take(txsv.len() as int) =~= txsv);
        }
        outcomes
    }

    /// One mining tick. The batch is the drained durable log followed by the
    /// in-memory pending queue; every transaction is applied (failures are
    /// recorded, not fatal), and one new block holding exactly the batch is
    /// appended, linked to the previous block's hash.
    pub fn mine_block(&mut self, logged: Vec<Transaction>) -> (outcomes: Vec<TxOutcome>)
        requires
            old(self).wf(),
        ensures
            final(self).wf(),
            final(self).pending_transactions@ == Seq::<Transaction>::empty(),
            final(self).accounts@ == apply_batch(
                old(self).accounts@,
                logged.deep_view() + old(self).pending_transactions.deep_view(),
            ),
            final(self).accounts.total() == old(self).accounts.total() + batch_minted(
                old(self).accounts@,
                logged.deep_view() + old(self).pending_transactions.deep_view(),
            ),
            outcomes@ == batch_outcomes(
                old(self).accounts@,
                logged.deep_view() + old(self).pending_transactions.deep_view(),
            ),
            final(self).chain@.len() == old(self).chain@.len() + 1,
            final(self).chain@.drop_last() == old(self).chain@,
            final(self).chain@.last().index as int == old(self).chain@.len(),
            final(self).chain@.last().prev_hash@ == old(self).chain@.last().hash@,
            final(self).chain@.last().transactions@ == logged@
                + old(self).pending_transactions@,
            block_wf(final(self).chain@.last()),
    {
        let ghost logged0 = logged;
        let ghost pending0 = old(self).pending_transactions;
        let mut batch = logged;
        batch.append(&mut self.pending_transactions);
        proof {
            assert(batch.deep_view() =~= logged0.deep_view() + pending0.deep_view());
        }
        let outcomes = self.execute_transaction(&batch);
        let prev_hash = self.chain[self.chain.len() - 1].hash.clone();
        let index = self.chain.len() as u64;
        let ghost c0 = self.chain@;
        let block = Block::new(index, batch, prev_hash);
        self.chain.push(block);
        proof {
            let c1 = self.chain@;
            assert(c1.drop_last() =~= c0);
            assert(c1.last() == block);
            assert(c1[c0.len() as int] == block);
            assert forall|i: int| 0 <= i < c0.len() implies c1[i] == c0[i] by {}
            assert forall|i: int| 0 <= i < c1.len() implies (#[trigger] c1[i]).index as int
                == i by {
                if i < c0.len() {
                    assert(c1[i] == c0[i]);
                }
            }
            assert forall|i: int| 1 <= i < c1.len() implies (#[trigger] c1[i]).prev_hash@ == c1[i
                - 1].hash@ by {
                if i < c0.len() {
                    assert(c1[i] == c0[i]);
                    assert(c1[i - 1] == c0[i - 1]);
                } else {
                    assert(c1[i] == block);
                    assert(c1[i - 1] == c0[i - 1]);
                }
            }
            assert forall|i: int| 0 <= i < c1.len() implies block_wf(#[trigger] c1[i]) by {
                if i < c0.len() {
                    assert(c1[i] == c0[i]);
                }
            }
            assert(chain_wf(c1));
        }
        outcomes
    }
}

/// In a well-formed chain, every block after the genesis links to its
/// predecessor's stored hash, and every block's stored hash is reproduced by
/// hashing its own stored fields.
pub proof fn lemma_chain_linked(c: Seq<Block>, i: int)
    requires
        chain_wf(c),
        0 < i < c.len(),
    ensures
        c[i].prev_hash@ == c[i - 1].hash@,
        c[i].hash@ == block_hash_of(
            c[i].index,
            c[i].timestamp,
            c[i].transactions.deep_view(),
            c[i].prev_hash@,
        ),
{
}

} // verus!
