use crate::amount::lemma_add_units;
use crate::amount::lemma_sub_units;
use crate::amount::spec_parse;
use crate::amount::Amount;
use std::collections::HashMap;
use std::collections::HashSet;
use vstd::prelude::*;

verus! {

broadcast use vstd::std_specs::hash::group_hash_axioms;

/// The five kinds of record that the engine applies.
#[derive(Clone, Copy, Debug, PartialEq, Eq, Structural)]
pub enum TransactionType {
    Deposit,
    Withdrawal,
    Dispute,
    Resolve,
    Chargeback,
}

/// Why a record could not be applied.
#[derive(Clone, Copy, Debug, PartialEq, Eq, Structural)]
pub enum ProcessingError {
    /// A deposit or withdrawal whose amount is missing or is no decimal.
    AmountError,
    /// A retained record that is neither a deposit nor a withdrawal.
    InvalidReferenceError,
    /// A balance that would leave the range an amount can hold.
    Overflow,
}

/// One input record. For a dispute, resolve or chargeback `tx_id` names the
/// deposit or withdrawal that it refers to.
#[derive(Debug)]
pub struct Transaction {
    pub tx_type: TransactionType,
    pub client_id: u16,
    pub tx_id: u32,
    pub amount: Option<String>,
}

impl Transaction {
    pub fn from(
        tx_type: TransactionType,
        client_id: u16,
        tx_id: u32,
        amount: Option<String>,
    ) -> (r: Transaction)
        ensures
            r.tx_type == tx_type,
            r.client_id == client_id,
            r.tx_id == tx_id,
            r.amount == amount,
    {
        Transaction { tx_type, client_id, tx_id, amount }
    }

    /// The amount the record carries, where it has one and it is a decimal.
    pub open spec fn spec_amount(self) -> Option<Amount> {
        match self.amount {
            Some(s) => spec_parse(s@),
            None => None,
        }
    }

    pub fn amount(&self) -> (r: Result<Amount, ProcessingError>)
        ensures
            match self.spec_amount() {
                Some(a) => r == Ok::<Amount, ProcessingError>(a) && a.wf(),
                None => r == Err::<Amount, ProcessingError>(ProcessingError::AmountError),
            },
    {
        match &self.amount {
            Some(s) => match Amount::parse(s.as_str()) {
                Some(a) => Ok(a),
                None => Err(ProcessingError::AmountError),
            },
            None => Err(ProcessingError::AmountError),
        }
    }
}

/// The balances of one client.
#[derive(Clone, Copy, Debug)]
pub struct Account {
    pub available: Amount,
    pub held: Amount,
    pub total: Amount,
    pub locked: bool,
}

impl Account {
    pub open spec fn spec_new() -> Account {
        Account {
            available: Amount { mantissa: 0, scale: 0 },
            held: Amount { mantissa: 0, scale: 0 },
            total: Amount { mantissa: 0, scale: 0 },
            locked: false,
        }
    }

    /// An account with nothing in it, open.
    pub fn new() -> (r: Account)
        ensures
            r == Account::spec_new(),
    {
        Account {
            available: Amount::zero(),
            held: Amount::zero(),
            total: Amount::zero(),
            locked: false,
        }
    }

    /// Every balance is well formed and the total is what is available plus
    /// what is held.
    pub open spec fn wf(self) -> bool {
        &&& self.available.wf()
        &&& self.held.wf()
        &&& self.total.wf()
        &&& self.total.units() == self.available.units() + self.held.units()
    }
}

/// A client's account together with the client's id.
#[derive(Clone, Copy, Debug)]
pub struct AccountWithId {
    pub id: u16,
    pub account: Account,
}

/// A deposit or withdrawal kept so that later records can refer to it.
#[derive(Clone, Copy, Debug)]
pub struct StoredTransaction {
    pub kind: TransactionType,
    pub amount: Amount,
}

impl StoredTransaction {
    pub open spec fn wf(self) -> bool {
        &&& self.amount.wf()
        &&& (self.kind == TransactionType::Deposit || self.kind == TransactionType::Withdrawal)
    }
}

/// How a transition moves one balance by a transaction's amount.
#[derive(Clone, Copy, Debug, PartialEq, Eq, Structural)]
pub enum Move {
    Keep,
    Up,
    Down,
}

/// The change that a move makes, in multiples of the amount.
pub open spec fn delta(m: Move) -> int {
    match m {
        Move::Keep => 0,
        Move::Up => 1,
        Move::Down => -1,
    }
}

pub open spec fn moved(x: Amount, m: Move, a: Amount) -> Option<Amount> {
    match m {
        Move::Keep => Some(x),
        Move::Up => x.spec_add(a),
        Move::Down => x.spec_sub(a),
    }
}

/// The account with its available, held and total balances moved by `a`,
/// or `None` where one of them would not fit.
pub open spec fn adjusted(acct: Account, av: Move, held: Move, total: Move, a: Amount) -> Option<
    Account,
> {
    match moved(acct.available, av, a) {
        Some(v) => match moved(acct.held, held, a) {
            Some(h) => match moved(acct.total, total, a) {
                Some(t) => Some(Account { available: v, held: h, total: t, locked: acct.locked }),
                None => None,
            },
            None => None,
        },
        None => None,
    }
}

/// The effect of a dispute, resolve or chargeback on `acct`, given the moves
/// it makes when it refers to a deposit and when it refers to a withdrawal.
pub open spec fn reversal(
    acct: Account,
    st: StoredTransaction,
    on_deposit: (Move, Move, Move),
    on_withdrawal: (Move, Move, Move),
) -> Result<Account, ProcessingError> {
    let m = if st.kind == TransactionType::Deposit {
        on_deposit
    } else {
        on_withdrawal
    };
    if st.kind == TransactionType::Deposit || st.kind == TransactionType::Withdrawal {
        match adjusted(acct, m.0, m.1, m.2, st.amount) {
            Some(n) => Ok(n),
            None => Err(ProcessingError::Overflow),
        }
    } else {
        Err(ProcessingError::InvalidReferenceError)
    }
}

/// Moves of (available, held, total) when a deposit is disputed.
pub open spec fn dispute_deposit() -> (Move, Move, Move) {
    (Move::Down, Move::Up, Move::Keep)
}

/// Moves when a withdrawal is disputed: it is provisionally reversed into
/// held funds.
pub open spec fn dispute_withdrawal() -> (Move, Move, Move) {
    (Move::Keep, Move::Up, Move::Up)
}

pub open spec fn resolve_deposit() -> (Move, Move, Move) {
    (Move::Up, Move::Down, Move::Keep)
}

pub open spec fn resolve_withdrawal() -> (Move, Move, Move) {
    (Move::Keep, Move::Down, Move::Down)
}

pub open spec fn chargeback_deposit() -> (Move, Move, Move) {
    (Move::Keep, Move::Down, Move::Down)
}

pub open spec fn chargeback_withdrawal() -> (Move, Move, Move) {
    (Move::Up, Move::Down, Move::Keep)
}

/// The state of the engine: accounts by client id, retained deposits and
/// withdrawals by transaction id, and the ids under dispute.
pub struct Ledger {
    pub accounts: Map<u16, Account>,
    pub transactions: Map<u32, StoredTransaction>,
    pub disputed: Set<u32>,
}

impl Ledger {
    pub open spec fn empty() -> Ledger {
        Ledger { accounts: Map::empty(), transactions: Map::empty(), disputed: Set::empty() }
    }

    pub open spec fn inv(self) -> bool {
        &&& forall|c: u16| self.accounts.contains_key(c) ==> #[trigger] self.accounts[c].wf()
        &&& forall|t: u32|
            self.transactions.contains_key(t) ==> #[trigger] self.transactions[t].wf()
    }

    /// The client's account, or a fresh one for a client not seen yet.
    pub open spec fn account(self, c: u16) -> Account {
        if self.accounts.contains_key(c) {
            self.accounts[c]
        } else {
            Account::spec_new()
        }
    }

    pub open spec fn with_account(self, c: u16, a: Account) -> Ledger {
        Ledger {
            accounts: self.accounts.insert(c, a),
            transactions: self.transactions,
            disputed: self.disputed,
        }
    }

    pub open spec fn with_transaction(self, t: u32, st: StoredTransaction) -> Ledger {
        Ledger {
            accounts: self.accounts,
            transactions: self.transactions.insert(t, st),
            disputed: self.disputed,
        }
    }

    pub open spec fn with_disputed(self, d: Set<u32>) -> Ledger {
        Ledger { accounts: self.accounts, transactions: self.transactions, disputed: d }
    }
}

/// The state after applying `tx`, or the error it fails with (the state then
/// stays as it was).
///
/// A record of a client not seen yet opens an empty account for the client.
/// A record of a locked account succeeds and changes nothing. A withdrawal
/// beyond the available funds, and a dispute, resolve or chargeback that
/// refers to no retained transaction (or, for the last two, to one that is not
/// under dispute), succeed and change nothing but the opening of the account.
/// A dispute of a transaction that is already under dispute is not guarded
/// against: it moves the funds again, and the id stays in the set once.
pub open spec fn next(l: Ledger, tx: Transaction) -> Result<Ledger, ProcessingError> {
    let c = tx.client_id;
    let t = tx.tx_id;
    let acct = l.account(c);
    let opened = l.with_account(c, acct);
    if acct.locked {
        Ok(opened)
    } else {
        match tx.tx_type {
            TransactionType::Deposit => match tx.spec_amount() {
                None => Err(ProcessingError::AmountError),
                Some(a) => match adjusted(acct, Move::Up, Move::Keep, Move::Up, a) {
                    None => Err(ProcessingError::Overflow),
                    Some(n) => Ok(
                        l.with_account(c, n).with_transaction(
                            t,
                            StoredTransaction { kind: TransactionType::Deposit, amount: a },
                        ),
                    ),
                },
            },
            TransactionType::Withdrawal => match tx.spec_amount() {
                None => Err(ProcessingError::AmountError),
                Some(a) => if acct.available.units() >= a.units() {
                    match adjusted(acct, Move::Down, Move::Keep, Move::Down, a) {
                        None => Err(ProcessingError::Overflow),
                        Some(n) => Ok(
                            l.with_account(c, n).with_transaction(
                                t,
                                StoredTransaction { kind: TransactionType::Withdrawal, amount: a },
                            ),
                        ),
                    }
                } else {
                    Ok(opened)
                },
            },
            TransactionType::Dispute => if l.transactions.contains_key(t) {
                match reversal(acct, l.transactions[t], dispute_deposit(), dispute_withdrawal()) {
                    Err(e) => Err(e),
                    Ok(n) => Ok(l.with_account(c, n).with_disputed(l.disputed.insert(t))),
                }
            } else {
                Ok(opened)
            },
            TransactionType::Resolve => if l.transactions.contains_key(t) && l.disputed.contains(
                t,
            ) {
                match reversal(acct, l.transactions[t], resolve_deposit(), resolve_withdrawal()) {
                    Err(e) => Err(e),
                    Ok(n) => Ok(l.with_account(c, n).with_disputed(l.disputed.remove(t))),
                }
            } else {
                Ok(opened)
            },
            TransactionType::Chargeback => if l.transactions.contains_key(t)
                && l.disputed.contains(t) {
                match reversal(
                    acct,
                    l.transactions[t],
                    chargeback_deposit(),
                    chargeback_withdrawal(),
                ) {
                    Err(e) => Err(e),
                    Ok(n) => Ok(
                        l.with_account(c, Account { locked: true, ..n }).with_disputed(
                            l.disputed.remove(t),
                        ),
                    ),
                }
            } else {
                Ok(opened)
            },
        }
    }
}

fn move_by(x: &Amount, m: Move, a: &Amount) -> (r: Option<Amount>)
    requires
        x.wf(),
        a.wf(),
    ensures
        r == moved(*x, m, *a),
{
    match m {
        Move::Keep => Some(*x),
        Move::Up => x.checked_add(a),
        Move::Down => x.checked_sub(a),
    }
}

fn adjust(acct: &Account, av: Move, held: Move, total: Move, a: &Amount) -> (r: Option<Account>)
    requires
        acct.wf(),
        a.wf(),
    ensures
        r == adjusted(*acct, av, held, total, *a),
{
    let v = match move_by(&acct.available, av, a) {
        Some(v) => v,
        None => return None,
    };
    let h = match move_by(&acct.held, held, a) {
        Some(h) => h,
        None => return None,
    };
    let t = match move_by(&acct.total, total, a) {
        Some(t) => t,
        None => return None,
    };
    Some(Account { available: v, held: h, total: t, locked: acct.locked })
}

fn reverse(
    acct: &Account,
    st: &StoredTransaction,
    on_deposit: (Move, Move, Move),
    on_withdrawal: (Move, Move, Move),
) -> (r: Result<Account, ProcessingError>)
    requires
        acct.wf(),
        st.amount.wf(),
    ensures
        r == reversal(*acct, *st, on_deposit, on_withdrawal),
{
    let m = match st.kind {
        TransactionType::Deposit => on_deposit,
        TransactionType::Withdrawal => on_withdrawal,
        _ => return Err(ProcessingError::InvalidReferenceError),
    };
    match adjust(acct, m.0, m.1, m.2, &st.amount) {
        Some(n) => Ok(n),
        None => Err(ProcessingError::Overflow),
    }
}

/// Moves that keep `total == available + held`.
pub open spec fn balanced(av: Move, held: Move, total: Move) -> bool {
    delta(av) + delta(held) == delta(total)
}

proof fn lemma_moved(x: Amount, m: Move, a: Amount)
    requires
        x.wf(),
        a.wf(),
    ensures
        moved(x, m, a) matches Some(y) ==> y.wf() && y.units() == x.units() + delta(m)
            * a.units(),
{
    lemma_add_units(x, a);
    lemma_sub_units(x, a);
}

proof fn lemma_adjusted(acct: Account, av: Move, held: Move, total: Move, a: Amount)
    requires
        acct.wf(),
        a.wf(),
        balanced(av, held, total),
    ensures
        adjusted(acct, av, held, total, a) matches Some(n) ==> n.wf() && n.locked == acct.locked,
{
    lemma_moved(acct.available, av, a);
    lemma_moved(acct.held, held, a);
    lemma_moved(acct.total, total, a);
    if let Some(n) = adjusted(acct, av, held, total, a) {
        let u = a.units();
        assert(delta(av) * u + delta(held) * u == delta(total) * u) by (nonlinear_arith)
            requires
                delta(av) + delta(held) == delta(total),
        ;
    }
}

proof fn lemma_reversal(
    acct: Account,
    st: StoredTransaction,
    on_deposit: (Move, Move, Move),
    on_withdrawal: (Move, Move, Move),
)
    requires
        acct.wf(),
        st.wf(),
        balanced(on_deposit.0, on_deposit.1, on_deposit.2),
        balanced(on_withdrawal.0, on_withdrawal.1, on_withdrawal.2),
    ensures
        reversal(acct, st, on_deposit, on_withdrawal) matches Ok(n) ==> n.wf(),
        reversal(acct, st, on_deposit, on_withdrawal) != Err::<Account, ProcessingError>(
            ProcessingError::InvalidReferenceError,
        ),
{
    lemma_adjusted(acct, on_deposit.0, on_deposit.1, on_deposit.2, st.amount);
    lemma_adjusted(acct, on_withdrawal.0, on_withdrawal.1, on_withdrawal.2, st.amount);
}

/// Every transition keeps each account's total equal to its available plus
/// its held funds, and keeps only deposits and withdrawals on record; so no
/// record is ever refused as an invalid reference.
pub proof fn lemma_next_keeps_inv(l: Ledger, tx: Transaction)
    requires
        l.inv(),
    ensures
        next(l, tx) matches Ok(m) ==> m.inv(),
        next(l, tx) != Err::<Ledger, ProcessingError>(ProcessingError::InvalidReferenceError),
{
    let c = tx.client_id;
    let acct = l.account(c);
    assert(acct.wf()) by {
        if !l.accounts.contains_key(c) {
            assert(Account::spec_new().available.units() == 0);
        }
    }
    if let Some(a) = tx.spec_amount() {
        lemma_adjusted(acct, Move::Up, Move::Keep, Move::Up, a);
        lemma_adjusted(acct, Move::Down, Move::Keep, Move::Down, a);
    }
    if l.transactions.contains_key(tx.tx_id) {
        let st = l.transactions[tx.tx_id];
        lemma_reversal(acct, st, dispute_deposit(), dispute_withdrawal());
        lemma_reversal(acct, st, resolve_deposit(), resolve_withdrawal());
        lemma_reversal(acct, st, chargeback_deposit(), chargeback_withdrawal());
    }
    if let Ok(m) = next(l, tx) {
        assert forall|k: u16| m.accounts.contains_key(k) implies #[trigger] m.accounts[k].wf() by {
            if k != c {
                assert(l.accounts.contains_key(k));
            }
        }
        assert forall|t: u32| m.transactions.contains_key(t) implies #[trigger] m.transactions[
            t
        ].wf() by {
            if t != tx.tx_id {
                assert(l.transactions.contains_key(t));
            }
        }
    }
}

/// The ledger engine: applies records one at a time and keeps every
/// client's balances.
pub struct TransactionEngine {
    accounts: HashMap<u16, Account>,
    /// The ids of all known clients, each once, in order of first appearance.
    clients: Vec<u16>,
    transactions: HashMap<u32, StoredTransaction>,
    disputed_transactions: HashSet<u32>,
}

impl View for TransactionEngine {
    type V = Ledger;

    closed spec fn view(&self) -> Ledger {
        Ledger {
            accounts: self.accounts@,
            transactions: self.transactions@,
            disputed: self.disputed_transactions@,
        }
    }
}

impl TransactionEngine {
    spec fn clients_listed(&self) -> bool {
        &&& self.clients@.no_duplicates()
        &&& forall|c: u16| self.accounts@.contains_key(c) <==> self.clients@.contains(c)
    }

    pub closed spec fn wf(&self) -> bool {
        &&& self@.inv()
        &&& self.clients_listed()
    }

    pub fn new() -> (r: TransactionEngine)
        ensures
            r.wf(),
            r@.inv(),
            r@ == Ledger::empty(),
    {
        let r = TransactionEngine {
            accounts: HashMap::new(),
            clients: Vec::new(),
            transactions: HashMap::new(),
            disputed_transactions: HashSet::new(),
        };
        proof {
            assert(r@.accounts =~= Map::empty());
            assert(r@.transactions =~= Map::empty());
            assert(r@.disputed =~= Set::empty());
        }
        r
    }

    /// Stores the client's account, listing the client if it is new.
    fn put_account(&mut self, c: u16, n: Account)
        requires
            old(self).clients_listed(),
        ensures
            final(self).clients_listed(),
            final(self)@ == old(self)@.with_account(c, n),
    {
        let ghost before = self.clients@;
        if !self.accounts.contains_key(&c) {
            proof {
                assert(!self.clients@.contains(c));
            }
            self.clients.push(c);
            proof {
                assert(self.clients@[before.len() as int] == c);
            }
        }
        self.accounts.insert(c, n);
        proof {
            assert(self.clients@ == before || self.clients@ == before.push(c));
            assert forall|k: u16|
                self.accounts@.contains_key(k) <==> #[trigger] self.clients@.contains(k) by {
                if before.contains(k) {
                    let j = choose|j: int| 0 <= j < before.len() && before[j] == k;
                    assert(self.clients@[j] == k);
                }
                if self.clients@.contains(k) && k != c {
                    let j = choose|j: int| 0 <= j < self.clients@.len() && self.clients@[j] == k;
                    assert(before[j] == k);
                }
            }
        }
    }

    /// Applies one record to the client's account. The result and the new
    /// state are those of `next`; on an error nothing changes.
    pub fn process_transaction(&mut self, tx: Transaction) -> (r: Result<(), ProcessingError>)
        requires
            old(self).wf(),
        ensures
            final(self).wf(),
            final(self)@.inv(),
            match next(old(self)@, tx) {
                Ok(l) => r is Ok && final(self)@ == l,
                Err(e) => r == Err::<(), ProcessingError>(e) && final(self)@ == old(self)@,
            },
            r != Err::<(), ProcessingError>(ProcessingError::InvalidReferenceError),
    {
        proof {
            lemma_next_keeps_inv(self@, tx);
        }
        let ghost l = self@;
        let c = tx.client_id;
        let t = tx.tx_id;
        let acct = match self.accounts.get(&c) {
            Some(a) => *a,
            None => Account::new(),
        };
        assert(acct == l.account(c));
        assert(acct.wf());
        if acct.locked {
            proof {
                assert(l.accounts.insert(c, acct) =~= l.accounts);
            }
            return Ok(());
        }
        match tx.tx_type {
            TransactionType::Deposit => {
                let a = match tx.amount() {
                    Ok(a) => a,
                    Err(e) => return Err(e),
                };
                let n = match adjust(&acct, Move::Up, Move::Keep, Move::Up, &a) {
                    Some(n) => n,
                    None => return Err(ProcessingError::Overflow),
                };
                self.put_account(c, n);
                self.transactions.insert(
                    t,
                    StoredTransaction { kind: TransactionType::Deposit, amount: a },
                );
            },
            TransactionType::Withdrawal => {
                let a = match tx.amount() {
                    Ok(a) => a,
                    Err(e) => return Err(e),
                };
                if acct.available.ge(&a) {
                    let n = match adjust(&acct, Move::Down, Move::Keep, Move::Down, &a) {
                        Some(n) => n,
                        None => return Err(ProcessingError::Overflow),
                    };
                    self.put_account(c, n);
                    self.transactions.insert(
                        t,
                        StoredTransaction { kind: TransactionType::Withdrawal, amount: a },
                    );
                } else {
                    self.put_account(c, acct);
                }
            },
            TransactionType::Dispute => {
                match self.transactions.get(&t) {
                    Some(st) => {
                        let st = *st;
                        assert(l.transactions[t].wf());
                        let n = match reverse(&acct, &st, (Move::Down, Move::Up, Move::Keep), (Move::Keep, Move::Up, Move::Up)) {
                            Ok(n) => n,
                            Err(e) => return Err(e),
                        };
                        self.put_account(c, n);
                        self.disputed_transactions.insert(t);
                    },
                    None => self.put_account(c, acct),
                }
            },
            TransactionType::Resolve => {
                match self.transactions.get(&t) {
                    Some(st) => {
                        let st = *st;
                        assert(l.transactions[t].wf());
                        if self.disputed_transactions.contains(&t) {
                            let n = match reverse(&acct, &st, (Move::Up, Move::Down, Move::Keep), (Move::Keep, Move::Down, Move::Down)) {
                                Ok(n) => n,
                                Err(e) => return Err(e),
                            };
                            self.put_account(c, n);
                            self.disputed_transactions.remove(&t);
                        } else {
                            self.put_account(c, acct);
                        }
                    },
                    None => self.put_account(c, acct),
                }
            },
            TransactionType::Chargeback => {
                match self.transactions.get(&t) {
                    Some(st) => {
                        let st = *st;
                        assert(l.transactions[t].wf());
                        if self.disputed_transactions.contains(&t) {
                            let n = match reverse(&acct, &st, (Move::Keep, Move::Down, Move::Down), (Move::Up, Move::Down, Move::Keep)) {
                                Ok(n) => n,
                                Err(e) => return Err(e),
                            };
                            self.put_account(c, Account { locked: true, ..n });
                            self.disputed_transactions.remove(&t);
                        } else {
                            self.put_account(c, acct);
                        }
                    },
                    None => self.put_account(c, acct),
                }
            },
        }
        Ok(())
    }

    /// A copy of the client's account, if the client has one.
    pub fn account(&self, c: u16) -> (r: Option<Account>)
        ensures
            r == (if self@.accounts.contains_key(c) {
                Some(self@.accounts[c])
            } else {
                None::<Account>
            }),
    {
        match self.accounts.get(&c) {
            Some(a) => Some(*a),
            None => None,
        }
    }

    /// Whether the transaction is under dispute.
    pub fn is_disputed(&self, t: u32) -> (r: bool)
        ensures
            r == self@.disputed.contains(t),
    {
        self.disputed_transactions.contains(&t)
    }

    /// Whether no transaction is under dispute.
    pub fn no_disputes(&self) -> (r: bool)
        ensures
            r == self@.disputed.is_empty(),
    {
        self.disputed_transactions.is_empty()
    }

    /// A copy of every account with its client id, each client once, in no
    /// particular order.
    pub fn retrieve_accounts(&self) -> (r: Vec<AccountWithId>)
        requires
            self.wf(),
        ensures
            forall|i: int|
                0 <= i < r@.len() ==> self@.accounts.contains_key(#[trigger] r@[i].id)
                    && self@.accounts[r@[i].id] == r@[i].account,
            forall|i: int, j: int| 0 <= i < j < r@.len() ==> r@[i].id != r@[j].id,
            forall|c: u16|
                self@.accounts.contains_key(c) ==> exists|i: int|
                    0 <= i < r@.len() && (#[trigger] r@[i].id) == c,
    {
        let mut out: Vec<AccountWithId> = Vec::new();
        let mut i: usize = 0;
        while i < self.clients.len()
            invariant
                self.wf(),
                i <= self.clients@.len(),
                out@.len() == i,
                forall|k: int|
                    0 <= k < i ==> (#[trigger] out@[k]).id == self.clients@[k]
                        && self@.accounts.contains_key(out@[k].id)
                        && self@.accounts[out@[k].id] == out@[k].account,
            decreases self.clients@.len() - i,
        {
            let c = self.clients[i];
            assert(self.clients@.contains(c));
            let a = match self.accounts.get(&c) {
                Some(a) => *a,
                None => Account::new(),
            };
            out.push(AccountWithId { id: c, account: a });
            i = i + 1;
        }
        proof {
            assert forall|c: u16| self@.accounts.contains_key(c) implies exists|i: int|
                0 <= i < out@.len() && (#[trigger] out@[i].id) == c by {
                assert(self.clients@.contains(c));
                let k = choose|k: int| 0 <= k < self.clients@.len() && self.clients@[k] == c;
                assert(out@[k].id == c);
            }
        }
        out
    }
}

} // verus!
