use crate::amount::lemma_add_units;
use crate::engine::lemma_next_keeps_inv;
use crate::engine::next;
use crate::engine::Account;
use crate::engine::Ledger;
use crate::engine::ProcessingError;
use crate::engine::Transaction;
use crate::engine::TransactionType;
use vstd::prelude::*;

verus! {

/// The outcome of applying the records in order, stopping at the first error.
pub open spec fn run(l: Ledger, txs: Seq<Transaction>) -> Result<Ledger, ProcessingError>
    decreases txs.len(),
{
    if txs.len() == 0 {
        Ok(l)
    } else {
        match run(l, txs.drop_last()) {
            Ok(m) => next(m, txs.last()),
            Err(e) => Err(e),
        }
    }
}

/// What the deposits among `txs` bring to client `c`, in units.
pub open spec fn deposited(txs: Seq<Transaction>, c: u16) -> int
    decreases txs.len(),
{
    if txs.len() == 0 {
        0
    } else {
        let tx = txs.last();
        deposited(txs.drop_last(), c) + if tx.client_id == c && tx.tx_type
            == TransactionType::Deposit && tx.spec_amount() is Some {
            tx.spec_amount()->0.units()
        } else {
            0
        }
    }
}

/// At every point of a run, every account's total is its available plus its
/// held funds.
pub proof fn lemma_run_keeps_balance(l: Ledger, txs: Seq<Transaction>)
    requires
        l.inv(),
    ensures
        run(l, txs) matches Ok(m) ==> m.inv() && forall|c: u16| #[trigger]
            m.accounts.contains_key(c) ==> m.accounts[c].total.units()
                == m.accounts[c].available.units() + m.accounts[c].held.units(),
    decreases txs.len(),
{
    if txs.len() > 0 {
        lemma_run_keeps_balance(l, txs.drop_last());
        if let Ok(m) = run(l, txs.drop_last()) {
            lemma_next_keeps_inv(m, txs.last());
        }
    }
    if let Ok(m) = run(l, txs) {
        assert forall|c: u16| #[trigger] m.accounts.contains_key(c) implies m.accounts[c].wf() by {}
    }
}

/// Once an account is locked nothing changes it: a record of that client
/// leaves the whole state as it was, and a record of any other client leaves
/// that account as it was.
pub proof fn lemma_locked_account_frozen(l: Ledger, tx: Transaction, c: u16)
    requires
        l.accounts.contains_key(c),
        l.accounts[c].locked,
    ensures
        tx.client_id == c ==> next(l, tx) == Ok::<Ledger, ProcessingError>(l),
        next(l, tx) matches Ok(m) ==> m.accounts.contains_key(c) && m.accounts[c]
            == l.accounts[c],
{
    if tx.client_id == c {
        assert(l.accounts.insert(c, l.accounts[c]) =~= l.accounts);
    }
}

/// A locked account stays as it is through any run of records.
pub proof fn lemma_locked_account_stays(l: Ledger, txs: Seq<Transaction>, c: u16)
    requires
        l.accounts.contains_key(c),
        l.accounts[c].locked,
    ensures
        run(l, txs) matches Ok(m) ==> m.accounts.contains_key(c) && m.accounts[c]
            == l.accounts[c],
    decreases txs.len(),
{
    if txs.len() > 0 {
        lemma_locked_account_stays(l, txs.drop_last(), c);
        if let Ok(m) = run(l, txs.drop_last()) {
            lemma_locked_account_frozen(m, txs.last(), c);
        }
    }
}

/// A resolve or chargeback of a transaction that is not under dispute leaves
/// the state as it was, for a client that already has an account.
pub proof fn lemma_settling_undisputed_is_noop(l: Ledger, tx: Transaction)
    requires
        tx.tx_type == TransactionType::Resolve || tx.tx_type == TransactionType::Chargeback,
        !l.disputed.contains(tx.tx_id),
        l.accounts.contains_key(tx.client_id),
    ensures
        next(l, tx) == Ok::<Ledger, ProcessingError>(l),
{
    assert(l.accounts.insert(tx.client_id, l.accounts[tx.client_id]) =~= l.accounts);
}

/// After a run of deposits alone, nothing is held or locked, and each
/// client's available funds and total are both the sum of what the client
/// deposited; a client without an account deposited nothing.
pub proof fn lemma_deposits_only(txs: Seq<Transaction>)
    requires
        forall|i: int| 0 <= i < txs.len() ==> #[trigger] txs[i].tx_type == TransactionType::Deposit,
    ensures
        run(Ledger::empty(), txs) matches Ok(l) ==> forall|c: u16|
            {
                &&& (#[trigger] l.accounts.contains_key(c)) ==> {
                    &&& l.accounts[c].held.units() == 0
                    &&& l.accounts[c].available.units() == deposited(txs, c)
                    &&& l.accounts[c].total.units() == deposited(txs, c)
                    &&& !l.accounts[c].locked
                    &&& l.accounts[c].available.wf()
                    &&& l.accounts[c].total.wf()
                }
                &&& !l.accounts.contains_key(c) ==> deposited(txs, c) == 0
            },
    decreases txs.len(),
{
    if txs.len() > 0 {
        let pre = txs.drop_last();
        assert forall|i: int| 0 <= i < pre.len() implies #[trigger] pre[i].tx_type
            == TransactionType::Deposit by {
            assert(pre[i] == txs[i]);
        }
        lemma_deposits_only(pre);
        assert(txs.last() == txs[txs.len() - 1]);
        if let Ok(m) = run(Ledger::empty(), pre) {
            let tx = txs.last();
            let c0 = tx.client_id;
            let acct = m.account(c0);
            assert(acct.available.wf() && acct.total.wf()) by {
                if m.accounts.contains_key(c0) {
                    assert(m.accounts.contains_key(c0));
                }
            }
            assert(!acct.locked) by {
                if m.accounts.contains_key(c0) {
                    assert(m.accounts.contains_key(c0));
                }
            }
            if let Some(a) = tx.spec_amount() {
                lemma_add_units(acct.available, a);
                lemma_add_units(acct.total, a);
            }
            if let Ok(l) = run(Ledger::empty(), txs) {
                assert forall|c: u16| #[trigger] l.accounts.contains_key(c) || true by {
                    if c != c0 {
                        assert(deposited(txs, c) == deposited(pre, c));
                        if l.accounts.contains_key(c) {
                            assert(m.accounts.contains_key(c));
                        }
                    } else {
                        assert(m.accounts.contains_key(c) ==> m.accounts[c] == acct);
                    }
                }
            }
        }
    }
}

} // verus!
