use vstd::prelude::*;

verus! {

/// What a debit reports: whether it was granted, and the balance after it.
#[derive(Clone, Copy, Debug, PartialEq, Eq, Structural)]
pub struct TakeOutcome {
    pub ok: bool,
    pub remaining_uj: u64,
}

/// The accumulated energy available to be spent, in microjoules.
#[derive(Clone, Copy, Debug, PartialEq, Eq, Structural)]
pub struct Ledger {
    pub balance_uj: u64,
}

/// Balance after a credit; it stops at the largest representable amount.
pub open spec fn credited(balance: u64, amount: u64) -> u64 {
    if balance + amount > u64::MAX {
        u64::MAX
    } else {
        (balance + amount) as u64
    }
}

/// Balance and report after a debit: granted exactly when the balance covers it.
pub open spec fn debited(balance: u64, amount: u64) -> (u64, TakeOutcome) {
    if balance >= amount {
        ((balance - amount) as u64, TakeOutcome { ok: true, remaining_uj: (balance - amount) as u64 })
    } else {
        (balance, TakeOutcome { ok: false, remaining_uj: balance })
    }
}

impl Ledger {
    /// An empty ledger.
    pub fn new() -> (r: Ledger)
        ensures
            r.balance_uj == 0,
    {
        Ledger { balance_uj: 0 }
    }

    /// A ledger that starts with the given balance.
    pub fn with_balance(balance_uj: u64) -> (r: Ledger)
        ensures
            r.balance_uj == balance_uj,
    {
        Ledger { balance_uj }
    }

    /// Adds integrated energy to the balance.
    pub fn credit(&mut self, amount_uj: u64)
        ensures
            final(self).balance_uj == credited(old(self).balance_uj, amount_uj),
    {
        if self.balance_uj > u64::MAX - amount_uj {
            self.balance_uj = u64::MAX;
        } else {
            self.balance_uj = self.balance_uj + amount_uj;
        }
    }

    /// Checks and subtracts in one step: when the balance covers the amount it
    /// is reduced by it and the debit is granted; otherwise nothing changes.
    pub fn take(&mut self, amount_uj: u64) -> (r: TakeOutcome)
        ensures
            (final(self).balance_uj, r) == debited(old(self).balance_uj, amount_uj),
            r.ok <==> old(self).balance_uj >= amount_uj,
            r.remaining_uj == final(self).balance_uj,
    {
        if self.balance_uj >= amount_uj {
            self.balance_uj = self.balance_uj - amount_uj;
            TakeOutcome { ok: true, remaining_uj: self.balance_uj }
        } else {
            TakeOutcome { ok: false, remaining_uj: self.balance_uj }
        }
    }
}

/// One mutation of the ledger, in the order in which the lock admitted it.
#[derive(Clone, Copy, Debug, PartialEq, Eq, Structural)]
pub enum LedgerOp {
    Credit(u64),
    Debit(u64),
}

/// Balance after applying the operations in order.
pub open spec fn replay(balance: u64, ops: Seq<LedgerOp>) -> u64
    decreases ops.len(),
{
    if ops.len() == 0 {
        balance
    } else {
        let before = replay(balance, ops.drop_last());
        match ops.last() {
            LedgerOp::Credit(a) => credited(before, a),
            LedgerOp::Debit(a) => debited(before, a).0,
        }
    }
}

/// Sum of the debits that were granted.
pub open spec fn granted_total(balance: u64, ops: Seq<LedgerOp>) -> int
    decreases ops.len(),
{
    if ops.len() == 0 {
        0
    } else {
        let before = replay(balance, ops.drop_last());
        granted_total(balance, ops.drop_last()) + match ops.last() {
            LedgerOp::Credit(_) => 0,
            LedgerOp::Debit(a) => if debited(before, a).1.ok { a as int } else { 0 },
        }
    }
}

/// Sum of all credits.
pub open spec fn credit_total(ops: Seq<LedgerOp>) -> int
    decreases ops.len(),
{
    if ops.len() == 0 {
        0
    } else {
        credit_total(ops.drop_last()) + match ops.last() {
            LedgerOp::Credit(a) => a as int,
            LedgerOp::Debit(_) => 0,
        }
    }
}

/// Whatever the interleaving of credits and debits, the granted debits never
/// sum to more than the starting balance plus the credits that came before
/// them, and the balance left accounts for the difference: exactly, whenever
/// the starting balance plus all credits fits the ledger (below it only where
/// a credit met the largest representable balance). Since this holds for
/// every prefix, it holds at the moment each debit is granted; the balance is
/// never negative.
pub proof fn lemma_debits_covered(balance: u64, ops: Seq<LedgerOp>)
    ensures
        granted_total(balance, ops) + replay(balance, ops) <= balance + credit_total(ops),
        granted_total(balance, ops) <= balance + credit_total(ops),
        credit_total(ops) >= 0,
        granted_total(balance, ops) >= 0,
        balance + credit_total(ops) <= u64::MAX ==> granted_total(balance, ops) + replay(
            balance,
            ops,
        ) == balance + credit_total(ops),
    decreases ops.len(),
{
    if ops.len() > 0 {
        let prev = ops.drop_last();
        lemma_debits_covered(balance, prev);
        let before = replay(balance, prev);
        match ops.last() {
            LedgerOp::Credit(a) => {
                assert(credit_total(ops) == credit_total(prev) + a);
                if balance + credit_total(ops) <= u64::MAX {
                    assert(before + a <= u64::MAX);
                }
            },
            LedgerOp::Debit(a) => {
                assert(credit_total(ops) == credit_total(prev));
            },
        }
    }
}

/// The bound holds at every point of the sequence: after each operation, the
/// debits granted so far sum to at most the starting balance plus the credits
/// so far.
pub proof fn lemma_debits_covered_at_each_step(balance: u64, ops: Seq<LedgerOp>)
    ensures
        forall|k: int|
            0 <= k <= ops.len() ==> #[trigger] granted_total(balance, ops.take(k)) <= balance
                + credit_total(ops.take(k)),
{
    assert forall|k: int| 0 <= k <= ops.len() implies #[trigger] granted_total(
        balance,
        ops.take(k),
    ) <= balance + credit_total(ops.take(k)) by {
        lemma_debits_covered(balance, ops.take(k));
    }
}

} // verus!
