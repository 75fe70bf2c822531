use vstd::prelude::*;

use crate::errors::ObError;
use crate::order::{AccountId, TokenId};

verus! {

/// One sparse holding: a positive amount of one asset owned by one account.
#[derive(Clone, Copy, PartialEq, Eq, Structural, Debug)]
pub struct BalanceEntry {
    pub account_id: AccountId,
    pub token_id: TokenId,
    pub amount: u128,
}

pub open spec fn entry_matches(e: BalanceEntry, account_id: AccountId, token_id: TokenId) -> bool {
    e.account_id == account_id && e.token_id == token_id
}

/// The available balance recorded for `(account_id, token_id)`, 0 if absent.
pub open spec fn balance_in(s: Seq<BalanceEntry>, account_id: AccountId, token_id: TokenId) -> u128
    decreases s.len(),
{
    if s.len() == 0 {
        0
    } else if entry_matches(s.last(), account_id, token_id) {
        s.last().amount
    } else {
        balance_in(s.drop_last(), account_id, token_id)
    }
}

pub open spec fn token_contrib(e: BalanceEntry, token_id: TokenId) -> int {
    if e.token_id == token_id {
        e.amount as int
    } else {
        0
    }
}

/// Sum of all available balances of one asset, over every account.
pub open spec fn total_in(s: Seq<BalanceEntry>, token_id: TokenId) -> int
    decreases s.len(),
{
    if s.len() == 0 {
        0
    } else {
        total_in(s.drop_last(), token_id) + token_contrib(s.last(), token_id)
    }
}

/// Keys are unique and every stored amount is positive (zero balances are
/// removed rather than stored).
pub open spec fn ledger_wf(s: Seq<BalanceEntry>) -> bool {
    &&& (forall|i: int, j: int|
        #![trigger s[i], s[j]]
        0 <= i < j < s.len() ==> !(s[i].account_id == s[j].account_id && s[i].token_id
            == s[j].token_id))
    &&& (forall|i: int| 0 <= i < s.len() ==> s[i].amount > 0)
}

pub proof fn lemma_balance_absent(s: Seq<BalanceEntry>, account_id: AccountId, token_id: TokenId)
    requires
        forall|j: int| 0 <= j < s.len() ==> !entry_matches(s[j], account_id, token_id),
    ensures
        balance_in(s, account_id, token_id) == 0,
    decreases s.len(),
{
    if s.len() > 0 {
        lemma_balance_absent(s.drop_last(), account_id, token_id);
    }
}

pub proof fn lemma_balance_found(
    s: Seq<BalanceEntry>,
    account_id: AccountId,
    token_id: TokenId,
    i: int,
)
    requires
        0 <= i < s.len(),
        entry_matches(s[i], account_id, token_id),
        forall|j: int| 0 <= j < s.len() && j != i ==> !entry_matches(s[j], account_id, token_id),
    ensures
        balance_in(s, account_id, token_id) == s[i].amount,
    decreases s.len(),
{
    if i < s.len() - 1 {
        lemma_balance_found(s.drop_last(), account_id, token_id, i);
    }
}

/// A well-formed ledger holds at most one entry per key.
pub proof fn lemma_wf_unique(
    s: Seq<BalanceEntry>,
    account_id: AccountId,
    token_id: TokenId,
    i: int,
)
    requires
        ledger_wf(s),
        0 <= i < s.len(),
        entry_matches(s[i], account_id, token_id),
    ensures
        forall|j: int| 0 <= j < s.len() && j != i ==> !entry_matches(s[j], account_id, token_id),
{
    assert forall|j: int| 0 <= j < s.len() && j != i implies !entry_matches(
        s[j],
        account_id,
        token_id,
    ) by {
        if j < i {
            assert(!(s[j].account_id == s[i].account_id && s[j].token_id == s[i].token_id));
        } else {
            assert(!(s[i].account_id == s[j].account_id && s[i].token_id == s[j].token_id));
        }
    }
}

/// Overwriting one entry leaves every other key's balance unchanged.
pub proof fn lemma_balance_update_other(
    s: Seq<BalanceEntry>,
    i: int,
    e: BalanceEntry,
    account_id: AccountId,
    token_id: TokenId,
)
    requires
        0 <= i < s.len(),
        !entry_matches(s[i], account_id, token_id),
        !entry_matches(e, account_id, token_id),
    ensures
        balance_in(s.update(i, e), account_id, token_id) == balance_in(s, account_id, token_id),
    decreases s.len(),
{
    let s2 = s.update(i, e);
    if i == s.len() - 1 {
        assert(s2.drop_last() =~= s.drop_last());
    } else {
        assert(s2.last() == s.last());
        assert(s2.drop_last() =~= s.drop_last().update(i, e));
        lemma_balance_update_other(s.drop_last(), i, e, account_id, token_id);
    }
}

/// Removing one entry leaves every other key's balance unchanged.
pub proof fn lemma_balance_remove_other(
    s: Seq<BalanceEntry>,
    i: int,
    account_id: AccountId,
    token_id: TokenId,
)
    requires
        0 <= i < s.len(),
        !entry_matches(s[i], account_id, token_id),
    ensures
        balance_in(s.remove(i), account_id, token_id) == balance_in(s, account_id, token_id),
    decreases s.len(),
{
    let s2 = s.remove(i);
    if i == s.len() - 1 {
        assert(s2 =~= s.drop_last());
    } else {
        assert(s2.last() == s.last());
        assert(s2.drop_last() =~= s.drop_last().remove(i));
        lemma_balance_remove_other(s.drop_last(), i, account_id, token_id);
    }
}

pub proof fn lemma_balance_push(
    s: Seq<BalanceEntry>,
    e: BalanceEntry,
    account_id: AccountId,
    token_id: TokenId,
)
    ensures
        balance_in(s.push(e), account_id, token_id) == if entry_matches(e, account_id, token_id) {
            e.amount
        } else {
            balance_in(s, account_id, token_id)
        },
{
    assert(s.push(e).drop_last() =~= s);
    assert(s.push(e).last() == e);
}

pub proof fn lemma_total_nonneg(s: Seq<BalanceEntry>, token_id: TokenId)
    ensures
        total_in(s, token_id) >= 0,
    decreases s.len(),
{
    if s.len() > 0 {
        lemma_total_nonneg(s.drop_last(), token_id);
    }
}

/// No single balance exceeds the asset's ledger-wide total.
pub proof fn lemma_balance_le_total(s: Seq<BalanceEntry>, account_id: AccountId, token_id: TokenId)
    ensures
        balance_in(s, account_id, token_id) <= total_in(s, token_id),
    decreases s.len(),
{
    if s.len() > 0 {
        lemma_balance_le_total(s.drop_last(), account_id, token_id);
        lemma_total_nonneg(s.drop_last(), token_id);
    }
}

pub proof fn lemma_total_update(s: Seq<BalanceEntry>, i: int, e: BalanceEntry, token_id: TokenId)
    requires
        0 <= i < s.len(),
    ensures
        total_in(s.update(i, e), token_id) == total_in(s, token_id) - token_contrib(s[i], token_id)
            + token_contrib(e, token_id),
    decreases s.len(),
{
    let s2 = s.update(i, e);
    if i == s.len() - 1 {
        assert(s2.drop_last() =~= s.drop_last());
    } else {
        assert(s2.last() == s.last());
        assert(s2.drop_last() =~= s.drop_last().update(i, e));
        lemma_total_update(s.drop_last(), i, e, token_id);
    }
}

pub proof fn lemma_total_remove(s: Seq<BalanceEntry>, i: int, token_id: TokenId)
    requires
        0 <= i < s.len(),
    ensures
        total_in(s.remove(i), token_id) == total_in(s, token_id) - token_contrib(s[i], token_id),
    decreases s.len(),
{
    let s2 = s.remove(i);
    if i == s.len() - 1 {
        assert(s2 =~= s.drop_last());
    } else {
        assert(s2.last() == s.last());
        assert(s2.drop_last() =~= s.drop_last().remove(i));
        lemma_total_remove(s.drop_last(), i, token_id);
    }
}

pub proof fn lemma_total_push(s: Seq<BalanceEntry>, e: BalanceEntry, token_id: TokenId)
    ensures
        total_in(s.push(e), token_id) == total_in(s, token_id) + token_contrib(e, token_id),
{
    assert(s.push(e).drop_last() =~= s);
    assert(s.push(e).last() == e);
}

/// A prefix of the ledger never sums to more than the whole.
pub proof fn lemma_total_prefix(s: Seq<BalanceEntry>, j: int, token_id: TokenId)
    requires
        0 <= j <= s.len(),
    ensures
        total_in(s.subrange(0, j), token_id) <= total_in(s, token_id),
    decreases s.len() - j,
{
    if j == s.len() {
        assert(s.subrange(0, j) =~= s);
    } else {
        lemma_total_prefix(s, j + 1, token_id);
        assert(s.subrange(0, j + 1).drop_last() =~= s.subrange(0, j));
        assert(s.subrange(0, j + 1).last() == s[j]);
    }
}

pub proof fn lemma_wf_update_same_key(s: Seq<BalanceEntry>, i: int, e: BalanceEntry)
    requires
        ledger_wf(s),
        0 <= i < s.len(),
        e.account_id == s[i].account_id,
        e.token_id == s[i].token_id,
        e.amount > 0,
    ensures
        ledger_wf(s.update(i, e)),
{
    let s2 = s.update(i, e);
    assert forall|p: int, q: int|
        #![trigger s2[p], s2[q]]
        0 <= p < q < s2.len() implies !(s2[p].account_id == s2[q].account_id && s2[p].token_id
        == s2[q].token_id) by {
        assert(!(s[p].account_id == s[q].account_id && s[p].token_id == s[q].token_id));
    }
}

pub proof fn lemma_wf_remove(s: Seq<BalanceEntry>, i: int)
    requires
        ledger_wf(s),
        0 <= i < s.len(),
    ensures
        ledger_wf(s.remove(i)),
{
    let s2 = s.remove(i);
    assert forall|p: int, q: int|
        #![trigger s2[p], s2[q]]
        0 <= p < q < s2.len() implies !(s2[p].account_id == s2[q].account_id && s2[p].token_id
        == s2[q].token_id) by {
        let p0: int = if p < i {
            p
        } else {
            p + 1
        };
        let q0: int = if q < i {
            q
        } else {
            q + 1
        };
        assert(s2[p] == s[p0]);
        assert(s2[q] == s[q0]);
        assert(!(s[p0].account_id == s[q0].account_id && s[p0].token_id == s[q0].token_id));
    }
    assert forall|p: int| 0 <= p < s2.len() implies s2[p].amount > 0 by {
        let p0: int = if p < i {
            p
        } else {
            p + 1
        };
        assert(s2[p] == s[p0]);
    }
}

/// Sparse map of (account, asset) to available, unlocked holdings.
///
/// Funds reserved by an open order are not here: they leave the ledger at
/// placement and live in the order's lock field until a fill or a
/// cancellation releases them.
pub struct BalanceLedger {
    entries: Vec<BalanceEntry>,
}

impl View for BalanceLedger {
    type V = Seq<BalanceEntry>;

    closed spec fn view(&self) -> Seq<BalanceEntry> {
        self.entries@
    }
}

impl BalanceLedger {
    pub open spec fn wf(&self) -> bool {
        ledger_wf(self@)
    }

    pub open spec fn spec_get(&self, account_id: AccountId, token_id: TokenId) -> u128 {
        balance_in(self@, account_id, token_id)
    }

    /// Ledger-wide sum of one asset's available balances.
    pub open spec fn total(&self, token_id: TokenId) -> int {
        total_in(self@, token_id)
    }

    pub fn new() -> (r: BalanceLedger)
        ensures
            r.wf(),
            r@.len() == 0,
            forall|a: AccountId, t: TokenId| r.spec_get(a, t) == 0,
            forall|t: TokenId| r.total(t) == 0,
    {
        BalanceLedger { entries: Vec::new() }
    }

    fn find(&self, account_id: AccountId, token_id: TokenId) -> (r: Option<usize>)
        ensures
            match r {
                Some(i) => i < self@.len() && entry_matches(self@[i as int], account_id, token_id),
                None => forall|j: int|
                    0 <= j < self@.len() ==> !entry_matches(self@[j], account_id, token_id),
            },
    {
        let mut i: usize = 0;
        while i < self.entries.len()
            invariant
                i <= self.entries.len(),
                forall|j: int| 0 <= j < i ==> !entry_matches(self.entries@[j], account_id, token_id),
            decreases self.entries.len() - i,
        {
            if self.entries[i].account_id == account_id && self.entries[i].token_id == token_id {
                return Some(i);
            }
            i = i + 1;
        }
        None
    }

    /// The available balance, defaulting to 0 when no entry is stored.
    pub fn get(&self, account_id: AccountId, token_id: TokenId) -> (r: u128)
        requires
            self.wf(),
        ensures
            r == self.spec_get(account_id, token_id),
    {
        match self.find(account_id, token_id) {
            Some(i) => {
                proof {
                    lemma_wf_unique(self@, account_id, token_id, i as int);
                    lemma_balance_found(self@, account_id, token_id, i as int);
                }
                self.entries[i].amount
            },
            None => {
                proof {
                    lemma_balance_absent(self@, account_id, token_id);
                }
                0
            },
        }
    }

    /// Sums one asset's available balances over every account.
    pub fn total_of(&self, token_id: TokenId) -> (r: u128)
        requires
            total_in(self@, token_id) <= u128::MAX,
        ensures
            r == total_in(self@, token_id),
    {
        let mut sum: u128 = 0;
        let mut i: usize = 0;
        proof {
            assert(self.entries@.subrange(0, 0) =~= Seq::<BalanceEntry>::empty());
        }
        while i < self.entries.len()
            invariant
                i <= self.entries@.len(),
                total_in(self.entries@, token_id) <= u128::MAX,
                sum == total_in(self.entries@.subrange(0, i as int), token_id),
            decreases self.entries@.len() - i,
        {
            proof {
                lemma_total_prefix(self.entries@, i as int + 1, token_id);
                assert(self.entries@.subrange(0, i as int + 1).drop_last() =~= self.entries@
                    .subrange(0, i as int));
                assert(self.entries@.subrange(0, i as int + 1).last() == self.entries@[i as int]);
            }
            if self.entries[i].token_id == token_id {
                sum = sum + self.entries[i].amount;
            }
            i = i + 1;
        }
        proof {
            assert(self.entries@.subrange(0, i as int) =~= self.entries@);
        }
        sum
    }

    /// Adds to one available balance; every other key and every other asset
    /// total is untouched.
    pub fn credit(&mut self, account_id: AccountId, token_id: TokenId, amount: u128)
        requires
            old(self).wf(),
            old(self).spec_get(account_id, token_id) + amount <= u128::MAX,
        ensures
            final(self).wf(),
            final(self).spec_get(account_id, token_id) == old(self).spec_get(account_id, token_id)
                + amount,
            forall|a: AccountId, t: TokenId|
                !(a == account_id && t == token_id) ==> final(self).spec_get(a, t) == old(
                    self,
                ).spec_get(a, t),
            final(self).total(token_id) == old(self).total(token_id) + amount,
            forall|t: TokenId| t != token_id ==> final(self).total(t) == old(self).total(t),
    {
        let ghost s = self@;
        match self.find(account_id, token_id) {
            Some(i) => {
                proof {
                    lemma_wf_unique(s, account_id, token_id, i as int);
                    lemma_balance_found(s, account_id, token_id, i as int);
                }
                let mut e = self.entries[i];
                e.amount = e.amount + amount;
                self.entries.set(i, e);
                proof {
                    lemma_wf_update_same_key(s, i as int, e);
                    lemma_wf_unique(self@, account_id, token_id, i as int);
                    lemma_balance_found(self@, account_id, token_id, i as int);
                    assert forall|a: AccountId, t: TokenId| !(a == account_id && t == token_id)
                        implies balance_in(self@, a, t) == balance_in(s, a, t) by {
                        lemma_balance_update_other(s, i as int, e, a, t);
                    }
                    lemma_total_update(s, i as int, e, token_id);
                    assert forall|t: TokenId| t != token_id implies total_in(self@, t) == total_in(
                        s,
                        t,
                    ) by {
                        lemma_total_update(s, i as int, e, t);
                    }
                }
            },
            None => {
                proof {
                    lemma_balance_absent(s, account_id, token_id);
                }
                if amount > 0 {
                    let e = BalanceEntry { account_id, token_id, amount };
                    self.entries.push(e);
                    proof {
                        assert forall|a: AccountId, t: TokenId| true implies balance_in(
                            self@,
                            a,
                            t,
                        ) == if entry_matches(e, a, t) {
                            e.amount
                        } else {
                            balance_in(s, a, t)
                        } by {
                            lemma_balance_push(s, e, a, t);
                        }
                        assert forall|t: TokenId| true implies total_in(self@, t) == total_in(s, t)
                            + token_contrib(e, t) by {
                            lemma_total_push(s, e, t);
                        }
                        assert forall|p: int, q: int|
                            #![trigger self@[p], self@[q]]
                            0 <= p < q < self@.len() implies !(self@[p].account_id
                            == self@[q].account_id && self@[p].token_id == self@[q].token_id) by {
                            if q == self@.len() - 1 {
                                assert(self@[p] == s[p]);
                                assert(!entry_matches(s[p], account_id, token_id));
                            } else {
                                assert(self@[p] == s[p]);
                                assert(self@[q] == s[q]);
                            }
                        }
                    }
                }
            },
        }
    }

    /// Removes from one available balance, failing with no change when the
    /// balance does not cover the amount. A balance that reaches zero is
    /// removed from storage.
    pub fn debit(&mut self, account_id: AccountId, token_id: TokenId, amount: u128) -> (r: Result<
        (),
        ObError,
    >)
        requires
            old(self).wf(),
        ensures
            final(self).wf(),
            r is Ok <==> amount <= old(self).spec_get(account_id, token_id),
            r is Err ==> *final(self) == *old(self) && r == Err::<(), ObError>(
                ObError::InsufficientFundsError,
            ),
            r is Ok ==> final(self).spec_get(account_id, token_id) == old(self).spec_get(
                account_id,
                token_id,
            ) - amount,
            r is Ok ==> forall|a: AccountId, t: TokenId|
                !(a == account_id && t == token_id) ==> final(self).spec_get(a, t) == old(
                    self,
                ).spec_get(a, t),
            r is Ok ==> final(self).total(token_id) == old(self).total(token_id) - amount,
            r is Ok ==> forall|t: TokenId| t != token_id ==> final(self).total(t) == old(
                self,
            ).total(t),
    {
        let ghost s = self@;
        match self.find(account_id, token_id) {
            Some(i) => {
                proof {
                    lemma_wf_unique(s, account_id, token_id, i as int);
                    lemma_balance_found(s, account_id, token_id, i as int);
                }
                let cur = self.entries[i].amount;
                if amount > cur {
                    return Err(ObError::InsufficientFundsError);
                }
                let newv = cur - amount;
                if newv == 0 {
                    self.entries.remove(i);
                    proof {
                        lemma_wf_remove(s, i as int);
                        assert forall|j: int| 0 <= j < self@.len() implies !entry_matches(
                            self@[j],
                            account_id,
                            token_id,
                        ) by {
                            let j0: int = if j < i as int {
                                j
                            } else {
                                j + 1
                            };
                            assert(self@[j] == s[j0]);
                        }
                        lemma_balance_absent(self@, account_id, token_id);
                        assert forall|a: AccountId, t: TokenId| !(a == account_id && t == token_id)
                            implies balance_in(self@, a, t) == balance_in(s, a, t) by {
                            lemma_balance_remove_other(s, i as int, a, t);
                        }
                        lemma_total_remove(s, i as int, token_id);
                        assert forall|t: TokenId| t != token_id implies total_in(self@, t)
                            == total_in(s, t) by {
                            lemma_total_remove(s, i as int, t);
                        }
                    }
                } else {
                    let mut e = self.entries[i];
                    e.amount = newv;
                    self.entries.set(i, e);
                    proof {
                        lemma_wf_update_same_key(s, i as int, e);
                        lemma_wf_unique(self@, account_id, token_id, i as int);
                        lemma_balance_found(self@, account_id, token_id, i as int);
                        assert forall|a: AccountId, t: TokenId| !(a == account_id && t == token_id)
                            implies balance_in(self@, a, t) == balance_in(s, a, t) by {
                            lemma_balance_update_other(s, i as int, e, a, t);
                        }
                        lemma_total_update(s, i as int, e, token_id);
                        assert forall|t: TokenId| t != token_id implies total_in(self@, t)
                            == total_in(s, t) by {
                            lemma_total_update(s, i as int, e, t);
                        }
                    }
                }
                Ok(())
            },
            None => {
                proof {
                    lemma_balance_absent(s, account_id, token_id);
                }
                if amount == 0 {
                    Ok(())
                } else {
                    Err(ObError::InsufficientFundsError)
                }
            },
        }
    }
}

} // verus!
