//! A model of the external reservable-currency ledger.
//!
//! Each account holds a free and a reserved balance.  `reserve` and
//! `unreserve` move value between the two; `transfer` moves free value
//! between accounts.  The ledger-and-marketplace engines keep their own
//! `staked` and `deposit` fields in lockstep with this ledger, and their
//! contracts state the exact effect of every operation on it.

use vstd::prelude::*;

use crate::AccountId;
use crate::Balance;
use crate::assoc::assoc_get;
use crate::assoc::lemma_assoc_get_absent;
use crate::assoc::lemma_assoc_get_first;
use crate::assoc::lemma_assoc_get_push;
use crate::assoc::lemma_assoc_get_update;
use crate::assoc::unique_keys;

verus! {

/// The two balances of one account.
#[derive(Clone, Copy, PartialEq, Eq, Structural, Debug)]
pub struct AccountBalances {
    pub free: Balance,
    pub reserved: Balance,
}

/// The lesser of two mathematical integers.
pub open spec fn min_int(a: int, b: int) -> int {
    if a <= b {
        a
    } else {
        b
    }
}

/// Everything an account sequence holds, free and reserved together.
pub open spec fn seq_balance_total(s: Seq<(AccountId, AccountBalances)>) -> int
    decreases s.len(),
{
    if s.len() == 0 {
        0
    } else {
        s[0].1.free + s[0].1.reserved + seq_balance_total(s.drop_first())
    }
}

pub proof fn lemma_balance_total_nonneg(s: Seq<(AccountId, AccountBalances)>)
    ensures
        seq_balance_total(s) >= 0,
    decreases s.len(),
{
    if s.len() > 0 {
        lemma_balance_total_nonneg(s.drop_first());
    }
}

/// One account's balances never exceed the whole sequence's total.
pub proof fn lemma_balance_total_index(s: Seq<(AccountId, AccountBalances)>, i: int)
    requires
        0 <= i < s.len(),
    ensures
        s[i].1.free + s[i].1.reserved <= seq_balance_total(s),
    decreases s.len(),
{
    if i == 0 {
        lemma_balance_total_nonneg(s.drop_first());
    } else {
        assert(s.drop_first()[i - 1] == s[i]);
        lemma_balance_total_index(s.drop_first(), i - 1);
    }
}

pub proof fn lemma_balance_total_update(
    s: Seq<(AccountId, AccountBalances)>,
    i: int,
    v: (AccountId, AccountBalances),
)
    requires
        0 <= i < s.len(),
    ensures
        seq_balance_total(s.update(i, v)) == seq_balance_total(s) - s[i].1.free - s[i].1.reserved
            + v.1.free + v.1.reserved,
    decreases s.len(),
{
    let t = s.update(i, v);
    if i == 0 {
        assert(t[0] == v);
        assert(t.drop_first() =~= s.drop_first());
    } else {
        assert(t[0] == s[0]);
        assert(s.drop_first()[i - 1] == s[i]);
        assert(t.drop_first() =~= s.drop_first().update(i - 1, v));
        lemma_balance_total_update(s.drop_first(), i - 1, v);
    }
}

pub proof fn lemma_balance_total_push(
    s: Seq<(AccountId, AccountBalances)>,
    v: (AccountId, AccountBalances),
)
    ensures
        seq_balance_total(s.push(v)) == seq_balance_total(s) + v.1.free + v.1.reserved,
    decreases s.len(),
{
    let t = s.push(v);
    if s.len() == 0 {
        assert(t[0] == v);
        assert(t.drop_first() =~= Seq::<(AccountId, AccountBalances)>::empty());
        assert(seq_balance_total(t) == t[0].1.free + t[0].1.reserved + seq_balance_total(
            t.drop_first(),
        ));
    } else {
        assert(t[0] == s[0]);
        assert(t.drop_first() =~= s.drop_first().push(v));
        lemma_balance_total_push(s.drop_first(), v);
        assert(seq_balance_total(t) == t[0].1.free + t[0].1.reserved + seq_balance_total(
            t.drop_first(),
        ));
    }
}

/// What a successful `reserve` of `amount` by `who` does to the ledger.
pub open spec fn reserve_effect(c0: Currency, c1: Currency, who: AccountId, amount: int) -> bool {
    &&& c1.spec_free(who) == c0.spec_free(who) - amount
    &&& c1.spec_reserved(who) == c0.spec_reserved(who) + amount
    &&& (forall|a: AccountId| a != who ==> #[trigger] c1.spec_balances(a) == c0.spec_balances(a))
    &&& c1.spec_total() == c0.spec_total()
    &&& c1.wf()
}

/// What an `unreserve` of `amount` by `who` does: only what is actually
/// reserved moves back.
pub open spec fn unreserve_effect(c0: Currency, c1: Currency, who: AccountId, amount: int) -> bool {
    &&& c1.spec_free(who) == c0.spec_free(who) + min_int(amount, c0.spec_reserved(who))
    &&& c1.spec_reserved(who) == c0.spec_reserved(who) - min_int(amount, c0.spec_reserved(who))
    &&& (forall|a: AccountId| a != who ==> #[trigger] c1.spec_balances(a) == c0.spec_balances(a))
    &&& c1.spec_total() == c0.spec_total()
    &&& c1.wf()
}

/// What a successful `transfer` of `amount` from `from` to `to` does.
pub open spec fn transfer_effect(
    c0: Currency,
    c1: Currency,
    from: AccountId,
    to: AccountId,
    amount: int,
) -> bool {
    &&& (from == to ==> c1 == c0)
    &&& (from != to ==> c1.spec_free(from) == c0.spec_free(from) - amount && c1.spec_free(to)
        == c0.spec_free(to) + amount && c1.spec_reserved(from) == c0.spec_reserved(from)
        && c1.spec_reserved(to) == c0.spec_reserved(to))
    &&& (forall|a: AccountId|
        a != from && a != to ==> #[trigger] c1.spec_balances(a) == c0.spec_balances(a))
    &&& c1.spec_total() == c0.spec_total()
    &&& c1.wf()
}

/// What giving `back` reserve away and taking a fresh reserve of `take`
/// does, as one step: the deposit swap of an edit.
pub open spec fn rereserve_effect(
    c0: Currency,
    c1: Currency,
    who: AccountId,
    back: int,
    take: int,
) -> bool {
    &&& c1.spec_free(who) == c0.spec_free(who) + min_int(back, c0.spec_reserved(who)) - take
    &&& c1.spec_reserved(who) == c0.spec_reserved(who) - min_int(back, c0.spec_reserved(who))
        + take
    &&& (forall|a: AccountId| a != who ==> #[trigger] c1.spec_balances(a) == c0.spec_balances(a))
    &&& c1.spec_total() == c0.spec_total()
    &&& c1.wf()
}

/// The reservable-currency ledger: one entry per account that ever held value.
pub struct Currency {
    pub accounts: Vec<(AccountId, AccountBalances)>,
}

impl Currency {
    /// An account absent from the sequence holds nothing.
    pub open spec fn spec_balances(self, who: AccountId) -> AccountBalances {
        match assoc_get(self.accounts@, who) {
            Some(b) => b,
            None => AccountBalances { free: 0, reserved: 0 },
        }
    }

    pub open spec fn spec_free(self, who: AccountId) -> int {
        self.spec_balances(who).free as int
    }

    pub open spec fn spec_reserved(self, who: AccountId) -> int {
        self.spec_balances(who).reserved as int
    }

    pub open spec fn spec_total(self) -> int {
        seq_balance_total(self.accounts@)
    }

    /// Accounts are unique and the whole issuance fits in a `Balance`,
    /// so moving value between balances or accounts can never overflow.
    pub open spec fn wf(self) -> bool {
        &&& unique_keys(self.accounts@)
        &&& self.spec_total() <= Balance::MAX
    }

    /// One account's balances stay within the whole issuance.
    pub proof fn lemma_account_within_total(self, who: AccountId)
        requires
            self.wf(),
        ensures
            0 <= self.spec_free(who) + self.spec_reserved(who) <= self.spec_total(),
    {
        lemma_balance_total_nonneg(self.accounts@);
        if assoc_get(self.accounts@, who) is Some {
            crate::assoc::lemma_assoc_get_some_index(self.accounts@, who);
            let i = choose|i: int|
                0 <= i < self.accounts@.len() && #[trigger] self.accounts@[i] == (
                who,
                assoc_get(self.accounts@, who)->0,
                );
            lemma_balance_total_index(self.accounts@, i);
        }
    }

    pub fn new() -> (r: Currency)
        ensures
            r.wf(),
            r.spec_total() == 0,
            forall|a: AccountId| #[trigger] r.spec_free(a) == 0,
            forall|a: AccountId| #[trigger] r.spec_reserved(a) == 0,
    {
        let r = Currency { accounts: Vec::new() };
        proof {
            assert forall|a: AccountId| #[trigger] r.spec_free(a) == 0 && r.spec_reserved(a)
                == 0 by {
                lemma_assoc_get_absent(r.accounts@, a);
            }
        }
        r
    }

    fn find_account(&self, who: AccountId) -> (r: Option<usize>)
        ensures
            match r {
                Some(i) => i < self.accounts.len() && self.accounts@[i as int].0 == who
                    && assoc_get(self.accounts@, who) == Some(self.accounts@[i as int].1),
                None => assoc_get(self.accounts@, who) is None,
            },
    {
        let n = self.accounts.len();
        let mut i: usize = 0;
        while i < n
            invariant
                n == self.accounts.len(),
                i <= n,
                forall|j: int| 0 <= j < i ==> self.accounts@[j].0 != who,
            decreases n - i,
        {
            if self.accounts[i].0 == who {
                proof {
                    lemma_assoc_get_first(self.accounts@, i as int);
                }
                return Some(i);
            }
            i += 1;
        }
        proof {
            lemma_assoc_get_absent(self.accounts@, who);
        }
        None
    }

    pub fn free_balance(&self, who: AccountId) -> (r: Balance)
        ensures
            r == self.spec_free(who),
    {
        match self.find_account(who) {
            Some(i) => self.accounts[i].1.free,
            None => 0,
        }
    }

    pub fn reserved_balance(&self, who: AccountId) -> (r: Balance)
        ensures
            r == self.spec_reserved(who),
    {
        match self.find_account(who) {
            Some(i) => self.accounts[i].1.reserved,
            None => 0,
        }
    }

    /// Creates free value out of nothing: the genesis of a test world.
    pub fn endow(&mut self, who: AccountId, amount: Balance)
        requires
            old(self).wf(),
            old(self).spec_total() + amount <= Balance::MAX,
        ensures
            final(self).wf(),
            final(self).spec_free(who) == old(self).spec_free(who) + amount,
            final(self).spec_reserved(who) == old(self).spec_reserved(who),
            forall|a: AccountId| a != who ==> #[trigger] final(self).spec_balances(a)
                == old(self).spec_balances(a),
            final(self).spec_total() == old(self).spec_total() + amount,
    {
        match self.find_account(who) {
            Some(i) => {
                let bal = self.accounts[i].1;
                proof {
                    lemma_balance_total_index(self.accounts@, i as int);
                }
                let nb = AccountBalances { free: bal.free + amount, reserved: bal.reserved };
                self.accounts[i] = (who, nb);
                proof {
                    lemma_assoc_get_update(old(self).accounts@, i as int, (who, nb));
                    lemma_balance_total_update(old(self).accounts@, i as int, (who, nb));
                }
            },
            None => {
                let nb = AccountBalances { free: amount, reserved: 0 };
                self.accounts.push((who, nb));
                proof {
                    lemma_assoc_get_push(old(self).accounts@, (who, nb));
                    lemma_balance_total_push(old(self).accounts@, (who, nb));
                }
            },
        }
    }

    /// Moves `amount` of `who`'s free balance into reserve; fails, changing
    /// nothing, where the free balance does not cover it.
    pub fn reserve(&mut self, who: AccountId, amount: Balance) -> (ok: bool)
        requires
            old(self).wf(),
        ensures
            final(self).wf(),
            ok == (amount <= old(self).spec_free(who)),
            ok ==> final(self).spec_free(who) == old(self).spec_free(who) - amount
                && final(self).spec_reserved(who) == old(self).spec_reserved(who) + amount,
            !ok ==> *final(self) == *old(self),
            forall|a: AccountId| a != who ==> #[trigger] final(self).spec_balances(a)
                == old(self).spec_balances(a),
            final(self).spec_total() == old(self).spec_total(),
    {
        match self.find_account(who) {
            Some(i) => {
                let bal = self.accounts[i].1;
                if amount <= bal.free {
                    proof {
                        lemma_balance_total_index(self.accounts@, i as int);
                    }
                    let nb = AccountBalances {
                        free: bal.free - amount,
                        reserved: bal.reserved + amount,
                    };
                    self.accounts[i] = (who, nb);
                    proof {
                        lemma_assoc_get_update(old(self).accounts@, i as int, (who, nb));
                        lemma_balance_total_update(old(self).accounts@, i as int, (who, nb));
                    }
                    true
                } else {
                    false
                }
            },
            None => amount == 0,
        }
    }

    /// Returns up to `amount` of `who`'s reserved balance to the free
    /// balance; what is not reserved stays as it is.
    pub fn unreserve(&mut self, who: AccountId, amount: Balance)
        requires
            old(self).wf(),
        ensures
            final(self).wf(),
            final(self).spec_free(who) == old(self).spec_free(who) + min_int(
                amount as int,
                old(self).spec_reserved(who),
            ),
            final(self).spec_reserved(who) == old(self).spec_reserved(who) - min_int(
                amount as int,
                old(self).spec_reserved(who),
            ),
            forall|a: AccountId| a != who ==> #[trigger] final(self).spec_balances(a)
                == old(self).spec_balances(a),
            final(self).spec_total() == old(self).spec_total(),
    {
        match self.find_account(who) {
            Some(i) => {
                let bal = self.accounts[i].1;
                let x = if amount <= bal.reserved {
                    amount
                } else {
                    bal.reserved
                };
                proof {
                    lemma_balance_total_index(self.accounts@, i as int);
                }
                let nb = AccountBalances { free: bal.free + x, reserved: bal.reserved - x };
                self.accounts[i] = (who, nb);
                proof {
                    lemma_assoc_get_update(old(self).accounts@, i as int, (who, nb));
                    lemma_balance_total_update(old(self).accounts@, i as int, (who, nb));
                }
            },
            None => {},
        }
    }

    /// Moves `amount` of free balance from `from` to `to`; fails, changing
    /// nothing, where `from`'s free balance does not cover it.  A transfer
    /// to oneself that succeeds changes nothing.
    pub fn transfer(&mut self, from: AccountId, to: AccountId, amount: Balance) -> (ok: bool)
        requires
            old(self).wf(),
        ensures
            final(self).wf(),
            ok == (amount <= old(self).spec_free(from)),
            !ok ==> *final(self) == *old(self),
            ok && from == to ==> *final(self) == *old(self),
            ok && from != to ==> final(self).spec_free(from) == old(self).spec_free(from) - amount
                && final(self).spec_free(to) == old(self).spec_free(to) + amount
                && final(self).spec_reserved(from) == old(self).spec_reserved(from)
                && final(self).spec_reserved(to) == old(self).spec_reserved(to),
            forall|a: AccountId| a != from && a != to ==> #[trigger] final(self).spec_balances(a)
                == old(self).spec_balances(a),
            final(self).spec_total() == old(self).spec_total(),
    {
        let free_from = self.free_balance(from);
        if amount > free_from {
            return false;
        }
        if from == to || amount == 0 {
            return true;
        }
        let i = match self.find_account(from) {
            Some(i) => i,
            None => {
                // free_from is zero here, and amount <= free_from with
                // amount > 0 was already ruled out.
                proof {
                    assert(false);
                }
                0
            },
        };
        let bal = self.accounts[i].1;
        let nb = AccountBalances { free: bal.free - amount, reserved: bal.reserved };
        self.accounts[i] = (from, nb);
        proof {
            lemma_assoc_get_update(old(self).accounts@, i as int, (from, nb));
            lemma_balance_total_update(old(self).accounts@, i as int, (from, nb));
            lemma_balance_total_nonneg(self.accounts@);
        }
        match self.find_account(to) {
            Some(j) => {
                let ghost mid = *self;
                let tb = self.accounts[j].1;
                proof {
                    lemma_balance_total_index(self.accounts@, j as int);
                }
                let ntb = AccountBalances { free: tb.free + amount, reserved: tb.reserved };
                self.accounts[j] = (to, ntb);
                proof {
                    lemma_assoc_get_update(mid.accounts@, j as int, (to, ntb));
                    lemma_balance_total_update(mid.accounts@, j as int, (to, ntb));
                }
            },
            None => {
                let ghost mid = *self;
                let ntb = AccountBalances { free: amount, reserved: 0 };
                self.accounts.push((to, ntb));
                proof {
                    lemma_assoc_get_push(mid.accounts@, (to, ntb));
                    lemma_balance_total_push(mid.accounts@, (to, ntb));
                }
            },
        }
        true
    }
}

} // verus!
