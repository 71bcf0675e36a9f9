//! The token ledger: brand-token issuance, staking, earning, and the
//! FIFO/expiry credit-consumption algorithm.
//!
//! Each brand owns at most one `BrandToken`.  Credit earned by a holder is
//! kept as an ordered sequence of `Amount` entries per `(brand, holder)`
//! pair; insertion order doubles as the priority for both expiry reclaim
//! and consumption.  The well-formedness invariant `wf` carries the
//! conservation law: a token's `staked` always equals its pool `amount`
//! plus all credit outstanding against the brand.

use vstd::prelude::*;

use crate::AccountId;
use crate::Balance;
use crate::Moment;
use crate::SECONDS_PER_MONTH;
use crate::assoc::assoc_get;
use crate::assoc::lemma_assoc_get_absent;
use crate::assoc::lemma_assoc_get_first;
use crate::assoc::lemma_assoc_get_push;
use crate::assoc::lemma_assoc_get_some_index;
use crate::assoc::lemma_assoc_get_update;
use crate::assoc::unique_keys;
use crate::currency::Currency;
use crate::currency::reserve_effect;
use crate::currency::unreserve_effect;
use crate::registry::BrandRegistry;

verus! {

/// A brand's fungible token record.
#[derive(PartialEq, Debug)]
pub struct BrandToken {
    pub symbol: Vec<u8>,
    pub amount: u32,
    pub staked: u32,
    pub default_lifetime: u8,
}

/// One credit entry: an amount earned at a point in time.
#[derive(Clone, Copy, PartialEq, Eq, Structural, Debug)]
pub struct Amount {
    pub amount: u32,
    pub issued_date: Moment,
}

#[derive(Clone, Copy, PartialEq, Eq, Structural, Debug)]
pub enum Error {
    BrandNotExist,
    AlreadyCreatedToken,
    BrandTokenNotFound,
    InsufficientAmount,
    InsufficientBalance,
    NotSupportedYet,
}

#[derive(Clone, Copy, PartialEq, Eq, Structural, Debug)]
pub enum Event {
    BrandTokenCreated { brand_id: AccountId },
    Mint { amount: u32 },
    Burn { amount: u32 },
    Transferred { amount: u32, from: AccountId, to: AccountId },
    Earned { amount: u32, issued_date: Moment },
}

/// How old a moment is, never negative.
pub open spec fn spec_age(issued: Moment, now: Moment) -> int {
    if now >= issued {
        now - issued
    } else {
        0
    }
}

/// An entry is expired once its age reaches thirty days per lifetime month.
pub open spec fn entry_expired(e: Amount, now: Moment, lifetime: u8) -> bool {
    spec_age(e.issued_date, now) >= (SECONDS_PER_MONTH as int) * (lifetime as int)
}

pub open spec fn sum_amounts(s: Seq<Amount>) -> int
    decreases s.len(),
{
    if s.len() == 0 {
        0
    } else {
        s[0].amount + sum_amounts(s.drop_first())
    }
}

/// What the non-expired entries hold.
pub open spec fn spendable_sum(s: Seq<Amount>, now: Moment, lifetime: u8) -> int
    decreases s.len(),
{
    if s.len() == 0 {
        0
    } else {
        (if entry_expired(s[0], now, lifetime) {
            0
        } else {
            s[0].amount as int
        }) + spendable_sum(s.drop_first(), now, lifetime)
    }
}

/// What the expired entries hold.
pub open spec fn expired_sum(s: Seq<Amount>, now: Moment, lifetime: u8) -> int
    decreases s.len(),
{
    if s.len() == 0 {
        0
    } else {
        (if entry_expired(s[0], now, lifetime) {
            s[0].amount as int
        } else {
            0
        }) + expired_sum(s.drop_first(), now, lifetime)
    }
}

/// What one entry becomes during a spend that still has `rem` to consume:
/// an expired entry is zeroed without being counted; a live entry gives up
/// as much as it can.
pub open spec fn step_entry(e: Amount, rem: int, now: Moment, lifetime: u8) -> Amount {
    if entry_expired(e, now, lifetime) {
        Amount { amount: 0, issued_date: e.issued_date }
    } else if e.amount >= rem {
        Amount { amount: (e.amount - rem) as u32, issued_date: e.issued_date }
    } else {
        Amount { amount: 0, issued_date: e.issued_date }
    }
}

/// What remains to consume after the entry has been walked.
pub open spec fn step_rem(e: Amount, rem: int, now: Moment, lifetime: u8) -> int {
    if entry_expired(e, now, lifetime) {
        rem
    } else if e.amount >= rem {
        0
    } else {
        rem - e.amount
    }
}

/// The whole walk, oldest entry first.
pub open spec fn consume_entries(s: Seq<Amount>, rem: int, now: Moment, lifetime: u8) -> Seq<
    Amount,
>
    decreases s.len(),
{
    if s.len() == 0 {
        s
    } else {
        seq![step_entry(s[0], rem, now, lifetime)] + consume_entries(
            s.drop_first(),
            step_rem(s[0], rem, now, lifetime),
            now,
            lifetime,
        )
    }
}

/// What is left to consume after the whole walk.
pub open spec fn remaining_after(s: Seq<Amount>, rem: int, now: Moment, lifetime: u8) -> int
    decreases s.len(),
{
    if s.len() == 0 {
        rem
    } else {
        remaining_after(s.drop_first(), step_rem(s[0], rem, now, lifetime), now, lifetime)
    }
}

/// The sequence with its zero-amount entries dropped.
pub open spec fn prune_entries(s: Seq<Amount>) -> Seq<Amount>
    decreases s.len(),
{
    if s.len() == 0 {
        s
    } else if s[0].amount == 0 {
        prune_entries(s.drop_first())
    } else {
        seq![s[0]] + prune_entries(s.drop_first())
    }
}

pub proof fn lemma_sum_nonneg(s: Seq<Amount>)
    ensures
        sum_amounts(s) >= 0,
    decreases s.len(),
{
    if s.len() > 0 {
        lemma_sum_nonneg(s.drop_first());
    }
}

pub proof fn lemma_spendable_nonneg(s: Seq<Amount>, now: Moment, lifetime: u8)
    ensures
        spendable_sum(s, now, lifetime) >= 0,
    decreases s.len(),
{
    if s.len() > 0 {
        lemma_spendable_nonneg(s.drop_first(), now, lifetime);
    }
}

pub proof fn lemma_expired_nonneg(s: Seq<Amount>, now: Moment, lifetime: u8)
    ensures
        expired_sum(s, now, lifetime) >= 0,
    decreases s.len(),
{
    if s.len() > 0 {
        lemma_expired_nonneg(s.drop_first(), now, lifetime);
    }
}

/// Every entry is either spendable or expired.
pub proof fn lemma_sum_split(s: Seq<Amount>, now: Moment, lifetime: u8)
    ensures
        sum_amounts(s) == spendable_sum(s, now, lifetime) + expired_sum(s, now, lifetime),
    decreases s.len(),
{
    if s.len() > 0 {
        lemma_sum_split(s.drop_first(), now, lifetime);
    }
}

pub proof fn lemma_sum_snoc(s: Seq<Amount>, e: Amount)
    ensures
        sum_amounts(s.push(e)) == sum_amounts(s) + e.amount,
    decreases s.len(),
{
    let t = s.push(e);
    if s.len() == 0 {
        assert(t[0] == e);
        assert(t.drop_first() =~= Seq::<Amount>::empty());
        assert(sum_amounts(t) == t[0].amount + sum_amounts(t.drop_first()));
        assert(sum_amounts(t.drop_first()) == 0);
    } else {
        assert(t[0] == s[0]);
        assert(t.drop_first() =~= s.drop_first().push(e));
        lemma_sum_snoc(s.drop_first(), e);
        assert(sum_amounts(t) == t[0].amount + sum_amounts(t.drop_first()));
        assert(sum_amounts(s) == s[0].amount + sum_amounts(s.drop_first()));
    }
}

pub proof fn lemma_spendable_snoc(s: Seq<Amount>, e: Amount, now: Moment, lifetime: u8)
    ensures
        spendable_sum(s.push(e), now, lifetime) == spendable_sum(s, now, lifetime) + (
        if entry_expired(e, now, lifetime) {
            0
        } else {
            e.amount as int
        }),
    decreases s.len(),
{
    let t = s.push(e);
    if s.len() == 0 {
        assert(t[0] == e);
        assert(t.drop_first() =~= Seq::<Amount>::empty());
        assert(spendable_sum(t, now, lifetime) == (if entry_expired(t[0], now, lifetime) {
            0
        } else {
            t[0].amount as int
        }) + spendable_sum(t.drop_first(), now, lifetime));
        assert(spendable_sum(t.drop_first(), now, lifetime) == 0);
    } else {
        assert(t[0] == s[0]);
        assert(t.drop_first() =~= s.drop_first().push(e));
        lemma_spendable_snoc(s.drop_first(), e, now, lifetime);
        assert(spendable_sum(t, now, lifetime) == (if entry_expired(t[0], now, lifetime) {
            0
        } else {
            t[0].amount as int
        }) + spendable_sum(t.drop_first(), now, lifetime));
        assert(spendable_sum(s, now, lifetime) == (if entry_expired(s[0], now, lifetime) {
            0
        } else {
            s[0].amount as int
        }) + spendable_sum(s.drop_first(), now, lifetime));
    }
}

pub proof fn lemma_expired_snoc(s: Seq<Amount>, e: Amount, now: Moment, lifetime: u8)
    ensures
        expired_sum(s.push(e), now, lifetime) == expired_sum(s, now, lifetime) + (
        if entry_expired(e, now, lifetime) {
            e.amount as int
        } else {
            0
        }),
    decreases s.len(),
{
    let t = s.push(e);
    if s.len() == 0 {
        assert(t[0] == e);
        assert(t.drop_first() =~= Seq::<Amount>::empty());
        assert(expired_sum(t, now, lifetime) == (if entry_expired(t[0], now, lifetime) {
            t[0].amount as int
        } else {
            0
        }) + expired_sum(t.drop_first(), now, lifetime));
        assert(expired_sum(t.drop_first(), now, lifetime) == 0);
    } else {
        assert(t[0] == s[0]);
        assert(t.drop_first() =~= s.drop_first().push(e));
        lemma_expired_snoc(s.drop_first(), e, now, lifetime);
        assert(expired_sum(t, now, lifetime) == (if entry_expired(t[0], now, lifetime) {
            t[0].amount as int
        } else {
            0
        }) + expired_sum(t.drop_first(), now, lifetime));
        assert(expired_sum(s, now, lifetime) == (if entry_expired(s[0], now, lifetime) {
            s[0].amount as int
        } else {
            0
        }) + expired_sum(s.drop_first(), now, lifetime));
    }
}

/// The sum of a prefix, and the rest, make the whole.
pub proof fn lemma_sum_take_skip(s: Seq<Amount>, j: int)
    requires
        0 <= j <= s.len(),
    ensures
        sum_amounts(s) == sum_amounts(s.take(j)) + sum_amounts(s.skip(j)),
    decreases j,
{
    if j == 0 {
        assert(s.take(0) =~= Seq::<Amount>::empty());
        assert(s.skip(0) =~= s);
    } else {
        lemma_sum_take_skip(s, j - 1);
        assert(s.take(j) =~= s.take(j - 1).push(s[j - 1]));
        lemma_sum_snoc(s.take(j - 1), s[j - 1]);
        assert(s.skip(j - 1)[0] == s[j - 1]);
        assert(s.skip(j - 1).drop_first() =~= s.skip(j));
    }
}

/// Appending an entry extends the walk by one step.
pub proof fn lemma_consume_snoc(s: Seq<Amount>, e: Amount, rem: int, now: Moment, lifetime: u8)
    ensures
        consume_entries(s.push(e), rem, now, lifetime) == consume_entries(
            s,
            rem,
            now,
            lifetime,
        ).push(step_entry(e, remaining_after(s, rem, now, lifetime), now, lifetime)),
        remaining_after(s.push(e), rem, now, lifetime) == step_rem(
            e,
            remaining_after(s, rem, now, lifetime),
            now,
            lifetime,
        ),
    decreases s.len(),
{
    let t = s.push(e);
    if s.len() == 0 {
        assert(t[0] == e);
        assert(t.drop_first() =~= Seq::<Amount>::empty());
        let x = step_entry(e, rem, now, lifetime);
        assert(consume_entries(t, rem, now, lifetime) == seq![x] + consume_entries(
            t.drop_first(),
            step_rem(e, rem, now, lifetime),
            now,
            lifetime,
        ));
        assert(consume_entries(t.drop_first(), step_rem(e, rem, now, lifetime), now, lifetime)
            =~= Seq::<Amount>::empty());
        assert(consume_entries(s, rem, now, lifetime) =~= Seq::<Amount>::empty());
        assert(seq![x] + Seq::<Amount>::empty() =~= consume_entries(s, rem, now, lifetime).push(
            x,
        ));
        assert(remaining_after(t, rem, now, lifetime) == remaining_after(
            t.drop_first(),
            step_rem(e, rem, now, lifetime),
            now,
            lifetime,
        ));
        assert(remaining_after(t.drop_first(), step_rem(e, rem, now, lifetime), now, lifetime)
            == step_rem(e, rem, now, lifetime));
        assert(remaining_after(s, rem, now, lifetime) == rem);
    } else {
        assert(t[0] == s[0]);
        assert(t.drop_first() =~= s.drop_first().push(e));
        let rem1 = step_rem(s[0], rem, now, lifetime);
        lemma_consume_snoc(s.drop_first(), e, rem1, now, lifetime);
        assert(remaining_after(s, rem, now, lifetime) == remaining_after(
            s.drop_first(),
            rem1,
            now,
            lifetime,
        ));
        let x = step_entry(e, remaining_after(s, rem, now, lifetime), now, lifetime);
        assert(consume_entries(t, rem, now, lifetime) == seq![
            step_entry(s[0], rem, now, lifetime),
        ] + consume_entries(t.drop_first(), rem1, now, lifetime));
        assert(consume_entries(t.drop_first(), rem1, now, lifetime) == consume_entries(
            s.drop_first(),
            rem1,
            now,
            lifetime,
        ).push(x));
        assert(consume_entries(s, rem, now, lifetime) == seq![
            step_entry(s[0], rem, now, lifetime),
        ] + consume_entries(s.drop_first(), rem1, now, lifetime));
        assert(seq![step_entry(s[0], rem, now, lifetime)] + consume_entries(
            s.drop_first(),
            rem1,
            now,
            lifetime,
        ).push(x) =~= (seq![step_entry(s[0], rem, now, lifetime)] + consume_entries(
            s.drop_first(),
            rem1,
            now,
            lifetime,
        )).push(x));
        assert(remaining_after(t, rem, now, lifetime) == remaining_after(
            t.drop_first(),
            rem1,
            now,
            lifetime,
        ));
    }
}

/// Pruning after appending keeps or drops exactly the appended entry.
pub proof fn lemma_prune_snoc(s: Seq<Amount>, e: Amount)
    ensures
        prune_entries(s.push(e)) == if e.amount == 0 {
            prune_entries(s)
        } else {
            prune_entries(s).push(e)
        },
    decreases s.len(),
{
    let t = s.push(e);
    if s.len() == 0 {
        assert(t[0] == e);
        assert(t.drop_first() =~= Seq::<Amount>::empty());
        assert(prune_entries(t.drop_first()) =~= Seq::<Amount>::empty());
        assert(prune_entries(s) =~= Seq::<Amount>::empty());
        if e.amount == 0 {
            assert(prune_entries(t) == prune_entries(t.drop_first()));
        } else {
            assert(prune_entries(t) == seq![t[0]] + prune_entries(t.drop_first()));
            assert(seq![e] + Seq::<Amount>::empty() =~= prune_entries(s).push(e));
        }
    } else {
        assert(t[0] == s[0]);
        assert(t.drop_first() =~= s.drop_first().push(e));
        lemma_prune_snoc(s.drop_first(), e);
        if s[0].amount == 0 {
            assert(prune_entries(t) == prune_entries(t.drop_first()));
            assert(prune_entries(s) == prune_entries(s.drop_first()));
        } else {
            assert(prune_entries(t) == seq![s[0]] + prune_entries(t.drop_first()));
            assert(prune_entries(s) == seq![s[0]] + prune_entries(s.drop_first()));
            if e.amount != 0 {
                assert(seq![s[0]] + prune_entries(s.drop_first()).push(e) =~= (seq![s[0]]
                    + prune_entries(s.drop_first())).push(e));
            }
        }
    }
}

/// Pruning zero entries keeps the sum.
pub proof fn lemma_prune_sum(s: Seq<Amount>)
    ensures
        sum_amounts(prune_entries(s)) == sum_amounts(s),
    decreases s.len(),
{
    if s.len() > 0 {
        lemma_prune_sum(s.drop_first());
        if s[0].amount != 0 {
            let t = seq![s[0]] + prune_entries(s.drop_first());
            assert(t[0] == s[0]);
            assert(t.drop_first() =~= prune_entries(s.drop_first()));
        }
    }
}

/// A walk that stays within the spendable total consumes exactly `rem`:
/// what the entries lose is the expired value plus the spent value.
pub proof fn lemma_consume_sum(s: Seq<Amount>, rem: int, now: Moment, lifetime: u8)
    requires
        0 <= rem <= spendable_sum(s, now, lifetime),
    ensures
        sum_amounts(consume_entries(s, rem, now, lifetime)) == sum_amounts(s) - expired_sum(
            s,
            now,
            lifetime,
        ) - rem,
        remaining_after(s, rem, now, lifetime) == 0,
    decreases s.len(),
{
    if s.len() == 0 {
    } else {
        let h = s[0];
        let rem1 = step_rem(h, rem, now, lifetime);
        let c = consume_entries(s, rem, now, lifetime);
        assert(c[0] == step_entry(h, rem, now, lifetime));
        assert(c.drop_first() =~= consume_entries(s.drop_first(), rem1, now, lifetime));
        if entry_expired(h, now, lifetime) {
            lemma_consume_sum(s.drop_first(), rem, now, lifetime);
        } else if h.amount >= rem {
            lemma_spendable_nonneg(s.drop_first(), now, lifetime);
            lemma_consume_sum(s.drop_first(), 0, now, lifetime);
        } else {
            lemma_consume_sum(s.drop_first(), rem - h.amount, now, lifetime);
        }
    }
}

/// The total credit outstanding against one brand, over every holder.
pub open spec fn outstanding(
    s: Seq<((AccountId, AccountId), Vec<Amount>)>,
    brand: AccountId,
) -> int
    decreases s.len(),
{
    if s.len() == 0 {
        0
    } else {
        (if s[0].0.0 == brand {
            sum_amounts(s[0].1@)
        } else {
            0
        }) + outstanding(s.drop_first(), brand)
    }
}

pub proof fn lemma_outstanding_nonneg(
    s: Seq<((AccountId, AccountId), Vec<Amount>)>,
    brand: AccountId,
)
    ensures
        outstanding(s, brand) >= 0,
    decreases s.len(),
{
    if s.len() > 0 {
        lemma_sum_nonneg(s[0].1@);
        lemma_outstanding_nonneg(s.drop_first(), brand);
    }
}

pub proof fn lemma_outstanding_update(
    s: Seq<((AccountId, AccountId), Vec<Amount>)>,
    i: int,
    v: ((AccountId, AccountId), Vec<Amount>),
    brand: AccountId,
)
    requires
        0 <= i < s.len(),
    ensures
        outstanding(s.update(i, v), brand) == outstanding(s, brand) - (if s[i].0.0 == brand {
            sum_amounts(s[i].1@)
        } else {
            0
        }) + (if v.0.0 == brand {
            sum_amounts(v.1@)
        } else {
            0
        }),
    decreases s.len(),
{
    let t = s.update(i, v);
    if i == 0 {
        assert(t[0] == v);
        assert(t.drop_first() =~= s.drop_first());
    } else {
        assert(t[0] == s[0]);
        assert(s.drop_first()[i - 1] == s[i]);
        assert(t.drop_first() =~= s.drop_first().update(i - 1, v));
        lemma_outstanding_update(s.drop_first(), i - 1, v, brand);
    }
}

pub proof fn lemma_outstanding_push(
    s: Seq<((AccountId, AccountId), Vec<Amount>)>,
    v: ((AccountId, AccountId), Vec<Amount>),
    brand: AccountId,
)
    ensures
        outstanding(s.push(v), brand) == outstanding(s, brand) + (if v.0.0 == brand {
            sum_amounts(v.1@)
        } else {
            0
        }),
    decreases s.len(),
{
    let t = s.push(v);
    if s.len() == 0 {
        assert(t[0] == v);
        assert(t.drop_first() =~= Seq::<((AccountId, AccountId), Vec<Amount>)>::empty());
        assert(outstanding(t, brand) == (if t[0].0.0 == brand {
            sum_amounts(t[0].1@)
        } else {
            0
        }) + outstanding(t.drop_first(), brand));
        assert(outstanding(t.drop_first(), brand) == 0);
    } else {
        assert(t[0] == s[0]);
        assert(t.drop_first() =~= s.drop_first().push(v));
        lemma_outstanding_push(s.drop_first(), v, brand);
        assert(outstanding(t, brand) == (if t[0].0.0 == brand {
            sum_amounts(t[0].1@)
        } else {
            0
        }) + outstanding(t.drop_first(), brand));
        assert(outstanding(s, brand) == (if s[0].0.0 == brand {
            sum_amounts(s[0].1@)
        } else {
            0
        }) + outstanding(s.drop_first(), brand));
    }
}

/// A brand that no book names has nothing outstanding.
pub proof fn lemma_outstanding_absent(
    s: Seq<((AccountId, AccountId), Vec<Amount>)>,
    brand: AccountId,
)
    requires
        forall|i: int| 0 <= i < s.len() ==> (#[trigger] s[i]).0.0 != brand,
    ensures
        outstanding(s, brand) == 0,
    decreases s.len(),
{
    if s.len() > 0 {
        let t = s.drop_first();
        assert forall|i: int| 0 <= i < t.len() implies (#[trigger] t[i]).0.0 != brand by {
            assert(t[i] == s[i + 1]);
        }
        lemma_outstanding_absent(s.drop_first(), brand);
    }
}

/// One book's sum never exceeds the brand's outstanding total.
pub proof fn lemma_outstanding_index(
    s: Seq<((AccountId, AccountId), Vec<Amount>)>,
    i: int,
    brand: AccountId,
)
    requires
        0 <= i < s.len(),
        s[i].0.0 == brand,
    ensures
        sum_amounts(s[i].1@) <= outstanding(s, brand),
    decreases s.len(),
{
    if i == 0 {
        lemma_outstanding_nonneg(s.drop_first(), brand);
    } else {
        lemma_sum_nonneg(s[0].1@);
        assert(s.drop_first()[i - 1] == s[i]);
        lemma_outstanding_index(s.drop_first(), i - 1, brand);
    }
}

/// The token ledger's whole state.
pub struct TokenLedger {
    pub tokens: Vec<(AccountId, BrandToken)>,
    pub credits: Vec<((AccountId, AccountId), Vec<Amount>)>,
    pub events: Vec<Event>,
}

impl TokenLedger {
    pub open spec fn spec_token(self, brand: AccountId) -> Option<BrandToken> {
        assoc_get(self.tokens@, brand)
    }

    /// The credit entries of `holder` against `brand`, oldest first;
    /// an absent book reads as empty.
    pub open spec fn spec_credits(self, brand: AccountId, holder: AccountId) -> Seq<Amount> {
        match assoc_get(self.credits@, (brand, holder)) {
            Some(v) => v@,
            None => Seq::<Amount>::empty(),
        }
    }

    /// What `holder` can actually spend against `brand` at `now`.
    pub open spec fn spec_spendable(self, brand: AccountId, holder: AccountId, now: Moment) -> int {
        match self.spec_token(brand) {
            Some(t) => spendable_sum(self.spec_credits(brand, holder), now, t.default_lifetime),
            None => 0,
        }
    }

    /// Well-formedness: unique keys, books only against existing tokens,
    /// and the conservation law `staked == amount + outstanding`.
    pub open spec fn wf(self) -> bool {
        &&& unique_keys(self.tokens@)
        &&& unique_keys(self.credits@)
        &&& (forall|i: int|
            0 <= i < self.credits@.len() ==> assoc_get(
                self.tokens@,
                (#[trigger] self.credits@[i]).0.0,
            ) is Some)
        &&& (forall|i: int|
            0 <= i < self.tokens@.len() ==> (#[trigger] self.tokens@[i]).1.staked as int
                == self.tokens@[i].1.amount + outstanding(self.credits@, self.tokens@[i].0))
    }

    pub fn new() -> (r: TokenLedger)
        ensures
            r.wf(),
            r.tokens@ == Seq::<(AccountId, BrandToken)>::empty(),
            r.credits@ == Seq::<((AccountId, AccountId), Vec<Amount>)>::empty(),
            r.events@ == Seq::<Event>::empty(),
    {
        TokenLedger { tokens: Vec::new(), credits: Vec::new(), events: Vec::new() }
    }

    fn find_token(&self, brand: AccountId) -> (r: Option<usize>)
        ensures
            match r {
                Some(i) => i < self.tokens.len() && self.tokens@[i as int].0 == brand && assoc_get(
                    self.tokens@,
                    brand,
                ) == Some(self.tokens@[i as int].1),
                None => assoc_get(self.tokens@, brand) is None,
            },
    {
        let n = self.tokens.len();
        let mut i: usize = 0;
        while i < n
            invariant
                n == self.tokens.len(),
                i <= n,
                forall|j: int| 0 <= j < i ==> (#[trigger] self.tokens@[j]).0 != brand,
            decreases n - i,
        {
            if self.tokens[i].0 == brand {
                proof {
                    lemma_assoc_get_first(self.tokens@, i as int);
                }
                return Some(i);
            }
            i += 1;
        }
        proof {
            lemma_assoc_get_absent(self.tokens@, brand);
        }
        None
    }

    fn find_book(&self, brand: AccountId, holder: AccountId) -> (r: Option<usize>)
        ensures
            match r {
                Some(i) => i < self.credits.len() && self.credits@[i as int].0 == (brand, holder)
                    && assoc_get(self.credits@, (brand, holder)) == Some(
                    self.credits@[i as int].1,
                ),
                None => assoc_get(self.credits@, (brand, holder)) is None,
            },
    {
        let n = self.credits.len();
        let mut i: usize = 0;
        while i < n
            invariant
                n == self.credits.len(),
                i <= n,
                forall|j: int| 0 <= j < i ==> (#[trigger] self.credits@[j]).0 != (brand, holder),
            decreases n - i,
        {
            if self.credits[i].0.0 == brand && self.credits[i].0.1 == holder {
                proof {
                    assert(self.credits@[i as int].0 == (brand, holder));
                    lemma_assoc_get_first(self.credits@, i as int);
                }
                return Some(i);
            }
            i += 1;
        }
        proof {
            lemma_assoc_get_absent(self.credits@, (brand, holder));
        }
        None
    }

    pub fn brand_token_by_id(&self, brand: AccountId) -> (r: Option<&BrandToken>)
        ensures
            match r {
                Some(t) => self.spec_token(brand) == Some(*t),
                None => self.spec_token(brand) is None,
            },
    {
        match self.find_token(brand) {
            Some(i) => Some(&self.tokens[i].1),
            None => None,
        }
    }

    pub fn utxo(&self, brand: AccountId, holder: AccountId) -> (r: Option<&Vec<Amount>>)
        ensures
            match r {
                Some(v) => assoc_get(self.credits@, (brand, holder)) == Some(*v),
                None => assoc_get(self.credits@, (brand, holder)) is None,
            },
    {
        match self.find_book(brand, holder) {
            Some(i) => Some(&self.credits[i].1),
            None => None,
        }
    }

    /// A book's sum fits in `u32`: it is bounded by the brand's `staked`.
    proof fn lemma_book_sum_bounded(self, i: int)
        requires
            self.wf(),
            0 <= i < self.credits@.len(),
        ensures
            0 <= sum_amounts(self.credits@[i].1@) <= u32::MAX,
    {
        let brand = self.credits@[i].0.0;
        lemma_sum_nonneg(self.credits@[i].1@);
        assert(assoc_get(self.tokens@, brand) is Some);
        lemma_assoc_get_some_index(self.tokens@, brand);
        let j = choose|j: int|
            0 <= j < self.tokens@.len() && self.tokens@[j].0 == brand && Some(self.tokens@[j].1)
                == assoc_get(self.tokens@, brand);
        assert(self.tokens@[j].1.staked as int == self.tokens@[j].1.amount + outstanding(
            self.credits@,
            brand,
        ));
        lemma_outstanding_index(self.credits@, i, brand);
    }

    /// Adds every entry of the book at `i`, expired or not.
    fn sum_book(&self, i: usize) -> (r: u32)
        requires
            self.wf(),
            i < self.credits.len(),
        ensures
            r as int == sum_amounts(self.credits@[i as int].1@),
    {
        proof {
            self.lemma_book_sum_bounded(i as int);
        }
        let ghost s = self.credits@[i as int].1@;
        let n = self.credits[i].1.len();
        let mut acc: u32 = 0;
        let mut j: usize = 0;
        while j < n
            invariant
                self.wf(),
                i < self.credits.len(),
                s == self.credits@[i as int].1@,
                n == s.len(),
                j <= n,
                acc as int == sum_amounts(s.take(j as int)),
                0 <= sum_amounts(s) <= u32::MAX,
            decreases n - j,
        {
            let e = self.credits[i].1[j];
            proof {
                assert(s.take(j + 1) =~= s.take(j as int).push(s[j as int]));
                lemma_sum_snoc(s.take(j as int), s[j as int]);
                lemma_sum_take_skip(s, j + 1);
                lemma_sum_nonneg(s.skip(j + 1));
            }
            acc = acc + e.amount;
            j += 1;
        }
        proof {
            assert(s.take(n as int) =~= s);
        }
        acc
    }

    /// Adds only the entries of the book at `i` that are not expired.
    fn spendable_book(&self, i: usize, now: Moment, lifetime: u8) -> (r: u32)
        requires
            self.wf(),
            i < self.credits.len(),
        ensures
            r as int == spendable_sum(self.credits@[i as int].1@, now, lifetime),
    {
        proof {
            self.lemma_book_sum_bounded(i as int);
        }
        let ghost s = self.credits@[i as int].1@;
        let n = self.credits[i].1.len();
        let mut acc: u32 = 0;
        let mut j: usize = 0;
        while j < n
            invariant
                self.wf(),
                i < self.credits.len(),
                s == self.credits@[i as int].1@,
                n == s.len(),
                j <= n,
                acc as int == spendable_sum(s.take(j as int), now, lifetime),
                0 <= sum_amounts(s) <= u32::MAX,
            decreases n - j,
        {
            let e = self.credits[i].1[j];
            proof {
                assert(s.take(j + 1) =~= s.take(j as int).push(s[j as int]));
                lemma_spendable_snoc(s.take(j as int), s[j as int], now, lifetime);
                lemma_sum_split(s.take(j + 1), now, lifetime);
                lemma_expired_nonneg(s.take(j + 1), now, lifetime);
                lemma_sum_take_skip(s, j + 1);
                lemma_sum_nonneg(s.skip(j + 1));
                lemma_spendable_nonneg(s.take(j as int), now, lifetime);
            }
            if !entry_is_expired(&e, now, lifetime) {
                acc = acc + e.amount;
            }
            j += 1;
        }
        proof {
            assert(s.take(n as int) =~= s);
        }
        acc
    }

    /// Creates the caller's brand token, staking `staked_amount` of
    /// currency; the token starts with pool and stake equal.
    pub fn create_new_token(
        &mut self,
        currency: &mut Currency,
        registry: &BrandRegistry,
        sender: AccountId,
        symbol: Vec<u8>,
        staked_amount: u32,
        default_lifetime: u8,
    ) -> (r: Result<(), Error>)
        requires
            old(self).wf(),
            old(currency).wf(),
        ensures
            final(self).wf(),
            final(currency).wf(),
            registry.spec_brand(sender) is None ==> r == Err::<(), Error>(Error::BrandNotExist),
            registry.spec_brand(sender) is Some && old(self).spec_token(sender) is Some ==> r
                == Err::<(), Error>(Error::AlreadyCreatedToken),
            registry.spec_brand(sender) is Some && old(self).spec_token(sender) is None && old(
                currency,
            ).spec_free(sender) < staked_amount ==> r == Err::<(), Error>(
                Error::InsufficientBalance,
            ),
            r is Err ==> *final(self) == *old(self) && *final(currency) == *old(currency),
            r is Ok <==> registry.spec_brand(sender) is Some && old(self).spec_token(sender)
                is None && staked_amount <= old(currency).spec_free(sender),
            r is Ok ==> (match final(self).spec_token(sender) {
                Some(t) => t.symbol@ == symbol@ && t.amount == staked_amount && t.staked
                    == staked_amount && t.default_lifetime == default_lifetime,
                None => false,
            }),
            r is Ok ==> (forall|b: AccountId|
                b != sender ==> #[trigger] final(self).spec_token(b) == old(self).spec_token(b)),
            r is Ok ==> final(self).credits@ == old(self).credits@,
            r is Ok ==> final(self).events@ == old(self).events@.push(
                Event::BrandTokenCreated { brand_id: sender },
            ),
            r is Ok ==> reserve_effect(
                *old(currency),
                *final(currency),
                sender,
                staked_amount as int,
            ),
    {
        if registry.brand_by_id(sender).is_none() {
            return Err(Error::BrandNotExist);
        }
        if self.find_token(sender).is_some() {
            return Err(Error::AlreadyCreatedToken);
        }
        if !currency.reserve(sender, staked_amount as Balance) {
            return Err(Error::InsufficientBalance);
        }
        let token = BrandToken {
            symbol,
            amount: staked_amount,
            staked: staked_amount,
            default_lifetime,
        };
        let ghost before = self.tokens@;
        self.tokens.push((sender, token));
        self.events.push(Event::BrandTokenCreated { brand_id: sender });
        proof {
            lemma_assoc_get_push(before, self.tokens@.last());
            assert forall|i: int| 0 <= i < self.credits@.len() implies assoc_get(
                self.tokens@,
                (#[trigger] self.credits@[i]).0.0,
            ) is Some by {
                assert(assoc_get(before, self.credits@[i].0.0) is Some);
            }
            assert forall|i: int|
                0 <= i < self.credits@.len() implies (#[trigger] self.credits@[i]).0.0
                != sender by {
                assert(assoc_get(before, self.credits@[i].0.0) is Some);
            }
            lemma_outstanding_absent(self.credits@, sender);
            assert forall|i: int|
                0 <= i < self.tokens@.len() implies (#[trigger] self.tokens@[i]).1.staked as int
                == self.tokens@[i].1.amount + outstanding(self.credits@, self.tokens@[i].0) by {
                if i < before.len() {
                    assert(self.tokens@[i] == before[i]);
                }
            }
        }
        Ok(())
    }

    /// The mint could overflow the token's `u32` counters; a caller must
    /// stay within them.
    pub open spec fn mint_fits(self, sender: AccountId, amount: u32) -> bool {
        match self.spec_token(sender) {
            Some(t) => t.staked + amount <= u32::MAX && t.amount + amount <= u32::MAX,
            None => true,
        }
    }

    /// Mints `amount` new token value, reserving as much currency: pool and
    /// stake grow together.
    pub fn mint(&mut self, currency: &mut Currency, sender: AccountId, amount: u32) -> (r: Result<
        (),
        Error,
    >)
        requires
            old(self).wf(),
            old(currency).wf(),
            old(self).mint_fits(sender, amount),
        ensures
            final(self).wf(),
            final(currency).wf(),
            old(self).spec_token(sender) is None ==> r == Err::<(), Error>(
                Error::BrandTokenNotFound,
            ),
            old(self).spec_token(sender) is Some && old(currency).spec_free(sender) < amount ==> r
                == Err::<(), Error>(Error::InsufficientBalance),
            r is Err ==> *final(self) == *old(self) && *final(currency) == *old(currency),
            r is Ok <==> old(self).spec_token(sender) is Some && amount <= old(currency).spec_free(
                sender,
            ),
            r is Ok ==> final(self).spec_token(sender) == Some(
                BrandToken {
                    symbol: old(self).spec_token(sender)->0.symbol,
                    amount: (old(self).spec_token(sender)->0.amount + amount) as u32,
                    staked: (old(self).spec_token(sender)->0.staked + amount) as u32,
                    default_lifetime: old(self).spec_token(sender)->0.default_lifetime,
                },
            ),
            r is Ok ==> (forall|b: AccountId|
                b != sender ==> #[trigger] final(self).spec_token(b) == old(self).spec_token(b)),
            r is Ok ==> final(self).credits@ == old(self).credits@,
            r is Ok ==> final(self).events@ == old(self).events@.push(Event::Mint { amount }),
            r is Ok ==> reserve_effect(*old(currency), *final(currency), sender, amount as int),
    {
        let i = match self.find_token(sender) {
            Some(i) => i,
            None => {
                return Err(Error::BrandTokenNotFound);
            },
        };
        if !currency.reserve(sender, amount as Balance) {
            return Err(Error::InsufficientBalance);
        }
        let ghost before = self.tokens@;
        let ta = self.tokens[i].1.amount;
        let ts = self.tokens[i].1.staked;
        self.tokens[i].1.amount = ta + amount;
        let ghost mid = self.tokens@;
        self.tokens[i].1.staked = ts + amount;
        self.events.push(Event::Mint { amount });
        proof {
            lemma_assoc_get_update(before, i as int, mid[i as int]);
            lemma_assoc_get_update(mid, i as int, self.tokens@[i as int]);
            assert forall|i2: int| 0 <= i2 < self.credits@.len() implies assoc_get(
                self.tokens@,
                (#[trigger] self.credits@[i2]).0.0,
            ) is Some by {
                assert(assoc_get(before, self.credits@[i2].0.0) is Some);
            }
            assert forall|i2: int|
                0 <= i2 < self.tokens@.len() implies (#[trigger] self.tokens@[i2]).1.staked as int
                == self.tokens@[i2].1.amount + outstanding(self.credits@, self.tokens@[i2].0) by {
                if i2 != i as int {
                    assert(self.tokens@[i2] == before[i2]);
                } else {
                    assert(before[i as int].1.staked as int == before[i as int].1.amount
                        + outstanding(self.credits@, before[i as int].0));
                }
            }
        }
        Ok(())
    }

    /// Burns `amount` token value, releasing as much reserved currency:
    /// pool and stake shrink together.
    pub fn burn(&mut self, currency: &mut Currency, sender: AccountId, amount: u32) -> (r: Result<
        (),
        Error,
    >)
        requires
            old(self).wf(),
            old(currency).wf(),
        ensures
            final(self).wf(),
            final(currency).wf(),
            old(self).spec_token(sender) is None ==> r == Err::<(), Error>(
                Error::BrandTokenNotFound,
            ),
            old(self).spec_token(sender) is Some && old(self).spec_token(sender)->0.amount < amount
                ==> r == Err::<(), Error>(Error::InsufficientAmount),
            r is Err ==> *final(self) == *old(self) && *final(currency) == *old(currency),
            r is Ok <==> old(self).spec_token(sender) is Some && amount <= old(self).spec_token(
                sender,
            )->0.amount,
            r is Ok ==> final(self).spec_token(sender) == Some(
                BrandToken {
                    symbol: old(self).spec_token(sender)->0.symbol,
                    amount: (old(self).spec_token(sender)->0.amount - amount) as u32,
                    staked: (old(self).spec_token(sender)->0.staked - amount) as u32,
                    default_lifetime: old(self).spec_token(sender)->0.default_lifetime,
                },
            ),
            r is Ok ==> (forall|b: AccountId|
                b != sender ==> #[trigger] final(self).spec_token(b) == old(self).spec_token(b)),
            r is Ok ==> final(self).credits@ == old(self).credits@,
            r is Ok ==> final(self).events@ == old(self).events@.push(Event::Burn { amount }),
            r is Ok ==> unreserve_effect(*old(currency), *final(currency), sender, amount as int),
    {
        let i = match self.find_token(sender) {
            Some(i) => i,
            None => {
                return Err(Error::BrandTokenNotFound);
            },
        };
        let ta = self.tokens[i].1.amount;
        let ts = self.tokens[i].1.staked;
        if amount > ta {
            return Err(Error::InsufficientAmount);
        }
        proof {
            assert(self.tokens@[i as int].1.staked as int == self.tokens@[i as int].1.amount
                + outstanding(self.credits@, self.tokens@[i as int].0));
            lemma_outstanding_nonneg(self.credits@, self.tokens@[i as int].0);
        }
        let ghost before = self.tokens@;
        self.tokens[i].1.amount = ta - amount;
        let ghost mid = self.tokens@;
        self.tokens[i].1.staked = ts - amount;
        currency.unreserve(sender, amount as Balance);
        self.events.push(Event::Burn { amount });
        proof {
            lemma_assoc_get_update(before, i as int, mid[i as int]);
            lemma_assoc_get_update(mid, i as int, self.tokens@[i as int]);
            assert forall|i2: int| 0 <= i2 < self.credits@.len() implies assoc_get(
                self.tokens@,
                (#[trigger] self.credits@[i2]).0.0,
            ) is Some by {
                assert(assoc_get(before, self.credits@[i2].0.0) is Some);
            }
            assert forall|i2: int|
                0 <= i2 < self.tokens@.len() implies (#[trigger] self.tokens@[i2]).1.staked as int
                == self.tokens@[i2].1.amount + outstanding(self.credits@, self.tokens@[i2].0) by {
                if i2 != i as int {
                    assert(self.tokens@[i2] == before[i2]);
                } else {
                    assert(before[i as int].1.staked as int == before[i as int].1.amount
                        + outstanding(self.credits@, before[i as int].0));
                }
            }
        }
        Ok(())
    }

    /// Moves `amount` out of the brand's pool into a fresh credit entry
    /// for the caller, timestamped `now`.
    pub fn earn(
        &mut self,
        sender: AccountId,
        amount: u32,
        brand_id: AccountId,
        now: Moment,
    ) -> (r: Result<(), Error>)
        requires
            old(self).wf(),
        ensures
            final(self).wf(),
            old(self).spec_token(brand_id) is None ==> r == Err::<(), Error>(
                Error::BrandTokenNotFound,
            ),
            old(self).spec_token(brand_id) is Some && old(self).spec_token(brand_id)->0.amount
                < amount ==> r == Err::<(), Error>(Error::InsufficientAmount),
            r is Err ==> *final(self) == *old(self),
            r is Ok <==> old(self).spec_token(brand_id) is Some && amount <= old(self).spec_token(
                brand_id,
            )->0.amount,
            r is Ok ==> final(self).spec_token(brand_id) == Some(
                BrandToken {
                    symbol: old(self).spec_token(brand_id)->0.symbol,
                    amount: (old(self).spec_token(brand_id)->0.amount - amount) as u32,
                    staked: old(self).spec_token(brand_id)->0.staked,
                    default_lifetime: old(self).spec_token(brand_id)->0.default_lifetime,
                },
            ),
            r is Ok ==> (forall|b: AccountId|
                b != brand_id ==> #[trigger] final(self).spec_token(b) == old(self).spec_token(
                    b,
                )),
            r is Ok ==> final(self).spec_credits(brand_id, sender) == old(self).spec_credits(
                brand_id,
                sender,
            ).push(Amount { amount, issued_date: now }),
            r is Ok ==> (forall|b: AccountId, h: AccountId|
                b != brand_id || h != sender ==> #[trigger] final(self).spec_credits(b, h) == old(
                    self,
                ).spec_credits(b, h)),
            r is Ok ==> final(self).events@ == old(self).events@.push(
                Event::Earned { amount, issued_date: now },
            ),
    {
        let i = match self.find_token(brand_id) {
            Some(i) => i,
            None => {
                return Err(Error::BrandTokenNotFound);
            },
        };
        let ta = self.tokens[i].1.amount;
        if amount > ta {
            return Err(Error::InsufficientAmount);
        }
        let ghost before_tokens = self.tokens@;
        self.tokens[i].1.amount = ta - amount;
        proof {
            lemma_assoc_get_update(before_tokens, i as int, self.tokens@[i as int]);
        }
        let entry = Amount { amount, issued_date: now };
        let ghost before_credits = self.credits@;
        match self.find_book(brand_id, sender) {
            Some(j) => {
                self.credits[j].1.push(entry);
                proof {
                    lemma_assoc_get_update(before_credits, j as int, self.credits@[j as int]);
                    lemma_sum_snoc(before_credits[j as int].1@, entry);
                    assert forall|b2: AccountId| #[trigger] outstanding(self.credits@, b2)
                        == outstanding(before_credits, b2) + (if b2 == brand_id {
                        amount as int
                    } else {
                        0
                    }) by {
                        lemma_outstanding_update(
                            before_credits,
                            j as int,
                            self.credits@[j as int],
                            b2,
                        );
                    }
                    assert(self.spec_credits(brand_id, sender) == old(self).spec_credits(
                        brand_id,
                        sender,
                    ).push(entry));
                }
            },
            None => {
                let mut entries: Vec<Amount> = Vec::new();
                entries.push(entry);
                self.credits.push(((brand_id, sender), entries));
                proof {
                    lemma_assoc_get_push(before_credits, self.credits@.last());
                    let book = self.credits@.last().1@;
                    assert(book =~= seq![entry]);
                    assert(book.drop_first() =~= Seq::<Amount>::empty());
                    assert(sum_amounts(book) == book[0].amount + sum_amounts(book.drop_first()));
                    assert(sum_amounts(book.drop_first()) == 0);
                    assert(sum_amounts(book) == amount);
                    assert forall|b2: AccountId| #[trigger] outstanding(self.credits@, b2)
                        == outstanding(before_credits, b2) + (if b2 == brand_id {
                        amount as int
                    } else {
                        0
                    }) by {
                        lemma_outstanding_push(before_credits, self.credits@.last(), b2);
                    }
                    assert(old(self).spec_credits(brand_id, sender) =~= Seq::<Amount>::empty());
                    assert(self.spec_credits(brand_id, sender) =~= old(self).spec_credits(
                        brand_id,
                        sender,
                    ).push(entry));
                }
            },
        }
        self.events.push(Event::Earned { amount, issued_date: now });
        proof {
            assert forall|i2: int| 0 <= i2 < self.credits@.len() implies assoc_get(
                self.tokens@,
                (#[trigger] self.credits@[i2]).0.0,
            ) is Some by {
                if i2 < before_credits.len() {
                    assert(self.credits@[i2].0 == before_credits[i2].0);
                    assert(assoc_get(before_tokens, before_credits[i2].0.0) is Some);
                } else {
                    assert(self.credits@[i2].0.0 == brand_id);
                    assert(assoc_get(before_tokens, brand_id) is Some);
                }
            }
            assert forall|i2: int|
                0 <= i2 < self.tokens@.len() implies (#[trigger] self.tokens@[i2]).1.staked as int
                == self.tokens@[i2].1.amount + outstanding(self.credits@, self.tokens@[i2].0) by {
                if i2 != i as int {
                    assert(self.tokens@[i2] == before_tokens[i2]);
                    assert(before_tokens[i2].1.staked as int == before_tokens[i2].1.amount
                        + outstanding(before_credits, before_tokens[i2].0));
                } else {
                    assert(before_tokens[i2].1.staked as int == before_tokens[i2].1.amount
                        + outstanding(before_credits, before_tokens[i2].0));
                }
            }
        }
        Ok(())
    }
    /// The sum of every credit entry of `user_id` against `brand_id`,
    /// expired entries included.
    pub fn cal_sum_balance(&self, brand_id: AccountId, user_id: AccountId) -> (r: u32)
        requires
            self.wf(),
        ensures
            r as int == sum_amounts(self.spec_credits(brand_id, user_id)),
    {
        match self.find_book(brand_id, user_id) {
            Some(i) => self.sum_book(i),
            None => {
                proof {
                    assert(self.spec_credits(brand_id, user_id) =~= Seq::<Amount>::empty());
                }
                0
            },
        }
    }

    /// When a credit spend goes through: the raw balance covers the
    /// amount, the brand has a token, and the non-expired balance covers
    /// the amount as well.
    pub open spec fn spec_transfer_allowed(
        self,
        from: AccountId,
        brand_id: AccountId,
        amount: u32,
        now: Moment,
    ) -> bool {
        &&& sum_amounts(self.spec_credits(brand_id, from)) >= amount
        &&& self.spec_token(brand_id) is Some
        &&& self.spec_spendable(brand_id, from, now) >= amount
    }

    /// What a successful credit spend does to the ledger.
    pub open spec fn spec_transfer_ok(
        l0: TokenLedger,
        l1: TokenLedger,
        from: AccountId,
        to: AccountId,
        brand_id: AccountId,
        amount: u32,
        now: Moment,
    ) -> bool {
        let t = l0.spec_token(brand_id)->0;
        let book = l0.spec_credits(brand_id, from);
        &&& l1.spec_credits(brand_id, from) == prune_entries(
            consume_entries(book, amount as int, now, t.default_lifetime),
        )
        &&& l1.spec_token(brand_id) == Some(
            BrandToken {
                symbol: t.symbol,
                amount: (t.amount + expired_sum(book, now, t.default_lifetime) + amount) as u32,
                staked: t.staked,
                default_lifetime: t.default_lifetime,
            },
        )
        &&& (forall|b: AccountId|
            b != brand_id ==> #[trigger] l1.spec_token(b) == l0.spec_token(b))
        &&& (forall|b: AccountId, h: AccountId|
            b != brand_id || h != from ==> #[trigger] l1.spec_credits(b, h) == l0.spec_credits(
                b,
                h,
            ))
        &&& l1.events@ == l0.events@.push(Event::Transferred { amount, from, to })
    }

    /// Spends `amount` of `from`'s credit against `brand_id`, walking the
    /// entries oldest first: an expired entry is reclaimed into the brand's
    /// pool and never counted toward the spend; live entries are consumed
    /// until the amount is covered; the spent amount returns to the pool;
    /// emptied entries are pruned.  The spend fails where the raw balance,
    /// or the spendable (non-expired) balance, does not cover `amount`.
    #[verifier::rlimit(50)]
    pub fn do_transfer(
        &mut self,
        from: AccountId,
        to: AccountId,
        brand_id: AccountId,
        amount: u32,
        now: Moment,
    ) -> (r: Result<(), Error>)
        requires
            old(self).wf(),
        ensures
            final(self).wf(),
            r is Err ==> *final(self) == *old(self),
            sum_amounts(old(self).spec_credits(brand_id, from)) < amount ==> r == Err::<(), Error>(
                Error::InsufficientBalance,
            ),
            sum_amounts(old(self).spec_credits(brand_id, from)) >= amount && old(self).spec_token(
                brand_id,
            ) is None ==> r == Err::<(), Error>(Error::NotSupportedYet),
            sum_amounts(old(self).spec_credits(brand_id, from)) >= amount && old(self).spec_token(
                brand_id,
            ) is Some && old(self).spec_spendable(brand_id, from, now) < amount ==> r == Err::<
                (),
                Error,
            >(Error::InsufficientBalance),
            r is Ok <==> old(self).spec_transfer_allowed(from, brand_id, amount, now),
            r is Ok ==> Self::spec_transfer_ok(
                *old(self),
                *final(self),
                from,
                to,
                brand_id,
                amount,
                now,
            ),
    {
        let book_idx = self.find_book(brand_id, from);
        let total: u32 = match book_idx {
            Some(i) => self.sum_book(i),
            None => {
                proof {
                    assert(self.spec_credits(brand_id, from) =~= Seq::<Amount>::empty());
                }
                0
            },
        };
        if total < amount {
            return Err(Error::InsufficientBalance);
        }
        let tok_idx = match self.find_token(brand_id) {
            Some(i) => i,
            None => {
                return Err(Error::NotSupportedYet);
            },
        };
        let lifetime = self.tokens[tok_idx].1.default_lifetime;
        let spendable_now: u32 = match book_idx {
            Some(i) => self.spendable_book(i, now, lifetime),
            None => 0,
        };
        if spendable_now < amount {
            return Err(Error::InsufficientBalance);
        }
        let ghost book0 = self.spec_credits(brand_id, from);
        let mut kept: Vec<Amount> = Vec::new();
        let mut reclaimed: u32 = 0;
        let mut tmp: u32 = amount;
        match book_idx {
            Some(i) => {
                proof {
                    self.lemma_book_sum_bounded(i as int);
                    assert(book0.take(0) =~= Seq::<Amount>::empty());
                }
                let n = self.credits[i].1.len();
                let mut j: usize = 0;
                while j < n
                    invariant
                        self.wf(),
                        i < self.credits.len(),
                        self.credits@[i as int].0 == (brand_id, from),
                        book0 == self.credits@[i as int].1@,
                        n == book0.len(),
                        j <= n,
                        kept@ == prune_entries(
                            consume_entries(book0.take(j as int), amount as int, now, lifetime),
                        ),
                        tmp as int == remaining_after(
                            book0.take(j as int),
                            amount as int,
                            now,
                            lifetime,
                        ),
                        reclaimed as int == expired_sum(book0.take(j as int), now, lifetime),
                        tmp <= amount,
                        0 <= sum_amounts(book0) <= u32::MAX,
                    decreases n - j,
                {
                    let e = self.credits[i].1[j];
                    proof {
                        assert(book0.take(j + 1) =~= book0.take(j as int).push(book0[j as int]));
                        lemma_consume_snoc(
                            book0.take(j as int),
                            book0[j as int],
                            amount as int,
                            now,
                            lifetime,
                        );
                        lemma_prune_snoc(
                            consume_entries(book0.take(j as int), amount as int, now, lifetime),
                            step_entry(book0[j as int], tmp as int, now, lifetime),
                        );
                        lemma_expired_snoc(book0.take(j as int), book0[j as int], now, lifetime);
                        lemma_sum_split(book0.take(j + 1), now, lifetime);
                        lemma_spendable_nonneg(book0.take(j + 1), now, lifetime);
                        lemma_sum_take_skip(book0, j + 1);
                        lemma_sum_nonneg(book0.skip(j + 1));
                    }
                    if entry_is_expired(&e, now, lifetime) {
                        reclaimed = reclaimed + e.amount;
                    } else if e.amount >= tmp {
                        let newe = Amount { amount: e.amount - tmp, issued_date: e.issued_date };
                        tmp = 0;
                        if newe.amount > 0 {
                            kept.push(newe);
                        }
                    } else {
                        tmp = tmp - e.amount;
                    }
                    j += 1;
                }
                proof {
                    assert(book0.take(n as int) =~= book0);
                }
                let ghost before_credits = self.credits@;
                self.credits[i].1 = kept;
                proof {
                    lemma_assoc_get_update(before_credits, i as int, self.credits@[i as int]);
                    lemma_sum_split(book0, now, lifetime);
                    lemma_consume_sum(book0, amount as int, now, lifetime);
                    lemma_prune_sum(consume_entries(book0, amount as int, now, lifetime));
                    assert(self.spec_credits(brand_id, from) == prune_entries(
                        consume_entries(book0, amount as int, now, lifetime),
                    ));
                    assert forall|b2: AccountId| #[trigger] outstanding(self.credits@, b2)
                        == outstanding(old(self).credits@, b2) - (if b2 == brand_id {
                        reclaimed + amount
                    } else {
                        0
                    }) by {
                        lemma_outstanding_update(
                            before_credits,
                            i as int,
                            self.credits@[i as int],
                            b2,
                        );
                    }
                    lemma_outstanding_index(old(self).credits@, i as int, brand_id);
                    assert(reclaimed + amount <= outstanding(old(self).credits@, brand_id));
                    assert forall|b: AccountId, h: AccountId|
                        b != brand_id || h != from implies #[trigger] self.spec_credits(b, h)
                        == old(self).spec_credits(b, h) by {}
                    assert forall|i2: int|
                        0 <= i2 < self.credits@.len() implies (#[trigger] self.credits@[i2]).0
                        == old(self).credits@[i2].0 by {}
                }
            },
            None => {
                proof {
                    assert(book0 =~= Seq::<Amount>::empty());
                    assert(sum_amounts(book0) == 0);
                    assert(amount == 0);
                    assert(expired_sum(book0, now, lifetime) == 0);
                    assert(remaining_after(book0, amount as int, now, lifetime) == 0);
                    assert(consume_entries(book0, amount as int, now, lifetime) == book0);
                    assert(prune_entries(book0) == book0);
                    assert(self.spec_credits(brand_id, from) == prune_entries(
                        consume_entries(book0, amount as int, now, lifetime),
                    ));
                    assert forall|b2: AccountId| #[trigger] outstanding(self.credits@, b2)
                        == outstanding(old(self).credits@, b2) - (if b2 == brand_id {
                        reclaimed + amount
                    } else {
                        0
                    }) by {}
                    lemma_outstanding_nonneg(old(self).credits@, brand_id);
                    assert(reclaimed + amount <= outstanding(old(self).credits@, brand_id));
                }
            },
        }
        let ghost before_tokens = self.tokens@;
        let ta = self.tokens[tok_idx].1.amount;
        proof {
            assert(before_tokens[tok_idx as int].1.staked as int
                == before_tokens[tok_idx as int].1.amount + outstanding(
                old(self).credits@,
                brand_id,
            ));
        }
        self.tokens[tok_idx].1.amount = ta + reclaimed + amount;
        self.events.push(Event::Transferred { amount, from, to });
        proof {
            lemma_assoc_get_update(before_tokens, tok_idx as int, self.tokens@[tok_idx as int]);
            assert forall|i2: int| 0 <= i2 < self.credits@.len() implies assoc_get(
                self.tokens@,
                (#[trigger] self.credits@[i2]).0.0,
            ) is Some by {
                assert(self.credits@[i2].0 == old(self).credits@[i2].0);
                assert(assoc_get(before_tokens, old(self).credits@[i2].0.0) is Some);
            }
            assert forall|i2: int|
                0 <= i2 < self.tokens@.len() implies (#[trigger] self.tokens@[i2]).1.staked as int
                == self.tokens@[i2].1.amount + outstanding(self.credits@, self.tokens@[i2].0) by {
                if i2 != tok_idx as int {
                    assert(self.tokens@[i2] == before_tokens[i2]);
                    assert(before_tokens[i2].1.staked as int == before_tokens[i2].1.amount
                        + outstanding(old(self).credits@, before_tokens[i2].0));
                    assert(self.tokens@[i2].0 != brand_id);
                } else {
                    assert(before_tokens[i2].1.staked as int == before_tokens[i2].1.amount
                        + outstanding(old(self).credits@, brand_id));
                }
            }
        }
        Ok(())
    }
}

/// Conservation: in a well-formed ledger a brand's stake always equals
/// its pool plus all credit outstanding against it; nothing outstanding
/// is negative, so the pool never exceeds the stake and a burn can never
/// take more than the pool holds.  Every operation of the ledger keeps
/// this, so it holds after any sequence of creations, mints, burns,
/// earns and spends.
pub proof fn lemma_conservation(l: TokenLedger, brand: AccountId)
    requires
        l.wf(),
        l.spec_token(brand) is Some,
    ensures
        l.spec_token(brand)->0.staked as int == l.spec_token(brand)->0.amount + outstanding(
            l.credits@,
            brand,
        ),
        outstanding(l.credits@, brand) >= 0,
        l.spec_token(brand)->0.amount <= l.spec_token(brand)->0.staked,
{
    lemma_assoc_get_some_index(l.tokens@, brand);
    let i = choose|i: int|
        0 <= i < l.tokens@.len() && #[trigger] l.tokens@[i] == (brand, l.spec_token(brand)->0);
    assert(l.tokens@[i].1.staked as int == l.tokens@[i].1.amount + outstanding(
        l.credits@,
        l.tokens@[i].0,
    ));
    lemma_outstanding_nonneg(l.credits@, brand);
}

/// Whether an entry has outlived thirty days per lifetime month.
pub fn entry_is_expired(e: &Amount, now: Moment, lifetime: u8) -> (r: bool)
    ensures
        r == entry_expired(*e, now, lifetime),
{
    let age = if now >= e.issued_date {
        now - e.issued_date
    } else {
        0
    };
    age >= SECONDS_PER_MONTH * (lifetime as u64)
}

/// The native-currency value of a token amount.
pub fn u32_to_balance(input: u32) -> (r: Balance)
    ensures
        r == input as Balance,
{
    input as Balance
}

} // verus!
