//! A deterministic ledger-and-marketplace state machine.
//!
//! The crate tracks brand-issued loyalty credit (a fungible token whose
//! balances decay over time and are consumed oldest-first) and brand-issued
//! collectible assets (unique records whose storage is metered by
//! deposits held in an external reservable-currency ledger).  Every public
//! operation is atomic: it either succeeds with the stated effect or
//! returns a typed error and leaves all state untouched.

use vstd::prelude::*;

pub mod assoc;
pub mod currency;
pub mod ids;
pub mod market;
pub mod scheduler;
pub mod registry;
pub mod token;

verus! {

/// Opaque external account identifier.
pub type AccountId = u64;

/// Amount of the native (reservable) currency.
pub type Balance = u64;

/// A point in time, in seconds since an arbitrary epoch.
pub type Moment = u64;

/// Thirty days, the unit in which credit and asset lifetimes are granted.
pub const SECONDS_PER_MONTH: u64 = 2592000;

/// The grace period an overdue asset is allowed beyond its lifetime.
pub const GRACE_SECONDS: u64 = 604800;

/// Whether two byte strings hold the same bytes.
pub fn bytes_equal(a: &Vec<u8>, b: &Vec<u8>) -> (r: bool)
    ensures
        r == (a@ == b@),
{
    if a.len() != b.len() {
        proof {
            assert(a@ != b@);
        }
        return false;
    }
    let n = a.len();
    let mut i: usize = 0;
    while i < n
        invariant
            n == a.len() && n == b.len(),
            i <= n,
            forall|j: int| 0 <= j < i ==> a@[j] == b@[j],
        decreases n - i,
    {
        if a[i] != b[i] {
            proof {
                assert(a@ != b@);
            }
            return false;
        }
        i += 1;
    }
    proof {
        assert(a@ =~= b@);
    }
    true
}

/// A fresh copy of a byte string.
pub fn bytes_clone(a: &Vec<u8>) -> (r: Vec<u8>)
    ensures
        r@ == a@,
{
    let n = a.len();
    let mut r: Vec<u8> = Vec::new();
    let mut i: usize = 0;
    while i < n
        invariant
            n == a.len(),
            i <= n,
            r@ == a@.take(i as int),
        decreases n - i,
    {
        r.push(a[i]);
        proof {
            assert(r@ =~= a@.take(i + 1));
        }
        i += 1;
    }
    proof {
        assert(a@.take(n as int) =~= a@);
    }
    r
}

} // verus!
