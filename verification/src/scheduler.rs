//! The offchain trigger's decision logic: when the periodic expiry sweep
//! is due, and what one accepted submission does.  The host performs the
//! actual transaction submission and hands the block number back in.

use vstd::prelude::*;

use crate::Moment;
use crate::market::Error;
use crate::market::Marketplace;
use crate::market::sweep_events;
use crate::market::sweep_tokens;

verus! {

/// Blocks between two offchain submissions: about one day of blocks.
pub const SUBMIT_INTERVAL_BLOCKS: u64 = 144000;

/// The scheduler's state: when the next unsigned submission is accepted,
/// and how far ahead each accepted one pushes that mark.
pub struct Scheduler {
    pub next_unsigned_at: u64,
    pub unsigned_interval: u64,
}

impl Scheduler {
    pub fn new(unsigned_interval: u64) -> (r: Scheduler)
        ensures
            r.next_unsigned_at == 0,
            r.unsigned_interval == unsigned_interval,
    {
        Scheduler { next_unsigned_at: 0, unsigned_interval }
    }

    /// The offchain worker's decision: it submits once per fixed window
    /// of blocks and stays silent otherwise.
    pub fn offchain_due(block_number: u64) -> (r: bool)
        ensures
            r == (block_number % SUBMIT_INTERVAL_BLOCKS == 0),
    {
        block_number % SUBMIT_INTERVAL_BLOCKS == 0
    }

    /// One accepted unsigned submission: runs the marketplace's expiry
    /// sweep and moves the acceptance mark one interval past the block
    /// that carried the submission.
    pub fn submit_number_unsigned(
        &mut self,
        market: &mut Marketplace,
        number: u64,
        now: Moment,
    ) -> (r: Result<(), Error>)
        requires
            old(market).wf(),
            number + old(self).unsigned_interval <= u64::MAX,
        ensures
            final(market).wf(),
            r is Ok,
            final(market).tokens@ == sweep_tokens(old(market).tokens@, now),
            final(market).events@ == old(market).events@ + sweep_events(old(market).tokens@, now),
            final(market).collections@ == old(market).collections@,
            final(market).deposit_per_byte == old(market).deposit_per_byte,
            final(self).next_unsigned_at == number + old(self).unsigned_interval,
            final(self).unsigned_interval == old(self).unsigned_interval,
    {
        let r = market.check_expire_nft(now);
        self.next_unsigned_at = number + self.unsigned_interval;
        r
    }
}

} // verus!
