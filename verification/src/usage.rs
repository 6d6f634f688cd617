//! Usage history in buckets of time.

use crate::model::{AppId, ByteCounts};
use vstd::prelude::*;

verus! {

/// How long a bucket is.
#[derive(Debug, Clone, Copy, PartialEq, Eq, Structural)]
pub enum Granularity {
    Minute,
    Hour,
    Day,
}

impl Granularity {
    /// The length of a bucket in milliseconds.
    pub open spec fn width(self) -> nat {
        match self {
            Granularity::Minute => 60 * 1000,
            Granularity::Hour => 60 * 60 * 1000,
            Granularity::Day => 24 * 60 * 60 * 1000,
        }
    }

    /// The length of a bucket in milliseconds.
    pub fn width_ms(self) -> (w: u64)
        ensures
            w == self.width(),
    {
        match self {
            Granularity::Minute => 60_000,
            Granularity::Hour => 3_600_000,
            Granularity::Day => 86_400_000,
        }
    }

    /// The start of the bucket that a time falls into: the last multiple of the
    /// bucket's length that is not after it.
    pub fn bucket_start(self, at_ms: u64) -> (b: u64)
        ensures
            b == at_ms - at_ms as nat % self.width(),
            b as nat % self.width() == 0,
            b <= at_ms < b + self.width(),
    {
        let w: u64 = self.width_ms();
        proof {
            let a = at_ms as int;
            let n = self.width() as int;
            vstd::arithmetic::div_mod::lemma_fundamental_div_mod(a, n);
            assert(n * (a / n) == (a / n) * n) by (nonlinear_arith);
            vstd::arithmetic::div_mod::lemma_mod_multiples_basic(a / n, n);
        }
        at_ms - (at_ms % w)
    }
}

/// What usage to give: one application's or all of them added up, over a span
/// of time.
#[derive(Debug, Clone, PartialEq, Eq)]
pub struct UsageQuery {
    pub app: Option<AppId>,
    pub from_ms: u64,
    pub to_ms: u64,
    pub granularity: Granularity,
}

/// An application's bytes within one bucket.
#[derive(Debug, Clone, PartialEq, Eq)]
pub struct UsageBucket {
    pub app: AppId,
    pub bucket_start_ms: u64,
    pub bytes: ByteCounts,
}

/// A bucket starts at a multiple of its length, so the start of a day's bucket
/// starts an hour's and a minute's, and the start of an hour's a minute's.
pub proof fn law_buckets_nest(b: nat)
    ensures
        b % Granularity::Day.width() == 0 ==> b % Granularity::Hour.width() == 0,
        b % Granularity::Hour.width() == 0 ==> b % Granularity::Minute.width() == 0,
{
    assert(Granularity::Day.width() == 86_400_000 && Granularity::Hour.width() == 3_600_000
        && Granularity::Minute.width() == 60_000);
    assert(b % 86_400_000 == 0 ==> b % 3_600_000 == 0);
    assert(b % 3_600_000 == 0 ==> b % 60_000 == 0);
}

/// Buckets are as wide as their name says, in milliseconds.
pub proof fn law_buckets_are_as_wide_as_they_say()
    ensures
        Granularity::Minute.width() == 60_000,
        Granularity::Hour.width() == 3_600_000,
        Granularity::Day.width() == 86_400_000,
{
}

} // verus!
