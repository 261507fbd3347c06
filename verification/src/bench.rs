//! The whole-number part of the benchmark's latency summary: the least, the
//! greatest and the total of a list of latencies in nanoseconds.
use vstd::prelude::*;
use vstd::string::*;

verus! {

/// The sum of the latencies.
pub open spec fn total(s: Seq<u128>) -> int
    decreases s.len(),
{
    if s.len() == 0 {
        0
    } else {
        total(s.drop_last()) + s.last()
    }
}

/// The least latency, or 0 when there is none.
pub fn min_nanos(lats: &[u128]) -> (m: u128)
    ensures
        lats@.len() == 0 ==> m == 0,
        lats@.len() > 0 ==> (exists|i: int| 0 <= i < lats@.len() && m == lats@[i]) && forall|i: int|
            0 <= i < lats@.len() ==> m <= lats@[i],
{
    if lats.len() == 0 {
        return 0;
    }
    let mut m = lats[0];
    let mut i: usize = 1;
    while i < lats.len()
        invariant
            1 <= i <= lats@.len(),
            exists|j: int| 0 <= j < i && m == lats@[j],
            forall|j: int| 0 <= j < i ==> m <= lats@[j],
        decreases lats@.len() - i,
    {
        if lats[i] < m {
            m = lats[i];
        }
        i = i + 1;
    }
    m
}

/// The greatest latency, or 0 when there is none.
pub fn max_nanos(lats: &[u128]) -> (m: u128)
    ensures
        lats@.len() == 0 ==> m == 0,
        lats@.len() > 0 ==> (exists|i: int| 0 <= i < lats@.len() && m == lats@[i]) && forall|i: int|
            0 <= i < lats@.len() ==> lats@[i] <= m,
{
    if lats.len() == 0 {
        return 0;
    }
    let mut m = lats[0];
    let mut i: usize = 1;
    while i < lats.len()
        invariant
            1 <= i <= lats@.len(),
            exists|j: int| 0 <= j < i && m == lats@[j],
            forall|j: int| 0 <= j < i ==> lats@[j] <= m,
        decreases lats@.len() - i,
    {
        if lats[i] > m {
            m = lats[i];
        }
        i = i + 1;
    }
    m
}

proof fn lemma_total_monotone(s: Seq<u128>, i: int)
    requires
        0 <= i <= s.len(),
    ensures
        total(s.take(i)) <= total(s),
        total(s.take(i)) >= 0,
    decreases s.len() - i,
{
    if i < s.len() {
        lemma_total_monotone(s, i + 1);
        assert(s.take(i + 1).drop_last() =~= s.take(i));
    } else {
        assert(s.take(i) =~= s);
    }
    lemma_total_nonneg(s.take(i));
}

proof fn lemma_total_nonneg(s: Seq<u128>)
    ensures
        total(s) >= 0,
    decreases s.len(),
{
    if s.len() > 0 {
        lemma_total_nonneg(s.drop_last());
    }
}

/// The sum of the latencies; the sum must fit in a `u128`.
pub fn total_nanos(lats: &[u128]) -> (t: u128)
    requires
        total(lats@) <= u128::MAX,
    ensures
        t == total(lats@),
{
    let mut t: u128 = 0;
    let mut i: usize = 0;
    while i < lats.len()
        invariant
            i <= lats@.len(),
            t == total(lats@.take(i as int)),
            total(lats@) <= u128::MAX,
        decreases lats@.len() - i,
    {
        proof {
            assert(lats@.take(i + 1).drop_last() =~= lats@.take(i as int));
            lemma_total_monotone(lats@, i + 1);
        }
        t = t + lats[i];
        i = i + 1;
    }
    proof {
        assert(lats@.take(i as int) =~= lats@);
    }
    t
}

/// The benchmark's settings.
#[derive(Clone)]
pub struct Config {
    pub host: String,
    pub port: u16,
    pub requests: usize,
    pub concurrency: usize,
    pub value_size: usize,
    pub threads: usize,
}

impl Default for Config {
    /// A million requests from 200 clients with 64-byte values, against the
    /// server on this machine.
    fn default() -> (c: Self)
        ensures
            c.host@ == "127.0.0.1"@,
            c.port == 6080,
            c.requests == 1_000_000,
            c.concurrency == 200,
            c.value_size == 64,
            c.threads == 1,
    {
        Config {
            host: "127.0.0.1".to_owned(),
            port: 6080,
            requests: 1_000_000,
            concurrency: 200,
            value_size: 64,
            threads: 1,
        }
    }
}

} // verus!
