//! What clients that run side by side come to together.

use crate::arith::{follows_64, Arith64, Model64};
use crate::bench::row::{sum_all, total};
use crate::float::{zero_64, F64};
use vstd::prelude::*;

verus! {

/// What one client measured.
#[derive(Clone, Copy, Debug)]
pub struct ConcurrentSample {
    pub tok_per_s: F64,
    pub mean_ms: F64,
    pub p50_ms: F64,
    pub p99_ms: F64,
    pub wire_bytes_per_tok: Option<u64>,
}

/// What all clients came to: throughput and wire bytes add up, latencies are the worst observed.
#[derive(Clone, Copy, Debug)]
pub struct ConcurrentAggregate {
    pub aggregate_tok_per_s: F64,
    pub mean_ms: F64,
    pub worst_p50_ms: F64,
    pub worst_p99_ms: F64,
    pub total_wire_bytes_per_tok: Option<u64>,
}

/// The largest value of a list, but at least zero; a not-a-number counts for nothing.
pub open spec fn worst(values: Seq<F64>) -> F64
    decreases values.len(),
{
    if values.len() == 0 {
        zero_64()
    } else {
        let before = worst(values.drop_last());
        if before.below(values.last()) {
            values.last()
        } else {
            before
        }
    }
}

/// The sum of what is reported in a list.
pub open spec fn reported_sum(values: Seq<Option<u64>>) -> nat
    decreases values.len(),
{
    if values.len() == 0 {
        0
    } else {
        reported_sum(values.drop_last()) + match values.last() {
            Some(v) => v as nat,
            None => 0,
        }
    }
}

/// The sum of what is reported, if anything is.
pub open spec fn reported_total(values: Seq<Option<u64>>) -> Option<u64> {
    if exists|i: int| 0 <= i < values.len() && (#[trigger] values[i]) is Some {
        Some(reported_sum(values) as u64)
    } else {
        None
    }
}

pub open spec fn wire_of(samples: Seq<ConcurrentSample>) -> Seq<Option<u64>> {
    samples.map_values(|s: ConcurrentSample| s.wire_bytes_per_tok)
}

/// What a list of clients comes to.
pub open spec fn aggregate(m: Model64, samples: Seq<ConcurrentSample>) -> ConcurrentAggregate {
    ConcurrentAggregate {
        aggregate_tok_per_s: total(m, samples.map_values(|s: ConcurrentSample| s.tok_per_s)),
        mean_ms: worst(samples.map_values(|s: ConcurrentSample| s.mean_ms)),
        worst_p50_ms: worst(samples.map_values(|s: ConcurrentSample| s.p50_ms)),
        worst_p99_ms: worst(samples.map_values(|s: ConcurrentSample| s.p99_ms)),
        total_wire_bytes_per_tok: reported_total(wire_of(samples)),
    }
}

/// The largest value of a list, but at least zero.
pub fn worst_of(values: &Vec<F64>) -> (r: F64)
    ensures
        r == worst(values@),
{
    let mut r = F64 { bits: 0 };
    let mut i: usize = 0;
    while i < values.len()
        invariant
            0 <= i <= values.len(),
            r == worst(values@.take(i as int)),
        decreases values.len() - i,
    {
        assert(values@.take(i + 1).drop_last() =~= values@.take(i as int));
        r = r.at_least(values[i]);
        i = i + 1;
    }
    assert(values@.take(values.len() as int) =~= values@);
    r
}

/// A part of a list of reports sums to no more than the whole.
pub proof fn lemma_reported_sum_grows(values: Seq<Option<u64>>, i: int)
    requires
        0 <= i <= values.len(),
    ensures
        reported_sum(values.take(i)) <= reported_sum(values),
    decreases values.len() - i,
{
    if i == values.len() {
        assert(values.take(i) =~= values);
    } else {
        lemma_reported_sum_grows(values, i + 1);
        assert(values.take(i + 1).drop_last() =~= values.take(i));
    }
}

/// The sum of what is reported, if anything is.
pub fn reported_total_of(values: &Vec<Option<u64>>) -> (r: Option<u64>)
    requires
        reported_sum(values@) <= u64::MAX,
    ensures
        r == reported_total(values@),
{
    let mut any = false;
    let mut sum: u64 = 0;
    let mut i: usize = 0;
    while i < values.len()
        invariant
            0 <= i <= values.len(),
            reported_sum(values@) <= u64::MAX,
            sum == reported_sum(values@.take(i as int)),
            any == exists|j: int| 0 <= j < i && (#[trigger] values@[j]) is Some,
        decreases values.len() - i,
    {
        proof {
            assert(values@.take(i + 1).drop_last() =~= values@.take(i as int));
            lemma_reported_sum_grows(values@, i + 1);
        }
        if let Some(v) = values[i] {
            assert(values@[i as int] is Some);
            sum = sum + v;
            any = true;
        }
        i = i + 1;
    }
    assert(values@.take(values.len() as int) =~= values@);
    if any {
        Some(sum)
    } else {
        None
    }
}

/// In every model of the arithmetic `said` is what the clients come to.
pub open spec fn aggregates<A: Arith64>(
    arith: &A,
    samples: Seq<ConcurrentSample>,
    said: ConcurrentAggregate,
) -> bool {
    forall|m: Model64| #[trigger] follows_64(arith, m) ==> said == aggregate(m, samples)
}

/// Puts the samples of all clients together; there is nothing to put together without one.
pub fn aggregate_concurrent_rows<A: Arith64>(samples: &Vec<ConcurrentSample>, arith: &A) -> (r:
    Option<ConcurrentAggregate>)
    requires
        reported_sum(wire_of(samples@)) <= u64::MAX,
    ensures
        r is None <==> samples.len() == 0,
        r matches Some(a) ==> {
            &&& a.mean_ms == worst(samples@.map_values(|s: ConcurrentSample| s.mean_ms))
            &&& a.worst_p50_ms == worst(samples@.map_values(|s: ConcurrentSample| s.p50_ms))
            &&& a.worst_p99_ms == worst(samples@.map_values(|s: ConcurrentSample| s.p99_ms))
            &&& a.total_wire_bytes_per_tok == reported_total(wire_of(samples@))
        },
        r matches Some(a) ==> aggregates(arith, samples@, a),
{
    if samples.len() == 0 {
        return None;
    }
    let mut rates: Vec<F64> = Vec::new();
    let mut means: Vec<F64> = Vec::new();
    let mut medians: Vec<F64> = Vec::new();
    let mut tails: Vec<F64> = Vec::new();
    let mut wire: Vec<Option<u64>> = Vec::new();
    let mut i: usize = 0;
    while i < samples.len()
        invariant
            0 <= i <= samples.len(),
            rates.len() == i,
            means.len() == i,
            medians.len() == i,
            tails.len() == i,
            wire.len() == i,
            forall|j: int| 0 <= j < i ==> #[trigger] rates@[j] == samples@[j].tok_per_s,
            forall|j: int| 0 <= j < i ==> #[trigger] means@[j] == samples@[j].mean_ms,
            forall|j: int| 0 <= j < i ==> #[trigger] medians@[j] == samples@[j].p50_ms,
            forall|j: int| 0 <= j < i ==> #[trigger] tails@[j] == samples@[j].p99_ms,
            forall|j: int| 0 <= j < i ==> #[trigger] wire@[j] == samples@[j].wire_bytes_per_tok,
        decreases samples.len() - i,
    {
        rates.push(samples[i].tok_per_s);
        means.push(samples[i].mean_ms);
        medians.push(samples[i].p50_ms);
        tails.push(samples[i].p99_ms);
        wire.push(samples[i].wire_bytes_per_tok);
        i = i + 1;
    }
    assert(rates@ =~= samples@.map_values(|s: ConcurrentSample| s.tok_per_s));
    assert(means@ =~= samples@.map_values(|s: ConcurrentSample| s.mean_ms));
    assert(medians@ =~= samples@.map_values(|s: ConcurrentSample| s.p50_ms));
    assert(tails@ =~= samples@.map_values(|s: ConcurrentSample| s.p99_ms));
    assert(wire@ =~= wire_of(samples@));
    Some(
        ConcurrentAggregate {
            aggregate_tok_per_s: sum_all(rates.as_slice(), arith),
            mean_ms: worst_of(&means),
            worst_p50_ms: worst_of(&medians),
            worst_p99_ms: worst_of(&tails),
            total_wire_bytes_per_tok: reported_total_of(&wire),
        },
    )
}

/// The worst value is a bound: no value of the list is above it, and it is one of them or zero.
pub proof fn law_worst_is_the_largest(values: Seq<F64>, i: int)
    requires
        0 <= i < values.len(),
    ensures
        !worst(values).below(values[i]),
        !worst(values).is_not_a_number(),
        !worst(values).below(zero_64()),
        worst(values) == zero_64() || values.contains(worst(values)),
    decreases values.len(),
{
    lemma_worst_is_a_number(values);
    lemma_worst_is_a_number(values.drop_last());
    if i < values.len() - 1 {
        law_worst_is_the_largest(values.drop_last(), i);
        assert(values.drop_last()[i] == values[i]);
    }
    lemma_worst_is_listed(values);
}

/// The worst value is a number, and not below zero.
pub proof fn lemma_worst_is_a_number(values: Seq<F64>)
    ensures
        !worst(values).is_not_a_number(),
        !worst(values).below(zero_64()),
    decreases values.len(),
{
    if values.len() > 0 {
        lemma_worst_is_a_number(values.drop_last());
    }
}

proof fn lemma_worst_is_listed(values: Seq<F64>)
    ensures
        worst(values) == zero_64() || values.contains(worst(values)),
    decreases values.len(),
{
    if values.len() > 0 {
        lemma_worst_is_listed(values.drop_last());
        let shorter = values.drop_last();
        if worst(values) == values.last() {
            assert(values[values.len() - 1] == worst(values));
        } else if shorter.contains(worst(shorter)) {
            let k = choose|k: int| 0 <= k < shorter.len() && shorter[k] == worst(shorter);
            assert(values[k] == worst(values));
        }
    }
}

} // verus!
