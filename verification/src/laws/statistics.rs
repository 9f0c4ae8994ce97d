//! Statistics of runs: sums, percentiles, the measured window, and clients put together.

use crate::arith::{follows_64, Arith64, Model64};
use crate::bench::helpers::{
    aggregate, aggregate_concurrent_rows, reported_sum, reported_total, reported_total_of, wire_of,
    worst_of, ConcurrentAggregate, ConcurrentSample,
};
use crate::bench::row::{
    compute_percentiles, decode_stats, early_stop_text, latency_summary, measured_window,
    percentile, percentile_of, remote_run_note, rising_key, sorted, step_stats, steps_to_run,
    sum_all, total, DecodeStats,
};
use crate::float::F64;
use crate::order::{law_ranking_is_a_permutation, law_ranking_is_stable, ranking};
use crate::text::numeral;
use vstd::prelude::*;

verus! {

/// The sum of nothing is the negative zero that sums start from.
pub proof fn law_sum_of_nothing<A: Arith64>(arith: &A, m: Model64, s: &[F64], r: F64)
    requires
        follows_64(arith, m),
        s@.len() == 0,
        call_ensures(sum_all::<A>, (s, arith), r),
    ensures
        r == (F64 { bits: 0x8000_0000_0000_0000 }),
{
    assert(r == total(m, s@));
}

/// One more value is added to the sum of those before it.
pub proof fn law_sum_grows_by_the_next_value<A: Arith64>(
    arith: &A,
    m: Model64,
    s: &[F64],
    r: F64,
    x: F64,
    longer: &[F64],
    t: F64,
)
    requires
        follows_64(arith, m),
        longer@ == s@.push(x),
        call_ensures(sum_all::<A>, (s, arith), r),
        call_ensures(sum_all::<A>, (longer, arith), t),
    ensures
        t == (m.sum)(r, x),
{
    assert(r == total(m, s@));
    assert(t == total(m, longer@));
    assert(longer@.drop_last() =~= s@);
}

/// A percentile of a sorted list stands at the place that `p` hundredths of its length come to, or
/// at its end where that is past it; of an empty list it is zero.
pub proof fn law_percentile_stands_at_its_place<A: Arith64>(
    arith: &A,
    m: Model64,
    s: &[F64],
    p: F64,
    r: F64,
)
    requires
        follows_64(arith, m),
        call_ensures(percentile::<A>, (s, p, arith), r),
    ensures
        s@.len() == 0 ==> r.bits == 0,
        s@.len() > 0 ==> ({
            let place = (m.to_count)(
                (m.quotient)(
                    (m.product)((m.from_count)(s@.len() as usize), p),
                    F64 { bits: 0x4059_0000_0000_0000 },
                ),
            );
            &&& place < s@.len() ==> r == s@[place as int]
            &&& place >= s@.len() ==> r == s@.last()
        }),
{
    assert(r == percentile_of(m, s@, p));
    assert(s.len() == s@.len());
}

/// Value `i` goes before value `j` in ascending order: it is smaller, or as large and earlier; what
/// is no number goes last.
pub open spec fn rises(values: Seq<F64>, i: int, j: int) -> bool {
    if values[i].is_not_a_number() || values[j].is_not_a_number() {
        values[j].is_not_a_number() && (!values[i].is_not_a_number() || i < j)
    } else {
        values[i].place() < values[j].place() || (values[i].place() == values[j].place() && i < j)
    }
}

/// The values in this order ascend, and summing them up in it goes through these sums.
pub open spec fn sums_up_ascending(
    m: Model64,
    values: Seq<F64>,
    order: Seq<int>,
    sums: Seq<F64>,
) -> bool {
    &&& order.len() == values.len()
    &&& forall|t: int| 0 <= t < order.len() ==> 0 <= #[trigger] order[t] < values.len()
    &&& forall|t: int, u: int|
        0 <= t < u < order.len() ==> rises(values, #[trigger] order[t], #[trigger] order[u])
    &&& sums.len() == values.len() + 1
    &&& sums[0] == (F64 { bits: 0x8000_0000_0000_0000 })
    &&& forall|t: int|
        0 <= t < order.len() ==> sums[t + 1] == (m.sum)(sums[t], values[#[trigger] order[t]])
}

/// The value at the place of percentile `p` when the values stand in this order.
pub open spec fn at_percentile(m: Model64, values: Seq<F64>, order: Seq<int>, p: F64) -> F64 {
    let place = (m.to_count)(
        (m.quotient)(
            (m.product)((m.from_count)(values.len() as usize), p),
            F64 { bits: 0x4059_0000_0000_0000 },
        ),
    );
    if place < values.len() {
        values[order[place as int]]
    } else {
        values[order[values.len() - 1]]
    }
}

/// A summary has the mean of the values, their sum in ascending order by their number, and the
/// values at the places of the 50th and the 99th percentile in that order; that of nothing is zero.
pub proof fn law_summary_is_mean_median_and_tail<A: Arith64>(
    arith: &A,
    m: Model64,
    values: &[F64],
    r: (F64, F64, F64),
)
    requires
        follows_64(arith, m),
        call_ensures(compute_percentiles::<A>, (values, arith), r),
    ensures
        values@.len() == 0 ==> r.0.bits == 0 && r.1.bits == 0 && r.2.bits == 0,
        values@.len() > 0 ==> exists|order: Seq<int>, sums: Seq<F64>|
            {
                &&& #[trigger] sums_up_ascending(m, values@, order, sums)
                &&& r.0 == (m.quotient)(
                    sums[values@.len() as int],
                    (m.from_count)(values@.len() as usize),
                )
                &&& r.1 == at_percentile(
                    m,
                    values@,
                    order,
                    F64 { bits: 0x4049_0000_0000_0000 },
                )
                &&& r.2 == at_percentile(
                    m,
                    values@,
                    order,
                    F64 { bits: 0x4058_c000_0000_0000 },
                )
            },
{
    assert(values.len() == values@.len());
    assert(r == latency_summary(m, values@));
    if values@.len() > 0 {
        let keys = values@.map_values(|x: F64| rising_key(x));
        let ranked = ranking(keys);
        let s = sorted(values@);
        law_ranking_is_a_permutation(keys);
        let order = Seq::new(values@.len(), |t: int| ranked[t].1 as int);
        let sums = Seq::new(values@.len() + 1, |t: int| total(m, s.take(t)));
        assert forall|t: int| 0 <= t < order.len() implies 0 <= #[trigger] order[t]
            < values@.len() by {
            assert(ranked[t].1 < keys.len());
        }
        assert forall|t: int, u: int| 0 <= t < u < order.len() implies rises(
            values@,
            #[trigger] order[t],
            #[trigger] order[u],
        ) by {
            law_ranking_is_stable(keys, t, u);
            assert(ranked[t].0 == rising_key(values@[order[t]]));
            assert(ranked[u].0 == rising_key(values@[order[u]]));
        }
        assert(s.take(0) =~= Seq::empty());
        assert forall|t: int| 0 <= t < order.len() implies sums[t + 1] == (m.sum)(
            sums[t],
            values@[#[trigger] order[t]],
        ) by {
            assert(s[t] == values@[order[t]]);
            assert(s.take(t + 1).drop_last() =~= s.take(t));
        }
        assert(s.take(values@.len() as int) =~= s);
        assert(sums_up_ascending(m, values@, order, sums));
    }
}

/// The measured window is the run without its warmup, and nothing where the warmup is all of it.
pub proof fn law_window_is_what_follows_the_warmup(times: &[F64], warmup: usize, r: &[F64])
    requires
        call_ensures(measured_window, (times, warmup), r),
    ensures
        warmup <= times@.len() ==> r@ == times@.subrange(warmup as int, times@.len() as int),
        warmup > times@.len() ==> r@.len() == 0,
{
    if warmup <= times@.len() {
        assert(r@ =~= times@.subrange(warmup as int, times@.len() as int));
    }
}

/// The statistics of steps are their summary, their number, and a thousand by their mean as the
/// throughput; without a step all of them are zero.
pub proof fn law_throughput_is_a_thousand_by_the_mean<A: Arith64>(
    arith: &A,
    m: Model64,
    times: &[F64],
    summary: (F64, F64, F64),
    r: DecodeStats,
)
    requires
        follows_64(arith, m),
        call_ensures(compute_percentiles::<A>, (times, arith), summary),
        call_ensures(decode_stats::<A>, (times, arith), r),
    ensures
        r.n_steps == times@.len(),
        r.avg_ms == summary.0 && r.p50_ms == summary.1 && r.p99_ms == summary.2,
        times@.len() > 0 ==> r.tok_per_s == (m.quotient)(
            F64 { bits: 0x408f_4000_0000_0000 },
            r.avg_ms,
        ),
        times@.len() == 0 ==> r.tok_per_s.bits == 0 && r.avg_ms.bits == 0,
{
    assert(summary == latency_summary(m, times@));
    assert(r == step_stats(m, times@));
}

/// An early stop is noted with the steps that were taken and those that were asked for, and only
/// where these are more.
pub proof fn law_early_stops_are_noted(n: usize, target: usize, text: String, note: String)
    requires
        call_ensures(early_stop_text, (n, target), text),
        call_ensures(remote_run_note, (n, target), note),
    ensures
        text@ == "early stop @"@ + numeral(n as nat) + "/"@ + numeral(target as nat),
        n < target ==> note@ == text@,
        n >= target ==> note@.len() == 0,
{
}

/// A run takes the warmup and the measured steps.
pub proof fn law_runs_take_warmup_and_tokens(warmup: usize, tokens: usize, r: usize)
    requires
        call_ensures(steps_to_run, (warmup, tokens), r),
    ensures
        r - warmup == tokens,
{
}

/// The worst of nothing is zero, and one more value is the worst where it is larger.
pub proof fn law_worst_moves_on_to_the_larger(
    values: &Vec<F64>,
    r: F64,
    x: F64,
    longer: &Vec<F64>,
    s: F64,
)
    requires
        longer@ == values@.push(x),
        call_ensures(worst_of, (values,), r),
        call_ensures(worst_of, (longer,), s),
    ensures
        values@.len() == 0 ==> r.bits == 0,
        r.below(x) ==> s == x,
        !r.below(x) ==> s == r,
{
    assert(longer@.drop_last() =~= values@);
}

/// Reports add up: one more report is added, none leaves the total as it is, and without any there
/// is no total.
pub proof fn law_reports_add_up(
    values: &Vec<Option<u64>>,
    r: Option<u64>,
    x: Option<u64>,
    longer: &Vec<Option<u64>>,
    s: Option<u64>,
)
    requires
        longer@ == values@.push(x),
        reported_sum(longer@) <= u64::MAX,
        call_ensures(reported_total_of, (values,), r),
        call_ensures(reported_total_of, (longer,), s),
    ensures
        values@.len() == 0 ==> r is None,
        x is None ==> s == r,
        x matches Some(v) ==> s is Some && s->0 == v + (match r {
            Some(before) => before as int,
            None => 0,
        }),
{
    lemma_reported_total_grows(values@, x);
}

/// One more report changes a total by what it says.
pub proof fn lemma_reported_total_grows(values: Seq<Option<u64>>, x: Option<u64>)
    requires
        reported_sum(values.push(x)) <= u64::MAX,
    ensures
        values.len() == 0 ==> reported_total(values) is None,
        x is None ==> reported_total(values.push(x)) == reported_total(values),
        x matches Some(v) ==> reported_total(values.push(x)) is Some && reported_total(
            values.push(x),
        )->0 == v + (match reported_total(values) {
            Some(before) => before as int,
            None => 0,
        }),
{
    let longer = values.push(x);
    assert(longer.drop_last() =~= values);
    if exists|i: int| 0 <= i < values.len() && (#[trigger] values[i]) is Some {
        let i = choose|i: int| 0 <= i < values.len() && (#[trigger] values[i]) is Some;
        assert(longer[i] is Some);
    } else {
        lemma_nothing_reported(values);
    }
    if x is Some {
        assert(longer[values.len() as int] is Some);
    } else if exists|i: int| 0 <= i < longer.len() && (#[trigger] longer[i]) is Some {
        let i = choose|i: int| 0 <= i < longer.len() && (#[trigger] longer[i]) is Some;
        assert(values[i] is Some);
    }
}

proof fn lemma_nothing_reported(values: Seq<Option<u64>>)
    requires
        forall|i: int| 0 <= i < values.len() ==> (#[trigger] values[i]) is None,
    ensures
        reported_sum(values) == 0,
    decreases values.len(),
{
    if values.len() > 0 {
        let shorter = values.drop_last();
        assert forall|i: int| 0 <= i < shorter.len() implies (#[trigger] shorter[i]) is None by {
            assert(shorter[i] == values[i]);
        }
        lemma_nothing_reported(shorter);
        assert(values[values.len() - 1] is None);
    }
}

/// The larger of two numbers, the first where the second is no larger.
pub open spec fn larger(a: F64, b: F64) -> F64 {
    if a.below(b) {
        b
    } else {
        a
    }
}

/// Clients add up: with one more client the throughput grows by that client's, the latencies move
/// on to that client's where they are larger, and its wire bytes are added where it reports them.
pub proof fn law_clients_add_up<A: Arith64>(
    arith: &A,
    m: Model64,
    samples: &Vec<ConcurrentSample>,
    r: Option<ConcurrentAggregate>,
    x: ConcurrentSample,
    longer: &Vec<ConcurrentSample>,
    s: Option<ConcurrentAggregate>,
)
    requires
        follows_64(arith, m),
        longer@ == samples@.push(x),
        reported_sum(wire_of(longer@)) <= u64::MAX,
        call_ensures(aggregate_concurrent_rows::<A>, (samples, arith), r),
        call_ensures(aggregate_concurrent_rows::<A>, (longer, arith), s),
    ensures
        samples@.len() == 0 ==> r is None,
        samples@.len() > 0 ==> r is Some,
        s matches Some(all) && {
            let zero = F64 { bits: 0 };
            &&& r matches Some(before) ==> {
                &&& all.aggregate_tok_per_s == (m.sum)(before.aggregate_tok_per_s, x.tok_per_s)
                &&& all.mean_ms == larger(before.mean_ms, x.mean_ms)
                &&& all.worst_p50_ms == larger(before.worst_p50_ms, x.p50_ms)
                &&& all.worst_p99_ms == larger(before.worst_p99_ms, x.p99_ms)
                &&& x.wire_bytes_per_tok is None ==> all.total_wire_bytes_per_tok
                    == before.total_wire_bytes_per_tok
                &&& x.wire_bytes_per_tok matches Some(v) ==> all.total_wire_bytes_per_tok is Some
                    && all.total_wire_bytes_per_tok->0 == v + (
                match before.total_wire_bytes_per_tok {
                    Some(w) => w as int,
                    None => 0,
                })
            }
            &&& r is None ==> {
                &&& all.aggregate_tok_per_s == (m.sum)(
                    F64 { bits: 0x8000_0000_0000_0000 },
                    x.tok_per_s,
                )
                &&& all.mean_ms == larger(zero, x.mean_ms)
                &&& all.worst_p50_ms == larger(zero, x.p50_ms)
                &&& all.worst_p99_ms == larger(zero, x.p99_ms)
                &&& all.total_wire_bytes_per_tok == x.wire_bytes_per_tok
            }
        },
{
    lemma_aggregate_grows(m, samples@, x);
    assert(s is Some);
    assert(s->0 == aggregate(m, longer@));
    if r is Some {
        assert(r->0 == aggregate(m, samples@));
    }
}

/// What clients come to with one more.
pub proof fn lemma_aggregate_grows(
    m: Model64,
    samples: Seq<ConcurrentSample>,
    x: ConcurrentSample,
)
    requires
        reported_sum(wire_of(samples.push(x))) <= u64::MAX,
    ensures
        ({
            let before = aggregate(m, samples);
            let all = aggregate(m, samples.push(x));
            &&& samples.len() == 0 ==> {
                &&& before.aggregate_tok_per_s == (F64 { bits: 0x8000_0000_0000_0000 })
                &&& before.mean_ms.bits == 0
                &&& before.worst_p50_ms.bits == 0
                &&& before.worst_p99_ms.bits == 0
                &&& before.total_wire_bytes_per_tok is None
            }
            &&& all.aggregate_tok_per_s == (m.sum)(before.aggregate_tok_per_s, x.tok_per_s)
            &&& all.mean_ms == larger(before.mean_ms, x.mean_ms)
            &&& all.worst_p50_ms == larger(before.worst_p50_ms, x.p50_ms)
            &&& all.worst_p99_ms == larger(before.worst_p99_ms, x.p99_ms)
            &&& x.wire_bytes_per_tok is None ==> all.total_wire_bytes_per_tok
                == before.total_wire_bytes_per_tok
            &&& x.wire_bytes_per_tok matches Some(v) ==> all.total_wire_bytes_per_tok is Some
                && all.total_wire_bytes_per_tok->0 == v + (match before.total_wire_bytes_per_tok {
                Some(w) => w as int,
                None => 0,
            })
        }),
{
    let longer = samples.push(x);
    let rate = |s: ConcurrentSample| s.tok_per_s;
    let avg = |s: ConcurrentSample| s.mean_ms;
    let p50 = |s: ConcurrentSample| s.p50_ms;
    let p99 = |s: ConcurrentSample| s.p99_ms;
    assert(longer.map_values(rate).drop_last() =~= samples.map_values(rate));
    assert(longer.map_values(avg).drop_last() =~= samples.map_values(avg));
    assert(longer.map_values(p50).drop_last() =~= samples.map_values(p50));
    assert(longer.map_values(p99).drop_last() =~= samples.map_values(p99));
    assert(wire_of(longer) =~= wire_of(samples).push(x.wire_bytes_per_tok));
    lemma_reported_total_grows(wire_of(samples), x.wire_bytes_per_tok);
}

} // verus!
