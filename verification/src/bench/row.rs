//! The summary of a run and the statistics in it.

use crate::arith::{
    computes_functions_64, follows_64, law_functions_follow_a_model_64, Arith64, Model64,
};
use crate::float::{negative_zero_64, zero_64, F64, NEGATIVE_ZERO_BITS_64};
use crate::order::{
    law_ranking_is_a_permutation, law_ranking_is_stable, lemma_rank_order_is_total, rank,
    rank_order, ranking, with_positions, Ranked,
};
use crate::text::{append_numeral, numeral};
use vstd::prelude::*;
use vstd::relations::{sorted_by, total_ordering};
use vstd::seq_lib::lemma_sorted_unique;
use vstd::string::*;

verus! {

/// Encoding of the double-precision `50.0`.
pub const FIFTY_BITS: u64 = 0x4049_0000_0000_0000;

/// Encoding of the double-precision `99.0`.
pub const NINETY_NINE_BITS: u64 = 0x4058_c000_0000_0000;

/// Encoding of the double-precision `100.0`.
pub const HUNDRED_BITS: u64 = 0x4059_0000_0000_0000;

/// Encoding of the double-precision `1000.0`.
pub const THOUSAND_BITS: u64 = 0x408f_4000_0000_0000;

/// The summary of one run; `S` is the breakdown by stage of a local run.
pub struct BenchRow<S> {
    pub backend: String,
    pub prefill_ms: F64,
    pub avg_decode_ms: F64,
    pub p50_ms: F64,
    pub p99_ms: F64,
    pub tok_per_s: F64,
    pub stages: Option<S>,
    /// Average milliseconds of the remote round trips of a token.
    pub ffn_rtt_ms: Option<F64>,
    /// What is left of a token's time beside its round trips.
    pub attn_ms: Option<F64>,
    /// Bytes sent and received for a token.
    pub wire_bytes_per_tok: Option<u64>,
    /// Throughput against a single shard, where a grid is measured.
    pub shard_efficiency: Option<F64>,
    pub n_steps: usize,
    pub note: String,
}

/// What a summary says.
#[verifier::ext_equal]
pub struct RowModel<S> {
    pub backend: Seq<char>,
    pub prefill_ms: F64,
    pub avg_decode_ms: F64,
    pub p50_ms: F64,
    pub p99_ms: F64,
    pub tok_per_s: F64,
    pub stages: Option<S>,
    pub ffn_rtt_ms: Option<F64>,
    pub attn_ms: Option<F64>,
    pub wire_bytes_per_tok: Option<u64>,
    pub shard_efficiency: Option<F64>,
    pub n_steps: nat,
    pub note: Seq<char>,
}

impl<S> View for BenchRow<S> {
    type V = RowModel<S>;

    open spec fn view(&self) -> RowModel<S> {
        RowModel {
            backend: self.backend@,
            prefill_ms: self.prefill_ms,
            avg_decode_ms: self.avg_decode_ms,
            p50_ms: self.p50_ms,
            p99_ms: self.p99_ms,
            tok_per_s: self.tok_per_s,
            stages: self.stages,
            ffn_rtt_ms: self.ffn_rtt_ms,
            attn_ms: self.attn_ms,
            wire_bytes_per_tok: self.wire_bytes_per_tok,
            shard_efficiency: self.shard_efficiency,
            n_steps: self.n_steps as nat,
            note: self.note@,
        }
    }
}

/// The sum of a list, from the left.
pub open spec fn total(m: Model64, s: Seq<F64>) -> F64
    decreases s.len(),
{
    if s.len() == 0 {
        negative_zero_64()
    } else {
        (m.sum)(total(m, s.drop_last()), s.last())
    }
}

/// The mean of a list.
pub open spec fn mean(m: Model64, s: Seq<F64>) -> F64 {
    (m.quotient)(total(m, s), (m.from_count)(s.len() as usize))
}

/// A key that grows with the value, and is largest for a not-a-number.
pub open spec fn rising_key(x: F64) -> i64 {
    if x.is_not_a_number() {
        i64::MAX
    } else {
        x.place() as i64
    }
}

/// The values in ascending order; equal values keep their order.
pub open spec fn sorted(values: Seq<F64>) -> Seq<F64> {
    ranking(values.map_values(|x: F64| rising_key(x))).map_values(|t: Ranked| values[t.1 as int])
}

/// The place in a sorted list of `len` values at which its percentile `p` stands.
pub open spec fn percentile_place(m: Model64, len: usize, p: F64) -> int {
    let place = (m.to_count)(
        (m.quotient)((m.product)((m.from_count)(len), p), F64 { bits: HUNDRED_BITS }),
    );
    if place < len {
        place as int
    } else {
        len - 1
    }
}

/// The percentile `p` of a sorted list, zero for an empty one.
pub open spec fn percentile_of(m: Model64, sorted_values: Seq<F64>, p: F64) -> F64 {
    if sorted_values.len() == 0 {
        zero_64()
    } else {
        sorted_values[percentile_place(m, sorted_values.len() as usize, p)]
    }
}

/// Mean, median and 99th percentile of a list, zeros for an empty one.
pub open spec fn latency_summary(m: Model64, values: Seq<F64>) -> (F64, F64, F64) {
    if values.len() == 0 {
        (zero_64(), zero_64(), zero_64())
    } else {
        let s = sorted(values);
        (
            mean(m, s),
            percentile_of(m, s, F64 { bits: FIFTY_BITS }),
            percentile_of(m, s, F64 { bits: NINETY_NINE_BITS }),
        )
    }
}

/// In every model of the arithmetic `r` is the sum of the list.
pub open spec fn adds_up<A: Arith64>(arith: &A, s: Seq<F64>, r: F64) -> bool {
    forall|m: Model64| #[trigger] follows_64(arith, m) ==> r == total(m, s)
}

/// Sums a list from the left.
pub fn sum_all<A: Arith64>(s: &[F64], arith: &A) -> (r: F64)
    ensures
        adds_up(arith, s@, r),
{
    let mut acc = F64 { bits: NEGATIVE_ZERO_BITS_64 };
    let mut i: usize = 0;
    while i < s.len()
        invariant
            0 <= i <= s.len(),
            forall|m: Model64| #[trigger]
                follows_64(arith, m) ==> acc == total(m, s@.take(i as int)),
        decreases s.len() - i,
    {
        assert(s@.take(i + 1).drop_last() =~= s@.take(i as int));
        acc = arith.sum(acc, s[i]);
        i = i + 1;
    }
    assert(s@.take(s.len() as int) =~= s@);
    acc
}

/// In every model of the arithmetic `r` is the percentile `p` of the sorted list.
pub open spec fn picks_percentile<A: Arith64>(
    arith: &A,
    sorted_values: Seq<F64>,
    p: F64,
    r: F64,
) -> bool {
    forall|m: Model64| #[trigger] follows_64(arith, m) ==> r == percentile_of(m, sorted_values, p)
}

/// The percentile `p` of an already sorted list, with `p` from 0 to 100.
pub fn percentile<A: Arith64>(sorted_values: &[F64], p: F64, arith: &A) -> (r: F64)
    ensures
        sorted_values.len() == 0 ==> r == zero_64(),
        sorted_values.len() > 0 ==> sorted_values@.contains(r),
        picks_percentile(arith, sorted_values@, p, r),
{
    if sorted_values.len() == 0 {
        return F64 { bits: 0 };
    }
    let place: usize = arith.to_count(
        arith.quotient(
            arith.product(arith.from_count(sorted_values.len()), p),
            F64 { bits: HUNDRED_BITS },
        ),
    );
    let idx: usize = if place < sorted_values.len() {
        place
    } else {
        sorted_values.len() - 1
    };
    sorted_values[idx]
}

/// The values in ascending order, a not-a-number last.
fn sort_values(values: &[F64]) -> (out: Vec<F64>)
    ensures
        out@ == sorted(values@),
        out.len() == values.len(),
        forall|x: F64| out@.contains(x) ==> values@.contains(x),
{
    let mut keys: Vec<i64> = Vec::new();
    let mut i: usize = 0;
    while i < values.len()
        invariant
            0 <= i <= values.len(),
            keys.len() == i,
            forall|j: int| 0 <= j < i ==> #[trigger] keys@[j] == rising_key(values@[j]),
        decreases values.len() - i,
    {
        let key: i64 = if values[i].is_nan() {
            i64::MAX
        } else {
            values[i].line_place()
        };
        keys.push(key);
        i = i + 1;
    }
    assert(keys@ =~= values@.map_values(|x: F64| rising_key(x)));
    proof {
        law_ranking_is_a_permutation(keys@);
    }
    let order = rank(&keys);
    let mut out: Vec<F64> = Vec::new();
    let mut r: usize = 0;
    while r < order.len()
        invariant
            0 <= r <= order.len(),
            out.len() == r,
            forall|j: int| 0 <= j < order.len() ==> (#[trigger] order@[j]).1 < values.len(),
            forall|j: int| 0 <= j < r ==> #[trigger] out@[j] == values@[order@[j].1 as int],
        decreases order.len() - r,
    {
        out.push(values[order[r].1]);
        r = r + 1;
    }
    assert(out@ =~= sorted(values@));
    proof {
        assert forall|x: F64| out@.contains(x) implies values@.contains(x) by {
            let j = choose|j: int| 0 <= j < out.len() && out@[j] == x;
            assert(values@[order@[j].1 as int] == x);
        }
    }
    out
}

/// In every model of the arithmetic `said` is the summary of the values.
pub open spec fn summarises_latency<A: Arith64>(
    arith: &A,
    values: Seq<F64>,
    said: (F64, F64, F64),
) -> bool {
    forall|m: Model64| #[trigger] follows_64(arith, m) ==> said == latency_summary(m, values)
}

/// Sorts and summarises: mean, median and 99th percentile.
pub fn compute_percentiles<A: Arith64>(values: &[F64], arith: &A) -> (r: (F64, F64, F64))
    ensures
        values.len() == 0 ==> r == (zero_64(), zero_64(), zero_64()),
        values.len() > 0 ==> values@.contains(r.1) && values@.contains(r.2),
        summarises_latency(arith, values@, r),
{
    if values.len() == 0 {
        return (F64 { bits: 0 }, F64 { bits: 0 }, F64 { bits: 0 });
    }
    let s = sort_values(values);
    let average = arith.quotient(sum_all(s.as_slice(), arith), arith.from_count(s.len()));
    let p50 = percentile(s.as_slice(), F64 { bits: FIFTY_BITS }, arith);
    let p99 = percentile(s.as_slice(), F64 { bits: NINETY_NINE_BITS }, arith);
    (average, p50, p99)
}

/// The decode statistics of a run after its warmup.
#[derive(Clone, Copy, Debug)]
pub struct DecodeStats {
    pub avg_ms: F64,
    pub p50_ms: F64,
    pub p99_ms: F64,
    pub tok_per_s: F64,
    pub n_steps: usize,
}

/// How many of `len` steps belong to the warmup.
pub open spec fn warm_steps(warmup: int, len: int) -> int {
    if warmup < len {
        warmup
    } else {
        len
    }
}

/// The steps after the warmup.
pub open spec fn measured(times: Seq<F64>, warmup: int) -> Seq<F64> {
    times.skip(warm_steps(warmup, times.len() as int))
}

/// The statistics of a list of step times.
pub open spec fn step_stats(m: Model64, times: Seq<F64>) -> DecodeStats {
    let (avg_ms, p50_ms, p99_ms) = latency_summary(m, times);
    DecodeStats {
        avg_ms,
        p50_ms,
        p99_ms,
        tok_per_s: if times.len() == 0 {
            zero_64()
        } else {
            (m.quotient)(F64 { bits: THOUSAND_BITS }, avg_ms)
        },
        n_steps: times.len() as usize,
    }
}

/// Drops the warmup.
pub fn measured_window(times: &[F64], warmup: usize) -> (r: &[F64])
    ensures
        r@ == measured(times@, warmup as int),
{
    let n_warm: usize = if warmup < times.len() {
        warmup
    } else {
        times.len()
    };
    let r = vstd::slice::slice_subrange(times, n_warm, times.len());
    assert(r@ =~= measured(times@, warmup as int));
    r
}

/// In every model of the arithmetic `r` are the statistics of the step times.
pub open spec fn measures<A: Arith64>(arith: &A, times: Seq<F64>, r: DecodeStats) -> bool {
    forall|m: Model64| #[trigger] follows_64(arith, m) ==> r == step_stats(m, times)
}

/// The statistics of the measured steps; all zero where there is none.
pub fn decode_stats<A: Arith64>(times: &[F64], arith: &A) -> (r: DecodeStats)
    ensures
        r.n_steps == times.len(),
        times.len() == 0 ==> r.avg_ms == zero_64() && r.p50_ms == zero_64() && r.p99_ms == zero_64()
            && r.tok_per_s == zero_64(),
        times.len() > 0 ==> times@.contains(r.p50_ms) && times@.contains(r.p99_ms),
        measures(arith, times@, r),
{
    if times.len() == 0 {
        let zero = F64 { bits: 0 };
        return DecodeStats { avg_ms: zero, p50_ms: zero, p99_ms: zero, tok_per_s: zero, n_steps: 0 };
    }
    let (avg_ms, p50_ms, p99_ms) = compute_percentiles(times, arith);
    let tok_per_s = arith.quotient(F64 { bits: THOUSAND_BITS }, avg_ms);
    DecodeStats { avg_ms, p50_ms, p99_ms, tok_per_s, n_steps: times.len() }
}

/// What is noted of a run that ended after `n` of `target` steps.
pub open spec fn early_stop(n: nat, target: nat) -> Seq<char> {
    "early stop @"@ + numeral(n) + "/"@ + numeral(target)
}

/// What a remote run notes: that it stopped early, if it did.
pub open spec fn remote_note(n: nat, target: nat) -> Seq<char> {
    if n < target {
        early_stop(n, target)
    } else {
        Seq::empty()
    }
}

/// The text for a run that ended after `n` of `target` steps.
pub fn early_stop_text(n: usize, target: usize) -> (r: String)
    ensures
        r@ == early_stop(n as nat, target as nat),
{
    let mut note: String = "early stop @".to_owned();
    append_numeral(&mut note, n);
    note.append("/");
    append_numeral(&mut note, target);
    note
}

/// The note of a remote run.
pub fn remote_run_note(n: usize, target: usize) -> (r: String)
    ensures
        r@ == remote_note(n as nat, target as nat),
{
    if n < target {
        early_stop_text(n, target)
    } else {
        String::new()
    }
}

/// The number of steps a run asks for: the warmup and the measured ones.
pub fn steps_to_run(warmup: usize, tokens: usize) -> (r: usize)
    requires
        warmup + tokens <= usize::MAX,
    ensures
        r == warmup + tokens,
{
    warmup + tokens
}

/// Rearranging a list rearranges what its items are mapped to.
proof fn lemma_map_of_rearranged<A, B>(s: Seq<A>, t: Seq<A>, f: spec_fn(A) -> B)
    requires
        s.to_multiset() == t.to_multiset(),
    ensures
        s.map_values(f).to_multiset() == t.map_values(f).to_multiset(),
    decreases s.len(),
{
    broadcast use vstd::seq_lib::group_to_multiset_ensures;

    assert(s.len() == s.to_multiset().len());
    assert(t.len() == t.to_multiset().len());
    if s.len() == 0 {
        assert(s.map_values(f) =~= t.map_values(f));
    } else {
        let x = s.last();
        let shorter = s.drop_last();
        assert(s =~= shorter.push(x));
        assert(s.contains(x));
        assert(s.to_multiset().count(x) > 0);
        assert(t.to_multiset().count(x) > 0);
        let k = choose|k: int| 0 <= k < t.len() && t[k] == x;
        let rest = t.remove(k);
        assert(shorter.to_multiset() =~= s.to_multiset().remove(x));
        assert(rest.to_multiset() =~= t.to_multiset().remove(x));
        lemma_map_of_rearranged(shorter, rest, f);
        assert(s.map_values(f) =~= shorter.map_values(f).push(f(x)));
        assert(rest.map_values(f) =~= t.map_values(f).remove(k));
        assert(t.map_values(f)[k] == f(x));
        assert(t.map_values(f).contains(f(x)));
        assert(t.map_values(f).to_multiset() =~= rest.map_values(f).to_multiset().insert(f(x)));
    }
}

/// Sorting loses nothing and adds nothing: a sorted list holds each value as often as the list.
pub proof fn law_sorted_rearranges(values: Seq<F64>)
    requires
        values.len() <= usize::MAX,
    ensures
        sorted(values).to_multiset() == values.to_multiset(),
{
    let keys = values.map_values(|x: F64| rising_key(x));
    let pairs = with_positions(keys);
    let value_at = |t: Ranked| values[t.1 as int];
    lemma_rank_order_is_total();
    pairs.lemma_sort_by_ensures(rank_order());
    lemma_map_of_rearranged(ranking(keys), pairs, value_at);
    assert(pairs.map_values(value_at) =~= values);
    assert(sorted(values) =~= ranking(keys).map_values(value_at));
}

/// A sorted list ascends, and each value in it is one of the list.
pub proof fn law_sorted_ascends(values: Seq<F64>, i: int, j: int)
    requires
        values.len() <= usize::MAX,
        0 <= i < j < values.len(),
    ensures
        sorted(values).len() == values.len(),
        values.contains(sorted(values)[i]),
        !sorted(values)[j].below(sorted(values)[i]),
{
    let keys = values.map_values(|x: F64| rising_key(x));
    law_ranking_is_a_permutation(keys);
    law_ranking_is_stable(keys, i, j);
    let order = ranking(keys);
    assert(order[i].0 == rising_key(values[order[i].1 as int]));
    assert(order[j].0 == rising_key(values[order[j].1 as int]));
}

/// A higher percentile of a list is never below a lower one, wherever the arithmetic puts it
/// no earlier.
pub proof fn law_percentiles_ascend(m: Model64, values: Seq<F64>, p: F64, q: F64)
    requires
        0 < values.len() <= usize::MAX,
        percentile_place(m, values.len() as usize, p) <= percentile_place(
            m,
            values.len() as usize,
            q,
        ),
    ensures
        !percentile_of(m, sorted(values), q).below(percentile_of(m, sorted(values), p)),
{
    let i = percentile_place(m, values.len() as usize, p);
    let j = percentile_place(m, values.len() as usize, q);
    let keys = values.map_values(|x: F64| rising_key(x));
    law_ranking_is_a_permutation(keys);
    if i < j {
        law_sorted_ascends(values, i, j);
    }
}

/// Every percentile of a list lies between its smallest and its largest value, and the summary's
/// median is not above its 99th percentile where the arithmetic puts it no later.
pub proof fn law_percentiles_lie_within(m: Model64, values: Seq<F64>, p: F64)
    requires
        0 < values.len() <= usize::MAX,
    ensures
        values.contains(percentile_of(m, sorted(values), p)),
        !percentile_of(m, sorted(values), p).below(sorted(values).first()),
        !sorted(values).last().below(percentile_of(m, sorted(values), p)),
        percentile_place(m, values.len() as usize, F64 { bits: FIFTY_BITS }) <= percentile_place(
            m,
            values.len() as usize,
            F64 { bits: NINETY_NINE_BITS },
        ) ==> !latency_summary(m, values).2.below(latency_summary(m, values).1),
{
    let i = percentile_place(m, values.len() as usize, p);
    let keys = values.map_values(|x: F64| rising_key(x));
    law_ranking_is_a_permutation(keys);
    assert(values[ranking(keys)[i].1 as int] == sorted(values)[i]);
    if 0 < i {
        law_sorted_ascends(values, 0, i);
    }
    if i < values.len() - 1 {
        law_sorted_ascends(values, i, values.len() - 1);
    }
    if percentile_place(m, values.len() as usize, F64 { bits: FIFTY_BITS }) <= percentile_place(
        m,
        values.len() as usize,
        F64 { bits: NINETY_NINE_BITS },
    ) {
        law_percentiles_ascend(m, values, F64 { bits: FIFTY_BITS }, F64 { bits: NINETY_NINE_BITS });
    }
}

/// The place that the arithmetic computes for percentile `p` of `len` values.
pub open spec fn computed_place(m: Model64, len: usize, p: F64) -> usize {
    (m.to_count)((m.quotient)((m.product)((m.from_count)(len), p), F64 { bits: HUNDRED_BITS }))
}

/// Where the arithmetic computes the places exactly the summary of `n` values has the one at
/// place `n / 2` in the middle (the upper median) and the one at place `99 * n / 100` at its end,
/// which is the largest for up to a hundred values.
pub proof fn law_summary_places(m: Model64, values: Seq<F64>)
    requires
        0 < values.len() <= usize::MAX,
        computed_place(m, values.len() as usize, F64 { bits: FIFTY_BITS }) == values.len() / 2,
        computed_place(m, values.len() as usize, F64 { bits: NINETY_NINE_BITS }) == 99
            * values.len() / 100,
    ensures
        latency_summary(m, values).1 == sorted(values)[values.len() as int / 2],
        latency_summary(m, values).2 == sorted(values)[99 * values.len() as int / 100],
        values.len() <= 100 ==> latency_summary(m, values).2 == sorted(values).last(),
{
    law_ranking_is_a_permutation(values.map_values(|x: F64| rising_key(x)));
}

/// Two values are the same number, or both are none.
pub open spec fn alike(a: F64, b: F64) -> bool {
    a.same_number(b) || (a.is_not_a_number() && b.is_not_a_number())
}

/// The arithmetic sums and divides by numbers, not by their encodings: it does not tell the two
/// zeros apart, nor one not-a-number from another.
pub open spec fn goes_by_number(m: Model64) -> bool {
    &&& forall|a: F64, b: F64, c: F64, d: F64|
        alike(a, c) && alike(b, d) ==> alike(#[trigger] (m.sum)(a, b), #[trigger] (m.sum)(c, d))
    &&& forall|a: F64, c: F64, n: usize|
        n > 0 && alike(a, c) ==> alike(
            #[trigger] (m.quotient)(a, (m.from_count)(n)),
            #[trigger] (m.quotient)(c, (m.from_count)(n)),
        )
}

/// Sums of lists that are alike place by place are alike.
proof fn lemma_totals_alike(m: Model64, s: Seq<F64>, t: Seq<F64>)
    requires
        goes_by_number(m),
        s.len() == t.len(),
        forall|i: int| 0 <= i < s.len() ==> alike(#[trigger] s[i], t[i]),
    ensures
        alike(total(m, s), total(m, t)),
    decreases s.len(),
{
    if s.len() > 0 {
        let s1 = s.drop_last();
        let t1 = t.drop_last();
        assert forall|i: int| 0 <= i < s1.len() implies alike(#[trigger] s1[i], t1[i]) by {
            assert(s1[i] == s[i]);
        }
        lemma_totals_alike(m, s1, t1);
        assert(alike(s[s.len() - 1], t[s.len() - 1]));
    }
}

/// Two rearrangements of the same numbers sort to the same numbers.
proof fn lemma_sorted_places_agree(values: Seq<F64>, other: Seq<F64>)
    requires
        values.len() <= usize::MAX,
        values.to_multiset() == other.to_multiset(),
        forall|i: int| 0 <= i < values.len() ==> !(#[trigger] values[i]).is_not_a_number(),
    ensures
        sorted(values).len() == values.len(),
        sorted(other).len() == values.len(),
        other.len() == values.len(),
        forall|i: int|
            0 <= i < values.len() ==> (#[trigger] sorted(values)[i]).same_number(sorted(other)[i])
                && values.contains(sorted(values)[i]) && values.contains(sorted(other)[i]),
{
    broadcast use vstd::seq_lib::group_to_multiset_ensures;

    assert(values.len() == values.to_multiset().len());
    assert(other.len() == other.to_multiset().len());
    law_sorted_rearranges(values);
    law_sorted_rearranges(other);
    let s = sorted(values);
    let t = sorted(other);
    assert(s.len() == s.to_multiset().len());
    assert(t.len() == t.to_multiset().len());
    assert(s.len() == values.len() && t.len() == values.len());
    assert forall|i: int| 0 <= i < s.len() implies values.contains(#[trigger] s[i])
        && values.contains(t[i]) by {
        assert(s.to_multiset().count(s[i]) > 0) by {
            assert(s.contains(s[i]));
        }
        assert(t.to_multiset().count(t[i]) > 0) by {
            assert(t.contains(t[i]));
        }
        assert(values.to_multiset().count(s[i]) > 0);
        assert(values.to_multiset().count(t[i]) > 0);
    }
    let place = |x: F64| x.place();
    let at_most = |a: int, b: int| a <= b;
    let p = s.map_values(place);
    let q = t.map_values(place);
    lemma_map_of_rearranged(s, t, place);
    assert forall|i: int, j: int| 0 <= i < j < s.len() implies #[trigger] at_most(p[i], p[j]) by {
        law_sorted_ascends(values, i, j);
        assert(values.contains(s[i]) && values.contains(s[j]));
    }
    assert forall|i: int, j: int| 0 <= i < j < t.len() implies #[trigger] at_most(q[i], q[j]) by {
        law_sorted_ascends(other, i, j);
        assert(values.contains(s[i]));
        assert(values.contains(t[i]));
        assert(values.contains(s[j]));
        assert(values.contains(t[j]));
    }
    assert(sorted_by(p, at_most));
    assert(sorted_by(q, at_most));
    assert(total_ordering(at_most));
    lemma_sorted_unique(p, q, at_most);
    assert forall|i: int| 0 <= i < s.len() implies (#[trigger] s[i]).same_number(t[i]) by {
        assert(values.contains(s[i]) && values.contains(t[i]));
        assert(p[i] == q[i]);
    }
}

/// The order of a list of numbers does not matter: two rearrangements of it have equal medians
/// and equal 99th percentiles in any arithmetic, alike means in any that goes by number, and one
/// and the same summary where the list does not hold both zeros.
pub proof fn law_summary_ignores_order(m: Model64, values: Seq<F64>, other: Seq<F64>)
    requires
        0 < values.len() <= usize::MAX,
        values.to_multiset() == other.to_multiset(),
        forall|i: int| 0 <= i < values.len() ==> !(#[trigger] values[i]).is_not_a_number(),
    ensures
        latency_summary(m, values).1.same_number(latency_summary(m, other).1),
        latency_summary(m, values).2.same_number(latency_summary(m, other).2),
        goes_by_number(m) ==> alike(latency_summary(m, values).0, latency_summary(m, other).0),
        !(values.contains(zero_64()) && values.contains(negative_zero_64())) ==> latency_summary(
            m,
            values,
        ) == latency_summary(m, other),
{
    lemma_sorted_places_agree(values, other);
    let s = sorted(values);
    let t = sorted(other);
    let n = values.len() as usize;
    let i = percentile_place(m, n, F64 { bits: FIFTY_BITS });
    let j = percentile_place(m, n, F64 { bits: NINETY_NINE_BITS });
    assert(s[i].same_number(t[i]));
    assert(s[j].same_number(t[j]));
    if goes_by_number(m) {
        assert forall|k: int| 0 <= k < s.len() implies alike(#[trigger] s[k], t[k]) by {}
        lemma_totals_alike(m, s, t);
        assert(alike(
            (m.quotient)(total(m, s), (m.from_count)(n)),
            (m.quotient)(total(m, t), (m.from_count)(n)),
        ));
    }
    if !(values.contains(zero_64()) && values.contains(negative_zero_64())) {
        assert forall|k: int| 0 <= k < s.len() implies s[k] == t[k] by {
            assert(s[k].same_number(t[k]));
        }
        assert(s =~= t);
    }
}

/// Two summaries of rearranged numbers compare: in an arithmetic of functions their medians and
/// their 99th percentiles are equal numbers, and the whole summaries are the same where the list
/// does not hold both zeros.
pub proof fn law_two_summaries_of_rearranged_values<A: Arith64>(
    arith: &A,
    values: Seq<F64>,
    said: (F64, F64, F64),
    other: Seq<F64>,
    other_said: (F64, F64, F64),
)
    requires
        computes_functions_64(arith),
        0 < values.len() <= usize::MAX,
        values.to_multiset() == other.to_multiset(),
        forall|i: int| 0 <= i < values.len() ==> !(#[trigger] values[i]).is_not_a_number(),
        summarises_latency(arith, values, said),
        summarises_latency(arith, other, other_said),
    ensures
        said.1.same_number(other_said.1),
        said.2.same_number(other_said.2),
        !(values.contains(zero_64()) && values.contains(negative_zero_64())) ==> said == other_said,
{
    law_functions_follow_a_model_64(arith);
    let m = choose|m: Model64| follows_64(arith, m);
    assert(said == latency_summary(m, values));
    assert(other_said == latency_summary(m, other));
    law_summary_ignores_order(m, values, other);
}

} // verus!
