//! Remote runs: shard maps, summaries, labels, wire bytes, and clients side by side.

use crate::arith::{follows_64, Arith64, Model64};
use crate::bench::helpers::{lemma_worst_is_a_number, reported_sum, wire_of};
use crate::bench::remote_ffn::{
    collect_rows, combine_concurrent_rows, combine_outcomes, combined, ffn_bench_row, first_bad,
    format_ffn_backend_label, or_zero, rows_of, sample_of, samples_of, steps_sum,
    wire_bytes_per_token, worker_failure, worst_reported, FfnMeasurement, RemotePath, WorkerOutcome,
};
use crate::bench::remote_moe::{
    at_least_one, format_moe_backend_label, is_batch_dispatch, law_one_shard_per_segment,
    maps_shards, measured_trips, moe_bench_row, parse_shard_segments, reads, shard_map, shards_in,
    shards_of, summarize_moe_result, summary, written, MoeSummary, RangeReader, ShardConfig,
    ShardModel,
};
use crate::bench::row::{
    decode_stats, measured_window, remote_run_note, step_stats, sum_all, total, BenchRow,
    DecodeStats,
};
use crate::float::F64;
use crate::laws::statistics::{larger, lemma_aggregate_grows};
use crate::laws::texts::{joined_by, law_splitting_undoes_joining};
use crate::text::{lemma_span_to, numeral, quoted, span_to, split, trimmed};
use vstd::prelude::*;

verus! {

/// A segment reads: it has an equals sign, and what stands before the first one is a range.
pub open spec fn segment_reads(
    range: spec_fn(Seq<char>) -> Option<(usize, usize)>,
    t: Seq<char>,
) -> bool {
    t.contains('=') && range(t.take(span_to(t, '='))) is Some
}

proof fn lemma_segments_read(
    range: spec_fn(Seq<char>) -> Option<(usize, usize)>,
    segments: Seq<Seq<char>>,
)
    ensures
        shards_in(range, segments) is Ok <==> forall|j: int|
            0 <= j < segments.len() && trimmed(#[trigger] segments[j]).len() > 0 ==> segment_reads(
                range,
                trimmed(segments[j]),
            ),
        shards_in(range, segments) matches Ok(shards) ==> (shards.len() == 0 <==> forall|j: int|
            0 <= j < segments.len() ==> trimmed(#[trigger] segments[j]).len() == 0),
    decreases segments.len(),
{
    if segments.len() > 0 {
        let rest = segments.drop_first();
        let t = trimmed(segments.first());
        lemma_segments_read(range, rest);
        lemma_span_to(t, '=');
        let i = span_to(t, '=');
        if i < t.len() {
            assert(t.contains(t[i]));
        } else if t.contains('=') {
            let k = choose|k: int| 0 <= k < t.len() && t[k] == '=';
            assert(t[k] != '=');
        }
        assert forall|j: int| 0 <= j < rest.len() implies #[trigger] rest[j]
            == segments[j + 1] by {}
        if shards_in(range, segments) is Ok {
            assert forall|j: int|
                0 <= j < segments.len() && trimmed(#[trigger] segments[j]).len()
                    > 0 implies segment_reads(range, trimmed(segments[j])) by {
                if j > 0 {
                    assert(rest[j - 1] == segments[j]);
                }
            }
        }
        if forall|j: int|
            0 <= j < segments.len() && trimmed(#[trigger] segments[j]).len() > 0 ==> segment_reads(
                range,
                trimmed(segments[j]),
            ) {
            assert forall|j: int|
                0 <= j < rest.len() && trimmed(#[trigger] rest[j]).len() > 0 implies segment_reads(
                range,
                trimmed(rest[j]),
            ) by {
                assert(rest[j] == segments[j + 1]);
            }
            if t.len() > 0 {
                assert(segment_reads(range, trimmed(segments[0])));
            }
        }
        if shards_in(range, segments) is Ok {
            if forall|j: int|
                0 <= j < segments.len() ==> trimmed(#[trigger] segments[j]).len() == 0 {
                assert(trimmed(segments[0]).len() == 0);
                assert forall|j: int| 0 <= j < rest.len() implies trimmed(
                    #[trigger] rest[j],
                ).len() == 0 by {
                    assert(rest[j] == segments[j + 1]);
                }
            }
            if shards_in(range, segments)->Ok_0.len() == 0 {
                assert forall|j: int| 0 <= j < segments.len() implies trimmed(
                    #[trigger] segments[j],
                ).len() == 0 by {
                    if j > 0 {
                        assert(rest[j - 1] == segments[j]);
                    }
                }
            }
        }
    }
}

/// A shard map reads exactly when each of its comma-separated segments that is not blank reads, and
/// at least one is not blank.
pub proof fn law_maps_read_when_their_segments_do<P: RangeReader>(
    reader: &P,
    range: spec_fn(Seq<char>) -> Option<(usize, usize)>,
    spec: &str,
    r: Result<Vec<ShardConfig>, String>,
)
    requires
        reads(reader, range),
        call_ensures(parse_shard_segments::<P>, (spec, reader), r),
    ensures
        r is Ok <==> {
            let segments = split(spec@, ',');
            &&& forall|j: int|
                0 <= j < segments.len() && trimmed(#[trigger] segments[j]).len()
                    > 0 ==> segment_reads(range, trimmed(segments[j]))
            &&& exists|j: int|
                0 <= j < segments.len() && trimmed(#[trigger] segments[j]).len() > 0
        },
{
    lemma_segments_read(range, split(spec@, ','));
    assert(maps_shards(reader, spec@, r));
}

/// What is filtered out of a list is in it.
proof fn lemma_filtered_is_listed<T>(s: Seq<T>, pred: spec_fn(T) -> bool, j: int)
    requires
        0 <= j < s.filter(pred).len(),
    ensures
        exists|i: int| 0 <= i < s.len() && #[trigger] s[i] == s.filter(pred)[j],
    decreases s.len(),
{
    reveal(Seq::filter);
    if s.len() > 0 {
        let shorter = s.drop_last();
        if j < shorter.filter(pred).len() {
            lemma_filtered_is_listed(shorter, pred, j);
            let i = choose|i: int|
                0 <= i < shorter.len() && #[trigger] shorter[i] == shorter.filter(pred)[j];
            assert(s[i] == s.filter(pred)[j]);
        } else {
            assert(s[s.len() - 1] == s.filter(pred)[j]);
        }
    }
}

/// A shard map that reads names, shard by shard, what its segments say: as many shards as there are
/// segments that are not blank, and shard `j` has the range before the first equals sign and the
/// URL after it of the `j`-th of these.
pub proof fn law_shards_are_what_their_segments_say<P: RangeReader>(
    reader: &P,
    range: spec_fn(Seq<char>) -> Option<(usize, usize)>,
    spec: &str,
    r: Result<Vec<ShardConfig>, String>,
    j: int,
)
    requires
        reads(reader, range),
        call_ensures(parse_shard_segments::<P>, (spec, reader), r),
        r is Ok,
        0 <= j < r->Ok_0@.len(),
    ensures
        ({
            let configs = r->Ok_0@;
            let named = split(spec@, ',').filter(|s: Seq<char>| trimmed(s).len() > 0);
            let t = trimmed(named[j]);
            let equals = span_to(t, '=');
            &&& configs.len() == named.len()
            &&& 0 <= equals < t.len() && t[equals] == '=' && !t.take(equals).contains('=')
            &&& range(t.take(equals)) == Some((configs[j].start, configs[j].end))
            &&& configs[j].url@ == t.skip(equals + 1)
            &&& t == t.take(equals) + seq!['='] + configs[j].url@
        }),
{
    let segments = split(spec@, ',');
    let configs = r->Ok_0@;
    assert(maps_shards(reader, spec@, r));
    assert(shard_map(range, spec@) is Ok);
    assert(shards_in(range, segments) is Ok);
    assert(shards_of(configs) == shards_in(range, segments)->Ok_0);
    law_one_shard_per_segment(range, segments);
    let named = segments.filter(|s: Seq<char>| trimmed(s).len() > 0);
    assert(named == written(segments));
    let t = trimmed(named[j]);
    let equals = span_to(t, '=');
    lemma_span_to(t, '=');
    assert(shards_of(configs)[j] == configs[j]@);
    segments.lemma_filter_pred(|s: Seq<char>| trimmed(s).len() > 0, j);
    lemma_filtered_is_listed(segments, |s: Seq<char>| trimmed(s).len() > 0, j);
    lemma_segments_read(range, segments);
    let i = choose|i: int| 0 <= i < segments.len() && segments[i] == named[j];
    assert(segment_reads(range, trimmed(segments[i])));
    if equals == t.len() {
        let k = choose|k: int| 0 <= k < t.len() && t[k] == '=';
        assert(t[k] != '=');
    }
    assert(t =~= t.take(equals) + seq!['='] + t.skip(equals + 1));
}

/// The segments up to `j` read and segment `j` is neither blank nor reads.
pub open spec fn fails_first(
    range: spec_fn(Seq<char>) -> Option<(usize, usize)>,
    segments: Seq<Seq<char>>,
    j: int,
) -> bool {
    &&& 0 <= j < segments.len()
    &&& trimmed(segments[j]).len() > 0
    &&& !segment_reads(range, trimmed(segments[j]))
    &&& forall|i: int|
        0 <= i < j && trimmed(#[trigger] segments[i]).len() > 0 ==> segment_reads(
            range,
            trimmed(segments[i]),
        )
}

/// A shard map that does not read is answered with its first segment that does not: with the quoted
/// segment where the equals sign is missing, and with the quoted range and the segment as it stands
/// where the range does not read.  A map of blank segments is told to hold none.
pub proof fn law_first_bad_segment_is_told<P: RangeReader>(
    reader: &P,
    range: spec_fn(Seq<char>) -> Option<(usize, usize)>,
    spec: &str,
    r: Result<Vec<ShardConfig>, String>,
    j: int,
)
    requires
        reads(reader, range),
        call_ensures(parse_shard_segments::<P>, (spec, reader), r),
    ensures
        fails_first(range, split(spec@, ','), j) ==> r is Err && ({
            let t = trimmed(split(spec@, ',')[j]);
            let before = t.take(span_to(t, '='));
            &&& !t.contains('=') ==> r->Err_0@ == "missing URL in shard segment: "@ + quoted(t)
            &&& t.contains('=') ==> r->Err_0@ == "bad expert range "@ + quoted(before)
                + " in --moe-shards segment "@ + t
        }),
        (forall|i: int|
            0 <= i < split(spec@, ',').len() ==> trimmed(#[trigger] split(spec@, ',')[i]).len()
                == 0) ==> r is Err && r->Err_0@ == "--moe-shards: no valid shard segments"@,
{
    let segments = split(spec@, ',');
    assert(maps_shards(reader, spec@, r));
    lemma_segments_read(range, segments);
    if fails_first(range, segments, j) {
        lemma_first_failure_decides(range, segments, j);
    }
}

proof fn lemma_first_failure_decides(
    range: spec_fn(Seq<char>) -> Option<(usize, usize)>,
    segments: Seq<Seq<char>>,
    j: int,
)
    requires
        fails_first(range, segments, j),
    ensures
        ({
            let t = trimmed(segments[j]);
            let before = t.take(span_to(t, '='));
            shards_in(range, segments) == Err::<Seq<ShardModel>, Seq<char>>(
                if t.contains('=') {
                    "bad expert range "@ + quoted(before) + " in --moe-shards segment "@ + t
                } else {
                    "missing URL in shard segment: "@ + quoted(t)
                },
            )
        }),
    decreases segments.len(),
{
    let t = trimmed(segments.first());
    lemma_span_to(t, '=');
    let i = span_to(t, '=');
    if i < t.len() {
        assert(t.contains(t[i]));
    } else if t.contains('=') {
        let k = choose|k: int| 0 <= k < t.len() && t[k] == '=';
        assert(t[k] != '=');
    }
    if j > 0 {
        let rest = segments.drop_first();
        assert(rest[j - 1] == segments[j]);
        assert(trimmed(segments[0]).len() > 0 ==> segment_reads(range, trimmed(segments[0])));
        assert forall|i: int|
            0 <= i < j - 1 && trimmed(#[trigger] rest[i]).len() > 0 implies segment_reads(
            range,
            trimmed(rest[i]),
        ) by {
            assert(rest[i] == segments[i + 1]);
        }
        lemma_first_failure_decides(range, rest, j - 1);
    }
}

proof fn lemma_filter_keeps_all<T>(s: Seq<T>, pred: spec_fn(T) -> bool)
    requires
        forall|i: int| 0 <= i < s.len() ==> pred(#[trigger] s[i]),
    ensures
        s.filter(pred) == s,
    decreases s.len(),
{
    reveal(Seq::filter);
    if s.len() > 0 {
        let shorter = s.drop_last();
        assert forall|i: int| 0 <= i < shorter.len() implies pred(#[trigger] shorter[i]) by {
            assert(shorter[i] == s[i]);
        }
        lemma_filter_keeps_all(shorter, pred);
        assert(pred(s[s.len() - 1]));
        assert(shorter.push(s.last()) =~= s);
    }
}

/// A shard map that is written is read back: ranges and URLs that are put together with equals
/// signs and commas come back as shards, each with its own range and its own URL, in order.
pub proof fn law_written_maps_read_back<P: RangeReader>(
    reader: &P,
    range: spec_fn(Seq<char>) -> Option<(usize, usize)>,
    ranges: Seq<Seq<char>>,
    urls: Seq<Seq<char>>,
    ends: Seq<(usize, usize)>,
    segments: Seq<Seq<char>>,
    spec: &str,
    r: Result<Vec<ShardConfig>, String>,
)
    requires
        reads(reader, range),
        segments.len() > 0,
        ranges.len() == segments.len() && urls.len() == segments.len() && ends.len()
            == segments.len(),
        forall|j: int|
            0 <= j < segments.len() ==> {
                let t = #[trigger] segments[j];
                &&& t == ranges[j] + seq!['='] + urls[j]
                &&& range(ranges[j]) == Some(ends[j])
                &&& !ranges[j].contains('=')
                &&& !t.contains(',')
                &&& trimmed(t) == t
            },
        spec@ == joined_by(segments, ','),
        call_ensures(parse_shard_segments::<P>, (spec, reader), r),
    ensures
        r is Ok,
        r->Ok_0@.len() == segments.len(),
        forall|j: int|
            0 <= j < segments.len() ==> {
                let c = #[trigger] r->Ok_0@[j];
                c.start == ends[j].0 && c.end == ends[j].1 && c.url@ == urls[j]
            },
{
    law_splitting_undoes_joining(segments, ',');
    assert(split(spec@, ',') == segments);
    assert forall|j: int| 0 <= j < segments.len() implies {
        let t = #[trigger] segments[j];
        let i = ranges[j].len() as int;
        &&& trimmed(t).len() > 0
        &&& span_to(t, '=') == i
        &&& t.take(i) == ranges[j]
        &&& t.skip(i + 1) == urls[j]
        &&& segment_reads(range, trimmed(t))
    } by {
        let t = segments[j];
        let i = ranges[j].len() as int;
        lemma_span_to(t, '=');
        let k = span_to(t, '=');
        assert(t[i] == '=');
        assert(t.contains(t[i]));
        if k < i {
            assert(ranges[j][k] == t[k]);
            assert(ranges[j].contains('='));
        }
        assert(t.take(i) =~= ranges[j]);
        assert(t.skip(i + 1) =~= urls[j]);
    }
    law_maps_read_when_their_segments_do(reader, range, spec, r);
    assert(trimmed(segments[0]).len() > 0);
    let pred = |s: Seq<char>| trimmed(s).len() > 0;
    assert forall|j: int| 0 <= j < segments.len() implies pred(#[trigger] segments[j]) by {
        assert(trimmed(segments[j]).len() > 0);
    }
    lemma_filter_keeps_all(segments, pred);
    assert(maps_shards(reader, spec@, r));
    assert(shards_of(r->Ok_0@) == shards_in(range, segments)->Ok_0);
    law_one_shard_per_segment(range, segments);
    assert(written(segments) == segments);
    assert forall|j: int| 0 <= j < segments.len() implies {
        let c = #[trigger] r->Ok_0@[j];
        c.start == ends[j].0 && c.end == ends[j].1 && c.url@ == urls[j]
    } by {
        law_shards_are_what_their_segments_say(reader, range, spec, r, j);
        assert(segments.filter(pred)[j] == segments[j]);
    }
}

/// A remote run without the warmup is summarised by the statistics of its steps and noted where it
/// stopped early; the mean round trip is reported exactly when there is a measured step and a round
/// trip for each, and is the sum of these by their number.  What is left of a step is the reported
/// mean less the reported round trip, cut off at zero.
pub proof fn law_rest_of_a_step_is_mean_less_round_trip<A: Arith64>(
    arith: &A,
    m: Model64,
    decode: &[F64],
    ffn: &[F64],
    warmup: usize,
    target: usize,
    r: MoeSummary,
    window: &[F64],
    dropped: usize,
    trips: &[F64],
    stats: DecodeStats,
    trip_sum: F64,
    note: String,
)
    requires
        follows_64(arith, m),
        call_ensures(summarize_moe_result::<A>, (decode, ffn, warmup, target, arith), r),
        call_ensures(measured_window, (decode, warmup), window),
        dropped + window@.len() == decode@.len(),
        call_ensures(measured_window, (ffn, dropped), trips),
        call_ensures(decode_stats::<A>, (window, arith), stats),
        call_ensures(sum_all::<A>, (trips, arith), trip_sum),
        call_ensures(remote_run_note, (window@.len() as usize, target), note),
    ensures
        r.avg_decode_ms == stats.avg_ms,
        r.p50_ms == stats.p50_ms,
        r.p99_ms == stats.p99_ms,
        r.tok_per_s == stats.tok_per_s,
        r.n_steps == window@.len(),
        r.note@ == note@,
        r.ffn_rtt_ms is Some <==> window@.len() > 0 && trips@.len() == window@.len(),
        r.attn_ms is Some <==> r.ffn_rtt_ms is Some,
        r.ffn_rtt_ms matches Some(trip) ==> trip == (m.quotient)(
            trip_sum,
            (m.from_count)(window@.len() as usize),
        ),
        r.ffn_rtt_ms matches Some(trip) ==> ({
            let left = (m.difference)(r.avg_decode_ms, trip);
            let zero = F64 { bits: 0 };
            &&& zero.below(left) ==> r.attn_ms == Some(left)
            &&& !zero.below(left) ==> r.attn_ms == Some(zero)
        }),
{
    assert(r@ == summary(m, decode@, ffn@, warmup as int, target as nat));
    assert(stats == step_stats(m, window@));
    assert(trip_sum == total(m, trips@));
    assert(window.len() == window@.len());
    assert(trips@ == measured_trips(ffn@, decode@.len() as int, warmup as int));
}

/// The row of a remote expert run has the run's label and its summary, and nothing else.
pub proof fn law_expert_rows_carry_the_summary<S>(
    is_batch: bool,
    shards: usize,
    s: MoeSummary,
    label: String,
    r: BenchRow<S>,
)
    requires
        call_ensures(format_moe_backend_label, (is_batch, shards), label),
        call_ensures(moe_bench_row::<S>, (is_batch, shards, s), r),
    ensures
        r.backend@ == label@,
        label@ == "remote-moe-"@ + (if is_batch {
            "batch"@
        } else {
            "stream"@
        }) + " ("@ + numeral(shards as nat) + " shards)"@,
        r.prefill_ms.bits == 0,
        r.avg_decode_ms == s.avg_decode_ms && r.p50_ms == s.p50_ms && r.p99_ms == s.p99_ms,
        r.tok_per_s == s.tok_per_s && r.n_steps == s.n_steps && r.note@ == s.note@,
        r.ffn_rtt_ms == s.ffn_rtt_ms && r.attn_ms == s.attn_ms,
        r.stages is None && r.wire_bytes_per_tok is None && r.shard_efficiency is None,
{
    assert(r@.backend == r.backend@ && r@.prefill_ms == r.prefill_ms && r@.avg_decode_ms
        == r.avg_decode_ms && r@.p50_ms == r.p50_ms && r@.p99_ms == r.p99_ms && r@.tok_per_s
        == r.tok_per_s && r@.n_steps == r.n_steps && r@.note == r.note@ && r@.ffn_rtt_ms
        == r.ffn_rtt_ms && r@.attn_ms == r.attn_ms && r@.stages == r.stages
        && r@.wire_bytes_per_tok == r.wire_bytes_per_tok && r@.shard_efficiency
        == r.shard_efficiency);
}

/// The wire bytes of a step are the bytes of the run shared out evenly, rounded down.
pub proof fn law_wire_bytes_are_shared_out(sent: u64, received: u64, n: usize, r: Option<u64>)
    requires
        n > 0 ==> sent + received <= u64::MAX,
        call_ensures(wire_bytes_per_token, (sent, received, n), r),
    ensures
        n == 0 ==> r is None,
        n > 0 ==> r is Some && r->0 * n <= sent + received < (r->0 + 1) * n,
{
    if n > 0 {
        let whole = sent + received;
        let share = whole / n as int;
        assert(share * n <= whole < (share + 1) * n && 0 <= share <= whole) by (nonlinear_arith)
            requires
                n > 0,
                whole >= 0,
                share == whole / n as int,
        ;
    }
}

/// The row of a remote feed-forward run has the run's label, its summary and its wire bytes.
pub proof fn law_ffn_rows_carry_the_summary<S, A: Arith64>(
    arith: &A,
    m: Model64,
    label: String,
    run: &FfnMeasurement<'_>,
    decode: &[F64],
    ffn: &[F64],
    warmup: usize,
    tokens: usize,
    s: MoeSummary,
    wire: Option<u64>,
    r: BenchRow<S>,
)
    requires
        follows_64(arith, m),
        decode@ == run.decode_ms@,
        ffn@ == run.ffn_rtt_ms@,
        call_ensures(summarize_moe_result::<A>, (decode, ffn, warmup, tokens, arith), s),
        call_ensures(wire_bytes_per_token, (run.bytes_sent, run.bytes_received, s.n_steps), wire),
        call_ensures(ffn_bench_row::<S, A>, (label, run, warmup, tokens, arith), r),
    ensures
        r.backend@ == label@,
        r.prefill_ms.bits == 0,
        r.avg_decode_ms == s.avg_decode_ms && r.p50_ms == s.p50_ms && r.p99_ms == s.p99_ms,
        r.tok_per_s == s.tok_per_s && r.n_steps == s.n_steps && r.note@ == s.note@,
        r.ffn_rtt_ms == s.ffn_rtt_ms && r.attn_ms == s.attn_ms,
        r.wire_bytes_per_tok == wire,
        r.stages is None && r.shard_efficiency is None,
{
    assert(s@ == summary(m, decode@, ffn@, warmup as int, tokens as nat));
    assert(s@.avg_decode_ms == s.avg_decode_ms && s@.p50_ms == s.p50_ms && s@.p99_ms == s.p99_ms
        && s@.tok_per_s == s.tok_per_s && s@.n_steps == s.n_steps && s@.note == s.note@
        && s@.ffn_rtt_ms == s.ffn_rtt_ms && s@.attn_ms == s.attn_ms);
    assert(r@.backend == r.backend@ && r@.prefill_ms == r.prefill_ms && r@.avg_decode_ms
        == r.avg_decode_ms && r@.p50_ms == r.p50_ms && r@.p99_ms == r.p99_ms && r@.tok_per_s
        == r.tok_per_s && r@.n_steps == r.n_steps && r@.note == r.note@ && r@.ffn_rtt_ms
        == r.ffn_rtt_ms && r@.attn_ms == r.attn_ms);
}

/// The label of a remote feed-forward run tells its mode, its wire format where one was asked for,
/// and its server.
pub proof fn law_ffn_labels(is_batch: bool, wire: Option<&str>, url: &str, r: String)
    requires
        call_ensures(format_ffn_backend_label, (is_batch, wire, url), r),
    ensures
        wire is None ==> r@ == (if is_batch {
            "remote-ffn-batch"@
        } else {
            "remote-ffn-stream"@
        }) + " ("@ + url@ + ")"@,
        wire matches Some(format) ==> r@ == (if is_batch {
            "remote-ffn-batch"@
        } else {
            "remote-ffn-stream"@
        }) + " ["@ + format@ + "] ("@ + url@ + ")"@,
{
    reveal_strlit("remote-ffn-batch");
    reveal_strlit("remote-ffn-stream");
    reveal_strlit("remote-ffn-");
    reveal_strlit("batch");
    reveal_strlit("stream");
    reveal_strlit(" (");
    reveal_strlit("]");
    reveal_strlit("] (");
    assert("remote-ffn-"@ + "batch"@ =~= "remote-ffn-batch"@);
    assert("remote-ffn-"@ + "stream"@ =~= "remote-ffn-stream"@);
    assert("]"@ + " ("@ =~= "] ("@);
    let head = if is_batch {
        "remote-ffn-batch"@
    } else {
        "remote-ffn-stream"@
    };
    if let Some(format) = wire {
        assert(r@ =~= head + " ["@ + format@ + "] ("@ + url@ + ")"@);
    } else {
        assert(r@ =~= head + " ("@ + url@ + ")"@);
    }
}

/// A dispatch is a batch exactly when its name is, white space at its ends aside; a count is at
/// least one, and itself where it is.
pub proof fn law_dispatch_and_counts(dispatch: &str, is_batch: bool, n: usize, r: usize)
    requires
        call_ensures(is_batch_dispatch, (dispatch,), is_batch),
        call_ensures(at_least_one, (n,), r),
    ensures
        is_batch <==> trimmed(dispatch@) == seq!['b', 'a', 't', 'c', 'h'],
        n == 0 ==> r == 1,
        n > 0 ==> r == n,
{
    reveal_strlit("batch");
    assert("batch"@ =~= seq!['b', 'a', 't', 'c', 'h']);
}

/// Clients that run side by side give all their summaries in order, or the text of the first one
/// that has none: its own where it failed, and that of its path where it panicked.
pub proof fn law_first_bad_client_decides<S>(
    path: RemotePath,
    outcomes: Vec<WorkerOutcome<S>>,
    r: Result<Vec<BenchRow<S>>, String>,
    j: int,
)
    requires
        call_ensures(collect_rows::<S>, (path, outcomes), r),
        0 <= j < outcomes@.len(),
    ensures
        r matches Ok(rows) ==> rows@.len() == outcomes@.len() && outcomes@[j] == WorkerOutcome::Row(
            rows@[j],
        ),
        (forall|i: int| 0 <= i < outcomes@.len() ==> (#[trigger] outcomes@[i]) is Row) ==> r is Ok,
        !(outcomes@[j] is Row) && (forall|i: int|
            0 <= i < j ==> (#[trigger] outcomes@[i]) is Row) ==> {
            &&& r is Err
            &&& outcomes@[j] matches WorkerOutcome::Failed(text) ==> r->Err_0@ == text@
            &&& outcomes@[j] is Panicked && path is Ffn ==> r->Err_0@
                == "concurrent FFN bench worker panicked — see stderr for details"@
            &&& outcomes@[j] is Panicked && path is Moe ==> r->Err_0@
                == "concurrent MoE bench worker panicked — see stderr for details"@
        },
{
    if r is Ok {
        let rows = r->Ok_0@;
        assert(WorkerOutcome::Row(rows[j]) == outcomes@[j]);
        assert(outcomes@[j] is Row);
    } else {
        let i = choose|i: int| #[trigger]
            first_bad(outcomes@, i) && r->Err_0@ == worker_failure(
                path,
                outcomes@[i],
            );
        assert(!(outcomes@[i] is Row));
        if !(outcomes@[j] is Row) && (forall|i: int|
            0 <= i < j ==> (#[trigger] outcomes@[i]) is Row) {
            assert(i == j);
        }
    }
}

/// The clients of a run come to the first bad one's text where there is one; otherwise to the only
/// client's summary, or to what [`combine_concurrent_rows`] makes of all of them.
pub proof fn law_one_client_passes_through_and_several_are_combined<S, A: Arith64>(
    arith: &A,
    m: Model64,
    path: RemotePath,
    n: usize,
    outcomes: Vec<WorkerOutcome<S>>,
    rows: Result<Vec<BenchRow<S>>, String>,
    all: BenchRow<S>,
    r: Result<BenchRow<S>, String>,
)
    requires
        follows_64(arith, m),
        n >= 1,
        outcomes@.len() == n,
        call_ensures(collect_rows::<S>, (path, outcomes), rows),
        rows matches Ok(list) ==> n > 1 ==> call_ensures(
            combine_concurrent_rows::<S, A>,
            (list, n, arith),
            all,
        ),
        call_ensures(combine_outcomes::<S, A>, (path, n, outcomes, arith), r),
    ensures
        r is Ok <==> rows is Ok,
        rows matches Err(text) ==> r is Err && r->Err_0@ == text@,
        rows is Ok && n == 1 ==> r is Ok && outcomes@[0] == WorkerOutcome::Row(r->Ok_0),
        rows is Ok && n > 1 ==> r is Ok && r->Ok_0@ == all@,
{
    if rows is Err {
        let i = choose|i: int| #[trigger]
            first_bad(outcomes@, i) && rows->Err_0@ == worker_failure(
                path,
                outcomes@[i],
            );
        let k = choose|k: int| #[trigger]
            first_bad(outcomes@, k) && r->Err_0@ == worker_failure(
                path,
                outcomes@[k],
            );
        assert(first_bad(outcomes@, i) && first_bad(outcomes@, k));
        assert(!(outcomes@[i] is Row) && !(outcomes@[k] is Row));
        assert(i == k);
    } else if n > 1 {
        let list = rows->Ok_0@;
        assert forall|j: int| 0 <= j < list.len() implies list[j] == rows_of(outcomes@)[j] by {
            assert(WorkerOutcome::Row(list[j]) == outcomes@[j]);
        }
        assert(list =~= rows_of(outcomes@));
        assert(all@ == combined(m, list, n as nat));
        assert(r->Ok_0@ == combined(m, rows_of(outcomes@), n as nat));
    }
}

/// A reported time with one more client: that client's where it is larger, and above zero.
pub open spec fn worse(before: Option<F64>, x: Option<F64>) -> Option<F64> {
    let zero = F64 { bits: 0 };
    match x {
        Some(v) => if larger(zero, match before {
            Some(w) => w,
            None => zero,
        }).below(v) {
            Some(v)
        } else {
            before
        },
        None => before,
    }
}

proof fn lemma_worst_reported_grows(values: Seq<Option<F64>>, x: Option<F64>)
    ensures
        worst_reported(values.push(x)) == worse(worst_reported(values), x),
        values.len() == 0 ==> worst_reported(values) is None,
{
    let f = |v: Option<F64>| or_zero(v);
    let zeroed = values.map_values(f);
    assert(values.push(x).map_values(f).drop_last() =~= zeroed);
    lemma_worst_is_a_number(zeroed);
}

/// A combined row with one more client: the throughput grows by that client's, steps and wire bytes
/// are added, latencies and breakdowns move on to that client's where they are larger, and the
/// prefill time stays the first client's.  The number of clients is shown and not computed with.
pub proof fn law_combined_row_grows_client_by_client<S, A: Arith64>(
    arith: &A,
    m: Model64,
    rows: Vec<BenchRow<S>>,
    n: usize,
    r: BenchRow<S>,
    x: BenchRow<S>,
    longer: Vec<BenchRow<S>>,
    k: usize,
    s: BenchRow<S>,
)
    requires
        follows_64(arith, m),
        rows@.len() > 0,
        longer@ == rows@.push(x),
        reported_sum(wire_of(samples_of(longer@))) <= u64::MAX,
        call_ensures(combine_concurrent_rows::<S, A>, (rows, n, arith), r),
        call_ensures(combine_concurrent_rows::<S, A>, (longer, k, arith), s),
    ensures
        s.tok_per_s == (m.sum)(r.tok_per_s, x.tok_per_s),
        s.n_steps == r.n_steps + x.n_steps,
        s.prefill_ms == r.prefill_ms && r.prefill_ms == rows@[0].prefill_ms,
        s.avg_decode_ms == larger(r.avg_decode_ms, x.avg_decode_ms),
        s.p50_ms == larger(r.p50_ms, x.p50_ms),
        s.p99_ms == larger(r.p99_ms, x.p99_ms),
        s.ffn_rtt_ms == worse(r.ffn_rtt_ms, x.ffn_rtt_ms),
        s.attn_ms == worse(r.attn_ms, x.attn_ms),
        x.wire_bytes_per_tok is None ==> s.wire_bytes_per_tok == r.wire_bytes_per_tok,
        x.wire_bytes_per_tok matches Some(v) ==> s.wire_bytes_per_tok is Some
            && s.wire_bytes_per_tok->0 == v + (match r.wire_bytes_per_tok {
            Some(w) => w as int,
            None => 0,
        }),
        s.backend@ == rows@[0].backend@ + " (×"@ + numeral(k as nat) + " concurrent)"@,
        s.note@ == "concurrent="@ + numeral(k as nat) + " | "@ + rows@[0].note@,
        s.stages is None && s.shard_efficiency is None,
{
    assert(samples_of(longer@) =~= samples_of(rows@).push(
        sample_of(x),
    ));
    lemma_aggregate_grows(m, samples_of(rows@), sample_of(x));
    let ffn = |r: BenchRow<S>| r.ffn_rtt_ms;
    let attn = |r: BenchRow<S>| r.attn_ms;
    assert(longer@.map_values(ffn) =~= rows@.map_values(ffn).push(x.ffn_rtt_ms));
    assert(longer@.map_values(attn) =~= rows@.map_values(attn).push(x.attn_ms));
    lemma_worst_reported_grows(rows@.map_values(ffn), x.ffn_rtt_ms);
    lemma_worst_reported_grows(rows@.map_values(attn), x.attn_ms);
    assert(longer@.drop_last() =~= rows@);
    assert(r@ == combined(m, rows@, n as nat));
    assert(s@ == combined(m, longer@, k as nat));
    assert(longer@[0] == rows@[0]);
    assert(r@.tok_per_s == r.tok_per_s && s@.tok_per_s == s.tok_per_s);
    assert(r@.avg_decode_ms == r.avg_decode_ms && s@.avg_decode_ms == s.avg_decode_ms);
    assert(r@.p50_ms == r.p50_ms && s@.p50_ms == s.p50_ms);
    assert(r@.p99_ms == r.p99_ms && s@.p99_ms == s.p99_ms);
    assert(r@.wire_bytes_per_tok == r.wire_bytes_per_tok && s@.wire_bytes_per_tok
        == s.wire_bytes_per_tok);
    assert(steps_sum(longer@) == steps_sum(rows@) + x.n_steps);
}

/// The combined row of a single client has that client's numbers: its throughput where adding to
/// the negative zero changes nothing, its steps, its wire bytes and its prefill time, and its times
/// where they are above zero.
pub proof fn law_combined_row_of_one_client<S, A: Arith64>(
    arith: &A,
    m: Model64,
    rows: Vec<BenchRow<S>>,
    n: usize,
    r: BenchRow<S>,
)
    requires
        follows_64(arith, m),
        rows@.len() == 1,
        reported_sum(wire_of(samples_of(rows@))) <= u64::MAX,
        call_ensures(combine_concurrent_rows::<S, A>, (rows, n, arith), r),
    ensures
        r.tok_per_s == (m.sum)(F64 { bits: 0x8000_0000_0000_0000 }, rows@[0].tok_per_s),
        r.n_steps == rows@[0].n_steps,
        r.prefill_ms == rows@[0].prefill_ms,
        r.wire_bytes_per_tok == rows@[0].wire_bytes_per_tok,
        r.avg_decode_ms == larger(F64 { bits: 0 }, rows@[0].avg_decode_ms),
        r.p50_ms == larger(F64 { bits: 0 }, rows@[0].p50_ms),
        r.p99_ms == larger(F64 { bits: 0 }, rows@[0].p99_ms),
        r.ffn_rtt_ms == worse(None, rows@[0].ffn_rtt_ms),
        r.attn_ms == worse(None, rows@[0].attn_ms),
        r.backend@ == rows@[0].backend@ + " (×"@ + numeral(n as nat) + " concurrent)"@,
        r.note@ == "concurrent="@ + numeral(n as nat) + " | "@ + rows@[0].note@,
{
    let x = rows@[0];
    let none = Seq::<BenchRow<S>>::empty();
    let no_samples = samples_of(none);
    assert(samples_of(rows@) =~= no_samples.push(sample_of(x)));
    lemma_aggregate_grows(m, no_samples, sample_of(x));
    let ffn = |r: BenchRow<S>| r.ffn_rtt_ms;
    let attn = |r: BenchRow<S>| r.attn_ms;
    assert(rows@.map_values(ffn) =~= none.map_values(ffn).push(x.ffn_rtt_ms));
    assert(rows@.map_values(attn) =~= none.map_values(attn).push(x.attn_ms));
    lemma_worst_reported_grows(none.map_values(ffn), x.ffn_rtt_ms);
    lemma_worst_reported_grows(none.map_values(attn), x.attn_ms);
    assert(rows@.drop_last() =~= none);
    assert(steps_sum(none) == 0);
    assert(r@ == combined(m, rows@, n as nat));
    assert(r@.tok_per_s == r.tok_per_s && r@.avg_decode_ms == r.avg_decode_ms && r@.p50_ms
        == r.p50_ms && r@.p99_ms == r.p99_ms && r@.wire_bytes_per_tok == r.wire_bytes_per_tok);
}

} // verus!
