//! The remote expert run: attention and router stay local, expert blocks go to remote shards.

use crate::arith::{
    computes_functions_64, follows_64, law_functions_follow_a_model_64, Arith64, Model64,
};
use crate::bench::row::{
    decode_stats, early_stop, latency_summary, mean, measured, measured_window, remote_note,
    remote_run_note, step_stats, sum_all, summarises_latency, warm_steps, BenchRow, RowModel,
};
use crate::float::{zero_64, F64};
use crate::text::{
    append_numeral, find_from, lemma_span_to, numeral, quote, quoted, same_text, span_to, split,
    trim, trimmed,
};
use vstd::prelude::*;
use vstd::string::*;

verus! {

/// A shard and the experts it serves, both ends of the range included.
#[derive(Debug)]
pub struct ShardConfig {
    pub start: usize,
    pub end: usize,
    pub url: String,
}

/// What a shard configuration says.
#[verifier::ext_equal]
pub struct ShardModel {
    pub start: usize,
    pub end: usize,
    pub url: Seq<char>,
}

impl View for ShardConfig {
    type V = ShardModel;

    open spec fn view(&self) -> ShardModel {
        ShardModel { start: self.start, end: self.end, url: self.url@ }
    }
}

/// The reader of expert ranges, as the caller supplies it; nothing is assumed of what it reads.
pub trait RangeReader {
    /// The ends of the range that `text` writes, if it writes one.
    fn read_range(&self, text: &str) -> Option<(usize, usize)>;
}

/// Whatever the reader returns is what the function says.
pub open spec fn reads<P: RangeReader>(
    reader: &P,
    range: spec_fn(Seq<char>) -> Option<(usize, usize)>,
) -> bool {
    forall|text: &str, r: Option<(usize, usize)>| #[trigger]
        call_ensures(P::read_range, (reader, text), r) ==> r == range(text@)
}

/// What is said of a segment without a URL.
pub open spec fn missing_url(segment: Seq<char>) -> Seq<char> {
    "missing URL in shard segment: "@ + quoted(segment)
}

/// What is said of a segment whose range does not read: the range, and the segment as it stands.
pub open spec fn bad_range(range_text: Seq<char>, segment: Seq<char>) -> Seq<char> {
    "bad expert range "@ + quoted(range_text) + " in --moe-shards segment "@ + segment
}

/// The shards that a list of segments names, or what is wrong with the first bad one; blank
/// segments name nothing.
pub open spec fn shards_in(
    range: spec_fn(Seq<char>) -> Option<(usize, usize)>,
    segments: Seq<Seq<char>>,
) -> Result<Seq<ShardModel>, Seq<char>>
    decreases segments.len(),
{
    if segments.len() == 0 {
        Ok(Seq::empty())
    } else {
        let segment = trimmed(segments.first());
        let rest = segments.drop_first();
        let i = span_to(segment, '=');
        if segment.len() == 0 {
            shards_in(range, rest)
        } else if i == segment.len() {
            Err(missing_url(segment))
        } else {
            match range(segment.take(i)) {
                None => Err(bad_range(segment.take(i), segment)),
                Some((start, end)) => match shards_in(range, rest) {
                    Ok(shards) => Ok(
                        seq![ShardModel { start, end, url: segment.skip(i + 1) }] + shards,
                    ),
                    Err(e) => Err(e),
                },
            }
        }
    }
}

/// The shards that a shard map names: comma-separated segments `START-END=URL`, of which at
/// least one is not blank.
pub open spec fn shard_map(
    range: spec_fn(Seq<char>) -> Option<(usize, usize)>,
    spec: Seq<char>,
) -> Result<Seq<ShardModel>, Seq<char>> {
    match shards_in(range, split(spec, ',')) {
        Ok(shards) => if shards.len() == 0 {
            Err("--moe-shards: no valid shard segments"@)
        } else {
            Ok(shards)
        },
        Err(e) => Err(e),
    }
}

/// What shards already read and the outcome for the remaining segments come to.
spec fn joined(
    done: Seq<ShardModel>,
    rest: Result<Seq<ShardModel>, Seq<char>>,
) -> Result<Seq<ShardModel>, Seq<char>> {
    match rest {
        Ok(shards) => Ok(done + shards),
        Err(e) => Err(e),
    }
}

/// No segment has anything but white space in it.
pub open spec fn all_blank(segments: Seq<Seq<char>>) -> bool {
    forall|j: int| 0 <= j < segments.len() ==> trimmed(#[trigger] segments[j]).len() == 0
}

/// What a list of configurations says.
pub open spec fn shards_of(configs: Seq<ShardConfig>) -> Seq<ShardModel> {
    configs.map_values(|c: ShardConfig| c@)
}

/// A configuration as it is read from a segment: a shard, nothing, or an error.
fn read_segment<P: RangeReader>(segment: &str, reader: &P) -> (r: Result<
    Option<ShardConfig>,
    String,
>)
    ensures
        ({
            let t = trimmed(segment@);
            let i = span_to(t, '=');
            &&& t.len() == 0 ==> r == Ok::<Option<ShardConfig>, String>(None)
            &&& t.len() > 0 && i == t.len() ==> r is Err && r->Err_0@ == missing_url(t)
            &&& forall|range: spec_fn(Seq<char>) -> Option<(usize, usize)>|
                #![trigger reads(reader, range)]
                reads(reader, range) && t.len() > 0 && i != t.len() ==> match range(t.take(i)) {
                    None => r is Err && r->Err_0@ == bad_range(t.take(i), t),
                    Some((start, end)) => r matches Ok(Some(c)) && c@ == (ShardModel {
                        start,
                        end,
                        url: t.skip(i + 1),
                    }),
                }
        }),
{
    let segment = trim(segment);
    let len: usize = segment.unicode_len();
    if len == 0 {
        return Ok(None);
    }
    let i: usize = find_from(segment, '=', 0);
    assert(segment@.skip(0) =~= segment@);
    if i == len {
        let quoted_segment = quote(segment);
        let mut message: String = "missing URL in shard segment: ".to_owned();
        message.append(quoted_segment.as_str());
        return Err(message);
    }
    let range_text = segment.substring_char(0, i);
    assert(range_text@ =~= segment@.take(i as int));
    match reader.read_range(range_text) {
        None => {
            let quoted_range = quote(range_text);
            let mut message: String = "bad expert range ".to_owned();
            message.append(quoted_range.as_str());
            message.append(" in --moe-shards segment ");
            message.append(segment);
            Err(message)
        },
        Some((start, end)) => {
            let url = segment.substring_char(i + 1, len);
            assert(url@ =~= segment@.skip(i + 1));
            Ok(Some(ShardConfig { start, end, url: url.to_owned() }))
        },
    }
}

/// For every function that the reader follows `r` is what the shard map means.
pub open spec fn maps_shards<P: RangeReader>(
    reader: &P,
    spec: Seq<char>,
    r: Result<Vec<ShardConfig>, String>,
) -> bool {
    forall|range: spec_fn(Seq<char>) -> Option<(usize, usize)>| #[trigger]
        reads(reader, range) ==> match shard_map(range, spec) {
            Ok(shards) => r matches Ok(configs) && shards_of(configs@) == shards,
            Err(e) => r is Err && r->Err_0@ == e,
        }
}

/// Reads a shard map.
pub fn parse_shard_segments<P: RangeReader>(spec: &str, reader: &P) -> (r: Result<
    Vec<ShardConfig>,
    String,
>)
    ensures
        r matches Ok(configs) ==> configs.len() > 0,
        all_blank(split(spec@, ',')) ==> r is Err && r->Err_0@
            == "--moe-shards: no valid shard segments"@,
        maps_shards(reader, spec@, r),
{
    let len: usize = spec.unicode_len();
    let mut configs: Vec<ShardConfig> = Vec::new();
    let mut pos: usize = 0;
    let mut more = true;
    let ghost mut k: int = 0;
    proof {
        assert(spec@.skip(0) =~= spec@);
        assert(split(spec@, ',').skip(0) =~= split(spec@, ','));
        assert forall|range: spec_fn(Seq<char>) -> Option<(usize, usize)>| #[trigger]
            reads(reader, range) implies shards_in(range, split(spec@, ',')) == joined(
            shards_of(configs@),
            shards_in(range, split(spec@.skip(0), ',')),
        ) by {
            let all = shards_in(range, split(spec@, ','));
            if let Ok(shards) = all {
                assert(shards_of(configs@) + shards =~= shards);
            }
        }
    }
    while more
        invariant
            more ==> pos <= len,
            len == spec@.len(),
            0 <= k <= split(spec@, ',').len(),
            more ==> split(spec@, ',').skip(k) == split(spec@.skip(pos as int), ','),
            configs.len() > 0 ==> !all_blank(split(spec@, ',')),
            forall|range: spec_fn(Seq<char>) -> Option<(usize, usize)>| #[trigger]
                reads(reader, range) ==> shards_in(range, split(spec@, ',')) == joined(
                    shards_of(configs@),
                    if more {
                        shards_in(range, split(spec@.skip(pos as int), ','))
                    } else {
                        Ok(Seq::empty())
                    },
                ),
        decreases (if more {
            len - pos + 1
        } else {
            0
        }),
    {
        let ghost rest = spec@.skip(pos as int);
        let comma: usize = find_from(spec, ',', pos);
        let segment = spec.substring_char(pos, comma);
        let ghost before = shards_of(configs@);
        proof {
            lemma_span_to(rest, ',');
            assert(segment@ =~= rest.take(span_to(rest, ',')));
            if comma < len {
                assert(rest.skip(comma - pos + 1) =~= spec@.skip(comma + 1));
                assert(split(rest, ',') == seq![rest.take(comma - pos)] + split(
                    rest.skip(comma - pos + 1),
                    ',',
                ));
                assert(split(rest, ',').drop_first() =~= split(spec@.skip(comma + 1), ','));
            } else {
                assert(segment@ =~= rest);
                assert(split(rest, ',').drop_first() =~= Seq::<Seq<char>>::empty());
            }
            assert(split(rest, ',').first() == segment@);
            assert(split(spec@, ',')[k] == split(rest, ',')[0]);
            assert(split(spec@, ',').skip(k + 1) =~= split(rest, ',').drop_first());
            k = k + 1;
        }
        match read_segment(segment, reader) {
            Err(message) => {
                return Err(message);
            },
            Ok(None) => {},
            Ok(Some(config)) => {
                let ghost shard = config@;
                configs.push(config);
                assert(shards_of(configs@) =~= before.push(shard));
            },
        }
        proof {
            assert forall|range: spec_fn(Seq<char>) -> Option<(usize, usize)>| #[trigger]
                reads(reader, range) implies shards_in(range, split(spec@, ',')) == joined(
                shards_of(configs@),
                if comma < len {
                    shards_in(range, split(spec@.skip(comma + 1), ','))
                } else {
                    Ok(Seq::empty())
                },
            ) by {
                let tail = if comma < len {
                    shards_in(range, split(spec@.skip(comma + 1), ','))
                } else {
                    Ok(Seq::empty())
                };
                assert(tail == shards_in(range, split(rest, ',').drop_first()));
                if let Ok(shards) = tail {
                    if shards_of(configs@) != before {
                        let shard = shards_of(configs@).last();
                        assert(shards_of(configs@) + shards =~= before + (seq![shard] + shards));
                    }
                }
            }
        }
        if comma < len {
            pos = comma + 1;
        } else {
            more = false;
        }
    }
    proof {
        assert forall|range: spec_fn(Seq<char>) -> Option<(usize, usize)>| #[trigger]
            reads(reader, range) implies shards_in(range, split(spec@, ',')) == Ok::<
            Seq<ShardModel>,
            Seq<char>,
        >(shards_of(configs@)) by {
            assert(shards_of(configs@) + Seq::empty() =~= shards_of(configs@));
        }
    }
    if configs.len() == 0 {
        return Err("--moe-shards: no valid shard segments".to_owned());
    }
    Ok(configs)
}

/// The label of a remote expert run in reports.
pub open spec fn moe_label(is_batch: bool, num_shards: nat) -> Seq<char> {
    "remote-moe-"@ + (if is_batch {
        "batch"@
    } else {
        "stream"@
    }) + " ("@ + numeral(num_shards) + " shards)"@
}

/// The label of a remote expert run in reports.
pub fn format_moe_backend_label(is_batch: bool, num_shards: usize) -> (r: String)
    ensures
        r@ == moe_label(is_batch, num_shards as nat),
{
    let mut label: String = "remote-moe-".to_owned();
    label.append(
        if is_batch {
            "batch"
        } else {
            "stream"
        },
    );
    label.append(" (");
    append_numeral(&mut label, num_shards);
    label.append(" shards)");
    label
}

/// The summary of a remote run.
pub struct MoeSummary {
    pub avg_decode_ms: F64,
    pub p50_ms: F64,
    pub p99_ms: F64,
    pub tok_per_s: F64,
    pub ffn_rtt_ms: Option<F64>,
    pub attn_ms: Option<F64>,
    pub n_steps: usize,
    pub note: String,
}

/// What the summary of a remote run says.
#[verifier::ext_equal]
pub struct SummaryModel {
    pub avg_decode_ms: F64,
    pub p50_ms: F64,
    pub p99_ms: F64,
    pub tok_per_s: F64,
    pub ffn_rtt_ms: Option<F64>,
    pub attn_ms: Option<F64>,
    pub n_steps: nat,
    pub note: Seq<char>,
}

impl View for MoeSummary {
    type V = SummaryModel;

    open spec fn view(&self) -> SummaryModel {
        SummaryModel {
            avg_decode_ms: self.avg_decode_ms,
            p50_ms: self.p50_ms,
            p99_ms: self.p99_ms,
            tok_per_s: self.tok_per_s,
            ffn_rtt_ms: self.ffn_rtt_ms,
            attn_ms: self.attn_ms,
            n_steps: self.n_steps as nat,
            note: self.note@,
        }
    }
}

/// The round trips that belong to the measured steps: as many are dropped as steps were.
pub open spec fn measured_trips(ffn: Seq<F64>, decode_len: int, warmup: int) -> Seq<F64> {
    measured(ffn, warm_steps(warmup, decode_len))
}

/// There is a measured step, and a round trip for each measured step.
pub open spec fn trips_known(decode: Seq<F64>, ffn: Seq<F64>, warmup: int) -> bool {
    &&& measured(decode, warmup).len() > 0
    &&& measured_trips(ffn, decode.len() as int, warmup).len() == measured(decode, warmup).len()
}

/// The summary of a remote run: the statistics of the measured steps, the mean round trip where
/// there is one for every step, and what is left of a step beside it.
pub open spec fn summary(
    m: Model64,
    decode: Seq<F64>,
    ffn: Seq<F64>,
    warmup: int,
    target: nat,
) -> SummaryModel {
    let window = measured(decode, warmup);
    let stats = step_stats(m, window);
    let trip = mean(m, measured_trips(ffn, decode.len() as int, warmup));
    SummaryModel {
        avg_decode_ms: stats.avg_ms,
        p50_ms: stats.p50_ms,
        p99_ms: stats.p99_ms,
        tok_per_s: stats.tok_per_s,
        ffn_rtt_ms: if trips_known(decode, ffn, warmup) {
            Some(trip)
        } else {
            None
        },
        attn_ms: if trips_known(decode, ffn, warmup) {
            Some((m.difference)(stats.avg_ms, trip).clipped())
        } else {
            None
        },
        n_steps: window.len(),
        note: remote_note(window.len(), target),
    }
}

/// In every model of the arithmetic `said` is the summary of the run.
pub open spec fn summarises<A: Arith64>(
    arith: &A,
    decode: Seq<F64>,
    ffn: Seq<F64>,
    warmup: int,
    target: nat,
    said: SummaryModel,
) -> bool {
    forall|m: Model64| #[trigger]
        follows_64(arith, m) ==> said == summary(m, decode, ffn, warmup, target)
}

/// Drops the warmup and summarises; what is left beside the round trips is cut off at zero.
pub fn summarize_moe_result<A: Arith64>(
    decode_ms: &[F64],
    ffn_rtt_ms: &[F64],
    warmup: usize,
    target_tokens: usize,
    arith: &A,
) -> (r: MoeSummary)
    ensures
        r.n_steps == measured(decode_ms@, warmup as int).len(),
        r.note@ == remote_note(r.n_steps as nat, target_tokens as nat),
        r.ffn_rtt_ms is Some <==> trips_known(decode_ms@, ffn_rtt_ms@, warmup as int),
        r.attn_ms is Some <==> r.ffn_rtt_ms is Some,
        r.attn_ms matches Some(left) ==> left == left.clipped(),
        r.n_steps == 0 ==> r.avg_decode_ms == zero_64() && r.p50_ms == zero_64() && r.p99_ms
            == zero_64() && r.tok_per_s == zero_64(),
        r.n_steps > 0 ==> measured(decode_ms@, warmup as int).contains(r.p50_ms) && measured(
            decode_ms@,
            warmup as int,
        ).contains(r.p99_ms),
        summarises(
            arith,
            decode_ms@,
            ffn_rtt_ms@,
            warmup as int,
            target_tokens as nat,
            r@,
        ),
{
    let n_warm: usize = if warmup < decode_ms.len() {
        warmup
    } else {
        decode_ms.len()
    };
    let window = measured_window(decode_ms, warmup);
    let trips = measured_window(ffn_rtt_ms, n_warm);
    let stats = decode_stats(window, arith);
    let n: usize = window.len();
    let trip: Option<F64> = if n > 0 && trips.len() == n {
        Some(arith.quotient(sum_all(trips, arith), arith.from_count(n)))
    } else {
        None
    };
    let left: Option<F64> = match trip {
        Some(f) => Some(arith.difference(stats.avg_ms, f).clip()),
        None => None,
    };
    let note = remote_run_note(n, target_tokens);
    MoeSummary {
        avg_decode_ms: stats.avg_ms,
        p50_ms: stats.p50_ms,
        p99_ms: stats.p99_ms,
        tok_per_s: stats.tok_per_s,
        ffn_rtt_ms: trip,
        attn_ms: left,
        n_steps: n,
        note,
    }
}

/// Whether a dispatch mode asks for batches.
pub fn is_batch_dispatch(dispatch: &str) -> (r: bool)
    ensures
        r == (trimmed(dispatch@) == "batch"@),
{
    same_text(trim(dispatch), "batch")
}

/// A count that is at least one: clients, warmup tokens and dispatch rounds.
pub fn at_least_one(n: usize) -> (r: usize)
    ensures
        r == (if n < 1 {
            1
        } else {
            n as int
        }),
{
    if n < 1 {
        1
    } else {
        n
    }
}

/// The summary row of a remote expert run.
pub open spec fn moe_row<S>(is_batch: bool, num_shards: nat, s: SummaryModel) -> RowModel<S> {
    RowModel {
        backend: moe_label(is_batch, num_shards),
        prefill_ms: zero_64(),
        avg_decode_ms: s.avg_decode_ms,
        p50_ms: s.p50_ms,
        p99_ms: s.p99_ms,
        tok_per_s: s.tok_per_s,
        stages: None,
        ffn_rtt_ms: s.ffn_rtt_ms,
        attn_ms: s.attn_ms,
        wire_bytes_per_tok: None,
        shard_efficiency: None,
        n_steps: s.n_steps,
        note: s.note,
    }
}

/// Makes the summary row of a remote expert run.
pub fn moe_bench_row<S>(is_batch: bool, num_shards: usize, summary: MoeSummary) -> (r: BenchRow<S>)
    ensures
        r@ == moe_row::<S>(is_batch, num_shards as nat, summary@),
{
    BenchRow {
        backend: format_moe_backend_label(is_batch, num_shards),
        prefill_ms: F64 { bits: 0 },
        avg_decode_ms: summary.avg_decode_ms,
        p50_ms: summary.p50_ms,
        p99_ms: summary.p99_ms,
        tok_per_s: summary.tok_per_s,
        stages: None,
        ffn_rtt_ms: summary.ffn_rtt_ms,
        attn_ms: summary.attn_ms,
        wire_bytes_per_tok: None,
        shard_efficiency: None,
        n_steps: summary.n_steps,
        note: summary.note,
    }
}

/// Blank segments do not matter: a shard map means the same with and without them.
pub proof fn law_blank_segments_are_skipped(
    range: spec_fn(Seq<char>) -> Option<(usize, usize)>,
    before: Seq<Seq<char>>,
    blank: Seq<char>,
    after: Seq<Seq<char>>,
)
    requires
        trimmed(blank).len() == 0,
    ensures
        shards_in(range, before + seq![blank] + after) == shards_in(range, before + after),
    decreases before.len(),
{
    let with = before + seq![blank] + after;
    let without = before + after;
    if before.len() == 0 {
        assert(with.drop_first() =~= without);
    } else {
        law_blank_segments_are_skipped(range, before.drop_first(), blank, after);
        assert(with.drop_first() =~= before.drop_first() + seq![blank] + after);
        assert(without.drop_first() =~= before.drop_first() + after);
    }
}

/// The segments that have more than white space in them.
pub open spec fn written(segments: Seq<Seq<char>>) -> Seq<Seq<char>> {
    segments.filter(|s: Seq<char>| trimmed(s).len() > 0)
}

/// The first segment, if it is not blank, followed by what is written of the others.
proof fn lemma_written_from_the_front(segments: Seq<Seq<char>>)
    requires
        segments.len() > 0,
    ensures
        written(segments) == (if trimmed(segments.first()).len() > 0 {
            seq![segments.first()]
        } else {
            Seq::empty()
        }) + written(segments.drop_first()),
{
    let pred = |s: Seq<char>| trimmed(s).len() > 0;
    let one = seq![segments.first()];
    assert(segments =~= one + segments.drop_first());
    Seq::filter_distributes_over_add(one, segments.drop_first(), pred);
    reveal_with_fuel(Seq::filter, 2);
    assert(one.drop_last() =~= Seq::empty());
    assert(one.filter(pred) =~= (if pred(one[0]) {
        one
    } else {
        Seq::empty()
    }));
}

/// A shard map that reads names one shard for each segment that is not blank, in order, with the
/// range that stands before the first equals sign and the URL that stands after it.
pub proof fn law_one_shard_per_segment(
    range: spec_fn(Seq<char>) -> Option<(usize, usize)>,
    segments: Seq<Seq<char>>,
)
    requires
        shards_in(range, segments) is Ok,
    ensures
        shards_in(range, segments)->Ok_0.len() == written(segments).len(),
        forall|j: int|
            0 <= j < written(segments).len() ==> {
                let t = trimmed(#[trigger] written(segments)[j]);
                let shard = shards_in(range, segments)->Ok_0[j];
                &&& range(t.take(span_to(t, '='))) == Some((shard.start, shard.end))
                &&& shard.url == t.skip(span_to(t, '=') + 1)
            },
    decreases segments.len(),
{
    if segments.len() == 0 {
        reveal(Seq::filter);
    } else {
        let rest = segments.drop_first();
        law_one_shard_per_segment(range, rest);
        lemma_written_from_the_front(segments);
        if trimmed(segments.first()).len() > 0 {
            assert forall|j: int| 0 <= j < written(segments).len() implies ({
                let t = trimmed(#[trigger] written(segments)[j]);
                let shard = shards_in(range, segments)->Ok_0[j];
                &&& range(t.take(span_to(t, '='))) == Some((shard.start, shard.end))
                &&& shard.url == t.skip(span_to(t, '=') + 1)
            }) by {
                if j > 0 {
                    assert(written(segments)[j] == written(rest)[j - 1]);
                }
            }
        } else {
            assert(written(segments) =~= written(rest));
        }
    }
}

/// A segment is the first bad one: it is not blank, and the segments before it read.
pub open spec fn first_bad_segment(
    range: spec_fn(Seq<char>) -> Option<(usize, usize)>,
    segments: Seq<Seq<char>>,
    j: int,
) -> bool {
    &&& 0 <= j < segments.len()
    &&& trimmed(segments[j]).len() > 0
    &&& shards_in(range, segments.take(j)) is Ok
    &&& shards_in(range, segments.take(j + 1)) is Err
}

/// The error of a shard map that does not read holds the offending segment, which is the first
/// bad one: quoted where its URL is missing, and as it stands where its range does not read.
pub proof fn law_error_holds_the_offending_segment(
    range: spec_fn(Seq<char>) -> Option<(usize, usize)>,
    segments: Seq<Seq<char>>,
)
    requires
        shards_in(range, segments) is Err,
    ensures
        exists|j: int| #[trigger]
            first_bad_segment(range, segments, j) && {
                let t = trimmed(segments[j]);
                let i = span_to(t, '=');
                let e = shards_in(range, segments)->Err_0;
                if i == t.len() {
                    e == missing_url(t)
                } else {
                    &&& e == bad_range(t.take(i), t)
                    &&& e.skip(e.len() - t.len()) == t
                }
            },
    decreases segments.len(),
{
    let first = trimmed(segments.first());
    let rest = segments.drop_first();
    let i = span_to(first, '=');
    lemma_span_to(first, '=');
    let e = shards_in(range, segments)->Err_0;
    assert(segments.take(1).drop_first() =~= Seq::empty());
    assert(segments.take(0) =~= Seq::empty());
    assert(segments.take(1).first() == segments.first());
    if first.len() > 0 && (i == first.len() || range(first.take(i)) is None) {
        assert(first_bad_segment(range, segments, 0));
        if i < first.len() {
            assert(e.skip(e.len() - first.len()) =~= first);
        }
    } else {
        law_error_holds_the_offending_segment(range, rest);
        let k = choose|k: int| #[trigger]
            first_bad_segment(range, rest, k) && {
                let t = trimmed(rest[k]);
                let i = span_to(t, '=');
                let e = shards_in(range, rest)->Err_0;
                if i == t.len() {
                    e == missing_url(t)
                } else {
                    &&& e == bad_range(t.take(i), t)
                    &&& e.skip(e.len() - t.len()) == t
                }
            };
        assert(segments[k + 1] == rest[k]);
        assert(segments.take(k + 1).drop_first() =~= rest.take(k));
        assert(segments.take(k + 2).drop_first() =~= rest.take(k + 1));
        assert(first_bad_segment(range, segments, k + 1));
    }
}

/// The warmup has no influence: a remote run is summarised like the run that lacks the warmup
/// steps and their round trips, it counts the steps after the warmup, and it notes an early stop
/// exactly when those are fewer than asked for.
pub proof fn law_warmup_has_no_influence(
    m: Model64,
    decode: Seq<F64>,
    ffn: Seq<F64>,
    warmup: int,
    target: nat,
)
    requires
        0 <= warmup <= decode.len(),
        ffn.len() == decode.len(),
    ensures
        summary(m, decode, ffn, warmup, target) == summary(
            m,
            decode.skip(warmup),
            ffn.skip(warmup),
            0,
            target,
        ),
        summary(m, decode, ffn, warmup, target).n_steps == decode.len() - warmup,
        summary(m, decode, ffn, warmup, target).note.len() == 0 <==> decode.len() - warmup
            >= target,
        decode.len() - warmup < target ==> summary(m, decode, ffn, warmup, target).note
            == early_stop((decode.len() - warmup) as nat, target),
        decode.len() > warmup ==> ({
            let s = summary(m, decode, ffn, warmup, target);
            (s.avg_decode_ms, s.p50_ms, s.p99_ms) == latency_summary(m, decode.skip(warmup))
        }),
{
    reveal_strlit("early stop @");
    assert(measured(decode.skip(warmup), 0) =~= decode.skip(warmup));
    assert(measured(ffn.skip(warmup), 0) =~= ffn.skip(warmup));
    assert(measured_trips(ffn, decode.len() as int, warmup) =~= ffn.skip(warmup));
}

/// Two summaries of a run compare: in an arithmetic of functions the summary of a run with its
/// warmup is the summary of the run without, in every field, and its latencies are the summary of
/// the steps after the warmup.
pub proof fn law_two_summaries_of_a_run<A: Arith64>(
    arith: &A,
    decode: Seq<F64>,
    ffn: Seq<F64>,
    warmup: int,
    target: nat,
    said: SummaryModel,
    trimmed_said: SummaryModel,
    latencies: (F64, F64, F64),
)
    requires
        computes_functions_64(arith),
        0 <= warmup <= decode.len(),
        ffn.len() == decode.len(),
        summarises(arith, decode, ffn, warmup, target, said),
        summarises(arith, decode.skip(warmup), ffn.skip(warmup), 0, target, trimmed_said),
        summarises_latency(arith, decode.skip(warmup), latencies),
    ensures
        said == trimmed_said,
        said.n_steps == decode.len() - warmup,
        (said.avg_decode_ms, said.p50_ms, said.p99_ms) == latencies,
        said.note == remote_note(said.n_steps, target),
        said.note.len() == 0 <==> said.n_steps >= target,
{
    law_functions_follow_a_model_64(arith);
    let m = choose|m: Model64| follows_64(arith, m);
    assert(said == summary(m, decode, ffn, warmup, target));
    assert(trimmed_said == summary(m, decode.skip(warmup), ffn.skip(warmup), 0, target));
    assert(latencies == latency_summary(m, decode.skip(warmup)));
    law_warmup_has_no_influence(m, decode, ffn, warmup, target);
}

} // verus!
