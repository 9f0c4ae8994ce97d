//! The remote feed-forward run: attention stays local, each feed-forward block is a round trip.
//! Clients that run side by side are put together into one summary.

use crate::arith::{
    computes_functions_64, follows_64, law_functions_follow_a_model_64, Arith64, Model64,
};
use crate::bench::helpers::{
    aggregate, aggregate_concurrent_rows, law_worst_is_the_largest, reported_sum, reported_total,
    wire_of, worst, worst_of, ConcurrentSample,
};
use crate::bench::remote_moe::{summarize_moe_result, summary, trips_known, SummaryModel};
use crate::bench::row::{measured, remote_note, BenchRow, RowModel};
use crate::float::{zero_64, F64};
use crate::text::{append_numeral, numeral};
use vstd::prelude::*;
use vstd::string::*;

verus! {

/// What a client that ran beside others came to.
pub enum WorkerOutcome<S> {
    Row(BenchRow<S>),
    Failed(String),
    Panicked,
}

/// The remote path of a run with several clients.
#[derive(Clone, Copy, Debug, PartialEq, Eq, Structural)]
pub enum RemotePath {
    Ffn,
    Moe,
}

/// What is said when a client panicked.
pub open spec fn panic_text(path: RemotePath) -> Seq<char> {
    match path {
        RemotePath::Ffn => "concurrent FFN bench worker panicked — see stderr for details"@,
        RemotePath::Moe => "concurrent MoE bench worker panicked — see stderr for details"@,
    }
}

/// The first client without a summary.
pub open spec fn first_bad<S>(outcomes: Seq<WorkerOutcome<S>>, i: int) -> bool {
    &&& 0 <= i < outcomes.len()
    &&& !(outcomes[i] is Row)
    &&& forall|j: int| 0 <= j < i ==> (#[trigger] outcomes[j]) is Row
}

/// What is said of a client without a summary.
pub open spec fn worker_failure<S>(path: RemotePath, outcome: WorkerOutcome<S>) -> Seq<char> {
    match outcome {
        WorkerOutcome::Failed(message) => message@,
        _ => panic_text(path),
    }
}

/// These are the summaries of the clients, each and in order.
pub open spec fn are_the_rows<S>(rows: Seq<BenchRow<S>>, outcomes: Seq<WorkerOutcome<S>>) -> bool {
    &&& rows.len() == outcomes.len()
    &&& forall|j: int|
        0 <= j < rows.len() ==> WorkerOutcome::Row(#[trigger] rows[j]) == outcomes[j]
}

/// The message is that of the first client without a summary.
pub open spec fn tells_the_first_failure<S>(
    path: RemotePath,
    outcomes: Seq<WorkerOutcome<S>>,
    message: Seq<char>,
) -> bool {
    exists|i: int| #[trigger]
        first_bad(outcomes, i) && message == worker_failure(path, outcomes[i])
}

/// Collects the summaries of all clients, in order; the first client without one decides.
pub fn collect_rows<S>(path: RemotePath, outcomes: Vec<WorkerOutcome<S>>) -> (r: Result<
    Vec<BenchRow<S>>,
    String,
>)
    ensures
        r is Ok <==> all_rows(outcomes@),
        r matches Ok(rows) ==> are_the_rows(rows@, outcomes@),
        r matches Err(message) ==> tells_the_first_failure(path, outcomes@, message@),
{
    let ghost all = outcomes@;
    let mut pending = outcomes;
    let mut rest: Vec<WorkerOutcome<S>> = Vec::new();
    while pending.len() > 0
        invariant
            all == outcomes@,
            pending@.len() + rest@.len() == all.len(),
            pending@ == all.take(pending@.len() as int),
            rest@ == all.skip(pending@.len() as int).reverse(),
        decreases pending.len(),
    {
        let ghost n = pending@.len() as int;
        let last = pending.pop();
        if let Some(outcome) = last {
            assert(outcome == all[n - 1]);
            rest.push(outcome);
            assert(rest@ =~= all.skip(n - 1).reverse());
            assert(pending@ =~= all.take(n - 1));
        }
    }
    assert(all.skip(0) =~= all);
    let mut rows: Vec<BenchRow<S>> = Vec::new();
    while rest.len() > 0
        invariant
            all == outcomes@,
            rows.len() + rest.len() == all.len(),
            rest@ == all.skip(rows.len() as int).reverse(),
            forall|j: int|
                0 <= j < rows.len() ==> WorkerOutcome::Row(#[trigger] rows@[j]) == all[j],
        decreases rest.len(),
    {
        let ghost i = rows.len() as int;
        let next = rest.pop();
        if let Some(outcome) = next {
            assert(outcome == all[i]);
            assert(rest@ =~= all.skip(i + 1).reverse());
            match outcome {
                WorkerOutcome::Row(row) => {
                    rows.push(row);
                },
                WorkerOutcome::Failed(message) => {
                    proof {
                        assert forall|j: int| 0 <= j < i implies (#[trigger] all[j]) is Row by {
                            assert(WorkerOutcome::Row(rows@[j]) == all[j]);
                        }
                        assert(first_bad(all, i));
                    }
                    return Err(message);
                },
                WorkerOutcome::Panicked => {
                    proof {
                        assert forall|j: int| 0 <= j < i implies (#[trigger] all[j]) is Row by {
                            assert(WorkerOutcome::Row(rows@[j]) == all[j]);
                        }
                        assert(first_bad(all, i));
                    }
                    return Err(
                        match path {
                            RemotePath::Ffn => "concurrent FFN bench worker panicked — see stderr for details".to_owned(),
                            RemotePath::Moe => "concurrent MoE bench worker panicked — see stderr for details".to_owned(),
                        },
                    );
                },
            }
        }
    }
    proof {
        assert forall|j: int| 0 <= j < all.len() implies (#[trigger] all[j]) is Row by {
            assert(WorkerOutcome::Row(rows@[j]) == all[j]);
        }
    }
    Ok(rows)
}

/// What a client's summary counts for among others.
pub open spec fn sample_of<S>(row: BenchRow<S>) -> ConcurrentSample {
    ConcurrentSample {
        tok_per_s: row.tok_per_s,
        mean_ms: row.avg_decode_ms,
        p50_ms: row.p50_ms,
        p99_ms: row.p99_ms,
        wire_bytes_per_tok: row.wire_bytes_per_tok,
    }
}

pub open spec fn samples_of<S>(rows: Seq<BenchRow<S>>) -> Seq<ConcurrentSample> {
    rows.map_values(|r: BenchRow<S>| sample_of(r))
}

/// A reported time, zero where none is reported.
pub open spec fn or_zero(value: Option<F64>) -> F64 {
    match value {
        Some(v) => v,
        None => zero_64(),
    }
}

/// The worst reported time, if it is above zero.
pub open spec fn worst_reported(values: Seq<Option<F64>>) -> Option<F64> {
    let w = worst(values.map_values(|v: Option<F64>| or_zero(v)));
    if zero_64().below(w) {
        Some(w)
    } else {
        None
    }
}

/// The steps of all clients.
pub open spec fn steps_sum<S>(rows: Seq<BenchRow<S>>) -> nat
    decreases rows.len(),
{
    if rows.len() == 0 {
        0
    } else {
        steps_sum(rows.drop_last()) + rows.last().n_steps as nat
    }
}

/// The summary of clients that ran side by side: throughput, wire bytes and steps add up,
/// latencies are the worst observed, and label, prefill time and note are the first client's.
pub open spec fn combined<S>(m: Model64, rows: Seq<BenchRow<S>>, n_clients: nat) -> RowModel<S> {
    let all = aggregate(m, samples_of(rows));
    let first = rows.first();
    RowModel {
        backend: first.backend@ + " (×"@ + numeral(n_clients) + " concurrent)"@,
        prefill_ms: first.prefill_ms,
        avg_decode_ms: all.mean_ms,
        p50_ms: all.worst_p50_ms,
        p99_ms: all.worst_p99_ms,
        tok_per_s: all.aggregate_tok_per_s,
        stages: None,
        ffn_rtt_ms: worst_reported(rows.map_values(|r: BenchRow<S>| r.ffn_rtt_ms)),
        attn_ms: worst_reported(rows.map_values(|r: BenchRow<S>| r.attn_ms)),
        wire_bytes_per_tok: all.total_wire_bytes_per_tok,
        shard_efficiency: None,
        n_steps: steps_sum(rows),
        note: "concurrent="@ + numeral(n_clients) + " | "@ + first.note@,
    }
}

/// In every model of the arithmetic `said` is the combined summary of the clients.
pub open spec fn combines<S, A: Arith64>(
    arith: &A,
    rows: Seq<BenchRow<S>>,
    n_clients: nat,
    said: RowModel<S>,
) -> bool {
    forall|m: Model64| #[trigger] follows_64(arith, m) ==> said == combined(m, rows, n_clients)
}

/// What a combined summary says in any arithmetic: everything but the throughput.
pub open spec fn puts_together<S>(r: BenchRow<S>, rows: Seq<BenchRow<S>>, n_clients: nat) -> bool {
    &&& r.backend@ == rows[0].backend@ + " (×"@ + numeral(n_clients) + " concurrent)"@
    &&& r.note@ == "concurrent="@ + numeral(n_clients) + " | "@ + rows[0].note@
    &&& r.n_steps == steps_sum(rows)
    &&& r.prefill_ms == rows[0].prefill_ms
    &&& r.avg_decode_ms == worst(rows.map_values(|r: BenchRow<S>| r.avg_decode_ms))
    &&& r.p50_ms == worst(rows.map_values(|r: BenchRow<S>| r.p50_ms))
    &&& r.p99_ms == worst(rows.map_values(|r: BenchRow<S>| r.p99_ms))
    &&& r.stages is None
    &&& r.shard_efficiency is None
    &&& r.wire_bytes_per_tok == reported_total(wire_of(samples_of(rows)))
    &&& r.ffn_rtt_ms == worst_reported(rows.map_values(|r: BenchRow<S>| r.ffn_rtt_ms))
    &&& r.attn_ms == worst_reported(rows.map_values(|r: BenchRow<S>| r.attn_ms))
}

proof fn lemma_steps_sum_grows<S>(rows: Seq<BenchRow<S>>, i: int)
    requires
        0 <= i <= rows.len(),
    ensures
        steps_sum(rows.take(i)) <= steps_sum(rows),
    decreases rows.len() - i,
{
    if i == rows.len() {
        assert(rows.take(i) =~= rows);
    } else {
        lemma_steps_sum_grows(rows, i + 1);
        assert(rows.take(i + 1).drop_last() =~= rows.take(i));
    }
}

fn worst_reported_of(values: &Vec<F64>) -> (r: Option<F64>)
    ensures
        r == (if zero_64().below(worst(values@)) {
            Some(worst(values@))
        } else {
            None
        }),
{
    let w = worst_of(values);
    if (F64 { bits: 0 }).is_below(w) {
        Some(w)
    } else {
        None
    }
}

/// Puts the summaries of clients that ran side by side into one.
pub fn combine_concurrent_rows<S, A: Arith64>(
    rows: Vec<BenchRow<S>>,
    n_clients: usize,
    arith: &A,
) -> (r: BenchRow<S>)
    requires
        rows.len() > 0,
        steps_sum(rows@) <= usize::MAX,
        reported_sum(wire_of(samples_of(rows@))) <= u64::MAX,
    ensures
        puts_together(r, rows@, n_clients as nat),
        combines(arith, rows@, n_clients as nat, r@),
{
    let mut samples: Vec<ConcurrentSample> = Vec::new();
    let mut trips: Vec<F64> = Vec::new();
    let mut rests: Vec<F64> = Vec::new();
    let mut steps: usize = 0;
    let mut i: usize = 0;
    while i < rows.len()
        invariant
            0 <= i <= rows.len(),
            samples.len() == i,
            trips.len() == i,
            rests.len() == i,
            steps == steps_sum(rows@.take(i as int)),
            steps_sum(rows@) <= usize::MAX,
            forall|j: int| 0 <= j < i ==> #[trigger] samples@[j] == sample_of(rows@[j]),
            forall|j: int| 0 <= j < i ==> #[trigger] trips@[j] == or_zero(rows@[j].ffn_rtt_ms),
            forall|j: int| 0 <= j < i ==> #[trigger] rests@[j] == or_zero(rows@[j].attn_ms),
        decreases rows.len() - i,
    {
        proof {
            assert(rows@.take(i + 1).drop_last() =~= rows@.take(i as int));
            lemma_steps_sum_grows(rows@, i + 1);
        }
        let row = &rows[i];
        samples.push(
            ConcurrentSample {
                tok_per_s: row.tok_per_s,
                mean_ms: row.avg_decode_ms,
                p50_ms: row.p50_ms,
                p99_ms: row.p99_ms,
                wire_bytes_per_tok: row.wire_bytes_per_tok,
            },
        );
        trips.push(
            match row.ffn_rtt_ms {
                Some(v) => v,
                None => F64 { bits: 0 },
            },
        );
        rests.push(
            match row.attn_ms {
                Some(v) => v,
                None => F64 { bits: 0 },
            },
        );
        steps = steps + row.n_steps;
        i = i + 1;
    }
    proof {
        assert(rows@.take(rows.len() as int) =~= rows@);
        assert(samples@ =~= samples_of(rows@));
        assert(trips@ =~= rows@.map_values(|r: BenchRow<S>| r.ffn_rtt_ms).map_values(
            |v: Option<F64>| or_zero(v),
        ));
        assert(rests@ =~= rows@.map_values(|r: BenchRow<S>| r.attn_ms).map_values(
            |v: Option<F64>| or_zero(v),
        ));
    }
    proof {
        assert(samples@.map_values(|s: ConcurrentSample| s.mean_ms) =~= rows@.map_values(
            |r: BenchRow<S>| r.avg_decode_ms,
        ));
        assert(samples@.map_values(|s: ConcurrentSample| s.p50_ms) =~= rows@.map_values(
            |r: BenchRow<S>| r.p50_ms,
        ));
        assert(samples@.map_values(|s: ConcurrentSample| s.p99_ms) =~= rows@.map_values(
            |r: BenchRow<S>| r.p99_ms,
        ));
    }
    let all = aggregate_concurrent_rows(&samples, arith);
    let all = all.unwrap();
    let first = &rows[0];
    let mut backend: String = first.backend.clone();
    backend.append(" (×");
    append_numeral(&mut backend, n_clients);
    backend.append(" concurrent)");
    let mut note: String = "concurrent=".to_owned();
    append_numeral(&mut note, n_clients);
    note.append(" | ");
    note.append(first.note.as_str());
    BenchRow {
        backend,
        prefill_ms: first.prefill_ms,
        avg_decode_ms: all.mean_ms,
        p50_ms: all.worst_p50_ms,
        p99_ms: all.worst_p99_ms,
        tok_per_s: all.aggregate_tok_per_s,
        stages: None,
        ffn_rtt_ms: worst_reported_of(&trips),
        attn_ms: worst_reported_of(&rests),
        wire_bytes_per_tok: all.total_wire_bytes_per_tok,
        shard_efficiency: None,
        n_steps: steps,
        note,
    }
}

/// All clients have a summary.
pub open spec fn all_rows<S>(outcomes: Seq<WorkerOutcome<S>>) -> bool {
    forall|j: int| 0 <= j < outcomes.len() ==> (#[trigger] outcomes[j]) is Row
}

/// The summaries of clients that all have one.
pub open spec fn rows_of<S>(outcomes: Seq<WorkerOutcome<S>>) -> Seq<BenchRow<S>> {
    outcomes.map_values(|o: WorkerOutcome<S>| o->Row_0)
}

/// Puts the clients of a remote run into one summary: a single client's is passed through as it
/// is, those of several are combined, and the first client without one decides where there is any.
pub fn combine_outcomes<S, A: Arith64>(
    path: RemotePath,
    n: usize,
    outcomes: Vec<WorkerOutcome<S>>,
    arith: &A,
) -> (r: Result<BenchRow<S>, String>)
    requires
        n >= 1,
        outcomes.len() == n,
        n > 1 && all_rows(outcomes@) ==> steps_sum(rows_of(outcomes@)) <= usize::MAX
            && reported_sum(wire_of(samples_of(rows_of(outcomes@)))) <= u64::MAX,
    ensures
        r is Ok <==> all_rows(outcomes@),
        n == 1 ==> (r matches Ok(row) ==> WorkerOutcome::Row(row) == outcomes@[0]),
        n > 1 ==> (r matches Ok(row) ==> puts_together(row, rows_of(outcomes@), n as nat)),
        n > 1 ==> (r matches Ok(row) ==> combines(arith, rows_of(outcomes@), n as nat, row@)),
        r matches Err(message) ==> tells_the_first_failure(path, outcomes@, message@),
{
    let ghost all = outcomes@;
    match collect_rows(path, outcomes) {
        Err(message) => {
            proof {
                let i = choose|i: int| #[trigger]
                    first_bad(all, i) && message@ == worker_failure(path, all[i]);
                assert(!(all[i] is Row));
            }
            Err(message)
        },
        Ok(rows) => {
            proof {
                assert(rows@ =~= rows_of(all)) by {
                    assert forall|j: int| 0 <= j < rows.len() implies rows@[j] == rows_of(
                        all,
                    )[j] by {
                        assert(WorkerOutcome::Row(rows@[j]) == all[j]);
                    }
                }
            }
            if n == 1 {
                let mut rows = rows;
                assert(WorkerOutcome::Row(rows@[0]) == all[0]);
                Ok(rows.pop().unwrap())
            } else {
                Ok(combine_concurrent_rows(rows, n, arith))
            }
        },
    }
}

/// The label of a remote feed-forward run; `wire` is the wire format where one was asked for.
pub open spec fn ffn_label(is_batch: bool, wire: Option<Seq<char>>, url: Seq<char>) -> Seq<char> {
    "remote-ffn-"@ + (if is_batch {
        "batch"@
    } else {
        "stream"@
    }) + (match wire {
        Some(format) => " ["@ + format + "]"@,
        None => Seq::empty(),
    }) + " ("@ + url + ")"@
}

/// The label of a remote feed-forward run.
pub fn format_ffn_backend_label(is_batch: bool, wire: Option<&str>, ffn_url: &str) -> (r: String)
    ensures
        r@ == ffn_label(
            is_batch,
            match wire {
                Some(format) => Some(format@),
                None => None,
            },
            ffn_url@,
        ),
{
    let mut label: String = "remote-ffn-".to_owned();
    label.append(
        if is_batch {
            "batch"
        } else {
            "stream"
        },
    );
    if let Some(format) = wire {
        label.append(" [");
        label.append(format);
        label.append("]");
    }
    label.append(" (");
    label.append(ffn_url);
    label.append(")");
    assert(label@ =~= ffn_label(
        is_batch,
        match wire {
            Some(format) => Some(format@),
            None => None,
        },
        ffn_url@,
    ));
    label
}

/// The bytes on the wire for each of `n` measured steps, rounded down.
pub open spec fn bytes_per_step(sent: u64, received: u64, n: int) -> Option<u64> {
    if n > 0 {
        Some(((sent + received) / n) as u64)
    } else {
        None
    }
}

/// The bytes on the wire for each measured step; none where no step was measured.
pub fn wire_bytes_per_token(sent: u64, received: u64, n: usize) -> (r: Option<u64>)
    requires
        n > 0 ==> sent + received <= u64::MAX,
    ensures
        r == bytes_per_step(sent, received, n as int),
{
    if n > 0 {
        let whole: u64 = sent + received;
        Some(whole / (n as u64))
    } else {
        None
    }
}

/// The summary row of a remote feed-forward run.
pub open spec fn ffn_row<S>(label: Seq<char>, s: SummaryModel, wire: Option<u64>) -> RowModel<S> {
    RowModel {
        backend: label,
        prefill_ms: zero_64(),
        avg_decode_ms: s.avg_decode_ms,
        p50_ms: s.p50_ms,
        p99_ms: s.p99_ms,
        tok_per_s: s.tok_per_s,
        stages: None,
        ffn_rtt_ms: s.ffn_rtt_ms,
        attn_ms: s.attn_ms,
        wire_bytes_per_tok: wire,
        shard_efficiency: None,
        n_steps: s.n_steps,
        note: s.note,
    }
}

/// What a remote feed-forward run measured.
pub struct FfnMeasurement<'a> {
    pub decode_ms: &'a [F64],
    pub ffn_rtt_ms: &'a [F64],
    pub bytes_sent: u64,
    pub bytes_received: u64,
}

/// In every model of the arithmetic `said` is the summary row of the run.
pub open spec fn reports_ffn<S, A: Arith64>(
    arith: &A,
    label: Seq<char>,
    decode: Seq<F64>,
    ffn: Seq<F64>,
    sent: u64,
    received: u64,
    warmup: int,
    tokens: nat,
    said: RowModel<S>,
) -> bool {
    forall|m: Model64| #[trigger]
        follows_64(arith, m) ==> said == ffn_row::<S>(
            label,
            summary(m, decode, ffn, warmup, tokens),
            bytes_per_step(sent, received, measured(decode, warmup).len() as int),
        )
}

/// Makes the summary row of a remote feed-forward run.
pub fn ffn_bench_row<S, A: Arith64>(
    label: String,
    run: &FfnMeasurement<'_>,
    warmup: usize,
    tokens: usize,
    arith: &A,
) -> (r: BenchRow<S>)
    requires
        measured(run.decode_ms@, warmup as int).len() > 0 ==> run.bytes_sent + run.bytes_received
            <= u64::MAX,
    ensures
        r.backend@ == label@,
        r.n_steps == measured(run.decode_ms@, warmup as int).len(),
        r.note@ == remote_note(r.n_steps as nat, tokens as nat),
        r.prefill_ms == zero_64(),
        r.n_steps == 0 ==> r.avg_decode_ms == zero_64() && r.p50_ms == zero_64() && r.p99_ms
            == zero_64() && r.tok_per_s == zero_64(),
        r.n_steps > 0 ==> measured(run.decode_ms@, warmup as int).contains(r.p50_ms) && measured(
            run.decode_ms@,
            warmup as int,
        ).contains(r.p99_ms),
        r.ffn_rtt_ms is Some <==> trips_known(run.decode_ms@, run.ffn_rtt_ms@, warmup as int),
        r.attn_ms is Some <==> r.ffn_rtt_ms is Some,
        r.attn_ms matches Some(left) ==> left == left.clipped(),
        r.stages is None,
        r.shard_efficiency is None,
        r.wire_bytes_per_tok == bytes_per_step(
            run.bytes_sent,
            run.bytes_received,
            r.n_steps as int,
        ),
        reports_ffn(
            arith,
            label@,
            run.decode_ms@,
            run.ffn_rtt_ms@,
            run.bytes_sent,
            run.bytes_received,
            warmup as int,
            tokens as nat,
            r@,
        ),
{
    let s = summarize_moe_result(run.decode_ms, run.ffn_rtt_ms, warmup, tokens, arith);
    let wire = wire_bytes_per_token(run.bytes_sent, run.bytes_received, s.n_steps);
    BenchRow {
        backend: label,
        prefill_ms: F64 { bits: 0 },
        avg_decode_ms: s.avg_decode_ms,
        p50_ms: s.p50_ms,
        p99_ms: s.p99_ms,
        tok_per_s: s.tok_per_s,
        stages: None,
        ffn_rtt_ms: s.ffn_rtt_ms,
        attn_ms: s.attn_ms,
        wire_bytes_per_tok: wire,
        shard_efficiency: None,
        n_steps: s.n_steps,
        note: s.note,
    }
}

/// A combined summary hides no tail: none of its latencies is below that of any client.
pub proof fn law_combined_latencies_bound_every_client<S>(
    m: Model64,
    rows: Seq<BenchRow<S>>,
    n_clients: nat,
    i: int,
)
    requires
        0 <= i < rows.len(),
    ensures
        !combined(m, rows, n_clients).avg_decode_ms.below(rows[i].avg_decode_ms),
        !combined(m, rows, n_clients).p50_ms.below(rows[i].p50_ms),
        !combined(m, rows, n_clients).p99_ms.below(rows[i].p99_ms),
{
    let samples = samples_of(rows);
    law_worst_is_the_largest(
        samples.map_values(|s: ConcurrentSample| s.mean_ms),
        i,
    );
    law_worst_is_the_largest(
        samples.map_values(|s: ConcurrentSample| s.p50_ms),
        i,
    );
    law_worst_is_the_largest(
        samples.map_values(|s: ConcurrentSample| s.p99_ms),
        i,
    );
}

/// The number of clients is shown and never computed with: two combined summaries of the same
/// clients under different numbers differ in label and note only.
pub proof fn law_client_count_is_only_shown<S>(
    m: Model64,
    rows: Seq<BenchRow<S>>,
    n_clients: nat,
    other: nat,
)
    ensures
        combined(m, rows, n_clients) == (RowModel {
            backend: rows.first().backend@ + " (×"@ + numeral(n_clients) + " concurrent)"@,
            note: "concurrent="@ + numeral(n_clients) + " | "@ + rows.first().note@,
            ..combined(m, rows, other)
        }),
        combined(m, rows, n_clients).prefill_ms == rows.first().prefill_ms,
        combined(m, rows, n_clients).stages is None,
        combined(m, rows, n_clients).shard_efficiency is None,
{
}

/// Where no client reports a breakdown the combined summary has none either.
pub proof fn law_missing_breakdowns_stay_missing<S>(
    m: Model64,
    rows: Seq<BenchRow<S>>,
    n_clients: nat,
)
    requires
        forall|i: int|
            0 <= i < rows.len() ==> (#[trigger] rows[i]).ffn_rtt_ms is None && rows[i].attn_ms is None
                && rows[i].wire_bytes_per_tok is None,
    ensures
        combined(m, rows, n_clients).ffn_rtt_ms is None,
        combined(m, rows, n_clients).attn_ms is None,
        combined(m, rows, n_clients).wire_bytes_per_tok is None,
{
    let trips = rows.map_values(|r: BenchRow<S>| r.ffn_rtt_ms).map_values(
        |v: Option<F64>| or_zero(v),
    );
    let rests = rows.map_values(|r: BenchRow<S>| r.attn_ms).map_values(
        |v: Option<F64>| or_zero(v),
    );
    lemma_worst_of_zeros(trips);
    lemma_worst_of_zeros(rests);
    let wire = wire_of(samples_of(rows));
    assert forall|i: int| 0 <= i < wire.len() implies (#[trigger] wire[i]) is None by {
        assert(rows[i].wire_bytes_per_tok is None);
    }
}

proof fn lemma_worst_of_zeros(values: Seq<F64>)
    requires
        forall|i: int| 0 <= i < values.len() ==> #[trigger] values[i] == zero_64(),
    ensures
        worst(values) == zero_64(),
    decreases values.len(),
{
    if values.len() > 0 {
        lemma_worst_of_zeros(values.drop_last());
    }
}

/// Two combined summaries of the same clients compare: in an arithmetic of functions they differ
/// in label and note only, and where the number of clients is the same they do not differ.
pub proof fn law_two_combinations_of_clients<S, A: Arith64>(
    arith: &A,
    rows: Seq<BenchRow<S>>,
    n_clients: nat,
    said: RowModel<S>,
    other: nat,
    other_said: RowModel<S>,
)
    requires
        computes_functions_64(arith),
        combines(arith, rows, n_clients, said),
        combines(arith, rows, other, other_said),
    ensures
        said == (RowModel { backend: said.backend, note: said.note, ..other_said }),
        said.backend == rows.first().backend@ + " (×"@ + numeral(n_clients) + " concurrent)"@,
        said.note == "concurrent="@ + numeral(n_clients) + " | "@ + rows.first().note@,
        n_clients == other ==> said == other_said,
{
    law_functions_follow_a_model_64(arith);
    let m = choose|m: Model64| follows_64(arith, m);
    assert(said == combined(m, rows, n_clients));
    assert(other_said == combined(m, rows, other));
    law_client_count_is_only_shown(m, rows, n_clients, other);
}

} // verus!
