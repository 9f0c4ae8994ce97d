//! The local run: one generation with the warmup in front, on the accelerator or the processor.

use crate::arith::{follows_64, Arith64, Model64};
use crate::bench::row::{
    decode_stats, early_stop, early_stop_text, measured, measured_window, step_stats, BenchRow,
    RowModel,
};
use crate::float::{zero_64, F64};
use vstd::prelude::*;
use vstd::string::*;

verus! {

/// The name of the local backend in reports.
pub open spec fn backend_name(metal: bool) -> Seq<char> {
    if metal {
        "larql-metal"@
    } else {
        "larql-cpu"@
    }
}

/// The name of the local backend in reports.
pub fn backend_name_for(metal: bool) -> (r: &'static str)
    ensures
        r@ == backend_name(metal),
{
    if metal {
        "larql-metal"
    } else {
        "larql-cpu"
    }
}

/// Checks the weight format of an index; `format` is its format as diagnostics write it.
pub fn check_format(is_q4k: bool, format: &str) -> (r: Result<(), String>)
    ensures
        r is Ok <==> is_q4k,
        r matches Err(message) ==> message@ == "larql bench currently requires a Q4K vindex (got "@
            + format@ + ")"@,
{
    if is_q4k {
        Ok(())
    } else {
        let mut message: String = "larql bench currently requires a Q4K vindex (got ".to_owned();
        message.append(format);
        message.append(")");
        Err(message)
    }
}

/// Decides whether the backend that was asked for can be opened: the accelerator has to be built
/// in and be there, the processor always is.
pub fn check_backend(metal: bool, built_in: bool, available: bool) -> (r: Result<(), String>)
    ensures
        r is Ok <==> !metal || (built_in && available),
        r matches Err(message) ==> message@ == (if built_in {
            "Metal backend unavailable — rebuild with `--features metal` on an M-series Mac"@
        } else {
            "Metal backend requires the `metal` feature on macOS"@
        }),
{
    if !metal {
        Ok(())
    } else if !built_in {
        Err("Metal backend requires the `metal` feature on macOS".to_owned())
    } else if !available {
        Err(
            "Metal backend unavailable — rebuild with `--features metal` on an M-series Mac".to_owned(),
        )
    } else {
        Ok(())
    }
}

/// The note of a local run: that it stopped early, or that there was nothing to measure.
pub open spec fn local_note(m: Model64, n: nat, tokens: nat, wall_ms: F64) -> Seq<char> {
    if n < tokens {
        early_stop(n, tokens) + " (EOS or GPU fallback)"@
    } else if n == 0 {
        "no decode steps completed (wall "@ + (m.fixed)(wall_ms, 0) + "ms)"@
    } else {
        Seq::empty()
    }
}

/// In every model of the arithmetic `said` is the note of the run.
pub open spec fn notes_local<A: Arith64>(
    arith: &A,
    n: nat,
    tokens: nat,
    wall_ms: F64,
    said: Seq<char>,
) -> bool {
    forall|m: Model64| #[trigger]
        follows_64(arith, m) ==> said == local_note(m, n, tokens, wall_ms)
}

/// The note of a local run.
pub fn local_run_note<A: Arith64>(n: usize, tokens: usize, wall_ms: F64, arith: &A) -> (r: String)
    ensures
        n < tokens ==> r@ == early_stop(n as nat, tokens as nat) + " (EOS or GPU fallback)"@,
        n >= tokens && n > 0 ==> r@ == Seq::<char>::empty(),
        notes_local(arith, n as nat, tokens as nat, wall_ms, r@),
{
    if n < tokens {
        let mut note = early_stop_text(n, tokens);
        note.append(" (EOS or GPU fallback)");
        note
    } else if n == 0 {
        let wall = arith.fixed(wall_ms, 0);
        let mut note: String = "no decode steps completed (wall ".to_owned();
        note.append(wall.as_str());
        note.append("ms)");
        note
    } else {
        String::new()
    }
}

/// What a local run measured.
pub struct LocalMeasurement<'a> {
    pub prefill_ms: F64,
    pub decode_ms: &'a [F64],
    pub wall_ms: F64,
}

/// The summary row of a local run.
pub open spec fn local_row<S>(
    m: Model64,
    metal: bool,
    prefill_ms: F64,
    decode: Seq<F64>,
    wall_ms: F64,
    warmup: int,
    tokens: nat,
    stages: S,
) -> RowModel<S> {
    let window = measured(decode, warmup);
    let stats = step_stats(m, window);
    RowModel {
        backend: backend_name(metal),
        prefill_ms,
        avg_decode_ms: stats.avg_ms,
        p50_ms: stats.p50_ms,
        p99_ms: stats.p99_ms,
        tok_per_s: stats.tok_per_s,
        stages: Some(stages),
        ffn_rtt_ms: None,
        attn_ms: None,
        wire_bytes_per_tok: None,
        shard_efficiency: None,
        n_steps: window.len(),
        note: local_note(m, window.len(), tokens, wall_ms),
    }
}

/// In every model of the arithmetic `said` is the summary row of the run.
pub open spec fn reports_local<S, A: Arith64>(
    arith: &A,
    metal: bool,
    prefill_ms: F64,
    decode: Seq<F64>,
    wall_ms: F64,
    warmup: int,
    tokens: nat,
    stages: S,
    said: RowModel<S>,
) -> bool {
    forall|m: Model64| #[trigger]
        follows_64(arith, m) ==> said == local_row(
            m,
            metal,
            prefill_ms,
            decode,
            wall_ms,
            warmup,
            tokens,
            stages,
        )
}

/// Makes the summary row of a local run.
pub fn local_bench_row<S, A: Arith64>(
    metal: bool,
    run: &LocalMeasurement<'_>,
    warmup: usize,
    tokens: usize,
    stages: S,
    arith: &A,
) -> (r: BenchRow<S>)
    ensures
        r.backend@ == backend_name(metal),
        r.prefill_ms == run.prefill_ms,
        r.stages == Some(stages),
        r.n_steps == measured(run.decode_ms@, warmup as int).len(),
        r.n_steps == 0 ==> r.avg_decode_ms == zero_64() && r.p50_ms == zero_64() && r.p99_ms
            == zero_64() && r.tok_per_s == zero_64(),
        r.n_steps > 0 ==> measured(run.decode_ms@, warmup as int).contains(r.p50_ms) && measured(
            run.decode_ms@,
            warmup as int,
        ).contains(r.p99_ms),
        r.ffn_rtt_ms is None,
        r.attn_ms is None,
        r.wire_bytes_per_tok is None,
        r.shard_efficiency is None,
        r.n_steps < tokens ==> r.note@ == early_stop(r.n_steps as nat, tokens as nat)
            + " (EOS or GPU fallback)"@,
        r.n_steps >= tokens && r.n_steps > 0 ==> r.note@ == Seq::<char>::empty(),
        reports_local(
            arith,
            metal,
            run.prefill_ms,
            run.decode_ms@,
            run.wall_ms,
            warmup as int,
            tokens as nat,
            stages,
            r@,
        ),
{
    let window = measured_window(run.decode_ms, warmup);
    let stats = decode_stats(window, arith);
    let note = local_run_note(stats.n_steps, tokens, run.wall_ms, arith);
    BenchRow {
        backend: backend_name_for(metal).to_owned(),
        prefill_ms: run.prefill_ms,
        avg_decode_ms: stats.avg_ms,
        p50_ms: stats.p50_ms,
        p99_ms: stats.p99_ms,
        tok_per_s: stats.tok_per_s,
        stages: Some(stages),
        ffn_rtt_ms: None,
        attn_ms: None,
        wire_bytes_per_tok: None,
        shard_efficiency: None,
        n_steps: stats.n_steps,
        note,
    }
}

} // verus!
