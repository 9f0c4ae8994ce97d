use larql::arith::Arith64;
use larql::bench::engine::{
    argmax_token, engine_label, memory_note, pick_next, wants_metal, EngineAction, EngineRun,
};
use larql::bench::helpers::{aggregate_concurrent_rows, worst_of};
use larql::bench::local::{
    backend_name_for, check_backend, check_format, local_bench_row, local_run_note,
    LocalMeasurement,
};
use larql::bench::remote_ffn::{
    collect_rows, combine_concurrent_rows, combine_outcomes, ffn_bench_row,
    format_ffn_backend_label,
    wire_bytes_per_token, FfnMeasurement, RemotePath, WorkerOutcome,
};
use larql::bench::remote_moe::{
    at_least_one, format_moe_backend_label, is_batch_dispatch, moe_bench_row,
    parse_shard_segments, summarize_moe_result, MoeSummary, RangeReader, ShardConfig,
};
use larql::bench::row::{
    compute_percentiles, decode_stats, measured_window, percentile, steps_to_run, BenchRow,
};
use larql::bench::steps::{
    batch_rounds, bench_plan, endpoints_line, prompt_to_encode, tokens_asked, BenchKind,
    BenchProgress, BenchStep,
};
use larql::float::{F32, F64};

struct Native;

fn f(x: F64) -> f64 {
    f64::from_bits(x.to_bits())
}

fn n(x: f64) -> F64 {
    F64::from_bits(x.to_bits())
}

fn list(values: &[f64]) -> Vec<F64> {
    values.iter().map(|x| n(*x)).collect()
}

impl Arith64 for Native {
    fn sum(&self, a: F64, b: F64) -> F64 {
        n(f(a) + f(b))
    }

    fn difference(&self, a: F64, b: F64) -> F64 {
        n(f(a) - f(b))
    }

    fn product(&self, a: F64, b: F64) -> F64 {
        n(f(a) * f(b))
    }

    fn quotient(&self, a: F64, b: F64) -> F64 {
        n(f(a) / f(b))
    }

    fn from_count(&self, count: usize) -> F64 {
        n(count as f64)
    }

    fn to_count(&self, a: F64) -> usize {
        f(a) as usize
    }

    fn fixed(&self, a: F64, digits: usize) -> String {
        format!("{:.*}", digits, f(a))
    }
}

fn logits(values: &[f32]) -> Vec<F32> {
    values.iter().map(|x| F32::from_bits(x.to_bits())).collect()
}

// Percentiles

#[test]
fn percentile_empty_returns_zero() {
    assert_eq!(percentile(&[], n(50.0), &Native), n(0.0));
}

#[test]
fn percentile_picks_nearest_rank() {
    let sorted = list(&[1.0, 2.0, 3.0, 4.0, 5.0, 6.0, 7.0, 8.0, 9.0, 10.0]);
    assert_eq!(percentile(&sorted, n(50.0), &Native), n(6.0));
    assert_eq!(percentile(&sorted, n(99.0), &Native), n(10.0));
    assert_eq!(percentile(&sorted, n(100.0), &Native), n(10.0));
}

#[test]
fn compute_percentiles_empty_returns_zeros() {
    assert_eq!(compute_percentiles(&[], &Native), (n(0.0), n(0.0), n(0.0)));
}

#[test]
fn compute_percentiles_summarises_unsorted_input() {
    let values = list(&[10.0, 1.0, 5.0, 3.0, 7.0]);
    let (mean, p50, p99) = compute_percentiles(&values, &Native);
    assert!((f(mean) - 5.2).abs() < 1e-9);
    assert_eq!(p50, n(5.0));
    assert_eq!(p99, n(10.0));
}

#[test]
fn percentiles_agree_with_a_plain_sort() {
    let mut seed: u32 = 3;
    for count in 1usize..120 {
        let mut values: Vec<f64> = Vec::new();
        for _ in 0..count {
            seed = seed.wrapping_mul(1664525).wrapping_add(1013904223);
            values.push((seed >> 20) as f64 / 7.0 - 100.0);
        }
        let got = compute_percentiles(&list(&values), &Native);
        let mut sorted = values.clone();
        sorted.sort_by(|a, b| a.partial_cmp(b).unwrap());
        let mean = sorted.iter().sum::<f64>() / count as f64;
        let at = |p: f64| sorted[((count as f64 * p / 100.0) as usize).min(count - 1)];
        assert_eq!(got, (n(mean), n(at(50.0)), n(at(99.0))));
        assert!(got.1 <= got.2);
        assert_eq!(percentile(&list(&sorted), n(-3.0), &Native), n(sorted[0]));
    }
}

#[test]
fn order_of_the_values_does_not_matter() {
    let values = [3.0, -1.0, 0.0, 7.5, -0.0, 3.0, f64::INFINITY, 2.25];
    let summary = compute_percentiles(&list(&values), &Native);
    for shift in 0..values.len() {
        let mut other = values.to_vec();
        other.rotate_left(shift);
        assert_eq!(compute_percentiles(&list(&other), &Native), summary);
        other.reverse();
        assert_eq!(compute_percentiles(&list(&other), &Native), summary);
    }
    assert_eq!((summary.1, summary.2), (n(3.0), n(f64::INFINITY)));
}

#[test]
fn values_that_are_not_numbers_sort_last() {
    let values = list(&[f64::NAN, 2.0, f64::NEG_INFINITY, 1.0]);
    let (mean, p50, p99) = compute_percentiles(&values, &Native);
    assert!(mean.is_nan() && p99.is_nan());
    assert_eq!(p50, n(2.0));
}

#[test]
fn decode_statistics_drop_the_warmup() {
    let times = list(&[500.0, 10.0, 30.0]);
    let stats = decode_stats(measured_window(&times, 1), &Native);
    assert_eq!((stats.avg_ms, stats.p50_ms, stats.p99_ms), (n(20.0), n(30.0), n(30.0)));
    assert_eq!((stats.tok_per_s, stats.n_steps), (n(50.0), 2));
    let none = decode_stats(measured_window(&times, 9), &Native);
    assert_eq!((none.avg_ms, none.tok_per_s, none.n_steps), (n(0.0), n(0.0), 0));
    assert_eq!(steps_to_run(3, 16), 19);
}

// Engine

#[test]
fn argmax_token_returns_index_of_max() {
    assert_eq!(argmax_token(&logits(&[1.0, 3.0, 2.0])), 1);
    assert_eq!(argmax_token(&logits(&[9.0, 0.0, 0.0])), 0);
    assert_eq!(argmax_token(&logits(&[0.0, 0.0, 5.5])), 2);
}

#[test]
fn argmax_token_empty_returns_zero() {
    assert_eq!(argmax_token(&[]), 0);
}

#[test]
fn argmax_token_handles_nan_gracefully() {
    let v = [f32::NAN, 2.0, 1.0];
    let idx = argmax_token(&logits(&v));
    assert!((idx as usize) < v.len());
}

#[test]
fn argmax_token_is_the_running_maximum_of_the_standard_library() {
    let values = [f32::NAN, 2.0, 1.0, 2.0, -0.0, 0.0];
    for a in values {
        for b in values {
            for c in values {
                let v = [a, b, c];
                let expected = v
                    .iter()
                    .enumerate()
                    .max_by(|(_, x), (_, y)| {
                        x.partial_cmp(y).unwrap_or(std::cmp::Ordering::Equal)
                    })
                    .map(|(i, _)| i as u32)
                    .unwrap_or(0);
                assert_eq!(argmax_token(&logits(&v)), expected);
            }
        }
    }
}

#[test]
fn next_token_prefers_the_head() {
    assert_eq!(pick_next(Some(17), &[]), 17);
    assert_eq!(pick_next(None, &logits(&[0.5, 0.5, 0.1])), 1);
}

#[test]
fn engine_labels_and_notes() {
    assert_eq!(engine_label("markov-rs", "cpu", "", false), "markov-rs [cpu]");
    assert_eq!(engine_label("markov-rs", "cpu", "w=4", false), "markov-rs [cpu] (w=4)");
    assert_eq!(engine_label("markov-rs", "cpu", "", true), "markov-rs [cpu] Q4K");
    assert_eq!(engine_label("markov-rs", "cpu", "w=4", true), "markov-rs [cpu] (w=4) Q4K");
    assert_eq!(
        memory_note(8 << 20, 3 << 20, 1 << 20, &Native),
        "hot=2.0MB cold=1.0MB  3× vs std-kv"
    );
    assert_eq!(memory_note(5, 0, 1 << 20, &Native), "hot=0.0MB cold=1.0MB  0× vs std-kv");
    assert!(wants_metal("cpu,metal"));
    assert!(!wants_metal("cpu"));
}

#[test]
fn engine_run_takes_the_planned_steps() {
    let mut run = EngineRun::new(false, 1, 2);
    assert_eq!(run.on_prefill(Some((n(7.0), 4))), Ok(EngineAction::Decode { token: 4 }));
    assert_eq!(run.on_step(Some((n(100.0), 5))), Ok(EngineAction::Decode { token: 5 }));
    assert_eq!(run.on_step(Some((n(10.0), 6))), Ok(EngineAction::Decode { token: 6 }));
    assert_eq!(run.on_step(Some((n(30.0), 8))), Ok(EngineAction::Report));
    let row: BenchRow<()> = run.report("label".to_string(), "note".to_string(), &Native);
    assert_eq!((row.prefill_ms, row.avg_decode_ms, row.n_steps), (n(7.0), n(20.0), 2));
    assert_eq!((row.tok_per_s, row.backend.as_str(), row.note.as_str()), (n(50.0), "label", "note"));
    assert!(row.stages.is_none() && row.ffn_rtt_ms.is_none() && row.attn_ms.is_none());
    assert!(row.wire_bytes_per_tok.is_none() && row.shard_efficiency.is_none());
}

#[test]
fn engine_run_without_steps_reports_at_once() {
    assert_eq!(
        EngineRun::new(false, usize::MAX, 1).on_prefill(None),
        Err("engine prefill failed".to_string())
    );
    let mut run = EngineRun::new(true, 0, 0);
    assert_eq!(run.on_prefill(Some((n(7.0), 4))), Ok(EngineAction::Report));
    let row: BenchRow<()> = run.report(String::new(), String::new(), &Native);
    assert_eq!((row.avg_decode_ms, row.tok_per_s, row.n_steps), (n(0.0), n(0.0), 0));
}

#[test]
fn engine_failures_are_told_apart() {
    assert_eq!(
        EngineRun::new(false, 0, 1).on_prefill(None),
        Err("engine prefill failed".to_string())
    );
    assert_eq!(
        EngineRun::new(true, 0, 1).on_prefill(None),
        Err("Q4K engine prefill failed".to_string())
    );
    for (q4k, message) in
        [(false, "engine decode_step failed"), (true, "Q4K engine decode_step failed")]
    {
        let mut run = EngineRun::new(q4k, 0, 1);
        run.on_prefill(Some((n(1.0), 0))).unwrap();
        assert_eq!(run.on_step(None), Err(message.to_string()));
    }
}

// Local runs

#[test]
fn backend_name_for_picks_label() {
    assert_eq!(backend_name_for(true), "larql-metal");
    assert_eq!(backend_name_for(false), "larql-cpu");
}

#[test]
fn local_preconditions_are_told() {
    assert_eq!(check_format(true, "Q4K"), Ok(()));
    assert_eq!(
        check_format(false, "F16"),
        Err("larql bench currently requires a Q4K vindex (got F16)".to_string())
    );
    assert_eq!(check_backend(false, false, false), Ok(()));
    assert_eq!(check_backend(true, true, true), Ok(()));
    assert_eq!(
        check_backend(true, false, true),
        Err("Metal backend requires the `metal` feature on macOS".to_string())
    );
    assert_eq!(
        check_backend(true, true, false),
        Err(
            "Metal backend unavailable — rebuild with `--features metal` on an M-series Mac"
                .to_string()
        )
    );
}

#[test]
fn local_rows_and_notes() {
    assert_eq!(
        local_run_note(3, 5, n(12.0), &Native),
        "early stop @3/5 (EOS or GPU fallback)"
    );
    assert_eq!(
        local_run_note(0, 0, n(12.4), &Native),
        "no decode steps completed (wall 12ms)"
    );
    assert_eq!(local_run_note(5, 5, n(12.0), &Native), "");
    let times = list(&[1.0, 10.0, 30.0]);
    let run = LocalMeasurement { prefill_ms: n(4.0), decode_ms: &times, wall_ms: n(50.0) };
    let row = local_bench_row(false, &run, 1, 2, "stages", &Native);
    assert_eq!((row.prefill_ms, row.avg_decode_ms, row.tok_per_s), (n(4.0), n(20.0), n(50.0)));
    assert_eq!((row.stages, row.n_steps, row.note.as_str()), (Some("stages"), 2, ""));
    assert_eq!(row.backend, "larql-cpu");
}

// Remote feed-forward runs

fn row(
    backend: &str,
    tok: f64,
    mean: f64,
    p50: f64,
    p99: f64,
    ffn: Option<f64>,
    attn: Option<f64>,
    wb: Option<u64>,
    n_steps: usize,
) -> BenchRow<()> {
    BenchRow {
        backend: backend.to_string(),
        prefill_ms: n(1.5),
        avg_decode_ms: n(mean),
        p50_ms: n(p50),
        p99_ms: n(p99),
        tok_per_s: n(tok),
        stages: None,
        ffn_rtt_ms: ffn.map(n),
        attn_ms: attn.map(n),
        wire_bytes_per_tok: wb,
        shard_efficiency: None,
        n_steps,
        note: "ok".into(),
    }
}

#[test]
fn combine_concurrent_aggregates_throughput_and_takes_worst_tail() {
    let rows = vec![
        row("remote-ffn (x)", 10.0, 100.0, 90.0, 200.0, Some(50.0), Some(50.0), Some(1000), 5),
        row("remote-ffn (x)", 12.0, 90.0, 88.0, 180.0, Some(45.0), Some(45.0), Some(1100), 5),
        row("remote-ffn (x)", 11.0, 95.0, 92.0, 220.0, Some(48.0), Some(47.0), Some(1050), 5),
    ];
    let agg = combine_concurrent_rows(rows, 3, &Native);
    assert!(agg.backend.contains("×3 concurrent"));
    assert!(agg.note.starts_with("concurrent=3"));
    assert!((f(agg.tok_per_s) - 33.0).abs() < 1e-9);
    assert!((f(agg.p99_ms) - 220.0).abs() < 1e-9);
    assert_eq!(agg.wire_bytes_per_tok, Some(3150));
    assert_eq!(agg.n_steps, 15);
    assert!((f(agg.prefill_ms) - 1.5).abs() < 1e-9);
    assert_eq!(agg.ffn_rtt_ms, Some(n(50.0)));
    assert_eq!(agg.attn_ms, Some(n(50.0)));
    assert_eq!((agg.avg_decode_ms, agg.p50_ms), (n(100.0), n(92.0)));
    assert_eq!(agg.backend, "remote-ffn (x) (×3 concurrent)");
    assert_eq!(agg.note, "concurrent=3 | ok");
}

#[test]
fn combine_concurrent_handles_missing_breakdowns() {
    let rows = vec![
        row("x", 5.0, 100.0, 90.0, 200.0, None, None, None, 1),
        row("x", 6.0, 100.0, 90.0, 200.0, None, None, None, 1),
    ];
    let agg = combine_concurrent_rows(rows, 2, &Native);
    assert!(agg.ffn_rtt_ms.is_none());
    assert!(agg.attn_ms.is_none());
    assert!(agg.wire_bytes_per_tok.is_none());
}

#[test]
fn partial_reports_are_combined() {
    let rows = vec![
        row("x", 5.0, 100.0, 90.0, 200.0, None, Some(f64::NAN), Some(7), 1),
        row("x", 6.0, 100.0, 90.0, 200.0, Some(3.0), Some(-1.0), None, 2),
    ];
    let agg = combine_concurrent_rows(rows, 2, &Native);
    assert_eq!(agg.ffn_rtt_ms, Some(n(3.0)));
    assert_eq!(agg.attn_ms, None);
    assert_eq!((agg.wire_bytes_per_tok, agg.n_steps), (Some(7), 3));
    assert_eq!(worst_of(&list(&[f64::NAN, 2.0, -4.0])), n(2.0));
    assert_eq!(worst_of(&vec![]), n(0.0));
    assert!(aggregate_concurrent_rows(&vec![], &Native).is_none());
}

#[test]
fn first_client_without_a_row_decides() {
    let good = || WorkerOutcome::Row(row("x", 5.0, 1.0, 1.0, 1.0, None, None, None, 1));
    let rows = collect_rows(RemotePath::Ffn, vec![good(), good()]).ok().unwrap();
    assert_eq!(rows.len(), 2);
    let failed = WorkerOutcome::Failed("no route".to_string());
    let err = collect_rows(RemotePath::Ffn, vec![good(), failed, WorkerOutcome::Panicked]);
    assert_eq!(err.err(), Some("no route".to_string()));
    let err = collect_rows(RemotePath::Ffn, vec![WorkerOutcome::Panicked, good()]);
    assert_eq!(
        err.err(),
        Some("concurrent FFN bench worker panicked — see stderr for details".to_string())
    );
    let err = collect_rows::<()>(RemotePath::Moe, vec![WorkerOutcome::Panicked]);
    assert_eq!(
        err.err(),
        Some("concurrent MoE bench worker panicked — see stderr for details".to_string())
    );
}

#[test]
fn clients_of_a_run_are_put_together() {
    let one = || row("x", 5.0, 7.0, 8.0, 9.0, Some(3.0), None, Some(10), 4);
    let alone = combine_outcomes(RemotePath::Ffn, 1, vec![WorkerOutcome::Row(one())], &Native);
    let alone = alone.ok().unwrap();
    assert_eq!((alone.backend.as_str(), alone.note.as_str()), ("x", "ok"));
    assert_eq!((alone.tok_per_s, alone.n_steps), (n(5.0), 4));
    let both = vec![WorkerOutcome::Row(one()), WorkerOutcome::Row(one())];
    let both = combine_outcomes(RemotePath::Moe, 2, both, &Native).ok().unwrap();
    assert_eq!((both.backend.as_str(), both.note.as_str()), ("x (×2 concurrent)", "concurrent=2 | ok"));
    assert_eq!((both.tok_per_s, both.n_steps), (n(10.0), 8));
    assert_eq!((both.wire_bytes_per_tok, both.p99_ms), (Some(20), n(9.0)));
    assert!(both.stages.is_none() && both.shard_efficiency.is_none());
    let bad = vec![WorkerOutcome::Row(one()), WorkerOutcome::Panicked];
    assert_eq!(
        combine_outcomes(RemotePath::Moe, 2, bad, &Native).err(),
        Some("concurrent MoE bench worker panicked — see stderr for details".to_string())
    );
    let failed: Vec<WorkerOutcome<()>> = vec![WorkerOutcome::Failed("gone".to_string())];
    assert_eq!(
        combine_outcomes(RemotePath::Ffn, 1, failed, &Native).err(),
        Some("gone".to_string())
    );
}

#[test]
fn number_of_clients_is_only_shown() {
    let rows = || vec![row("x", 5.0, 7.0, 8.0, 9.0, Some(3.0), Some(2.0), Some(10), 4)];
    let a = combine_concurrent_rows(rows(), 3, &Native);
    let b = combine_concurrent_rows(rows(), 40, &Native);
    assert_eq!((a.tok_per_s, a.avg_decode_ms, a.p50_ms), (b.tok_per_s, b.avg_decode_ms, b.p50_ms));
    assert_eq!((a.ffn_rtt_ms, a.attn_ms, a.n_steps), (b.ffn_rtt_ms, b.attn_ms, b.n_steps));
    assert_eq!(b.backend, "x (×40 concurrent)");
}

#[test]
fn ffn_rows_carry_label_and_wire_bytes() {
    assert_eq!(format_ffn_backend_label(true, None, "u"), "remote-ffn-batch (u)");
    assert_eq!(format_ffn_backend_label(false, Some("f16"), "u"), "remote-ffn-stream [f16] (u)");
    assert_eq!(wire_bytes_per_token(10, 11, 4), Some(5));
    assert_eq!(wire_bytes_per_token(u64::MAX, 11, 0), None);
    let decode = list(&[9.0, 100.0, 100.0]);
    let trips = list(&[9.0, 60.0, 80.0]);
    let run = FfnMeasurement {
        decode_ms: &decode,
        ffn_rtt_ms: &trips,
        bytes_sent: 100,
        bytes_received: 101,
    };
    let out: BenchRow<()> = ffn_bench_row("l".to_string(), &run, 1, 3, &Native);
    assert_eq!((out.prefill_ms, out.avg_decode_ms, out.tok_per_s), (n(0.0), n(100.0), n(10.0)));
    assert_eq!((out.ffn_rtt_ms, out.attn_ms), (Some(n(70.0)), Some(n(30.0))));
    assert_eq!((out.wire_bytes_per_tok, out.n_steps), (Some(100), 2));
    assert_eq!(out.note, "early stop @2/3");
}

// Remote expert runs

struct Ranges;

impl RangeReader for Ranges {
    fn read_range(&self, text: &str) -> Option<(usize, usize)> {
        let (start, end) = text.split_once('-')?;
        Some((start.parse().ok()?, end.parse().ok()?))
    }
}

fn parse(spec: &str) -> Result<Vec<ShardConfig>, String> {
    parse_shard_segments(spec, &Ranges)
}

#[test]
fn parse_shard_segments_accepts_well_formed_map() {
    let cfgs = parse("0-31=http://a:8080, 32-63=http://b:8080").unwrap();
    assert_eq!(cfgs.len(), 2);
    assert_eq!(cfgs[0].start, 0);
    assert_eq!(cfgs[0].end, 31);
    assert_eq!(cfgs[0].url, "http://a:8080");
    assert_eq!(cfgs[1].start, 32);
    assert_eq!(cfgs[1].end, 63);
}

#[test]
fn parse_shard_segments_skips_blank_segments() {
    let cfgs = parse("0-31=http://a, , 32-63=http://b").unwrap();
    assert_eq!(cfgs.len(), 2);
}

#[test]
fn parse_shard_segments_rejects_missing_url() {
    let err = parse("0-31").unwrap_err();
    assert!(err.contains("missing URL"), "got: {err}");
}

#[test]
fn parse_shard_segments_rejects_bad_range() {
    let err = parse("notarange=http://a").unwrap_err();
    assert!(err.contains("bad expert range"), "got: {err}");
}

#[test]
fn parse_shard_segments_rejects_empty_spec() {
    let err = parse("").unwrap_err();
    assert!(err.contains("no valid shard segments"), "got: {err}");
    let err = parse(", ,").unwrap_err();
    assert!(err.contains("no valid shard segments"), "got: {err}");
}

#[test]
fn shard_map_errors_read_in_full() {
    assert_eq!(
        parse(" a\"b ,x=y").unwrap_err(),
        "missing URL in shard segment: \"a\\\"b\""
    );
    assert_eq!(
        parse("0-1=u,\t=y").unwrap_err(),
        "bad expert range \"\" in --moe-shards segment =y"
    );
    let err = parse("0-31=http://a,notarange=http://b").unwrap_err();
    assert!(err.contains("notarange=http://b"));
    assert!(!err.contains("http://a"));
    assert_eq!(
        err,
        "bad expert range \"notarange\" in --moe-shards segment notarange=http://b"
    );
    assert_eq!(parse("0-1=u,z,q=y").unwrap_err(), "missing URL in shard segment: \"z\"");
    assert_eq!(parse(" ").unwrap_err(), "--moe-shards: no valid shard segments");
    let cfgs = parse("4-5=http://h?a=b").unwrap();
    assert_eq!((cfgs[0].url.as_str(), cfgs.len()), ("http://h?a=b", 1));
}

#[test]
fn label_picks_mode_and_shows_shard_count() {
    assert_eq!(format_moe_backend_label(true, 4), "remote-moe-batch (4 shards)");
    assert_eq!(format_moe_backend_label(false, 1), "remote-moe-stream (1 shards)");
}

fn summarize(decode: &[f64], ffn: &[f64], warmup: usize, target: usize) -> MoeSummary {
    summarize_moe_result(&list(decode), &list(ffn), warmup, target, &Native)
}

#[test]
fn summarize_no_post_warmup_returns_zeros() {
    let s = summarize(&[10.0, 10.0], &[], 5, 10);
    assert_eq!(s.n_steps, 0);
    assert_eq!(s.avg_decode_ms, n(0.0));
    assert_eq!(s.tok_per_s, n(0.0));
    assert!(s.ffn_rtt_ms.is_none());
    assert!(s.attn_ms.is_none());
    assert!(s.note.starts_with("early stop @0/"));
}

#[test]
fn summarize_with_ffn_rtt_derives_attn() {
    let decode = [100.0, 100.0, 100.0, 100.0, 100.0];
    let ffn = [80.0, 80.0, 80.0, 80.0, 80.0];
    let s = summarize(&decode, &ffn, 0, 5);
    assert_eq!(s.n_steps, 5);
    assert!((f(s.avg_decode_ms) - 100.0).abs() < 1e-9);
    assert!((f(s.tok_per_s) - 10.0).abs() < 1e-9);
    assert_eq!(s.ffn_rtt_ms, Some(n(80.0)));
    assert!(f(s.attn_ms.unwrap()).abs() > 0.0);
    assert!((f(s.attn_ms.unwrap()) - 20.0).abs() < 1e-9);
    assert!(s.note.is_empty(), "n == target so no early-stop note");
}

#[test]
fn summarize_missing_ffn_rtt_leaves_none() {
    let s = summarize(&[100.0, 100.0, 100.0], &[], 0, 3);
    assert_eq!(s.n_steps, 3);
    assert!(s.ffn_rtt_ms.is_none());
    assert!(s.attn_ms.is_none());
}

#[test]
fn summarize_clamps_negative_attn_to_zero() {
    let s = summarize(&[50.0], &[80.0], 0, 1);
    assert_eq!(s.attn_ms, Some(n(0.0)));
}

#[test]
fn warmup_of_the_round_trips_is_that_of_the_steps() {
    let s = summarize(&[1.0, 100.0, 100.0], &[7.0, 40.0, 60.0], 1, 2);
    assert_eq!((s.ffn_rtt_ms, s.attn_ms), (Some(n(50.0)), Some(n(50.0))));
    assert_eq!((s.p50_ms, s.p99_ms), (n(100.0), n(100.0)));
    let moe: BenchRow<()> = moe_bench_row(false, 2, s);
    assert_eq!(moe.backend, "remote-moe-stream (2 shards)");
    assert_eq!((moe.prefill_ms, moe.n_steps), (n(0.0), 2));
    assert_eq!((moe.ffn_rtt_ms, moe.wire_bytes_per_tok), (Some(n(50.0)), None));
}

#[test]
fn warmup_leaves_no_trace() {
    let decode = [900.0, 800.0, 100.0, 50.0, 75.0];
    let trips = [700.0, 1.0, 60.0, 20.0, 40.0];
    let a = summarize(&decode, &trips, 2, 4);
    let b = summarize(&decode[2..], &trips[2..], 0, 4);
    assert_eq!((a.avg_decode_ms, a.p50_ms, a.p99_ms), (b.avg_decode_ms, b.p50_ms, b.p99_ms));
    assert_eq!((a.tok_per_s, a.ffn_rtt_ms, a.attn_ms), (b.tok_per_s, b.ffn_rtt_ms, b.attn_ms));
    assert_eq!((a.n_steps, a.note.as_str()), (3, "early stop @3/4"));
    assert_eq!(b.note, a.note);
}

#[test]
fn dispatch_modes_and_counts() {
    assert!(is_batch_dispatch(" batch\n"));
    assert!(!is_batch_dispatch("batched"));
    assert!(!is_batch_dispatch("stream"));
    assert_eq!(at_least_one(0), 1);
    assert_eq!(at_least_one(3), 3);
}

// The course of a run

#[test]
fn runs_go_through_their_plans() {
    for kind in [
        BenchKind::Local { metal: false },
        BenchKind::Local { metal: true },
        BenchKind::RemoteFfn { is_batch: true },
        BenchKind::RemoteMoe { is_batch: false },
    ] {
        let mut run = BenchProgress::start(kind);
        let mut seen = Vec::new();
        while let Some(step) = run.step() {
            seen.push(step);
            run.advance(None).unwrap();
        }
        assert_eq!(seen, bench_plan(kind));
        assert_eq!(seen.last(), Some(&BenchStep::Report));
    }
    let ffn = bench_plan(BenchKind::RemoteFfn { is_batch: false });
    let reset = ffn.iter().position(|s| *s == BenchStep::ResetCounters).unwrap();
    assert_eq!((ffn[reset - 1], ffn[reset + 1]), (BenchStep::Warmup, BenchStep::Measure));
    let local = bench_plan(BenchKind::Local { metal: true });
    assert!(local.contains(&BenchStep::Prewarm));
    assert!(!bench_plan(BenchKind::Local { metal: false }).contains(&BenchStep::Prewarm));
}

fn failure_at(kind: BenchKind, step: BenchStep) -> Result<(), String> {
    let mut run = BenchProgress::start(kind);
    while run.step() != Some(step) {
        run.advance(None).unwrap();
    }
    run.advance(Some("why"))
}

#[test]
fn failures_are_told_or_tolerated() {
    let ffn = BenchKind::RemoteFfn { is_batch: false };
    let batch = BenchKind::RemoteFfn { is_batch: true };
    let moe = BenchKind::RemoteMoe { is_batch: true };
    let local = BenchKind::Local { metal: true };
    for (kind, step, message) in [
        (ffn, BenchStep::LoadWeights, "failed to load client weights: why"),
        (ffn, BenchStep::LoadTokenizer, "failed to load tokenizer: why"),
        (ffn, BenchStep::LoadIndex, "failed to load vindex: why"),
        (ffn, BenchStep::LoadAttention, "why"),
        (ffn, BenchStep::Connect, "failed to connect to remote FFN: why"),
        (ffn, BenchStep::EncodePrompt, "tokenise: why"),
        (ffn, BenchStep::Measure, "remote-ffn generate failed: why"),
        (batch, BenchStep::Measure, "remote-ffn generate failed (batch): why"),
        (moe, BenchStep::ParseShards, "why"),
        (moe, BenchStep::Connect, "failed to connect to MoE shards: why"),
        (moe, BenchStep::LoadWeights, "failed to load client weights: why"),
        (moe, BenchStep::EncodePrompt, "tokenise: why"),
        (moe, BenchStep::Measure, "moe bench generate failed: why"),
        (local, BenchStep::LoadIndex, "why"),
        (local, BenchStep::EncodePrompt, "tokenize: why"),
    ] {
        assert_eq!(failure_at(kind, step), Err(message.to_string()));
    }
    for (kind, step) in [
        (ffn, BenchStep::LoadLmHead),
        (ffn, BenchStep::RenderPrompt),
        (ffn, BenchStep::Warmup),
        (moe, BenchStep::Warmup),
        (local, BenchStep::Prewarm),
    ] {
        assert_eq!(failure_at(kind, step), Ok(()));
    }
}

#[test]
fn steps_ask_for_their_tokens() {
    assert_eq!(tokens_asked(BenchStep::Prewarm, 7, 9), Some(1));
    assert_eq!(tokens_asked(BenchStep::Warmup, 7, 9), Some(7));
    assert_eq!(tokens_asked(BenchStep::Warmup, 0, 9), Some(1));
    assert_eq!(tokens_asked(BenchStep::Measure, 7, 9), Some(16));
    assert_eq!(tokens_asked(BenchStep::Measure, 0, 0), Some(0));
    assert_eq!(tokens_asked(BenchStep::Connect, 7, 9), None);
    assert_eq!(tokens_asked(BenchStep::Warmup, usize::MAX, 9), Some(usize::MAX));
}

#[test]
fn batches_have_rounds() {
    assert_eq!(batch_rounds(BenchKind::Local { metal: true }, 5), None);
    assert_eq!(batch_rounds(BenchKind::RemoteFfn { is_batch: true }, 5), Some(1));
    assert_eq!(batch_rounds(BenchKind::RemoteFfn { is_batch: false }, 5), None);
    assert_eq!(batch_rounds(BenchKind::RemoteMoe { is_batch: true }, 5), Some(5));
    assert_eq!(batch_rounds(BenchKind::RemoteMoe { is_batch: true }, 0), Some(1));
    assert_eq!(batch_rounds(BenchKind::RemoteMoe { is_batch: false }, 5), None);
}

#[test]
fn prompts_and_endpoints() {
    assert_eq!(prompt_to_encode(Some("<p>".to_string()), "p"), "<p>");
    assert_eq!(prompt_to_encode(None, "p"), "p");
    assert_eq!(
        endpoints_line(1),
        "  Experts:    remote  (sharded across 1 endpoint)"
    );
    assert_eq!(
        endpoints_line(12),
        "  Experts:    remote  (sharded across 12 endpoints)"
    );
}
