//! Runs on this machine: the choice of tokens, the course of an engine, the local run, and the
//! plan of each kind of run.

use crate::arith::{follows_64, Arith64, Model64};
use crate::bench::engine::{
    argmax_token, engine_label, engine_row, lemma_last_max_in_range, memory_note, memory_note_text,
    pick_next, wants_metal, EngineAction, EngineRun,
};
use crate::bench::local::{
    backend_name_for, check_backend, check_format, local_bench_row, local_note, local_row,
    local_run_note, LocalMeasurement,
};
use crate::bench::row::{
    decode_stats, early_stop_text, measured_window, step_stats, BenchRow, DecodeStats,
};
use crate::bench::steps::{
    batch_rounds, bench_plan, endpoints_line, plan, prompt_to_encode, tokens_asked, BenchKind,
    BenchProgress, BenchStep,
};
use crate::float::{F32, F64};
use crate::text::{contains_text, numeral};
use vstd::prelude::*;

verus! {

/// The chosen token of a list with one more logit is the new one, unless it is below the one chosen
/// before; of one logit it is the first, and of none token 0.
pub proof fn law_chosen_token_moves_on(
    logits: &[F32],
    r: u32,
    x: F32,
    longer: &[F32],
    s: u32,
)
    requires
        longer@ == logits@.push(x),
        longer@.len() <= 0x1_0000_0000,
        call_ensures(argmax_token, (logits,), r),
        call_ensures(argmax_token, (longer,), s),
    ensures
        logits@.len() == 0 ==> r == 0 && s == 0,
        logits@.len() > 0 ==> r < logits@.len(),
        logits@.len() > 0 && x.below(logits@[r as int]) ==> s == r,
        logits@.len() > 0 && !x.below(logits@[r as int]) ==> s == logits@.len(),
{
    assert(longer@.drop_last() =~= logits@);
    assert(logits.len() == logits@.len() && longer.len() == longer@.len());
    if logits@.len() > 0 {
        lemma_last_max_in_range(logits@);
    }
}

/// The next token is the head's where it offers one, else the one with the largest logit.
pub proof fn law_next_token_is_the_heads(top: Option<u32>, logits: &[F32], best: u32, r: u32)
    requires
        call_ensures(argmax_token, (logits,), best),
        call_ensures(pick_next, (top, logits), r),
    ensures
        top matches Some(token) ==> r == token,
        top is None ==> r == best,
{
}

/// The accelerator is asked for exactly where its name is found in the list of backends.
pub proof fn law_metal_is_asked_for_by_name(backends: &str, name: &str, found: bool, r: bool)
    requires
        name@ == seq!['m', 'e', 't', 'a', 'l'],
        call_ensures(contains_text, (backends, name), found),
        call_ensures(wants_metal, (backends,), r),
    ensures
        r == found,
{
    reveal_strlit("metal");
    assert("metal"@ =~= name@);
}

/// The label of an engine tells its name, its backend, its configuration where it has one, and that
/// its weights are quantised where they are.
pub proof fn law_engine_labels(name: &str, backend: &str, config: &str, plain: String, q4k: String)
    requires
        call_ensures(engine_label, (name, backend, config, false), plain),
        call_ensures(engine_label, (name, backend, config, true), q4k),
    ensures
        q4k@ == plain@ + " Q4K"@,
        config@.len() == 0 ==> plain@ == name@ + " ["@ + backend@ + "]"@,
        config@.len() > 0 ==> plain@ == name@ + " ["@ + backend@ + "] ("@ + config@ + ")"@,
{
    reveal_strlit("]");
    reveal_strlit(" (");
    reveal_strlit("] (");
    assert("]"@ + " ("@ =~= "] ("@);
    assert(q4k@ =~= plain@ + " Q4K"@);
    if config@.len() == 0 {
        assert(plain@ =~= name@ + " ["@ + backend@ + "]"@);
    } else {
        assert(plain@ =~= name@ + " ["@ + backend@ + "] ("@ + config@ + ")"@);
    }
}

/// The note on an engine's memory tells the megabytes that are not cold, those that are, and how
/// often the engine goes into the reference cache, which is zero for an engine without memory.
pub proof fn law_memory_notes<A: Arith64>(
    arith: &A,
    m: Model64,
    kv_ref: usize,
    whole: usize,
    cold: usize,
    r: String,
)
    requires
        follows_64(arith, m),
        call_ensures(memory_note::<A>, (kv_ref, whole, cold, arith), r),
    ensures
        ({
            let megabyte = F64 { bits: 0x4130_0000_0000_0000 };
            let hot: usize = if whole >= cold {
                (whole - cold) as usize
            } else {
                0
            };
            let ratio = if whole == 0 {
                F64 { bits: 0 }
            } else {
                (m.quotient)((m.from_count)(kv_ref), (m.from_count)(whole))
            };
            r@ == "hot="@ + (m.fixed)((m.quotient)((m.from_count)(hot), megabyte), 1)
                + "MB cold="@ + (m.fixed)((m.quotient)((m.from_count)(cold), megabyte), 1)
                + "MB  "@ + (m.fixed)(ratio, 0) + "× vs std-kv"@
        }),
{
    assert(r@ == memory_note_text(m, kv_ref, whole, cold));
}

/// A new engine run has measured nothing.
pub proof fn law_new_runs_have_measured_nothing(
    q4k: bool,
    warmup: usize,
    tokens: usize,
    run: EngineRun,
)
    requires
        call_ensures(EngineRun::new, (q4k, warmup, tokens), run),
    ensures
        run@.phase is Prefill,
        run@.decode_ms.len() == 0,
        run@.q4k == q4k && run@.warmup == warmup && run@.tokens == tokens,
{
}

/// After the prefill a run keeps its time and asks for the first step from the token that follows,
/// or reports where no step is planned; a prefill that failed is told.
pub proof fn law_prefill_leads_to_the_first_step(
    run: &mut EngineRun,
    outcome: Option<(F64, u32)>,
    r: Result<EngineAction, String>,
)
    requires
        old(run)@.phase is Prefill,
        old(run)@.wf(),
        call_ensures(EngineRun::on_prefill, (run, outcome), r),
    ensures
        outcome matches Some((ms, token)) ==> {
            let planned = old(run)@.warmup + old(run)@.tokens;
            &&& final(run)@.prefill_ms == ms
            &&& planned > 0 ==> r == Ok::<EngineAction, String>(EngineAction::Decode { token })
            &&& planned > 0 ==> final(run)@.phase is Decode
            &&& planned == 0 ==> r == Ok::<EngineAction, String>(EngineAction::Report)
            &&& planned == 0 ==> final(run)@.phase is Report
        },
        outcome is None ==> r is Err && final(run)@.phase is Failed,
        outcome is None && old(run)@.q4k ==> r->Err_0@ == "Q4K engine prefill failed"@,
        outcome is None && !old(run)@.q4k ==> r->Err_0@ == "engine prefill failed"@,
        final(run)@.decode_ms == old(run)@.decode_ms,
        final(run)@.q4k == old(run)@.q4k && final(run)@.warmup == old(run)@.warmup
            && final(run)@.tokens == old(run)@.tokens,
{
}

/// After a step a run has one time more, that step's; it asks for the next step from the token that
/// follows while fewer are done than planned, and reports when they are done.  A step that failed
/// is told.
pub proof fn law_steps_lead_to_the_report(
    run: &mut EngineRun,
    outcome: Option<(F64, u32)>,
    r: Result<EngineAction, String>,
)
    requires
        old(run)@.phase is Decode,
        old(run)@.wf(),
        call_ensures(EngineRun::on_step, (run, outcome), r),
    ensures
        outcome matches Some((ms, token)) ==> {
            let done = old(run)@.decode_ms.len() + 1;
            let planned = old(run)@.warmup + old(run)@.tokens;
            &&& final(run)@.decode_ms == old(run)@.decode_ms.push(ms)
            &&& done < planned ==> r == Ok::<EngineAction, String>(EngineAction::Decode { token })
            &&& done < planned ==> final(run)@.phase is Decode
            &&& done == planned ==> r == Ok::<EngineAction, String>(EngineAction::Report)
            &&& done == planned ==> final(run)@.phase is Report
        },
        outcome is None ==> r is Err && final(run)@.phase is Failed,
        outcome is None && old(run)@.q4k ==> r->Err_0@ == "Q4K engine decode_step failed"@,
        outcome is None && !old(run)@.q4k ==> r->Err_0@ == "engine decode_step failed"@,
        final(run)@.prefill_ms == old(run)@.prefill_ms,
        final(run)@.q4k == old(run)@.q4k && final(run)@.warmup == old(run)@.warmup
            && final(run)@.tokens == old(run)@.tokens,
{
}

/// The row of an engine run has its label and note, its prefill time, and the statistics of its
/// steps without the warmup.
pub proof fn law_engine_rows_carry_the_statistics<S, A: Arith64>(
    arith: &A,
    m: Model64,
    run: &EngineRun,
    label: String,
    note: String,
    times: &[F64],
    warmup: usize,
    window: &[F64],
    stats: DecodeStats,
    r: BenchRow<S>,
)
    requires
        follows_64(arith, m),
        times@ == run@.decode_ms,
        warmup == run@.warmup,
        call_ensures(measured_window, (times, warmup), window),
        call_ensures(decode_stats::<A>, (window, arith), stats),
        call_ensures(EngineRun::report::<S, A>, (run, label, note, arith), r),
    ensures
        r.backend@ == label@ && r.note@ == note@,
        r.prefill_ms == run@.prefill_ms,
        r.avg_decode_ms == stats.avg_ms && r.p50_ms == stats.p50_ms && r.p99_ms == stats.p99_ms,
        r.tok_per_s == stats.tok_per_s && r.n_steps == window@.len(),
        r.stages is None && r.ffn_rtt_ms is None && r.attn_ms is None,
        r.wire_bytes_per_tok is None && r.shard_efficiency is None,
{
    assert(r@ == engine_row::<S>(m, run@, label@, note@));
    assert(stats == step_stats(m, window@));
    assert(r@.avg_decode_ms == r.avg_decode_ms && r@.p50_ms == r.p50_ms && r@.p99_ms == r.p99_ms
        && r@.tok_per_s == r.tok_per_s);
}

/// The two local backends have the names that reports know.
pub proof fn law_backend_names(metal: bool, r: &str)
    requires
        call_ensures(backend_name_for, (metal,), r),
    ensures
        metal ==> r@ == "larql-metal"@,
        !metal ==> r@ == "larql-cpu"@,
{
}

/// A local run wants Q4K weights, and the accelerator built in and there where it is asked for.
pub proof fn law_local_demands(
    is_q4k: bool,
    format: &str,
    checked: Result<(), String>,
    metal: bool,
    built_in: bool,
    available: bool,
    opened: Result<(), String>,
)
    requires
        call_ensures(check_format, (is_q4k, format), checked),
        call_ensures(check_backend, (metal, built_in, available), opened),
    ensures
        is_q4k ==> checked is Ok,
        !is_q4k ==> checked is Err && checked->Err_0@
            == "larql bench currently requires a Q4K vindex (got "@ + format@ + ")"@,
        !metal ==> opened is Ok,
        metal && built_in && available ==> opened is Ok,
        metal && !built_in ==> opened is Err && opened->Err_0@
            == "Metal backend requires the `metal` feature on macOS"@,
        metal && built_in && !available ==> opened is Err && opened->Err_0@
            == "Metal backend unavailable — rebuild with `--features metal` on an M-series Mac"@,
{
}

/// A local run notes that it stopped early, that nothing was measured, or nothing.
pub proof fn law_local_notes<A: Arith64>(
    arith: &A,
    m: Model64,
    n: usize,
    tokens: usize,
    wall_ms: F64,
    early: String,
    r: String,
)
    requires
        follows_64(arith, m),
        call_ensures(early_stop_text, (n, tokens), early),
        call_ensures(local_run_note::<A>, (n, tokens, wall_ms, arith), r),
    ensures
        n < tokens ==> r@ == early@ + " (EOS or GPU fallback)"@,
        n == 0 && tokens == 0 ==> r@ == "no decode steps completed (wall "@ + (m.fixed)(wall_ms, 0)
            + "ms)"@,
        n >= tokens && n > 0 ==> r@.len() == 0,
{
    assert(r@ == local_note(m, n as nat, tokens as nat, wall_ms));
}

/// The row of a local run has the backend's name, the run's prefill time, stages and note, and the
/// statistics of its steps without the warmup.
pub proof fn law_local_rows_carry_the_statistics<S, A: Arith64>(
    arith: &A,
    m: Model64,
    metal: bool,
    run: &LocalMeasurement<'_>,
    warmup: usize,
    tokens: usize,
    stages: S,
    name: &str,
    times: &[F64],
    window: &[F64],
    stats: DecodeStats,
    note: String,
    r: BenchRow<S>,
)
    requires
        follows_64(arith, m),
        times@ == run.decode_ms@,
        call_ensures(backend_name_for, (metal,), name),
        call_ensures(measured_window, (times, warmup), window),
        call_ensures(decode_stats::<A>, (window, arith), stats),
        call_ensures(
            local_run_note::<A>,
            (window@.len() as usize, tokens, run.wall_ms, arith),
            note,
        ),
        call_ensures(
            local_bench_row::<S, A>,
            (metal, run, warmup, tokens, stages, arith),
            r,
        ),
    ensures
        r.backend@ == name@ && r.note@ == note@,
        r.prefill_ms == run.prefill_ms && r.stages == Some(stages),
        r.avg_decode_ms == stats.avg_ms && r.p50_ms == stats.p50_ms && r.p99_ms == stats.p99_ms,
        r.tok_per_s == stats.tok_per_s && r.n_steps == window@.len(),
        r.ffn_rtt_ms is None && r.attn_ms is None,
        r.wire_bytes_per_tok is None && r.shard_efficiency is None,
{
    assert(window.len() == window@.len());
    assert(stats == step_stats(m, window@));
    assert(note@ == local_note(m, window@.len(), tokens as nat, run.wall_ms));
    assert(r@ == local_row(
        m,
        metal,
        run.prefill_ms,
        run.decode_ms@,
        run.wall_ms,
        warmup as int,
        tokens as nat,
        stages,
    ));
    assert(r@.avg_decode_ms == r.avg_decode_ms && r@.p50_ms == r.p50_ms && r@.p99_ms == r.p99_ms
        && r@.tok_per_s == r.tok_per_s && r@.note == r.note@);
}

/// The steps of a local run in order; only on the accelerator are its caches filled first.
pub proof fn law_plan_of_a_local_run(metal: bool, r: Vec<BenchStep>)
    requires
        call_ensures(bench_plan, (BenchKind::Local { metal },), r),
    ensures
        r@.take(10) == seq![
            BenchStep::LoadIndex,
            BenchStep::LoadAttention,
            BenchStep::LoadInterleaved,
            BenchStep::LoadConfig,
            BenchStep::CheckFormat,
            BenchStep::LoadWeights,
            BenchStep::LoadTokenizer,
            BenchStep::RenderPrompt,
            BenchStep::EncodePrompt,
            BenchStep::OpenBackend,
        ],
        metal ==> r@.skip(10) == seq![BenchStep::Prewarm, BenchStep::Measure, BenchStep::Report],
        !metal ==> r@.skip(10) == seq![BenchStep::Measure, BenchStep::Report],
{
    assert(r@.take(10) =~= seq![
        BenchStep::LoadIndex,
        BenchStep::LoadAttention,
        BenchStep::LoadInterleaved,
        BenchStep::LoadConfig,
        BenchStep::CheckFormat,
        BenchStep::LoadWeights,
        BenchStep::LoadTokenizer,
        BenchStep::RenderPrompt,
        BenchStep::EncodePrompt,
        BenchStep::OpenBackend,
    ]);
    if metal {
        assert(r@.skip(10) =~= seq![BenchStep::Prewarm, BenchStep::Measure, BenchStep::Report]);
    } else {
        assert(r@.skip(10) =~= seq![BenchStep::Measure, BenchStep::Report]);
    }
}

/// The steps of the remote runs in order: shards are parsed and connected before anything is loaded,
/// a feed-forward server is connected when everything is, and its counters are reset between the
/// warmup and the measurement.
pub proof fn law_plans_of_remote_runs(is_batch: bool, ffn: Vec<BenchStep>, moe: Vec<BenchStep>)
    requires
        call_ensures(bench_plan, (BenchKind::RemoteFfn { is_batch },), ffn),
        call_ensures(bench_plan, (BenchKind::RemoteMoe { is_batch },), moe),
    ensures
        ({
            let loads = seq![
                BenchStep::LoadWeights,
                BenchStep::LoadTokenizer,
                BenchStep::LoadIndex,
                BenchStep::LoadAttention,
                BenchStep::LoadInterleaved,
                BenchStep::LoadLmHead,
            ];
            let prompt = seq![BenchStep::RenderPrompt, BenchStep::EncodePrompt];
            &&& ffn@ == loads + seq![BenchStep::Connect] + prompt + seq![
                BenchStep::Warmup,
                BenchStep::ResetCounters,
                BenchStep::Measure,
                BenchStep::Report,
            ]
            &&& moe@ == seq![BenchStep::ParseShards, BenchStep::Connect] + loads + prompt + seq![
                BenchStep::Warmup,
                BenchStep::Measure,
                BenchStep::Report,
            ]
        }),
{
    let loads = seq![
        BenchStep::LoadWeights,
        BenchStep::LoadTokenizer,
        BenchStep::LoadIndex,
        BenchStep::LoadAttention,
        BenchStep::LoadInterleaved,
        BenchStep::LoadLmHead,
    ];
    let prompt = seq![BenchStep::RenderPrompt, BenchStep::EncodePrompt];
    assert(ffn@ =~= loads + seq![BenchStep::Connect] + prompt + seq![
        BenchStep::Warmup,
        BenchStep::ResetCounters,
        BenchStep::Measure,
        BenchStep::Report,
    ]);
    assert(moe@ =~= seq![BenchStep::ParseShards, BenchStep::Connect] + loads + prompt + seq![
        BenchStep::Warmup,
        BenchStep::Measure,
        BenchStep::Report,
    ]);
}

/// A run starts at the first step of its plan, and the step to be taken is the one it has come to.
pub proof fn law_runs_follow_their_plan(
    kind: BenchKind,
    steps: Vec<BenchStep>,
    fresh: BenchProgress,
    run: &BenchProgress,
    step: Option<BenchStep>,
)
    requires
        call_ensures(bench_plan, (kind,), steps),
        call_ensures(BenchProgress::start, (kind,), fresh),
        run@.kind == kind,
        run.wf(),
        call_ensures(BenchProgress::step, (run,), step),
    ensures
        fresh.wf() && fresh@.kind == kind && fresh@.at == 0,
        run@.at < steps@.len() ==> step == Some(steps@[run@.at as int]),
        run@.at >= steps@.len() ==> step is None,
{
}

/// A step that succeeded leads to the next one.  A failure is passed over where the step is one
/// whose result is not needed: the output head, the rendered prompt, and the runs that are dropped;
/// any other failure is told with its cause at its end, and the run stays where it is.
pub proof fn law_failures_stop_a_run_unless_nothing_is_lost(
    run: &mut BenchProgress,
    failure: Option<&str>,
    step: BenchStep,
    r: Result<(), String>,
)
    requires
        old(run).wf(),
        old(run)@.at < plan(old(run)@.kind).len(),
        step == plan(old(run)@.kind)[old(run)@.at as int],
        call_ensures(BenchProgress::advance, (run, failure), r),
    ensures
        ({
            let passes = step is LoadLmHead || step is RenderPrompt || step is Prewarm
                || step is Warmup;
            &&& final(run).wf() && final(run)@.kind == old(run)@.kind
            &&& failure is None || passes ==> r is Ok && final(run)@.at == old(run)@.at + 1
            &&& failure matches Some(cause) ==> !passes ==> {
                &&& r is Err && final(run)@.at == old(run)@.at
                &&& cause@.is_suffix_of(r->Err_0@)
            }
        }),
{
    if let Some(cause) = failure {
        let passes = step is LoadLmHead || step is RenderPrompt || step is Prewarm || step is Warmup;
        if !passes {
            let said = r->Err_0@;
            assert(said.skip(said.len() - cause@.len()) =~= cause@);
            assert(cause@.is_suffix_of(said));
        }
    }
}

/// A failure is introduced by what failed: the kinds of runs have their words for the steps that
/// load, connect, encode and measure, and none for the others.
pub proof fn law_failures_are_introduced(
    run: &mut BenchProgress,
    cause: &str,
    step: BenchStep,
    r: Result<(), String>,
)
    requires
        old(run).wf(),
        old(run)@.at < plan(old(run)@.kind).len(),
        step == plan(old(run)@.kind)[old(run)@.at as int],
        call_ensures(BenchProgress::advance, (run, Some(cause)), r),
        r is Err,
    ensures
        ({
            let kind = old(run)@.kind;
            let said = r->Err_0@;
            let remote = !(kind is Local);
            &&& step is EncodePrompt && kind is Local ==> said == "tokenize: "@ + cause@
            &&& step is EncodePrompt && remote ==> said == "tokenise: "@ + cause@
            &&& step is LoadWeights && remote ==> said == "failed to load client weights: "@ + cause@
            &&& step is LoadTokenizer && remote ==> said == "failed to load tokenizer: "@ + cause@
            &&& step is LoadIndex && remote ==> said == "failed to load vindex: "@ + cause@
            &&& step is Connect && kind is RemoteFfn ==> said == "failed to connect to remote FFN: "@
                + cause@
            &&& step is Connect && kind is RemoteMoe ==> said == "failed to connect to MoE shards: "@
                + cause@
            &&& step is Measure && kind is RemoteMoe ==> said == "moe bench generate failed: "@
                + cause@
            &&& step is Measure && kind == (BenchKind::RemoteFfn { is_batch: true }) ==> said
                == "remote-ffn generate failed (batch): "@ + cause@
            &&& step is Measure && kind == (BenchKind::RemoteFfn { is_batch: false }) ==> said
                == "remote-ffn generate failed: "@ + cause@
            &&& kind is Local && !(step is EncodePrompt) ==> said == cause@
            &&& step is LoadAttention || step is LoadInterleaved || step is ParseShards || step
                is CheckFormat || step is OpenBackend || step is LoadConfig || step
                is ResetCounters || step is Report ==> said == cause@
        }),
{
    let said = r->Err_0@;
    assert(Seq::<char>::empty() + cause@ =~= cause@);
}

/// A prewarm generates one token, a warmup its own tokens but at least one, and the measurement the
/// warmup's and the measured ones; nothing else generates any.
pub proof fn law_generated_tokens(step: BenchStep, warmup: usize, tokens: usize, r: Option<usize>)
    requires
        step is Measure ==> warmup + tokens <= usize::MAX,
        call_ensures(tokens_asked, (step, warmup, tokens), r),
    ensures
        step is Prewarm ==> r == Some(1usize),
        step is Warmup && warmup == 0 ==> r == Some(1usize),
        step is Warmup && warmup > 0 ==> r == Some(warmup),
        step is Measure ==> r is Some && r->0 == warmup + tokens,
        !(step is Prewarm) && !(step is Warmup) && !(step is Measure) ==> r is None,
{
}

/// A batch of feed-forward blocks takes one round and one of experts as many as are asked for, but
/// at least one; streams and local runs take none.
pub proof fn law_rounds_of_a_batch(kind: BenchKind, iterations: usize, r: Option<usize>)
    requires
        call_ensures(batch_rounds, (kind, iterations), r),
    ensures
        kind == (BenchKind::RemoteFfn { is_batch: true }) ==> r == Some(1usize),
        kind == (BenchKind::RemoteMoe { is_batch: true }) && iterations == 0 ==> r == Some(1usize),
        kind == (BenchKind::RemoteMoe { is_batch: true }) && iterations > 0 ==> r == Some(
            iterations,
        ),
        kind is Local || kind == (BenchKind::RemoteFfn { is_batch: false }) || kind == (
        BenchKind::RemoteMoe { is_batch: false }) ==> r is None,
{
}

/// The rendered prompt is encoded where there is one, else the raw one; and one endpoint is not
/// several.
pub proof fn law_prompts_and_endpoints(
    rendered: Option<String>,
    raw: &str,
    prompt: String,
    n: usize,
    line: String,
)
    requires
        call_ensures(prompt_to_encode, (rendered, raw), prompt),
        call_ensures(endpoints_line, (n,), line),
    ensures
        rendered matches Some(text) ==> prompt@ == text@,
        rendered is None ==> prompt@ == raw@,
        n == 1 ==> line@ == "  Experts:    remote  (sharded across "@ + numeral(1)
            + " endpoint)"@,
        n != 1 ==> line@ == "  Experts:    remote  (sharded across "@ + numeral(n as nat)
            + " endpoints)"@,
{
    reveal_strlit(" endpoint");
    reveal_strlit(" endpoint)");
    reveal_strlit(" endpoints)");
    reveal_strlit("");
    reveal_strlit("s");
    reveal_strlit(")");
    let head = "  Experts:    remote  (sharded across "@ + numeral(n as nat);
    if n == 1 {
        assert(line@ =~= head + " endpoint)"@);
    } else {
        assert(line@ =~= head + " endpoints)"@);
    }
}

} // verus!
