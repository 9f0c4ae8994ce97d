//! The run of a key-value engine: prefill, a fixed number of greedy decode steps, a report.

use crate::arith::{follows_64, Arith64, Model64};
use crate::bench::row::{decode_stats, measured, measured_window, step_stats, BenchRow, RowModel};
use crate::float::{zero_64, F32, F64};
use crate::text::{contains_text, occurs};
use vstd::prelude::*;
use vstd::string::*;

verus! {

/// Encoding of the double-precision `1048576.0`, the bytes of a megabyte.
pub const MEGABYTE_BITS: u64 = 0x4130_0000_0000_0000;

/// The place at which a running maximum over a list ends up: it moves on to every value that it
/// is not above.
pub open spec fn last_max(s: Seq<F32>) -> int
    decreases s.len(),
{
    if s.len() <= 1 {
        0
    } else {
        let before = last_max(s.drop_last());
        if s.last().below(s[before]) {
            before
        } else {
            s.len() - 1
        }
    }
}

/// A running maximum ends up within its list.
pub proof fn lemma_last_max_in_range(s: Seq<F32>)
    requires
        s.len() > 0,
    ensures
        0 <= last_max(s) < s.len(),
    decreases s.len(),
{
    if s.len() > 1 {
        lemma_last_max_in_range(s.drop_last());
    }
}

/// The token with the largest logit, the last one of equals; token 0 where there are no logits.
pub fn argmax_token(logits: &[F32]) -> (r: u32)
    ensures
        r == last_max(logits@) as u32,
        logits.len() == 0 ==> r == 0,
        0 < logits.len() <= 0x1_0000_0000 ==> r < logits.len() && r == last_max(logits@),
{
    if logits.len() == 0 {
        return 0;
    }
    let mut best: usize = 0;
    let mut i: usize = 1;
    assert(last_max(logits@.take(1)) == 0);
    while i < logits.len()
        invariant
            1 <= i <= logits.len(),
            best < i,
            best == last_max(logits@.take(i as int)),
        decreases logits.len() - i,
    {
        assert(logits@.take(i + 1).drop_last() =~= logits@.take(i as int));
        if !logits[i].is_below(logits[best]) {
            best = i;
        }
        i = i + 1;
    }
    assert(logits@.take(logits.len() as int) =~= logits@);
    #[verifier::truncate]
    (best as u32)
}

/// Among logits that are numbers the chosen one is a largest, and every later one is smaller.
pub proof fn law_chosen_token_is_the_last_largest(logits: Seq<F32>, j: int)
    requires
        0 <= j < logits.len(),
        forall|i: int| 0 <= i < logits.len() ==> !(#[trigger] logits[i]).is_not_a_number(),
    ensures
        0 <= last_max(logits) < logits.len(),
        !logits[last_max(logits)].below(logits[j]),
        j > last_max(logits) ==> logits[j].below(logits[last_max(logits)]),
    decreases logits.len(),
{
    lemma_last_max_in_range(logits);
    if logits.len() > 1 {
        let shorter = logits.drop_last();
        assert forall|i: int| 0 <= i < shorter.len() implies !(
        #[trigger] shorter[i]).is_not_a_number() by {
            assert(shorter[i] == logits[i]);
        }
        lemma_last_max_in_range(shorter);
        assert(shorter[last_max(shorter)] == logits[last_max(shorter)]);
        if j < logits.len() - 1 {
            law_chosen_token_is_the_last_largest(shorter, j);
            assert(shorter[j] == logits[j]);
        }
    }
}

/// Picks the next token: the first candidate of the output head, or the largest logit where the
/// head offers none.
pub fn pick_next(top: Option<u32>, logits: &[F32]) -> (r: u32)
    ensures
        r == (match top {
            Some(token) => token,
            None => last_max(logits@) as u32,
        }),
{
    match top {
        Some(token) => token,
        None => argmax_token(logits),
    }
}

/// Whether the list of requested backends names the accelerator.
pub fn wants_metal(backends: &str) -> (r: bool)
    ensures
        r == occurs(backends@, "metal"@),
{
    contains_text(backends, "metal")
}

/// The label of an engine run: name, backend, configuration if there is one, and the weight
/// format.
pub open spec fn engine_label_text(
    name: Seq<char>,
    backend: Seq<char>,
    config: Seq<char>,
    q4k: bool,
) -> Seq<char> {
    name + " ["@ + backend + "]"@ + (if config.len() == 0 {
        Seq::empty()
    } else {
        " ("@ + config + ")"@
    }) + (if q4k {
        " Q4K"@
    } else {
        Seq::empty()
    })
}

/// The label of an engine run.
pub fn engine_label(name: &str, backend: &str, config: &str, q4k: bool) -> (r: String)
    ensures
        r@ == engine_label_text(name@, backend@, config@, q4k),
{
    let mut label: String = name.to_owned();
    label.append(" [");
    label.append(backend);
    label.append("]");
    if config.unicode_len() != 0 {
        label.append(" (");
        label.append(config);
        label.append(")");
    }
    if q4k {
        label.append(" Q4K");
    }
    assert(label@ =~= engine_label_text(name@, backend@, config@, q4k));
    label
}

/// The memory that is not cold.
pub open spec fn hot_bytes(total_bytes: usize, cold_bytes: usize) -> usize {
    if cold_bytes < total_bytes {
        (total_bytes - cold_bytes) as usize
    } else {
        0
    }
}

/// How many times the memory of the engine goes into the reference, zero for an engine without.
pub open spec fn memory_ratio(m: Model64, kv_ref_bytes: usize, total_bytes: usize) -> F64 {
    if total_bytes > 0 {
        (m.quotient)((m.from_count)(kv_ref_bytes), (m.from_count)(total_bytes))
    } else {
        zero_64()
    }
}

pub open spec fn megabytes(m: Model64, bytes: usize) -> F64 {
    (m.quotient)((m.from_count)(bytes), F64 { bits: MEGABYTE_BITS })
}

/// The note on an engine's memory.
pub open spec fn memory_note_text(
    m: Model64,
    kv_ref_bytes: usize,
    total_bytes: usize,
    cold_bytes: usize,
) -> Seq<char> {
    "hot="@ + (m.fixed)(megabytes(m, hot_bytes(total_bytes, cold_bytes)), 1) + "MB cold="@ + (
    m.fixed)(megabytes(m, cold_bytes), 1) + "MB  "@ + (m.fixed)(
        memory_ratio(m, kv_ref_bytes, total_bytes),
        0,
    ) + "× vs std-kv"@
}

/// In every model of the arithmetic `said` is the note on the memory.
pub open spec fn notes_memory<A: Arith64>(
    arith: &A,
    kv_ref_bytes: usize,
    total_bytes: usize,
    cold_bytes: usize,
    said: Seq<char>,
) -> bool {
    forall|m: Model64| #[trigger]
        follows_64(arith, m) ==> said == memory_note_text(m, kv_ref_bytes, total_bytes, cold_bytes)
}

/// The note on an engine's memory: hot and cold megabytes, and the ratio to the reference cache.
pub fn memory_note<A: Arith64>(
    kv_ref_bytes: usize,
    total_bytes: usize,
    cold_bytes: usize,
    arith: &A,
) -> (r: String)
    ensures
        notes_memory(arith, kv_ref_bytes, total_bytes, cold_bytes, r@),
{
    let hot: usize = if cold_bytes < total_bytes {
        total_bytes - cold_bytes
    } else {
        0
    };
    let ratio = if total_bytes > 0 {
        arith.quotient(arith.from_count(kv_ref_bytes), arith.from_count(total_bytes))
    } else {
        F64 { bits: 0 }
    };
    let megabyte = F64 { bits: MEGABYTE_BITS };
    let hot_text = arith.fixed(arith.quotient(arith.from_count(hot), megabyte), 1);
    let cold_text = arith.fixed(arith.quotient(arith.from_count(cold_bytes), megabyte), 1);
    let ratio_text = arith.fixed(ratio, 0);
    let mut note: String = "hot=".to_owned();
    note.append(hot_text.as_str());
    note.append("MB cold=");
    note.append(cold_text.as_str());
    note.append("MB  ");
    note.append(ratio_text.as_str());
    note.append("× vs std-kv");
    note
}

/// Where an engine run stands.
#[derive(Clone, Copy, Debug, PartialEq, Eq, Structural)]
pub enum EnginePhase {
    /// The prompt is to be prefilled.
    Prefill,
    /// Steps are being decoded.
    Decode,
    /// All steps are done.
    Report,
    /// The engine failed.
    Failed,
}

/// What the driver of an engine does next.
#[derive(Clone, Copy, Debug, PartialEq, Eq, Structural)]
pub enum EngineAction {
    /// Decode one step, from this token.
    Decode { token: u32 },
    /// Report the run.
    Report,
}

/// A run of an engine: its plan and what it has measured so far.
pub struct EngineRun {
    q4k: bool,
    warmup: usize,
    tokens: usize,
    phase: EnginePhase,
    prefill_ms: F64,
    decode_ms: Vec<F64>,
}

/// What a run has come to.
#[verifier::ext_equal]
pub struct EngineModel {
    pub q4k: bool,
    pub warmup: nat,
    pub tokens: nat,
    pub phase: EnginePhase,
    pub prefill_ms: F64,
    pub decode_ms: Seq<F64>,
}

impl EngineModel {
    /// A count can say how many steps are planned.
    pub open spec fn countable(self) -> bool {
        self.warmup + self.tokens <= usize::MAX
    }

    /// As many steps as planned are done when the run reports, and fewer before.
    pub open spec fn wf(self) -> bool {
        &&& self.phase is Decode || self.phase is Report ==> self.countable()
        &&& self.phase is Prefill ==> self.decode_ms.len() == 0
        &&& self.phase is Decode ==> self.decode_ms.len() < self.warmup + self.tokens
        &&& self.phase is Report ==> self.decode_ms.len() == self.warmup + self.tokens
    }

    /// The phase after `done` steps.
    pub open spec fn phase_after(self, done: nat) -> EnginePhase {
        if done < self.warmup + self.tokens {
            EnginePhase::Decode
        } else {
            EnginePhase::Report
        }
    }

    /// The run after a prefill that took `ms`.
    pub open spec fn prefilled(self, ms: F64) -> EngineModel {
        EngineModel { prefill_ms: ms, phase: self.phase_after(0), ..self }
    }

    /// The run after a step that took `ms`.
    pub open spec fn stepped(self, ms: F64) -> EngineModel {
        EngineModel {
            decode_ms: self.decode_ms.push(ms),
            phase: self.phase_after(self.decode_ms.len() + 1),
            ..self
        }
    }

    /// The run after the engine failed.
    pub open spec fn failed(self) -> EngineModel {
        EngineModel { phase: EnginePhase::Failed, ..self }
    }

    /// What is done next when `token` is the next one: a step while steps are left.
    pub open spec fn action(self, token: u32) -> EngineAction {
        if self.phase is Decode {
            EngineAction::Decode { token }
        } else {
            EngineAction::Report
        }
    }

    /// The run after steps that took these times.
    pub open spec fn stepped_through(self, times: Seq<F64>) -> EngineModel
        decreases times.len(),
    {
        if times.len() == 0 {
            self
        } else {
            self.stepped_through(times.drop_last()).stepped(times.last())
        }
    }
}

/// What is said of an engine whose prefill failed.
pub open spec fn prefill_failure(q4k: bool) -> Seq<char> {
    if q4k {
        "Q4K engine prefill failed"@
    } else {
        "engine prefill failed"@
    }
}

/// What is said of an engine that failed to decode a step.
pub open spec fn decode_failure(q4k: bool) -> Seq<char> {
    if q4k {
        "Q4K engine decode_step failed"@
    } else {
        "engine decode_step failed"@
    }
}

/// The summary of a finished engine run.
pub open spec fn engine_row<S>(
    m: Model64,
    run: EngineModel,
    label: Seq<char>,
    note: Seq<char>,
) -> RowModel<S> {
    let stats = step_stats(m, measured(run.decode_ms, run.warmup as int));
    RowModel {
        backend: label,
        prefill_ms: run.prefill_ms,
        avg_decode_ms: stats.avg_ms,
        p50_ms: stats.p50_ms,
        p99_ms: stats.p99_ms,
        tok_per_s: stats.tok_per_s,
        stages: None,
        ffn_rtt_ms: None,
        attn_ms: None,
        wire_bytes_per_tok: None,
        shard_efficiency: None,
        n_steps: stats.n_steps as nat,
        note,
    }
}

/// In every model of the arithmetic `said` is the summary row of the run.
pub open spec fn reports_engine<S, A: Arith64>(
    arith: &A,
    run: EngineModel,
    label: Seq<char>,
    note: Seq<char>,
    said: RowModel<S>,
) -> bool {
    forall|m: Model64| #[trigger]
        follows_64(arith, m) ==> said == engine_row::<S>(m, run, label, note)
}

impl View for EngineRun {
    type V = EngineModel;

    closed spec fn view(&self) -> EngineModel {
        EngineModel {
            q4k: self.q4k,
            warmup: self.warmup as nat,
            tokens: self.tokens as nat,
            phase: self.phase,
            prefill_ms: self.prefill_ms,
            decode_ms: self.decode_ms@,
        }
    }
}

impl EngineRun {
    /// A run of `warmup` steps that are dropped and `tokens` that are measured.
    pub fn new(q4k: bool, warmup: usize, tokens: usize) -> (r: EngineRun)
        ensures
            r@.wf(),
            r@ == (EngineModel {
                q4k,
                warmup: warmup as nat,
                tokens: tokens as nat,
                phase: EnginePhase::Prefill,
                prefill_ms: zero_64(),
                decode_ms: Seq::empty(),
            }),
    {
        let r = EngineRun {
            q4k,
            warmup,
            tokens,
            phase: EnginePhase::Prefill,
            prefill_ms: F64 { bits: 0 },
            decode_ms: Vec::new(),
        };
        assert(r@.decode_ms =~= Seq::<F64>::empty());
        r
    }

    /// Takes the outcome of the prefill: its time and the token that follows, or its failure.
    pub fn on_prefill(&mut self, outcome: Option<(F64, u32)>) -> (r: Result<EngineAction, String>)
        requires
            old(self)@.wf(),
            old(self)@.phase is Prefill,
            outcome is Some ==> old(self)@.countable(),
        ensures
            final(self)@.wf(),
            match outcome {
                Some((ms, token)) => {
                    &&& final(self)@ == old(self)@.prefilled(ms)
                    &&& r == Ok::<EngineAction, String>(final(self)@.action(token))
                },
                None => {
                    &&& final(self)@ == old(self)@.failed()
                    &&& r is Err
                    &&& r->Err_0@ == prefill_failure(old(self)@.q4k)
                },
            },
    {
        match outcome {
            Some((ms, token)) => {
                self.prefill_ms = ms;
                if self.warmup + self.tokens > 0 {
                    self.phase = EnginePhase::Decode;
                    Ok(EngineAction::Decode { token })
                } else {
                    self.phase = EnginePhase::Report;
                    Ok(EngineAction::Report)
                }
            },
            None => {
                self.phase = EnginePhase::Failed;
                if self.q4k {
                    Err("Q4K engine prefill failed".to_owned())
                } else {
                    Err("engine prefill failed".to_owned())
                }
            },
        }
    }

    /// Takes the outcome of a step: its time and the token that follows, or its failure.
    pub fn on_step(&mut self, outcome: Option<(F64, u32)>) -> (r: Result<EngineAction, String>)
        requires
            old(self)@.wf(),
            old(self)@.phase is Decode,
        ensures
            final(self)@.wf(),
            match outcome {
                Some((ms, token)) => {
                    &&& final(self)@ == old(self)@.stepped(ms)
                    &&& r == Ok::<EngineAction, String>(final(self)@.action(token))
                },
                None => {
                    &&& final(self)@ == old(self)@.failed()
                    &&& r is Err
                    &&& r->Err_0@ == decode_failure(old(self)@.q4k)
                },
            },
    {
        match outcome {
            Some((ms, token)) => {
                self.decode_ms.push(ms);
                if self.decode_ms.len() < self.warmup + self.tokens {
                    Ok(EngineAction::Decode { token })
                } else {
                    self.phase = EnginePhase::Report;
                    Ok(EngineAction::Report)
                }
            },
            None => {
                self.phase = EnginePhase::Failed;
                if self.q4k {
                    Err("Q4K engine decode_step failed".to_owned())
                } else {
                    Err("engine decode_step failed".to_owned())
                }
            },
        }
    }

    /// The summary of the run.
    pub fn report<S, A: Arith64>(&self, label: String, note: String, arith: &A) -> (r: BenchRow<S>)
        ensures
            reports_engine::<S, A>(arith, self@, label@, note@, r@),
            r.n_steps == measured(self@.decode_ms, self@.warmup as int).len(),
            r.backend@ == label@,
            r.note@ == note@,
            r.prefill_ms == self@.prefill_ms,
            r.n_steps == 0 ==> r.avg_decode_ms == zero_64() && r.p50_ms == zero_64() && r.p99_ms
                == zero_64() && r.tok_per_s == zero_64(),
            r.n_steps > 0 ==> measured(self@.decode_ms, self@.warmup as int).contains(r.p50_ms)
                && measured(self@.decode_ms, self@.warmup as int).contains(r.p99_ms),
            r.stages is None,
            r.ffn_rtt_ms is None,
            r.attn_ms is None,
            r.wire_bytes_per_tok is None,
            r.shard_efficiency is None,
    {
        let window = measured_window(self.decode_ms.as_slice(), self.warmup);
        let stats = decode_stats(window, arith);
        BenchRow {
            backend: label,
            prefill_ms: self.prefill_ms,
            avg_decode_ms: stats.avg_ms,
            p50_ms: stats.p50_ms,
            p99_ms: stats.p99_ms,
            tok_per_s: stats.tok_per_s,
            stages: None,
            ffn_rtt_ms: None,
            attn_ms: None,
            wire_bytes_per_tok: None,
            shard_efficiency: None,
            n_steps: stats.n_steps,
            note,
        }
    }
}

/// An engine that does not fail decodes exactly the planned number of steps: before each of them
/// the run asks for a step, after the last it reports, and it has kept every time in order.
pub proof fn law_run_takes_exactly_the_planned_steps(run: EngineModel, ms: F64, times: Seq<F64>)
    requires
        run.wf(),
        run.phase is Prefill,
        run.countable(),
        times.len() <= run.warmup + run.tokens,
    ensures
        ({
            let end = run.prefilled(ms).stepped_through(times);
            &&& end.decode_ms == times
            &&& end.prefill_ms == ms
            &&& end.wf()
            &&& end.phase is Report <==> times.len() == run.warmup + run.tokens
            &&& end.phase is Decode <==> times.len() < run.warmup + run.tokens
        }),
    decreases times.len(),
{
    let start = run.prefilled(ms);
    lemma_plan_is_kept(start, times);
    if times.len() == 0 {
        assert(start.decode_ms =~= times);
    } else {
        law_run_takes_exactly_the_planned_steps(run, ms, times.drop_last());
        lemma_plan_is_kept(start, times.drop_last());
        assert(times.drop_last().push(times.last()) =~= times);
    }
}

/// Steps leave the plan and the prefill time alone.
proof fn lemma_plan_is_kept(run: EngineModel, times: Seq<F64>)
    ensures
        run.stepped_through(times).warmup == run.warmup,
        run.stepped_through(times).tokens == run.tokens,
        run.stepped_through(times).q4k == run.q4k,
        run.stepped_through(times).prefill_ms == run.prefill_ms,
    decreases times.len(),
{
    if times.len() > 0 {
        lemma_plan_is_kept(run, times.drop_last());
    }
}

/// A finished run reports exactly the measured tokens: the warmup is dropped, nothing else is.
pub proof fn law_finished_run_measures_its_tokens(run: EngineModel)
    requires
        run.wf(),
        run.phase is Report,
    ensures
        measured(run.decode_ms, run.warmup as int).len() == run.tokens,
        measured(run.decode_ms, run.warmup as int) == run.decode_ms.skip(run.warmup as int),
{
}

} // verus!
