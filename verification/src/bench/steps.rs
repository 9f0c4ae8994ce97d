//! The course of a run: which outside steps it takes, in which order, and what their failures
//! mean.

use crate::bench::remote_moe::at_least_one;
use crate::bench::row::steps_to_run;
use crate::text::{append_numeral, numeral};
use vstd::prelude::*;
use vstd::string::*;

verus! {

/// A kind of run.
#[derive(Clone, Copy, Debug, PartialEq, Eq, Structural)]
pub enum BenchKind {
    /// Everything local, on the accelerator or on the processor.
    Local { metal: bool },
    /// Feed-forward blocks on a remote server.
    RemoteFfn { is_batch: bool },
    /// Expert blocks on remote shards.
    RemoteMoe { is_batch: bool },
}

/// A step of a run that is taken outside the library.
#[derive(Clone, Copy, Debug, PartialEq, Eq, Structural)]
pub enum BenchStep {
    ParseShards,
    Connect,
    LoadWeights,
    LoadTokenizer,
    LoadIndex,
    LoadAttention,
    LoadInterleaved,
    LoadLmHead,
    LoadConfig,
    CheckFormat,
    RenderPrompt,
    EncodePrompt,
    OpenBackend,
    /// A run that fills the caches of the accelerator.
    Prewarm,
    /// A run that is dropped.
    Warmup,
    /// Forgets the bytes that the warmup sent and received.
    ResetCounters,
    Measure,
    Report,
}

/// The steps of a run in order.
pub open spec fn plan(kind: BenchKind) -> Seq<BenchStep> {
    match kind {
        BenchKind::Local { metal } => {
            let opening = seq![
                BenchStep::LoadIndex,
                BenchStep::LoadAttention,
                BenchStep::LoadInterleaved,
                BenchStep::LoadConfig,
                BenchStep::CheckFormat,
                BenchStep::LoadWeights,
                BenchStep::LoadTokenizer,
                BenchStep::RenderPrompt,
                BenchStep::EncodePrompt,
                BenchStep::OpenBackend,
            ];
            if metal {
                opening + seq![BenchStep::Prewarm, BenchStep::Measure, BenchStep::Report]
            } else {
                opening + seq![BenchStep::Measure, BenchStep::Report]
            }
        },
        BenchKind::RemoteFfn { .. } => seq![
            BenchStep::LoadWeights,
            BenchStep::LoadTokenizer,
            BenchStep::LoadIndex,
            BenchStep::LoadAttention,
            BenchStep::LoadInterleaved,
            BenchStep::LoadLmHead,
            BenchStep::Connect,
            BenchStep::RenderPrompt,
            BenchStep::EncodePrompt,
            BenchStep::Warmup,
            BenchStep::ResetCounters,
            BenchStep::Measure,
            BenchStep::Report,
        ],
        BenchKind::RemoteMoe { .. } => seq![
            BenchStep::ParseShards,
            BenchStep::Connect,
            BenchStep::LoadWeights,
            BenchStep::LoadTokenizer,
            BenchStep::LoadIndex,
            BenchStep::LoadAttention,
            BenchStep::LoadInterleaved,
            BenchStep::LoadLmHead,
            BenchStep::RenderPrompt,
            BenchStep::EncodePrompt,
            BenchStep::Warmup,
            BenchStep::Measure,
            BenchStep::Report,
        ],
    }
}

/// A failure that does not stop a run: a head that is not there, a prompt that is taken raw, and
/// runs whose results are dropped.
pub open spec fn tolerated(step: BenchStep) -> bool {
    step is LoadLmHead || step is RenderPrompt || step is Prewarm || step is Warmup
}

/// What a run says before the cause of a failed step.
pub open spec fn failure_prefix(kind: BenchKind, step: BenchStep) -> Seq<char> {
    match kind {
        BenchKind::Local { .. } => match step {
            BenchStep::EncodePrompt => "tokenize: "@,
            _ => Seq::empty(),
        },
        BenchKind::RemoteFfn { is_batch } => match step {
            BenchStep::LoadWeights => "failed to load client weights: "@,
            BenchStep::LoadTokenizer => "failed to load tokenizer: "@,
            BenchStep::LoadIndex => "failed to load vindex: "@,
            BenchStep::Connect => "failed to connect to remote FFN: "@,
            BenchStep::EncodePrompt => "tokenise: "@,
            BenchStep::Measure => if is_batch {
                "remote-ffn generate failed (batch): "@
            } else {
                "remote-ffn generate failed: "@
            },
            _ => Seq::empty(),
        },
        BenchKind::RemoteMoe { .. } => match step {
            BenchStep::LoadWeights => "failed to load client weights: "@,
            BenchStep::LoadTokenizer => "failed to load tokenizer: "@,
            BenchStep::LoadIndex => "failed to load vindex: "@,
            BenchStep::Connect => "failed to connect to MoE shards: "@,
            BenchStep::EncodePrompt => "tokenise: "@,
            BenchStep::Measure => "moe bench generate failed: "@,
            _ => Seq::empty(),
        },
    }
}

/// The steps of a run in order.
pub fn bench_plan(kind: BenchKind) -> (r: Vec<BenchStep>)
    ensures
        r@ == plan(kind),
{
    let r = match kind {
        BenchKind::Local { metal } => {
            let mut steps = vec![
                BenchStep::LoadIndex,
                BenchStep::LoadAttention,
                BenchStep::LoadInterleaved,
                BenchStep::LoadConfig,
                BenchStep::CheckFormat,
                BenchStep::LoadWeights,
                BenchStep::LoadTokenizer,
                BenchStep::RenderPrompt,
                BenchStep::EncodePrompt,
                BenchStep::OpenBackend,
            ];
            if metal {
                steps.push(BenchStep::Prewarm);
            }
            steps.push(BenchStep::Measure);
            steps.push(BenchStep::Report);
            steps
        },
        BenchKind::RemoteFfn { .. } => vec![
            BenchStep::LoadWeights,
            BenchStep::LoadTokenizer,
            BenchStep::LoadIndex,
            BenchStep::LoadAttention,
            BenchStep::LoadInterleaved,
            BenchStep::LoadLmHead,
            BenchStep::Connect,
            BenchStep::RenderPrompt,
            BenchStep::EncodePrompt,
            BenchStep::Warmup,
            BenchStep::ResetCounters,
            BenchStep::Measure,
            BenchStep::Report,
        ],
        BenchKind::RemoteMoe { .. } => vec![
            BenchStep::ParseShards,
            BenchStep::Connect,
            BenchStep::LoadWeights,
            BenchStep::LoadTokenizer,
            BenchStep::LoadIndex,
            BenchStep::LoadAttention,
            BenchStep::LoadInterleaved,
            BenchStep::LoadLmHead,
            BenchStep::RenderPrompt,
            BenchStep::EncodePrompt,
            BenchStep::Warmup,
            BenchStep::Measure,
            BenchStep::Report,
        ],
    };
    assert(r@ =~= plan(kind));
    r
}

fn prefix_of(kind: BenchKind, step: BenchStep) -> (r: &'static str)
    ensures
        r@ == failure_prefix(kind, step),
{
    proof {
        reveal_strlit("");
        assert(""@ =~= Seq::<char>::empty());
    }
    match kind {
        BenchKind::Local { .. } => match step {
            BenchStep::EncodePrompt => "tokenize: ",
            _ => "",
        },
        BenchKind::RemoteFfn { is_batch } => match step {
            BenchStep::LoadWeights => "failed to load client weights: ",
            BenchStep::LoadTokenizer => "failed to load tokenizer: ",
            BenchStep::LoadIndex => "failed to load vindex: ",
            BenchStep::Connect => "failed to connect to remote FFN: ",
            BenchStep::EncodePrompt => "tokenise: ",
            BenchStep::Measure => if is_batch {
                "remote-ffn generate failed (batch): "
            } else {
                "remote-ffn generate failed: "
            },
            _ => "",
        },
        BenchKind::RemoteMoe { .. } => match step {
            BenchStep::LoadWeights => "failed to load client weights: ",
            BenchStep::LoadTokenizer => "failed to load tokenizer: ",
            BenchStep::LoadIndex => "failed to load vindex: ",
            BenchStep::Connect => "failed to connect to MoE shards: ",
            BenchStep::EncodePrompt => "tokenise: ",
            BenchStep::Measure => "moe bench generate failed: ",
            _ => "",
        },
    }
}

/// A run on its way through its plan.
pub struct BenchProgress {
    kind: BenchKind,
    steps: Vec<BenchStep>,
    at: usize,
}

/// Where a run stands in its plan; at the end of the plan it is over.
#[verifier::ext_equal]
pub struct ProgressModel {
    pub kind: BenchKind,
    pub at: nat,
}

impl ProgressModel {
    pub open spec fn wf(self) -> bool {
        self.at <= plan(self.kind).len()
    }

    pub open spec fn is_over(self) -> bool {
        self.at == plan(self.kind).len()
    }

    /// The step that is to be taken.
    pub open spec fn step(self) -> Option<BenchStep> {
        if self.at < plan(self.kind).len() {
            Some(plan(self.kind)[self.at as int])
        } else {
            None
        }
    }

    pub open spec fn advanced(self) -> ProgressModel {
        ProgressModel { at: self.at + 1, ..self }
    }
}

impl View for BenchProgress {
    type V = ProgressModel;

    closed spec fn view(&self) -> ProgressModel {
        ProgressModel { kind: self.kind, at: self.at as nat }
    }
}

impl BenchProgress {
    pub closed spec fn wf(&self) -> bool {
        self@.wf() && self.steps@ == plan(self.kind)
    }

    /// A run at its first step.
    pub fn start(kind: BenchKind) -> (r: BenchProgress)
        ensures
            r.wf(),
            r@ == (ProgressModel { kind, at: 0 }),
    {
        BenchProgress { kind, steps: bench_plan(kind), at: 0 }
    }

    /// The step that is to be taken, none when the run is over.
    pub fn step(&self) -> (r: Option<BenchStep>)
        requires
            self.wf(),
        ensures
            r == self@.step(),
    {
        if self.at < self.steps.len() {
            Some(self.steps[self.at])
        } else {
            None
        }
    }

    /// Takes the outcome of the step: moves on after a success or a failure that is tolerated,
    /// and stays where it is with a message after any other failure.
    pub fn advance(&mut self, failure: Option<&str>) -> (r: Result<(), String>)
        requires
            old(self).wf(),
            !old(self)@.is_over(),
        ensures
            final(self).wf(),
            ({
                let step = plan(old(self)@.kind)[old(self)@.at as int];
                match failure {
                    Some(cause) => if tolerated(step) {
                        r is Ok && final(self)@ == old(self)@.advanced()
                    } else {
                        &&& r is Err
                        &&& r->Err_0@ == failure_prefix(old(self)@.kind, step) + cause@
                        &&& final(self)@ == old(self)@
                    },
                    None => r is Ok && final(self)@ == old(self)@.advanced(),
                }
            }),
    {
        let step = self.steps[self.at];
        if let Some(cause) = failure {
            let passes = match step {
                BenchStep::LoadLmHead => true,
                BenchStep::RenderPrompt => true,
                BenchStep::Prewarm => true,
                BenchStep::Warmup => true,
                _ => false,
            };
            if !passes {
                let mut message: String = prefix_of(self.kind, step).to_owned();
                message.append(cause);
                return Err(message);
            }
        }
        self.at = self.at + 1;
        Ok(())
    }
}

/// How many tokens a step generates: one to fill the caches, the warmup but at least one for the
/// run that is dropped, and the warmup with the measured ones for the measurement; other steps
/// generate nothing.
pub open spec fn generated_tokens(step: BenchStep, warmup: int, tokens: int) -> Option<int> {
    match step {
        BenchStep::Prewarm => Some(1),
        BenchStep::Warmup => Some(
            if warmup < 1 {
                1
            } else {
                warmup
            },
        ),
        BenchStep::Measure => Some(warmup + tokens),
        _ => None,
    }
}

/// How many tokens a step asks for, none where it generates nothing.
pub fn tokens_asked(step: BenchStep, warmup: usize, tokens: usize) -> (r: Option<usize>)
    requires
        step is Measure ==> warmup + tokens <= usize::MAX,
    ensures
        match generated_tokens(step, warmup as int, tokens as int) {
            Some(n) => r matches Some(asked) && asked == n,
            None => r is None,
        },
{
    match step {
        BenchStep::Prewarm => Some(1),
        BenchStep::Warmup => Some(at_least_one(warmup)),
        BenchStep::Measure => Some(steps_to_run(warmup, tokens)),
        _ => None,
    }
}

/// The dispatch rounds of a batch: one for feed-forward blocks, as many as are asked for but at
/// least one for experts.  A stream has none, and neither has a local run.
pub fn batch_rounds(kind: BenchKind, iterations: usize) -> (r: Option<usize>)
    ensures
        r == (match kind {
            BenchKind::Local { .. } => None,
            BenchKind::RemoteFfn { is_batch } => if is_batch {
                Some(1usize)
            } else {
                None
            },
            BenchKind::RemoteMoe { is_batch } => if !is_batch {
                None
            } else if iterations < 1 {
                Some(1usize)
            } else {
                Some(iterations)
            },
        }),
{
    match kind {
        BenchKind::Local { .. } => None,
        BenchKind::RemoteFfn { is_batch } => if is_batch {
            Some(1)
        } else {
            None
        },
        BenchKind::RemoteMoe { is_batch } => if is_batch {
            Some(at_least_one(iterations))
        } else {
            None
        },
    }
}

/// The prompt that is encoded: the rendered one, or the raw one where it could not be rendered.
pub fn prompt_to_encode(rendered: Option<String>, raw: &str) -> (r: String)
    ensures
        r@ == (match rendered {
            Some(text) => text@,
            None => raw@,
        }),
{
    match rendered {
        Some(text) => text,
        None => raw.to_owned(),
    }
}

/// The line that tells how many endpoints serve the experts.
pub fn endpoints_line(num_shards: usize) -> (r: String)
    ensures
        r@ == "  Experts:    remote  (sharded across "@ + numeral(num_shards as nat)
            + " endpoint"@ + (if num_shards == 1 {
            ""@
        } else {
            "s"@
        }) + ")"@,
{
    let mut line: String = "  Experts:    remote  (sharded across ".to_owned();
    append_numeral(&mut line, num_shards);
    line.append(" endpoint");
    line.append(
        if num_shards == 1 {
            ""
        } else {
            "s"
        },
    );
    line.append(")");
    line
}

/// Every run ends with its measurement and its report, and takes no step twice.
pub proof fn law_plans_end_with_a_report(kind: BenchKind)
    ensures
        plan(kind).len() >= 2,
        plan(kind)[plan(kind).len() - 2] == BenchStep::Measure,
        plan(kind).last() == BenchStep::Report,
        plan(kind).no_duplicates(),
{
}

/// A remote run over the wire forgets the bytes of its warmup before it measures.
pub proof fn law_counters_are_reset_between_warmup_and_measurement(is_batch: bool)
    ensures
        ({
            let p = plan(BenchKind::RemoteFfn { is_batch });
            exists|i: int|
                0 < i < p.len() - 1 && p[i - 1] == BenchStep::Warmup && #[trigger] p[i]
                    == BenchStep::ResetCounters && p[i + 1] == BenchStep::Measure
        }),
{
    let p = plan(BenchKind::RemoteFfn { is_batch });
    assert(p[10] == BenchStep::ResetCounters);
}

} // verus!
