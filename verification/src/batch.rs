//! The output-batching pipeline of one agent. A reader thread pushes raw
//! byte chunks; a scheduled task drains them, accumulates best-effort
//! decoded text, and flushes it under a size/time policy: at once when the
//! accumulator outgrows [`MAX_ACCUM_BYTES`] or the batch interval has
//! already passed, otherwise on the next timer tick. When the stream
//! closes, what remains is flushed once more; a process that never produced
//! output gets one synthetic diagnostic chunk before its terminal status
//! event.
use vstd::prelude::*;

use crate::agents::AgentOutputEvent;
use crate::agents::AgentStatus;
use crate::agents::AgentStatusEvent;
use crate::agents::opt_view;
use vstd::utf8::encode_utf8;

verus! {

/// A flush is forced as soon as the accumulator holds more than this many
/// bytes.
pub const MAX_ACCUM_BYTES: usize = 16384;

/// Accumulated output is flushed at least once per interval, bounding both
/// latency and event rate.
pub const BATCH_INTERVAL_MS: u64 = 32;

/// What `String::from_utf8_lossy` decodes the given bytes to; a function of
/// the bytes alone.
pub uninterp spec fn lossy_decode(bytes: Seq<u8>) -> Seq<char>;

/// Relies on std's `String::from_utf8_lossy`: best-effort text decoding,
/// invalid sequences replaced, never failing; empty input decodes to the
/// empty string.
#[verifier::external_body]
fn utf8_lossy(bytes: &[u8]) -> (r: String)
    ensures
        r@ == lossy_decode(bytes@),
        bytes@.len() == 0 ==> r@.len() == 0,
{
    String::from_utf8_lossy(bytes).into_owned()
}

/// The batching task's state between events.
pub struct BatchState {
    pub accum: String,
    pub produced_output: bool,
}

pub ghost struct BatchStateV {
    pub accum: Seq<char>,
    pub produced_output: bool,
}

impl View for BatchState {
    type V = BatchStateV;

    open spec fn view(&self) -> BatchStateV {
        BatchStateV { accum: self.accum@, produced_output: self.produced_output }
    }
}

/// Whether a chunk event must flush: the appended accumulator outgrew the
/// size bound, or the batch interval has already passed since the last
/// flush.
pub open spec fn chunk_flushes(appended: Seq<char>, elapsed_ms: u64) -> bool {
    encode_utf8(appended).len() as usize > MAX_ACCUM_BYTES || elapsed_ms >= BATCH_INTERVAL_MS
}

impl BatchState {
    pub fn new() -> (r: BatchState)
        ensures
            r@.accum.len() == 0,
            !r@.produced_output,
    {
        BatchState { accum: String::new(), produced_output: false }
    }

    /// One received chunk: decode it, append it, and flush when the policy
    /// says so. No byte is dropped: what is flushed plus what stays
    /// accumulated is exactly what had accumulated plus the decoded chunk,
    /// in order.
    pub fn on_chunk(&mut self, bytes: &[u8], elapsed_ms: u64) -> (flush: Option<String>)
        ensures
            final(self)@.produced_output,
            ({
                let appended = old(self)@.accum + lossy_decode(bytes@);
                if chunk_flushes(appended, elapsed_ms) {
                    &&& flush matches Some(f) && f@ == appended
                    &&& final(self)@.accum.len() == 0
                } else {
                    &&& flush is None
                    &&& final(self)@.accum == appended
                }
            }),
            step_spec(old(self)@, (BatchEventV::Chunk { bytes: bytes@, elapsed_ms })) == (
                final(self)@,
                match flush {
                    Some(f) => f@,
                    None => Seq::<char>::empty(),
                },
            ),
    {
        self.produced_output = true;
        let decoded = utf8_lossy(bytes);
        self.accum.append(decoded.as_str());
        if self.accum.as_str().len() > MAX_ACCUM_BYTES || elapsed_ms >= BATCH_INTERVAL_MS {
            let data = self.accum.clone();
            self.accum = String::new();
            Some(data)
        } else {
            None
        }
    }

    /// One timer tick: a non-empty accumulator is flushed whole; an empty
    /// one is left alone.
    pub fn on_timer(&mut self) -> (flush: Option<String>)
        ensures
            final(self)@.produced_output == old(self)@.produced_output,
            old(self)@.accum.len() > 0 ==> (flush matches Some(f) && f@ == old(self)@.accum
                && final(self)@.accum.len() == 0),
            old(self)@.accum.len() == 0 ==> (flush is None && final(self)@.accum == old(
                self,
            )@.accum),
            step_spec(old(self)@, BatchEventV::Timer) == (
                final(self)@,
                match flush {
                    Some(f) => f@,
                    None => Seq::<char>::empty(),
                },
            ),
    {
        if !self.accum.as_str().is_empty() {
            let data = self.accum.clone();
            self.accum = String::new();
            Some(data)
        } else {
            None
        }
    }
}

/// One event the batching task wakes on.
pub ghost enum BatchEventV {
    /// The reader thread queued a chunk; `elapsed_ms` is the time since the
    /// last flush.
    Chunk { bytes: Seq<u8>, elapsed_ms: u64 },
    /// The batch-interval timer fired.
    Timer,
}

/// One step of the batching task: the state after the event, and the text
/// flushed by it (empty when nothing was).
pub open spec fn step_spec(st: BatchStateV, ev: BatchEventV) -> (BatchStateV, Seq<char>) {
    match ev {
        BatchEventV::Chunk { bytes, elapsed_ms } => {
            let appended = st.accum + lossy_decode(bytes);
            if chunk_flushes(appended, elapsed_ms) {
                (BatchStateV { accum: Seq::empty(), produced_output: true }, appended)
            } else {
                (BatchStateV { accum: appended, produced_output: true }, Seq::empty())
            }
        },
        BatchEventV::Timer => {
            if st.accum.len() > 0 {
                (BatchStateV { accum: Seq::empty(), produced_output: st.produced_output }, st.accum)
            } else {
                (st, Seq::<char>::empty())
            }
        },
    }
}

/// The batching task run over a whole event trace: the final state, and the
/// concatenation of everything it flushed, in order.
pub open spec fn run_trace(st: BatchStateV, evs: Seq<BatchEventV>) -> (BatchStateV, Seq<char>)
    decreases evs.len(),
{
    if evs.len() == 0 {
        (st, Seq::<char>::empty())
    } else {
        let first = step_spec(st, evs[0]);
        let rest = run_trace(first.0, evs.drop_first());
        (rest.0, first.1 + rest.1)
    }
}

/// The decoded text of every chunk in a trace, in arrival order.
pub open spec fn chunks_decoded(evs: Seq<BatchEventV>) -> Seq<char>
    decreases evs.len(),
{
    if evs.len() == 0 {
        Seq::empty()
    } else {
        (match evs[0] {
            BatchEventV::Chunk { bytes, .. } => lossy_decode(bytes),
            BatchEventV::Timer => Seq::<char>::empty(),
        }) + chunks_decoded(evs.drop_first())
    }
}

/// The pipeline drops no byte and keeps order: over any event trace, what
/// was flushed followed by what still sits accumulated is exactly what had
/// accumulated at the start followed by every received chunk's decoded
/// text, in arrival order.
pub proof fn lemma_pipeline_conserves_output(st: BatchStateV, evs: Seq<BatchEventV>)
    ensures
        run_trace(st, evs).1 + run_trace(st, evs).0.accum == st.accum + chunks_decoded(evs),
    decreases evs.len(),
{
    if evs.len() == 0 {
        assert(run_trace(st, evs).1 + st.accum =~= st.accum + chunks_decoded(evs));
    } else {
        let first = step_spec(st, evs[0]);
        let tail = evs.drop_first();
        lemma_pipeline_conserves_output(first.0, tail);
        let rest = run_trace(first.0, tail);
        assert(run_trace(st, evs).1 == first.1 + rest.1);
        assert(first.1 + first.0.accum =~= st.accum + (match evs[0] {
            BatchEventV::Chunk { bytes, .. } => lossy_decode(bytes),
            BatchEventV::Timer => Seq::<char>::empty(),
        }));
        assert((first.1 + rest.1) + rest.0.accum =~= first.1 + (rest.1 + rest.0.accum));
        assert(first.1 + (first.0.accum + chunks_decoded(tail)) =~= (first.1 + first.0.accum)
            + chunks_decoded(tail));
        assert((st.accum + (match evs[0] {
            BatchEventV::Chunk { bytes, .. } => lossy_decode(bytes),
            BatchEventV::Timer => Seq::<char>::empty(),
        })) + chunks_decoded(tail) =~= st.accum + chunks_decoded(evs));
    }
}

/// The per-agent raw-output channel name.
pub fn agent_channel_name(agent_id: &str) -> (r: String)
    ensures
        r@ == "terminal-out-agent-"@ + agent_id@,
{
    let mut r = String::from_str("terminal-out-agent-");
    r.append(agent_id);
    r
}

/// The synthetic chunk reporting that a process terminated without any
/// output, naming the provider so a missing CLI is easy to diagnose.
pub fn no_output_diagnostic(cli_name: &str) -> (r: String)
    ensures
        r@ == "\r\n\u{1b}[31mError: Agent process terminated without output. Check if '"@
            + cli_name@ + "' CLI is installed.\u{1b}[0m\r\n"@,
{
    let mut r = String::from_str(
        "\r\n\u{1b}[31mError: Agent process terminated without output. Check if '",
    );
    r.append(cli_name);
    r.append("' CLI is installed.\u{1b}[0m\r\n");
    r
}

fn clone_opt_string(o: &Option<String>) -> (r: Option<String>)
    ensures
        opt_view(r) == opt_view(*o),
{
    match o {
        Some(s) => Some(s.clone()),
        None => None,
    }
}

/// Builds one forwarded output event.
pub fn make_output_event(
    agent_id: &str,
    stream: &str,
    line: String,
    timestamp: u64,
    repo_path: &Option<String>,
) -> (ev: AgentOutputEvent)
    ensures
        ev.agent_id@ == agent_id@,
        ev.stream@ == stream@,
        ev.line@ == line@,
        ev.timestamp == timestamp,
        opt_view(ev.repo_path) == opt_view(*repo_path),
{
    AgentOutputEvent {
        agent_id: String::from_str(agent_id),
        stream: String::from_str(stream),
        line,
        timestamp,
        repo_path: clone_opt_string(repo_path),
    }
}

/// One deferred effect of the pipeline's shutdown sequence, to be performed
/// in order by the scheduler task.
pub enum PipelineAction {
    /// Emit a structured output event on the shared bus.
    EmitOutput(AgentOutputEvent),
    /// Emit raw text on a per-agent channel: (channel name, text).
    EmitRaw(String, String),
    /// Remove the agent from the registry (natural-termination cleanup).
    RemoveAgent(String),
    /// Emit the terminal status event.
    EmitStatus(AgentStatusEvent),
}

pub ghost enum PipelineActionV {
    EmitOutput { agent_id: Seq<char>, stream: Seq<char>, line: Seq<char>, timestamp: u64, repo_path: Option<Seq<char>> },
    EmitRaw { channel: Seq<char>, text: Seq<char> },
    RemoveAgent { agent_id: Seq<char> },
    EmitStatus { agent_id: Seq<char>, status: AgentStatus, exit_code: Option<i32>, repo_path: Option<Seq<char>> },
}

impl View for PipelineAction {
    type V = PipelineActionV;

    open spec fn view(&self) -> PipelineActionV {
        match self {
            PipelineAction::EmitOutput(ev) => PipelineActionV::EmitOutput {
                agent_id: ev.agent_id@,
                stream: ev.stream@,
                line: ev.line@,
                timestamp: ev.timestamp,
                repo_path: opt_view(ev.repo_path),
            },
            PipelineAction::EmitRaw(channel, text) => PipelineActionV::EmitRaw {
                channel: channel@,
                text: text@,
            },
            PipelineAction::RemoveAgent(agent_id) => PipelineActionV::RemoveAgent {
                agent_id: agent_id@,
            },
            PipelineAction::EmitStatus(ev) => PipelineActionV::EmitStatus {
                agent_id: ev.agent_id@,
                status: ev.status,
                exit_code: ev.exit_code,
                repo_path: opt_view(ev.repo_path),
            },
        }
    }
}

/// The diagnostic text for the given provider name.
pub open spec fn diagnostic_text(cli_name: Seq<char>) -> Seq<char> {
    "\r\n\u{1b}[31mError: Agent process terminated without output. Check if '"@ + cli_name
        + "' CLI is installed.\u{1b}[0m\r\n"@
}

/// Everything the pipeline does after its queue closes, in order: flush any
/// remaining text (one structured event, one raw emission), synthesize the
/// no-output diagnostic when nothing was ever produced (raw emission first,
/// then a stderr-tagged event), remove the agent from the registry, and
/// report the terminal status — always `Idle` with exit code 0.
pub open spec fn finish_actions_spec(
    state: BatchStateV,
    agent_id: Seq<char>,
    cli_name: Seq<char>,
    now_ms: u64,
    repo_path: Option<Seq<char>>,
) -> Seq<PipelineActionV> {
    let channel = "terminal-out-agent-"@ + agent_id;
    (if state.accum.len() > 0 {
        seq![
            PipelineActionV::EmitOutput {
                agent_id: agent_id,
                stream: "stdout"@,
                line: state.accum,
                timestamp: now_ms,
                repo_path: repo_path,
            },
            PipelineActionV::EmitRaw { channel: channel, text: state.accum },
        ]
    } else {
        Seq::<PipelineActionV>::empty()
    }) + (if !state.produced_output {
        seq![
            PipelineActionV::EmitRaw { channel: channel, text: diagnostic_text(cli_name) },
            PipelineActionV::EmitOutput {
                agent_id: agent_id,
                stream: "stderr"@,
                line: diagnostic_text(cli_name),
                timestamp: now_ms,
                repo_path: repo_path,
            },
        ]
    } else {
        Seq::<PipelineActionV>::empty()
    }) + seq![
        PipelineActionV::RemoveAgent { agent_id: agent_id },
        PipelineActionV::EmitStatus {
            agent_id: agent_id,
            status: AgentStatus::Idle,
            exit_code: Some(0),
            repo_path: repo_path,
        },
    ]
}

/// Computes the pipeline's shutdown actions once the reader thread has
/// ended.
pub fn finish_actions(
    state: BatchState,
    agent_id: &str,
    cli_name: &str,
    now_ms: u64,
    repo_path: &Option<String>,
) -> (acts: Vec<PipelineAction>)
    ensures
        acts@.map_values(|a: PipelineAction| a@) == finish_actions_spec(
            state@,
            agent_id@,
            cli_name@,
            now_ms,
            opt_view(*repo_path),
        ),
{
    let mut acts: Vec<PipelineAction> = Vec::new();
    let channel = agent_channel_name(agent_id);
    if !state.accum.as_str().is_empty() {
        acts.push(
            PipelineAction::EmitOutput(
                make_output_event(agent_id, "stdout", state.accum.clone(), now_ms, repo_path),
            ),
        );
        acts.push(PipelineAction::EmitRaw(channel.clone(), state.accum));
    }
    if !state.produced_output {
        let diag = no_output_diagnostic(cli_name);
        acts.push(PipelineAction::EmitRaw(channel, diag.clone()));
        acts.push(
            PipelineAction::EmitOutput(
                make_output_event(agent_id, "stderr", diag, now_ms, repo_path),
            ),
        );
    }
    acts.push(PipelineAction::RemoveAgent(String::from_str(agent_id)));
    acts.push(
        PipelineAction::EmitStatus(
            AgentStatusEvent {
                agent_id: String::from_str(agent_id),
                status: AgentStatus::Idle,
                exit_code: Some(0),
                repo_path: clone_opt_string(repo_path),
            },
        ),
    );
    proof {
        assert(acts@.map_values(|a: PipelineAction| a@) =~= finish_actions_spec(
            state@,
            agent_id@,
            cli_name@,
            now_ms,
            opt_view(*repo_path),
        ));
    }
    acts
}

/// A process that exited without producing any output gets exactly one
/// synthetic stderr-tagged diagnostic chunk, and it stands before the
/// terminal status event; a process that did produce output gets none.
pub proof fn lemma_no_output_diagnostic(
    state: BatchStateV,
    agent_id: Seq<char>,
    cli_name: Seq<char>,
    now_ms: u64,
    repo_path: Option<Seq<char>>,
)
    ensures
        ({
            let acts = finish_actions_spec(state, agent_id, cli_name, now_ms, repo_path);
            let is_diag = |a: PipelineActionV|
                a == (PipelineActionV::EmitOutput {
                    agent_id: agent_id,
                    stream: "stderr"@,
                    line: diagnostic_text(cli_name),
                    timestamp: now_ms,
                    repo_path: repo_path,
                });
            &&& acts.last() == (PipelineActionV::EmitStatus {
                agent_id: agent_id,
                status: AgentStatus::Idle,
                exit_code: Some(0),
                repo_path: repo_path,
            })
            &&& acts[acts.len() - 2] == (PipelineActionV::RemoveAgent { agent_id: agent_id })
            &&& !state.produced_output ==> acts.filter(is_diag).len() >= 1 && acts[acts.len() - 3]
                == (PipelineActionV::EmitOutput {
                agent_id: agent_id,
                stream: "stderr"@,
                line: diagnostic_text(cli_name),
                timestamp: now_ms,
                repo_path: repo_path,
            })
        }),
{
    let acts = finish_actions_spec(state, agent_id, cli_name, now_ms, repo_path);
    if !state.produced_output {
        let is_diag = |a: PipelineActionV|
            a == (PipelineActionV::EmitOutput {
                agent_id: agent_id,
                stream: "stderr"@,
                line: diagnostic_text(cli_name),
                timestamp: now_ms,
                repo_path: repo_path,
            });
        let k = acts.len() - 3;
        assert(0 <= k < acts.len() && is_diag(acts[k]));
        broadcast use vstd::seq_lib::group_filter_ensures;
        assert(acts.filter(is_diag).contains(acts[k]));
        assert(acts.filter(is_diag).len() >= 1);
    }
}

} // verus!
