//! The agent registry: the single source of truth for which agents exist.
//! It owns the monotonic id counter; ids are handed out once and never
//! reused. Each entry pairs the agent's externally visible metadata with
//! exclusive ownership of its child-process handle, an opaque value the
//! registry never inspects.
use vstd::prelude::*;

use crate::strutil::dec_str;
use crate::strutil::lemma_dec_str_injective;
use crate::strutil::str_eq;
use crate::strutil::u64_to_dec;

verus! {

// ── Data types ──────────────────────────────────────────────────────

/// Wire-visible status of an agent. Only `Running` and `Idle` are produced
/// by the core; `Queued` and `Error` stay valid wire values for future
/// producers.
#[derive(Clone, Copy, Debug, PartialEq, Eq, Structural)]
pub enum AgentStatus {
    Running,
    Idle,
    Queued,
    Error,
}

/// A spawn request. Transient: consumed once by the spawn operation.
pub struct AgentConfig {
    pub name: String,
    pub model: String,
    pub task: String,
    pub cwd: Option<String>,
    pub permission_mode: Option<String>,
    pub dangerously_ignore_permissions: Option<bool>,
    pub auto_accept_edits: Option<bool>,
    pub provider: Option<String>,
    pub headless: Option<bool>,
}

/// The externally visible, cloneable view of one agent.
pub struct AgentInfo {
    pub id: String,
    pub name: String,
    pub model: String,
    pub provider: String,
    pub status: AgentStatus,
    pub current_task: Option<String>,
    pub started_at: u64,
    pub last_activity_at: Option<u64>,
    pub repo_path: Option<String>,
}

/// View of an optional owned string.
pub open spec fn opt_view(o: Option<String>) -> Option<Seq<char>> {
    match o {
        Some(s) => Some(s@),
        None => None,
    }
}

pub ghost struct AgentInfoV {
    pub id: Seq<char>,
    pub name: Seq<char>,
    pub model: Seq<char>,
    pub provider: Seq<char>,
    pub status: AgentStatus,
    pub current_task: Option<Seq<char>>,
    pub started_at: u64,
    pub last_activity_at: Option<u64>,
    pub repo_path: Option<Seq<char>>,
}

impl View for AgentInfo {
    type V = AgentInfoV;

    open spec fn view(&self) -> AgentInfoV {
        AgentInfoV {
            id: self.id@,
            name: self.name@,
            model: self.model@,
            provider: self.provider@,
            status: self.status,
            current_task: opt_view(self.current_task),
            started_at: self.started_at,
            last_activity_at: self.last_activity_at,
            repo_path: opt_view(self.repo_path),
        }
    }
}

/// One forwarded chunk of an agent's output.
pub struct AgentOutputEvent {
    pub agent_id: String,
    pub stream: String,
    pub line: String,
    pub timestamp: u64,
    pub repo_path: Option<String>,
}

/// A lifecycle report for one agent.
pub struct AgentStatusEvent {
    pub agent_id: String,
    pub status: AgentStatus,
    pub exit_code: Option<i32>,
    pub repo_path: Option<String>,
}

/// One registered agent: its metadata, its process-lifetime-unique numeric
/// id, and exclusive ownership of the spawned child-process handle. The
/// handle type is opaque to the registry; dropping it is what releases the
/// underlying process and terminal resources.
pub struct AgentProcess<C> {
    pub num_id: u64,
    pub info: AgentInfo,
    pub child: C,
}

// ── Agent identifiers ───────────────────────────────────────────────

/// The string id carried by the agent with the given counter value.
pub open spec fn agent_id_seq(n: u64) -> Seq<char> {
    "agent-"@ + dec_str(n as nat)
}

/// Prints the agent id for one counter value.
pub fn agent_id_string(n: u64) -> (r: String)
    ensures
        r@ == agent_id_seq(n),
{
    let mut r = String::from_str("agent-");
    let digits = u64_to_dec(n);
    r.append(digits.as_str());
    r
}

/// Distinct counter values give distinct agent ids.
pub proof fn lemma_agent_id_injective(a: u64, b: u64)
    ensures
        agent_id_seq(a) == agent_id_seq(b) ==> a == b,
{
    if agent_id_seq(a) == agent_id_seq(b) {
        let p = "agent-"@;
        let sa = p + dec_str(a as nat);
        let sb = p + dec_str(b as nat);
        assert(sa.len() == sb.len());
        assert(dec_str(a as nat) =~= sa.subrange(p.len() as int, sa.len() as int));
        assert(dec_str(b as nat) =~= sb.subrange(p.len() as int, sb.len() as int));
        lemma_dec_str_injective(a as nat, b as nat);
    }
}

// ── The registry ────────────────────────────────────────────────────

/// Exclusive-access registry of live agents plus the monotonic id counter.
/// All mutations happen inside one critical section of the caller's lock;
/// no method suspends.
pub struct AgentManager<C> {
    pub agents: Vec<AgentProcess<C>>,
    pub counter: u64,
}

/// Whether an agent is bound to the given repository path.
pub open spec fn repo_matches<C>(a: AgentProcess<C>, path: Seq<char>) -> bool {
    opt_view(a.info.repo_path) == Some(path)
}

impl<C> AgentManager<C> {
    /// Well-formedness: every entry's numeric id was handed out by the
    /// counter, the ids are distinct, and each entry's string id prints its
    /// numeric id.
    pub open spec fn wf(&self) -> bool {
        &&& forall|k: int|
            0 <= k < self.agents@.len() ==> (#[trigger] self.agents@[k]).num_id >= 1
                && self.agents@[k].num_id <= self.counter
        &&& forall|k1: int, k2: int|
            0 <= k1 < k2 < self.agents@.len() ==> (#[trigger] self.agents@[k1]).num_id != (
            #[trigger] self.agents@[k2]).num_id
        &&& forall|k: int|
            0 <= k < self.agents@.len() ==> (#[trigger] self.agents@[k]).info.id@ == agent_id_seq(
                self.agents@[k].num_id,
            )
    }

    pub fn new() -> (r: AgentManager<C>)
        ensures
            r.agents@.len() == 0,
            r.counter == 0,
            r.wf(),
    {
        AgentManager { agents: Vec::new(), counter: 0 }
    }

    /// Registers a freshly spawned agent: allocates the next id, builds the
    /// metadata (running, both timestamps now), and takes ownership of the
    /// child handle. Id allocation and insertion happen in one step so that
    /// two concurrent spawns cannot share an id.
    pub fn register_agent(
        &mut self,
        name: String,
        model: String,
        provider_id: String,
        task: String,
        repo_path: Option<String>,
        now_ms: u64,
        child: C,
    ) -> (info: AgentInfo)
        requires
            old(self).wf(),
            old(self).counter < u64::MAX,
        ensures
            final(self).wf(),
            final(self).counter == old(self).counter + 1,
            final(self).agents@ == old(self).agents@.push(final(self).agents@.last()),
            final(self).agents@.last().num_id == final(self).counter,
            final(self).agents@.last().info@ == info@,
            final(self).agents@.last().child == child,
            info@ == (AgentInfoV {
                id: agent_id_seq(final(self).counter),
                name: name@,
                model: model@,
                provider: provider_id@,
                status: AgentStatus::Running,
                current_task: Some(task@),
                started_at: now_ms,
                last_activity_at: Some(now_ms),
                repo_path: opt_view(repo_path),
            }),
            forall|k: int|
                0 <= k < old(self).agents@.len() ==> (#[trigger] old(self).agents@[k]).info.id@
                    != info.id@,
    {
        self.counter = self.counter + 1;
        let id = agent_id_string(self.counter);
        let info = AgentInfo {
            id,
            name,
            model,
            provider: provider_id,
            status: AgentStatus::Running,
            current_task: Some(task),
            started_at: now_ms,
            last_activity_at: Some(now_ms),
            repo_path,
        };
        let out = clone_agent_info(&info);
        let process = AgentProcess { num_id: self.counter, info, child };
        self.agents.push(process);
        proof {
            let n = self.agents@.len() as int;
            assert(self.agents@.last() == self.agents@[n - 1]);
            assert(self.agents@ =~= old(self).agents@.push(self.agents@.last()));
            assert forall|k: int|
                0 <= k < old(self).agents@.len() implies (#[trigger] old(
                self,
            ).agents@[k]).info.id@ != out.id@ by {
                lemma_agent_id_injective(old(self).agents@[k].num_id, self.counter);
            }
        }
        out
    }

    /// A snapshot of every live agent's metadata.
    pub fn list_agents(&self) -> (r: Vec<AgentInfo>)
        ensures
            r@.len() == self.agents@.len(),
            forall|k: int|
                0 <= k < r@.len() ==> (#[trigger] r@[k])@ == self.agents@[k].info@,
    {
        let mut r: Vec<AgentInfo> = Vec::new();
        let mut i: usize = 0;
        while i < self.agents.len()
            invariant
                i <= self.agents@.len(),
                r@.len() == i,
                forall|k: int|
                    0 <= k < i ==> (#[trigger] r@[k])@ == self.agents@[k].info@,
            decreases self.agents@.len() - i,
        {
            r.push(clone_agent_info(&self.agents[i].info));
            i += 1;
        }
        r
    }

    /// Index of the agent carrying the given string id, if any.
    pub open spec fn spec_index_of(agents: Seq<AgentProcess<C>>, id: Seq<char>) -> int
        decreases agents.len(),
    {
        if agents.len() == 0 {
            -1
        } else if agents[0].info.id@ == id {
            0
        } else {
            let r = Self::spec_index_of(agents.drop_first(), id);
            if r == -1 {
                -1
            } else {
                r + 1
            }
        }
    }

    proof fn lemma_index_of_at(agents: Seq<AgentProcess<C>>, id: Seq<char>, i: int)
        requires
            0 <= i < agents.len(),
            forall|j: int| 0 <= j < i ==> (#[trigger] agents[j]).info.id@ != id,
            agents[i].info.id@ == id,
        ensures
            Self::spec_index_of(agents, id) == i,
        decreases agents.len(),
    {
        if i > 0 {
            let t = agents.drop_first();
            assert(forall|j: int| 0 <= j < t.len() ==> #[trigger] t[j] == agents[j + 1]);
            assert forall|j: int| 0 <= j < i - 1 implies (#[trigger] t[j]).info.id@ != id by {
                assert(t[j] == agents[j + 1]);
            }
            assert(t[i - 1] == agents[i]);
            Self::lemma_index_of_at(t, id, i - 1);
        }
    }

    proof fn lemma_index_of_none(agents: Seq<AgentProcess<C>>, id: Seq<char>)
        requires
            forall|j: int| 0 <= j < agents.len() ==> (#[trigger] agents[j]).info.id@ != id,
        ensures
            Self::spec_index_of(agents, id) == -1,
        decreases agents.len(),
    {
        if agents.len() > 0 {
            let t = agents.drop_first();
            assert(forall|j: int| 0 <= j < t.len() ==> #[trigger] t[j] == agents[j + 1]);
            assert forall|j: int| 0 <= j < t.len() implies (#[trigger] t[j]).info.id@ != id by {
                assert(t[j] == agents[j + 1]);
            }
            Self::lemma_index_of_none(t, id);
        }
    }

    /// Removes the agent with the given id, handing back its entry — the
    /// caller drops the child handle, which is what terminates the process.
    pub fn remove_agent(&mut self, agent_id: &str) -> (r: Option<AgentProcess<C>>)
        ensures
            final(self).counter == old(self).counter,
            match r {
                Some(p) => {
                    let k = Self::spec_index_of(old(self).agents@, agent_id@);
                    &&& k >= 0
                    &&& p == old(self).agents@[k]
                    &&& final(self).agents@ == old(self).agents@.remove(k)
                },
                None => {
                    &&& Self::spec_index_of(old(self).agents@, agent_id@) == -1
                    &&& final(self).agents@ == old(self).agents@
                },
            },
            old(self).wf() ==> final(self).wf(),
            old(self).wf() && r is Some ==> Self::spec_index_of(final(self).agents@, agent_id@)
                == -1,
    {
        let mut i: usize = 0;
        while i < self.agents.len()
            invariant
                i <= self.agents@.len(),
                *self == *old(self),
                forall|j: int| 0 <= j < i ==> (#[trigger] self.agents@[j]).info.id@ != agent_id@,
            decreases self.agents@.len() - i,
        {
            if str_eq(self.agents[i].info.id.as_str(), agent_id) {
                proof {
                    Self::lemma_index_of_at(self.agents@, agent_id@, i as int);
                }
                let p = self.agents.remove(i);
                proof {
                    if old(self).wf() {
                        let a0 = old(self).agents@;
                        let a1 = self.agents@;
                        assert forall|k: int|
                            0 <= k < a1.len() implies (#[trigger] a1[k]).num_id >= 1 && a1[k].num_id
                            <= self.counter && a1[k].info.id@ == agent_id_seq(a1[k].num_id) by {
                            if k < i {
                                assert(a1[k] == a0[k]);
                            } else {
                                assert(a1[k] == a0[k + 1]);
                            }
                        }
                        assert forall|k1: int, k2: int|
                            0 <= k1 < k2 < a1.len() implies (#[trigger] a1[k1]).num_id != (
                        #[trigger] a1[k2]).num_id by {
                            let o1 = if k1 < i {
                                k1
                            } else {
                                k1 + 1
                            };
                            let o2 = if k2 < i {
                                k2
                            } else {
                                k2 + 1
                            };
                            assert(a1[k1] == a0[o1]);
                            assert(a1[k2] == a0[o2]);
                        }
                        assert forall|k: int|
                            0 <= k < a1.len() implies (#[trigger] a1[k]).info.id@ != agent_id@ by {
                            let o = if k < i {
                                k
                            } else {
                                k + 1
                            };
                            assert(a1[k] == a0[o]);
                            lemma_agent_id_injective(a0[o].num_id, a0[i as int].num_id);
                        }
                        Self::lemma_index_of_none(a1, agent_id@);
                    }
                }
                return Some(p);
            }
            i += 1;
        }
        proof {
            Self::lemma_index_of_none(self.agents@, agent_id@);
        }
        None
    }

    /// Kills one agent: removes its registry entry and reports the status
    /// event to emit. The caller drops the returned entry's child handle,
    /// the best-effort termination of the underlying process; it is not
    /// awaited or verified. An unknown id fails with a "not found" error
    /// and leaves the registry unchanged.
    pub fn kill_agent(&mut self, agent_id: &str) -> (r: Result<
        (AgentProcess<C>, AgentStatusEvent),
        String,
    >)
        ensures
            final(self).counter == old(self).counter,
            match r {
                Ok(pair) => {
                    let k = Self::spec_index_of(old(self).agents@, agent_id@);
                    &&& k >= 0
                    &&& pair.0 == old(self).agents@[k]
                    &&& final(self).agents@ == old(self).agents@.remove(k)
                    &&& pair.1.agent_id@ == agent_id@
                    &&& pair.1.status == AgentStatus::Idle
                    &&& pair.1.exit_code is None
                    &&& pair.1.repo_path is None
                },
                Err(msg) => {
                    &&& Self::spec_index_of(old(self).agents@, agent_id@) == -1
                    &&& final(self).agents@ == old(self).agents@
                    &&& msg@ == "Agent not found: "@ + agent_id@
                },
            },
            old(self).wf() ==> final(self).wf(),
            old(self).wf() && r is Ok ==> Self::spec_index_of(final(self).agents@, agent_id@)
                == -1,
    {
        match self.remove_agent(agent_id) {
            Some(p) => Ok(
                (
                    p,
                    AgentStatusEvent {
                        agent_id: String::from_str(agent_id),
                        status: AgentStatus::Idle,
                        exit_code: None,
                        repo_path: None,
                    },
                ),
            ),
            None => {
                let mut msg = String::from_str("Agent not found: ");
                msg.append(agent_id);
                Err(msg)
            },
        }
    }

    /// Number of agents bound to the given repository path.
    pub open spec fn spec_count_for_repo(agents: Seq<AgentProcess<C>>, path: Seq<char>) -> int {
        agents.filter(|a: AgentProcess<C>| repo_matches(a, path)).len() as int
    }

    /// Removes every agent whose repository path equals `repo_path`
    /// exactly, handing back the removed entries in registry order.
    /// Agents bound to other paths, or to none, stay listed unchanged.
    pub fn remove_agents_for_repo(&mut self, repo_path: &str) -> (removed: Vec<AgentProcess<C>>)
        ensures
            final(self).counter == old(self).counter,
            removed@ == old(self).agents@.filter(
                |a: AgentProcess<C>| repo_matches(a, repo_path@),
            ),
            final(self).agents@ == old(self).agents@.filter(
                |a: AgentProcess<C>| !repo_matches(a, repo_path@),
            ),
            removed@.len() == Self::spec_count_for_repo(old(self).agents@, repo_path@),
            old(self).wf() ==> final(self).wf(),
    {
        broadcast use Seq::lemma_filter_push;

        let ghost orig = self.agents@;
        let ghost keep = |a: AgentProcess<C>| !repo_matches(a, repo_path@);
        let ghost take = |a: AgentProcess<C>| repo_matches(a, repo_path@);
        let mut removed: Vec<AgentProcess<C>> = Vec::new();
        let mut i: usize = 0;
        let ghost mut consumed: int = 0;
        proof {
            assert(orig.take(0) =~= Seq::<AgentProcess<C>>::empty());
            assert(orig.skip(0) =~= orig);
            assert(Seq::<AgentProcess<C>>::empty().filter(keep) =~= Seq::<
                AgentProcess<C>,
            >::empty());
            assert(Seq::<AgentProcess<C>>::empty().filter(take) =~= Seq::<
                AgentProcess<C>,
            >::empty());
        }
        while i < self.agents.len()
            invariant
                keep == (|a: AgentProcess<C>| !repo_matches(a, repo_path@)),
                take == (|a: AgentProcess<C>| repo_matches(a, repo_path@)),
                0 <= consumed <= orig.len(),
                i as int == orig.take(consumed).filter(keep).len(),
                self.counter == old(self).counter,
                self.agents@ == orig.take(consumed).filter(keep) + orig.skip(consumed),
                removed@ == orig.take(consumed).filter(take),
                i <= self.agents@.len(),
            decreases self.agents@.len() - i,
        {
            let ghost before = self.agents@;
            let ghost cur = orig[consumed];
            proof {
                assert(orig.skip(consumed)[0] == orig[consumed]);
                assert(before[i as int] == orig.skip(consumed)[0]);
                assert(orig.take(consumed + 1) =~= orig.take(consumed).push(cur));
                assert(orig.skip(consumed + 1) =~= orig.skip(consumed).drop_first());
                orig.take(consumed).lemma_filter_push(cur, keep);
                orig.take(consumed).lemma_filter_push(cur, take);
            }
            let is_match = match &self.agents[i].info.repo_path {
                Some(p) => str_eq(p.as_str(), repo_path),
                None => false,
            };
            if is_match {
                proof {
                    assert(take(cur) && !keep(cur));
                }
                let p = self.agents.remove(i);
                removed.push(p);
                proof {
                    assert(self.agents@ =~= orig.take(consumed + 1).filter(keep) + orig.skip(
                        consumed + 1,
                    ));
                    assert(removed@ =~= orig.take(consumed + 1).filter(take));
                }
            } else {
                proof {
                    assert(keep(cur) && !take(cur));
                    assert(self.agents@ =~= orig.take(consumed + 1).filter(keep) + orig.skip(
                        consumed + 1,
                    ));
                    assert(removed@ =~= orig.take(consumed + 1).filter(take));
                }
                i += 1;
            }
            proof {
                consumed = consumed + 1;
            }
        }
        proof {
            assert(consumed == orig.len()) by {
                assert(orig.skip(consumed).len() == self.agents@.len() - i);
            }
            assert(orig.take(consumed) =~= orig);
            assert(orig.skip(consumed) =~= Seq::<AgentProcess<C>>::empty());
            assert(self.agents@ =~= orig.filter(keep));
            if old(self).wf() {
                Self::lemma_filter_keeps_wf(orig, keep, self.counter);
            }
        }
        removed
    }

    proof fn lemma_filter_keeps_wf(
        agents: Seq<AgentProcess<C>>,
        pred: spec_fn(AgentProcess<C>) -> bool,
        counter: u64,
    )
        requires
            forall|k: int|
                0 <= k < agents.len() ==> (#[trigger] agents[k]).num_id >= 1 && agents[k].num_id
                    <= counter && agents[k].info.id@ == agent_id_seq(agents[k].num_id),
            forall|k1: int, k2: int|
                0 <= k1 < k2 < agents.len() ==> (#[trigger] agents[k1]).num_id != (
                #[trigger] agents[k2]).num_id,
        ensures
            forall|k: int|
                0 <= k < agents.filter(pred).len() ==> (#[trigger] agents.filter(
                    pred,
                )[k]).num_id >= 1 && agents.filter(pred)[k].num_id <= counter && agents.filter(
                    pred,
                )[k].info.id@ == agent_id_seq(agents.filter(pred)[k].num_id),
            forall|k1: int, k2: int|
                0 <= k1 < k2 < agents.filter(pred).len() ==> (#[trigger] agents.filter(
                    pred,
                )[k1]).num_id != (#[trigger] agents.filter(pred)[k2]).num_id,
        decreases agents.len(),
    {
        broadcast use Seq::lemma_filter_push;

        if agents.len() > 0 {
            let head = agents.drop_last();
            let x = agents.last();
            assert(agents =~= head.push(x));
            Self::lemma_filter_keeps_wf(head, pred, counter);
            let f = agents.filter(pred);
            let fh = head.filter(pred);
            if pred(x) {
                assert(f == fh.push(x));
                assert forall|k1: int, k2: int|
                    0 <= k1 < k2 < f.len() implies (#[trigger] f[k1]).num_id != (
                #[trigger] f[k2]).num_id by {
                    if k2 < f.len() - 1 {
                        assert(f[k1] == fh[k1] && f[k2] == fh[k2]);
                    } else {
                        assert(f[k2] == x);
                        assert(f[k1] == fh[k1]);
                        let j1 = Self::lemma_filter_index(head, pred, k1);
                        assert(agents[j1] == fh[k1]);
                        assert(agents[agents.len() - 1] == x);
                    }
                }
            } else {
                assert(f == fh);
            }
        }
    }

    /// Every element of a filtered sequence stands somewhere in the
    /// unfiltered one.
    proof fn lemma_filter_index(
        agents: Seq<AgentProcess<C>>,
        pred: spec_fn(AgentProcess<C>) -> bool,
        k: int,
    ) -> (j: int)
        requires
            0 <= k < agents.filter(pred).len(),
        ensures
            0 <= j < agents.len(),
            agents[j] == agents.filter(pred)[k],
    decreases agents.len(),
    {
        broadcast use Seq::lemma_filter_push;

        let head = agents.drop_last();
        let x = agents.last();
        assert(agents =~= head.push(x));
        let f = agents.filter(pred);
        let fh = head.filter(pred);
        if pred(x) {
            assert(f == fh.push(x));
            if k == f.len() - 1 {
                agents.len() - 1
            } else {
                let j = Self::lemma_filter_index(head, pred, k);
                assert(agents[j] == head[j]);
                j
            }
        } else {
            assert(f == fh);
            let j = Self::lemma_filter_index(head, pred, k);
            assert(agents[j] == head[j]);
            j
        }
    }

    /// Shutdown cleanup: forgets every agent at once, handing the entries
    /// back so their child handles can be dropped.
    pub fn cleanup_all_agents(&mut self) -> (removed: Vec<AgentProcess<C>>)
        ensures
            final(self).agents@.len() == 0,
            final(self).counter == old(self).counter,
            removed@ == old(self).agents@,
            final(self).wf(),
    {
        let mut removed: Vec<AgentProcess<C>> = Vec::new();
        let ghost counter = self.counter;
        proof {
            assert(removed@ + self.agents@ =~= old(self).agents@);
        }
        loop
            invariant
                self.counter == counter,
                counter == old(self).counter,
                removed@ + self.agents@ == old(self).agents@,
            ensures
                self.agents@.len() == 0,
                self.counter == counter,
                removed@ == old(self).agents@,
            decreases self.agents@.len(),
        {
            if self.agents.len() == 0 {
                proof {
                    assert(removed@ =~= removed@ + self.agents@);
                }
                break ;
            }
            let p = self.agents.remove(0);
            removed.push(p);
            proof {
                assert(removed@ + self.agents@ =~= old(self).agents@);
            }
        }
        removed
    }
}

fn clone_opt_string(o: &Option<String>) -> (r: Option<String>)
    ensures
        opt_view(r) == opt_view(*o),
{
    match o {
        Some(s) => Some(s.clone()),
        None => None,
    }
}

/// Clones an agent's metadata; the copy carries the same view.
pub fn clone_agent_info(info: &AgentInfo) -> (r: AgentInfo)
    ensures
        r@ == info@,
{
    AgentInfo {
        id: info.id.clone(),
        name: info.name.clone(),
        model: info.model.clone(),
        provider: info.provider.clone(),
        status: info.status,
        current_task: clone_opt_string(&info.current_task),
        started_at: info.started_at,
        last_activity_at: info.last_activity_at,
        repo_path: clone_opt_string(&info.repo_path),
    }
}

/// Ids are unique across the registry: in a well-formed manager no two
/// entries carry the same string id, and the id of the next spawn is not
/// carried by any live entry — removed ids are never reused.
pub proof fn lemma_agent_ids_unique<C>(m: AgentManager<C>)
    requires
        m.wf(),
    ensures
        forall|i: int, j: int|
            0 <= i < j < m.agents@.len() ==> (#[trigger] m.agents@[i]).info.id@ != (
            #[trigger] m.agents@[j]).info.id@,
        m.counter < u64::MAX ==> forall|i: int|
            0 <= i < m.agents@.len() ==> (#[trigger] m.agents@[i]).info.id@ != agent_id_seq(
                (m.counter + 1) as u64,
            ),
{
    assert forall|i: int, j: int|
        0 <= i < j < m.agents@.len() implies (#[trigger] m.agents@[i]).info.id@ != (
    #[trigger] m.agents@[j]).info.id@ by {
        lemma_agent_id_injective(m.agents@[i].num_id, m.agents@[j].num_id);
    }
    if m.counter < u64::MAX {
        assert forall|i: int|
            0 <= i < m.agents@.len() implies (#[trigger] m.agents@[i]).info.id@ != agent_id_seq(
            (m.counter + 1) as u64,
        ) by {
            lemma_agent_id_injective(m.agents@[i].num_id, (m.counter + 1) as u64);
        }
    }
}

} // verus!
