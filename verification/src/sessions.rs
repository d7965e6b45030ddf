//! The terminal session registry: maps a session id — a plain shell
//! session's, or `agent-` plus an agent id — to a small owned bundle of an
//! optional write handle and an optional resize-capable handle. The
//! handles' types are opaque to the registry; performing I/O on them is
//! the caller's business. A failed write is proof of a dead session: the
//! caller removes the entry instead of retrying.
use vstd::prelude::*;

use crate::strutil::str_eq;

verus! {

/// One session's owned handles.
pub struct TerminalSession<W, M> {
    pub writer: Option<W>,
    pub master: Option<M>,
}

/// Exclusive-access map from session id to its handle bundle.
pub struct TerminalRegistry<W, M> {
    pub sessions: Vec<(String, TerminalSession<W, M>)>,
}

impl<W, M> TerminalRegistry<W, M> {
    /// Index of the session with the given id, or -1 when none has it.
    pub open spec fn spec_index_of(sessions: Seq<(String, TerminalSession<W, M>)>, id: Seq<char>) -> int
        decreases sessions.len(),
    {
        if sessions.len() == 0 {
            -1
        } else if sessions[0].0@ == id {
            0
        } else {
            let r = Self::spec_index_of(sessions.drop_first(), id);
            if r == -1 {
                -1
            } else {
                r + 1
            }
        }
    }

    pub open spec fn has_session(&self, id: Seq<char>) -> bool {
        Self::spec_index_of(self.sessions@, id) >= 0
    }

    pub fn new() -> (r: TerminalRegistry<W, M>)
        ensures
            r.sessions@.len() == 0,
    {
        TerminalRegistry { sessions: Vec::new() }
    }

    proof fn lemma_index_of_at(sessions: Seq<(String, TerminalSession<W, M>)>, id: Seq<char>, i: int)
        requires
            0 <= i < sessions.len(),
            forall|j: int| 0 <= j < i ==> (#[trigger] sessions[j]).0@ != id,
            sessions[i].0@ == id,
        ensures
            Self::spec_index_of(sessions, id) == i,
        decreases sessions.len(),
    {
        if i > 0 {
            let t = sessions.drop_first();
            assert(forall|j: int| 0 <= j < t.len() ==> #[trigger] t[j] == sessions[j + 1]);
            assert forall|j: int| 0 <= j < i - 1 implies (#[trigger] t[j]).0@ != id by {
                assert(t[j] == sessions[j + 1]);
            }
            assert(t[i - 1] == sessions[i]);
            Self::lemma_index_of_at(t, id, i - 1);
        }
    }

    proof fn lemma_index_of_none(sessions: Seq<(String, TerminalSession<W, M>)>, id: Seq<char>)
        requires
            forall|j: int| 0 <= j < sessions.len() ==> (#[trigger] sessions[j]).0@ != id,
        ensures
            Self::spec_index_of(sessions, id) == -1,
        decreases sessions.len(),
    {
        if sessions.len() > 0 {
            let t = sessions.drop_first();
            assert(forall|j: int| 0 <= j < t.len() ==> #[trigger] t[j] == sessions[j + 1]);
            assert forall|j: int| 0 <= j < t.len() implies (#[trigger] t[j]).0@ != id by {
                assert(t[j] == sessions[j + 1]);
            }
            Self::lemma_index_of_none(t, id);
        }
    }

    fn find_index(&self, id: &str) -> (r: Option<usize>)
        ensures
            match r {
                Some(k) => k < self.sessions@.len() && Self::spec_index_of(self.sessions@, id@)
                    == k as int,
                None => Self::spec_index_of(self.sessions@, id@) == -1,
            },
    {
        let mut i: usize = 0;
        while i < self.sessions.len()
            invariant
                i <= self.sessions@.len(),
                forall|j: int| 0 <= j < i ==> (#[trigger] self.sessions@[j]).0@ != id@,
            decreases self.sessions@.len() - i,
        {
            if str_eq(self.sessions[i].0.as_str(), id) {
                proof {
                    Self::lemma_index_of_at(self.sessions@, id@, i as int);
                }
                return Some(i);
            }
            i += 1;
        }
        proof {
            Self::lemma_index_of_none(self.sessions@, id@);
        }
        None
    }

    /// Whether a session with the given id is registered.
    pub fn contains(&self, id: &str) -> (r: bool)
        ensures
            r == self.has_session(id@),
    {
        match self.find_index(id) {
            Some(_) => true,
            None => false,
        }
    }

    /// Registers a session under the given id, appending it to the map.
    pub fn insert(&mut self, id: String, session: TerminalSession<W, M>)
        ensures
            final(self).sessions@ == old(self).sessions@.push((id, session)),
    {
        self.sessions.push((id, session));
    }

    /// Takes the whole session out of the registry: the policy after an
    /// I/O failure, which is proof of a dead session, and the first step
    /// of killing an agent.
    pub fn remove(&mut self, id: &str) -> (r: Option<TerminalSession<W, M>>)
        ensures
            match r {
                Some(s) => {
                    let k = Self::spec_index_of(old(self).sessions@, id@);
                    &&& k >= 0
                    &&& s == old(self).sessions@[k].1
                    &&& final(self).sessions@ == old(self).sessions@.remove(k)
                },
                None => {
                    &&& Self::spec_index_of(old(self).sessions@, id@) == -1
                    &&& final(self).sessions@ == old(self).sessions@
                },
            },
    {
        match self.find_index(id) {
            Some(k) => {
                let (_, s) = self.sessions.remove(k);
                Some(s)
            },
            None => None,
        }
    }

    /// Borrows the session registered under the given id.
    pub fn get(&self, id: &str) -> (r: Option<&TerminalSession<W, M>>)
        ensures
            match r {
                Some(s) => {
                    let k = Self::spec_index_of(self.sessions@, id@);
                    k >= 0 && *s == self.sessions@[k].1
                },
                None => Self::spec_index_of(self.sessions@, id@) == -1,
            },
    {
        match self.find_index(id) {
            Some(k) => Some(&self.sessions[k].1),
            None => None,
        }
    }
}

} // verus!
