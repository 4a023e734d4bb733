//! Checking contexts: per-session observability toggles and the
//! enforcement switch, held in a registry owned by one engine handle.

use vstd::prelude::*;

verus! {

/// One session's checking context: observability toggles only; neither
/// flag ever alters a policy outcome.
#[derive(Clone, Copy, Debug, PartialEq, Eq, Structural)]
pub struct SessionCtx {
    pub profiling: bool,
    pub tracing: bool,
}

/// The engine handle owning the session registry.  Sessions are created
/// through `open_new` and addressed by the returned identifier; they
/// never share mutable state with each other.
pub struct Engine {
    pub sessions: Vec<SessionCtx>,
}

impl Engine {
    /// A fresh engine with an empty session registry.
    pub fn new() -> (e: Engine)
        ensures
            e.sessions@.len() == 0,
    {
        Engine { sessions: Vec::new() }
    }

    /// Allocates a fresh session with both toggles off and returns its
    /// identifier; existing sessions are untouched.
    pub fn open_new(&mut self) -> (id: usize)
        ensures
            id == old(self).sessions@.len(),
            final(self).sessions@ == old(self).sessions@.push(
                SessionCtx { profiling: false, tracing: false },
            ),
    {
        let id = self.sessions.len();
        self.sessions.push(SessionCtx { profiling: false, tracing: false });
        id
    }

    /// Whether a session identifier addresses a live session.
    pub fn has_session(&self, id: usize) -> (r: bool)
        ensures
            r == (id < self.sessions@.len()),
    {
        id < self.sessions.len()
    }

    /// Toggles profiling emission for one session; `false` when the
    /// identifier is unknown.  Never alters any policy outcome.
    pub fn enable_profiling(&mut self, id: usize, on: bool) -> (ok: bool)
        ensures
            ok == (id < old(self).sessions@.len()),
            ok ==> final(self).sessions@ == old(self).sessions@.update(
                id as int,
                SessionCtx { profiling: on, tracing: old(self).sessions@[id as int].tracing },
            ),
            !ok ==> final(self).sessions@ == old(self).sessions@,
    {
        if id < self.sessions.len() {
            let cur = self.sessions[id];
            self.sessions[id] = SessionCtx { profiling: on, tracing: cur.tracing };
            true
        } else {
            false
        }
    }

    /// Toggles tracing emission for one session; `false` when the
    /// identifier is unknown.  Never alters any policy outcome.
    pub fn enable_tracing(&mut self, id: usize, on: bool) -> (ok: bool)
        ensures
            ok == (id < old(self).sessions@.len()),
            ok ==> final(self).sessions@ == old(self).sessions@.update(
                id as int,
                SessionCtx { profiling: old(self).sessions@[id as int].profiling, tracing: on },
            ),
            !ok ==> final(self).sessions@ == old(self).sessions@,
    {
        if id < self.sessions.len() {
            let cur = self.sessions[id];
            self.sessions[id] = SessionCtx { profiling: cur.profiling, tracing: on };
            true
        } else {
            false
        }
    }
}

} // verus!
