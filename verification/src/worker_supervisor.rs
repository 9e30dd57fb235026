//! The JavaScript worker supervisor's bookkeeping: one worker session at a
//! time, started on demand and discarded when an invocation fails or the
//! worker asks to be retired; numbered invocations; and the counts that
//! the adapter reports. Starting, invoking and terminating processes are
//! the caller's; these functions decide what happens between them.
use vstd::prelude::*;

use crate::text::{decimal_digits, decimal_u64};

verus! {

/// What a JavaScript adapter reports of its workers.
#[derive(Clone, Copy, Debug, PartialEq, Eq)]
pub struct JavaScriptSessionStats {
    pub spawned_process_count: u64,
    pub peak_in_flight: usize,
}

/// How an invocation on the session ended.
#[derive(Clone, Copy, Debug, PartialEq, Eq)]
pub enum InvocationEnd {
    /// An answer came back and the worker stays.
    Answered,
    /// An answer came back that retires the worker.
    DiscardRequested,
    /// The invocation failed without an answer.
    Failed,
}

/// The supervisor of one worker session at a time. `session` is the
/// caller's handle of the live session, if one runs.
#[derive(Debug)]
pub struct JavaScriptWorkerSupervisor {
    pub session: Option<u64>,
    pub next_invocation: u64,
    pub spawn_count: u64,
    pub peak_in_flight: usize,
    pub max_concurrency: usize,
}

/// One more, wrapping at the top of the range as an atomic counter does.
pub open spec fn bump(n: u64) -> u64 {
    if n == u64::MAX {
        0
    } else {
        (n + 1) as u64
    }
}

pub open spec fn larger(a: usize, b: usize) -> usize {
    if a < b {
        b
    } else {
        a
    }
}

/// The supervisor after a started session is recorded.
pub open spec fn started(s: JavaScriptWorkerSupervisor, session: u64) -> JavaScriptWorkerSupervisor {
    JavaScriptWorkerSupervisor { session: Some(session), spawn_count: bump(s.spawn_count), ..s }
}

/// Whether finishing an invocation on `session` this way retires it.
pub open spec fn retires(s: JavaScriptWorkerSupervisor, session: u64, end: InvocationEnd) -> bool {
    end != InvocationEnd::Answered && s.session == Some(session)
}

/// The supervisor after an invocation on `session` ended this way, with the
/// session's peak folded in.
pub open spec fn finished(
    s: JavaScriptWorkerSupervisor,
    session: u64,
    session_peak: usize,
    end: InvocationEnd,
) -> JavaScriptWorkerSupervisor {
    JavaScriptWorkerSupervisor {
        peak_in_flight: larger(s.peak_in_flight, session_peak),
        session: if retires(s, session, end) {
            None
        } else {
            s.session
        },
        ..s
    }
}

impl JavaScriptWorkerSupervisor {
    /// No session yet; invocations are numbered from 1.
    pub fn new(max_concurrency: usize) -> (r: Self)
        ensures
            r.session is None,
            r.next_invocation == 1,
            r.spawn_count == 0,
            r.peak_in_flight == 0,
            r.max_concurrency == max_concurrency,
    {
        JavaScriptWorkerSupervisor {
            session: None,
            next_invocation: 1,
            spawn_count: 0,
            peak_in_flight: 0,
            max_concurrency,
        }
    }

    /// The id of the next invocation, `js-` and its number.
    pub fn next_invocation_id(&mut self) -> (r: String)
        ensures
            r@ == "js-"@ + decimal_digits(old(self).next_invocation as nat),
            final(self).next_invocation == bump(old(self).next_invocation),
            final(self).session == old(self).session,
            final(self).spawn_count == old(self).spawn_count,
            final(self).peak_in_flight == old(self).peak_in_flight,
            final(self).max_concurrency == old(self).max_concurrency,
    {
        let n = self.next_invocation;
        self.next_invocation = n.wrapping_add(1);
        let mut id = "js-".to_owned();
        id.append(decimal_u64(n).as_str());
        id
    }

    /// The session to invoke on, if one runs; otherwise one must be started.
    pub fn live_session(&self) -> (r: Option<u64>)
        ensures
            r == self.session,
    {
        self.session
    }

    /// Records a session the caller started because none ran.
    pub fn session_started(&mut self, session: u64)
        requires
            old(self).session is None,
        ensures
            *final(self) == started(*old(self), session),
    {
        self.session = Some(session);
        self.spawn_count = self.spawn_count.wrapping_add(1);
    }

    /// Takes in how an invocation on `session` ended and the most
    /// invocations that session ever had in flight. Returns whether the
    /// caller terminates the session: a session that failed or asked to be
    /// retired is dropped, if it is still the live one.
    pub fn finish_invocation(&mut self, session: u64, session_peak: usize, end: InvocationEnd) -> (terminate: bool)
        ensures
            terminate == retires(*old(self), session, end),
            *final(self) == finished(*old(self), session, session_peak, end),
    {
        if self.peak_in_flight < session_peak {
            self.peak_in_flight = session_peak;
        }
        match end {
            InvocationEnd::Answered => false,
            _ => self.discard_session(session),
        }
    }

    /// Drops `session` if it is the live one, and says so.
    pub fn discard_session(&mut self, session: u64) -> (dropped: bool)
        ensures
            dropped == (old(self).session == Some(session)),
            final(self).session == if dropped {
                None
            } else {
                old(self).session
            },
            final(self).spawn_count == old(self).spawn_count,
            final(self).next_invocation == old(self).next_invocation,
            final(self).peak_in_flight == old(self).peak_in_flight,
            final(self).max_concurrency == old(self).max_concurrency,
    {
        match self.session {
            Some(current) => {
                if current == session {
                    self.session = None;
                    true
                } else {
                    false
                }
            },
            None => false,
        }
    }

    /// How many worker processes were started.
    pub fn spawned_process_count(&self) -> (r: u64)
        ensures
            r == self.spawn_count,
    {
        self.spawn_count
    }

    /// How many invocations may be in flight on a session.
    pub fn max_concurrency(&self) -> (r: usize)
        ensures
            r == self.max_concurrency,
    {
        self.max_concurrency
    }

    /// The worker counts an adapter reports.
    pub fn session_stats(&self) -> (r: JavaScriptSessionStats)
        ensures
            r.spawned_process_count == self.spawn_count,
            r.peak_in_flight == self.peak_in_flight,
    {
        JavaScriptSessionStats { spawned_process_count: self.spawn_count, peak_in_flight: self.peak_in_flight }
    }
}

/// A retired session is never invoked again: after an invocation on the
/// live session that failed or asked for retirement, no session is live,
/// so the next invocation starts a new one and one more process is
/// counted; the peak only grows.
pub proof fn lemma_retired_session_is_replaced(
    s: JavaScriptWorkerSupervisor,
    session: u64,
    session_peak: usize,
    end: InvocationEnd,
    fresh: u64,
)
    requires
        s.session == Some(session),
        end != InvocationEnd::Answered,
    ensures
        finished(s, session, session_peak, end).session is None,
        started(finished(s, session, session_peak, end), fresh).session == Some(fresh),
        started(finished(s, session, session_peak, end), fresh).spawn_count == bump(s.spawn_count),
        finished(s, session, session_peak, end).peak_in_flight >= s.peak_in_flight,
        finished(s, session, session_peak, end).peak_in_flight >= session_peak,
{
}

/// An answered invocation keeps its session: the same session serves the
/// next invocation and no process is started.
pub proof fn lemma_answered_session_is_kept(s: JavaScriptWorkerSupervisor, session: u64, session_peak: usize)
    ensures
        finished(s, session, session_peak, InvocationEnd::Answered).session == s.session,
        finished(s, session, session_peak, InvocationEnd::Answered).spawn_count == s.spawn_count,
{
}


/// A worker session is started only from a sandbox that carries neither
/// environment nor host cleanup paths: the worker runs with a cleared
/// environment and owns no temporary files.
pub fn check_worker_sandbox(env_entries: usize, cleanup_paths: usize) -> (r: Result<(), String>)
    ensures
        r is Ok <==> env_entries == 0 && cleanup_paths == 0,
        r matches Err(m) ==> m@
            == "deterministic JavaScript worker sandbox must not carry environment or host cleanup paths"@,
{
    if env_entries != 0 || cleanup_paths != 0 {
        return Err(
            "deterministic JavaScript worker sandbox must not carry environment or host cleanup paths".to_owned(),
        );
    }
    Ok(())
}

/// A started worker is kept only when its answer to the greeting is
/// `Ready` with the protocol version the supervisor speaks; `ready_version`
/// is the version of a `Ready` answer, none for any other answer.
pub fn handshake_accepted(ready_version: Option<u32>, protocol_version: u32) -> (r: bool)
    ensures
        r == (ready_version == Some(protocol_version)),
{
    match ready_version {
        Some(v) => v == protocol_version,
        None => false,
    }
}

} // verus!
