//! The decisions of a debug session: wait for the debugger's readiness marker within
//! the setup window, connect to the log transport (retrying while the server is not
//! up yet), decode while the debugger runs, and stop at its exit or at a timeout.
//! The caller performs each action and reports what happened.
use vstd::prelude::*;

verus! {

/// `m` occurs in `s` as a contiguous run.
pub open spec fn occurs(s: Seq<u8>, m: Seq<u8>) -> bool {
    exists|i: int| 0 <= i && i + m.len() <= s.len() && #[trigger] s.subrange(i, i + m.len()) == m
}

#[derive(Clone, Copy, Debug, PartialEq, Eq, Structural)]
pub enum Phase {
    /// Scanning the debugger's output for the readiness marker.
    AwaitingReady,
    /// Opening the transport connection.
    Connecting,
    /// Decoding while the debugger runs.
    Running,
    Finished,
}

/// Why a session stops early; the process is killed first.
#[derive(Clone, Copy, Debug, PartialEq, Eq, Structural)]
pub enum FailReason {
    ReadinessTimeout,
    ExecutionTimeout,
    ConnectFailed,
}

#[derive(Clone, Copy, Debug, PartialEq, Eq, Structural)]
pub enum SessionAction {
    /// Nothing to do but wait for the next event.
    Continue,
    /// Try to open the transport connection.
    Connect,
    /// Start decoding on the connection and wait for the debugger to exit.
    StartDecoding,
    /// Signal the decoder to stop and join it; the session is over.
    StopDecoding,
    /// Kill the debugger and fail with the reason.
    Kill(FailReason),
}

pub enum SessionEvent {
    /// Bytes of the debugger's diagnostic output.
    Output(Vec<u8>),
    SetupTimeout,
    ConnectRefused,
    ConnectTimedOut,
    /// A connection error other than refusal or timeout.
    ConnectFailed,
    Connected,
    Exited,
    WaitFailed,
    ExecutionTimeout,
}

pub enum SessionEventView {
    Output(Seq<u8>),
    SetupTimeout,
    ConnectRefused,
    ConnectTimedOut,
    ConnectFailed,
    Connected,
    Exited,
    WaitFailed,
    ExecutionTimeout,
}

impl View for SessionEvent {
    type V = SessionEventView;

    open spec fn view(&self) -> SessionEventView {
        match self {
            SessionEvent::Output(b) => SessionEventView::Output(b@),
            SessionEvent::SetupTimeout => SessionEventView::SetupTimeout,
            SessionEvent::ConnectRefused => SessionEventView::ConnectRefused,
            SessionEvent::ConnectTimedOut => SessionEventView::ConnectTimedOut,
            SessionEvent::ConnectFailed => SessionEventView::ConnectFailed,
            SessionEvent::Connected => SessionEventView::Connected,
            SessionEvent::Exited => SessionEventView::Exited,
            SessionEvent::WaitFailed => SessionEventView::WaitFailed,
            SessionEvent::ExecutionTimeout => SessionEventView::ExecutionTimeout,
        }
    }
}

pub struct SessionView {
    pub phase: Phase,
    pub output: Seq<u8>,
    pub marker: Seq<u8>,
}

/// One event's effect on a session, and the action it calls for.
pub open spec fn session_step(s: SessionView, e: SessionEventView) -> (SessionView, SessionAction) {
    let to = |p: Phase| SessionView { phase: p, output: s.output, marker: s.marker };
    match (s.phase, e) {
        (Phase::AwaitingReady, SessionEventView::Output(b)) => {
            let out = s.output + b;
            if occurs(out, s.marker) {
                (SessionView { phase: Phase::Connecting, output: out, marker: s.marker }, SessionAction::Connect)
            } else {
                (SessionView { phase: Phase::AwaitingReady, output: out, marker: s.marker }, SessionAction::Continue)
            }
        },
        (Phase::AwaitingReady, SessionEventView::SetupTimeout) => (
            to(Phase::Finished),
            SessionAction::Kill(FailReason::ReadinessTimeout),
        ),
        (Phase::Connecting, SessionEventView::SetupTimeout) => (
            to(Phase::Finished),
            SessionAction::Kill(FailReason::ReadinessTimeout),
        ),
        (Phase::Connecting, SessionEventView::ConnectRefused) => (to(Phase::Connecting), SessionAction::Connect),
        (Phase::Connecting, SessionEventView::ConnectTimedOut) => (to(Phase::Connecting), SessionAction::Connect),
        (Phase::Connecting, SessionEventView::ConnectFailed) => (
            to(Phase::Finished),
            SessionAction::Kill(FailReason::ConnectFailed),
        ),
        (Phase::Connecting, SessionEventView::Connected) => (to(Phase::Running), SessionAction::StartDecoding),
        (Phase::Running, SessionEventView::Exited) => (to(Phase::Finished), SessionAction::StopDecoding),
        (Phase::Running, SessionEventView::WaitFailed) => (to(Phase::Finished), SessionAction::StopDecoding),
        (Phase::Running, SessionEventView::ExecutionTimeout) => (
            to(Phase::Finished),
            SessionAction::Kill(FailReason::ExecutionTimeout),
        ),
        _ => (s, SessionAction::Continue),
    }
}

/// The actions that a run of events calls for, from `s` on.
pub open spec fn session_actions(s: SessionView, es: Seq<SessionEventView>) -> Seq<SessionAction>
    decreases es.len(),
{
    if es.len() == 0 {
        Seq::empty()
    } else {
        let (s2, a) = session_step(s, es[0]);
        seq![a] + session_actions(s2, es.skip(1))
    }
}

/// The decisions of one debug session.
pub struct Session {
    phase: Phase,
    output: Vec<u8>,
    marker: Vec<u8>,
}

impl View for Session {
    type V = SessionView;

    closed spec fn view(&self) -> SessionView {
        SessionView { phase: self.phase, output: self.output@, marker: self.marker@ }
    }
}

impl Session {
    /// Before readiness, the marker has not occurred in the output.
    pub closed spec fn wf(&self) -> bool {
        &&& self.marker@.len() > 0
        &&& self.phase == Phase::AwaitingReady ==> !occurs(self.output@, self.marker@)
    }

    /// A session that waits for `marker` in the debugger's output.
    pub fn new(marker: Vec<u8>) -> (r: Session)
        requires
            marker@.len() > 0,
        ensures
            r.wf(),
            r@ == (SessionView { phase: Phase::AwaitingReady, output: Seq::empty(), marker: marker@ }),
    {
        let r = Session { phase: Phase::AwaitingReady, output: Vec::new(), marker };
        proof {
            assert(r.output@ =~= Seq::<u8>::empty());
        }
        r
    }

    pub fn phase(&self) -> (r: Phase)
        ensures
            r == self@.phase,
    {
        self.phase
    }

    /// Whether the marker occurs in the output at a start position in `[from, to)`.
    fn marker_from(&self, from: usize) -> (r: bool)
        requires
            self.marker@.len() > 0,
        ensures
            r == exists|i: int|
                from <= i && i + self.marker@.len() <= self.output@.len()
                    && #[trigger] self.output@.subrange(i, i + self.marker@.len()) == self.marker@,
    {
        let n = self.output.len();
        let m = self.marker.len();
        if m > n {
            return false;
        }
        let mut i = from;
        while i <= n - m
            invariant
                n == self.output@.len(),
                m == self.marker@.len(),
                m <= n,
                from <= i,
                forall|j: int|
                    from <= j < i ==> #[trigger] self.output@.subrange(j, j + m) != self.marker@,
            decreases n - i,
        {
            let mut k: usize = 0;
            let mut same = true;
            while k < m
                invariant
                    k <= m,
                    i + m <= n,
                    n == self.output@.len(),
                    m == self.marker@.len(),
                    same == forall|t: int| 0 <= t < k ==> self.output@[i + t] == self.marker@[t],
                decreases m - k,
            {
                if self.output[i + k] != self.marker[k] {
                    same = false;
                }
                k = k + 1;
            }
            if same {
                proof {
                    assert(self.output@.subrange(i as int, i + m) =~= self.marker@);
                }
                return true;
            }
            proof {
                assert(self.output@.subrange(i as int, i + m) != self.marker@) by {
                    let t = choose|t: int| 0 <= t < m && self.output@[i + t] != self.marker@[t];
                    assert(self.output@.subrange(i as int, i + m)[t] == self.output@[i + t]);
                }
            }
            i = i + 1;
        }
        false
    }

    /// Applies one event and returns the action it calls for.
    pub fn on_event(&mut self, event: SessionEvent) -> (r: SessionAction)
        requires
            old(self).wf(),
        ensures
            final(self).wf(),
            (final(self)@, r) == session_step(old(self)@, event@),
    {
        match (self.phase, event) {
            (Phase::AwaitingReady, SessionEvent::Output(b)) => {
                let ghost before = self.output@;
                let old_len = self.output.len();
                let mut k: usize = 0;
                while k < b.len()
                    invariant
                        k <= b.len(),
                        self.output@ == before + b@.take(k as int),
                        self.marker@ == old(self).marker@,
                        self.phase == Phase::AwaitingReady,
                        before == old(self).output@,
                        old_len == before.len(),
                    decreases b.len() - k,
                {
                    self.output.push(b[k]);
                    k = k + 1;
                    proof {
                        assert(self.output@ =~= before + b@.take(k as int));
                    }
                }
                proof {
                    assert(b@.take(b@.len() as int) =~= b@);
                }
                let m = self.marker.len();
                let from = if old_len >= m {
                    old_len - m + 1
                } else {
                    0
                };
                let found = self.marker_from(from);
                proof {
                    let out = self.output@;
                    let mk = self.marker@;
                    if occurs(out, mk) {
                        let i = choose|i: int| 0 <= i && i + mk.len() <= out.len() && #[trigger] out.subrange(i, i + mk.len()) == mk;
                        if i < from {
                            assert(out.subrange(i, i + mk.len()) =~= before.subrange(i, i + mk.len()));
                            assert(occurs(before, mk));
                        }
                    }
                }
                if found {
                    self.phase = Phase::Connecting;
                    SessionAction::Connect
                } else {
                    SessionAction::Continue
                }
            },
            (Phase::AwaitingReady, SessionEvent::SetupTimeout) | (Phase::Connecting, SessionEvent::SetupTimeout) => {
                self.phase = Phase::Finished;
                SessionAction::Kill(FailReason::ReadinessTimeout)
            },
            (Phase::Connecting, SessionEvent::ConnectRefused) | (Phase::Connecting, SessionEvent::ConnectTimedOut) => {
                SessionAction::Connect
            },
            (Phase::Connecting, SessionEvent::ConnectFailed) => {
                self.phase = Phase::Finished;
                SessionAction::Kill(FailReason::ConnectFailed)
            },
            (Phase::Connecting, SessionEvent::Connected) => {
                self.phase = Phase::Running;
                SessionAction::StartDecoding
            },
            (Phase::Running, SessionEvent::Exited) | (Phase::Running, SessionEvent::WaitFailed) => {
                self.phase = Phase::Finished;
                SessionAction::StopDecoding
            },
            (Phase::Running, SessionEvent::ExecutionTimeout) => {
                self.phase = Phase::Finished;
                SessionAction::Kill(FailReason::ExecutionTimeout)
            },
            _ => SessionAction::Continue,
        }
    }
}


/// The chunks of output, one after the other.
pub open spec fn joined(outs: Seq<Seq<u8>>) -> Seq<u8>
    decreases outs.len(),
{
    if outs.len() == 0 {
        Seq::empty()
    } else {
        outs[0] + joined(outs.skip(1))
    }
}

/// Output chunks followed by the end of the setup window.
pub open spec fn outputs_then_timeout(outs: Seq<Seq<u8>>) -> Seq<SessionEventView> {
    outs.map_values(|o: Seq<u8>| SessionEventView::Output(o)).push(SessionEventView::SetupTimeout)
}

proof fn lemma_occurs_in_prefix(s: Seq<u8>, t: Seq<u8>, m: Seq<u8>)
    requires
        occurs(s, m),
    ensures
        occurs(s + t, m),
{
    let i = choose|i: int| 0 <= i && i + m.len() <= s.len() && #[trigger] s.subrange(i, i + m.len()) == m;
    assert((s + t).subrange(i, i + m.len()) =~= s.subrange(i, i + m.len()));
}

proof fn lemma_waiting_then_timeout(o: Seq<u8>, marker: Seq<u8>, outs: Seq<Seq<u8>>)
    requires
        !occurs(o + joined(outs), marker),
    ensures
        session_actions(
            SessionView { phase: Phase::AwaitingReady, output: o, marker },
            outputs_then_timeout(outs),
        ) == Seq::new(outs.len(), |k: int| SessionAction::Continue).push(
            SessionAction::Kill(FailReason::ReadinessTimeout),
        ),
    decreases outs.len(),
{
    let s = SessionView { phase: Phase::AwaitingReady, output: o, marker };
    let es = outputs_then_timeout(outs);
    if outs.len() == 0 {
        assert(es =~= seq![SessionEventView::SetupTimeout]);
        assert(es.skip(1) =~= Seq::<SessionEventView>::empty());
        let (s2, a) = session_step(s, es[0]);
        assert(a == SessionAction::Kill(FailReason::ReadinessTimeout));
        assert(session_actions(s2, es.skip(1)) == Seq::<SessionAction>::empty());
        assert(session_actions(s, es) =~= seq![a]);
        assert(Seq::new(0, |k: int| SessionAction::Continue).push(
            SessionAction::Kill(FailReason::ReadinessTimeout),
        ) =~= seq![SessionAction::Kill(FailReason::ReadinessTimeout)]);
    } else {
        let o2 = o + outs[0];
        assert(o + joined(outs) =~= o2 + joined(outs.skip(1)));
        if occurs(o2, marker) {
            lemma_occurs_in_prefix(o2, joined(outs.skip(1)), marker);
        }
        lemma_waiting_then_timeout(o2, marker, outs.skip(1));
        assert(es.skip(1) =~= outputs_then_timeout(outs.skip(1)));
        assert(es[0] == SessionEventView::Output(outs[0]));
        let s2 = SessionView { phase: Phase::AwaitingReady, output: o2, marker };
        assert(session_step(s, es[0]) == (s2, SessionAction::Continue));
        assert(session_actions(s, es) == seq![SessionAction::Continue] + session_actions(
            s2,
            es.skip(1),
        ));
        assert(Seq::new(outs.len(), |k: int| SessionAction::Continue).push(
            SessionAction::Kill(FailReason::ReadinessTimeout),
        ) =~= seq![SessionAction::Continue] + Seq::new(
            (outs.len() - 1) as nat,
            |k: int| SessionAction::Continue,
        ).push(SessionAction::Kill(FailReason::ReadinessTimeout)));
    }
}

/// When the setup window ends and the readiness marker never occurred in the debugger's
/// output, the session never asks for a connection and kills the debugger with a
/// readiness timeout.
pub proof fn lemma_setup_timeout_without_marker(marker: Seq<u8>, outs: Seq<Seq<u8>>)
    requires
        !occurs(joined(outs), marker),
    ensures
        session_actions(
            SessionView { phase: Phase::AwaitingReady, output: Seq::empty(), marker },
            outputs_then_timeout(outs),
        ) == Seq::new(outs.len(), |k: int| SessionAction::Continue).push(
            SessionAction::Kill(FailReason::ReadinessTimeout),
        ),
{
    assert(Seq::<u8>::empty() + joined(outs) =~= joined(outs));
    lemma_waiting_then_timeout(Seq::empty(), marker, outs);
}

} // verus!
