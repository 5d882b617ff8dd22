//! The decisions of the loop that reads the log transport and feeds the frame decoder.
//! The caller performs the reads and decode attempts and reports each outcome; the
//! reader keeps the decoded frames and says what to do next.
use vstd::prelude::*;

use crate::frame::{LogFrame, LogFrameView};

verus! {

#[derive(Debug)]
pub enum DefmtError {
    MalformedFrame,
    NoFramesReceived,
    TcpError(String),
    TcpConnect(String),
    ReadBinary(String),
    MissingDefmt,
}

/// Outcome of one read from the transport.
pub enum ReadEvent {
    /// The end of the session was signalled before the read.
    Cancelled,
    /// This many bytes arrived; 0 when the peer closed the connection cleanly.
    Received(usize),
    /// Nothing arrived before the read's timeout.
    TimedOut,
    /// The peer closed or reset the connection.
    Closed,
    /// Any other transport error.
    Failed(String),
}

/// What to do after a read.
pub enum ReadAction {
    /// Hand the received bytes to the decoder and decode.
    Decode,
    /// Read again.
    ReadAgain,
    /// Stop; the frames decoded so far are the result.
    Finish,
    /// Stop with this error.
    Fail(DefmtError),
}

/// Outcome of one decode attempt.
pub enum DecodeEvent {
    Decoded(LogFrame),
    /// The buffered bytes end inside a frame.
    UnexpectedEof,
    /// The buffered bytes do not form a frame.
    Malformed,
}

/// What to do after a decode attempt.
#[derive(Clone, Copy, Debug, PartialEq, Eq, Structural)]
pub enum DecodeAction {
    DecodeNext,
    ReadMore,
    /// Stop with `DefmtError::MalformedFrame`.
    Abort,
}

pub enum DecodeEventView {
    Decoded(LogFrameView),
    UnexpectedEof,
    Malformed,
}

impl View for DecodeEvent {
    type V = DecodeEventView;

    open spec fn view(&self) -> DecodeEventView {
        match self {
            DecodeEvent::Decoded(f) => DecodeEventView::Decoded(f@),
            DecodeEvent::UnexpectedEof => DecodeEventView::UnexpectedEof,
            DecodeEvent::Malformed => DecodeEventView::Malformed,
        }
    }
}

/// What follows a decode attempt, and the frame it adds, if any.
pub open spec fn decode_step(recoverable: bool, e: DecodeEventView) -> (DecodeAction, Option<LogFrameView>) {
    match e {
        DecodeEventView::Decoded(f) => (DecodeAction::DecodeNext, Some(f)),
        DecodeEventView::UnexpectedEof => (DecodeAction::ReadMore, None),
        DecodeEventView::Malformed => if recoverable {
            (DecodeAction::DecodeNext, None)
        } else {
            (DecodeAction::Abort, None)
        },
    }
}

/// The frames kept after a run of decode outcomes, or `None` where the run was aborted.
pub open spec fn decode_all(recoverable: bool, kept: Seq<LogFrameView>, es: Seq<DecodeEventView>) -> Option<Seq<LogFrameView>>
    decreases es.len(),
{
    if es.len() == 0 {
        Some(kept)
    } else {
        let (action, frame) = decode_step(recoverable, es[0]);
        if action == DecodeAction::Abort {
            None
        } else {
            let kept2 = match frame {
                Some(f) => kept.push(f),
                None => kept,
            };
            decode_all(recoverable, kept2, es.skip(1))
        }
    }
}

/// The frames that a run of decode outcomes carries, in order.
pub open spec fn decoded_frames(es: Seq<DecodeEventView>) -> Seq<LogFrameView>
    decreases es.len(),
{
    if es.len() == 0 {
        Seq::empty()
    } else {
        let rest = decoded_frames(es.skip(1));
        match es[0] {
            DecodeEventView::Decoded(f) => seq![f] + rest,
            _ => rest,
        }
    }
}

/// The decisions of one transport session.
pub struct FrameReader {
    recoverable: bool,
    frames: Vec<LogFrame>,
}

impl FrameReader {
    pub closed spec fn recoverable(&self) -> bool {
        self.recoverable
    }

    pub closed spec fn frames(&self) -> Seq<LogFrameView> {
        self.frames@.map_values(|f: LogFrame| f@)
    }

    /// A reader for a format whose encoding can (`recoverable`) or cannot skip corrupt data.
    pub fn new(recoverable: bool) -> (r: FrameReader)
        ensures
            r.recoverable() == recoverable,
            r.frames() == Seq::<LogFrameView>::empty(),
    {
        let r = FrameReader { recoverable, frames: Vec::new() };
        proof {
            assert(r.frames() =~= Seq::<LogFrameView>::empty());
        }
        r
    }

    /// Decides after a read: decode what arrived, read again, or stop. A clean close
    /// (a read of 0 bytes), a reset or the end signal ends the session normally.
    pub fn on_read(&self, event: ReadEvent) -> (r: ReadAction)
        ensures
            event is Cancelled ==> r is Finish,
            event is Closed ==> r is Finish,
            event is TimedOut ==> r is ReadAgain,
            event matches ReadEvent::Received(n) ==> if n == 0 {
                r is Finish
            } else {
                r is Decode
            },
            event matches ReadEvent::Failed(m) ==> r matches ReadAction::Fail(DefmtError::TcpError(
                m2,
            )) && m2@ == m@,
    {
        match event {
            ReadEvent::Cancelled => ReadAction::Finish,
            ReadEvent::Received(n) => if n == 0 {
                ReadAction::Finish
            } else {
                ReadAction::Decode
            },
            ReadEvent::TimedOut => ReadAction::ReadAgain,
            ReadEvent::Closed => ReadAction::Finish,
            ReadEvent::Failed(m) => ReadAction::Fail(DefmtError::TcpError(m)),
        }
    }

    /// Decides after a decode attempt and keeps the decoded frame.
    pub fn on_decode(&mut self, event: DecodeEvent) -> (r: DecodeAction)
        ensures
            final(self).recoverable() == old(self).recoverable(),
            r == decode_step(old(self).recoverable(), event@).0,
            final(self).frames() == match decode_step(old(self).recoverable(), event@).1 {
                Some(f) => old(self).frames().push(f),
                None => old(self).frames(),
            },
    {
        match event {
            DecodeEvent::Decoded(f) => {
                let ghost fv = f@;
                self.frames.push(f);
                proof {
                    assert(self.frames() =~= old(self).frames().push(fv));
                }
                DecodeAction::DecodeNext
            },
            DecodeEvent::UnexpectedEof => DecodeAction::ReadMore,
            DecodeEvent::Malformed => if self.recoverable {
                DecodeAction::DecodeNext
            } else {
                DecodeAction::Abort
            },
        }
    }

    /// The frames decoded in the session, in order.
    pub fn into_frames(self) -> (r: Vec<LogFrame>)
        ensures
            r@.map_values(|f: LogFrame| f@) == self.frames(),
    {
        self.frames
    }
}

/// With an encoding that can recover, corrupt data never stops decoding: every frame
/// decoded after it is kept, in order.
pub proof fn lemma_recoverable_keeps_all(kept: Seq<LogFrameView>, es: Seq<DecodeEventView>)
    ensures
        decode_all(true, kept, es) == Some(kept + decoded_frames(es)),
    decreases es.len(),
{
    if es.len() == 0 {
        assert(kept + Seq::<LogFrameView>::empty() =~= kept);
    } else {
        lemma_recoverable_keeps_all(
            match es[0] {
                DecodeEventView::Decoded(f) => kept.push(f),
                _ => kept,
            },
            es.skip(1),
        );
        match es[0] {
            DecodeEventView::Decoded(f) => {
                assert(kept.push(f) + decoded_frames(es.skip(1)) =~= kept + (seq![f]
                    + decoded_frames(es.skip(1))));
            },
            _ => {},
        }
    }
}

/// With an encoding that cannot recover, one malformed span aborts the whole decode.
pub proof fn lemma_unrecoverable_aborts(kept: Seq<LogFrameView>, es: Seq<DecodeEventView>, k: int)
    requires
        0 <= k < es.len(),
        es[k] is Malformed,
    ensures
        decode_all(false, kept, es) is None,
    decreases k,
{
    if k > 0 {
        let kept2 = match es[0] {
            DecodeEventView::Decoded(f) => kept.push(f),
            _ => kept,
        };
        if !(es[0] is Malformed) {
            assert(es.skip(1)[k - 1] == es[k]);
            lemma_unrecoverable_aborts(kept2, es.skip(1), k - 1);
        }
    }
}

/// Whether every index of the format table has a location entry.
pub fn all_indices_located(indices: &Vec<u64>, located: &Vec<u64>) -> (r: bool)
    ensures
        r == forall|i: int| 0 <= i < indices.len() ==> located@.contains(#[trigger] indices@[i]),
{
    let mut i: usize = 0;
    while i < indices.len()
        invariant
            i <= indices.len(),
            forall|j: int| 0 <= j < i ==> located@.contains(#[trigger] indices@[j]),
        decreases indices.len() - i,
    {
        let mut k: usize = 0;
        let mut found = false;
        while k < located.len()
            invariant
                k <= located.len(),
                i < indices.len(),
                found ==> located@.contains(indices@[i as int]),
                !found ==> forall|j: int| 0 <= j < k ==> located@[j] != indices@[i as int],
            decreases located.len() - k,
        {
            if located[k] == indices[i] {
                found = true;
            }
            k = k + 1;
        }
        if !found {
            proof {
                assert(!located@.contains(indices@[i as int]));
            }
            return false;
        }
        i = i + 1;
    }
    true
}

} // verus!
