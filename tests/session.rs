use embedded_runner::decode::{DecodeAction, DecodeEvent, DefmtError, FrameReader, ReadAction, ReadEvent};
use embedded_runner::frame::{Location, LogFrame};
use embedded_runner::session::{FailReason, Phase, Session, SessionAction, SessionEvent};

fn frame(text: &str) -> LogFrame {
    LogFrame {
        data: text.to_string(),
        host_timestamp: 0,
        level: None,
        location: Location { file: None, line: None, mod_path: None },
        target_timestamp: String::new(),
    }
}

#[test]
fn recoverable_decoding_skips_malformed_spans() {
    let mut reader = FrameReader::new(true);
    assert_eq!(reader.on_decode(DecodeEvent::Decoded(frame("a"))), DecodeAction::DecodeNext);
    assert_eq!(reader.on_decode(DecodeEvent::Malformed), DecodeAction::DecodeNext);
    assert_eq!(reader.on_decode(DecodeEvent::Decoded(frame("b"))), DecodeAction::DecodeNext);
    assert_eq!(reader.on_decode(DecodeEvent::UnexpectedEof), DecodeAction::ReadMore);
    let texts: Vec<String> = reader.into_frames().into_iter().map(|f| f.data).collect();
    assert_eq!(texts, vec!["a".to_string(), "b".to_string()]);
}

#[test]
fn unrecoverable_decoding_aborts_on_malformed_span() {
    let mut reader = FrameReader::new(false);
    assert_eq!(reader.on_decode(DecodeEvent::Decoded(frame("a"))), DecodeAction::DecodeNext);
    assert_eq!(reader.on_decode(DecodeEvent::Malformed), DecodeAction::Abort);
}

#[test]
fn read_outcomes() {
    let reader = FrameReader::new(true);
    assert!(matches!(reader.on_read(ReadEvent::Cancelled), ReadAction::Finish));
    assert!(matches!(reader.on_read(ReadEvent::Received(0)), ReadAction::Finish));
    assert!(matches!(reader.on_read(ReadEvent::Received(5)), ReadAction::Decode));
    assert!(matches!(reader.on_read(ReadEvent::TimedOut), ReadAction::ReadAgain));
    assert!(matches!(reader.on_read(ReadEvent::Closed), ReadAction::Finish));
    match reader.on_read(ReadEvent::Failed("broken pipe".to_string())) {
        ReadAction::Fail(DefmtError::TcpError(m)) => assert_eq!(m, "broken pipe"),
        _ => panic!("transport error not reported"),
    }
}

#[test]
fn setup_timeout_without_marker_kills() {
    let mut s = Session::new(b"READY".to_vec());
    assert_eq!(s.on_event(SessionEvent::Output(b"starting RE".to_vec())), SessionAction::Continue);
    assert_eq!(s.on_event(SessionEvent::Output(b"AD? no".to_vec())), SessionAction::Continue);
    assert_eq!(
        s.on_event(SessionEvent::SetupTimeout),
        SessionAction::Kill(FailReason::ReadinessTimeout)
    );
    assert_eq!(s.phase(), Phase::Finished);
    assert_eq!(s.on_event(SessionEvent::Connected), SessionAction::Continue);
}

#[test]
fn marker_split_across_chunks_is_found() {
    let mut s = Session::new(b"READY".to_vec());
    assert_eq!(s.on_event(SessionEvent::Output(b"...RE".to_vec())), SessionAction::Continue);
    assert_eq!(s.on_event(SessionEvent::Output(b"ADY\n".to_vec())), SessionAction::Connect);
    assert_eq!(s.phase(), Phase::Connecting);
}

#[test]
fn full_session() {
    let mut s = Session::new(b"ok".to_vec());
    assert_eq!(s.on_event(SessionEvent::Output(b"ok".to_vec())), SessionAction::Connect);
    assert_eq!(s.on_event(SessionEvent::ConnectRefused), SessionAction::Connect);
    assert_eq!(s.on_event(SessionEvent::ConnectTimedOut), SessionAction::Connect);
    assert_eq!(s.on_event(SessionEvent::Connected), SessionAction::StartDecoding);
    assert_eq!(s.phase(), Phase::Running);
    assert_eq!(s.on_event(SessionEvent::Exited), SessionAction::StopDecoding);
    assert_eq!(s.phase(), Phase::Finished);
}

#[test]
fn other_connect_error_and_execution_timeout_kill() {
    let mut s = Session::new(b"ok".to_vec());
    s.on_event(SessionEvent::Output(b"ok".to_vec()));
    assert_eq!(s.on_event(SessionEvent::ConnectFailed), SessionAction::Kill(FailReason::ConnectFailed));
    let mut s = Session::new(b"ok".to_vec());
    s.on_event(SessionEvent::Output(b"ok".to_vec()));
    s.on_event(SessionEvent::Connected);
    assert_eq!(
        s.on_event(SessionEvent::ExecutionTimeout),
        SessionAction::Kill(FailReason::ExecutionTimeout)
    );
    let mut s = Session::new(b"ok".to_vec());
    s.on_event(SessionEvent::Output(b"ok".to_vec()));
    assert_eq!(
        s.on_event(SessionEvent::SetupTimeout),
        SessionAction::Kill(FailReason::ReadinessTimeout)
    );
}
