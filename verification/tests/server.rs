use rudis::db::State;
use rudis::frame::Frame;
use rudis::parse::ParseError;
use rudis::server::handle_frame;
use rudis::server::AcceptBackoff;
use rudis::server::HandlerError;
use rudis::server::Lifecycle;
use rudis::MAX_CONNECTIONS;

fn bulk(s: &str) -> Frame {
    Frame::Bulk(s.as_bytes().to_vec())
}

#[test]
fn set_then_get_round_trip() {
    let mut db = State::new();
    let set = Frame::Array(vec![bulk("set"), bulk("hello"), bulk("world"), bulk("ex"), bulk("60")]);
    let (reply, notify) = handle_frame(&mut db, set, 0).unwrap();
    assert!(matches!(reply, Frame::Simple(s) if s == "OK"));
    assert!(notify);
    let get = Frame::Array(vec![bulk("get"), bulk("hello")]);
    let (reply, notify) = handle_frame(&mut db, get, 0).unwrap();
    assert!(matches!(reply, Frame::Bulk(b) if b == "world".as_bytes()));
    assert!(!notify);
    let missing = Frame::Array(vec![bulk("get"), bulk("missing")]);
    let (reply, _) = handle_frame(&mut db, missing, 0).unwrap();
    assert!(matches!(reply, Frame::Null));
}

#[test]
fn unknown_command_gets_error_reply_and_connection_stays_usable() {
    let mut db = State::new();
    let foo = Frame::Array(vec![bulk("FOO"), bulk("x")]);
    let (reply, notify) = handle_frame(&mut db, foo, 0).unwrap();
    match reply {
        Frame::Error(m) => assert_eq!(m, "ERR unknown command 'foo'"),
        _ => panic!("expected an error reply"),
    }
    assert!(!notify);
    let set = Frame::Array(vec![bulk("set"), bulk("k"), bulk("v")]);
    let (reply, _) = handle_frame(&mut db, set, 0).unwrap();
    assert!(matches!(reply, Frame::Simple(s) if s == "OK"));
}

#[test]
fn protocol_error_aborts_the_connection_step() {
    let mut db = State::new();
    let bad = Frame::Array(vec![bulk("get")]);
    assert!(matches!(
        handle_frame(&mut db, bad, 0),
        Err(HandlerError::Protocol(ParseError::EndOfStream))
    ));
}

#[test]
fn unwired_commands_report_unimplemented() {
    let mut db = State::new();
    let publish = Frame::Array(vec![bulk("publish"), bulk("ch"), bulk("msg")]);
    assert!(matches!(handle_frame(&mut db, publish, 0), Err(HandlerError::Unimplemented)));
    let subscribe = Frame::Array(vec![bulk("subscribe"), bulk("ch")]);
    assert!(matches!(handle_frame(&mut db, subscribe, 0), Err(HandlerError::Unimplemented)));
}

#[test]
fn admission_refused_at_the_ceiling_and_one_slot_per_exit() {
    let mut l = Lifecycle::new(2);
    assert!(l.try_admit());
    assert!(l.try_admit());
    assert!(!l.try_admit());
    l.handler_exited();
    assert!(l.try_admit());
    assert!(!l.try_admit());
}

#[test]
fn default_ceiling_admits_exactly_that_many() {
    let mut l = Lifecycle::new(MAX_CONNECTIONS);
    for _ in 0..MAX_CONNECTIONS {
        assert!(l.try_admit());
    }
    assert!(!l.try_admit());
}

#[test]
fn shutdown_blocks_admission_and_drains_before_completion() {
    let mut l = Lifecycle::new(4);
    assert!(l.try_admit());
    assert!(l.try_admit());
    l.trigger_shutdown();
    assert!(!l.try_admit());
    assert!(!l.drain_complete());
    l.handler_exited();
    assert!(!l.try_admit());
    assert!(!l.drain_complete());
    l.handler_exited();
    assert!(l.drain_complete());
}

#[test]
fn accept_backoff_doubles_to_the_ceiling_then_gives_up() {
    let mut b = AcceptBackoff::new();
    let mut waits = Vec::new();
    loop {
        match b.on_error() {
            Some(w) => waits.push(w),
            None => break,
        }
    }
    assert_eq!(waits, vec![1, 2, 4, 8, 16, 32]);
    assert_eq!(b.on_error(), None);
}
