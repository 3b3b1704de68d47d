use rudis::cmd::Command;
use rudis::cmd::Get;
use rudis::cmd::SetCmd;
use rudis::frame::Frame;
use rudis::parse::ParseError;

fn bulk(s: &str) -> Frame {
    Frame::Bulk(s.as_bytes().to_vec())
}

#[test]
fn parses_get() {
    let frame = Frame::Array(vec![bulk("get"), bulk("hello")]);
    match Command::from_frame(frame) {
        Ok(Command::Get(g)) => assert_eq!(g.key, "hello"),
        other => panic!("expected a GET command, got {:?}", other.map(|c| c.get_name().to_string())),
    }
}

#[test]
fn verb_is_case_insensitive() {
    let frame = Frame::Array(vec![bulk("GeT"), bulk("hello")]);
    assert!(matches!(Command::from_frame(frame), Ok(Command::Get(_))));
    let frame = Frame::Array(vec![Frame::Simple("SET".to_string()), bulk("k"), bulk("v")]);
    assert!(matches!(Command::from_frame(frame), Ok(Command::SetCmd(_))));
}

#[test]
fn parses_set_with_ex_seconds() {
    let frame = Frame::Array(vec![bulk("set"), bulk("k"), bulk("v"), bulk("EX"), Frame::Integer(60)]);
    match Command::from_frame(frame) {
        Ok(Command::SetCmd(c)) => {
            assert_eq!(c.key, "k");
            assert_eq!(c.value, "v".as_bytes().to_vec());
            assert_eq!(c.expire, Some(60_000));
        }
        _ => panic!("expected a SET command"),
    }
}

#[test]
fn parses_set_with_px_milliseconds_as_digits() {
    let frame = Frame::Array(vec![bulk("set"), bulk("k"), bulk("v"), bulk("px"), bulk("1500")]);
    match Command::from_frame(frame) {
        Ok(Command::SetCmd(c)) => assert_eq!(c.expire, Some(1500)),
        _ => panic!("expected a SET command"),
    }
}

#[test]
fn set_without_option_has_no_expiration() {
    let frame = Frame::Array(vec![bulk("set"), bulk("k"), bulk("v")]);
    match Command::from_frame(frame) {
        Ok(Command::SetCmd(c)) => assert_eq!(c.expire, None),
        _ => panic!("expected a SET command"),
    }
}

#[test]
fn set_missing_value_is_end_of_stream() {
    let frame = Frame::Array(vec![bulk("set"), bulk("k")]);
    assert_eq!(Command::from_frame(frame).err(), Some(ParseError::EndOfStream));
}

#[test]
fn set_non_numeric_expiration_is_invalid_number() {
    let frame = Frame::Array(vec![bulk("set"), bulk("k"), bulk("v"), bulk("ex"), bulk("abc")]);
    assert_eq!(Command::from_frame(frame).err(), Some(ParseError::InvalidNumber));
}

#[test]
fn px_parses_the_largest_fitting_number_and_refuses_the_next() {
    let frame = Frame::Array(vec![bulk("set"), bulk("k"), bulk("v"), bulk("px"), bulk("18446744073709551615")]);
    match Command::from_frame(frame) {
        Ok(Command::SetCmd(c)) => assert_eq!(c.expire, Some(u64::MAX)),
        _ => panic!("expected a SET command"),
    }
    let frame = Frame::Array(vec![bulk("set"), bulk("k"), bulk("v"), bulk("px"), bulk("18446744073709551616")]);
    assert_eq!(Command::from_frame(frame).err(), Some(ParseError::InvalidNumber));
}

#[test]
fn ex_seconds_too_large_for_milliseconds_are_refused() {
    let frame = Frame::Array(vec![bulk("set"), bulk("k"), bulk("v"), bulk("ex"), Frame::Integer(u64::MAX)]);
    assert_eq!(Command::from_frame(frame).err(), Some(ParseError::InvalidNumber));
}

#[test]
fn set_unknown_option_is_refused() {
    let frame = Frame::Array(vec![bulk("set"), bulk("k"), bulk("v"), bulk("xx"), bulk("1")]);
    assert_eq!(Command::from_frame(frame).err(), Some(ParseError::UnsupportedOption));
}

#[test]
fn trailing_arguments_fail_parsing() {
    let frame = Frame::Array(vec![bulk("get"), bulk("k"), bulk("extra")]);
    assert_eq!(Command::from_frame(frame).err(), Some(ParseError::TrailingFrames));
    let frame = Frame::Array(vec![bulk("set"), bulk("k"), bulk("v"), bulk("px"), bulk("1"), bulk("x")]);
    assert_eq!(Command::from_frame(frame).err(), Some(ParseError::TrailingFrames));
}

#[test]
fn non_array_request_is_refused() {
    assert_eq!(Command::from_frame(bulk("get")).err(), Some(ParseError::ExpectedArray));
}

#[test]
fn empty_array_is_end_of_stream() {
    let frame = Frame::Array(Vec::new());
    assert_eq!(Command::from_frame(frame).err(), Some(ParseError::EndOfStream));
}

#[test]
fn invalid_utf8_key_is_refused() {
    let frame = Frame::Array(vec![bulk("get"), Frame::Bulk(vec![0xff, 0xfe])]);
    assert_eq!(Command::from_frame(frame).err(), Some(ParseError::InvalidString));
}

#[test]
fn integer_verb_is_wrong_frame_type() {
    let frame = Frame::Array(vec![Frame::Integer(7), bulk("k")]);
    assert_eq!(Command::from_frame(frame).err(), Some(ParseError::InvalidFrameType));
}

#[test]
fn unknown_verb_still_parses_and_is_lowercased() {
    let frame = Frame::Array(vec![bulk("FOO"), bulk("whatever")]);
    match Command::from_frame(frame) {
        Ok(Command::Unknown(u)) => assert_eq!(u.command_name, "foo"),
        _ => panic!("expected an unknown command"),
    }
}

#[test]
fn subscribe_needs_a_channel_and_unsubscribe_does_not() {
    let frame = Frame::Array(vec![bulk("subscribe")]);
    assert_eq!(Command::from_frame(frame).err(), Some(ParseError::EndOfStream));
    let frame = Frame::Array(vec![bulk("subscribe"), bulk("a"), bulk("b")]);
    match Command::from_frame(frame) {
        Ok(Command::Subscribe(s)) => assert_eq!(s.channels, vec!["a".to_string(), "b".to_string()]),
        _ => panic!("expected a SUBSCRIBE command"),
    }
    let frame = Frame::Array(vec![bulk("unsubscribe")]);
    match Command::from_frame(frame) {
        Ok(Command::Unsubscribe(u)) => assert!(u.channels.is_empty()),
        _ => panic!("expected an UNSUBSCRIBE command"),
    }
}

#[test]
fn command_names() {
    let get = Command::from_frame(Frame::Array(vec![bulk("get"), bulk("k")])).unwrap();
    assert_eq!(get.get_name(), "get");
    let unknown = Command::from_frame(Frame::Array(vec![bulk("NOPE")])).unwrap();
    assert_eq!(unknown.get_name(), "nope");
}

#[test]
fn built_request_frames_parse_back() {
    let frame = Get::new("hello").into_frame();
    match Command::from_frame(frame) {
        Ok(Command::Get(g)) => assert_eq!(g.key, "hello"),
        _ => panic!("expected the GET to round trip"),
    }
    let frame = SetCmd::new("hello", "world".as_bytes().to_vec(), Some(60_000)).into_frame();
    match Command::from_frame(frame) {
        Ok(Command::SetCmd(c)) => {
            assert_eq!(c.key, "hello");
            assert_eq!(c.value, "world".as_bytes().to_vec());
            assert_eq!(c.expire, Some(60_000));
        }
        _ => panic!("expected the SET to round trip"),
    }
}
