use rudis::client::interpret_get_response;
use rudis::client::interpret_set_response;
use rudis::client::screen_response;
use rudis::client::ClientError;
use rudis::frame::Frame;

#[test]
fn error_replies_become_failures() {
    let r = screen_response(Some(Frame::Error("boom".to_string())));
    match r {
        Err(ClientError::ErrorReply(m)) => assert_eq!(m, "boom"),
        _ => panic!("expected the error reply to be carried back"),
    }
}

#[test]
fn closed_stream_is_a_reset() {
    assert!(matches!(screen_response(None), Err(ClientError::ConnectionReset)));
}

#[test]
fn ordinary_replies_pass_through() {
    let r = screen_response(Some(Frame::Integer(3)));
    assert!(matches!(r, Ok(Frame::Integer(3))));
}

#[test]
fn get_replies_carry_the_value_or_absence() {
    let r = interpret_get_response(Frame::Bulk("world".as_bytes().to_vec()));
    assert_eq!(r.unwrap(), Some("world".as_bytes().to_vec()));
    let r = interpret_get_response(Frame::Simple("hi".to_string()));
    assert_eq!(r.unwrap(), Some("hi".as_bytes().to_vec()));
    let r = interpret_get_response(Frame::Null);
    assert_eq!(r.unwrap(), None);
    assert!(matches!(
        interpret_get_response(Frame::Integer(1)),
        Err(ClientError::UnexpectedFrame)
    ));
}

#[test]
fn only_ok_counts_as_a_successful_set() {
    assert!(interpret_set_response(Frame::Simple("OK".to_string())).is_ok());
    assert!(matches!(
        interpret_set_response(Frame::Simple("ko".to_string())),
        Err(ClientError::UnexpectedFrame)
    ));
    assert!(matches!(
        interpret_set_response(Frame::Null),
        Err(ClientError::UnexpectedFrame)
    ));
}
