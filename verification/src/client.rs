//! The compute half of a protocol client. Request frames are built by the
//! commands themselves; here stands what a client decides from the frames it
//! gets back. The socket, and the buffering around it, live with the
//! asynchronous shell.
use vstd::prelude::*;
use vstd::utf8::encode_utf8;

use crate::frame::Frame;
use crate::text::str_eq;

verus! {

/// Why a reply could not be taken at face value.
#[derive(Debug)]
pub enum ClientError {
    /// The server answered with an error reply; its message is carried.
    ErrorReply(String),
    /// The reply's frame type does not fit the request that was sent.
    UnexpectedFrame,
    /// The connection closed before a reply arrived.
    ConnectionReset,
}

/// What one read of the reply stream means: an error frame is a failure
/// carried back to the caller, end-of-stream is a reset, and any other frame
/// is the reply itself.
pub fn screen_response(response: Option<Frame>) -> (r: Result<Frame, ClientError>)
    ensures
        match response {
            Some(f) => match f {
                Frame::Error(m) => r matches Err(e) && (e matches ClientError::ErrorReply(m2)
                    && m2@ == m@),
                _ => r matches Ok(g) && g == f,
            },
            None => r matches Err(e) && e is ConnectionReset,
        },
{
    match response {
        Some(f) => match f {
            Frame::Error(m) => Err(ClientError::ErrorReply(m)),
            other => Ok(other),
        },
        None => Err(ClientError::ConnectionReset),
    }
}

/// The value a GET reply carries: a simple or bulk frame carries the value
/// (a simple one as its text's bytes), a null frame means the key is absent,
/// and any other frame does not fit the request.
pub fn interpret_get_response(f: Frame) -> (r: Result<Option<Vec<u8>>, ClientError>)
    ensures
        match f {
            Frame::Simple(s) => r matches Ok(v) && (v matches Some(b) && b@ == encode_utf8(
                s@,
            )),
            Frame::Bulk(data) => r matches Ok(v) && (v matches Some(b) && b@ == data@),
            Frame::Null => r matches Ok(v) && v is None,
            _ => r matches Err(e) && e is UnexpectedFrame,
        },
{
    match f {
        Frame::Simple(s) => Ok(Some(s.as_str().as_bytes_vec())),
        Frame::Bulk(data) => Ok(Some(data)),
        Frame::Null => Ok(None),
        _ => Err(ClientError::UnexpectedFrame),
    }
}

/// What a SET reply means: only the simple string `OK` is success.
pub fn interpret_set_response(f: Frame) -> (r: Result<(), ClientError>)
    ensures
        match f {
            Frame::Simple(s) => if s@ == "OK"@ {
                r is Ok
            } else {
                r matches Err(e) && e is UnexpectedFrame
            },
            _ => r matches Err(e) && e is UnexpectedFrame,
        },
{
    match f {
        Frame::Simple(s) => if str_eq(s.as_str(), "OK") {
            Ok(())
        } else {
            Err(ClientError::UnexpectedFrame)
        },
        _ => Err(ClientError::UnexpectedFrame),
    }
}

} // verus!
