//! The decoded protocol message unit. A request is always an array whose
//! first element names the command; responses use a simple string for status
//! replies, a bulk or null frame for values, an error frame for failures and
//! an integer frame for counts. Byte-level encoding and decoding live with
//! the transport, outside this crate's concern.
use vstd::prelude::*;
use vstd::utf8::decode_utf8;
use vstd::utf8::encode_utf8;
use vstd::utf8::valid_utf8;

verus! {

/// One decoded protocol message unit, request or response.
pub enum Frame {
    Simple(String),
    Error(String),
    Integer(u64),
    Bulk(Vec<u8>),
    Null,
    Array(Vec<Frame>),
}

/// The text a frame names, where the protocol expects a string: a simple
/// frame names its characters, a bulk frame the text its bytes encode (when
/// they are valid), and no other frame names text.
pub open spec fn spec_as_string(f: Frame) -> Option<Seq<char>> {
    match f {
        Frame::Simple(s) => Some(s@),
        Frame::Bulk(b) => if valid_utf8(b@) {
            Some(decode_utf8(b@))
        } else {
            None
        },
        _ => None,
    }
}

/// The payload a frame carries, where the protocol expects bytes: a bulk
/// frame carries its bytes, a simple frame the encoding of its text.
pub open spec fn spec_as_bytes(f: Frame) -> Option<Seq<u8>> {
    match f {
        Frame::Simple(s) => Some(encode_utf8(s@)),
        Frame::Bulk(b) => Some(b@),
        _ => None,
    }
}

/// The number a frame carries, where the protocol expects one: an integer
/// frame carries it directly, a simple or bulk frame as a run of decimal
/// digits small enough to fit.
pub open spec fn spec_as_int(f: Frame) -> Option<u64> {
    match f {
        Frame::Integer(v) => Some(v),
        Frame::Simple(s) => spec_dec_u64(encode_utf8(s@)),
        Frame::Bulk(b) => spec_dec_u64(b@),
        _ => None,
    }
}

/// Whether `s` is a non-empty run of ASCII decimal digits.
pub open spec fn spec_all_digits(s: Seq<u8>) -> bool {
    s.len() > 0 && forall|i: int| 0 <= i < s.len() ==> 48 <= #[trigger] s[i] <= 57
}

/// The number a run of decimal digits denotes.
pub open spec fn spec_dec_value(s: Seq<u8>) -> int
    decreases s.len(),
{
    if s.len() == 0 {
        0
    } else {
        spec_dec_value(s.drop_last()) * 10 + (s.last() - 48)
    }
}

/// The number `s` denotes when it is all digits and fits in 64 bits.
pub open spec fn spec_dec_u64(s: Seq<u8>) -> Option<u64> {
    if spec_all_digits(s) && spec_dec_value(s) <= u64::MAX {
        Some(spec_dec_value(s) as u64)
    } else {
        None
    }
}

} // verus!
