//! Walking the elements of a request frame: a cursor over the array's
//! elements, handing out each as the string, the bytes or the number the
//! command grammar expects there.
use vstd::prelude::*;
use vstd::string::StrSliceExecFns;

use crate::frame::spec_all_digits;
use crate::frame::spec_as_bytes;
use crate::frame::spec_as_int;
use crate::frame::spec_as_string;
use crate::frame::spec_dec_u64;
use crate::frame::spec_dec_value;
use crate::frame::Frame;
use crate::text::string_from_utf8;

verus! {

/// Why a request failed to parse.
#[derive(Clone, Copy, Debug, PartialEq, Eq, Structural)]
pub enum ParseError {
    /// The array held fewer elements than the command needs.
    EndOfStream,
    /// The request was not an array frame.
    ExpectedArray,
    /// An element had a frame type the protocol does not allow there.
    InvalidFrameType,
    /// Bytes that should name a string were not valid text.
    InvalidString,
    /// A number was malformed or does not fit.
    InvalidNumber,
    /// An option the command does not support.
    UnsupportedOption,
    /// Elements were left over after the command's known fields.
    TrailingFrames,
}

/// The error a frame draws where a string is expected of it.
pub open spec fn spec_string_err(f: Frame) -> ParseError {
    if f is Bulk {
        ParseError::InvalidString
    } else {
        ParseError::InvalidFrameType
    }
}

/// The error a frame draws where a number is expected of it.
pub open spec fn spec_int_err(f: Frame) -> ParseError {
    match f {
        Frame::Integer(_) => ParseError::InvalidNumber,
        Frame::Simple(_) => ParseError::InvalidNumber,
        Frame::Bulk(_) => ParseError::InvalidNumber,
        _ => ParseError::InvalidFrameType,
    }
}

/// The elements still ahead of the cursor.
pub open spec fn spec_rest(p: Parse) -> Seq<Frame> {
    p.parts@.skip(p.pos as int)
}

/// A cursor over the elements of a request array.
pub struct Parse {
    pub parts: Vec<Frame>,
    pub pos: usize,
}

impl Parse {
    /// The cursor never stands past the end.
    pub open spec fn wf(self) -> bool {
        self.pos <= self.parts@.len()
    }

    /// Starts a cursor over a request frame, which must be an array.
    pub fn new(frame: Frame) -> (r: Result<Parse, ParseError>)
        ensures
            match frame {
                Frame::Array(items) => r matches Ok(p) && p.parts == items && p.pos == 0
                    && p.wf(),
                _ => r matches Err(e) && e == ParseError::ExpectedArray,
            },
    {
        match frame {
            Frame::Array(items) => Ok(Parse { parts: items, pos: 0 }),
            _ => Err(ParseError::ExpectedArray),
        }
    }

    /// How many elements are left to consume.
    pub fn remaining(&self) -> (r: usize)
        requires
            self.wf(),
        ensures
            r == self.parts@.len() - self.pos,
    {
        self.parts.len() - self.pos
    }

    /// Takes the next element as a string.
    pub fn next_string(&mut self) -> (r: Result<String, ParseError>)
        requires
            old(self).wf(),
        ensures
            final(self).wf(),
            final(self).parts == old(self).parts,
            old(self).pos == old(self).parts@.len() ==> (r matches Err(e) && e
                == ParseError::EndOfStream && final(self).pos == old(self).pos),
            old(self).pos < old(self).parts@.len() ==> {
                &&& final(self).pos == old(self).pos + 1
                &&& match spec_as_string(old(self).parts@[old(self).pos as int]) {
                    Some(sv) => r matches Ok(s) && s@ == sv,
                    None => r matches Err(e) && e == spec_string_err(
                        old(self).parts@[old(self).pos as int],
                    ),
                }
            },
    {
        if self.pos == self.parts.len() {
            return Err(ParseError::EndOfStream);
        }
        let i = self.pos;
        self.pos = i + 1;
        match &self.parts[i] {
            Frame::Simple(s) => Ok(s.clone()),
            Frame::Bulk(b) => {
                let copy = b.clone();
                proof {
                    assert(copy@ =~= b@);
                }
                match string_from_utf8(copy) {
                    Some(s) => Ok(s),
                    None => Err(ParseError::InvalidString),
                }
            },
            _ => Err(ParseError::InvalidFrameType),
        }
    }

    /// Takes the next element as a byte payload.
    pub fn next_bytes(&mut self) -> (r: Result<Vec<u8>, ParseError>)
        requires
            old(self).wf(),
        ensures
            final(self).wf(),
            final(self).parts == old(self).parts,
            old(self).pos == old(self).parts@.len() ==> (r matches Err(e) && e
                == ParseError::EndOfStream && final(self).pos == old(self).pos),
            old(self).pos < old(self).parts@.len() ==> {
                &&& final(self).pos == old(self).pos + 1
                &&& match spec_as_bytes(old(self).parts@[old(self).pos as int]) {
                    Some(bv) => r matches Ok(b) && b@ == bv,
                    None => r matches Err(e) && e == ParseError::InvalidFrameType,
                }
            },
    {
        if self.pos == self.parts.len() {
            return Err(ParseError::EndOfStream);
        }
        let i = self.pos;
        self.pos = i + 1;
        match &self.parts[i] {
            Frame::Simple(s) => Ok(s.as_str().as_bytes_vec()),
            Frame::Bulk(b) => {
                let copy = b.clone();
                proof {
                    assert(copy@ =~= b@);
                }
                Ok(copy)
            },
            _ => Err(ParseError::InvalidFrameType),
        }
    }

    /// Takes the next element as a number.
    pub fn next_int(&mut self) -> (r: Result<u64, ParseError>)
        requires
            old(self).wf(),
        ensures
            final(self).wf(),
            final(self).parts == old(self).parts,
            old(self).pos == old(self).parts@.len() ==> (r matches Err(e) && e
                == ParseError::EndOfStream && final(self).pos == old(self).pos),
            old(self).pos < old(self).parts@.len() ==> {
                &&& final(self).pos == old(self).pos + 1
                &&& match spec_as_int(old(self).parts@[old(self).pos as int]) {
                    Some(v) => r matches Ok(got) && got == v,
                    None => r matches Err(e) && e == spec_int_err(
                        old(self).parts@[old(self).pos as int],
                    ),
                }
            },
    {
        if self.pos == self.parts.len() {
            return Err(ParseError::EndOfStream);
        }
        let i = self.pos;
        self.pos = i + 1;
        match &self.parts[i] {
            Frame::Integer(v) => Ok(*v),
            Frame::Simple(s) => {
                let bs = s.as_str().as_bytes_vec();
                match dec_u64(&bs) {
                    Some(v) => Ok(v),
                    None => Err(ParseError::InvalidNumber),
                }
            },
            Frame::Bulk(b) => match dec_u64(b) {
                Some(v) => Ok(v),
                None => Err(ParseError::InvalidNumber),
            },
            _ => Err(ParseError::InvalidFrameType),
        }
    }

    /// Succeeds exactly when every element has been consumed.
    pub fn finish(&self) -> (r: Result<(), ParseError>)
        requires
            self.wf(),
        ensures
            r is Ok <==> self.pos == self.parts@.len(),
            r matches Err(e) ==> e == ParseError::TrailingFrames,
    {
        if self.pos == self.parts.len() {
            Ok(())
        } else {
            Err(ParseError::TrailingFrames)
        }
    }
}

/// Every prefix of a digit run denotes no more than the whole run.
proof fn lemma_dec_prefix_le(s: Seq<u8>, k: int)
    requires
        0 <= k <= s.len(),
        forall|i: int| 0 <= i < s.len() ==> 48 <= #[trigger] s[i] <= 57,
    ensures
        spec_dec_value(s.take(k)) <= spec_dec_value(s),
    decreases s.len() - k,
{
    if k == s.len() {
        assert(s.take(k) =~= s);
    } else {
        assert(s.take(k + 1).drop_last() =~= s.take(k));
        assert(s.take(k + 1).last() == s[k]);
        lemma_dec_value_nonneg(s.take(k));
        assert(spec_dec_value(s.take(k)) * 10 >= spec_dec_value(s.take(k))) by (nonlinear_arith)
            requires
                spec_dec_value(s.take(k)) >= 0,
        ;
        lemma_dec_prefix_le(s, k + 1);
    }
}

/// A digit run denotes a number, never less than zero.
proof fn lemma_dec_value_nonneg(s: Seq<u8>)
    requires
        forall|i: int| 0 <= i < s.len() ==> 48 <= #[trigger] s[i],
    ensures
        spec_dec_value(s) >= 0,
    decreases s.len(),
{
    if s.len() > 0 {
        assert(forall|i: int|
            0 <= i < s.drop_last().len() ==> 48 <= #[trigger] s.drop_last()[i]);
        lemma_dec_value_nonneg(s.drop_last());
        assert(spec_dec_value(s.drop_last()) * 10 >= 0) by (nonlinear_arith)
            requires
                spec_dec_value(s.drop_last()) >= 0,
        ;
    }
}

/// Reads a non-empty run of decimal digits as a 64-bit number, refusing
/// anything malformed or too large.
pub fn dec_u64(s: &Vec<u8>) -> (r: Option<u64>)
    ensures
        r == spec_dec_u64(s@),
{
    let n = s.len();
    if n == 0 {
        return None;
    }
    let mut acc: u64 = 0;
    let mut i: usize = 0;
    while i < n
        invariant
            n == s@.len(),
            0 < n,
            i <= n,
            forall|j: int| 0 <= j < i ==> 48 <= #[trigger] s@[j] <= 57,
            acc == spec_dec_value(s@.take(i as int)),
        decreases n - i,
    {
        let b = s[i];
        if b < 48 || b > 57 {
            return None;
        }
        let d = (b - 48) as u64;
        proof {
            assert(s@.take(i as int + 1).drop_last() =~= s@.take(i as int));
            assert(s@.take(i as int + 1).last() == s@[i as int]);
        }
        if acc > (u64::MAX - d) / 10 {
            proof {
                assert(acc * 10 + d > u64::MAX) by (nonlinear_arith)
                    requires
                        acc > (u64::MAX - d) / 10,
                        d <= 9,
                ;
                if spec_all_digits(s@) {
                    lemma_dec_prefix_le(s@, i as int + 1);
                }
            }
            return None;
        }
        proof {
            assert(acc * 10 + d <= u64::MAX) by (nonlinear_arith)
                requires
                    acc <= (u64::MAX - d) / 10,
                    d <= 9,
            ;
        }
        acc = acc * 10 + d;
        i = i + 1;
    }
    proof {
        assert(s@.take(n as int) =~= s@);
    }
    Some(acc)
}

} // verus!
