use vstd::prelude::*;

use bytes::BytesMut;

use crate::buffer::{buffer_advance, buffer_bytes, buffer_slice};
use crate::decode::{parse_at, read_frame, RespError};
use crate::encode::{enc, encode_into};
use crate::frame::{
    encode_map_into,
    keys_ascending,
    view_entries, view_frames, BulkString, Frame, RespArray, RespDouble, RespFrame, RespMap,
    RespNull, RespNullArray, RespNullBulkString, RespSet, SimpleError, SimpleString,
};

verus! {

/// A value that RESP can write.
pub trait RespEncode: Sized {
    /// The frame that this value is.
    spec fn as_frame(&self) -> Frame;

    /// The RESP bytes of this value.
    fn encode(self) -> (r: Vec<u8>)
        ensures
            r@ == enc(self.as_frame()),
    ;
}

/// A value that RESP can read from the front of a buffer.
pub trait RespDecode: RespEncode {
    /// What reading `s` gives: the frame and the position just past it, or the error.
    spec fn decode_spec(s: Seq<u8>) -> Result<(Frame, int), RespError>;

    /// Reads one value from the front of `buf` and drops its bytes; on an error, `buf` keeps
    /// every byte.
    fn decode(buf: &mut BytesMut) -> (r: Result<Self, RespError>)
        ensures
            match Self::decode_spec(buffer_bytes(*old(buf))) {
                Ok((f, e)) => r matches Ok(v) && v.as_frame() == f && buffer_bytes(*final(buf))
                    == buffer_bytes(*old(buf)).subrange(e, buffer_bytes(*old(buf)).len() as int),
                Err(x) => r == Err::<Self, RespError>(x) && buffer_bytes(*final(buf))
                    == buffer_bytes(*old(buf)),
            },
    ;

    /// How many bytes the value at the front of `buf` takes, without reading it out.
    fn expect_length(buf: &[u8]) -> (r: Result<usize, RespError>)
        ensures
            match Self::decode_spec(buf@) {
                Ok((f, e)) => r == Ok::<usize, RespError>(e as usize),
                Err(x) => r == Err::<usize, RespError>(x),
            },
    ;
}

/// What reading a value whose type byte is `prefix` gives: the frame, when it is one that
/// `accepts` takes.
pub open spec fn decode_typed(s: Seq<u8>, prefix: u8, accepts: spec_fn(Frame) -> bool) -> Result<
    (Frame, int),
    RespError,
> {
    if s.len() == 0 {
        Err(RespError::NotComplete)
    } else if s[0] != prefix {
        Err(RespError::InvalidFrameType(s[0]))
    } else {
        match parse_at(s, 0) {
            Ok((f, e)) => if accepts(f) {
                Ok((f, e))
            } else {
                Err(RespError::InvalidFrameType(prefix))
            },
            Err(x) => Err(x),
        }
    }
}

fn read_typed(buf: &[u8], prefix: u8) -> (r: Result<(RespFrame, usize), RespError>)
    ensures
        buf@.len() == 0 ==> r == Err::<(RespFrame, usize), RespError>(RespError::NotComplete),
        buf@.len() > 0 && buf@[0] != prefix ==> r == Err::<(RespFrame, usize), RespError>(
            RespError::InvalidFrameType(buf@[0]),
        ),
        buf@.len() > 0 && buf@[0] == prefix ==> match parse_at(buf@, 0) {
            Ok((f, e)) => r matches Ok((g, e2)) && g@ == f && e2 == e,
            Err(x) => r == Err::<(RespFrame, usize), RespError>(x),
        },
        r matches Ok((g, e)) ==> e <= buf@.len(),
{
    if buf.len() == 0 {
        return Err(RespError::NotComplete);
    }
    if buf[0] != prefix {
        return Err(RespError::InvalidFrameType(buf[0]));
    }
    read_frame(buf, 0)
}

impl RespEncode for RespFrame {
    open spec fn as_frame(&self) -> Frame {
        self@
    }

    fn encode(self) -> (r: Vec<u8>) {
        let mut out: Vec<u8> = Vec::new();
        encode_into(&self, &mut out);
        assert(out@ =~= enc(self@));
        out
    }
}

impl RespDecode for RespFrame {
    open spec fn decode_spec(s: Seq<u8>) -> Result<(Frame, int), RespError> {
        parse_at(s, 0)
    }

    fn decode(buf: &mut BytesMut) -> (r: Result<Self, RespError>) {
        match read_frame(buffer_slice(buf), 0) {
            Ok((f, e)) => {
                buffer_advance(buf, e);
                Ok(f)
            },
            Err(x) => Err(x),
        }
    }

    fn expect_length(buf: &[u8]) -> (r: Result<usize, RespError>) {
        match read_frame(buf, 0) {
            Ok((_, e)) => Ok(e),
            Err(x) => Err(x),
        }
    }
}

impl RespEncode for SimpleString {
    open spec fn as_frame(&self) -> Frame {
        Frame::SimpleString(self.0@)
    }

    fn encode(self) -> (r: Vec<u8>) {
        let mut out: Vec<u8> = Vec::new();
        encode_into(&RespFrame::SimpleString(self), &mut out);
        assert(out@ =~= enc(self.as_frame()));
        out
    }
}

impl RespDecode for SimpleString {
    open spec fn decode_spec(s: Seq<u8>) -> Result<(Frame, int), RespError> {
        decode_typed(s, 43, |f: Frame| f is SimpleString)
    }

    fn decode(buf: &mut BytesMut) -> (r: Result<Self, RespError>) {
        match read_typed(buffer_slice(buf), 43) {
            Ok((RespFrame::SimpleString(x), e)) => {
                buffer_advance(buf, e);
                Ok(x)
            },
            Ok(_) => Err(RespError::InvalidFrameType(43)),
            Err(x) => Err(x),
        }
    }

    fn expect_length(buf: &[u8]) -> (r: Result<usize, RespError>) {
        match read_typed(buf, 43) {
            Ok((RespFrame::SimpleString(x), e)) => Ok(e),
            Ok(_) => Err(RespError::InvalidFrameType(43)),
            Err(x) => Err(x),
        }
    }
}

impl RespEncode for SimpleError {
    open spec fn as_frame(&self) -> Frame {
        Frame::Error(self.0@)
    }

    fn encode(self) -> (r: Vec<u8>) {
        let mut out: Vec<u8> = Vec::new();
        encode_into(&RespFrame::Error(self), &mut out);
        assert(out@ =~= enc(self.as_frame()));
        out
    }
}

impl RespDecode for SimpleError {
    open spec fn decode_spec(s: Seq<u8>) -> Result<(Frame, int), RespError> {
        decode_typed(s, 45, |f: Frame| f is Error)
    }

    fn decode(buf: &mut BytesMut) -> (r: Result<Self, RespError>) {
        match read_typed(buffer_slice(buf), 45) {
            Ok((RespFrame::Error(x), e)) => {
                buffer_advance(buf, e);
                Ok(x)
            },
            Ok(_) => Err(RespError::InvalidFrameType(45)),
            Err(x) => Err(x),
        }
    }

    fn expect_length(buf: &[u8]) -> (r: Result<usize, RespError>) {
        match read_typed(buf, 45) {
            Ok((RespFrame::Error(x), e)) => Ok(e),
            Ok(_) => Err(RespError::InvalidFrameType(45)),
            Err(x) => Err(x),
        }
    }
}

impl RespEncode for i64 {
    open spec fn as_frame(&self) -> Frame {
        Frame::Integer(*self as int)
    }

    fn encode(self) -> (r: Vec<u8>) {
        let mut out: Vec<u8> = Vec::new();
        encode_into(&RespFrame::Integer(self), &mut out);
        assert(out@ =~= enc(self.as_frame()));
        out
    }
}

impl RespDecode for i64 {
    open spec fn decode_spec(s: Seq<u8>) -> Result<(Frame, int), RespError> {
        decode_typed(s, 58, |f: Frame| f is Integer)
    }

    fn decode(buf: &mut BytesMut) -> (r: Result<Self, RespError>) {
        match read_typed(buffer_slice(buf), 58) {
            Ok((RespFrame::Integer(x), e)) => {
                buffer_advance(buf, e);
                Ok(x)
            },
            Ok(_) => Err(RespError::InvalidFrameType(58)),
            Err(x) => Err(x),
        }
    }

    fn expect_length(buf: &[u8]) -> (r: Result<usize, RespError>) {
        match read_typed(buf, 58) {
            Ok((RespFrame::Integer(x), e)) => Ok(e),
            Ok(_) => Err(RespError::InvalidFrameType(58)),
            Err(x) => Err(x),
        }
    }
}

impl RespEncode for BulkString {
    open spec fn as_frame(&self) -> Frame {
        Frame::BulkString(self.0@)
    }

    fn encode(self) -> (r: Vec<u8>) {
        let mut out: Vec<u8> = Vec::new();
        encode_into(&RespFrame::BulkString(self), &mut out);
        assert(out@ =~= enc(self.as_frame()));
        out
    }
}

impl RespDecode for BulkString {
    open spec fn decode_spec(s: Seq<u8>) -> Result<(Frame, int), RespError> {
        decode_typed(s, 36, |f: Frame| f is BulkString)
    }

    fn decode(buf: &mut BytesMut) -> (r: Result<Self, RespError>) {
        match read_typed(buffer_slice(buf), 36) {
            Ok((RespFrame::BulkString(x), e)) => {
                buffer_advance(buf, e);
                Ok(x)
            },
            Ok(_) => Err(RespError::InvalidFrameType(36)),
            Err(x) => Err(x),
        }
    }

    fn expect_length(buf: &[u8]) -> (r: Result<usize, RespError>) {
        match read_typed(buf, 36) {
            Ok((RespFrame::BulkString(x), e)) => Ok(e),
            Ok(_) => Err(RespError::InvalidFrameType(36)),
            Err(x) => Err(x),
        }
    }
}

impl RespEncode for RespNullBulkString {
    open spec fn as_frame(&self) -> Frame {
        Frame::NullBulkString
    }

    fn encode(self) -> (r: Vec<u8>) {
        let mut out: Vec<u8> = Vec::new();
        encode_into(&RespFrame::NullBulkString(self), &mut out);
        assert(out@ =~= enc(self.as_frame()));
        out
    }
}

impl RespDecode for RespNullBulkString {
    open spec fn decode_spec(s: Seq<u8>) -> Result<(Frame, int), RespError> {
        decode_typed(s, 36, |f: Frame| f is NullBulkString)
    }

    fn decode(buf: &mut BytesMut) -> (r: Result<Self, RespError>) {
        match read_typed(buffer_slice(buf), 36) {
            Ok((RespFrame::NullBulkString(x), e)) => {
                buffer_advance(buf, e);
                Ok(x)
            },
            Ok(_) => Err(RespError::InvalidFrameType(36)),
            Err(x) => Err(x),
        }
    }

    fn expect_length(buf: &[u8]) -> (r: Result<usize, RespError>) {
        match read_typed(buf, 36) {
            Ok((RespFrame::NullBulkString(x), e)) => Ok(e),
            Ok(_) => Err(RespError::InvalidFrameType(36)),
            Err(x) => Err(x),
        }
    }
}

impl RespEncode for RespArray {
    open spec fn as_frame(&self) -> Frame {
        Frame::Array(view_frames(self.0@))
    }

    fn encode(self) -> (r: Vec<u8>) {
        let mut out: Vec<u8> = Vec::new();
        encode_into(&RespFrame::Array(self), &mut out);
        assert(out@ =~= enc(self.as_frame()));
        out
    }
}

impl RespDecode for RespArray {
    open spec fn decode_spec(s: Seq<u8>) -> Result<(Frame, int), RespError> {
        decode_typed(s, 42, |f: Frame| f is Array)
    }

    fn decode(buf: &mut BytesMut) -> (r: Result<Self, RespError>) {
        match read_typed(buffer_slice(buf), 42) {
            Ok((RespFrame::Array(x), e)) => {
                buffer_advance(buf, e);
                Ok(x)
            },
            Ok(_) => Err(RespError::InvalidFrameType(42)),
            Err(x) => Err(x),
        }
    }

    fn expect_length(buf: &[u8]) -> (r: Result<usize, RespError>) {
        match read_typed(buf, 42) {
            Ok((RespFrame::Array(x), e)) => Ok(e),
            Ok(_) => Err(RespError::InvalidFrameType(42)),
            Err(x) => Err(x),
        }
    }
}

impl RespEncode for RespNullArray {
    open spec fn as_frame(&self) -> Frame {
        Frame::NullArray
    }

    fn encode(self) -> (r: Vec<u8>) {
        let mut out: Vec<u8> = Vec::new();
        encode_into(&RespFrame::NullArray(self), &mut out);
        assert(out@ =~= enc(self.as_frame()));
        out
    }
}

impl RespDecode for RespNullArray {
    open spec fn decode_spec(s: Seq<u8>) -> Result<(Frame, int), RespError> {
        decode_typed(s, 42, |f: Frame| f is NullArray)
    }

    fn decode(buf: &mut BytesMut) -> (r: Result<Self, RespError>) {
        match read_typed(buffer_slice(buf), 42) {
            Ok((RespFrame::NullArray(x), e)) => {
                buffer_advance(buf, e);
                Ok(x)
            },
            Ok(_) => Err(RespError::InvalidFrameType(42)),
            Err(x) => Err(x),
        }
    }

    fn expect_length(buf: &[u8]) -> (r: Result<usize, RespError>) {
        match read_typed(buf, 42) {
            Ok((RespFrame::NullArray(x), e)) => Ok(e),
            Ok(_) => Err(RespError::InvalidFrameType(42)),
            Err(x) => Err(x),
        }
    }
}

impl RespEncode for RespNull {
    open spec fn as_frame(&self) -> Frame {
        Frame::Null
    }

    fn encode(self) -> (r: Vec<u8>) {
        let mut out: Vec<u8> = Vec::new();
        encode_into(&RespFrame::Null(self), &mut out);
        assert(out@ =~= enc(self.as_frame()));
        out
    }
}

impl RespDecode for RespNull {
    open spec fn decode_spec(s: Seq<u8>) -> Result<(Frame, int), RespError> {
        decode_typed(s, 95, |f: Frame| f is Null)
    }

    fn decode(buf: &mut BytesMut) -> (r: Result<Self, RespError>) {
        match read_typed(buffer_slice(buf), 95) {
            Ok((RespFrame::Null(x), e)) => {
                buffer_advance(buf, e);
                Ok(x)
            },
            Ok(_) => Err(RespError::InvalidFrameType(95)),
            Err(x) => Err(x),
        }
    }

    fn expect_length(buf: &[u8]) -> (r: Result<usize, RespError>) {
        match read_typed(buf, 95) {
            Ok((RespFrame::Null(x), e)) => Ok(e),
            Ok(_) => Err(RespError::InvalidFrameType(95)),
            Err(x) => Err(x),
        }
    }
}

impl RespEncode for bool {
    open spec fn as_frame(&self) -> Frame {
        Frame::Boolean(*self)
    }

    fn encode(self) -> (r: Vec<u8>) {
        let mut out: Vec<u8> = Vec::new();
        encode_into(&RespFrame::Boolean(self), &mut out);
        assert(out@ =~= enc(self.as_frame()));
        out
    }
}

impl RespDecode for bool {
    open spec fn decode_spec(s: Seq<u8>) -> Result<(Frame, int), RespError> {
        decode_typed(s, 35, |f: Frame| f is Boolean)
    }

    fn decode(buf: &mut BytesMut) -> (r: Result<Self, RespError>) {
        match read_typed(buffer_slice(buf), 35) {
            Ok((RespFrame::Boolean(x), e)) => {
                buffer_advance(buf, e);
                Ok(x)
            },
            Ok(_) => Err(RespError::InvalidFrameType(35)),
            Err(x) => Err(x),
        }
    }

    fn expect_length(buf: &[u8]) -> (r: Result<usize, RespError>) {
        match read_typed(buf, 35) {
            Ok((RespFrame::Boolean(x), e)) => Ok(e),
            Ok(_) => Err(RespError::InvalidFrameType(35)),
            Err(x) => Err(x),
        }
    }
}

impl RespEncode for RespDouble {
    open spec fn as_frame(&self) -> Frame {
        Frame::Double(self.0@)
    }

    fn encode(self) -> (r: Vec<u8>) {
        let mut out: Vec<u8> = Vec::new();
        encode_into(&RespFrame::Double(self), &mut out);
        assert(out@ =~= enc(self.as_frame()));
        out
    }
}

impl RespDecode for RespDouble {
    open spec fn decode_spec(s: Seq<u8>) -> Result<(Frame, int), RespError> {
        decode_typed(s, 44, |f: Frame| f is Double)
    }

    fn decode(buf: &mut BytesMut) -> (r: Result<Self, RespError>) {
        match read_typed(buffer_slice(buf), 44) {
            Ok((RespFrame::Double(x), e)) => {
                buffer_advance(buf, e);
                Ok(x)
            },
            Ok(_) => Err(RespError::InvalidFrameType(44)),
            Err(x) => Err(x),
        }
    }

    fn expect_length(buf: &[u8]) -> (r: Result<usize, RespError>) {
        match read_typed(buf, 44) {
            Ok((RespFrame::Double(x), e)) => Ok(e),
            Ok(_) => Err(RespError::InvalidFrameType(44)),
            Err(x) => Err(x),
        }
    }
}

impl RespEncode for RespMap {
    open spec fn as_frame(&self) -> Frame {
        Frame::RespMap(self.entries_view())
    }

    /// The entries are written in ascending key order.
    fn encode(self) -> (r: Vec<u8>)
        ensures
            keys_ascending(self.entries_view()),
    {
        let mut out: Vec<u8> = Vec::new();
        encode_map_into(&self, &mut out);
        assert(out@ =~= enc(self.as_frame()));
        out
    }
}

impl RespDecode for RespMap {
    open spec fn decode_spec(s: Seq<u8>) -> Result<(Frame, int), RespError> {
        decode_typed(s, 37, |f: Frame| f is RespMap)
    }

    fn decode(buf: &mut BytesMut) -> (r: Result<Self, RespError>) {
        match read_typed(buffer_slice(buf), 37) {
            Ok((RespFrame::RespMap(x), e)) => {
                buffer_advance(buf, e);
                Ok(x)
            },
            Ok(_) => Err(RespError::InvalidFrameType(37)),
            Err(x) => Err(x),
        }
    }

    fn expect_length(buf: &[u8]) -> (r: Result<usize, RespError>) {
        match read_typed(buf, 37) {
            Ok((RespFrame::RespMap(x), e)) => Ok(e),
            Ok(_) => Err(RespError::InvalidFrameType(37)),
            Err(x) => Err(x),
        }
    }
}

impl RespEncode for RespSet {
    open spec fn as_frame(&self) -> Frame {
        Frame::RespSet(view_frames(self.0@))
    }

    fn encode(self) -> (r: Vec<u8>) {
        let mut out: Vec<u8> = Vec::new();
        encode_into(&RespFrame::RespSet(self), &mut out);
        assert(out@ =~= enc(self.as_frame()));
        out
    }
}

impl RespDecode for RespSet {
    open spec fn decode_spec(s: Seq<u8>) -> Result<(Frame, int), RespError> {
        decode_typed(s, 126, |f: Frame| f is RespSet)
    }

    fn decode(buf: &mut BytesMut) -> (r: Result<Self, RespError>) {
        match read_typed(buffer_slice(buf), 126) {
            Ok((RespFrame::RespSet(x), e)) => {
                buffer_advance(buf, e);
                Ok(x)
            },
            Ok(_) => Err(RespError::InvalidFrameType(126)),
            Err(x) => Err(x),
        }
    }

    fn expect_length(buf: &[u8]) -> (r: Result<usize, RespError>) {
        match read_typed(buf, 126) {
            Ok((RespFrame::RespSet(x), e)) => Ok(e),
            Ok(_) => Err(RespError::InvalidFrameType(126)),
            Err(x) => Err(x),
        }
    }
}

} // verus!
