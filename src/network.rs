use vstd::prelude::*;
use vstd::utf8::{decode_utf8, valid_utf8};

use bytes::BytesMut;

use crate::backend::{Backend, StoreView};
use crate::buffer::{buffer_advance, buffer_bytes, buffer_slice};
use crate::cmd::{executes, lossy_utf8, parse_frame_request, Command, CommandError, CommandExecutor, Fault};
use crate::decode::{parse_at, read_frame, RespError};
use crate::encode::{enc, encode_into};
use crate::frame::{Frame, RespFrame, SimpleError};

verus! {

/// The answer to a request frame: a store that held `before` holds `after` and `r` goes
/// back to the client.
pub open spec fn answers(before: StoreView, request: Frame, after: StoreView, r: Frame) -> bool {
    match parse_frame_request(request) {
        Ok(q) => executes(q, before, after, r),
        Err(f) => after == before && r is Error && (f matches Fault::Unknown(name) ==> r
            == Frame::Error("Invalid command: "@ + lossy_utf8(name)) && (valid_utf8(name) ==> r
            == Frame::Error("Invalid command: "@ + decode_utf8(name)))),
    }
}

/// Runs one request frame: the command's answer, or an error frame when the frame is no
/// command (the connection goes on).
pub fn request_handler(backend: &mut Backend, frame: RespFrame) -> (r: RespFrame)
    ensures
        answers(old(backend)@, frame@, final(backend)@, r@),
{
    match Command::from_frame(frame) {
        Ok(cmd) => cmd.execute(backend),
        Err(e) => error_reply(&e),
    }
}

fn error_reply(e: &CommandError) -> (r: RespFrame)
    ensures
        r is Error,
        e matches CommandError::InvalidCommand(m) ==> r@ == Frame::Error(m@),
{
    RespFrame::Error(SimpleError(e.message()))
}

/// Serves the request at the front of `buf`, if it is whole: runs it, drops its bytes and
/// appends the answer's bytes to `out`, then gives `Ok(true)`. Gives `Ok(false)` when more
/// bytes are needed and an error when the bytes are no frame; then nothing changes.
pub fn serve_one(backend: &mut Backend, buf: &mut BytesMut, out: &mut Vec<u8>) -> (r: Result<bool, RespError>)
    ensures
        match parse_at(buffer_bytes(*old(buf)), 0) {
            Ok((f, n)) => r == Ok::<bool, RespError>(true) && 0 < n <= buffer_bytes(*old(buf)).len()
                && buffer_bytes(*final(buf)) == buffer_bytes(*old(buf)).subrange(n, buffer_bytes(*old(buf)).len() as int)
                && exists|a: Frame| #[trigger] answers(old(backend)@, f, final(backend)@, a)
                && final(out)@ == old(out)@ + enc(a),
            Err(RespError::NotComplete) => r == Ok::<bool, RespError>(false) && buffer_bytes(*final(buf))
                == buffer_bytes(*old(buf)) && final(backend)@ == old(backend)@ && final(out)@ == old(out)@,
            Err(e) => r == Err::<bool, RespError>(e) && buffer_bytes(*final(buf)) == buffer_bytes(*old(buf))
                && final(backend)@ == old(backend)@ && final(out)@ == old(out)@,
        },
{
    match read_frame(buffer_slice(buf), 0) {
        Ok((frame, n)) => {
            buffer_advance(buf, n);
            let ghost request = frame@;
            let answer = request_handler(backend, frame);
            encode_into(&answer, out);
            assert(answers(old(backend)@, request, backend@, answer@));
            Ok(true)
        },
        Err(RespError::NotComplete) => Ok(false),
        Err(e) => Err(e),
    }
}

/// Serving `input` to a store that holds `before`: the whole requests at its front are
/// answered in order, `output` holding the answers' bytes one after another, until the bytes
/// left (`rest`) start no whole frame: `Ok` when they may still become one, the error when
/// they are no frame. The store then holds `after`.
pub open spec fn serves(
    before: StoreView,
    input: Seq<u8>,
    after: StoreView,
    output: Seq<u8>,
    rest: Seq<u8>,
    outcome: Result<(), RespError>,
) -> bool
    decreases input.len(),
{
    match parse_at(input, 0) {
        Ok((f, n)) => 0 < n <= input.len() && exists|mid: StoreView, a: Frame|
            #[trigger] answers(before, f, mid, a) && output.len() >= enc(a).len() && output.subrange(
                0,
                enc(a).len() as int,
            ) == enc(a) && serves(
                mid,
                input.subrange(n, input.len() as int),
                after,
                output.subrange(enc(a).len() as int, output.len() as int),
                rest,
                outcome,
            ),
        Err(RespError::NotComplete) => after == before && output.len() == 0 && rest == input
            && outcome == Ok::<(), RespError>(()),
        Err(e) => after == before && output.len() == 0 && rest == input && outcome == Err::<
            (),
            RespError,
        >(e),
    }
}

/// Serves every whole request at the front of `buf`, in order, appending the answers to
/// `out`. On `Ok`, what is left in `buf` is the start of a frame still to come; on an error,
/// `buf` starts with the bytes that are no frame, and the connection should close.
pub fn process_buffer(backend: &mut Backend, buf: &mut BytesMut, out: &mut Vec<u8>) -> (r: Result<(), RespError>)
    ensures
        final(out)@.len() >= old(out)@.len(),
        final(out)@.subrange(0, old(out)@.len() as int) == old(out)@,
        serves(
            old(backend)@,
            buffer_bytes(*old(buf)),
            final(backend)@,
            final(out)@.subrange(old(out)@.len() as int, final(out)@.len() as int),
            buffer_bytes(*final(buf)),
            r,
        ),
{
    let ghost store0 = backend@;
    let ghost input0 = buffer_bytes(*buf);
    let ghost out0 = out@;
    loop
        invariant
            out@.len() >= out0.len(),
            out@.subrange(0, out0.len() as int) == out0,
            store0 == old(backend)@,
            input0 == buffer_bytes(*old(buf)),
            out0 == old(out)@,
            forall|s: StoreView, o: Seq<u8>, rest: Seq<u8>, x: Result<(), RespError>|
                #[trigger] serves(backend@, buffer_bytes(*buf), s, o, rest, x) ==> serves(
                    store0,
                    input0,
                    s,
                    out@.subrange(out0.len() as int, out@.len() as int) + o,
                    rest,
                    x,
                ),
        decreases buffer_bytes(*buf).len(),
    {
        let ghost store1 = backend@;
        let ghost input1 = buffer_bytes(*buf);
        let ghost out1 = out@;
        match serve_one(backend, buf, out) {
            Ok(true) => {
                proof {
                    let (f, n) = parse_at(input1, 0)->Ok_0;
                    let a = choose|a: Frame| #[trigger] answers(store1, f, backend@, a) && out@ == out1 + enc(a);
                    assert(out@.subrange(0, out0.len() as int) =~= out0);
                    assert forall|s: StoreView, o: Seq<u8>, rest: Seq<u8>, x: Result<(), RespError>|
                        #[trigger] serves(backend@, buffer_bytes(*buf), s, o, rest, x) implies serves(
                            store0,
                            input0,
                            s,
                            out@.subrange(out0.len() as int, out@.len() as int) + o,
                            rest,
                            x,
                        ) by {
                        assert(answers(store1, f, backend@, a));
                        let w = enc(a) + o;
                        assert(w.subrange(0, enc(a).len() as int) =~= enc(a));
                        assert(w.subrange(enc(a).len() as int, w.len() as int) =~= o);
                        assert(serves(store1, input1, s, w, rest, x));
                        assert(out1.subrange(out0.len() as int, out1.len() as int) + (enc(a) + o)
                            =~= out@.subrange(out0.len() as int, out@.len() as int) + o);
                    }
                }
            },
            Ok(false) => {
                proof {
                    assert(serves(backend@, buffer_bytes(*buf), backend@, Seq::empty(), buffer_bytes(*buf), Ok::<(), RespError>(())));
                    assert(out@.subrange(out0.len() as int, out@.len() as int) + Seq::<u8>::empty()
                        =~= out@.subrange(out0.len() as int, out@.len() as int));
                }
                return Ok(());
            },
            Err(e) => {
                proof {
                    assert(serves(backend@, buffer_bytes(*buf), backend@, Seq::empty(), buffer_bytes(*buf), Err::<(), RespError>(e)));
                    assert(out@.subrange(out0.len() as int, out@.len() as int) + Seq::<u8>::empty()
                        =~= out@.subrange(out0.len() as int, out@.len() as int));
                }
                return Err(e);
            },
        }
    }
}

} // verus!
