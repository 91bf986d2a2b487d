//! The connection handler's decisions, separated from the socket I/O
//! that drives them.
//!
//! The caller accumulates raw bytes off a connection and asks
//! `headers_complete` after each read whether the header block is
//! framed, that is whether the CR LF CR LF terminator has arrived.
//! Once it has, `respond` turns the whole buffer into the response
//! bytes to write back. When the peer closes or errors before the
//! terminator arrives, the request is incomplete and the caller
//! answers with `bad_request_response` instead.

use vstd::prelude::*;

use crate::response::{response_spec, response_for};

verus! {

/// Whether the four-byte header terminator CR LF CR LF stands at
/// position `i` of `t`.
pub open spec fn is_terminator_at(t: Seq<u8>, i: int) -> bool {
    0 <= i && i + 4 <= t.len() && t[i] == 0x0d && t[i + 1] == 0x0a && t[i + 2] == 0x0d && t[i + 3]
        == 0x0a
}

/// Whether `t` contains the header terminator anywhere.
pub open spec fn has_terminator(t: Seq<u8>) -> bool {
    exists|i: int| is_terminator_at(t, i)
}

/// Whether the accumulated buffer holds a complete header block, that
/// is contains CR LF CR LF.
pub fn headers_complete(buf: &Vec<u8>) -> (r: bool)
    ensures
        r == has_terminator(buf@),
{
    if buf.len() < 4 {
        proof {
            assert(forall|i: int| !is_terminator_at(buf@, i));
        }
        return false;
    }
    let end = buf.len() - 4;
    let mut i: usize = 0;
    loop
        invariant
            i <= end,
            end + 4 == buf@.len(),
            end + 4 <= usize::MAX,
            forall|k: int| 0 <= k < i ==> !is_terminator_at(buf@, k),
        decreases end - i,
    {
        if buf[i] == 0x0d && buf[i + 1] == 0x0a && buf[i + 2] == 0x0d && buf[i + 3] == 0x0a {
            proof {
                assert(is_terminator_at(buf@, i as int));
            }
            return true;
        }
        if i == end {
            proof {
                assert(forall|k: int| !is_terminator_at(buf@, k));
            }
            return false;
        }
        i = i + 1;
    }
}

/// What decoding a byte buffer as text, lossily, yields.
pub uninterp spec fn lossy_of(b: Seq<u8>) -> Seq<u8>;

/// Relies on String::from_utf8_lossy: the decoding depends on the
/// bytes alone, invalid sequences are replaced rather than failing,
/// and bytes that are valid UTF-8 — so in particular a buffer of
/// ASCII bytes — come through unchanged.
#[verifier::external_body]
fn lossy_decode(b: &Vec<u8>) -> (r: Vec<u8>)
    ensures
        r@ == lossy_of(b@),
        (forall|i: int| 0 <= i < b@.len() ==> b@[i] < 0x80) ==> r@ == b@,
{
    String::from_utf8_lossy(b.as_slice()).into_owned().into_bytes()
}

/// The response for an accumulated buffer whose framing completed: the
/// buffer is decoded as text, lossily, then parsed and answered.
///
/// On a buffer of ASCII bytes — every actual HTTP request head — the
/// result is exactly `response_spec` of the buffer itself.
pub fn respond(buf: &Vec<u8>) -> (r: Vec<u8>)
    ensures
        r@ == response_spec(lossy_of(buf@)),
        (forall|i: int| 0 <= i < buf@.len() ==> buf@[i] < 0x80) ==> r@ == response_spec(buf@),
{
    let text = lossy_decode(buf);
    response_for(&text)
}

} // verus!
