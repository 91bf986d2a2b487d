//! Response synthesis: the two fixed wire templates, byte for byte.
//!
//! A successful parse is answered with a 200 whose body is
//! `Method: {method}, Path: {path}` and whose declared Content-Length
//! is `len(method) + len(path) + 10` — the fixed arithmetic over the
//! body template, deliberately not a recount of the serialized bytes.
//! Any parse failure is answered with a bare 400 of Content-Length 0.

use vstd::prelude::*;

use crate::bytes::push_all;
use crate::parser::{
    first_empty_at, lemma_colonless_header_rejected, lemma_short_request_line_rejected,
    line_has_colon, lines_of, parse_request, parse_spec, tokens_of, ParseError, ReqView,
};

verus! {

/// The bytes of `HTTP/1.1 200 OK\r\nContent-Type: text/plain\r\nContent-Length: `.
pub open spec fn status_200_spec() -> Seq<u8> {
    seq![0x48, 0x54, 0x54, 0x50, 0x2f, 0x31, 0x2e, 0x31, 0x20, 0x32, 0x30, 0x30, 0x20, 0x4f, 0x4b, 0x0d, 0x0a, 0x43, 0x6f, 0x6e, 0x74, 0x65, 0x6e, 0x74, 0x2d, 0x54, 0x79, 0x70, 0x65, 0x3a, 0x20, 0x74, 0x65, 0x78, 0x74, 0x2f, 0x70, 0x6c, 0x61, 0x69, 0x6e, 0x0d, 0x0a, 0x43, 0x6f, 0x6e, 0x74, 0x65, 0x6e, 0x74, 0x2d, 0x4c, 0x65, 0x6e, 0x67, 0x74, 0x68, 0x3a, 0x20]
}

fn push_status_200(out: &mut Vec<u8>)
    ensures
        final(out)@ == old(out)@ + status_200_spec(),
{
    out.push(0x48);
    out.push(0x54);
    out.push(0x54);
    out.push(0x50);
    out.push(0x2f);
    out.push(0x31);
    out.push(0x2e);
    out.push(0x31);
    out.push(0x20);
    out.push(0x32);
    out.push(0x30);
    out.push(0x30);
    out.push(0x20);
    out.push(0x4f);
    out.push(0x4b);
    out.push(0x0d);
    out.push(0x0a);
    out.push(0x43);
    out.push(0x6f);
    out.push(0x6e);
    out.push(0x74);
    out.push(0x65);
    out.push(0x6e);
    out.push(0x74);
    out.push(0x2d);
    out.push(0x54);
    out.push(0x79);
    out.push(0x70);
    out.push(0x65);
    out.push(0x3a);
    out.push(0x20);
    out.push(0x74);
    out.push(0x65);
    out.push(0x78);
    out.push(0x74);
    out.push(0x2f);
    out.push(0x70);
    out.push(0x6c);
    out.push(0x61);
    out.push(0x69);
    out.push(0x6e);
    out.push(0x0d);
    out.push(0x0a);
    out.push(0x43);
    out.push(0x6f);
    out.push(0x6e);
    out.push(0x74);
    out.push(0x65);
    out.push(0x6e);
    out.push(0x74);
    out.push(0x2d);
    out.push(0x4c);
    out.push(0x65);
    out.push(0x6e);
    out.push(0x67);
    out.push(0x74);
    out.push(0x68);
    out.push(0x3a);
    out.push(0x20);
    proof {
        assert(out@ =~= old(out)@ + status_200_spec());
    }
}

/// The bytes of `\r\n\r\nMethod: `.
pub open spec fn blank_method_spec() -> Seq<u8> {
    seq![0x0d, 0x0a, 0x0d, 0x0a, 0x4d, 0x65, 0x74, 0x68, 0x6f, 0x64, 0x3a, 0x20]
}

fn push_blank_method(out: &mut Vec<u8>)
    ensures
        final(out)@ == old(out)@ + blank_method_spec(),
{
    out.push(0x0d);
    out.push(0x0a);
    out.push(0x0d);
    out.push(0x0a);
    out.push(0x4d);
    out.push(0x65);
    out.push(0x74);
    out.push(0x68);
    out.push(0x6f);
    out.push(0x64);
    out.push(0x3a);
    out.push(0x20);
    proof {
        assert(out@ =~= old(out)@ + blank_method_spec());
    }
}

/// The bytes of `, Path: `.
pub open spec fn comma_path_spec() -> Seq<u8> {
    seq![0x2c, 0x20, 0x50, 0x61, 0x74, 0x68, 0x3a, 0x20]
}

fn push_comma_path(out: &mut Vec<u8>)
    ensures
        final(out)@ == old(out)@ + comma_path_spec(),
{
    out.push(0x2c);
    out.push(0x20);
    out.push(0x50);
    out.push(0x61);
    out.push(0x74);
    out.push(0x68);
    out.push(0x3a);
    out.push(0x20);
    proof {
        assert(out@ =~= old(out)@ + comma_path_spec());
    }
}

/// The bytes of `HTTP/1.1 400 Bad Request\r\nContent-Length: 0\r\n\r\n`.
pub open spec fn bad_response_spec() -> Seq<u8> {
    seq![0x48, 0x54, 0x54, 0x50, 0x2f, 0x31, 0x2e, 0x31, 0x20, 0x34, 0x30, 0x30, 0x20, 0x42, 0x61, 0x64, 0x20, 0x52, 0x65, 0x71, 0x75, 0x65, 0x73, 0x74, 0x0d, 0x0a, 0x43, 0x6f, 0x6e, 0x74, 0x65, 0x6e, 0x74, 0x2d, 0x4c, 0x65, 0x6e, 0x67, 0x74, 0x68, 0x3a, 0x20, 0x30, 0x0d, 0x0a, 0x0d, 0x0a]
}

fn push_bad_response(out: &mut Vec<u8>)
    ensures
        final(out)@ == old(out)@ + bad_response_spec(),
{
    out.push(0x48);
    out.push(0x54);
    out.push(0x54);
    out.push(0x50);
    out.push(0x2f);
    out.push(0x31);
    out.push(0x2e);
    out.push(0x31);
    out.push(0x20);
    out.push(0x34);
    out.push(0x30);
    out.push(0x30);
    out.push(0x20);
    out.push(0x42);
    out.push(0x61);
    out.push(0x64);
    out.push(0x20);
    out.push(0x52);
    out.push(0x65);
    out.push(0x71);
    out.push(0x75);
    out.push(0x65);
    out.push(0x73);
    out.push(0x74);
    out.push(0x0d);
    out.push(0x0a);
    out.push(0x43);
    out.push(0x6f);
    out.push(0x6e);
    out.push(0x74);
    out.push(0x65);
    out.push(0x6e);
    out.push(0x74);
    out.push(0x2d);
    out.push(0x4c);
    out.push(0x65);
    out.push(0x6e);
    out.push(0x67);
    out.push(0x74);
    out.push(0x68);
    out.push(0x3a);
    out.push(0x20);
    out.push(0x30);
    out.push(0x0d);
    out.push(0x0a);
    out.push(0x0d);
    out.push(0x0a);
    proof {
        assert(out@ =~= old(out)@ + bad_response_spec());
    }
}

/// The decimal digits of `n`, most significant first.
pub open spec fn dec_digits(n: nat) -> Seq<u8>
    decreases n,
{
    if n < 10 {
        seq![(0x30 + n) as u8]
    } else {
        dec_digits(n / 10).push((0x30 + n % 10) as u8)
    }
}

/// Appends the decimal digits of `n`.
fn push_decimal(out: &mut Vec<u8>, n: u128)
    ensures
        final(out)@ == old(out)@ + dec_digits(n as nat),
    decreases n,
{
    if n < 10 {
        out.push(0x30 + (n as u8));
        proof {
            assert(out@ =~= old(out)@ + dec_digits(n as nat));
        }
    } else {
        push_decimal(out, n / 10);
        out.push(0x30 + ((n % 10) as u8));
        proof {
            assert(out@ =~= old(out)@ + dec_digits(n as nat));
        }
    }
}

/// The declared Content-Length of a 200 response: the fixed arithmetic
/// over the body template.
pub open spec fn content_length_of(m: Seq<u8>, p: Seq<u8>) -> nat {
    (m.len() + p.len() + 10) as nat
}

/// The full 200 response for the given method and path tokens.
pub open spec fn ok_response_spec(m: Seq<u8>, p: Seq<u8>) -> Seq<u8> {
    status_200_spec() + dec_digits(content_length_of(m, p)) + blank_method_spec() + m
        + comma_path_spec() + p
}

/// The response for a framed request text: a 200 built from the parsed
/// method and path, or the bare 400 on any parse failure.
pub open spec fn response_spec(t: Seq<u8>) -> Seq<u8> {
    match parse_spec(t) {
        Ok(r) => ok_response_spec(r.method, r.path),
        Err(_) => bad_response_spec(),
    }
}

/// Law: every parse failure, whichever error it is, is answered by the
/// one fixed 400 response — Content-Length 0 and no body — with no
/// per-error differentiation on the wire.
pub proof fn lemma_parse_failure_yields_400(t: Seq<u8>)
    requires
        parse_spec(t) is Err,
    ensures
        response_spec(t) == bad_response_spec(),
{
}

/// Law: a successful parse is answered by the 200 template built from
/// the parsed method and path, with the declared Content-Length being
/// `len(method) + len(path) + 10`.
pub proof fn lemma_parse_success_yields_200(t: Seq<u8>)
    requires
        parse_spec(t) is Ok,
    ensures
        response_spec(t) == ok_response_spec(
            parse_spec(t)->Ok_0.method,
            parse_spec(t)->Ok_0.path,
        ),
{
}

/// Law: a request line with fewer than three tokens makes the caller
/// observe the fixed 400 response — Content-Length 0 and no body —
/// whatever else the request holds.
pub proof fn lemma_short_request_line_observes_400(t: Seq<u8>)
    requires
        lines_of(t).len() > 0,
        tokens_of(lines_of(t)[0]).len() < 3,
    ensures
        parse_spec(t) == Err::<ReqView, ParseError>(ParseError::InvalidRequestLine),
        response_spec(t) == bad_response_spec(),
{
    lemma_short_request_line_rejected(t);
}

/// Law: one colonless header line makes the caller observe the fixed
/// 400 response, no matter how many valid header lines preceded it.
pub proof fn lemma_colonless_header_observes_400(t: Seq<u8>, k: int)
    requires
        lines_of(t).len() > 0,
        tokens_of(lines_of(t)[0]).len() >= 3,
        1 <= k < first_empty_at(lines_of(t), 1),
        !line_has_colon(lines_of(t)[k]),
    ensures
        parse_spec(t) == Err::<ReqView, ParseError>(ParseError::InvalidHeader),
        response_spec(t) == bad_response_spec(),
{
    lemma_colonless_header_rejected(t, k);
}

/// The fixed 400 response, sent for bad framing and every parse
/// failure alike.
pub fn bad_request_response() -> (r: Vec<u8>)
    ensures
        r@ == bad_response_spec(),
{
    let mut out: Vec<u8> = Vec::new();
    push_bad_response(&mut out);
    proof {
        assert(out@ =~= bad_response_spec());
    }
    out
}

/// Builds the 200 response for the given method and path tokens.
pub fn ok_response(method: &Vec<u8>, path: &Vec<u8>) -> (r: Vec<u8>)
    ensures
        r@ == ok_response_spec(method@, path@),
{
    let mut out: Vec<u8> = Vec::new();
    push_status_200(&mut out);
    let n: u128 = method.len() as u128 + path.len() as u128 + 10;
    push_decimal(&mut out, n);
    push_blank_method(&mut out);
    push_all(&mut out, method);
    push_comma_path(&mut out);
    push_all(&mut out, path);
    proof {
        assert(n as nat == content_length_of(method@, path@));
        assert(out@ =~= ok_response_spec(method@, path@));
    }
    out
}

/// Parses the request text and synthesizes the response for it.
pub fn response_for(text: &Vec<u8>) -> (r: Vec<u8>)
    ensures
        r@ == response_spec(text@),
{
    match parse_request(text) {
        Ok(req) => ok_response(&req.method, &req.path),
        Err(_) => bad_request_response(),
    }
}

} // verus!
