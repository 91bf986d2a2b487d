//! The request parser: turns the text of a framed request into a
//! structured request (method, path, version, headers, optional body)
//! or a typed parse failure.
//!
//! The grammar is deliberately loose: the request line is the first
//! line's first three whitespace-separated tokens, taken verbatim;
//! header lines run up to the first empty line and are split at their
//! first colon, name and value whitespace-trimmed; everything after the
//! empty line, rejoined with single newlines, is the body, absent when
//! that text is empty.

use vstd::prelude::*;

use crate::bytes::{
    find_from, find_ws_from, first_at, first_ws_at, is_ws, is_ws_exec, lemma_first_at_bounds,
    lemma_first_at_is,
    lemma_first_ws_at_bounds, lemma_first_ws_at_is, push_all, subvec, trim, trim_range, views_of,
};

verus! {

pub const NL: u8 = 0x0a;

pub const CR: u8 = 0x0d;

pub const COLON: u8 = 0x3a;

/// Why a parse attempt failed. `UnsupportedMethod` is reserved for a
/// future method check and is never produced by the current grammar.
#[derive(Clone, Copy, Debug, PartialEq, Eq, Structural)]
pub enum ParseError {
    InvalidRequestLine,
    InvalidHeader,
    IncompleteRequest,
    UnsupportedMethod,
}

/// `s` without a single trailing carriage return, if it has one.
pub open spec fn strip_cr(s: Seq<u8>) -> Seq<u8> {
    if s.len() > 0 && s.last() == CR {
        s.drop_last()
    } else {
        s
    }
}

/// The lines of `t`: split at each newline, a trailing carriage return
/// removed from each piece, and no empty final piece when `t` ends with
/// a newline.
pub open spec fn lines_of(t: Seq<u8>) -> Seq<Seq<u8>>
    decreases t.len(),
{
    if t.len() == 0 {
        Seq::empty()
    } else {
        let i = first_at(t, 0, NL);
        if 0 <= i < t.len() {
            seq![strip_cr(t.take(i))] + lines_of(t.skip(i + 1))
        } else {
            seq![strip_cr(t)]
        }
    }
}

/// The maximal runs of non-whitespace bytes in `s`, in order.
pub open spec fn tokens_of(s: Seq<u8>) -> Seq<Seq<u8>>
    decreases s.len(),
{
    if s.len() == 0 {
        Seq::empty()
    } else if is_ws(s[0]) {
        tokens_of(s.drop_first())
    } else {
        let e = first_ws_at(s, 0);
        if 0 < e <= s.len() {
            seq![s.take(e)] + tokens_of(s.skip(e))
        } else {
            seq![s]
        }
    }
}

/// Index of the first empty line at or after `j`; `lines.len()` when
/// there is none.
pub open spec fn first_empty_at(lines: Seq<Seq<u8>>, j: int) -> int
    decreases lines.len() - j,
{
    if j < 0 {
        first_empty_at(lines, 0)
    } else if j >= lines.len() {
        lines.len() as int
    } else if lines[j].len() == 0 {
        j
    } else {
        first_empty_at(lines, j + 1)
    }
}

pub proof fn lemma_first_empty_at_bounds(lines: Seq<Seq<u8>>, from: int)
    requires
        0 <= from <= lines.len(),
    ensures
        from <= first_empty_at(lines, from) <= lines.len(),
        first_empty_at(lines, from) < lines.len() ==> lines[first_empty_at(lines, from)].len()
            == 0,
        forall|k: int| from <= k < first_empty_at(lines, from) ==> lines[k].len() != 0,
    decreases lines.len() - from,
{
    if from < lines.len() && lines[from].len() != 0 {
        lemma_first_empty_at_bounds(lines, from + 1);
    }
}

pub proof fn lemma_first_empty_at_is(lines: Seq<Seq<u8>>, from: int, j: int)
    requires
        0 <= from <= j <= lines.len(),
        j < lines.len() ==> lines[j].len() == 0,
        forall|k: int| from <= k < j ==> lines[k].len() != 0,
    ensures
        first_empty_at(lines, from) == j,
    decreases j - from,
{
    if from < j {
        lemma_first_empty_at_is(lines, from + 1, j);
    }
}

/// Whether `l` contains a colon.
pub open spec fn line_has_colon(l: Seq<u8>) -> bool {
    first_at(l, 0, COLON) < l.len()
}

/// The header pair a line yields: the part before its first colon and
/// the part after, each whitespace-trimmed.
pub open spec fn header_pair_of(l: Seq<u8>) -> (Seq<u8>, Seq<u8>) {
    let c = first_at(l, 0, COLON);
    (trim(l.take(c)), trim(l.skip(c + 1)))
}

pub open spec fn all_headers_ok(hs: Seq<Seq<u8>>) -> bool {
    forall|j: int| 0 <= j < hs.len() ==> line_has_colon(#[trigger] hs[j])
}

pub open spec fn headers_of(hs: Seq<Seq<u8>>) -> Seq<(Seq<u8>, Seq<u8>)> {
    hs.map_values(|l: Seq<u8>| header_pair_of(l))
}

/// The lines joined with a single newline between consecutive lines.
pub open spec fn join_nl(ls: Seq<Seq<u8>>) -> Seq<u8>
    decreases ls.len(),
{
    if ls.len() == 0 {
        Seq::empty()
    } else if ls.len() == 1 {
        ls[0]
    } else {
        join_nl(ls.drop_last()) + seq![NL] + ls.last()
    }
}

/// The lines strictly after the header-terminating empty line.
pub open spec fn body_lines(lines: Seq<Seq<u8>>, he: int) -> Seq<Seq<u8>> {
    if 0 <= he + 1 <= lines.len() {
        lines.skip(he + 1)
    } else {
        Seq::empty()
    }
}

/// The mathematical shape of a parsed request.
pub ghost struct ReqView {
    pub method: Seq<u8>,
    pub path: Seq<u8>,
    pub version: Seq<u8>,
    pub headers: Seq<(Seq<u8>, Seq<u8>)>,
    pub body: Option<Seq<u8>>,
}

/// What parsing `t` yields: the request, or the first failure in the
/// order request line, then headers. Empty input has no request line at
/// all and is `IncompleteRequest`.
pub open spec fn parse_spec(t: Seq<u8>) -> Result<ReqView, ParseError> {
    let lines = lines_of(t);
    if lines.len() == 0 {
        Err(ParseError::IncompleteRequest)
    } else {
        let toks = tokens_of(lines[0]);
        if toks.len() < 3 {
            Err(ParseError::InvalidRequestLine)
        } else {
            let he = first_empty_at(lines, 1);
            let hs = lines.subrange(1, he);
            if !all_headers_ok(hs) {
                Err(ParseError::InvalidHeader)
            } else {
                let b = join_nl(body_lines(lines, he));
                Ok(
                    ReqView {
                        method: toks[0],
                        path: toks[1],
                        version: toks[2],
                        headers: headers_of(hs),
                        body: if b.len() == 0 {
                            None
                        } else {
                            Some(b)
                        },
                    },
                )
            }
        }
    }
}

/// The view of one stored header pair.
pub open spec fn pair_views(p: (Vec<u8>, Vec<u8>)) -> (Seq<u8>, Seq<u8>) {
    (p.0@, p.1@)
}

/// The views of the stored header pairs.
pub open spec fn header_views(hs: Seq<(Vec<u8>, Vec<u8>)>) -> Seq<(Seq<u8>, Seq<u8>)> {
    Seq::new(hs.len(), |i: int| pair_views(hs[i]))
}

/// A parsed request. Tokens are kept verbatim; header names and values
/// are trimmed; the body is absent rather than empty.
#[derive(Clone, Debug, PartialEq, Eq)]
pub struct HttpRequest {
    pub method: Vec<u8>,
    pub path: Vec<u8>,
    pub version: Vec<u8>,
    pub headers: Vec<(Vec<u8>, Vec<u8>)>,
    pub body: Option<Vec<u8>>,
}

impl View for HttpRequest {
    type V = ReqView;

    open spec fn view(&self) -> ReqView {
        ReqView {
            method: self.method@,
            path: self.path@,
            version: self.version@,
            headers: header_views(self.headers@),
            body: match self.body {
                Some(b) => Some(b@),
                None => None,
            },
        }
    }
}

/// Removes a trailing carriage return, if any.
fn strip_cr_exec(line: Vec<u8>) -> (r: Vec<u8>)
    ensures
        r@ == strip_cr(line@),
{
    let ghost orig = line@;
    let mut line = line;
    if line.len() > 0 && line[line.len() - 1] == CR {
        line.pop();
        proof {
            assert(line@ =~= strip_cr(orig));
        }
    }
    line
}

/// Splits `v` into its lines.
fn split_lines(v: &Vec<u8>) -> (r: Vec<Vec<u8>>)
    ensures
        views_of(r@) == lines_of(v@),
{
    let mut out: Vec<Vec<u8>> = Vec::new();
    let mut start: usize = 0;
    proof {
        assert(v@.skip(0) =~= v@);
        assert(views_of(out@) =~= Seq::<Seq<u8>>::empty());
    }
    loop
        invariant
            start <= v@.len(),
            lines_of(v@) == views_of(out@) + lines_of(v@.skip(start as int)),
        decreases v@.len() - start,
    {
        let ghost pre = out@;
        match find_from(v, start, NL) {
            Some(i) => {
                proof {
                    lemma_first_at_bounds(v@, start as int, NL);
                    let s = v@.skip(start as int);
                    assert(forall|k: int|
                        0 <= k < i - start ==> #[trigger] s[k] == v@[start + k]);
                    lemma_first_at_is(s, 0, NL, i - start);
                    assert(lines_of(s) == seq![strip_cr(s.take(i - start))] + lines_of(
                        s.skip(i - start + 1),
                    ));
                    assert(s.take(i - start) =~= v@.subrange(start as int, i as int));
                    assert(s.skip(i - start + 1) =~= v@.skip(i + 1));
                }
                let piece = strip_cr_exec(subvec(v, start, i));
                out.push(piece);
                proof {
                    assert(views_of(out@) =~= views_of(pre) + seq![
                        strip_cr(v@.subrange(start as int, i as int)),
                    ]);
                }
                let n = v.len();
                proof {
                    assert(i < n);
                }
                start = i + 1;
            },
            None => {
                proof {
                    lemma_first_at_bounds(v@, start as int, NL);
                    let s = v@.skip(start as int);
                    assert(forall|k: int|
                        0 <= k < s.len() ==> #[trigger] s[k] == v@[start + k]);
                    lemma_first_at_is(s, 0, NL, s.len() as int);
                }
                if start < v.len() {
                    let piece = strip_cr_exec(subvec(v, start, v.len()));
                    out.push(piece);
                    proof {
                        let s = v@.skip(start as int);
                        assert(s =~= v@.subrange(start as int, v@.len() as int));
                        assert(lines_of(s) == seq![strip_cr(s)]);
                        assert(views_of(out@) =~= views_of(pre) + seq![strip_cr(s)]);
                        assert(views_of(out@) + lines_of(v@.skip(v@.len() as int)) =~= views_of(
                            out@,
                        ));
                    }
                } else {
                    proof {
                        assert(views_of(out@) + lines_of(v@.skip(start as int)) =~= views_of(
                            out@,
                        ));
                    }
                }
                return out;
            },
        }
    }
}

/// Splits `line` into its whitespace-separated tokens.
fn split_tokens(line: &Vec<u8>) -> (r: Vec<Vec<u8>>)
    ensures
        views_of(r@) == tokens_of(line@),
{
    let mut out: Vec<Vec<u8>> = Vec::new();
    let mut i: usize = 0;
    proof {
        assert(line@.skip(0) =~= line@);
        assert(views_of(out@) =~= Seq::<Seq<u8>>::empty());
    }
    while i < line.len()
        invariant
            i <= line@.len(),
            tokens_of(line@) == views_of(out@) + tokens_of(line@.skip(i as int)),
        decreases line@.len() - i,
    {
        let ghost pre = out@;
        if is_ws_exec(line[i]) {
            proof {
                let s = line@.skip(i as int);
                assert(s.len() > 0 && is_ws(s[0]));
                assert(s.drop_first() =~= line@.skip(i as int + 1));
            }
            i = i + 1;
        } else {
            let e = find_ws_from(line, i);
            proof {
                lemma_first_ws_at_bounds(line@, i as int);
                let s = line@.skip(i as int);
                assert(forall|k: int| 0 <= k < s.len() ==> #[trigger] s[k] == line@[i + k]);
                lemma_first_ws_at_is(s, 0, e - i);
                assert(!is_ws(s[0]));
                assert(0 < e - i <= s.len());
                assert(tokens_of(s) == seq![s.take(e - i)] + tokens_of(s.skip(e - i)));
                assert(s.take(e - i) =~= line@.subrange(i as int, e as int));
                assert(s.skip(e - i) =~= line@.skip(e as int));
            }
            let tok = subvec(line, i, e);
            out.push(tok);
            proof {
                assert(views_of(out@) =~= views_of(pre) + seq![
                    line@.subrange(i as int, e as int),
                ]);
            }
            i = e;
        }
    }
    proof {
        assert(line@.skip(line@.len() as int).len() == 0);
        assert(views_of(out@) + tokens_of(line@.skip(line@.len() as int)) =~= views_of(out@));
    }
    out
}

/// Law: on text whose request line has at least three
/// whitespace-separated tokens and whose header block — the lines up
/// to the first empty line — consists of lines that each carry a
/// colon, parsing succeeds, and the returned method, path and version
/// are the first three tokens of the request line, verbatim.
pub proof fn lemma_request_line_taken_verbatim(t: Seq<u8>)
    requires
        lines_of(t).len() > 0,
        tokens_of(lines_of(t)[0]).len() >= 3,
        all_headers_ok(lines_of(t).subrange(1, first_empty_at(lines_of(t), 1))),
    ensures
        parse_spec(t) is Ok,
        parse_spec(t)->Ok_0.method == tokens_of(lines_of(t)[0])[0],
        parse_spec(t)->Ok_0.path == tokens_of(lines_of(t)[0])[1],
        parse_spec(t)->Ok_0.version == tokens_of(lines_of(t)[0])[2],
{
}

/// Law: a request line with fewer than three tokens fails the whole
/// parse with `InvalidRequestLine`, whatever follows it.
pub proof fn lemma_short_request_line_rejected(t: Seq<u8>)
    requires
        lines_of(t).len() > 0,
        tokens_of(lines_of(t)[0]).len() < 3,
    ensures
        parse_spec(t) == Err::<ReqView, ParseError>(ParseError::InvalidRequestLine),
{
}

/// Law: one header line without a colon fails the whole parse with
/// `InvalidHeader`, no matter how many valid header lines precede it —
/// no partial header map is ever surfaced.
pub proof fn lemma_colonless_header_rejected(t: Seq<u8>, k: int)
    requires
        lines_of(t).len() > 0,
        tokens_of(lines_of(t)[0]).len() >= 3,
        1 <= k < first_empty_at(lines_of(t), 1),
        !line_has_colon(lines_of(t)[k]),
    ensures
        parse_spec(t) == Err::<ReqView, ParseError>(ParseError::InvalidHeader),
{
    let lines = lines_of(t);
    lemma_first_empty_at_bounds(lines, 1);
    let he = first_empty_at(lines, 1);
    let hs = lines.subrange(1, he);
    assert(hs[k - 1] == lines[k]);
    assert(!all_headers_ok(hs));
}

/// Law: `IncompleteRequest` is exactly the empty-input failure — a
/// parse attempt reports it if and only if there was no request line
/// at all.
pub proof fn lemma_incomplete_iff_empty(t: Seq<u8>)
    ensures
        (parse_spec(t) == Err::<ReqView, ParseError>(ParseError::IncompleteRequest)) <==> t.len()
            == 0,
{
}

/// Law: `UnsupportedMethod` is a reserved tag — no input makes the
/// current grammar raise it.
pub proof fn lemma_unsupported_method_unreached(t: Seq<u8>)
    ensures
        parse_spec(t) != Err::<ReqView, ParseError>(ParseError::UnsupportedMethod),
{
}

/// Parses the text of a framed request.
///
/// The result is exactly what `parse_spec` says of the input: the
/// request with method, path and version taken verbatim from the first
/// three tokens of the request line, the trimmed header pairs up to the
/// first empty line, and the rejoined body when it is non-empty — or
/// the first failure, `IncompleteRequest` on empty input,
/// `InvalidRequestLine` on a short request line, `InvalidHeader` on a
/// colonless header line.
pub fn parse_request(text: &Vec<u8>) -> (r: Result<HttpRequest, ParseError>)
    ensures
        match r {
            Ok(req) => parse_spec(text@) == Ok::<ReqView, ParseError>(req@),
            Err(e) => parse_spec(text@) == Err::<ReqView, ParseError>(e),
        },
{
    let lines = split_lines(text);
    let ghost dv = views_of(lines@);
    if lines.len() == 0 {
        return Err(ParseError::IncompleteRequest);
    }
    let mut toks = split_tokens(&lines[0]);
    let ghost tv = tokens_of(dv[0]);
    proof {
        assert(dv[0] == lines@[0]@);
        assert(views_of(toks@) == tv);
    }
    if toks.len() < 3 {
        return Err(ParseError::InvalidRequestLine);
    }
    let method = toks.remove(0);
    let path = toks.remove(0);
    let version = toks.remove(0);
    proof {
        assert(method@ == tv[0]);
        assert(path@ == tv[1]);
        assert(version@ == tv[2]);
        assert(tv.len() >= 3);
    }
    let mut headers: Vec<(Vec<u8>, Vec<u8>)> = Vec::new();
    let mut j: usize = 1;
    proof {
        assert(dv.subrange(1, 1) =~= Seq::<Seq<u8>>::empty());
        assert(header_views(headers@) =~= headers_of(dv.subrange(1, 1)));
    }
    while j < lines.len() && lines[j].len() > 0
        invariant
            1 <= j <= lines@.len(),
            dv == views_of(lines@),
            tv == tokens_of(dv[0]),
            tv.len() >= 3,
            dv.len() == lines@.len(),
            lines_of(text@) == dv,
            forall|k: int| 1 <= k < j ==> (#[trigger] dv[k]).len() != 0,
            forall|k: int| 1 <= k < j ==> line_has_colon(#[trigger] dv[k]),
            header_views(headers@) == headers_of(dv.subrange(1, j as int)),
        decreases lines@.len() - j,
    {
        let line = &lines[j];
        proof {
            assert(line@ == dv[j as int]);
        }
        match find_from(line, 0, COLON) {
            None => {
                proof {
                    lemma_first_at_bounds(line@, 0, COLON);
                    assert(!line_has_colon(dv[j as int]));
                    lemma_first_empty_at_bounds(dv, 1);
                    let he = first_empty_at(dv, 1);
                    assert(he > j) by {
                        if he <= j {
                            assert(dv[he].len() == 0);
                        }
                    }
                    let hs = dv.subrange(1, he);
                    assert(hs[j - 1] == dv[j as int]);
                    assert(!all_headers_ok(hs));
                }
                return Err(ParseError::InvalidHeader);
            },
            Some(c) => {
                let name = trim_range(line, 0, c);
                let value = trim_range(line, c + 1, line.len());
                proof {
                    assert(line_has_colon(dv[j as int]));
                    assert(line@.take(c as int) =~= line@.subrange(0, c as int));
                    assert(line@.skip(c as int + 1) =~= line@.subrange(
                        c as int + 1,
                        line@.len() as int,
                    ));
                    assert(header_pair_of(dv[j as int]) == (name@, value@));
                }
                let ghost pre = headers@;
                headers.push((name, value));
                proof {
                    assert(dv.subrange(1, j as int + 1) =~= dv.subrange(1, j as int).push(
                        dv[j as int],
                    ));
                    let sub1 = dv.subrange(1, j as int);
                    let sub2 = dv.subrange(1, j as int + 1);
                    assert(sub2 =~= sub1.push(dv[j as int]));
                    assert(headers@ == pre.push((name, value)));
                    assert(header_views(pre) == headers_of(sub1));
                    assert(header_views(pre).len() == pre.len());
                    assert(headers_of(sub1).len() == sub1.len());
                    assert(pre.len() == sub1.len());
                    assert forall|i: int| 0 <= i < sub2.len() implies header_views(headers@)[i]
                        == headers_of(sub2)[i] by {
                        assert(headers@.len() == pre.len() + 1);
                        if i < sub1.len() {
                            assert(pre.push((name, value))[i] == pre[i]);
                            assert(header_views(pre)[i] == headers_of(sub1)[i]);
                            assert(sub2[i] == sub1[i]);
                        } else {
                            assert(i == pre.len());
                            assert(pre.push((name, value))[i] == (name, value));
                            assert(sub2[i] == dv[j as int]);
                        }
                    }
                    assert(header_views(headers@) =~= headers_of(sub2));
                }
                j = j + 1;
            },
        }
    }
    proof {
        lemma_first_empty_at_is(dv, 1, j as int);
        assert(all_headers_ok(dv.subrange(1, j as int)));
    }
    let mut body_buf: Vec<u8> = Vec::new();
    if j < lines.len() {
        let mut k: usize = j + 1;
        proof {
            assert(body_buf@ =~= join_nl(dv.subrange(j as int + 1, j as int + 1)));
        }
        while k < lines.len()
            invariant
                j + 1 <= k <= lines@.len(),
                dv == views_of(lines@),
                dv.len() == lines@.len(),
                body_buf@ == join_nl(dv.subrange(j as int + 1, k as int)),
            decreases lines@.len() - k,
        {
            let ghost pre = body_buf@;
            if k > j + 1 {
                body_buf.push(NL);
            }
            push_all(&mut body_buf, &lines[k]);
            proof {
                assert(lines@[k as int]@ == dv[k as int]);
                let sub = dv.subrange(j as int + 1, k as int + 1);
                assert(sub.len() == k - j);
                if k == j + 1 {
                    assert(sub.len() == 1);
                    assert(sub[0] == dv[k as int]);
                    assert(body_buf@ =~= pre + dv[k as int]);
                    assert(pre.len() == 0);
                    assert(body_buf@ == join_nl(sub));
                } else {
                    assert(sub.drop_last() =~= dv.subrange(j as int + 1, k as int));
                    assert(sub.last() == dv[k as int]);
                    assert(body_buf@ =~= pre + seq![NL] + dv[k as int]);
                    assert(body_buf@ == join_nl(sub));
                }
            }
            k = k + 1;
        }
        proof {
            assert(dv.subrange(j as int + 1, dv.len() as int) =~= body_lines(dv, j as int));
        }
    } else {
        proof {
            assert(body_lines(dv, j as int) =~= Seq::<Seq<u8>>::empty());
            assert(body_buf@ =~= join_nl(body_lines(dv, j as int)));
        }
    }
    let body = if body_buf.len() == 0 {
        None
    } else {
        Some(body_buf)
    };
    let ghost b = join_nl(body_lines(dv, j as int));
    let req = HttpRequest { method, path, version, headers, body };
    proof {
        assert(req@.headers == header_views(headers@));
        assert(req@.headers == headers_of(dv.subrange(1, j as int)));
        assert(req@.body == (if b.len() == 0 {
            Option::<Seq<u8>>::None
        } else {
            Option::<Seq<u8>>::Some(b)
        }));
        assert(parse_spec(text@) == Ok::<ReqView, ParseError>(req@));
    }
    Ok(req)
}

} // verus!
