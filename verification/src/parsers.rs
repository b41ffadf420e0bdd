//! The request parser: a pure function over the characters of the raw
//! buffer. The grammar is `METHOD SP TARGET SP VERSION CRLF` followed by
//! header lines `Name ':' Value CRLF` up to an empty line; whatever
//! follows the empty line is the body. A malformed request line, a
//! method outside the closed set, a target not starting with `/`, or a
//! header line without a colon each fail the whole parse.

use vstd::prelude::*;
use vstd::utf8::encode_utf8;
use crate::dict::{Dict, spec_dict_insert};
use crate::methods::{HttpMethod, spec_method_of};
use crate::request::{Request, RequestView};
use crate::text::{
    find_char, line_split, spec_find_char, spec_line_split, spec_split_char, spec_trim_spaces,
    split_char, trim_spaces, lemma_find_char, lemma_line_split_len,
};

verus! {

/// The error a structural violation of the request grammar produces,
/// carrying a human-readable reason.
#[derive(Debug)]
pub struct InvalidRequest {
    pub reason: String,
}

impl InvalidRequest {
    /// Wraps a reason string.
    pub fn with_reason(reason: &str) -> (r: InvalidRequest)
        ensures
            r.reason@ == reason@,
    {
        InvalidRequest { reason: reason.to_owned() }
    }
}

/// What the request line denotes: its method, target, and version, or
/// `None` when it has other than three tokens, an unknown method, or a
/// target not starting with `/`.
pub open spec fn spec_parse_request_line(line: Seq<char>) -> Option<
    (HttpMethod, Seq<char>, Seq<char>),
> {
    let toks = spec_split_char(line, ' ');
    if toks.len() != 3 {
        None
    } else {
        match spec_method_of(toks[0]) {
            None => None,
            Some(m) => if toks[1].len() > 0 && toks[1][0] == '/' {
                Some((m, toks[1], toks[2]))
            } else {
                None
            },
        }
    }
}

/// What a header line denotes: the name before the first colon and the
/// value after it with leading spaces dropped, or `None` when the line
/// has no colon or an empty name.
pub open spec fn spec_header_line(line: Seq<char>) -> Option<(Seq<char>, Seq<char>)> {
    match spec_find_char(line, ':') {
        None => None,
        Some(i) => if i == 0 {
            None
        } else {
            Some((line.take(i), spec_trim_spaces(line.skip(i + 1))))
        },
    }
}

/// Folds the header lines of `s` into `acc` until the empty line, whose
/// remainder becomes the body; with no empty line the headers run to the
/// end of input and there is no body. A malformed header line fails the
/// whole parse.
pub open spec fn spec_parse_headers(s: Seq<char>, acc: Seq<(Seq<char>, Seq<char>)>) -> Option<
    (Seq<(Seq<char>, Seq<char>)>, Option<Seq<char>>),
>
    decreases s.len(),
    via spec_parse_headers_decreases
{
    let (line, rest) = spec_line_split(s);
    if line.len() == 0 {
        match rest {
            Some(r) => Some((acc, Some(r))),
            None => Some((acc, None)),
        }
    } else {
        match spec_header_line(line) {
            None => None,
            Some((k, v)) => {
                let acc2 = spec_dict_insert(acc, k, v);
                match rest {
                    Some(r) => spec_parse_headers(r, acc2),
                    None => Some((acc2, None)),
                }
            },
        }
    }
}

#[via_fn]
proof fn spec_parse_headers_decreases(s: Seq<char>, acc: Seq<(Seq<char>, Seq<char>)>) {
    lemma_line_split_len(s);
}

/// What a raw buffer denotes as a request, or `None` when its structure
/// is violated. The body, when present, is carried as the UTF-8 bytes of
/// the text after the empty line.
pub open spec fn spec_parse(s: Seq<char>) -> Option<RequestView> {
    let (line, rest) = spec_line_split(s);
    match spec_parse_request_line(line) {
        None => None,
        Some((m, uri, ver)) => {
            let hb = match rest {
                Some(r) => spec_parse_headers(r, Seq::empty()),
                None => Some((Seq::<(Seq<char>, Seq<char>)>::empty(), None::<Seq<char>>)),
            };
            match hb {
                None => None,
                Some((hs, body)) => Some(
                    RequestView {
                        version: ver,
                        uri: uri,
                        method: m,
                        headers: hs,
                        body: match body {
                            Some(b) => Some(encode_utf8(b)),
                            None => None,
                        },
                        params: Seq::empty(),
                    },
                ),
            }
        },
    }
}

/// Folds the header lines of `rest` into `headers` and stores the body's
/// bytes, mirroring `spec_parse_headers`.
fn parse_headers(rest: &str, headers: &mut Dict, body: &mut Option<Vec<u8>>) -> (r: Result<
    (),
    InvalidRequest,
>)
    requires
        *old(body) is None,
    ensures
        match spec_parse_headers(rest@, old(headers)@) {
            Some((hs, b)) => r is Ok && final(headers)@ == hs && (match b {
                Some(bc) => *final(body) matches Some(bv) && bv@ == encode_utf8(bc),
                None => *final(body) is None,
            }),
            None => r matches Err(e) && e.reason@ == "malformed header line"@,
        },
    decreases rest@.len(),
{
    let (line, nxt) = line_split(rest);
    if line.is_empty() {
        match nxt {
            Some(b) => {
                *body = Some(b.as_bytes_vec());
            },
            None => {},
        }
        Ok(())
    } else {
        match find_char(line, ':') {
            None => Err(InvalidRequest::with_reason("malformed header line")),
            Some(j) => {
                proof {
                    lemma_find_char(line@, ':');
                }
                if j == 0 {
                    return Err(InvalidRequest::with_reason("malformed header line"));
                }
                let len = line.unicode_len();
                let name = line.substring_char(0, j);
                let value_raw = line.substring_char(j + 1, len);
                let value = trim_spaces(value_raw);
                proof {
                    assert(line@.subrange(0, j as int) =~= line@.take(j as int));
                    assert(line@.subrange(j + 1, len as int) =~= line@.skip(j + 1));
                }
                headers.insert(name, value);
                match nxt {
                    Some(n) => {
                        proof {
                            lemma_line_split_len(rest@);
                        }
                        parse_headers(n, headers, body)
                    },
                    None => Ok(()),
                }
            },
        }
    }
}

/// The reason reported for a buffer that does not parse, by the first
/// structural violation found: the request line's token count, then the
/// method, then the target, then the header block.
pub open spec fn spec_parse_error(s: Seq<char>) -> Seq<char> {
    let (line, rest) = spec_line_split(s);
    let toks = spec_split_char(line, ' ');
    if toks.len() != 3 {
        "malformed request line"@
    } else if spec_method_of(toks[0]) is None {
        "unknown method"@
    } else if !(toks[1].len() > 0 && toks[1][0] == '/') {
        "invalid target"@
    } else {
        "malformed header line"@
    }
}

/// The wire text of a request holding only a request line and a blank
/// line: `METHOD SP PATH SP HTTP/1.1 CRLF CRLF`.
pub open spec fn spec_simple_request(m: HttpMethod, path: Seq<char>) -> Seq<char> {
    crate::methods::spec_method_token(m) + seq![' '] + path + seq![' '] + "HTTP/1.1"@
        + "\r\n\r\n"@
}

/// Law (round trip): any request line built from a method and a path —
/// the path starting with `/` and free of spaces and line breaks —
/// followed by a blank line parses, and the parsed request carries back
/// exactly that method and that path.
pub proof fn lemma_parse_round_trip(m: HttpMethod, path: Seq<char>)
    requires
        path.len() > 0,
        path[0] == '/',
        forall|j: int| 0 <= j < path.len() ==> path[j] != ' ' && path[j] != '\r' && path[j] != '\n',
    ensures
        spec_parse(spec_simple_request(m, path)) is Some,
        spec_parse(spec_simple_request(m, path)).unwrap().method == m,
        spec_parse(spec_simple_request(m, path)).unwrap().uri == path,
{
    let tok = crate::methods::spec_method_token(m);
    let ver = "HTTP/1.1"@;
    let sp = seq![' '];
    let line = tok + sp + path + sp + ver;
    let s = spec_simple_request(m, path);
    reveal_strlit("HTTP/1.1");
    reveal_strlit("\r\n\r\n");
    crate::methods::lemma_method_token_clean(m);
    crate::methods::lemma_method_token_of(m);
    assert(ver.len() == 8);
    assert(tok.len() > 0);
    assert forall|j: int| 0 <= j < ver.len() implies ver[j] != ' ' && ver[j] != '\r' && ver[j]
        != '\n' by {
        assert(ver[0] == 'H' && ver[1] == 'T' && ver[2] == 'T' && ver[3] == 'P' && ver[4] == '/'
            && ver[5] == '1' && ver[6] == '.' && ver[7] == '1');
    }
    let t1 = tok + sp;
    let t2 = t1 + path;
    let t3 = t2 + sp;
    assert forall|j: int| 0 <= j < line.len() implies line[j] != '\r' && line[j] != '\n' by {
        if j < t3.len() {
            if j < t2.len() {
                if j < t1.len() {
                    if j < tok.len() {
                        assert(line[j] == tok[j]);
                    } else {
                        assert(line[j] == ' ');
                    }
                } else {
                    assert(line[j] == path[j - t1.len()]);
                }
            } else {
                assert(line[j] == ' ');
            }
        } else {
            assert(line[j] == ver[j - t3.len()]);
        }
    }
    let tail = "\r\n\r\n"@;
    assert(tail.len() == 4);
    assert(tail[0] == '\r' && tail[1] == '\n' && tail[2] == '\r' && tail[3] == '\n');
    let hl = line.len() as int;
    assert(s == line + tail);
    assert(s[hl] == tail[0]);
    assert(s[hl + 1] == tail[1]);
    assert(crate::text::spec_crlf_at(s, hl));
    assert forall|j: int| 0 <= j < hl implies !crate::text::spec_crlf_at(s, j) by {
        assert(s[j] == line[j]);
    }
    crate::text::lemma_line_split_at(s, hl);
    assert(spec_line_split(s).0 =~= line) by {
        assert(s.take(hl) =~= line);
    }
    assert(spec_line_split(s).1 == Some(s.skip(hl + 2)));
    let rest = s.skip(hl + 2);
    assert(rest =~= seq!['\r', '\n']);
    // the request line splits into exactly [token, path, version]
    let rest2 = path + sp + ver;
    assert(line =~= tok + seq![' '] + rest2);
    crate::text::lemma_split_char_concat(tok, rest2, ' ');
    assert(rest2 =~= path + seq![' '] + ver);
    crate::text::lemma_split_char_concat(path, ver, ' ');
    crate::text::lemma_split_char_no_sep(ver, ' ');
    let toks = spec_split_char(line, ' ');
    assert(toks == seq![tok] + (seq![path] + seq![ver]));
    assert(toks.len() == 3);
    assert(toks[0] == tok);
    assert(toks[1] == path);
    assert(toks[2] == ver);
    assert(spec_parse_request_line(line) == Some((m, path, ver)));
    // the remainder is a blank line: no headers, an empty body
    assert(spec_line_split(rest) == (Seq::<char>::empty(), Some(rest.skip(2)))) by {
        assert(rest.len() >= 2 && rest[0] == '\r' && rest[1] == '\n');
    }
    assert(spec_line_split(rest).0.len() == 0);
    assert(spec_parse_headers(rest, Seq::empty()) == Some(
        (Seq::<(Seq<char>, Seq<char>)>::empty(), Some(rest.skip(2))),
    ));
    assert(spec_parse(s) is Some);
    assert(spec_parse(s).unwrap().method == m);
    assert(spec_parse(s).unwrap().uri == path);
}

/// Law (malformed input): a buffer whose request line holds fewer than
/// three space-separated tokens, or whose first token is no method of
/// the closed set, never parses.
pub proof fn lemma_malformed_request_line(s: Seq<char>)
    requires
        ({
            let toks = spec_split_char(spec_line_split(s).0, ' ');
            toks.len() < 3 || spec_method_of(toks[0]) is None
        }),
    ensures
        spec_parse(s) is None,
{
}

/// Pulls the target out of the first line of a raw request: the second
/// space-separated token, which must start with `/` and be more than the
/// bare slash.
pub fn get_path(req: String) -> (r: Result<String, InvalidRequest>)
    ensures
        ({
            let line = spec_line_split(req@).0;
            let toks = spec_split_char(line, ' ');
            if toks.len() < 2 || toks[1].len() == 0 || toks[1][0] != '/' {
                r matches Err(e) && e.reason@ == "invalid path"@
            } else if toks[1].len() == 1 {
                r matches Err(e) && e.reason@ == "empty path"@
            } else {
                r matches Ok(p) && p@ == toks[1]
            }
        }),
{
    let (line, _rest) = line_split(req.as_str());
    let toks = split_char(line, ' ');
    proof {
        assert(toks.deep_view().len() == toks.len());
        if toks.len() >= 2 {
            assert(toks.deep_view()[1] == toks@[1]@);
        }
    }
    if toks.len() < 2 {
        return Err(InvalidRequest::with_reason("invalid path"));
    }
    let p = toks[1].as_str();
    let plen = p.unicode_len();
    if plen == 0 {
        return Err(InvalidRequest::with_reason("invalid path"));
    }
    if p.get_char(0) != '/' {
        return Err(InvalidRequest::with_reason("invalid path"));
    }
    if plen == 1 {
        return Err(InvalidRequest::with_reason("empty path"));
    }
    Ok(p.to_owned())
}

/// Parses the raw request text into `my_req`, replacing its whole
/// content on success and leaving it untouched on failure.
pub fn parse_request(request: String, my_req: &mut Request) -> (r: Result<(), InvalidRequest>)
    ensures
        match spec_parse(request@) {
            Some(rv) => r is Ok && final(my_req)@ == rv,
            None => r matches Err(e) && e.reason@ == spec_parse_error(request@) && *final(my_req)
                == *old(my_req),
        },
{
    let (line, rest_opt) = line_split(request.as_str());
    let toks = split_char(line, ' ');
    proof {
        assert(toks.deep_view().len() == toks.len());
        assert(toks.deep_view() == spec_split_char(spec_line_split(request@).0, ' '));
    }
    if toks.len() != 3 {
        return Err(InvalidRequest::with_reason("malformed request line"));
    }
    proof {
        assert(toks.deep_view()[0] == toks@[0]@);
        assert(toks.deep_view()[1] == toks@[1]@);
        assert(toks.deep_view()[2] == toks@[2]@);
    }
    let method = match HttpMethod::parse(toks[0].as_str()) {
        Some(m) => m,
        None => {
            return Err(InvalidRequest::with_reason("unknown method"));
        },
    };
    if toks[1].as_str().is_empty() {
        return Err(InvalidRequest::with_reason("invalid target"));
    }
    if toks[1].as_str().get_char(0) != '/' {
        return Err(InvalidRequest::with_reason("invalid target"));
    }
    let mut headers = Dict::new();
    let mut body: Option<Vec<u8>> = None;
    match rest_opt {
        Some(rest0) => {
            match parse_headers(rest0, &mut headers, &mut body) {
                Ok(()) => {},
                Err(e) => {
                    return Err(e);
                },
            }
        },
        None => {},
    }
    let mut req = Request::empty();
    req.set_version(toks[2].as_str());
    req.set_uri(toks[1].as_str());
    req.set_method(method);
    req.set_headers(headers);
    match body {
        Some(b) => req.set_body(b),
        None => {},
    }
    *my_req = req;
    Ok(())
}

} // verus!
