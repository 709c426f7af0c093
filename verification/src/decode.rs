//! The request decoder: it turns a raw text buffer into a structured
//! request, or reports exactly why the buffer is not a request.
//!
//! The buffer is split at the first blank line (CRLF CRLF) into the header
//! block and the raw body; the header block is split on CRLF into the start
//! line and the header lines; the start line is split on single spaces into
//! the method token and the verbatim path; each header line is split at its
//! first colon, the value trimmed, and a later occurrence of a name
//! overwrites the earlier value. A non-empty body is kept byte-for-byte and
//! tagged `TextPlain`; body presence alone decides the tag, and a
//! Content-Type header is deliberately not consulted (callers that care can
//! re-derive the type from the header with `HttpContentType::parse`).

use vstd::pervasive::VecAdditionalExecFns;
use vstd::prelude::*;
use vstd::string::StrSliceExecFns;

use crate::model::ContentModel;
use crate::model::DecodeError;
use crate::model::HttpContent;
use crate::model::HttpContentType;
use crate::model::HttpMethod;
use crate::model::HttpRequest;
use crate::model::RequestModel;
use crate::model::pair_views;
use crate::model::spec_header_lookup;
use crate::model::spec_method_parse;
use crate::text::crlf_chars;
use crate::text::find_char;
use crate::text::find_sep;
use crate::text::lemma_split_once_at;
use crate::text::sep_chars;
use crate::text::spec_trim;
use crate::text::split_all_spec;
use crate::text::split_crlf;
use crate::text::split_once_spec;
use crate::text::split_spaces;
use crate::text::str_views;
use crate::text::trim;

verus! {

/// `acc` with the value for `k` replaced in place, or `(k, v)` appended
/// when `k` is not yet present.
pub open spec fn spec_upsert(
    acc: Seq<(Seq<char>, Seq<char>)>,
    k: Seq<char>,
    v: Seq<char>,
) -> Seq<(Seq<char>, Seq<char>)>
    decreases acc.len(),
{
    if acc.len() == 0 {
        seq![(k, v)]
    } else if acc[0].0 == k {
        seq![(k, v)] + acc.drop_first()
    } else {
        seq![acc[0]] + spec_upsert(acc.drop_first(), k, v)
    }
}

/// Upserting a key that sits at position `j` updates that position.
pub proof fn lemma_upsert_found(
    acc: Seq<(Seq<char>, Seq<char>)>,
    k: Seq<char>,
    v: Seq<char>,
    j: int,
)
    requires
        0 <= j < acc.len(),
        acc[j].0 == k,
        forall|t: int| 0 <= t < j ==> acc[t].0 != k,
    ensures
        spec_upsert(acc, k, v) == acc.update(j, (k, v)),
    decreases acc.len(),
{
    if j == 0 {
        assert(seq![(k, v)] + acc.drop_first() =~= acc.update(0, (k, v)));
    } else {
        assert(acc[0].0 != k);
        lemma_upsert_found(acc.drop_first(), k, v, j - 1);
        assert(seq![acc[0]] + acc.drop_first().update(j - 1, (k, v)) =~= acc.update(
            j,
            (k, v),
        ));
    }
}

/// Upserting an absent key appends the pair.
pub proof fn lemma_upsert_absent(acc: Seq<(Seq<char>, Seq<char>)>, k: Seq<char>, v: Seq<char>)
    requires
        forall|t: int| 0 <= t < acc.len() ==> acc[t].0 != k,
    ensures
        spec_upsert(acc, k, v) == acc.push((k, v)),
    decreases acc.len(),
{
    if acc.len() == 0 {
        assert(seq![(k, v)] =~= acc.push((k, v)));
    } else {
        lemma_upsert_absent(acc.drop_first(), k, v);
        assert(seq![acc[0]] + acc.drop_first().push((k, v)) =~= acc.push((k, v)));
    }
}

/// Some header in the list has this name.
pub open spec fn contains_name(headers: Seq<(Seq<char>, Seq<char>)>, name: Seq<char>) -> bool {
    exists|i: int| 0 <= i < headers.len() && headers[i].0 == name
}

/// Upserting reads back as a mapping update: the upserted name now looks
/// up to the new value, and every other name is untouched.
pub proof fn lemma_upsert_lookup(
    acc: Seq<(Seq<char>, Seq<char>)>,
    k: Seq<char>,
    v: Seq<char>,
    n: Seq<char>,
)
    ensures
        spec_header_lookup(spec_upsert(acc, k, v), n) == (if n == k {
            Some(v)
        } else {
            spec_header_lookup(acc, n)
        }),
    decreases acc.len(),
{
    let r = spec_upsert(acc, k, v);
    if acc.len() == 0 {
        assert(r == seq![(k, v)]);
        assert(r[0].0 == k);
        if n == k {
            assert(spec_header_lookup(r, n) == Some(v));
        } else {
            assert(r.drop_first() =~= Seq::<(Seq<char>, Seq<char>)>::empty());
            assert(spec_header_lookup(r.drop_first(), n) is None);
            assert(spec_header_lookup(acc, n) is None);
        }
    } else if acc[0].0 == k {
        assert(r == seq![(k, v)] + acc.drop_first());
        assert(r[0] == (k, v));
        assert(r.drop_first() =~= acc.drop_first());
        if n == k {
            assert(spec_header_lookup(r, n) == Some(v));
        } else {
            assert(spec_header_lookup(r, n) == spec_header_lookup(acc.drop_first(), n));
            assert(spec_header_lookup(acc, n) == spec_header_lookup(acc.drop_first(), n));
        }
    } else {
        assert(r == seq![acc[0]] + spec_upsert(acc.drop_first(), k, v));
        assert(r[0] == acc[0]);
        assert(r.drop_first() =~= spec_upsert(acc.drop_first(), k, v));
        lemma_upsert_lookup(acc.drop_first(), k, v, n);
        if n == acc[0].0 {
            assert(spec_header_lookup(r, n) == Some(acc[0].1));
            assert(spec_header_lookup(acc, n) == Some(acc[0].1));
        } else {
            assert(spec_header_lookup(r, n) == spec_header_lookup(r.drop_first(), n));
            assert(spec_header_lookup(acc, n) == spec_header_lookup(acc.drop_first(), n));
        }
    }
}

/// Every name in an upserted mapping is the upserted name or one the
/// mapping already had.
proof fn lemma_upsert_name_origin(
    acc: Seq<(Seq<char>, Seq<char>)>,
    k: Seq<char>,
    v: Seq<char>,
    j: int,
)
    requires
        0 <= j < spec_upsert(acc, k, v).len(),
    ensures
        spec_upsert(acc, k, v)[j].0 == k || contains_name(acc, spec_upsert(acc, k, v)[j].0),
    decreases acc.len(),
{
    let r = spec_upsert(acc, k, v);
    if acc.len() == 0 {
        assert(r[0].0 == k);
    } else if acc[0].0 == k {
        if j > 0 {
            assert(r[j] == acc.drop_first()[j - 1]);
            assert(acc[j] == r[j]);
        }
    } else {
        if j == 0 {
            assert(r[0] == acc[0]);
        } else {
            assert(r[j] == spec_upsert(acc.drop_first(), k, v)[j - 1]);
            lemma_upsert_name_origin(acc.drop_first(), k, v, j - 1);
            if r[j].0 != k {
                let i = choose|i: int|
                    0 <= i < acc.drop_first().len() && acc.drop_first()[i].0 == r[j].0;
                assert(acc[i + 1].0 == r[j].0);
            }
        }
    }
}

/// Upserting keeps header names pairwise distinct.
pub proof fn lemma_upsert_distinct(acc: Seq<(Seq<char>, Seq<char>)>, k: Seq<char>, v: Seq<char>)
    requires
        forall|i: int, j: int| 0 <= i < j < acc.len() ==> acc[i].0 != acc[j].0,
    ensures
        forall|i: int, j: int|
            0 <= i < j < spec_upsert(acc, k, v).len() ==> spec_upsert(acc, k, v)[i].0
                != spec_upsert(acc, k, v)[j].0,
    decreases acc.len(),
{
    let r = spec_upsert(acc, k, v);
    if acc.len() == 0 {
    } else if acc[0].0 == k {
        assert forall|i: int, j: int| 0 <= i < j < r.len() implies r[i].0 != r[j].0 by {
            assert(r[j] == acc.drop_first()[j - 1]);
            assert(r[j] == acc[j]);
            if i == 0 {
                assert(r[0].0 == k);
                assert(acc[0].0 != acc[j].0);
            } else {
                assert(r[i] == acc[i]);
            }
        };
    } else {
        assert(forall|i: int, j: int|
            0 <= i < j < acc.drop_first().len() ==> acc.drop_first()[i].0
                != acc.drop_first()[j].0);
        lemma_upsert_distinct(acc.drop_first(), k, v);
        let u = spec_upsert(acc.drop_first(), k, v);
        assert forall|i: int, j: int| 0 <= i < j < r.len() implies r[i].0 != r[j].0 by {
            if i == 0 {
                assert(r[0] == acc[0]);
                assert(r[j] == u[j - 1]);
                lemma_upsert_name_origin(acc.drop_first(), k, v, j - 1);
                if u[j - 1].0 == k {
                } else {
                    let t = choose|t: int|
                        0 <= t < acc.drop_first().len() && acc.drop_first()[t].0 == u[j - 1].0;
                    assert(acc[t + 1].0 == u[j - 1].0);
                    assert(acc[0].0 != acc[t + 1].0);
                }
            } else {
                assert(r[i] == u[i - 1]);
                assert(r[j] == u[j - 1]);
            }
        };
    }
}

/// The mapping a header-line list parses to never holds two entries with
/// the same name.
pub proof fn lemma_parse_headers_distinct(lines: Seq<Seq<char>>)
    ensures
        forall|i: int, j: int|
            0 <= i < j < spec_parse_headers(lines).len() ==> spec_parse_headers(lines)[i].0
                != spec_parse_headers(lines)[j].0,
    decreases lines.len(),
{
    if lines.len() > 0 {
        lemma_parse_headers_distinct(lines.drop_last());
        let acc = spec_parse_headers(lines.drop_last());
        match split_once_spec(lines.last(), seq![':']) {
            None => {},
            Some((k, raw)) => {
                lemma_upsert_distinct(acc, k, spec_trim(raw));
            },
        }
    }
}

/// One header line applied to the mapping built so far: a line without a
/// colon is skipped; otherwise the part before the first colon is the name,
/// used verbatim, and the rest is the value, trimmed.
pub open spec fn spec_header_apply(
    acc: Seq<(Seq<char>, Seq<char>)>,
    line: Seq<char>,
) -> Seq<(Seq<char>, Seq<char>)> {
    match split_once_spec(line, seq![':']) {
        None => acc,
        Some((k, raw)) => spec_upsert(acc, k, spec_trim(raw)),
    }
}

/// The header mapping of a list of header lines, applied left to right.
pub open spec fn spec_parse_headers(lines: Seq<Seq<char>>) -> Seq<(Seq<char>, Seq<char>)>
    decreases lines.len(),
{
    if lines.len() == 0 {
        Seq::empty()
    } else {
        spec_header_apply(spec_parse_headers(lines.drop_last()), lines.last())
    }
}

/// The method and path of a start line: the first space-delimited token
/// must be a known method, and a second token must exist to be the path.
pub open spec fn spec_parse_start(line: Seq<char>) -> Result<
    (HttpMethod, Seq<char>),
    DecodeError,
> {
    let toks = split_all_spec(line, seq![' ']);
    match spec_method_parse(toks[0]) {
        Err(e) => Err(e),
        Ok(m) => if toks.len() < 2 {
            Err(DecodeError::MalformedRequest)
        } else {
            Ok((m, toks[1]))
        },
    }
}

/// A non-empty raw body becomes content tagged `TextPlain`; an empty one
/// is absent.
pub open spec fn spec_parse_content(body: Seq<char>) -> Option<ContentModel> {
    if body.len() == 0 {
        None
    } else {
        Some(ContentModel { body: body, content_type: HttpContentType::TextPlain })
    }
}

/// What decoding a raw buffer yields, for every input.
pub open spec fn spec_decode(s: Seq<char>) -> Result<RequestModel, DecodeError> {
    match split_once_spec(s, sep_chars()) {
        None => Err(DecodeError::MalformedRequest),
        Some((head, body)) => {
            let lines = split_all_spec(head, crlf_chars());
            match spec_parse_start(lines[0]) {
                Err(e) => Err(e),
                Ok((m, path)) => Ok(
                    RequestModel {
                        method: m,
                        path: path,
                        headers: spec_parse_headers(lines.drop_first()),
                        content: spec_parse_content(body),
                    },
                ),
            }
        },
    }
}

/// The model of a decode outcome: the request's model on success, the
/// error itself on failure.
pub open spec fn decode_result_view(r: Result<HttpRequest, DecodeError>) -> Result<
    RequestModel,
    DecodeError,
> {
    match r {
        Ok(req) => Ok(req@),
        Err(e) => Err(e),
    }
}

/// Replaces the value of `k` in place, or appends the pair when `k` is
/// absent.
fn upsert(acc: &mut Vec<(String, String)>, k: String, v: String)
    ensures
        pair_views(final(acc)@) == spec_upsert(pair_views(old(acc)@), k@, v@),
{
    let mut j: usize = 0;
    while j < acc.len()
        invariant
            acc@ == old(acc)@,
            j <= acc@.len(),
            forall|t: int| 0 <= t < j ==> pair_views(acc@)[t].0 != k@,
        decreases acc@.len() - j,
    {
        if acc[j].0 == k {
            proof {
                assert(pair_views(acc@)[j as int].0 == k@);
                lemma_upsert_found(pair_views(acc@), k@, v@, j as int);
            }
            acc.set(j, (k, v));
            proof {
                assert(pair_views(acc@) =~= pair_views(old(acc)@).update(
                    j as int,
                    (k@, v@),
                ));
            }
            return ;
        }
        j = j + 1;
    }
    proof {
        lemma_upsert_absent(pair_views(acc@), k@, v@);
    }
    let ghost prev = acc@;
    acc.push((k, v));
    proof {
        assert(pair_views(acc@) =~= pair_views(prev).push((k@, v@)));
    }
}

impl HttpRequest {
    /// The header mapping of the given header lines, applied top to
    /// bottom with later names overwriting earlier ones in place.
    pub fn parse_headers(headers: &Vec<String>) -> (r: Vec<(String, String)>)
        ensures
            pair_views(r@) == spec_parse_headers(str_views(headers@)),
    {
        let mut acc: Vec<(String, String)> = Vec::new();
        let mut idx: usize = 0;
        proof {
            assert(str_views(headers@).take(0) =~= Seq::<Seq<char>>::empty());
            assert(pair_views(acc@) =~= Seq::<(Seq<char>, Seq<char>)>::empty());
        }
        while idx < headers.len()
            invariant
                idx <= headers@.len(),
                pair_views(acc@) == spec_parse_headers(str_views(headers@).take(idx as int)),
            decreases headers@.len() - idx,
        {
            let line = &headers[idx];
            let n = line.as_str().unicode_len();
            let ghost before = pair_views(acc@);
            match find_char(line.as_str(), ':') {
                None => {
                    proof {
                        assert(spec_header_apply(before, line@) == before);
                    }
                },
                Some(j) => {
                    let key = line.as_str().substring_char(0, j).to_owned();
                    let raw = line.as_str().substring_char(j + 1, n);
                    let val = trim(raw);
                    proof {
                        lemma_split_once_at(line@, seq![':'], j as int);
                    }
                    upsert(&mut acc, key, val);
                    proof {
                        assert(pair_views(acc@) == spec_header_apply(before, line@));
                    }
                },
            }
            proof {
                let all = str_views(headers@);
                assert(all.take(idx as int + 1).drop_last() =~= all.take(idx as int));
                assert(all.take(idx as int + 1).last() == line@);
                assert(pair_views(acc@) == spec_parse_headers(all.take(idx as int + 1)));
            }
            idx = idx + 1;
        }
        proof {
            assert(str_views(headers@).take(headers@.len() as int) =~= str_views(headers@));
        }
        acc
    }

    /// The method and path of a start line, split on single spaces: the
    /// first token is parsed as the method, the second is the path,
    /// verbatim; further tokens (the protocol version) are ignored.
    pub fn parse_start_line(line: &str) -> (r: Result<(HttpMethod, String), DecodeError>)
        ensures
            match (r, spec_parse_start(line@)) {
                (Ok(p), Ok(q)) => p.0 == q.0 && p.1@ == q.1,
                (Err(e1), Err(e2)) => e1 == e2,
                _ => false,
            },
    {
        let toks = split_spaces(line);
        proof {
            assert(str_views(toks@)[0] == toks@[0]@);
        }
        let method = match HttpMethod::parse(toks[0].as_str()) {
            Ok(m) => m,
            Err(e) => {
                return Err(e);
            },
        };
        if toks.len() < 2 {
            return Err(DecodeError::MalformedRequest);
        }
        proof {
            assert(str_views(toks@)[1] == toks@[1]@);
        }
        let path = toks[1].clone();
        Ok((method, path))
    }

    /// A non-empty raw body wrapped as `TextPlain` content, byte for
    /// byte; an empty body is absent content.
    pub fn parse_content(content: &str) -> (r: Option<HttpContent>)
        ensures
            match (r, spec_parse_content(content@)) {
                (Some(c), Some(m)) => c@ == m,
                (None, None) => true,
                _ => false,
            },
    {
        if content.is_empty() {
            None
        } else {
            Some(
                HttpContent {
                    content: content.to_owned(),
                    content_type: HttpContentType::TextPlain,
                },
            )
        }
    }

    /// Decodes a raw request buffer, reporting a `DecodeError` for every
    /// structurally invalid input instead of degrading silently.
    pub fn new(raw_request: &str) -> (r: Result<HttpRequest, DecodeError>)
        ensures
            decode_result_view(r) == spec_decode(raw_request@),
    {
        let n = raw_request.unicode_len();
        let sep = match find_sep(raw_request) {
            None => {
                return Err(DecodeError::MalformedRequest);
            },
            Some(i) => i,
        };
        proof {
            lemma_split_once_at(raw_request@, sep_chars(), sep as int);
        }
        let head = raw_request.substring_char(0, sep);
        let body = raw_request.substring_char(sep + 4, n);
        let mut lines = split_crlf(head);
        proof {
            assert(split_all_spec(head@, crlf_chars()).len() >= 1);
            assert(str_views(lines@)[0] == lines@[0]@);
        }
        let ghost all_lines = str_views(lines@);
        let start = lines.remove(0);
        proof {
            assert(str_views(lines@) =~= all_lines.drop_first());
        }
        let (method, path) = match Self::parse_start_line(start.as_str()) {
            Ok(p) => p,
            Err(e) => {
                return Err(e);
            },
        };
        let headers = Self::parse_headers(&lines);
        let content = Self::parse_content(body);
        let req = HttpRequest { method, path, headers, content };
        proof {
            let spec_req = spec_decode(raw_request@)->Ok_0;
            assert(req@.method == spec_req.method);
            assert(req@.path == spec_req.path);
            assert(req@.headers == spec_req.headers);
            assert(req@.content == spec_req.content);
        }
        Ok(req)
    }
}

} // verus!
