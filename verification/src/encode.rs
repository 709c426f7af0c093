//! The response encoder: it turns a structured response into the exact
//! wire bytes to send back. It is total: a well-formed response always
//! encodes.
//!
//! The wire form is the status line `HTTP/1.1 <reason>` followed, when
//! content is present, by exactly a Content-Type header, a Content-Length
//! header counting the body's bytes (not its characters), a blank line and
//! the body; with no content only the blank line follows the status line.
//! No other headers are ever emitted.

use vstd::prelude::*;
use vstd::string::StringExecFns;
use vstd::utf8::encode_utf8;

use crate::model::HttpContent;
use crate::model::HttpContentType;
use crate::model::HttpMethod;
use crate::model::HttpResponse;
use crate::model::HttpStatusCode;
use crate::model::pair_views;
use crate::model::spec_mime;
use crate::model::spec_reason;
use crate::text::crlf_chars;
use crate::text::dec_rep;
use crate::text::is_ws;
use crate::text::sep_chars;
use crate::text::usize_to_dec;

verus! {

/// `s` contains no carriage return and no line feed.
pub open spec fn clean(s: Seq<char>) -> bool {
    forall|i: int| 0 <= i < s.len() ==> s[i] != '\r' && s[i] != '\n'
}

/// A path that survives the wire: no spaces (the start line's delimiter)
/// and no line breaks. It may be empty.
pub open spec fn valid_path(p: Seq<char>) -> bool {
    forall|i: int| 0 <= i < p.len() ==> p[i] != '\r' && p[i] != '\n' && p[i] != ' '
}

/// A header name that survives the wire: no colon (the name/value
/// delimiter) and no line breaks. It is used verbatim, and may be empty.
pub open spec fn valid_header_name(k: Seq<char>) -> bool {
    forall|i: int| 0 <= i < k.len() ==> k[i] != '\r' && k[i] != '\n' && k[i] != ':'
}

/// A header value that survives the wire and the decoder's trim: no line
/// breaks, and no whitespace at either end.
pub open spec fn valid_header_value(v: Seq<char>) -> bool {
    &&& clean(v)
    &&& v.len() > 0 ==> !is_ws(v[0]) && !is_ws(v[v.len() - 1])
}

/// Every header in the list survives the wire: valid names and values.
pub open spec fn valid_headers(headers: Seq<(Seq<char>, Seq<char>)>) -> bool {
    forall|i: int|
        0 <= i < headers.len() ==> valid_header_name(#[trigger] headers[i].0)
            && valid_header_value(headers[i].1)
}

/// No two headers in the list share a name.
pub open spec fn distinct_header_names(headers: Seq<(Seq<char>, Seq<char>)>) -> bool {
    forall|i: int, j: int| 0 <= i < j < headers.len() ==> headers[i].0 != headers[j].0
}

/// The start-line token of a method.
pub open spec fn method_token(m: HttpMethod) -> Seq<char> {
    match m {
        HttpMethod::Get => "GET"@,
        HttpMethod::Post => "POST"@,
    }
}

/// The wire form of one header.
pub open spec fn header_line_of(k: Seq<char>, v: Seq<char>) -> Seq<char> {
    k + seq![':', ' '] + v
}

/// The start line of a request.
pub open spec fn start_line_of(m: HttpMethod, path: Seq<char>) -> Seq<char> {
    method_token(m) + seq![' '] + path + seq![' '] + "HTTP/1.1"@
}

/// The wire lines of a header list, in order.
pub open spec fn header_lines_of(headers: Seq<(Seq<char>, Seq<char>)>) -> Seq<Seq<char>> {
    headers.map_values(|h: (Seq<char>, Seq<char>)| header_line_of(h.0, h.1))
}

/// Every line of a request's header block, start line first.
pub open spec fn request_lines(
    m: HttpMethod,
    path: Seq<char>,
    headers: Seq<(Seq<char>, Seq<char>)>,
) -> Seq<Seq<char>> {
    seq![start_line_of(m, path)] + header_lines_of(headers)
}

/// `parts` joined by `sep` between consecutive parts.
pub open spec fn joined_with(sep: Seq<char>, parts: Seq<Seq<char>>) -> Seq<char>
    decreases parts.len(),
{
    if parts.len() == 0 {
        Seq::empty()
    } else if parts.len() == 1 {
        parts[0]
    } else {
        parts[0] + sep + joined_with(sep, parts.drop_first())
    }
}

/// The exact wire text of a request assembled from its parts.
pub open spec fn spec_encode_request(
    m: HttpMethod,
    path: Seq<char>,
    headers: Seq<(Seq<char>, Seq<char>)>,
    body: Seq<char>,
) -> Seq<char> {
    joined_with(crlf_chars(), request_lines(m, path, headers)) + sep_chars() + body
}

/// Appending one more part extends the joined text by one separator and
/// that part.
proof fn lemma_joined_push(sep: Seq<char>, parts: Seq<Seq<char>>, x: Seq<char>)
    requires
        parts.len() >= 1,
    ensures
        joined_with(sep, parts.push(x)) == joined_with(sep, parts) + sep + x,
    decreases parts.len(),
{
    if parts.len() == 1 {
        assert(parts.push(x).drop_first() =~= seq![x]);
        assert(parts.push(x)[0] == parts[0]);
        assert(joined_with(sep, seq![x]) == x);
        assert(joined_with(sep, parts) == parts[0]);
        assert(joined_with(sep, parts.push(x)) == parts.push(x)[0] + sep + joined_with(
            sep,
            parts.push(x).drop_first(),
        ));
        assert(joined_with(sep, parts.push(x)) =~= joined_with(sep, parts) + sep + x);
    } else {
        assert(parts.push(x).drop_first() =~= parts.drop_first().push(x));
        lemma_joined_push(sep, parts.drop_first(), x);
        assert(joined_with(sep, parts.push(x)) =~= joined_with(sep, parts) + sep + x);
    }
}

/// The wire text of a request assembled from its parts: the start line,
/// one line per header in the given order, the blank-line separator, and
/// the body verbatim.
pub fn encode_request(
    method: HttpMethod,
    path: &str,
    headers: &Vec<(String, String)>,
    body: &str,
) -> (r: String)
    ensures
        r@ == spec_encode_request(method, path@, pair_views(headers@), body@),
{
    let ghost hviews = pair_views(headers@);
    let mut out = match method {
        HttpMethod::Get => String::from_str("GET"),
        HttpMethod::Post => String::from_str("POST"),
    };
    out.append(" ");
    out.append(path);
    out.append(" HTTP/1.1");
    proof {
        reveal_strlit(" ");
        reveal_strlit(" HTTP/1.1");
        reveal_strlit("HTTP/1.1");
        assert(" "@ =~= seq![' ']);
        assert(" HTTP/1.1"@ =~= seq![' '] + "HTTP/1.1"@);
        assert(out@ =~= start_line_of(method, path@));
        assert(hviews.take(0) =~= Seq::<(Seq<char>, Seq<char>)>::empty());
        assert(request_lines(method, path@, hviews.take(0)) =~= seq![
            start_line_of(method, path@),
        ]);
    }
    let mut i: usize = 0;
    while i < headers.len()
        invariant
            i <= headers@.len(),
            hviews == pair_views(headers@),
            out@ == joined_with(
                crlf_chars(),
                request_lines(method, path@, hviews.take(i as int)),
            ),
        decreases headers@.len() - i,
    {
        out.append("\r\n");
        out.append(headers[i].0.as_str());
        out.append(": ");
        out.append(headers[i].1.as_str());
        proof {
            reveal_strlit("\r\n");
            reveal_strlit(": ");
            assert("\r\n"@ =~= crlf_chars());
            assert(": "@ =~= seq![':', ' ']);
            let prev = request_lines(method, path@, hviews.take(i as int));
            let line = header_line_of(hviews[i as int].0, hviews[i as int].1);
            assert(hviews[i as int] == (headers@[i as int].0@, headers@[i as int].1@));
            lemma_joined_push(crlf_chars(), prev, line);
            assert(request_lines(method, path@, hviews.take(i as int + 1)) =~= prev.push(
                line,
            ));
            assert(out@ =~= joined_with(
                crlf_chars(),
                request_lines(method, path@, hviews.take(i as int + 1)),
            ));
        }
        i = i + 1;
    }
    out.append("\r\n\r\n");
    out.append(body);
    proof {
        reveal_strlit("\r\n\r\n");
        assert("\r\n\r\n"@ =~= sep_chars());
        assert(hviews.take(headers@.len() as int) =~= hviews);
        assert(out@ =~= spec_encode_request(method, path@, hviews, body@));
    }
    out
}

/// The number of bytes in the UTF-8 encoding of `s`.
pub open spec fn byte_len(s: Seq<char>) -> nat {
    encode_utf8(s).len()
}

/// The exact wire text of a response, for every response.
pub open spec fn spec_encode_response(r: HttpResponse) -> Seq<char> {
    match r.content {
        Some(c) => "HTTP/1.1 "@ + spec_reason(r.status_code) + "\r\nContent-Type: "@
            + spec_mime(c.content_type) + "\r\nContent-Length: "@ + dec_rep(
            byte_len(c.content@),
        ) + "\r\n\r\n"@ + c.content@,
        None => "HTTP/1.1 "@ + spec_reason(r.status_code) + "\r\n\r\n"@,
    }
}

impl HttpResponse {
    /// The wire bytes of this response, exactly as `spec_encode_response`
    /// lays them out; the Content-Length value counts the body's bytes.
    pub fn encode(&self) -> (r: String)
        ensures
            r@ == spec_encode_response(*self),
    {
        let mut out = String::from_str("HTTP/1.1 ");
        out.append(self.status_code.canonical_reason());
        match &self.content {
            Some(c) => {
                out.append("\r\nContent-Type: ");
                out.append(c.content_type.as_str());
                out.append("\r\nContent-Length: ");
                let blen = c.content.as_str().as_bytes().len();
                proof {
                    broadcast use vstd::slice::axiom_spec_len;

                    assert(blen as nat == byte_len(c.content@));
                }
                let len_str = usize_to_dec(blen);
                out.append(len_str.as_str());
                out.append("\r\n\r\n");
                out.append(c.content.as_str());
                proof {
                    assert(out@ =~= spec_encode_response(*self));
                }
            },
            None => {
                out.append("\r\n\r\n");
                proof {
                    assert(out@ =~= spec_encode_response(*self));
                }
            },
        }
        out
    }
}

/// A 200 response that wraps the given text, if any, as plain-text
/// content.
pub fn build_ok_response(content: Option<&str>) -> (r: HttpResponse)
    ensures
        r.status_code == HttpStatusCode::Okay,
        match (content, r.content) {
            (Some(s), Some(c)) => c@.body == s@ && c@.content_type
                == HttpContentType::TextPlain,
            (None, None) => true,
            _ => false,
        },
{
    HttpResponse {
        status_code: HttpStatusCode::Okay,
        content: match content {
            Some(c) => Some(
                HttpContent { content: c.to_owned(), content_type: HttpContentType::TextPlain },
            ),
            None => None,
        },
    }
}

} // verus!
