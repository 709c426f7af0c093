//! The laws the codec obeys, stated over the same spec functions that the
//! executable functions' contracts use: a request assembled from valid
//! parts decodes back to those parts; encoding has an exact byte length
//! with a Content-Length that counts the body's bytes; and the two decode
//! failures strike exactly when the spec says they do.

use vstd::prelude::*;
use vstd::utf8::encode_utf8;
use vstd::utf8::is_ascii_chars;
use vstd::utf8::is_ascii_chars_encode_utf8;

use crate::decode::spec_decode;
use crate::decode::spec_header_apply;
use crate::decode::spec_parse_content;
use crate::decode::spec_parse_headers;
use crate::decode::spec_parse_start;
use crate::decode::spec_upsert;
use crate::decode::lemma_parse_headers_distinct;
use crate::decode::lemma_upsert_absent;
use crate::decode::lemma_upsert_lookup;
use crate::model::DecodeError;
use crate::model::HttpMethod;
use crate::model::HttpResponse;
use crate::model::RequestModel;
use crate::model::spec_header_lookup;
use crate::model::spec_method_parse;
use crate::model::spec_mime;
use crate::model::spec_reason;
use crate::encode::byte_len;
use crate::encode::clean;
use crate::encode::distinct_header_names;
use crate::encode::header_line_of;
use crate::encode::header_lines_of;
use crate::encode::joined_with;
use crate::encode::method_token;
use crate::encode::request_lines;
use crate::encode::spec_encode_request;
use crate::encode::spec_encode_response;
use crate::encode::start_line_of;
use crate::encode::valid_header_name;
use crate::encode::valid_header_value;
use crate::encode::valid_headers;
use crate::encode::valid_path;
use crate::text::crlf_chars;
use crate::text::dec_rep;
use crate::text::digit_char;
use crate::text::is_first_match;
use crate::text::is_ws;
use crate::text::lemma_split_all_unfold;
use crate::text::lemma_split_once_at;
use crate::text::match_at;
use crate::text::occurs;
use crate::text::sep_chars;
use crate::text::spec_trim;
use crate::text::split_all_spec;
use crate::text::split_once_spec;

verus! {

/// A pattern first occurs right after a prefix that is free of the
/// pattern's first character.
proof fn lemma_first_match_boundary(a: Seq<char>, pat: Seq<char>, b: Seq<char>)
    requires
        pat.len() >= 1,
        forall|i: int| 0 <= i < a.len() ==> a[i] != pat[0],
    ensures
        is_first_match(a + pat + b, pat, a.len() as int),
{
    let s = a + pat + b;
    assert(s.subrange(a.len() as int, a.len() + pat.len() as int) =~= pat);
    assert forall|j: int| 0 <= j < a.len() implies !match_at(s, pat, j) by {
        if match_at(s, pat, j) {
            assert(s.subrange(j, j + pat.len() as int)[0] == s[j]);
            assert(s[j] == a[j]);
        }
    };
}

/// Splitting on `sep` undoes joining with `sep`, whenever no part
/// contains the separator's first character.
proof fn lemma_split_joined(sep: Seq<char>, parts: Seq<Seq<char>>)
    requires
        sep.len() >= 1,
        parts.len() >= 1,
        forall|p: int, i: int|
            0 <= p < parts.len() && 0 <= i < parts[p].len() ==> parts[p][i] != sep[0],
    ensures
        split_all_spec(joined_with(sep, parts), sep) == parts,
    decreases parts.len(),
{
    let s = joined_with(sep, parts);
    if parts.len() == 1 {
        assert forall|j: int| !match_at(s, sep, j) by {
            if match_at(s, sep, j) {
                assert(s.subrange(j, j + sep.len() as int)[0] == s[j]);
                assert(s[j] == parts[0][j]);
            }
        };
        assert(!occurs(s, sep));
        assert(split_all_spec(s, sep) =~= parts);
    } else {
        let rest = joined_with(sep, parts.drop_first());
        assert(s == parts[0] + sep + rest);
        lemma_first_match_boundary(parts[0], sep, rest);
        lemma_split_all_unfold(s, sep, parts[0].len() as int);
        assert(s.subrange(0, parts[0].len() as int) =~= parts[0]);
        assert(s.subrange(parts[0].len() + sep.len() as int, s.len() as int) =~= rest);
        assert(forall|p: int, i: int|
            0 <= p < parts.drop_first().len() && 0 <= i < parts.drop_first()[p].len()
                ==> parts.drop_first()[p][i] != sep[0]);
        lemma_split_joined(sep, parts.drop_first());
        assert(split_all_spec(s, sep) =~= seq![parts[0]] + parts.drop_first());
        assert(seq![parts[0]] + parts.drop_first() =~= parts);
    }
}

/// Every carriage return in `ht` starts a CRLF that a non-CR character
/// follows.
pub open spec fn crlf_shaped(ht: Seq<char>) -> bool {
    forall|j: int|
        0 <= j < ht.len() && (#[trigger] ht[j]) == '\r' ==> j + 2 < ht.len() && ht[j + 1]
            == '\n' && ht[j + 2] != '\r'
}

/// In a block of non-empty line-break-free lines joined by CRLF, every
/// carriage return starts a CRLF joiner that a clean character follows.
proof fn lemma_joined_crlf_shape(lines: Seq<Seq<char>>)
    requires
        lines.len() >= 1,
        forall|l: int| 0 <= l < lines.len() ==> clean(lines[l]) && lines[l].len() >= 1,
    ensures
        joined_with(crlf_chars(), lines).len() >= 1,
        joined_with(crlf_chars(), lines)[0] != '\r',
        crlf_shaped(joined_with(crlf_chars(), lines)),
    decreases lines.len(),
{
    let ht = joined_with(crlf_chars(), lines);
    if lines.len() == 1 {
        assert(ht == lines[0]);
        assert(clean(lines[0]));
        assert forall|j: int| 0 <= j < ht.len() && (#[trigger] ht[j]) == '\r' implies j + 2 < ht.len()
            && ht[j + 1] == '\n' && ht[j + 2] != '\r' by {
            assert(lines[0][j] != '\r');
        };
    } else {
        let l0 = lines[0];
        let rest = joined_with(crlf_chars(), lines.drop_first());
        assert(forall|l: int|
            0 <= l < lines.drop_first().len() ==> clean(lines.drop_first()[l])
                && lines.drop_first()[l].len() >= 1);
        lemma_joined_crlf_shape(lines.drop_first());
        assert(ht == l0 + crlf_chars() + rest);
        assert(rest[0] == lines.drop_first()[0][0] || rest[0] != '\r');
        assert forall|j: int| 0 <= j < ht.len() && (#[trigger] ht[j]) == '\r' implies j + 2 < ht.len()
            && ht[j + 1] == '\n' && ht[j + 2] != '\r' by {
            if j < l0.len() {
                assert(ht[j] == l0[j]);
                assert(l0[j] != '\r');
            } else if j == l0.len() {
                assert(ht[j + 1] == '\n');
                assert(ht[j + 2] == rest[0]);
            } else if j == l0.len() + 1 {
                assert(ht[j] == '\n');
            } else {
                let k = j - l0.len() - 2;
                assert(ht[j] == rest[k]);
                assert(rest[k] == '\r' ==> k + 2 < rest.len() && rest[k + 1] == '\n'
                    && rest[k + 2] != '\r');
                assert(ht[j + 1] == rest[k + 1]);
                assert(ht[j + 2] == rest[k + 2]);
            }
        };
        assert(ht[0] == l0[0]);
    }
}

/// The blank-line separator of an assembled request sits exactly at the
/// end of its header block.
proof fn lemma_first_sep(lines: Seq<Seq<char>>, body: Seq<char>)
    requires
        lines.len() >= 1,
        forall|l: int| 0 <= l < lines.len() ==> clean(lines[l]) && lines[l].len() >= 1,
    ensures
        is_first_match(
            joined_with(crlf_chars(), lines) + sep_chars() + body,
            sep_chars(),
            joined_with(crlf_chars(), lines).len() as int,
        ),
{
    let ht = joined_with(crlf_chars(), lines);
    let s = ht + sep_chars() + body;
    lemma_joined_crlf_shape(lines);
    assert(s.subrange(ht.len() as int, ht.len() as int + 4) =~= sep_chars());
    assert forall|j: int| 0 <= j < ht.len() implies !match_at(s, sep_chars(), j) by {
        if match_at(s, sep_chars(), j) {
            assert(s.subrange(j, j + 4)[0] == s[j]);
            assert(s.subrange(j, j + 4)[2] == s[j + 2]);
            assert(s[j] == ht[j]);
            assert(ht[j] == '\r');
            assert(j + 2 < ht.len() && ht[j + 2] != '\r');
            assert(s[j + 2] == ht[j + 2]);
        }
    };
}

/// Line breaks stay absent under concatenation.
proof fn lemma_clean_concat(a: Seq<char>, b: Seq<char>)
    requires
        clean(a),
        clean(b),
    ensures
        clean(a + b),
{
    assert forall|i: int| 0 <= i < (a + b).len() implies (a + b)[i] != '\r' && (a + b)[i]
        != '\n' by {
        if i < a.len() {
            assert((a + b)[i] == a[i]);
        } else {
            assert((a + b)[i] == b[i - a.len()]);
        }
    };
}

/// Trimming undoes the single space the encoder writes after the colon,
/// for every value that carries no whitespace at its ends.
proof fn lemma_trim_space_value(v: Seq<char>)
    requires
        valid_header_value(v),
    ensures
        spec_trim(seq![' '] + v) == v,
{
    let s = seq![' '] + v;
    assert(is_ws(s[0]));
    assert(s.drop_first() =~= v);
    if v.len() == 0 {
        assert(spec_trim(v) == v);
    } else {
        assert(!is_ws(v[0]));
        assert(!is_ws(v[v.len() - 1]));
        assert(spec_trim(v) == v);
    }
}

/// Parsing the wire lines of a header list with pairwise distinct names
/// gives back exactly that list.
proof fn lemma_headers_round_trip(headers: Seq<(Seq<char>, Seq<char>)>)
    requires
        valid_headers(headers),
        distinct_header_names(headers),
    ensures
        spec_parse_headers(header_lines_of(headers)) == headers,
    decreases headers.len(),
{
    let lines = header_lines_of(headers);
    if headers.len() == 0 {
        assert(spec_parse_headers(lines) =~= headers);
    } else {
        let hd = headers.drop_last();
        let k = headers.last().0;
        let v = headers.last().1;
        assert(header_lines_of(hd) =~= lines.drop_last());
        lemma_headers_round_trip(hd);
        let line = header_line_of(k, v);
        assert(lines.last() == line);
        assert(line =~= k + seq![':'] + (seq![' '] + v));
        assert(valid_header_name(k));
        lemma_first_match_boundary(k, seq![':'], seq![' '] + v);
        lemma_split_once_at(line, seq![':'], k.len() as int);
        assert(line.subrange(0, k.len() as int) =~= k);
        assert(line.subrange(k.len() + 1 as int, line.len() as int) =~= seq![' '] + v);
        assert(valid_header_value(v));
        lemma_trim_space_value(v);
        assert(spec_header_apply(hd, line) == spec_upsert(hd, k, v));
        assert forall|t: int| 0 <= t < hd.len() implies hd[t].0 != k by {
            assert(headers[t].0 != headers[headers.len() - 1].0);
        };
        lemma_upsert_absent(hd, k, v);
        assert(hd.push((k, v)) =~= headers);
        assert(spec_parse_headers(lines) == spec_header_apply(
            spec_parse_headers(lines.drop_last()),
            lines.last(),
        ));
    }
}

/// Parsing an assembled start line gives back its method and path.
proof fn lemma_start_round_trip(m: HttpMethod, path: Seq<char>)
    requires
        valid_path(path),
    ensures
        spec_parse_start(start_line_of(m, path)) == Ok::<_, DecodeError>((m, path)),
{
    proof_strlits();
    let parts = seq![method_token(m), path, "HTTP/1.1"@];
    let line = start_line_of(m, path);
    assert(joined_with(seq![' '], parts) == method_token(m) + seq![' '] + joined_with(
        seq![' '],
        parts.drop_first(),
    ));
    assert(parts.drop_first() =~= seq![path, "HTTP/1.1"@]);
    assert(joined_with(seq![' '], seq![path, "HTTP/1.1"@]) == path + seq![' ']
        + joined_with(seq![' '], seq![path, "HTTP/1.1"@].drop_first()));
    assert(seq![path, "HTTP/1.1"@].drop_first() =~= seq!["HTTP/1.1"@]);
    assert(line =~= joined_with(seq![' '], parts));
    assert forall|p: int, i: int|
        0 <= p < parts.len() && 0 <= i < parts[p].len() implies parts[p][i]
        != seq![' '][0] by {
        if p == 0 {
            assert(method_token(m)[i] != ' ');
        } else if p == 1 {
            assert(path[i] != ' ');
        } else {
            assert("HTTP/1.1"@[i] != ' ');
        }
    };
    lemma_split_joined(seq![' '], parts);
    let toks = split_all_spec(line, seq![' ']);
    assert(toks[0] == method_token(m));
    assert(toks[1] == path);
    assert(spec_method_parse(method_token(m)) == Ok::<_, DecodeError>(m));
}

/// The concrete characters of the literal tokens of the wire format.
proof fn proof_strlits()
    ensures
        "GET"@ == seq!['G', 'E', 'T'],
        "POST"@ == seq!['P', 'O', 'S', 'T'],
        "HTTP/1.1"@ == seq!['H', 'T', 'T', 'P', '/', '1', '.', '1'],
{
    reveal_strlit("GET");
    reveal_strlit("POST");
    reveal_strlit("HTTP/1.1");
    assert("GET"@ =~= seq!['G', 'E', 'T']);
    assert("POST"@ =~= seq!['P', 'O', 'S', 'T']);
    assert("HTTP/1.1"@ =~= seq!['H', 'T', 'T', 'P', '/', '1', '.', '1']);
}

/// Every line of an assembled request is non-empty and free of line
/// breaks.
proof fn lemma_request_lines_ok(
    m: HttpMethod,
    path: Seq<char>,
    headers: Seq<(Seq<char>, Seq<char>)>,
)
    requires
        valid_path(path),
        valid_headers(headers),
    ensures
        forall|l: int|
            0 <= l < request_lines(m, path, headers).len() ==> clean(
                #[trigger] request_lines(m, path, headers)[l],
            ) && request_lines(m, path, headers)[l].len() >= 1,
{
    proof_strlits();
    let lines = request_lines(m, path, headers);
    assert forall|l: int| 0 <= l < lines.len() implies clean(#[trigger] lines[l])
        && lines[l].len() >= 1 by {
        if l == 0 {
            assert(lines[0] == start_line_of(m, path));
            assert(clean(method_token(m)));
            assert(clean(seq![' ']));
            assert(clean(path));
            assert(clean("HTTP/1.1"@));
            lemma_clean_concat(method_token(m), seq![' ']);
            lemma_clean_concat(method_token(m) + seq![' '], path);
            lemma_clean_concat(method_token(m) + seq![' '] + path, seq![' ']);
            lemma_clean_concat(method_token(m) + seq![' '] + path + seq![' '], "HTTP/1.1"@);
        } else {
            let k = headers[l - 1].0;
            let v = headers[l - 1].1;
            assert(lines[l] == header_line_of(k, v));
            assert(clean(k));
            assert(clean(seq![':', ' ']));
            lemma_clean_concat(k, seq![':', ' ']);
            lemma_clean_concat(k + seq![':', ' '], v);
        }
    };
}

/// Whatever was assembled from valid parts decodes back to those parts:
/// method, path and headers round-trip exactly, and the body round-trips
/// whenever it is non-empty (an empty body decodes to absent content).
pub proof fn lemma_request_round_trip(
    m: HttpMethod,
    path: Seq<char>,
    headers: Seq<(Seq<char>, Seq<char>)>,
    body: Seq<char>,
)
    requires
        valid_path(path),
        valid_headers(headers),
        distinct_header_names(headers),
    ensures
        spec_decode(spec_encode_request(m, path, headers, body)) == Ok::<_, DecodeError>(
            RequestModel {
                method: m,
                path: path,
                headers: headers,
                content: spec_parse_content(body),
            },
        ),
{
    let lines = request_lines(m, path, headers);
    lemma_request_lines_ok(m, path, headers);
    let ht = joined_with(crlf_chars(), lines);
    let e = spec_encode_request(m, path, headers, body);
    lemma_first_sep(lines, body);
    lemma_split_once_at(e, sep_chars(), ht.len() as int);
    assert(e.subrange(0, ht.len() as int) =~= ht);
    assert(e.subrange(ht.len() + 4 as int, e.len() as int) =~= body);
    assert forall|p: int, i: int|
        0 <= p < lines.len() && 0 <= i < lines[p].len() implies lines[p][i]
        != crlf_chars()[0] by {
        assert(clean(lines[p]));
    };
    lemma_split_joined(crlf_chars(), lines);
    assert(lines[0] == start_line_of(m, path));
    lemma_start_round_trip(m, path);
    assert(lines.drop_first() =~= header_lines_of(headers));
    lemma_headers_round_trip(headers);
}

/// UTF-8 encoding distributes over concatenation.
proof fn lemma_encode_utf8_concat(a: Seq<char>, b: Seq<char>)
    ensures
        encode_utf8(a + b) == encode_utf8(a) + encode_utf8(b),
    decreases a.len(),
{
    if a.len() == 0 {
        assert(a + b =~= b);
        assert(encode_utf8(a) + encode_utf8(b) =~= encode_utf8(b));
    } else {
        assert((a + b)[0] == a[0]);
        assert((a + b).drop_first() =~= a.drop_first() + b);
        lemma_encode_utf8_concat(a.drop_first(), b);
        assert(encode_utf8(a + b) =~= encode_utf8(a) + encode_utf8(b));
    }
}

/// ASCII-ness survives concatenation.
proof fn lemma_ascii_concat(a: Seq<char>, b: Seq<char>)
    requires
        is_ascii_chars(a),
        is_ascii_chars(b),
    ensures
        is_ascii_chars(a + b),
{
    assert forall|i: int| 0 <= i < (a + b).len() implies '\0' <= #[trigger] (a + b)[i]
        <= '\u{7f}' by {
        if i < a.len() {
            assert((a + b)[i] == a[i]);
        } else {
            assert((a + b)[i] == b[i - a.len()]);
        }
    };
}

/// Decimal renderings consist of ASCII digits alone.
proof fn lemma_dec_rep_ascii(n: nat)
    ensures
        is_ascii_chars(dec_rep(n)),
    decreases n,
{
    if n < 10 {
        assert(is_ascii_chars(seq![digit_char(n)]));
    } else {
        lemma_dec_rep_ascii(n / 10);
        assert(is_ascii_chars(seq![digit_char(n % 10)]));
        lemma_ascii_concat(dec_rep(n / 10), seq![digit_char(n % 10)]);
    }
}

/// The concrete literal parts of the response wire format are ASCII.
proof fn proof_response_lits_ascii()
    ensures
        is_ascii_chars("HTTP/1.1 "@),
        is_ascii_chars("200 OK"@),
        is_ascii_chars("201 Created"@),
        is_ascii_chars("404 Not Found"@),
        is_ascii_chars("application/json"@),
        is_ascii_chars("application/octet-stream"@),
        is_ascii_chars("text/plain"@),
        is_ascii_chars("\r\nContent-Type: "@),
        is_ascii_chars("\r\nContent-Length: "@),
        is_ascii_chars("\r\n\r\n"@),
{
    reveal_strlit("HTTP/1.1 ");
    reveal_strlit("200 OK");
    reveal_strlit("201 Created");
    reveal_strlit("404 Not Found");
    reveal_strlit("application/json");
    reveal_strlit("application/octet-stream");
    reveal_strlit("text/plain");
    reveal_strlit("\r\nContent-Type: ");
    reveal_strlit("\r\nContent-Length: ");
    reveal_strlit("\r\n\r\n");
}

/// The byte length of an encoded response is exact: every character
/// outside the body is one byte, and the body contributes exactly its
/// UTF-8 byte count — the same count that the Content-Length digits
/// carry, as the stated decomposition shows.
pub proof fn lemma_encode_byte_length(r: HttpResponse)
    ensures
        match r.content {
            Some(c) => {
                &&& spec_encode_response(r) == ("HTTP/1.1 "@ + spec_reason(r.status_code)
                    + "\r\nContent-Type: "@ + spec_mime(c.content_type)
                    + "\r\nContent-Length: "@) + dec_rep(byte_len(c.content@)) + "\r\n\r\n"@
                    + c.content@
                &&& byte_len(spec_encode_response(r)) == spec_encode_response(r).len()
                    - c.content@.len() + byte_len(c.content@)
            },
            None => byte_len(spec_encode_response(r)) == spec_encode_response(r).len(),
        },
{
    proof_response_lits_ascii();
    let reason = spec_reason(r.status_code);
    assert(is_ascii_chars(reason));
    match r.content {
        Some(c) => {
            let mime = spec_mime(c.content_type);
            assert(is_ascii_chars(mime));
            let digits = dec_rep(byte_len(c.content@));
            lemma_dec_rep_ascii(byte_len(c.content@));
            let pre = "HTTP/1.1 "@ + reason + "\r\nContent-Type: "@ + mime
                + "\r\nContent-Length: "@ + digits + "\r\n\r\n"@;
            lemma_ascii_concat("HTTP/1.1 "@, reason);
            lemma_ascii_concat("HTTP/1.1 "@ + reason, "\r\nContent-Type: "@);
            lemma_ascii_concat("HTTP/1.1 "@ + reason + "\r\nContent-Type: "@, mime);
            lemma_ascii_concat(
                "HTTP/1.1 "@ + reason + "\r\nContent-Type: "@ + mime,
                "\r\nContent-Length: "@,
            );
            lemma_ascii_concat(
                "HTTP/1.1 "@ + reason + "\r\nContent-Type: "@ + mime
                    + "\r\nContent-Length: "@,
                digits,
            );
            lemma_ascii_concat(
                "HTTP/1.1 "@ + reason + "\r\nContent-Type: "@ + mime
                    + "\r\nContent-Length: "@ + digits,
                "\r\n\r\n"@,
            );
            assert(spec_encode_response(r) =~= pre + c.content@);
            is_ascii_chars_encode_utf8(pre);
            lemma_encode_utf8_concat(pre, c.content@);
        },
        None => {
            let out = spec_encode_response(r);
            lemma_ascii_concat("HTTP/1.1 "@, reason);
            lemma_ascii_concat("HTTP/1.1 "@ + reason, "\r\n\r\n"@);
            assert(is_ascii_chars(out));
            is_ascii_chars_encode_utf8(out);
        },
    }
}

/// A request with no headers and an empty body decodes to an empty header
/// mapping and absent content.
pub proof fn lemma_decode_bare_request(m: HttpMethod, path: Seq<char>)
    requires
        valid_path(path),
    ensures
        spec_decode(spec_encode_request(m, path, Seq::empty(), Seq::empty()))
            == Ok::<_, DecodeError>(
            RequestModel {
                method: m,
                path: path,
                headers: Seq::empty(),
                content: None,
            },
        ),
{
    lemma_request_round_trip(m, path, Seq::empty(), Seq::empty());
}

/// A buffer with no blank-line separator never decodes: the failure is
/// exactly `MalformedRequest`.
pub proof fn lemma_decode_without_separator(s: Seq<char>)
    requires
        !occurs(s, sep_chars()),
    ensures
        spec_decode(s) == Err::<RequestModel, _>(DecodeError::MalformedRequest),
{
}

/// At the mapping level the decoder is last-write-wins: one more header
/// line makes its name look up to that line's trimmed value and leaves
/// every other name unchanged, and a line without a colon changes nothing.
pub proof fn lemma_header_apply_lookup(
    acc: Seq<(Seq<char>, Seq<char>)>,
    line: Seq<char>,
    n: Seq<char>,
)
    ensures
        match split_once_spec(line, seq![':']) {
            Some(kr) => spec_header_lookup(spec_header_apply(acc, line), n) == (if n == kr.0 {
                Some(spec_trim(kr.1))
            } else {
                spec_header_lookup(acc, n)
            }),
            None => spec_header_apply(acc, line) == acc,
        },
{
    match split_once_spec(line, seq![':']) {
        Some(kr) => {
            lemma_upsert_lookup(acc, kr.0, spec_trim(kr.1), n);
        },
        None => {},
    }
}

/// A decoded request never holds two headers with the same name: a later
/// occurrence of a name on the wire overwrites the earlier value in place.
pub proof fn lemma_decode_headers_distinct(s: Seq<char>)
    requires
        spec_decode(s) is Ok,
    ensures
        distinct_header_names(spec_decode(s)->Ok_0.headers),
{
    match split_once_spec(s, sep_chars()) {
        None => {},
        Some(hb) => {
            let lines = split_all_spec(hb.0, crlf_chars());
            lemma_parse_headers_distinct(lines.drop_first());
        },
    }
}

/// The first space-delimited token of the first line of the header block
/// of `s` (meaningful whenever the blank-line separator occurs in `s`).
pub open spec fn start_token_of(s: Seq<char>) -> Seq<char> {
    let head = split_once_spec(s, sep_chars())->Some_0.0;
    split_all_spec(split_all_spec(head, crlf_chars())[0], seq![' '])[0]
}

/// A buffer whose start line opens with an unrecognized method token
/// fails to decode with exactly `UnknownMethod`.
pub proof fn lemma_decode_unknown_method(s: Seq<char>)
    requires
        occurs(s, sep_chars()),
        spec_method_parse(start_token_of(s)) == Err::<HttpMethod, _>(
            DecodeError::UnknownMethod,
        ),
    ensures
        spec_decode(s) == Err::<RequestModel, _>(DecodeError::UnknownMethod),
{
}

} // verus!

