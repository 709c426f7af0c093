//! The shared content model: methods, status codes with canonical reason
//! phrases, content types with canonical MIME strings, and the request /
//! response structures that the decoder and encoder exchange.

use vstd::prelude::*;

verus! {

/// Why a raw request failed to decode.
#[derive(Debug, PartialEq, Eq, Structural, Clone, Copy)]
pub enum DecodeError {
    /// No header/body separator, or a start line with fewer than two tokens.
    MalformedRequest,
    /// The start line's first token is not a recognized method.
    UnknownMethod,
    /// A MIME string that names no known content type.
    UnknownContentType,
}

/// The closed set of request methods.
#[derive(Debug, PartialEq, Eq, Structural, Clone, Copy)]
pub enum HttpMethod {
    Get,
    Post,
}

/// What `HttpMethod::parse` returns for a given token.
pub open spec fn spec_method_parse(s: Seq<char>) -> Result<HttpMethod, DecodeError> {
    if s == "GET"@ {
        Ok(HttpMethod::Get)
    } else if s == "POST"@ {
        Ok(HttpMethod::Post)
    } else {
        Err(DecodeError::UnknownMethod)
    }
}

impl HttpMethod {
    /// Exact, case-sensitive match of a start-line token against the
    /// known method names.
    pub fn parse(s: &str) -> (r: Result<HttpMethod, DecodeError>)
        ensures
            r == spec_method_parse(s@),
    {
        let owned = s.to_owned();
        if owned == String::from_str("GET") {
            Ok(HttpMethod::Get)
        } else if owned == String::from_str("POST") {
            Ok(HttpMethod::Post)
        } else {
            Err(DecodeError::UnknownMethod)
        }
    }
}

/// The closed set of response status codes.
#[derive(Debug, PartialEq, Eq, Structural, Clone, Copy)]
pub enum HttpStatusCode {
    Okay,
    Created,
    NotFound,
}

/// The canonical reason phrase paired with each status code; it carries
/// the numeric code as its leading digits.
pub open spec fn spec_reason(c: HttpStatusCode) -> Seq<char> {
    match c {
        HttpStatusCode::Okay => "200 OK"@,
        HttpStatusCode::Created => "201 Created"@,
        HttpStatusCode::NotFound => "404 Not Found"@,
    }
}

impl HttpStatusCode {
    /// The canonical reason phrase, one literal per case.
    pub fn canonical_reason(&self) -> (r: &'static str)
        ensures
            r@ == spec_reason(*self),
    {
        match self {
            HttpStatusCode::Okay => "200 OK",
            HttpStatusCode::Created => "201 Created",
            HttpStatusCode::NotFound => "404 Not Found",
        }
    }
}

/// The closed set of content types.
#[derive(Debug, PartialEq, Eq, Structural, Clone, Copy)]
pub enum HttpContentType {
    ApplicationJson,
    ApplicationOctetStream,
    TextPlain,
}

/// The canonical MIME string of each content type.
pub open spec fn spec_mime(t: HttpContentType) -> Seq<char> {
    match t {
        HttpContentType::ApplicationJson => "application/json"@,
        HttpContentType::ApplicationOctetStream => "application/octet-stream"@,
        HttpContentType::TextPlain => "text/plain"@,
    }
}

/// What `HttpContentType::parse` returns for a given MIME string.
pub open spec fn spec_content_type_parse(s: Seq<char>) -> Result<
    HttpContentType,
    DecodeError,
> {
    if s == "application/json"@ {
        Ok(HttpContentType::ApplicationJson)
    } else if s == "application/octet-stream"@ {
        Ok(HttpContentType::ApplicationOctetStream)
    } else if s == "text/plain"@ {
        Ok(HttpContentType::TextPlain)
    } else {
        Err(DecodeError::UnknownContentType)
    }
}

impl HttpContentType {
    /// The canonical MIME string, one literal per case.
    pub fn as_str(&self) -> (r: &'static str)
        ensures
            r@ == spec_mime(*self),
    {
        match self {
            HttpContentType::ApplicationJson => "application/json",
            HttpContentType::ApplicationOctetStream => "application/octet-stream",
            HttpContentType::TextPlain => "text/plain",
        }
    }

    /// Exact match of a MIME string against the known content types:
    /// the partial inverse of `as_str`, with no parameter parsing and
    /// no case folding.
    pub fn parse(s: &str) -> (r: Result<HttpContentType, DecodeError>)
        ensures
            r == spec_content_type_parse(s@),
    {
        let owned = s.to_owned();
        if owned == String::from_str("application/json") {
            Ok(HttpContentType::ApplicationJson)
        } else if owned == String::from_str("application/octet-stream") {
            Ok(HttpContentType::ApplicationOctetStream)
        } else if owned == String::from_str("text/plain") {
            Ok(HttpContentType::TextPlain)
        } else {
            Err(DecodeError::UnknownContentType)
        }
    }
}

/// A body together with its content type. Present only when a request or
/// response has a non-empty body.
#[derive(Debug)]
pub struct HttpContent {
    pub content: String,
    pub content_type: HttpContentType,
}

/// The mathematical shape of an `HttpContent`: the body's characters and
/// its content type.
pub ghost struct ContentModel {
    pub body: Seq<char>,
    pub content_type: HttpContentType,
}

impl View for HttpContent {
    type V = ContentModel;

    open spec fn view(&self) -> ContentModel {
        ContentModel { body: self.content@, content_type: self.content_type }
    }
}

impl Clone for HttpContent {
    fn clone(&self) -> (r: Self)
        ensures
            r@ == self@,
    {
        HttpContent { content: self.content.clone(), content_type: self.content_type }
    }
}

impl PartialEq for HttpContent {
    fn eq(&self, other: &Self) -> (r: bool) {
        self.content == other.content && self.content_type == other.content_type
    }
}

impl vstd::std_specs::cmp::PartialEqSpecImpl for HttpContent {
    open spec fn obeys_eq_spec() -> bool {
        true
    }

    open spec fn eq_spec(&self, other: &Self) -> bool {
        self@ == other@
    }
}

/// A decoded request: method, verbatim path, header mapping, and an
/// optional body.
#[derive(Debug)]
pub struct HttpRequest {
    pub method: HttpMethod,
    pub path: String,
    /// Header pairs, one entry per distinct name: a later occurrence of a
    /// name on the wire overwrites the earlier value in place.
    pub headers: Vec<(String, String)>,
    pub content: Option<HttpContent>,
}

/// The mathematical shape of an `HttpRequest`.
pub ghost struct RequestModel {
    pub method: HttpMethod,
    pub path: Seq<char>,
    pub headers: Seq<(Seq<char>, Seq<char>)>,
    pub content: Option<ContentModel>,
}

/// The character sequences of a sequence of string pairs.
pub open spec fn pair_views(ps: Seq<(String, String)>) -> Seq<(Seq<char>, Seq<char>)> {
    ps.map_values(|p: (String, String)| (p.0@, p.1@))
}

impl View for HttpRequest {
    type V = RequestModel;

    open spec fn view(&self) -> RequestModel {
        RequestModel {
            method: self.method,
            path: self.path@,
            headers: pair_views(self.headers@),
            content: match self.content {
                Some(c) => Some(c@),
                None => None,
            },
        }
    }
}

/// The value stored under `name`, if any: the mapping reading of the
/// header pair list.
pub open spec fn spec_header_lookup(
    headers: Seq<(Seq<char>, Seq<char>)>,
    name: Seq<char>,
) -> Option<Seq<char>>
    decreases headers.len(),
{
    if headers.len() == 0 {
        None
    } else if headers[0].0 == name {
        Some(headers[0].1)
    } else {
        spec_header_lookup(headers.drop_first(), name)
    }
}

impl HttpRequest {
    /// The value of the header called `name`, exactly as the mapping
    /// holds it, or nothing when no header has that name.
    pub fn header(&self, name: &str) -> (r: Option<&String>)
        ensures
            match r {
                Some(v) => spec_header_lookup(self@.headers, name@) == Some(v@),
                None => spec_header_lookup(self@.headers, name@) is None,
            },
    {
        let owned = name.to_owned();
        let mut i: usize = 0;
        proof {
            assert(pair_views(self.headers@).skip(0) =~= pair_views(self.headers@));
        }
        while i < self.headers.len()
            invariant
                i <= self.headers@.len(),
                owned@ == name@,
                spec_header_lookup(pair_views(self.headers@), name@) == spec_header_lookup(
                    pair_views(self.headers@).skip(i as int),
                    name@,
                ),
            decreases self.headers@.len() - i,
        {
            let hit = self.headers[i].0 == owned;
            proof {
                let tail = pair_views(self.headers@).skip(i as int);
                assert(tail[0] == pair_views(self.headers@)[i as int]);
                assert(tail.drop_first() =~= pair_views(self.headers@).skip(i as int + 1));
            }
            if hit {
                return Some(&self.headers[i].1);
            }
            i = i + 1;
        }
        proof {
            assert(pair_views(self.headers@).skip(self.headers@.len() as int).len() == 0);
        }
        None
    }
}

impl PartialEq for HttpRequest {
    fn eq(&self, other: &Self) -> (r: bool) {
        if !(self.method == other.method) {
            return false;
        }
        if !(self.path == other.path) {
            return false;
        }
        if self.headers.len() != other.headers.len() {
            proof {
                assert(pair_views(self.headers@).len() == self.headers@.len());
                assert(pair_views(other.headers@).len() == other.headers@.len());
            }
            return false;
        }
        let mut i: usize = 0;
        while i < self.headers.len()
            invariant
                i <= self.headers@.len(),
                self.headers@.len() == other.headers@.len(),
                forall|t: int|
                    0 <= t < i ==> pair_views(self.headers@)[t] == pair_views(
                        other.headers@,
                    )[t],
            decreases self.headers@.len() - i,
        {
            if !(self.headers[i].0 == other.headers[i].0) {
                proof {
                    assert(pair_views(self.headers@)[i as int].0 == self.headers@[
                        i as int].0@);
                    assert(pair_views(other.headers@)[i as int].0 == other.headers@[
                        i as int].0@);
                    assert(pair_views(self.headers@) != pair_views(other.headers@));
                }
                return false;
            }
            if !(self.headers[i].1 == other.headers[i].1) {
                proof {
                    assert(pair_views(self.headers@)[i as int].1 == self.headers@[
                        i as int].1@);
                    assert(pair_views(other.headers@)[i as int].1 == other.headers@[
                        i as int].1@);
                    assert(pair_views(self.headers@) != pair_views(other.headers@));
                }
                return false;
            }
            i = i + 1;
        }
        proof {
            assert(pair_views(self.headers@) =~= pair_views(other.headers@));
        }
        match (&self.content, &other.content) {
            (Some(a), Some(b)) => *a == *b,
            (None, None) => true,
            _ => false,
        }
    }
}

impl vstd::std_specs::cmp::PartialEqSpecImpl for HttpRequest {
    open spec fn obeys_eq_spec() -> bool {
        true
    }

    open spec fn eq_spec(&self, other: &Self) -> bool {
        self@ == other@
    }
}

/// A response to encode: a status code and an optional body.
#[derive(Debug)]
pub struct HttpResponse {
    pub status_code: HttpStatusCode,
    pub content: Option<HttpContent>,
}

} // verus!
