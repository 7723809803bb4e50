//! The outcome of an HTTP request to a broker: a body to decode, or a failure
//! that says what went wrong. The request itself is made outside the library.
use vstd::prelude::*;
use vstd::string::*;
use vstd::utf8::*;

verus! {

broadcast use vstd::utf8::encode_utf8_valid_utf8;

/// How much of an error body a failure keeps, in bytes.
pub const BODY_EXCERPT_BYTES: usize = 1024;

pub enum FailureKind {
    /// The socket, TLS or DNS failed.
    Transport,
    /// The status was not 2xx.
    HttpError,
    /// The body was not the JSON that was asked for.
    Decode,
}

pub struct FetchFailure {
    pub url: String,
    pub kind: FailureKind,
    pub status: Option<u16>,
    pub diagnostic: String,
}

impl FetchFailure {
    pub fn transport(url: &str, message: String) -> (r: FetchFailure)
        ensures
            r.url@ == url@,
            r.kind == FailureKind::Transport,
            r.status is None,
            r.diagnostic == message,
    {
        FetchFailure { url: url.to_owned(), kind: FailureKind::Transport, status: None, diagnostic: message }
    }

    pub fn decode(url: &str, message: String) -> (r: FetchFailure)
        ensures
            r.url@ == url@,
            r.kind == FailureKind::Decode,
            r.status is None,
            r.diagnostic == message,
    {
        FetchFailure { url: url.to_owned(), kind: FailureKind::Decode, status: None, diagnostic: message }
    }
}

/// A 2xx status.
pub fn is_success(status: u16) -> (r: bool)
    ensures
        r == (200 <= status && status < 300),
{
    200 <= status && status < 300
}

/// The largest character boundary of `bytes` at or below `i`.
pub open spec fn last_boundary(bytes: Seq<u8>, i: int) -> int
    decreases i,
{
    if i <= 0 || is_char_boundary(bytes, i) {
        if i < 0 {
            0
        } else {
            i
        }
    } else {
        last_boundary(bytes, i - 1)
    }
}

/// The longest prefix of `s` that ends between two characters and holds at
/// most `limit` bytes.
pub fn excerpt(s: &str, limit: usize) -> (r: &str)
    ensures
        r.spec_bytes() == s.spec_bytes().subrange(
            0,
            last_boundary(
                s.spec_bytes(),
                if limit < s.spec_bytes().len() {
                    limit as int
                } else {
                    s.spec_bytes().len() as int
                },
            ),
        ),
{
    let n = s.as_bytes().len();
    let start: usize = if limit < n {
        limit
    } else {
        n
    };
    let mut i: usize = start;
    while !s.is_char_boundary(i)
        invariant
            i <= start,
            start <= s.spec_bytes().len(),
            last_boundary(s.spec_bytes(), i as int) == last_boundary(s.spec_bytes(), start as int),
        decreases i,
    {
        i = i - 1;
    }
    proof {
        assert(last_boundary(s.spec_bytes(), i as int) == i);
    }
    let (head, _) = s.split_at(i);
    head
}

/// What a response means: its body where the status is 2xx, else an HTTP
/// failure that keeps the status and an excerpt of the body.
pub fn response_outcome(url: &str, status: u16, body: String) -> (r: Result<String, FetchFailure>)
    ensures
        200 <= status < 300 ==> r == Ok::<String, FetchFailure>(body),
        !(200 <= status < 300) ==> r is Err && ({
            let f = r->Err_0;
            let bytes = encode_utf8(body@);
            &&& f.url@ == url@
            &&& f.kind == FailureKind::HttpError
            &&& f.status == Some(status)
            &&& encode_utf8(f.diagnostic@) == bytes.subrange(
                0,
                last_boundary(
                    bytes,
                    if BODY_EXCERPT_BYTES < bytes.len() {
                        BODY_EXCERPT_BYTES as int
                    } else {
                        bytes.len() as int
                    },
                ),
            )
        }),
{
    if is_success(status) {
        Ok(body)
    } else {
        let diagnostic = excerpt(body.as_str(), BODY_EXCERPT_BYTES).to_owned();
        Err(FetchFailure { url: url.to_owned(), kind: FailureKind::HttpError, status: Some(status), diagnostic })
    }
}

/// Whether `url::Url::parse` accepts the text as an absolute URL.
pub uninterp spec fn parses_as_url(s: Seq<char>) -> bool;

/// Relies on `url::Url::parse`: it accepts or refuses the text, and the
/// answer depends on the text alone.
#[verifier::external_body]
fn url_parses(s: &str) -> (r: bool)
    ensures
        r == parses_as_url(s@),
{
    url::Url::parse(s).is_ok()
}

/// Where a request may go: the URL itself where it parses, else a transport
/// failure, since no request can be made.
pub fn request_target(url: &str, parses: bool) -> (r: Result<String, FetchFailure>)
    ensures
        parses ==> r is Ok && r->Ok_0@ == url@,
        !parses ==> r is Err && r->Err_0.url@ == url@ && r->Err_0.kind == FailureKind::Transport
            && r->Err_0.status is None && r->Err_0.diagnostic@ == "invalid URL"@,
{
    if parses {
        Ok(url.to_owned())
    } else {
        Err(FetchFailure::transport(url, "invalid URL".to_owned()))
    }
}

/// The URL to request, checked with the `url` crate before any request is made.
pub fn checked_url(url: &str) -> (r: Result<String, FetchFailure>)
    ensures
        parses_as_url(url@) ==> r is Ok && r->Ok_0@ == url@,
        !parses_as_url(url@) ==> r is Err && r->Err_0.kind == FailureKind::Transport,
{
    let parses = url_parses(url);
    request_target(url, parses)
}

} // verus!
