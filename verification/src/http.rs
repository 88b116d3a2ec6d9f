//! The mediated network proxy: the one path by which a plugin reaches
//! the network.  Every bound — method shape, URL scheme, header count
//! and size, body size, timeout — is checked here before the host is
//! allowed to send anything, and the response size is checked before
//! anything is handed back.

use vstd::prelude::*;
use vstd::utf8::encode_utf8;
use crate::errors::MediationError;
use crate::text::{ascii_lower, ascii_upper, lower_chars, push_char, starts_with_str, trim_spec,
    trim_str, upper_chars};

verus! {

/// The most headers one proxied request may carry.
pub const MAX_HEADERS: usize = 64;

/// The longest header name, in bytes.
pub const MAX_HEADER_NAME_BYTES: usize = 128;

/// The longest header value, in bytes.
pub const MAX_HEADER_VALUE_BYTES: usize = 4096;

/// The largest request body, in bytes: 512 KiB.
pub const MAX_BODY_BYTES: usize = 512 * 1024;

/// The longest timeout honored, in milliseconds.
pub const MAX_TIMEOUT_MS: u64 = 120000;

/// The timeout used when the caller names none, in milliseconds.
pub const DEFAULT_TIMEOUT_MS: u64 = 20000;

/// The largest response body handed back, in bytes: 2 MiB.
pub const MAX_RESPONSE_BYTES: usize = 2 * 1024 * 1024;

/// One proxied request as a plugin submits it.
pub struct HttpRequest {
    pub method: String,
    pub url: String,
    pub headers: Vec<(String, String)>,
    pub body: Option<String>,
    pub timeout_ms: Option<u64>,
}

/// One request the proxy has approved: the method trimmed and
/// upper-cased, every bound checked, the timeout resolved.
#[derive(Debug)]
pub struct BoundedHttpRequest {
    pub method: String,
    pub url: String,
    pub headers: Vec<(String, String)>,
    pub body: Option<String>,
    pub timeout_ms: u64,
}

/// One response as handed back to the plugin.
#[derive(Debug)]
pub struct HttpResponse {
    pub status: u16,
    pub headers: Vec<(String, String)>,
    pub body: String,
}

/// A character an HTTP method token may hold.
pub open spec fn is_method_char(c: char) -> bool {
    ||| 'a' as u32 <= c as u32 && c as u32 <= 'z' as u32
    ||| 'A' as u32 <= c as u32 && c as u32 <= 'Z' as u32
    ||| '0' as u32 <= c as u32 && c as u32 <= '9' as u32
    ||| c == '!' || c == '#' || c == '$' || c == '%' || c == '&' || c == '\'' || c == '*'
    ||| c == '+' || c == '-' || c == '.' || c == '^' || c == '_' || c == '`' || c == '|' || c == '~'
}

/// The URL, trimmed and lower-cased, starts with `http://` or
/// `https://`.
pub open spec fn spec_is_http_url(url: Seq<char>) -> bool {
    ||| ("http://")@.is_prefix_of(lower_chars(trim_spec(url)))
    ||| ("https://")@.is_prefix_of(lower_chars(trim_spec(url)))
}

/// Decides whether `url` starts with `http://` or `https://`,
/// case-insensitively and ignoring surrounding whitespace.
pub fn is_http_url(url: &str) -> (r: bool)
    ensures
        r == spec_is_http_url(url@),
{
    let t = trim_str(url);
    let low = ascii_lower(t);
    starts_with_str(low.as_str(), "http://") || starts_with_str(low.as_str(), "https://")
}

/// The timeout a request runs under: the caller's value, clamped to
/// the longest honored; the default when the caller names none.
pub open spec fn clamped_timeout(t: Option<u64>) -> u64 {
    let raw = if t is Some {
        t->0
    } else {
        DEFAULT_TIMEOUT_MS
    };
    if raw > MAX_TIMEOUT_MS {
        MAX_TIMEOUT_MS
    } else {
        raw
    }
}

/// Resolves a request's timeout.
pub fn clamp_timeout(timeout_ms: Option<u64>) -> (r: u64)
    ensures
        r == clamped_timeout(timeout_ms),
        r <= MAX_TIMEOUT_MS,
{
    let raw = match timeout_ms {
        Some(t) => t,
        None => DEFAULT_TIMEOUT_MS,
    };
    if raw > MAX_TIMEOUT_MS {
        MAX_TIMEOUT_MS
    } else {
        raw
    }
}

/// The pre-flight checks a proxied request must pass, in order, and
/// the error each failure reports.  All of them are decided before any
/// network I/O.
pub open spec fn http_reject(req: HttpRequest) -> Option<MediationError> {
    let method = upper_chars(trim_spec(req.method@));
    if method.len() == 0 {
        Some(MediationError::UnsupportedMethod)
    } else if !spec_is_http_url(req.url@) {
        Some(MediationError::InvalidUrl)
    } else if exists|i: int| 0 <= i < method.len() && !is_method_char(#[trigger] method[i]) {
        Some(MediationError::UnsupportedMethod)
    } else if req.headers@.len() > MAX_HEADERS {
        Some(MediationError::TooLarge)
    } else if exists|i: int|
        0 <= i < req.headers@.len() && (encode_utf8((#[trigger] req.headers@[i]).0@).len()
            > MAX_HEADER_NAME_BYTES || encode_utf8(req.headers@[i].1@).len()
            > MAX_HEADER_VALUE_BYTES) {
        Some(MediationError::TooLarge)
    } else if req.body matches Some(b) && encode_utf8(b@).len() > MAX_BODY_BYTES {
        Some(MediationError::TooLarge)
    } else {
        None
    }
}

/// Validates a proxied request and resolves its timeout.  Fails, with
/// no network effect possible, exactly when a pre-flight check fails;
/// otherwise hands back the request the host may execute: the same
/// URL, headers and body, the method trimmed and upper-cased, the
/// timeout clamped to at most the longest honored.
#[verifier::loop_isolation(false)]
pub fn prepare_http_request(req: HttpRequest) -> (r: Result<BoundedHttpRequest, MediationError>)
    ensures
        r is Err <==> http_reject(req) is Some,
        r matches Err(e) ==> http_reject(req) == Some(e),
        r matches Ok(b) ==> {
            &&& b.method@ == upper_chars(trim_spec(req.method@))
            &&& b.url@ == req.url@
            &&& b.headers@ == req.headers@
            &&& b.body == req.body
            &&& b.timeout_ms == clamped_timeout(req.timeout_ms)
            &&& b.timeout_ms <= MAX_TIMEOUT_MS
        },
{
    let trimmed = trim_str(req.method.as_str());
    let method = ascii_upper(trimmed);
    let mlen = method.as_str().unicode_len();
    if mlen == 0 {
        return Err(MediationError::UnsupportedMethod);
    }
    if !is_http_url(req.url.as_str()) {
        return Err(MediationError::InvalidUrl);
    }
    let mut i: usize = 0;
    while i < mlen
        invariant
            mlen == method@.len(),
            0 <= i <= mlen,
            forall|k: int| 0 <= k < i ==> is_method_char(#[trigger] method@[k]),
        decreases mlen - i,
    {
        let c = method.as_str().get_char(i);
        let u = c as u32;
        let ok = (97 <= u && u <= 122) || (65 <= u && u <= 90) || (48 <= u && u <= 57) || c == '!'
            || c == '#' || c == '$' || c == '%' || c == '&' || c == '\'' || c == '*' || c == '+'
            || c == '-' || c == '.' || c == '^' || c == '_' || c == '`' || c == '|' || c == '~';
        if !ok {
            assert(!is_method_char(method@[i as int]));
            return Err(MediationError::UnsupportedMethod);
        }
        i = i + 1;
    }
    let hn = req.headers.len();
    if hn > MAX_HEADERS {
        return Err(MediationError::TooLarge);
    }
    let mut j: usize = 0;
    while j < hn
        invariant
            hn == req.headers@.len(),
            0 <= j <= hn,
            forall|k: int|
                0 <= k < j ==> encode_utf8((#[trigger] req.headers@[k]).0@).len()
                    <= MAX_HEADER_NAME_BYTES && encode_utf8(req.headers@[k].1@).len()
                    <= MAX_HEADER_VALUE_BYTES,
        decreases hn - j,
    {
        let name_len = req.headers[j].0.as_str().as_bytes().len();
        let value_len = req.headers[j].1.as_str().as_bytes().len();
        if name_len > MAX_HEADER_NAME_BYTES || value_len > MAX_HEADER_VALUE_BYTES {
            return Err(MediationError::TooLarge);
        }
        j = j + 1;
    }
    if let Some(body) = &req.body {
        if body.as_str().as_bytes().len() > MAX_BODY_BYTES {
            return Err(MediationError::TooLarge);
        }
    }
    let timeout_ms = clamp_timeout(req.timeout_ms);
    Ok(
        BoundedHttpRequest {
            method,
            url: req.url,
            headers: req.headers,
            body: req.body,
            timeout_ms,
        },
    )
}

/// A byte that valid header text may hold: visible ASCII, space or
/// horizontal tab — exactly the set the transport's header decode
/// accepts.
pub open spec fn is_header_text_byte(b: u8) -> bool {
    (32 <= b && b < 127) || b == 9
}

/// The raw header value decodes as header text.
pub open spec fn header_value_decodes(bytes: Seq<u8>) -> bool {
    forall|i: int| 0 <= i < bytes.len() ==> is_header_text_byte(#[trigger] bytes[i])
}

/// The bytes read as characters, one per byte.
pub open spec fn ascii_chars_of(bytes: Seq<u8>) -> Seq<char> {
    bytes.map_values(|b: u8| b as char)
}

/// The headers handed back for a raw response header list: exactly
/// the entries whose value decodes as header text, in order, the
/// value's bytes read as characters; a non-decodable value drops its
/// entry silently.
pub open spec fn kept_headers(hs: Seq<(String, Vec<u8>)>) -> Seq<(Seq<char>, Seq<char>)>
    decreases hs.len(),
{
    if hs.len() == 0 {
        Seq::empty()
    } else if header_value_decodes(hs.last().1@) {
        kept_headers(hs.drop_last()).push((hs.last().0@, ascii_chars_of(hs.last().1@)))
    } else {
        kept_headers(hs.drop_last())
    }
}

/// The views of a list of header pairs.
pub open spec fn header_views(hs: Seq<(String, String)>) -> Seq<(Seq<char>, Seq<char>)> {
    hs.map_values(|p: (String, String)| (p.0@, p.1@))
}

/// Bounds the response the host read back: the status passes through,
/// the headers kept are exactly those whose raw value decodes as
/// header text (the rest are silently dropped, not an error), and the
/// body is handed back exactly when it is within the response cap; a
/// larger body is rejected whole.
#[verifier::loop_isolation(false)]
pub fn check_response(status: u16, headers: Vec<(String, Vec<u8>)>, body: String) -> (r: Result<
    HttpResponse,
    MediationError,
>)
    ensures
        r is Ok <==> encode_utf8(body@).len() <= MAX_RESPONSE_BYTES,
        r matches Ok(resp) ==> resp.status == status && header_views(resp.headers@)
            == kept_headers(headers@) && resp.body@ == body@,
        r matches Err(e) ==> e == MediationError::TooLarge,
{
    if body.as_str().as_bytes().len() > MAX_RESPONSE_BYTES {
        return Err(MediationError::TooLarge);
    }
    let mut kept: Vec<(String, String)> = Vec::new();
    let hn = headers.len();
    proof {
        assert(headers@.take(0) =~= Seq::<(String, Vec<u8>)>::empty());
        assert(header_views(kept@) =~= kept_headers(headers@.take(0)));
    }
    let mut i: usize = 0;
    while i < hn
        invariant
            0 <= i <= hn,
            header_views(kept@) == kept_headers(headers@.take(i as int)),
        decreases hn - i,
    {
        proof {
            let s1 = headers@.take(i + 1);
            assert(s1.drop_last() =~= headers@.take(i as int));
            assert(s1.last() == headers@[i as int]);
        }
        let value = &headers[i].1;
        let m = value.len();
        let mut ok = true;
        let mut j: usize = 0;
        while j < m
            invariant
                m == value@.len(),
                0 <= j <= m,
                ok ==> forall|k: int| 0 <= k < j ==> is_header_text_byte(#[trigger] value@[k]),
                !ok ==> !header_value_decodes(value@),
            decreases m - j,
        {
            let b = value[j];
            if !((32 <= b && b < 127) || b == 9) {
                assert(!is_header_text_byte(value@[j as int]));
                ok = false;
                j = m;
            } else {
                j = j + 1;
            }
        }
        if ok {
            let mut text = String::new();
            let mut k2: usize = 0;
            while k2 < m
                invariant
                    m == value@.len(),
                    0 <= k2 <= m,
                    text@ == ascii_chars_of(value@.take(k2 as int)),
                decreases m - k2,
            {
                let b = value[k2];
                push_char(&mut text, b as char);
                proof {
                    assert(text@ =~= ascii_chars_of(value@.take(k2 + 1)));
                }
                k2 = k2 + 1;
            }
            proof {
                assert(value@.take(m as int) =~= value@);
            }
            let name = headers[i].0.clone();
            kept.push((name, text));
            proof {
                assert(header_views(kept@) =~= kept_headers(headers@.take(i + 1)));
            }
        } else {
            proof {
                assert(header_views(kept@) =~= kept_headers(headers@.take(i + 1)));
            }
        }
        i = i + 1;
    }
    proof {
        assert(headers@.take(hn as int) =~= headers@);
    }
    Ok(HttpResponse { status, headers: kept, body })
}

} // verus!
