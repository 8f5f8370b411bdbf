//! Errors of AI provider operations, and how callers react to them.

use vstd::prelude::*;
use vstd::utf8::is_char_boundary;
use vstd::string::StringSliceAdditionalSpecFns;
use crate::text::{push_char, push_str};

verus! {

/// Errors that can occur during provider operations.
#[derive(Debug)]
pub enum ProviderError {
    /// Network/connection error
    Network(String),
    /// API error with status code
    Api { status: u16, message: String },
    /// Rate limited - may include retry-after hint
    RateLimited { retry_after_secs: Option<u64> },
    /// Model not found or unavailable
    ModelNotFound(String),
    /// Configuration error (missing API key, invalid settings, etc.)
    Configuration(String),
    /// Capability not supported by this provider
    CapabilityNotSupported(String),
    /// Failed to parse response
    ParseError(String),
    /// Provider not initialized
    NotInitialized,
}

/// The decimal digit character for `d < 10`.
pub open spec fn digit_char(d: nat) -> char {
    if d == 0 {
        '0'
    } else if d == 1 {
        '1'
    } else if d == 2 {
        '2'
    } else if d == 3 {
        '3'
    } else if d == 4 {
        '4'
    } else if d == 5 {
        '5'
    } else if d == 6 {
        '6'
    } else if d == 7 {
        '7'
    } else if d == 8 {
        '8'
    } else {
        '9'
    }
}

/// Decimal notation of a natural number, without leading zeros.
pub open spec fn decimal(n: nat) -> Seq<char>
    decreases n,
{
    if n < 10 {
        seq![digit_char(n)]
    } else {
        decimal(n / 10).push(digit_char(n % 10))
    }
}

fn digit_of(d: u64) -> (c: char)
    requires
        d < 10,
    ensures
        c == digit_char(d as nat),
{
    if d == 0 {
        '0'
    } else if d == 1 {
        '1'
    } else if d == 2 {
        '2'
    } else if d == 3 {
        '3'
    } else if d == 4 {
        '4'
    } else if d == 5 {
        '5'
    } else if d == 6 {
        '6'
    } else if d == 7 {
        '7'
    } else if d == 8 {
        '8'
    } else {
        '9'
    }
}

/// Appends the decimal notation of `n` (as `Display` for integers writes it).
pub fn push_decimal(s: &mut String, n: u64)
    ensures
        final(s)@ == old(s)@ + decimal(n as nat),
    decreases n,
{
    if n >= 10 {
        push_decimal(s, n / 10);
    }
    push_char(s, digit_of(n % 10));
    assert(final(s)@ =~= old(s)@ + decimal(n as nat)) by {
        if n >= 10 {
            assert(decimal(n as nat) == decimal((n / 10) as nat).push(digit_char((n % 10) as nat)));
        }
    }
}

/// The text of an error, as its `Display` form shows it.
pub open spec fn provider_error_text(e: ProviderError) -> Seq<char> {
    match e {
        ProviderError::Network(msg) => "Network error: "@ + msg@,
        ProviderError::Api { status, message } => "API error ("@ + decimal(status as nat)
            + "): "@ + message@,
        ProviderError::RateLimited { retry_after_secs } => match retry_after_secs {
            Some(secs) => "Rate limited, retry after "@ + decimal(secs as nat) + " seconds"@,
            None => "Rate limited"@,
        },
        ProviderError::ModelNotFound(model) => "Model not found: "@ + model@,
        ProviderError::Configuration(msg) => "Configuration error: "@ + msg@,
        ProviderError::CapabilityNotSupported(cap) => "Capability not supported: "@ + cap@,
        ProviderError::ParseError(msg) => "Parse error: "@ + msg@,
        ProviderError::NotInitialized => "Provider not initialized"@,
    }
}

/// Whether an error may succeed when retried (the same request or a
/// smaller batch): rate limits and network errors, and every API error but
/// 400 (bad request) and 401 (auth).
pub open spec fn retryable(e: ProviderError) -> bool {
    match e {
        ProviderError::RateLimited { .. } => true,
        ProviderError::Network(_) => true,
        ProviderError::Api { status, .. } => status != 400 && status != 401,
        _ => false,
    }
}

/// Whether splitting the batch may resolve an error: an API 400.
pub open spec fn batch_reducible(e: ProviderError) -> bool {
    e matches ProviderError::Api { status, .. } && status == 400
}

/// The retry delay suggested for an error, in seconds.
pub open spec fn retry_delay(e: ProviderError) -> Option<u64> {
    match e {
        ProviderError::RateLimited { retry_after_secs } => retry_after_secs,
        ProviderError::Network(_) => Some(1u64),
        _ => None,
    }
}

/// An error that a smaller batch may resolve is one that retrying the same
/// request will not: batch reduction and retry never both apply.
pub proof fn batch_reducible_is_not_retryable(e: ProviderError)
    ensures
        batch_reducible(e) ==> !retryable(e),
{
}

/// A retry delay is suggested only for errors that are worth retrying.
pub proof fn retry_delay_only_when_retryable(e: ProviderError)
    ensures
        retry_delay(e) is Some ==> retryable(e),
{
}

/// Only a bad request (400) and a failed authentication (401) are permanent
/// API errors: every other status is worth retrying, whatever the message.
pub proof fn only_400_and_401_are_permanent(status: u16, message: String)
    ensures
        retryable(ProviderError::Api { status, message }) <==> (status != 400 && status != 401),
{
}

impl ProviderError {
    /// Check if this error is retryable (same request or smaller batch).
    /// Only 400 (bad request) and 401 (auth) are permanent; everything
    /// else (404, 413, 5xx, etc.) may succeed with a smaller batch or on retry.
    pub fn is_retryable(&self) -> (r: bool)
        ensures
            r == retryable(*self),
    {
        match self {
            ProviderError::RateLimited { .. } | ProviderError::Network(_) => true,
            ProviderError::Api { status, .. } => !(*status == 400 || *status == 401),
            _ => false,
        }
    }

    /// Whether reducing batch size might resolve this error: a 400 may
    /// mean the provider's batch limit was exceeded.
    pub fn is_batch_reducible(&self) -> (r: bool)
        ensures
            r == batch_reducible(*self),
    {
        match self {
            ProviderError::Api { status, .. } => *status == 400,
            _ => false,
        }
    }

    /// Suggested retry delay in seconds: the rate limit's hint, one second
    /// for network errors, none otherwise.
    pub fn retry_after(&self) -> (r: Option<u64>)
        ensures
            r == retry_delay(*self),
    {
        match self {
            ProviderError::RateLimited { retry_after_secs } => *retry_after_secs,
            ProviderError::Network(_) => Some(1),
            _ => None,
        }
    }

    /// The error's text (what its `Display` form writes).
    pub fn to_string(&self) -> (s: String)
        ensures
            s@ == provider_error_text(*self),
    {
        let mut s = String::new();
        match self {
            ProviderError::Network(msg) => {
                push_str(&mut s, "Network error: ");
                push_str(&mut s, msg.as_str());
            },
            ProviderError::Api { status, message } => {
                push_str(&mut s, "API error (");
                push_decimal(&mut s, *status as u64);
                push_str(&mut s, "): ");
                push_str(&mut s, message.as_str());
            },
            ProviderError::RateLimited { retry_after_secs } => {
                match retry_after_secs {
                    Some(secs) => {
                        push_str(&mut s, "Rate limited, retry after ");
                        push_decimal(&mut s, *secs);
                        push_str(&mut s, " seconds");
                    },
                    None => {
                        push_str(&mut s, "Rate limited");
                    },
                }
            },
            ProviderError::ModelNotFound(model) => {
                push_str(&mut s, "Model not found: ");
                push_str(&mut s, model.as_str());
            },
            ProviderError::Configuration(msg) => {
                push_str(&mut s, "Configuration error: ");
                push_str(&mut s, msg.as_str());
            },
            ProviderError::CapabilityNotSupported(cap) => {
                push_str(&mut s, "Capability not supported: ");
                push_str(&mut s, cap.as_str());
            },
            ProviderError::ParseError(msg) => {
                push_str(&mut s, "Parse error: ");
                push_str(&mut s, msg.as_str());
            },
            ProviderError::NotInitialized => {
                push_str(&mut s, "Provider not initialized");
            },
        }
        s
    }
}

/// `serde_json::Error`, carried through as an opaque value.
#[verifier::external_type_specification]
#[verifier::external_body]
pub struct ExJsonError(serde_json::Error);

/// `reqwest::Error`, carried through as an opaque value.
#[verifier::external_type_specification]
#[verifier::external_body]
pub struct ExReqwestError(reqwest::Error);

/// The text that `serde_json::Error`'s `Display` impl writes for an error
/// that is not an I/O error (its message, and the line and column where
/// there is one), a function of the error value alone; `None` for an I/O
/// error, whose text is that of the inner `std::io::Error` (an operating
/// system message, or a boxed error's own text) and so is not named. The
/// error has no view: the name takes the error value itself.
pub uninterp spec fn json_error_display(err: serde_json::Error) -> Option<Seq<char>>;

/// The text that `reqwest::Error`'s `Display` impl writes for an error (the
/// kind of failure, and the URL where there is one); as above, a function
/// of the error value alone.
pub uninterp spec fn reqwest_error_display(err: reqwest::Error) -> Seq<char>;

/// The `Display` text of a `serde_json::Error` (`ToString::to_string`).
/// Claimed: where `json_error_display(err)` names a text (every error but an
/// I/O one), the result is that text. Nothing is claimed of an I/O error's
/// text, which comes from the operating system or a boxed error.
#[verifier::external_body]
fn json_error_text(err: &serde_json::Error) -> (r: String)
    ensures
        json_error_display(*err) matches Some(t) ==> r@ == t,
{
    err.to_string()
}

/// The `Display` text of a `reqwest::Error` (`ToString::to_string`).
/// Claimed: it is `reqwest_error_display(err)`; nothing more is stated of
/// reqwest's own message.
#[verifier::external_body]
fn reqwest_error_text(err: &reqwest::Error) -> (r: String)
    ensures
        r@ == reqwest_error_display(*err),
{
    err.to_string()
}

impl ProviderError {
    /// A JSON (de)serialization failure is a parse error carrying the
    /// failure's text.
    pub fn from_json_error(err: serde_json::Error) -> (e: ProviderError)
        ensures
            e matches ProviderError::ParseError(m) && (json_error_display(err) matches Some(t) ==> m@ == t),
    {
        ProviderError::ParseError(json_error_text(&err))
    }

    /// An HTTP client failure is a network error carrying the failure's text.
    pub fn from_reqwest_error(err: reqwest::Error) -> (e: ProviderError)
        ensures
            e matches ProviderError::Network(m) && m@ == reqwest_error_display(err),
    {
        ProviderError::Network(reqwest_error_text(&err))
    }
}

// The `From` conversions below state nothing through `FromSpec`, whose
// `from_spec` would have to build a `String` in spec code; what each builds
// is stated in the `ensures` of its own `from`.
impl vstd::std_specs::convert::FromSpecImpl<serde_json::Error> for ProviderError {
    open spec fn obeys_from_spec() -> bool {
        false
    }

    open spec fn from_spec(v: serde_json::Error) -> ProviderError {
        arbitrary()
    }
}

impl vstd::std_specs::convert::FromSpecImpl<reqwest::Error> for ProviderError {
    open spec fn obeys_from_spec() -> bool {
        false
    }

    open spec fn from_spec(v: reqwest::Error) -> ProviderError {
        arbitrary()
    }
}

impl vstd::std_specs::convert::FromSpecImpl<ProviderError> for String {
    open spec fn obeys_from_spec() -> bool {
        false
    }

    open spec fn from_spec(v: ProviderError) -> String {
        arbitrary()
    }
}

impl From<serde_json::Error> for ProviderError {
    fn from(err: serde_json::Error) -> (e: ProviderError)
        ensures
            e matches ProviderError::ParseError(m) && (json_error_display(err) matches Some(t) ==> m@ == t),
    {
        ProviderError::from_json_error(err)
    }
}

impl From<reqwest::Error> for ProviderError {
    fn from(err: reqwest::Error) -> (e: ProviderError)
        ensures
            e matches ProviderError::Network(m) && m@ == reqwest_error_display(err),
    {
        ProviderError::from_reqwest_error(err)
    }
}

impl From<ProviderError> for String {
    fn from(err: ProviderError) -> (s: String)
        ensures
            s@ == provider_error_text(err),
    {
        err.to_string()
    }
}

/// The largest char boundary of `bytes` that is at most `m`.
pub open spec fn boundary_at_most(bytes: Seq<u8>, m: int) -> int
    decreases m,
{
    if m <= 0 || is_char_boundary(bytes, m) {
        m
    } else {
        boundary_at_most(bytes, m - 1)
    }
}

pub proof fn lemma_boundary_at_most_bounds(bytes: Seq<u8>, m: int)
    requires
        0 <= m,
    ensures
        0 <= boundary_at_most(bytes, m) <= m,
    decreases m,
{
    if !(m <= 0 || is_char_boundary(bytes, m)) {
        lemma_boundary_at_most_bounds(bytes, m - 1);
    }
}

proof fn lemma_boundary_at_most_monotone(bytes: Seq<u8>, m1: int, m2: int)
    requires
        0 <= m1 <= m2,
    ensures
        boundary_at_most(bytes, m1) <= boundary_at_most(bytes, m2),
    decreases m2,
{
    lemma_boundary_at_most_bounds(bytes, m1);
    if m1 < m2 && !(m2 <= 0 || is_char_boundary(bytes, m2)) {
        lemma_boundary_at_most_monotone(bytes, m1, m2 - 1);
    }
}

/// The bytes of a text cut to at most `m` bytes at a character boundary:
/// all of them if they fit, else those before the last boundary at or
/// below `m`.
pub open spec fn truncated(bytes: Seq<u8>, m: int) -> Seq<u8> {
    bytes.subrange(
        0,
        if bytes.len() <= m {
            bytes.len() as int
        } else {
            boundary_at_most(bytes, m)
        },
    )
}

/// Truncation is idempotent (cutting a cut text to the same size changes
/// nothing) and monotone (a smaller limit gives a prefix of what a larger
/// one gives).
pub proof fn truncation_idempotent_and_monotone(bytes: Seq<u8>, m1: int, m2: int)
    requires
        0 <= m1 <= m2,
    ensures
        truncated(truncated(bytes, m1), m1) == truncated(bytes, m1),
        truncated(bytes, m1).is_prefix_of(truncated(bytes, m2)),
{
    lemma_boundary_at_most_bounds(bytes, m1);
    lemma_boundary_at_most_bounds(bytes, m2);
    lemma_boundary_at_most_monotone(bytes, m1, m2);
    let t = truncated(bytes, m1);
    assert(t.subrange(0, t.len() as int) =~= t);
    let i1 = if bytes.len() <= m1 {
        bytes.len() as int
    } else {
        boundary_at_most(bytes, m1)
    };
    let i2 = if bytes.len() <= m2 {
        bytes.len() as int
    } else {
        boundary_at_most(bytes, m2)
    };
    assert(i1 <= i2);
    assert(truncated(bytes, m2).subrange(0, i1) =~= t);
}

/// Truncates a string to at most `max_bytes` bytes without splitting a
/// UTF-8 character.
pub fn truncate_utf8(s: &str, max_bytes: usize) -> (r: &str)
    ensures
        r.spec_bytes() == truncated(s.spec_bytes(), max_bytes as int),
        s.spec_bytes().len() <= max_bytes ==> r@ == s@,
        s.spec_bytes().len() > max_bytes ==> r.spec_bytes().len() <= max_bytes,
        r@.len() <= s@.len(),
        s@.subrange(0, r@.len() as int) == r@,
{
    broadcast use {
        vstd::utf8::encode_utf8_valid_utf8,
        vstd::utf8::encode_utf8_decode_utf8,
        vstd::utf8::is_char_boundary_start_end_of_seq,
    };

    let len = s.as_bytes().len();
    if len <= max_bytes {
        assert(s.spec_bytes().subrange(0, s.spec_bytes().len() as int) =~= s.spec_bytes());
        return s;
    }
    let mut end = max_bytes;
    while end > 0 && !s.is_char_boundary(end)
        invariant
            end <= max_bytes,
            boundary_at_most(s.spec_bytes(), end as int) == boundary_at_most(
                s.spec_bytes(),
                max_bytes as int,
            ),
        decreases end,
    {
        end = end - 1;
    }
    let (head, _) = s.split_at(end);
    assert(head.spec_bytes() =~= s.spec_bytes().subrange(0, end as int));
    proof {
        let b = s.spec_bytes();
        vstd::utf8::decode_utf8_split(b, end as int);
        assert(vstd::utf8::decode_utf8(head.spec_bytes()) == head@);
        assert(vstd::utf8::decode_utf8(b) == s@);
        assert(s@ =~= head@ + vstd::utf8::decode_utf8(b.subrange(end as int, b.len() as int)));
        assert(s@.subrange(0, head@.len() as int) =~= head@);
    }
    head
}

} // verus!
