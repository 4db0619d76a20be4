//! Converges a shared remote pixel canvas toward a target image.
//!
//! The verified core holds the canvas cache, the desired-state queue with its
//! convergence check, the credential pool with its cooldown, the classification
//! of paint responses and the decisions of the synchronizing stream.
pub mod config;
pub mod cookie;
pub mod node;
pub mod paintboard;

pub use config::Config;
use vstd::prelude::*;

verus! {

/// Errors of the painting engine. The variants that wrap a failure of a file,
/// a parser or the transport carry that failure's description.
#[derive(Debug)]
pub enum ScriptError {
    FailedReadFile(String),
    FailedParseToml(String),
    FailedParseJson(String),
    FailedParseUrl(String),
    FailedProcessRequest(String),
    UnexpectedUrl(UrlError),
    CookieOutdated,
    FailedRequest,
}

impl PartialEq for ScriptError {
    fn eq(&self, o: &ScriptError) -> (r: bool) {
        match (self, o) {
            (ScriptError::FailedReadFile(a), ScriptError::FailedReadFile(b)) => *a == *b,
            (ScriptError::FailedParseToml(a), ScriptError::FailedParseToml(b)) => *a == *b,
            (ScriptError::FailedParseJson(a), ScriptError::FailedParseJson(b)) => *a == *b,
            (ScriptError::FailedParseUrl(a), ScriptError::FailedParseUrl(b)) => *a == *b,
            (ScriptError::FailedProcessRequest(a), ScriptError::FailedProcessRequest(b)) => *a == *b,
            (ScriptError::UnexpectedUrl(a), ScriptError::UnexpectedUrl(b)) => *a == *b,
            (ScriptError::CookieOutdated, ScriptError::CookieOutdated) => true,
            (ScriptError::FailedRequest, ScriptError::FailedRequest) => true,
            _ => false,
        }
    }
}

impl vstd::std_specs::cmp::PartialEqSpecImpl for ScriptError {
    open spec fn obeys_eq_spec() -> bool {
        true
    }

    open spec fn eq_spec(&self, o: &ScriptError) -> bool {
        match (self, o) {
            (ScriptError::FailedReadFile(a), ScriptError::FailedReadFile(b)) => a@ == b@,
            (ScriptError::FailedParseToml(a), ScriptError::FailedParseToml(b)) => a@ == b@,
            (ScriptError::FailedParseJson(a), ScriptError::FailedParseJson(b)) => a@ == b@,
            (ScriptError::FailedParseUrl(a), ScriptError::FailedParseUrl(b)) => a@ == b@,
            (ScriptError::FailedProcessRequest(a), ScriptError::FailedProcessRequest(b)) => a@ == b@,
            (ScriptError::UnexpectedUrl(a), ScriptError::UnexpectedUrl(b)) => a == b,
            (ScriptError::CookieOutdated, ScriptError::CookieOutdated) => true,
            (ScriptError::FailedRequest, ScriptError::FailedRequest) => true,
            _ => false,
        }
    }
}

/// A configured address carries the wrong scheme.
#[derive(Clone, Copy, Debug, PartialEq, Eq, Structural)]
pub enum UrlError {
    InvalidHTTPUrl,
    InvalidWSUrl,
}

/// The description of a scheme error.
pub open spec fn url_error_text(e: UrlError) -> Seq<char> {
    match e {
        UrlError::InvalidHTTPUrl => "Invalid HTTP URL!"@,
        UrlError::InvalidWSUrl => "Invalid WebSocket URL!"@,
    }
}

/// The description of an error: the wrapped failure's own for the variants
/// that carry one.
pub open spec fn error_text(e: ScriptError) -> Seq<char> {
    match e {
        ScriptError::FailedReadFile(m) => m@,
        ScriptError::FailedParseToml(m) => m@,
        ScriptError::FailedParseJson(m) => m@,
        ScriptError::FailedParseUrl(m) => m@,
        ScriptError::FailedProcessRequest(m) => m@,
        ScriptError::UnexpectedUrl(u) => url_error_text(u),
        ScriptError::CookieOutdated => "Cookie 已经过期"@,
        ScriptError::FailedRequest => "绘制请求失败"@,
    }
}

impl UrlError {
    /// A short description of the error.
    pub fn message(&self) -> (r: &'static str)
        ensures
            r@ == url_error_text(*self),
    {
        match self {
            UrlError::InvalidHTTPUrl => "Invalid HTTP URL!",
            UrlError::InvalidWSUrl => "Invalid WebSocket URL!",
        }
    }
}

impl ScriptError {
    /// A short description of the error.
    pub fn message(&self) -> (r: String)
        ensures
            r@ == error_text(*self),
    {
        match self {
            ScriptError::FailedReadFile(m) => m.clone(),
            ScriptError::FailedParseToml(m) => m.clone(),
            ScriptError::FailedParseJson(m) => m.clone(),
            ScriptError::FailedParseUrl(m) => m.clone(),
            ScriptError::FailedProcessRequest(m) => m.clone(),
            ScriptError::UnexpectedUrl(e) => e.message().to_owned(),
            ScriptError::CookieOutdated => "Cookie 已经过期".to_owned(),
            ScriptError::FailedRequest => "绘制请求失败".to_owned(),
        }
    }
}

/// The color whose digit is `c`: `'0'..='9'` are 0 to 9, `'a'..='w'` are 10 to 32.
pub open spec fn digit_value(c: char) -> Option<nat> {
    if '0' <= c && c <= '9' {
        Some((c as nat - '0' as nat) as nat)
    } else if 'a' <= c && c <= 'w' {
        Some((c as nat - 'a' as nat + 10) as nat)
    } else {
        None
    }
}

/// The digit of color `n`, for `n <= 32`.
pub open spec fn digit_of(n: nat) -> char {
    if n <= 9 {
        (n + '0' as nat) as char
    } else {
        (n - 10 + 'a' as nat) as char
    }
}

/// Encodes a color code as its snapshot digit.
pub fn to_32(cur: usize) -> (r: char)
    requires
        cur <= 32,
    ensures
        r == digit_of(cur as nat),
        digit_value(r) == Some(cur as nat),
{
    let cur: u8 = cur as u8;
    if cur <= 9 {
        (48u8 + cur) as char
    } else {
        (cur - 10 + 97u8) as char
    }
}

/// Decodes a snapshot digit into its color code.
pub fn from_32(cur: char) -> (r: usize)
    requires
        digit_value(cur) is Some,
    ensures
        r as nat == digit_value(cur)->0,
{
    if cur <= '9' {
        (cur as u32 - '0' as u32) as usize
    } else {
        (cur as u32 - 'a' as u32 + 10) as usize
    }
}

/// Decoding the digit of a color gives the color back.
pub proof fn lemma_digit_round_trip(n: nat)
    requires
        n <= 32,
    ensures
        digit_value(digit_of(n)) == Some(n),
{
}

} // verus!
