//! Process-wide configuration and the check of its two addresses.
use crate::{ScriptError, UrlError};
use vstd::prelude::*;

verus! {

/// Configuration, loaded once and never changed afterwards.
pub struct Config {
    /// Base address of the board service; an http or https URL.
    pub board_addr: String,
    /// Address of the update stream; a ws or wss URL.
    pub websocket_addr: String,
    pub cookie_dir: String,
    pub node_file: String,
    /// Minimum rest of a credential between two uses, in seconds.
    pub wait_time: u64,
    pub board_width: usize,
    pub board_height: usize,
    /// Number of concurrent paint workers.
    pub thread_num: usize,
}

/// The scheme of `addr` when it parses as an absolute URL.
pub uninterp spec fn url_scheme(addr: Seq<char>) -> Option<Seq<char>>;

/// Relies on `url::Url::parse` and `url::Url::scheme`: an address parses as an
/// absolute URL or not, and the scheme of a parsed URL depends on the text alone.
/// A parse failure comes back as the parser's description of it.
#[verifier::external_body]
fn parse_scheme(addr: &str) -> (r: Result<String, String>)
    ensures
        match r {
            Ok(s) => url_scheme(addr@) == Some(s@),
            Err(_) => url_scheme(addr@) is None,
        },
{
    match url::Url::parse(addr) {
        Ok(u) => Ok(u.scheme().to_string()),
        Err(e) => Err(e.to_string()),
    }
}

/// The scheme is one of the board service's.
pub open spec fn is_http_scheme(s: Seq<char>) -> bool {
    s == "http"@ || s == "https"@
}

/// The scheme is one of the update stream's.
pub open spec fn is_ws_scheme(s: Seq<char>) -> bool {
    s == "ws"@ || s == "wss"@
}

/// Outcome of checking the board and stream addresses, given the scheme of
/// each or the description of why it did not parse.
pub open spec fn scheme_check(board: Result<String, String>, ws: Result<String, String>) -> Result<(), ScriptError> {
    match (board, ws) {
        (Err(m), _) => Err(ScriptError::FailedParseUrl(m)),
        (Ok(_), Err(m)) => Err(ScriptError::FailedParseUrl(m)),
        (Ok(b), Ok(w)) => if !is_http_scheme(b@) {
            Err(ScriptError::UnexpectedUrl(UrlError::InvalidHTTPUrl))
        } else if !is_ws_scheme(w@) {
            Err(ScriptError::UnexpectedUrl(UrlError::InvalidWSUrl))
        } else {
            Ok(())
        },
    }
}

/// What the check decides from the schemes of the two addresses (`None` for
/// one that does not parse): `None` when an address does not parse, else
/// acceptance or the scheme error.
pub open spec fn scheme_verdict(board: Option<Seq<char>>, ws: Option<Seq<char>>) -> Option<Result<(), UrlError>> {
    if board is None || ws is None {
        None
    } else if !is_http_scheme(board->0) {
        Some(Err(UrlError::InvalidHTTPUrl))
    } else if !is_ws_scheme(ws->0) {
        Some(Err(UrlError::InvalidWSUrl))
    } else {
        Some(Ok(()))
    }
}

/// `r` is what `v` decides; a parse failure carries the parser's description.
pub open spec fn follows_verdict(r: Result<(), ScriptError>, v: Option<Result<(), UrlError>>) -> bool {
    match v {
        None => r matches Err(ScriptError::FailedParseUrl(_)),
        Some(Ok(())) => r is Ok,
        Some(Err(u)) => r == Err::<(), ScriptError>(ScriptError::UnexpectedUrl(u)),
    }
}

/// Checks the schemes found in the two configured addresses.
pub fn check_schemes(board: Result<String, String>, ws: Result<String, String>) -> (r: Result<(), ScriptError>)
    ensures
        r == scheme_check(board, ws),
{
    proof {
        reveal_strlit("http");
        reveal_strlit("https");
        reveal_strlit("ws");
        reveal_strlit("wss");
    }
    match (board, ws) {
        (Err(m), _) => Err(ScriptError::FailedParseUrl(m)),
        (Ok(_), Err(m)) => Err(ScriptError::FailedParseUrl(m)),
        (Ok(b), Ok(w)) => {
            if b != "http".to_owned() && b != "https".to_owned() {
                Err(ScriptError::UnexpectedUrl(UrlError::InvalidHTTPUrl))
            } else if w != "ws".to_owned() && w != "wss".to_owned() {
                Err(ScriptError::UnexpectedUrl(UrlError::InvalidWSUrl))
            } else {
                Ok(())
            }
        },
    }
}

impl Config {
    /// Rejects a configuration whose board address is not an http(s) URL or
    /// whose stream address is not a ws(s) URL.
    pub fn validate(&self) -> (r: Result<(), ScriptError>)
        ensures
            follows_verdict(r, scheme_verdict(url_scheme(self.board_addr@), url_scheme(self.websocket_addr@))),
    {
        let board = parse_scheme(self.board_addr.as_str());
        let ws = parse_scheme(self.websocket_addr.as_str());
        check_schemes(board, ws)
    }
}

} // verus!
