use draw_script::cookie::{Cookie, CookieList, RawCookie};
use draw_script::paintboard::PaintBoard;
use draw_script::node::{classify_reply, NodeOpt, Status};
use draw_script::config::check_schemes;
use draw_script::{Config, ScriptError, UrlError};
use std::collections::VecDeque;
use std::sync::Arc;

fn cookie(token: &str) -> Cookie {
    Cookie::new(RawCookie { cookie: token.to_string() })
}

fn pool(tokens: &[&str]) -> CookieList {
    CookieList::new(tokens.iter().map(|t| cookie(t)).collect())
}

fn config_with(board: &str, ws: &str) -> Config {
    Config {
        board_addr: board.to_string(),
        websocket_addr: ws.to_string(),
        cookie_dir: "cookies".to_string(),
        node_file: "nodes.json".to_string(),
        wait_time: 30,
        board_width: 2,
        board_height: 2,
        thread_num: 1,
    }
}

#[test]
fn cookie_accessors() {
    let mut c = cookie("abc");
    assert_eq!(c.cookie(), "abc");
    assert_eq!(c.last_update(), None);
    c.update(42);
    assert_eq!(c.last_update(), Some(42));
    assert_eq!(c.cookie(), "abc");
}

#[test]
fn acquire_is_fifo_and_exclusive() {
    let mut p = pool(&["a", "b"]);
    let first = p.get_cookie(0, 10).unwrap();
    let second = p.get_cookie(0, 10).unwrap();
    assert_eq!(first.cookie(), "a");
    assert_eq!(second.cookie(), "b");
    assert!(p.get_cookie(1000, 10).is_none());
}

#[test]
fn duplicate_tokens_kept_once() {
    let mut p = pool(&["a", "b", "a"]);
    assert_eq!(p.get_cookie(0, 10).unwrap().cookie(), "a");
    assert_eq!(p.get_cookie(0, 10).unwrap().cookie(), "b");
    assert!(p.get_cookie(0, 10).is_none());
}

#[test]
fn cooldown_respected() {
    let mut p = pool(&["a"]);
    let c = p.get_cookie(100, 30).unwrap();
    p.release(c, 105);
    assert!(p.get_cookie(106, 30).is_none());
    assert!(p.get_cookie(134, 30).is_none());
    let again = p.get_cookie(135, 30).unwrap();
    assert_eq!(again.cookie(), "a");
    assert_eq!(again.last_update(), Some(105));
}

#[test]
fn acquire_takes_first_ready_in_order() {
    let mut p = pool(&["a", "b"]);
    let a = p.get_cookie(0, 10).unwrap();
    let b = p.get_cookie(0, 10).unwrap();
    p.release(a, 5);
    p.release(b, 1);
    assert_eq!(p.get_cookie(11, 10).unwrap().cookie(), "b");
    assert!(p.get_cookie(14, 10).is_none());
    assert_eq!(p.get_cookie(15, 10).unwrap().cookie(), "a");
}

#[test]
fn remove_cookie_drops_token() {
    let mut p = pool(&["a", "b", "c"]);
    p.remove_cookie("b");
    p.remove_cookie("zzz");
    assert_eq!(p.get_cookie(0, 1).unwrap().cookie(), "a");
    assert_eq!(p.get_cookie(0, 1).unwrap().cookie(), "c");
    assert!(p.get_cookie(0, 1).is_none());
}

#[test]
fn credential_invalidation() {
    let config = Arc::new(config_with("http://h", "ws://w"));
    let mut board = PaintBoard::new(config, VecDeque::from(vec![NodeOpt { x: 0, y: 0, color: 5 }]));
    let mut p = pool(&["A", "B"]);
    let target = board.get_update().unwrap();
    let cred = p.get_cookie(0, 10).unwrap();
    assert_eq!(cred.cookie(), "A");
    let outcome = classify_reply("{\"status\":401}", Some(Status { status: 401 }));
    assert_eq!(outcome, Err(ScriptError::CookieOutdated));
    board.record_paint(target, &outcome);
    p.settle(cred, &outcome, 1);
    assert!(!board.targets.queue_empty());
    assert_eq!(board.get_update(), Some(target));
    for t in [1u64, 100, 10_000, u64::MAX] {
        if let Some(c) = p.get_cookie(t, 10) {
            assert_eq!(c.cookie(), "B");
            p.release(c, t);
        }
    }
}

#[test]
fn settle_releases_on_other_failures() {
    let mut p = pool(&["A"]);
    let cred = p.get_cookie(0, 10).unwrap();
    p.settle(cred, &Err(ScriptError::FailedProcessRequest("timed out".to_string())), 3);
    assert!(p.get_cookie(12, 10).is_none());
    let c = p.get_cookie(13, 10).unwrap();
    p.settle(c, &Ok(()), 20);
    assert_eq!(p.get_cookie(30, 10).unwrap().cookie(), "A");
}

#[test]
fn config_schemes_accepted() {
    assert_eq!(config_with("http://board.example/", "ws://ws.example/").validate(), Ok(()));
    assert_eq!(config_with("HTTPS://board.example/", "wss://ws.example/").validate(), Ok(()));
}

#[test]
fn config_wrong_schemes_rejected() {
    assert_eq!(
        config_with("ftp://board.example/", "ws://ws.example/").validate(),
        Err(ScriptError::UnexpectedUrl(UrlError::InvalidHTTPUrl))
    );
    assert_eq!(
        config_with("http://board.example/", "http://ws.example/").validate(),
        Err(ScriptError::UnexpectedUrl(UrlError::InvalidWSUrl))
    );
    assert!(matches!(
        config_with("not a url", "ws://ws.example/").validate(),
        Err(ScriptError::FailedParseUrl(_))
    ));
    assert!(matches!(
        config_with("http://board.example/", "").validate(),
        Err(ScriptError::FailedParseUrl(_))
    ));
}

#[test]
fn scheme_check_by_value() {
    let ok = |s: &str| Ok::<String, String>(s.to_string());
    assert_eq!(check_schemes(ok("https"), ok("wss")), Ok(()));
    assert_eq!(
        check_schemes(ok("ws"), ok("ws")),
        Err(ScriptError::UnexpectedUrl(UrlError::InvalidHTTPUrl))
    );
    assert_eq!(
        check_schemes(ok("http"), ok("https")),
        Err(ScriptError::UnexpectedUrl(UrlError::InvalidWSUrl))
    );
    assert_eq!(
        check_schemes(Err("empty host".to_string()), ok("ws")),
        Err(ScriptError::FailedParseUrl("empty host".to_string()))
    );
    assert_eq!(
        check_schemes(ok("ftp"), Err("bad port".to_string())),
        Err(ScriptError::FailedParseUrl("bad port".to_string()))
    );
}

#[test]
fn error_messages() {
    assert_eq!(UrlError::InvalidHTTPUrl.message(), "Invalid HTTP URL!");
    assert_eq!(
        ScriptError::UnexpectedUrl(UrlError::InvalidWSUrl).message(),
        "Invalid WebSocket URL!"
    );
    assert_eq!(ScriptError::CookieOutdated.message(), "Cookie 已经过期");
    assert_eq!(ScriptError::FailedRequest.message(), "绘制请求失败");
    assert_eq!(
        ScriptError::FailedReadFile("No such file or directory".to_string()).message(),
        "No such file or directory"
    );
    assert_eq!(ScriptError::FailedParseToml("bad key".to_string()).message(), "bad key");
}

#[test]
fn error_equality_compares_descriptions() {
    assert_eq!(ScriptError::FailedParseJson("x".to_string()), ScriptError::FailedParseJson("x".to_string()));
    assert_ne!(ScriptError::FailedParseJson("x".to_string()), ScriptError::FailedParseJson("y".to_string()));
    assert_ne!(ScriptError::FailedParseJson("x".to_string()), ScriptError::FailedParseToml("x".to_string()));
    assert_ne!(ScriptError::CookieOutdated, ScriptError::FailedRequest);
}
