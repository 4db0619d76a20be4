use draw_script::node::{classify_reply, empty_array_reply, escape_token, NodeOpt, Status};
use draw_script::paintboard::{
    ColorArray, PaintBoard, StreamAction, StreamEvent, StreamSession, TargetList,
};
use draw_script::{from_32, to_32, Config, ScriptError};
use std::collections::VecDeque;
use std::sync::Arc;

fn config(width: usize, height: usize) -> Arc<Config> {
    Arc::new(Config {
        board_addr: "http://localhost:3000".to_string(),
        websocket_addr: "ws://localhost:4000".to_string(),
        cookie_dir: "cookies".to_string(),
        node_file: "nodes.json".to_string(),
        wait_time: 30,
        board_width: width,
        board_height: height,
        thread_num: 2,
    })
}

fn node(x: usize, y: usize, color: usize) -> NodeOpt {
    NodeOpt { x, y, color }
}

#[test]
fn digit_round_trip_all_colors() {
    for n in 0..=32usize {
        assert_eq!(from_32(to_32(n)), n);
    }
}

#[test]
fn digit_alphabet_edges() {
    assert_eq!(to_32(0), '0');
    assert_eq!(to_32(9), '9');
    assert_eq!(to_32(10), 'a');
    assert_eq!(to_32(32), 'w');
    assert_eq!(from_32('a'), 10);
    assert_eq!(from_32('w'), 32);
}

#[test]
fn color_array_starts_at_one_and_ignores_outside() {
    let mut a = ColorArray::new(config(2, 3));
    assert_eq!(a.color(1, 2), Some(1));
    assert_eq!(a.color(2, 0), None);
    assert_eq!(a.color(0, 3), None);
    a.set_color(1, 2, Some(7));
    assert_eq!(a.color(1, 2), Some(7));
    a.set_color(5, 5, Some(7));
    assert_eq!(a.color(5, 5), None);
    a.set_color(1, 2, None);
    assert_eq!(a.color(1, 2), None);
}

#[test]
fn target_list_design_later_entry_wins() {
    let list = VecDeque::from(vec![node(0, 0, 3), node(1, 1, 4), node(0, 0, 6)]);
    let t = TargetList::new(config(2, 2), list);
    assert_eq!(t.color(0, 0), Some(6));
    assert_eq!(t.color(1, 1), Some(4));
    assert_eq!(t.color(0, 1), None);
    assert!(!t.queue_empty());
}

#[test]
fn get_target_skips_converged_entries() {
    let list = VecDeque::from(vec![node(0, 0, 1), node(1, 0, 2), node(1, 1, 3)]);
    let mut t = TargetList::new(config(2, 2), list);
    let canvas = ColorArray::new(config(2, 2));
    assert_eq!(t.get_target(&canvas), Some(node(1, 0, 2)));
    assert_eq!(t.get_target(&canvas), Some(node(1, 1, 3)));
    assert_eq!(t.get_target(&canvas), None);
    assert!(t.queue_empty());
}

#[test]
fn add_list_requeues_with_desired_color_only() {
    let mut t = TargetList::new(config(2, 2), VecDeque::from(vec![node(1, 1, 9)]));
    let canvas = ColorArray::new(config(2, 2));
    assert_eq!(t.get_target(&canvas), Some(node(1, 1, 9)));
    assert!(t.queue_empty());
    t.add_list(0, 0);
    assert!(t.queue_empty());
    t.add_list(1, 1);
    assert_eq!(t.get_target(&canvas), Some(node(1, 1, 9)));
}

#[test]
fn check_and_set_color_requeue() {
    let mut b = PaintBoard::new(config(2, 2), VecDeque::from(vec![node(0, 1, 4)]));
    assert!(!b.check(0, 1));
    assert!(b.check(1, 1));
    assert_eq!(b.get_update(), Some(node(0, 1, 4)));
    assert!(b.targets.queue_empty());
    b.set_color(0, 1, Some(4));
    assert!(b.check(0, 1));
    assert!(b.targets.queue_empty());
    b.set_color(0, 1, Some(2));
    assert!(!b.targets.queue_empty());
    assert_eq!(b.get_update(), Some(node(0, 1, 4)));
}

#[test]
fn basic_paint_cycle() {
    let mut b = PaintBoard::new(config(2, 2), VecDeque::from(vec![node(0, 0, 5)]));
    let target = b.get_update().unwrap();
    assert_eq!(target, node(0, 0, 5));
    let outcome = classify_reply("[]", None);
    assert_eq!(outcome, Ok(()));
    b.record_paint(target, &outcome);
    assert!(b.targets.queue_empty());
    assert_eq!(b.color.color(0, 0), Some(5));
    assert_eq!(b.get_update(), None);
}

#[test]
fn failed_paint_requeues_target() {
    let mut b = PaintBoard::new(config(2, 2), VecDeque::from(vec![node(1, 0, 5)]));
    let target = b.get_update().unwrap();
    let outcome = classify_reply("{\"status\":500}", Some(Status { status: 500 }));
    assert_eq!(outcome, Err(ScriptError::FailedRequest));
    b.record_paint(target, &outcome);
    assert_eq!(b.color.color(1, 0), None);
    assert!(!b.targets.queue_empty());
    assert_eq!(b.get_update(), Some(node(1, 0, 5)));
}

#[test]
fn converged_entry_not_handed_out_again() {
    let mut b = PaintBoard::new(config(3, 3), VecDeque::from(vec![node(2, 2, 8), node(0, 0, 3)]));
    let first = b.get_update().unwrap();
    assert_eq!(first, node(2, 2, 8));
    b.record_paint(first, &Ok(()));
    b.set_color(2, 2, Some(8));
    assert_eq!(b.get_update(), Some(node(0, 0, 3)));
    assert_eq!(b.get_update(), None);
    b.set_color(2, 2, Some(0));
    assert_eq!(b.get_update(), Some(node(2, 2, 8)));
}

#[test]
fn snapshot_decode() {
    let mut b = PaintBoard::new(config(2, 2), VecDeque::new());
    b.apply_snapshot("12\n30");
    assert_eq!(b.color.color(0, 0), Some(1));
    assert_eq!(b.color.color(0, 1), Some(2));
    assert_eq!(b.color.color(1, 0), Some(3));
    assert_eq!(b.color.color(1, 1), Some(0));
}

#[test]
fn snapshot_skips_bad_digits_and_outside_cells() {
    let mut b = PaintBoard::new(config(2, 3), VecDeque::new());
    b.apply_snapshot("aZw9\r\nx5\n77\n11");
    assert_eq!(b.color.color(0, 0), Some(10));
    assert_eq!(b.color.color(0, 1), Some(1));
    assert_eq!(b.color.color(0, 2), Some(32));
    assert_eq!(b.color.color(1, 0), Some(1));
    assert_eq!(b.color.color(1, 1), Some(5));
    assert_eq!(b.color.color(1, 2), Some(1));
}

#[test]
fn snapshot_requeues_mismatched_targets() {
    let mut b = PaintBoard::new(config(2, 2), VecDeque::from(vec![node(1, 1, 4)]));
    assert_eq!(b.get_update(), Some(node(1, 1, 4)));
    b.refresh_board(Some("44\n44".to_string()));
    assert!(b.targets.queue_empty());
    b.refresh_board(Some("00\n00".to_string()));
    assert_eq!(b.get_update(), Some(node(1, 1, 4)));
    assert_eq!(b.get_update(), None);
}

#[test]
fn failed_refresh_changes_nothing() {
    let mut b = PaintBoard::new(config(2, 2), VecDeque::from(vec![node(0, 0, 4)]));
    b.refresh_board(None);
    assert_eq!(b.color.color(0, 0), Some(1));
    assert!(!b.targets.queue_empty());
}

#[test]
fn handshake_discarded_on_each_connection() {
    let update = node(1, 0, 7);
    let mut s = StreamSession::new();
    assert_eq!(s.on_event(StreamEvent::Text(Some(update))), StreamAction::Skip);
    assert_eq!(s.on_event(StreamEvent::Text(Some(update))), StreamAction::Apply(update));
    assert_eq!(s.on_event(StreamEvent::Text(None)), StreamAction::Skip);
    assert_eq!(s.on_event(StreamEvent::Other), StreamAction::Skip);
    assert_eq!(s.on_event(StreamEvent::Closed), StreamAction::Reconnect);
    assert_eq!(s.on_event(StreamEvent::Text(Some(update))), StreamAction::Skip);
    assert_eq!(s.on_event(StreamEvent::Text(Some(update))), StreamAction::Apply(update));
}

#[test]
fn reply_classification() {
    assert_eq!(classify_reply("{\"status\":200}", Some(Status { status: 200 })), Ok(()));
    assert_eq!(
        classify_reply("{\"status\":401}", Some(Status { status: 401 })),
        Err(ScriptError::CookieOutdated)
    );
    assert_eq!(
        classify_reply("{\"status\":403}", Some(Status { status: 403 })),
        Err(ScriptError::FailedRequest)
    );
    assert_eq!(classify_reply(" [ \n] ", None), Ok(()));
    assert_eq!(classify_reply("[1]", None), Err(ScriptError::FailedRequest));
    assert_eq!(classify_reply("", None), Err(ScriptError::FailedRequest));
    assert_eq!(classify_reply("<html>", None), Err(ScriptError::FailedRequest));
}

#[test]
fn snapshot_counts_characters() {
    let mut b = PaintBoard::new(config(1, 3), VecDeque::new());
    b.apply_snapshot("é34");
    assert_eq!(b.color.color(0, 0), Some(1));
    assert_eq!(b.color.color(0, 1), Some(3));
    assert_eq!(b.color.color(0, 2), Some(4));
}

#[test]
fn empty_array_forms() {
    assert!(empty_array_reply("[]"));
    assert!(empty_array_reply("\t[\r\n ]\n"));
    assert!(!empty_array_reply("[[]]"));
    assert!(!empty_array_reply("]["));
    assert!(!empty_array_reply("[] x"));
    assert!(!empty_array_reply("["));
}

#[test]
fn token_escaping() {
    assert_eq!(escape_token("uid:123:abc"), "uid%3A123%3Aabc");
    assert_eq!(escape_token("plain"), "plain");
    assert_eq!(escape_token(""), "");
}
