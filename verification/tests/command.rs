use tmux_control::command::info;
use tmux_control::command::{Response, TmuxCommand};

#[test]
fn info_wire_format_is_fixed() {
    let cmd = info::new();
    assert_eq!(cmd.wire_format(), "info");
}

#[test]
fn build_response_starts_empty() {
    let cmd = info::new();
    let resp = cmd.build_response();
    assert_eq!(resp.text(), "");
}

#[test]
fn consume_replaces_the_content() {
    let mut resp = info::Response::new();
    resp.consume(&String::from("first"));
    assert_eq!(resp.text(), "first");
    resp.consume(&String::from("second"));
    assert_eq!(resp.text(), "second");
}
