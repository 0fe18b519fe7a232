use tmux_control::Pair;
use tmux_control::command::TmuxCommand;
use tmux_control::command::info;
use tmux_control::command_stream::{ProtocolError, Reader, SeqRs, read};

fn send_test_cmd(pairs: &mut Vec<Pair<info::Cmd, i32>>) -> String {
    let cmd = info::new();
    let wf = String::from(cmd.wire_format());
    pairs.push(Pair(*cmd, 0));
    wf
}

#[test]
fn writes_commands_to_stream() {
    let mut pairs: Vec<Pair<info::Cmd, i32>> = Vec::new();

    let cmd_str = send_test_cmd(&mut pairs);

    let (records, stream) = tmux_control::command_stream::write(pairs);

    assert_eq!(records.len(), 1);
    assert_eq!(records[0].0, 1);
    assert_eq!(stream, format!("{}\n", cmd_str));
}

#[test]
fn reads_responses_from_stream() {
    let lines = vec![
        String::from("%begin 0 1 0"),
        String::from("hello"),
        String::from("%end 0 1 0"),
    ];
    let records = vec![SeqRs(1u64, info::Response::new(), 7i32)];
    let out = read(lines, records);
    assert!(out.fault.is_none());
    assert_eq!(out.dropped_blocks, 0);
    assert_eq!(out.cancelled.len(), 0);
    assert_eq!(out.delivered.len(), 1);
    assert_eq!(out.delivered[0].0, 7);
    assert_eq!(out.delivered[0].1.text(), "hello");
}

#[test]
fn assigns_sequence_numbers_in_submission_order() {
    let mut pairs: Vec<Pair<info::Cmd, i32>> = Vec::new();
    for d in 0..3 {
        pairs.push(Pair(*info::new(), d));
    }
    let (records, stream) = tmux_control::command_stream::write(pairs);
    assert_eq!(records.len(), 3);
    for (i, rec) in records.iter().enumerate() {
        assert_eq!(rec.0, (i + 1) as u64);
        assert_eq!(rec.2, i as i32);
    }
    assert_eq!(stream, "info\ninfo\ninfo\n");
}

#[test]
fn end_to_end_info_scenario() {
    let cmd = info::new();
    assert_eq!(cmd.wire_format(), "info");
    assert_eq!(cmd.wire_format().len(), 4);

    let mut pairs: Vec<Pair<info::Cmd, i32>> = Vec::new();
    pairs.push(Pair(*cmd, 1));
    let (records, stream) = tmux_control::command_stream::write(pairs);
    assert_eq!(stream, "info\n");

    let lines = vec![
        String::from("%begin 0 1 0"),
        String::from("some info text"),
        String::from("%end 0 1 0"),
    ];
    let out = read(lines, records);
    assert!(out.fault.is_none());
    assert_eq!(out.delivered.len(), 1);
    assert_eq!(out.delivered[0].1.text(), "some info text");
}

#[test]
fn no_cross_talk_between_reply_handles() {
    let records = vec![
        SeqRs(1u64, info::Response::new(), 10i32),
        SeqRs(2u64, info::Response::new(), 20i32),
    ];
    let lines = vec![
        String::from("%begin 0 1 0"),
        String::from("first payload"),
        String::from("%end 0 1 0"),
        String::from("%begin 0 2 0"),
        String::from("second payload"),
        String::from("%end 0 2 0"),
    ];
    let out = read(lines, records);
    assert!(out.fault.is_none());
    assert_eq!(out.delivered.len(), 2);
    assert_eq!(out.delivered[0].0, 10);
    assert_eq!(out.delivered[0].1.text(), "first payload");
    assert_eq!(out.delivered[1].0, 20);
    assert_eq!(out.delivered[1].1.text(), "second payload");
}

#[test]
fn matching_goes_by_sequence_number_not_arrival_position() {
    let records = vec![
        SeqRs(1u64, info::Response::new(), 10i32),
        SeqRs(2u64, info::Response::new(), 20i32),
    ];
    let lines = vec![
        String::from("%begin 0 2 0"),
        String::from("second finished first"),
        String::from("%end 0 2 0"),
        String::from("%begin 0 1 0"),
        String::from("first finished last"),
        String::from("%end 0 1 0"),
    ];
    let out = read(lines, records);
    assert!(out.fault.is_none());
    assert_eq!(out.delivered.len(), 2);
    assert_eq!(out.delivered[0].0, 20);
    assert_eq!(out.delivered[0].1.text(), "second finished first");
    assert_eq!(out.delivered[1].0, 10);
    assert_eq!(out.delivered[1].1.text(), "first finished last");
}

#[test]
fn idle_notification_is_a_no_op() {
    let records = vec![SeqRs(1u64, info::Response::new(), 5i32)];
    let lines = vec![
        String::from("%session-changed $1 main"),
        String::from("%sessions-changed"),
        String::from("not a stanza at all"),
        String::from("%begin 0 1 0"),
        String::from("payload"),
        String::from("%end 0 1 0"),
        String::from("%window-add @2"),
    ];
    let out = read(lines, records);
    assert!(out.fault.is_none());
    assert_eq!(out.dropped_blocks, 0);
    assert_eq!(out.cancelled.len(), 0);
    assert_eq!(out.delivered.len(), 1);
    assert_eq!(out.delivered[0].1.text(), "payload");
}

#[test]
fn unterminated_block_cancels_its_record() {
    let records = vec![SeqRs(1u64, info::Response::new(), 3i32)];
    let lines = vec![String::from("%begin 0 1 0"), String::from("partial output")];
    let out = read(lines, records);
    assert!(out.fault.is_none());
    assert_eq!(out.delivered.len(), 0);
    assert_eq!(out.cancelled.len(), 1);
    assert_eq!(out.cancelled[0].0, 1);
    assert_eq!(out.cancelled[0].2, 3);
}

#[test]
fn block_lines_are_joined_with_boundaries_preserved() {
    let records = vec![SeqRs(1u64, info::Response::new(), 0i32)];
    let lines = vec![
        String::from("%begin 0 1 0"),
        String::from("line one"),
        String::from(""),
        String::from("line three"),
        String::from("%end 0 1 0"),
    ];
    let out = read(lines, records);
    assert_eq!(out.delivered.len(), 1);
    assert_eq!(out.delivered[0].1.text(), "line one\n\nline three");
}

#[test]
fn empty_block_yields_empty_text() {
    let records = vec![SeqRs(1u64, info::Response::new(), 0i32)];
    let lines = vec![String::from("%begin 0 1 0"), String::from("%end 0 1 0")];
    let out = read(lines, records);
    assert_eq!(out.delivered.len(), 1);
    assert_eq!(out.delivered[0].1.text(), "");
}

#[test]
fn terminator_without_sequence_number_drops_the_block() {
    let records = vec![SeqRs(1u64, info::Response::new(), 9i32)];
    let lines = vec![
        String::from("%begin 0 1 0"),
        String::from("orphaned"),
        String::from("%end"),
    ];
    let out = read(lines, records);
    assert!(out.fault.is_none());
    assert_eq!(out.dropped_blocks, 1);
    assert_eq!(out.delivered.len(), 0);
    assert_eq!(out.cancelled.len(), 1);
}

#[test]
fn block_with_no_pending_record_is_a_fatal_fault() {
    let records = vec![SeqRs(1u64, info::Response::new(), 0i32)];
    let lines = vec![
        String::from("%begin 0 5 0"),
        String::from("whose output is this?"),
        String::from("%end 0 5 0"),
    ];
    let out = read(lines, records);
    assert_eq!(out.fault, Some(ProtocolError::UnmatchedSequence(5)));
    assert_eq!(out.delivered.len(), 0);
    assert_eq!(out.cancelled.len(), 1);
}

#[test]
fn error_terminator_completes_a_block_too() {
    let records = vec![SeqRs(1u64, info::Response::new(), 4i32)];
    let lines = vec![
        String::from("%begin 0 1 0"),
        String::from("no such command"),
        String::from("%error 0 1 0"),
    ];
    let out = read(lines, records);
    assert!(out.fault.is_none());
    assert_eq!(out.delivered.len(), 1);
    assert_eq!(out.delivered[0].0, 4);
    assert_eq!(out.delivered[0].1.text(), "no such command");
}

#[test]
fn reader_state_machine_steps() {
    let mut rdr = Reader::new();
    assert!(rdr.maybe_output.is_none());
    rdr.capture_notification(String::from("%output %1 stray"));
    assert!(rdr.maybe_output.is_none());
    rdr.capture_notification(String::from("%begin 17 3 1"));
    assert!(rdr.maybe_output.is_some());
    assert!(rdr.capture_output_block(String::from("body")).is_ok());
    assert!(rdr.capture_output_block(String::from("%end 17 3 1")).is_ok());
    assert!(rdr.maybe_output.is_none());
    assert_eq!(rdr.results.len(), 1);
    assert_eq!(rdr.results[0].num, 3);
    assert_eq!(rdr.results[0].output, "body");
}

#[test]
fn begin_requires_a_keyword_boundary() {
    let mut rdr = Reader::new();
    rdr.capture_notification(String::from("%beginning of nothing"));
    assert!(rdr.maybe_output.is_none());
    rdr.capture_notification(String::from("%begin"));
    assert!(rdr.maybe_output.is_some());
}
