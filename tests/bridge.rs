use cli_bridge::{
    decode_line, exit_result, get_deployment_status, launch_request, launch_result, ProcessOutcome,
    ReadEvent, Stamp, StreamForwarder, StreamKind, UiEvent, WatchState, POLL_INTERVAL_SECS,
};

fn event(name: &str, payload: &str) -> UiEvent {
    UiEvent { name: name.to_string(), payload: payload.to_string() }
}

fn stamp(secs: u64, nanos: u32) -> Stamp {
    Stamp { before_epoch: false, secs, nanos }
}

#[test]
fn deployment_status_is_empty_list() {
    let r = get_deployment_status();
    assert!(matches!(r, Ok(ref v) if v.is_empty()));
}

#[test]
fn launch_request_runs_tool_with_args_and_pipes() {
    let r = launch_request(vec!["deploy".to_string(), "--dry-run".to_string()]);
    assert_eq!(r.program, "strands");
    assert_eq!(r.args, vec!["deploy".to_string(), "--dry-run".to_string()]);
    assert!(r.capture_stdout);
    assert!(r.capture_stderr);
}

#[test]
fn exit_zero_is_success() {
    assert_eq!(exit_result(Some(0)), Ok("Command executed successfully".to_string()));
}

#[test]
fn exit_nonzero_reports_code() {
    assert_eq!(exit_result(Some(1)), Err("Command failed with status: 1".to_string()));
    assert_eq!(exit_result(Some(127)), Err("Command failed with status: 127".to_string()));
    assert_eq!(exit_result(Some(-3)), Err("Command failed with status: -3".to_string()));
    assert_eq!(
        exit_result(Some(i32::MIN)),
        Err("Command failed with status: -2147483648".to_string())
    );
}

#[test]
fn exit_without_code_is_failure() {
    assert_eq!(
        exit_result(None),
        Err("Command failed with status: terminated without an exit code".to_string())
    );
}

#[test]
fn spawn_and_wait_failures_pass_cause_through() {
    let cause = "No such file or directory (os error 2)".to_string();
    assert_eq!(launch_result(ProcessOutcome::SpawnFailed(cause.clone())), Err(cause.clone()));
    assert_eq!(launch_result(ProcessOutcome::WaitFailed(cause.clone())), Err(cause));
    assert_eq!(
        launch_result(ProcessOutcome::Exited(Some(2))),
        Err("Command failed with status: 2".to_string())
    );
}

#[test]
fn list_command_printing_two_lines() {
    let request = launch_request(vec![]);
    assert!(request.args.is_empty());
    let mut out = StreamForwarder::new(StreamKind::Stdout);
    let mut events = out.on_read(ReadEvent::Data(b"a\nb\n".to_vec()));
    events.extend(out.on_read(ReadEvent::EndOfStream));
    assert_eq!(events, vec![event("cli-output", "a"), event("cli-output", "b")]);
    assert_eq!(
        launch_result(ProcessOutcome::Exited(Some(0))),
        Ok("Command executed successfully".to_string())
    );
}

#[test]
fn lines_cut_across_reads_arrive_whole_and_in_order() {
    let mut f = StreamForwarder::new(StreamKind::Stdout);
    let mut events = Vec::new();
    for chunk in [&b"fir"[..], b"st\nsec", b"ond\n", b"", b"third\nfou", b"rth\n"] {
        events.extend(f.on_read(ReadEvent::Data(chunk.to_vec())));
    }
    events.extend(f.on_read(ReadEvent::EndOfStream));
    assert_eq!(
        events,
        vec![
            event("cli-output", "first"),
            event("cli-output", "second"),
            event("cli-output", "third"),
            event("cli-output", "fourth"),
        ]
    );
}

#[test]
fn partial_final_line_is_dropped() {
    let mut f = StreamForwarder::new(StreamKind::Stdout);
    assert_eq!(
        f.on_read(ReadEvent::Data(b"done\nunfinished".to_vec())),
        vec![event("cli-output", "done")]
    );
    assert_eq!(f.pending, b"unfinished".to_vec());
    assert!(f.on_read(ReadEvent::EndOfStream).is_empty());
    assert!(f.stopped);
    assert!(f.pending.is_empty());
}

#[test]
fn stderr_lines_use_error_tag() {
    let mut f = StreamForwarder::new(StreamKind::Stderr);
    assert_eq!(f.on_read(ReadEvent::Data(b"oops\n".to_vec())), vec![event("cli-error", "oops")]);
}

#[test]
fn carriage_return_before_terminator_is_removed() {
    let mut f = StreamForwarder::new(StreamKind::Stdout);
    assert_eq!(
        f.on_read(ReadEvent::Data(b"win\r\nmid\rdle\n\r\n".to_vec())),
        vec![event("cli-output", "win"), event("cli-output", "mid\rdle"), event("cli-output", "")]
    );
}

#[test]
fn empty_lines_are_forwarded() {
    let mut f = StreamForwarder::new(StreamKind::Stdout);
    assert_eq!(
        f.on_read(ReadEvent::Data(b"\n\nx\n".to_vec())),
        vec![event("cli-output", ""), event("cli-output", ""), event("cli-output", "x")]
    );
}

#[test]
fn invalid_utf8_line_ends_forwarding() {
    let mut f = StreamForwarder::new(StreamKind::Stdout);
    let events = f.on_read(ReadEvent::Data(b"ok\n\xff\xfe\nlater\n".to_vec()));
    assert_eq!(events, vec![event("cli-output", "ok")]);
    assert!(f.stopped);
    assert!(f.on_read(ReadEvent::Data(b"more\n".to_vec())).is_empty());
}

#[test]
fn read_failure_ends_forwarding() {
    let mut f = StreamForwarder::new(StreamKind::Stderr);
    assert!(f.on_read(ReadEvent::Data(b"half".to_vec())).is_empty());
    assert!(f.on_read(ReadEvent::Failed).is_empty());
    assert!(f.stopped);
    assert!(f.on_read(ReadEvent::Data(b"\n".to_vec())).is_empty());
}

#[test]
fn multibyte_text_is_decoded() {
    assert_eq!(decode_line("héllo ✓\r".as_bytes().to_vec()), Some("héllo ✓".to_string()));
    assert_eq!(decode_line(vec![0xc3]), None);
    let mut f = StreamForwarder::new(StreamKind::Stdout);
    let bytes = "日本\n".as_bytes();
    let mut events = f.on_read(ReadEvent::Data(bytes[..2].to_vec()));
    events.extend(f.on_read(ReadEvent::Data(bytes[2..].to_vec())));
    assert_eq!(events, vec![event("cli-output", "日本")]);
}

#[test]
fn watch_announces_each_new_stamp_once() {
    let mut w = WatchState::start("/tmp/app.yaml".to_string(), Some(stamp(100, 5)));
    assert_eq!(w.tick(Some(stamp(100, 5))), None);
    assert_eq!(w.tick(None), None);
    assert_eq!(w.last_seen, Some(stamp(100, 5)));
    assert_eq!(w.tick(Some(stamp(100, 6))), Some(event("config-file-changed", "/tmp/app.yaml")));
    assert_eq!(w.tick(Some(stamp(100, 6))), None);
    assert_eq!(w.tick(None), None);
    assert_eq!(w.tick(Some(stamp(100, 6))), None);
    assert_eq!(w.last_seen, Some(stamp(100, 6)));
}

#[test]
fn watch_of_missing_file_announces_its_creation() {
    let mut w = WatchState::start("cfg.yaml".to_string(), None);
    assert_eq!(w.tick(None), None);
    assert_eq!(w.last_seen, None);
    assert_eq!(w.tick(Some(stamp(7, 0))), Some(event("config-file-changed", "cfg.yaml")));
    assert_eq!(w.last_seen, Some(stamp(7, 0)));
}

#[test]
fn watch_tells_stamps_before_epoch_apart() {
    let mut w = WatchState::start("p".to_string(), Some(stamp(1, 0)));
    let earlier = Stamp { before_epoch: true, secs: 1, nanos: 0 };
    assert_eq!(w.tick(Some(earlier)), Some(event("config-file-changed", "p")));
    assert_eq!(POLL_INTERVAL_SECS, 1);
}
