//! Decision logic of a small desktop bridge around an external command-line
//! tool: what to launch, how captured output becomes line events, how an
//! exit status becomes the caller's result, and when a watched file counts
//! as changed.
//!
//! The host application performs the I/O (spawning, reading pipes, polling
//! file metadata, emitting events) and hands plain values to these functions.

mod deployment;
mod events;
mod forwarder;
mod lines;
mod supervisor;
mod watcher;

pub use deployment::{get_deployment_status, DeploymentUpdate};
pub use events::{cli_error_tag, cli_output_tag, config_changed_tag, UiEvent};
pub use forwarder::{
    decodable, decode_line, encoded_lines, forwards_line, forwards_read,
    lemma_written_text_delivered, line_text, ReadEvent, StreamForwarder, StreamKind,
};
pub use lines::{
    framed, joined, lemma_framed_lines_found, lemma_reads_split_as_whole, lemma_scan_concat,
    lemma_scan_keeps_found, lemma_written_lines_delivered, scan, scan_byte, split_lines,
    split_reads, strip_cr, ScanState, CARRIAGE_RETURN, NEWLINE,
};
pub use supervisor::{
    cli_program, digit_char, exit_result, failure_prefix, int_text, launch_request, launch_result,
    nat_text, no_code_text, success_text, LaunchRequest, ProcessOutcome,
};
pub use watcher::{
    check, check_all, lemma_one_event_per_change, lemma_unchanged_file_is_quiet, Stamp,
    WatchState, POLL_INTERVAL_SECS,
};
