use evalbotlib::exec::{exec_output, strsig, strsigabbrev, ExitKind};
use evalbotlib::session::{exec_error, payload_response, timeout_response, transport_error, ExecFailure};
use evalbotlib::text::{format_i32, format_u32};
use evalbotlib::util::{truncate_output, wrap_output};
use evalbotlib::wire::{payload_len, Req, MAX_PAYLOAD};

#[test]
fn request_frame_is_three_le_words_then_bodies() {
    let req = Req { timeout_ms: 5000, context: b"abc".to_vec(), code: b"hi".to_vec() };
    let bytes = req.to_bytes();
    let mut expected = vec![0x88u8, 0x13, 0, 0, 3, 0, 0, 0, 2, 0, 0, 0];
    expected.extend_from_slice(b"abc");
    expected.extend_from_slice(b"hi");
    assert_eq!(bytes, expected);
    assert_eq!(bytes.len(), 12 + 3 + 2);
}

#[test]
fn empty_context_frame() {
    let req = Req { timeout_ms: 0, context: Vec::new(), code: b"x".to_vec() };
    let bytes = req.to_bytes();
    assert_eq!(bytes, vec![0, 0, 0, 0, 0, 0, 0, 0, 1, 0, 0, 0, b'x']);
}

#[test]
fn declared_length_is_read_little_endian() {
    assert_eq!(payload_len(&[0x0B, 0, 0, 0]), 11);
    assert_eq!(payload_len(&[0, 1, 0, 0]), 256);
}

#[test]
fn oversized_declared_length_is_capped() {
    assert_eq!(payload_len(&[0, 8, 0, 0]), MAX_PAYLOAD as usize);
    assert_eq!(payload_len(&[0xFF, 0xFF, 0xFF, 0xFF]), 1024);
    assert_eq!(payload_len(&[0, 4, 0, 0]), 1024);
    assert_eq!(payload_len(&[0xFF, 3, 0, 0]), 1023);
}

#[test]
fn payload_decodes_as_utf8() {
    assert_eq!(payload_response(b"hello world"), Ok("hello world".to_string()));
}

#[test]
fn timeout_collapses_to_ok() {
    assert_eq!(timeout_response(), Ok("time limit exceeded".to_string()));
}

#[test]
fn exec_errors_are_err_with_exact_texts() {
    assert_eq!(
        exec_error(ExecFailure::Spawn, "no such file"),
        Err("failed to exec: no such file".to_string())
    );
    assert_eq!(exec_error(ExecFailure::MissingStdin, ""), Err("stdin missing".to_string()));
    assert_eq!(
        exec_error(ExecFailure::StdinWrite, "broken pipe"),
        Err("failed to write to stdin: broken pipe".to_string())
    );
    assert_eq!(
        exec_error(ExecFailure::Wait, "interrupted"),
        Err("failed to wait for process: interrupted".to_string())
    );
}

#[test]
fn transport_errors_are_err() {
    assert_eq!(
        transport_error("connecting", "refused"),
        Err("error connecting: refused".to_string())
    );
}

#[test]
fn success_output_is_stderr_then_stdout() {
    assert_eq!(exec_output("", "hello\n", ExitKind::Success), "hello\n");
    assert_eq!(exec_output("warn\n", "out\n", ExitKind::Success), "warn\nout\n");
}

#[test]
fn nonzero_exit_appends_status_line() {
    assert_eq!(
        exec_output("err\n", "out\n", ExitKind::Code(3)),
        "err\nout\nexited with status 3\n"
    );
    assert_eq!(
        exec_output("", "no newline", ExitKind::Code(-1)),
        "no newline\nexited with status -1\n"
    );
    assert_eq!(exec_output("", "", ExitKind::Unknown), "\nexited with unknown failure\n");
}

#[test]
fn signalled_death_appends_signal_line() {
    assert_eq!(
        exec_output("", "", ExitKind::Signal(11)),
        "\nsignalled with Segmentation fault (SIGSEGV)\n"
    );
    assert!(exec_output("partial", "", ExitKind::Signal(9))
        .ends_with("signalled with Killed (SIGKILL)\n"));
}

#[test]
fn signal_tables_match_posix() {
    assert_eq!(strsig(1), "Hangup");
    assert_eq!(strsigabbrev(1), "SIGHUP");
    assert_eq!(strsig(11), "Segmentation fault");
    assert_eq!(strsigabbrev(11), "SIGSEGV");
    assert_eq!(strsig(31), "Bad system call");
    assert_eq!(strsigabbrev(31), "SIGSYS");
    assert_eq!(strsig(32), "Unknown signal");
    assert_eq!(strsigabbrev(32), "(unknown)");
    assert_eq!(strsigabbrev(0), "(unknown)");
}

#[test]
fn decimal_rendering() {
    assert_eq!(format_u32(0), "0");
    assert_eq!(format_u32(4294967295), "4294967295");
    assert_eq!(format_i32(-2147483648), "-2147483648");
    assert_eq!(format_i32(42), "42");
}

#[test]
fn wraps_lines_to_width() {
    assert_eq!(wrap_output("  hello  \nworld", 10), vec!["hello", "world"]);
    assert_eq!(wrap_output("abcdef", 2), vec!["ab", "cd", "ef"]);
    assert_eq!(wrap_output("abcde", 2), vec!["ab", "cd", "e"]);
    assert_eq!(wrap_output("a\n\nb", 5), vec!["a", "", "b"]);
    assert_eq!(wrap_output("", 5), Vec::<String>::new());
    assert_eq!(wrap_output("exactly", 7), vec!["exactly"]);
}

#[test]
fn truncates_to_line_budget() {
    let lines = vec!["a".to_string(), "b".to_string(), "c".to_string()];
    let (cut, kept) = truncate_output(lines.clone(), 2);
    assert!(cut);
    assert_eq!(kept, vec!["a".to_string(), "b".to_string()]);
    let (cut, kept) = truncate_output(lines.clone(), 3);
    assert!(!cut);
    assert_eq!(kept, lines);
}
