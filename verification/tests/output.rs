use iocraft::output::{needs_trailing_newline, passthrough_text, Output, Passthrough, StdoutHandle, UseOutputState, UseStdout};

#[test]
fn test_print_trailing_newline_normalization() {
    let mut state = UseOutputState::new();
    state.push(Output::Stdout, "done\n".to_string(), false);
    state.push(Output::Stdout, "crlf\r\n".to_string(), false);
    state.push(Output::Stdout, "blank\n\n".to_string(), true);

    // A trailing newline in no-newline content moves into the flag.
    assert_eq!(state.queue[0].content, "done");
    assert!(state.queue[0].newline);
    assert_eq!(state.queue[1].content, "crlf");
    assert!(state.queue[1].newline);
    // println content is left untouched; its newlines are intentional.
    assert_eq!(state.queue[2].content, "blank\n\n");
    assert!(state.queue[2].newline);
}

#[test]
fn handles_queue_messages_for_their_stream() {
    let mut state = UseOutputState::new();
    assert!(!state.has_pending());
    let out = StdoutHandle;
    out.print(&mut state, "Working");
    out.println(&mut state, "done");
    state.use_stderr().print(&mut state, "oops\n");
    assert!(state.has_pending());
    let q = state.take_queue();
    assert!(!state.has_pending());
    assert_eq!(q.len(), 3);
    assert_eq!((q[0].stream, q[0].content.as_str(), q[0].newline), (Output::Stdout, "Working", false));
    assert_eq!((q[1].stream, q[1].content.as_str(), q[1].newline), (Output::Stdout, "done", true));
    assert_eq!((q[2].stream, q[2].content.as_str(), q[2].newline), (Output::Stderr, "oops", true));
}

#[test]
fn raw_mode_turns_newlines_into_crlf() {
    assert_eq!(passthrough_text("line1\r\nline2\nline3\rline4", true), "line1\r\nline2\r\nline3\rline4");
    assert_eq!(passthrough_text("a\nb", false), "a\nb");
    assert_eq!(passthrough_text("\n\r\n", true), "\r\n\r\n");
    assert_eq!(passthrough_text("", true), "");
}

#[test]
fn use_stdout_drains_its_queue() {
    let mut s = UseStdout::new();
    let (pending, handle) = s.use_stdout();
    assert!(pending.is_empty());
    handle.println(&mut s, "hi");
    let (pending, _) = s.use_stdout();
    assert_eq!(pending, vec!["hi".to_string()]);
}

fn msg(content: &str, newline: bool) -> Passthrough {
    Passthrough { stream: Output::Stdout, content: content.to_string(), newline }
}

#[test]
fn trailing_newline_after_open_lines() {
    let open = [msg("a", true), msg("partial", false)];
    assert!(needs_trailing_newline(false, &open, &[true, true]));
    assert!(!needs_trailing_newline(false, &open, &[true, false]));
    let closed = [msg("partial", false), msg("done", true)];
    assert!(!needs_trailing_newline(true, &closed, &[true, true]));
    assert!(needs_trailing_newline(true, &[msg("", false)], &[true]));
    assert!(!needs_trailing_newline(false, &[], &[]));
}
