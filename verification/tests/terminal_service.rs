use deckox::terminal::{
    is_allowed_shell, service_status, session_refusal, session_step, terminal_settings, ClientFrame,
    SessionAction, SessionEvent, EXIT_MESSAGE, IDLE_MESSAGE, IO_FAILED_MESSAGE, MAX_MESSAGE_BYTES,
};

fn closed(action: (SessionAction, bool)) -> (Option<&'static str>, &'static str) {
    match action.0 {
        SessionAction::Close { notice, reason } => (notice, reason),
        _ => panic!("the session should close"),
    }
}

#[test]
fn only_the_listed_shells_start_compared_as_paths() {
    assert!(is_allowed_shell("/bin/sh"));
    assert!(is_allowed_shell("/bin/bash"));
    assert!(is_allowed_shell("/usr/bin/bash"));
    assert!(is_allowed_shell("/bin//sh"));
    assert!(is_allowed_shell("/bin/./bash/"));
    assert!(!is_allowed_shell("/bin/zsh"));
    assert!(!is_allowed_shell("bin/sh"));
    assert!(!is_allowed_shell("/usr/../bin/sh"));
    assert!(!is_allowed_shell(""));
}

#[test]
fn settings_need_an_allowed_shell_an_absolute_home_and_a_non_root_process() {
    let settings = terminal_settings(Some("true"), None, None, true).expect("defaults are valid");
    assert!(settings.enabled);
    assert!(!settings.root_refused);
    assert_eq!(settings.shell, "/bin/sh");
    assert_eq!(settings.home, "/var/lib/deckox-terminal");
    let as_root = terminal_settings(Some("true"), Some("/bin/bash"), Some("/home/t"), false).expect("valid");
    assert!(!as_root.enabled);
    assert!(as_root.root_refused);
    let off = terminal_settings(Some("yes"), None, None, true).expect("valid");
    assert!(!off.enabled);
    assert!(!off.root_refused);
    assert_eq!(
        terminal_settings(None, Some("/bin/zsh"), None, true).err().as_deref(),
        Some("DECKOX_TERMINAL_SHELL must be one of /bin/sh, /bin/bash, /usr/bin/bash")
    );
    assert_eq!(
        terminal_settings(None, None, Some("relative/home"), true).err().as_deref(),
        Some("DECKOX_TERMINAL_HOME must be an absolute path")
    );
}

#[test]
fn a_session_opens_only_when_enabled_and_a_slot_is_free() {
    assert_eq!(session_refusal(false, true), Some((503, "terminal_disabled", "web terminal is disabled")));
    assert_eq!(
        session_refusal(true, false),
        Some((429, "terminal_session_limit", "the terminal session limit has been reached"))
    );
    assert_eq!(session_refusal(true, true), None);
    let status = service_status(true, 1);
    assert_eq!(status.active_sessions, 1);
    assert_eq!(status.max_sessions, 2);
    assert_eq!(status.idle_timeout_seconds, 900);
    assert!(status.isolated && !status.privileged);
    assert_eq!(service_status(false, 5).active_sessions, 0);
}

#[test]
fn browser_messages_drive_the_terminal_and_restart_the_idle_timer() {
    let (write, idle) = session_step(SessionEvent::Client(ClientFrame::Binary(b"ls\n".to_vec())));
    assert!(idle);
    assert!(matches!(write, SessionAction::Write(ref bytes) if bytes == b"ls\n"));
    let (resize, _) = session_step(SessionEvent::Client(ClientFrame::Control { len: 40, resize: Some((80, 24)) }));
    assert!(matches!(resize, SessionAction::Resize { cols: 80, rows: 24 }));
    assert!(matches!(session_step(SessionEvent::Client(ClientFrame::Pong)).0, SessionAction::Continue));
    assert!(matches!(session_step(SessionEvent::Client(ClientFrame::Ping(4))).0, SessionAction::Continue));
    assert_eq!(
        closed(session_step(SessionEvent::Client(ClientFrame::Control { len: 40, resize: Some((10, 24)) }))),
        (None, "client_closed")
    );
    assert_eq!(
        closed(session_step(SessionEvent::Client(ClientFrame::Control { len: 40, resize: None }))),
        (None, "client_closed")
    );
    assert_eq!(
        closed(session_step(SessionEvent::Client(ClientFrame::Binary(vec![0; MAX_MESSAGE_BYTES + 1])))),
        (None, "client_closed")
    );
    assert_eq!(closed(session_step(SessionEvent::Client(ClientFrame::Other))), (None, "client_closed"));
}

#[test]
fn the_session_ends_with_the_reason_it_is_logged_with() {
    let (output, idle) = session_step(SessionEvent::Output(b"$ ".to_vec()));
    assert!(!idle);
    assert!(matches!(output, SessionAction::Send(ref bytes) if bytes == b"$ "));
    assert_eq!(closed(session_step(SessionEvent::ClientGone)), (None, "disconnected"));
    assert_eq!(closed(session_step(SessionEvent::OutputUndelivered)), (None, "disconnected"));
    assert_eq!(closed(session_step(SessionEvent::InputFailed)), (None, "client_closed"));
    assert_eq!(closed(session_step(SessionEvent::ShellExited)), (Some(EXIT_MESSAGE), "shell_exited"));
    assert_eq!(closed(session_step(SessionEvent::TerminalFailed)), (Some(IO_FAILED_MESSAGE), "io_failed"));
    assert_eq!(closed(session_step(SessionEvent::IdleTimeout)), (Some(IDLE_MESSAGE), "idle_timeout"));
    assert_eq!(EXIT_MESSAGE, r#"{"type":"exit"}"#);
    assert_eq!(IDLE_MESSAGE, r#"{"type":"error","code":"terminal_idle_timeout"}"#);
}
