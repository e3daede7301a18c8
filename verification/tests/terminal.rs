use clawpier::bots::{BotProfile, BotStore};
use clawpier::error::AppError;
use clawpier::models::AgentType;
use clawpier::terminal::{
    active_session, detached_terminal, start_terminal_session, stop_terminal_session,
    terminal_failure, terminal_output, terminal_text, TerminalStep, STREAM_ENDED,
};

fn other(e: AppError) -> String {
    match e {
        AppError::Other(m) => m,
        _ => panic!("no such error"),
    }
}

#[test]
fn shell_is_started_in_the_bots_container() {
    let store = BotStore {
        bots: vec![BotProfile {
            id: "b".to_string(),
            name: "Bot".to_string(),
            container_name: "clawpier-b".to_string(),
            agent_type: AgentType::OpenClaw,
            workspace_path: None,
        }],
    };
    let r = start_terminal_session(&store, "b", 80, 24).unwrap();
    assert_eq!(r.container_name, "clawpier-b");
    assert_eq!(r.cmd, ["/bin/bash"]);
    assert_eq!(r.env, ["TERM=xterm-256color", "PS1=\\u@\\h:\\w\\$ "]);
    assert_eq!((r.cols, r.rows), (80, 24));
    assert_eq!(r.output_event, "terminal-output-b");
    assert_eq!(r.disconnect_event, "terminal-disconnect-b");
    assert!(matches!(start_terminal_session(&store, "c", 1, 1), Err(AppError::BotNotFound(_))));
}

#[test]
fn output_is_decoded() {
    assert_eq!(terminal_output("ls\r\n".as_bytes()), Some("ls\r\n".to_string()));
    assert_eq!(terminal_output(&[0xe2, 0x98]), Some("\u{fffd}".to_string()));
    assert_eq!(terminal_output(&[]), None);
    assert_eq!(terminal_text(String::new()), None);
    assert_eq!(STREAM_ENDED, "stream_ended");
}

#[test]
fn shell_is_killed_if_it_is_known() {
    let (container, args) = stop_terminal_session(Some(4711), Some("c1")).unwrap();
    assert_eq!(container, "c1");
    assert_eq!(args, ["kill", "-TERM", "4711"]);
    let (_, args) = stop_terminal_session(Some(i64::MAX), Some("c1")).unwrap();
    assert_eq!(args[2], "9223372036854775807");
    assert!(stop_terminal_session(Some(0), Some("c1")).is_none());
    assert!(stop_terminal_session(Some(-1), Some("c1")).is_none());
    assert!(stop_terminal_session(None, Some("c1")).is_none());
    assert!(stop_terminal_session(Some(1), None).is_none());
}

#[test]
fn session_has_to_be_active() {
    assert_eq!(active_session(Some(3), "b").unwrap(), 3);
    assert_eq!(
        other(active_session::<u8>(None, "b").unwrap_err()),
        "No active terminal session for bot b"
    );
}

#[test]
fn failures_of_a_terminal_are_reported() {
    assert_eq!(
        other(terminal_failure(TerminalStep::Write, "e")),
        "Failed to write to terminal: e"
    );
    assert_eq!(other(terminal_failure(TerminalStep::Flush, "e")), "Failed to flush terminal: e");
    assert_eq!(other(terminal_failure(TerminalStep::Resize, "e")), "Failed to resize terminal: e");
    assert_eq!(other(detached_terminal()), "Exec started in detached mode unexpectedly");
}
