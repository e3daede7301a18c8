use clawpier::bots::{BotProfile, BotStore};
use clawpier::chat::{
    assistant_message, build_agent_chat_cmd, chat_message, send_chat_message,
    strip_hermes_metadata, user_message, ChatStream,
};
use clawpier::error::AppError;
use clawpier::models::AgentType;

#[test]
fn build_agent_chat_cmd_openclaw_basic() {
    let cmd = build_agent_chat_cmd(&AgentType::OpenClaw, "session-abc", "Hello world");
    assert_eq!(cmd[0], "/usr/local/bin/openclaw");
    assert_eq!(cmd[1], "agent");
    assert_eq!(cmd[2], "--local");
    assert_eq!(cmd[3], "--agent");
    assert_eq!(cmd[4], "main");
    assert_eq!(cmd[5], "--session-id");
    assert_eq!(cmd[6], "clawpier-session-abc");
    assert_eq!(cmd[7], "--message");
    assert_eq!(cmd[8], "Hello world");
    assert_eq!(cmd.len(), 9);
}

#[test]
fn build_agent_chat_cmd_hermes_basic() {
    let cmd = build_agent_chat_cmd(&AgentType::Hermes, "session-abc", "Hello world");
    assert_eq!(cmd[0], "/usr/local/bin/hermes");
    assert_eq!(cmd[1], "chat");
    assert_eq!(cmd[2], "-Q");
    assert_eq!(cmd[3], "-q");
    assert_eq!(cmd[4], "Hello world");
    assert_eq!(cmd.len(), 5);
}

#[test]
fn build_agent_chat_cmd_openclaw_uses_local_flag() {
    let cmd = build_agent_chat_cmd(&AgentType::OpenClaw, "s1", "hi");
    assert!(
        cmd.contains(&"--local".to_string()),
        "must use --local to avoid gateway dependency"
    );
}

#[test]
fn build_agent_chat_cmd_hermes_uses_absolute_path() {
    let cmd = build_agent_chat_cmd(&AgentType::Hermes, "s1", "hi");
    assert_eq!(
        cmd[0], "/usr/local/bin/hermes",
        "Hermes must use absolute path so Docker exec finds it without shell PATH expansion"
    );
}

#[test]
fn build_agent_chat_cmd_hermes_no_local_flag() {
    let cmd = build_agent_chat_cmd(&AgentType::Hermes, "s1", "hi");
    assert!(
        !cmd.contains(&"--local".to_string()),
        "Hermes should not use --local flag"
    );
}

#[test]
fn build_agent_chat_cmd_session_id_prefixed() {
    let cmd = build_agent_chat_cmd(&AgentType::OpenClaw, "my-session", "hi");
    let session_arg = cmd.iter().skip_while(|a| *a != "--session-id").nth(1).unwrap();
    assert!(
        session_arg.starts_with("clawpier-"),
        "session id must be prefixed: {}",
        session_arg
    );
}

#[test]
fn build_agent_chat_cmd_hermes_no_session_flag() {
    let cmd = build_agent_chat_cmd(&AgentType::Hermes, "my-session", "hi");
    assert!(
        !cmd.contains(&"--resume".to_string()),
        "Hermes should not pass --resume (sessions are managed by Hermes internally)"
    );
}

#[test]
fn build_agent_chat_cmd_preserves_message_with_special_chars() {
    let msg = "Hello! How are you? I'm fine & great <tag> \"quoted\"";
    let cmd = build_agent_chat_cmd(&AgentType::OpenClaw, "s1", msg);
    assert_eq!(cmd.last().unwrap(), msg);
}

#[test]
fn build_agent_chat_cmd_empty_message() {
    let cmd = build_agent_chat_cmd(&AgentType::OpenClaw, "s1", "");
    assert_eq!(cmd.last().unwrap(), "");
}

#[test]
fn build_agent_chat_cmd_multiline_message() {
    let msg = "line1\nline2\nline3";
    let cmd = build_agent_chat_cmd(&AgentType::OpenClaw, "s1", msg);
    assert_eq!(cmd.last().unwrap(), msg, "multiline messages must be preserved");
}

#[test]
fn build_agent_chat_cmd_different_sessions_produce_different_ids() {
    let cmd1 = build_agent_chat_cmd(&AgentType::OpenClaw, "aaa", "hi");
    let cmd2 = build_agent_chat_cmd(&AgentType::OpenClaw, "bbb", "hi");
    let sid1 = cmd1.iter().skip_while(|a| *a != "--session-id").nth(1).unwrap();
    let sid2 = cmd2.iter().skip_while(|a| *a != "--session-id").nth(1).unwrap();
    assert_ne!(sid1, sid2, "different sessions must yield different session ids");
}

#[test]
fn strip_hermes_metadata_box_header_and_session() {
    let raw = "\u{256D}\u{2500} \u{2695} Hermes \u{2500}\u{2500}\u{2500}\u{256E}\ngm! How can I help?\n\nsession_id: 20260410_143433_44d6d2";
    assert_eq!(strip_hermes_metadata(raw), "gm! How can I help?");
}

#[test]
fn strip_hermes_metadata_gt_header_and_session() {
    let raw = "> Hermes\n\nHello! How can I help?\n\nsession_id: 20260410_143433_44d6d2";
    assert_eq!(strip_hermes_metadata(raw), "Hello! How can I help?");
}

#[test]
fn strip_hermes_metadata_arrow_header() {
    let raw = "\u{2190} 1 Hermes\n\ngood morning!\n\nsession_id: 20260410_143433_44d6d2";
    assert_eq!(strip_hermes_metadata(raw), "good morning!");
}

#[test]
fn strip_hermes_metadata_no_metadata() {
    let raw = "Just a plain response";
    assert_eq!(strip_hermes_metadata(raw), "Just a plain response");
}

#[test]
fn strip_hermes_metadata_only_header() {
    let raw = "\u{256D}\u{2500} \u{2695} Hermes \u{2500}\u{256E}\n\nSome content here";
    assert_eq!(strip_hermes_metadata(raw), "Some content here");
}

#[test]
fn strip_hermes_metadata_only_session() {
    let raw = "Some content\n\nsession_id: abc123";
    assert_eq!(strip_hermes_metadata(raw), "Some content");
}

#[test]
fn strip_hermes_metadata_multiline_content() {
    let raw = "\u{256D}\u{2500} \u{2695} Hermes \u{2500}\u{256E}\nLine 1\nLine 2\nLine 3\n\nsession_id: xyz";
    assert_eq!(strip_hermes_metadata(raw), "Line 1\nLine 2\nLine 3");
}

#[test]
fn strip_hermes_metadata_empty_input() {
    assert_eq!(strip_hermes_metadata(""), "");
}

// ── Messages ─────────────────────────────────────────────────────────

fn is_random_id(id: &str) -> bool {
    let chars: Vec<char> = id.chars().collect();
    chars.len() == 36
        && chars.iter().enumerate().all(|(i, c)| match i {
            8 | 13 | 18 | 23 => *c == '-',
            14 => *c == '4',
            19 => "89ab".contains(*c),
            _ => c.is_ascii_digit() || ('a'..='f').contains(c),
        })
}

#[test]
fn user_message_has_role_content_id_and_time() {
    let a = user_message("hello");
    let b = user_message("hello");
    assert_eq!(a.role, "user");
    assert_eq!(a.content, "hello");
    assert!(is_random_id(&a.id), "{}", a.id);
    assert_ne!(a.id, b.id);
    assert!(a.timestamp.ends_with("+00:00"), "{}", a.timestamp);
    let time: Vec<char> = a.timestamp.chars().collect();
    let shape: String =
        time[..19].iter().map(|c| if c.is_ascii_digit() { '0' } else { *c }).collect();
    assert_eq!(shape, "0000-00-00T00:00:00");
    assert!([25, 29, 32, 35].contains(&time.len()), "{}", a.timestamp);
}

#[test]
fn assistant_message_has_its_role() {
    let m = assistant_message("reply");
    assert_eq!(m.role, "assistant");
    assert_eq!(m.content, "reply");
    assert!(is_random_id(&m.id));
}

#[test]
fn chat_message_keeps_its_parts() {
    let m = chat_message("id".to_string(), "user", "text", "now".to_string());
    assert_eq!((m.id.as_str(), m.role.as_str()), ("id", "user"));
    assert_eq!((m.content.as_str(), m.timestamp.as_str()), ("text", "now"));
}

// ── Streams ──────────────────────────────────────────────────────────

#[test]
fn openclaw_output_is_sent_on_at_once() {
    let mut s = ChatStream::new(AgentType::OpenClaw, "s1");
    let c = s.on_output("Hel".as_bytes()).unwrap();
    assert_eq!((c.session_id.as_str(), c.content.as_str(), c.done), ("s1", "Hel", false));
    s.on_error_output("warning".as_bytes());
    assert_eq!(s.on_output("lo".as_bytes()).unwrap().content, "lo");
    assert!(s.on_end().is_none());
    assert_eq!(s.response, "Hello");
    assert_eq!(s.reply(), Some("Hello".to_string()));
}

#[test]
fn empty_output_is_not_sent_on() {
    let mut s = ChatStream::new(AgentType::OpenClaw, "s1");
    assert!(s.on_output(&[]).is_none());
    assert!(!s.answered);
    assert!(s.on_end().is_none());
    assert_eq!(s.reply(), None);
}

#[test]
fn bad_bytes_are_replaced() {
    let mut s = ChatStream::new(AgentType::OpenClaw, "s1");
    assert_eq!(s.on_output(&[0x61, 0xff]).unwrap().content, "a\u{fffd}");
    let mut t = ChatStream::new(AgentType::OpenClaw, "s1");
    t.on_error_output(&[0xff]);
    assert_eq!(t.errors, "\u{fffd}");
}

#[test]
fn hermes_output_is_held_back_and_stripped() {
    let mut s = ChatStream::new(AgentType::Hermes, "s2");
    assert!(s.on_output("> Hermes\n\nHi".as_bytes()).is_none());
    assert!(s.on_output_text(" there\n\nsession_id: x").is_none());
    let c = s.on_end().unwrap();
    assert_eq!((c.session_id.as_str(), c.content.as_str(), c.done), ("s2", "Hi there", false));
    assert_eq!(s.response, "Hi there");
}

#[test]
fn hermes_output_of_metadata_alone_is_no_response() {
    let mut s = ChatStream::new(AgentType::Hermes, "s2");
    s.on_output_text("> Hermes\nsession_id: x\n");
    s.on_error_text("ignored");
    assert!(s.on_end().is_none());
    assert_eq!(s.response, "");
    assert_eq!(s.reply(), None);
}

#[test]
fn errors_are_shown_if_nothing_else_came() {
    for agent in [AgentType::OpenClaw, AgentType::Hermes] {
        let mut s = ChatStream::new(agent, "s3");
        s.on_error_text("no ");
        s.on_error_text("key\n");
        assert_eq!(s.on_end().unwrap().content, "no key\n");
        assert_eq!(s.reply(), Some("no key".to_string()));
    }
}

#[test]
fn failures_become_the_response() {
    let mut s = ChatStream::new(AgentType::OpenClaw, "s4");
    s.on_detached();
    assert_eq!(s.response, "Error: exec started in detached mode");
    s.on_start_failure("gone");
    assert_eq!(s.response, "Error: gone");
    let c = s.on_create_failure("no container");
    assert_eq!(c.content, "Error: no container");
    assert_eq!(s.response, "Error: no container");
    let done = s.done_chunk();
    assert_eq!((done.session_id.as_str(), done.content.as_str(), done.done), ("s4", "", true));
}

#[test]
fn what_is_sent_on_is_the_response() {
    let pieces = [("> Hermes\n", true), ("oops", false), ("Hel", true), ("", true), ("lo", true)];
    for agent in [AgentType::OpenClaw, AgentType::Hermes] {
        for n in 0..=pieces.len() {
            let mut s = ChatStream::new(agent, "s");
            let mut sent = String::new();
            for (piece, is_output) in &pieces[..n] {
                if *is_output {
                    if let Some(c) = s.on_output(piece.as_bytes()) {
                        sent.push_str(&c.content);
                    }
                } else {
                    s.on_error_output(piece.as_bytes());
                }
            }
            if let Some(c) = s.on_end() {
                sent.push_str(&c.content);
            }
            assert_eq!(sent, s.response);
        }
    }
}

#[test]
fn message_is_sent_to_the_bots_container() {
    let store = BotStore {
        bots: vec![BotProfile {
            id: "b1".to_string(),
            name: "Bot".to_string(),
            container_name: "clawpier-b1".to_string(),
            agent_type: AgentType::Hermes,
            workspace_path: None,
        }],
    };
    let r = send_chat_message(&store, "b1", "s", "hi").unwrap();
    assert_eq!(r.container_name, "clawpier-b1");
    assert_eq!(r.args, ["/usr/local/bin/hermes", "chat", "-Q", "-q", "hi"]);
    assert_eq!(r.event, "chat-response-b1");
    assert_eq!(r.stream.session_id, "s");
    assert_eq!(r.stream.agent_type, AgentType::Hermes);
    assert!(matches!(
        send_chat_message(&store, "b2", "s", "hi"),
        Err(AppError::BotNotFound(id)) if id == "b2"
    ));
}

#[test]
fn stripping_twice_is_stripping_once() {
    let raw = "\u{256D}\u{2500} Hermes\n\none\n\n  two\n\u{2570}\u{2500}\nsession_id: 1\n";
    let once = strip_hermes_metadata(raw);
    assert_eq!(once, "one\n\n  two");
    assert_eq!(strip_hermes_metadata(&once), once);
}

#[test]
fn carriage_returns_of_line_ends_are_dropped() {
    assert_eq!(strip_hermes_metadata("a\r\nb\r\n"), "a\nb");
    assert_eq!(strip_hermes_metadata("a\r\r\nb"), "a\r\nb");
    assert_eq!(strip_hermes_metadata("a\r"), "a\r");
}

#[test]
fn every_kind_of_header_and_footer_is_stripped() {
    assert_eq!(strip_hermes_metadata("\u{2502} x\n\u{2570} y\n \t\nbody\n\u{256D}\n"), "body");
    assert_eq!(strip_hermes_metadata("> prompt\nbody\n> quote"), "body\n> quote");
    assert_eq!(strip_hermes_metadata(">no prompt"), ">no prompt");
    assert_eq!(strip_hermes_metadata("body\n  session_id: z  "), "body");
}
