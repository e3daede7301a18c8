use clawpier::bots::{
    auto_start_bots, auto_start_pause, choose_settings, create_bot, exec_command, list_bots,
    pull_image, require_bot, resolve_container_and_agent, resolve_workspace_path,
    start_log_stream, start_stats_stream, validate_imported_bots, BotProfile, BotSettings,
    BotStatus, BotStore, StartOutcome,
};
use clawpier::error::{AppError, IoErrorKind};
use clawpier::events::{
    chat_response_event, image_pull_event, log_event, restart_phase_event, stats_event,
    terminal_disconnect_event, terminal_output_event, HEALTH_EVENT,
};
use clawpier::models::AgentType;
use clawpier::validation::WorkspaceFacts;

fn bot(id: &str, agent_type: AgentType, workspace: Option<&str>) -> BotProfile {
    BotProfile {
        id: id.to_string(),
        name: format!("Bot {}", id),
        container_name: format!("clawpier-{}", id),
        agent_type,
        workspace_path: workspace.map(|w| w.to_string()),
    }
}

fn store() -> BotStore {
    BotStore {
        bots: vec![
            bot("a", AgentType::OpenClaw, Some("/home/u/a")),
            bot("b", AgentType::Hermes, None),
            bot("a", AgentType::Hermes, None),
        ],
    }
}

#[test]
fn bots_are_found_by_id() {
    let s = store();
    assert_eq!(s.get_by_id("b").unwrap().name, "Bot b");
    assert!(s.get_by_id("c").is_none());
    assert_eq!(require_bot(&s, "a").unwrap().agent_type, AgentType::OpenClaw);
    assert!(matches!(require_bot(&s, "c"), Err(AppError::BotNotFound(id)) if id == "c"));
}

#[test]
fn container_and_agent_are_resolved() {
    let (container, agent) = resolve_container_and_agent(&store(), "b").unwrap();
    assert_eq!((container.as_str(), agent), ("clawpier-b", AgentType::Hermes));
    assert!(matches!(
        resolve_container_and_agent(&store(), ""),
        Err(AppError::BotNotFound(id)) if id.is_empty()
    ));
}

#[test]
fn workspace_is_resolved() {
    assert_eq!(resolve_workspace_path(&store(), "a").unwrap(), "/home/u/a");
    match resolve_workspace_path(&store(), "b") {
        Err(AppError::Io(kind, message)) => {
            assert_eq!(kind, IoErrorKind::NotFound);
            assert_eq!(message, "No workspace path configured for this bot");
        }
        other => panic!("{:?}", other),
    }
    assert!(matches!(resolve_workspace_path(&store(), "c"), Err(AppError::BotNotFound(_))));
}

#[test]
fn bots_are_listed_with_their_status() {
    let bots = vec![("a".to_string(), 1), ("b".to_string(), 2), ("a".to_string(), 3)];
    let reports = [
        ("a".to_string(), BotStatus::Reported("running".to_string())),
        ("c".to_string(), BotStatus::Stopped),
        ("a".to_string(), BotStatus::Stopped),
    ];
    let listed = list_bots(bots, &reports);
    assert_eq!(listed.iter().map(|b| b.profile).collect::<Vec<i32>>(), [1, 2, 3]);
    assert!(matches!(&listed[0].status, BotStatus::Reported(s) if s == "running"));
    assert!(matches!(listed[1].status, BotStatus::Stopped));
    assert!(matches!(&listed[2].status, BotStatus::Reported(s) if s == "running"));
}

fn defaults() -> BotSettings<u8, char> {
    BotSettings { cpu_limit: Some(1), memory_limit: None, network_mode: 'd' }
}

#[test]
fn settings_asked_for_replace_the_given_ones() {
    let kept = choose_settings(defaults(), None, None, None);
    assert_eq!((kept.cpu_limit, kept.memory_limit, kept.network_mode), (Some(1), None, 'd'));
    let chosen = choose_settings(defaults(), Some(2), Some(3), Some('n'));
    assert_eq!((chosen.cpu_limit, chosen.memory_limit, chosen.network_mode), (Some(2), Some(3), 'n'));
}

#[test]
fn new_bots_are_checked() {
    let bad = Some(WorkspaceFacts { path: "/x".to_string(), canonical: None, is_dir: false });
    match create_bot(&bad, Some(false), defaults(), None, Some(1), None) {
        Err(AppError::Validation(m)) => assert_eq!(m, "Workspace path does not exist: /x"),
        other => panic!("{:?}", other),
    }
    match create_bot(&None, Some(false), defaults(), None, Some(1), None) {
        Err(AppError::Validation(m)) => assert_eq!(m, "CPU limit must be between 0.01 and 128 cores"),
        other => panic!("{:?}", other),
    }
    let settings = create_bot(&None, Some(true), defaults(), Some(9), Some(4194304), None).unwrap();
    assert_eq!((settings.cpu_limit, settings.memory_limit), (Some(9), Some(4194304)));
}

#[test]
fn imported_bots_need_names() {
    assert!(validate_imported_bots(&[]).is_ok());
    assert!(validate_imported_bots(&["a".to_string(), " b".to_string()]).is_ok());
    match validate_imported_bots(&["a".to_string(), " \t".to_string()]) {
        Err(AppError::Validation(m)) => assert_eq!(m, "Imported bot has empty name"),
        other => panic!("{:?}", other),
    }
}

#[test]
fn automatic_starts_are_spaced_and_reported() {
    assert_eq!(auto_start_pause(0), 0);
    assert_eq!(auto_start_pause(1), 500);
    assert_eq!(auto_start_pause(7), 500);
    let outcomes = [
        StartOutcome { name: "A".to_string(), failure: Some("no image".to_string()) },
        StartOutcome { name: "B".to_string(), failure: None },
        StartOutcome { name: "C".to_string(), failure: Some(String::new()) },
    ];
    assert_eq!(auto_start_bots(&outcomes), ["A: no image", "C: "]);
}

#[test]
fn commands_are_run_in_the_bots_container() {
    let request = exec_command(&store(), "b", vec!["ls".to_string(), "-l".to_string()]).unwrap();
    assert_eq!(request.container_name, "clawpier-b");
    assert_eq!(request.args, ["ls", "-l"]);
    assert_eq!(request.timeout_secs, None);
    // An empty command is refused before the bot is looked up.
    match exec_command(&store(), "c", vec![]) {
        Err(AppError::Validation(m)) => assert_eq!(m, "Command must not be empty"),
        other => panic!("{:?}", other),
    }
    assert!(matches!(
        exec_command(&store(), "c", vec!["ls".to_string()]),
        Err(AppError::BotNotFound(_))
    ));
}

#[test]
fn streams_are_named_after_the_bot() {
    let stats = start_stats_stream(&store(), "a").unwrap();
    assert_eq!((stats.container_name.as_str(), stats.event.as_str()), ("clawpier-a", "container-stats-a"));
    let log = start_log_stream(&store(), "a").unwrap();
    assert_eq!((log.container_name.as_str(), log.event.as_str()), ("clawpier-a", "container-log-a"));
    assert!(matches!(start_stats_stream(&store(), "x"), Err(AppError::BotNotFound(_))));
    assert!(matches!(start_log_stream(&store(), "x"), Err(AppError::BotNotFound(_))));
}

#[test]
fn downloads_are_named_after_the_image() {
    assert_eq!(
        pull_image("ghcr.io/openclaw/openclaw:latest").unwrap(),
        "image-pull-progress-ghcr.io-openclaw-openclaw-latest"
    );
    assert!(matches!(pull_image("evil/x:1"), Err(AppError::Validation(_))));
}

#[test]
fn events_have_their_names() {
    assert_eq!(restart_phase_event("x"), "bot-restart-phase-x");
    assert_eq!(terminal_disconnect_event("x"), "terminal-disconnect-x");
    assert_eq!(terminal_output_event("x"), "terminal-output-x");
    assert_eq!(chat_response_event("x"), "chat-response-x");
    assert_eq!(stats_event("x"), "container-stats-x");
    assert_eq!(log_event("x"), "container-log-x");
    assert_eq!(image_pull_event("a/b:c"), "image-pull-progress-a-b-c");
    assert_eq!(HEALTH_EVENT, "bot-health-update");
    assert_ne!(log_event("x"), log_event("y"));
}
