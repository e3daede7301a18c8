use clawpier::error::AppError;
use clawpier::lifecycle::{
    stop_was_slow, Announcement, HealthAction, HealthMonitor, Restart, RestartStage,
};
use clawpier::models::{ExecResult, HealthCheckConfig};
use clawpier::ports::{check_port_available, get_system_resources, suggest_port};

fn said(a: &Announcement) -> (&str, &str) {
    (a.event.as_str(), a.word.as_str())
}

#[test]
fn restart_goes_through_its_phases() {
    let (mut restart, first) = Restart::begin("b");
    assert_eq!(said(&first), ("bot-restart-phase-b", "stopping"));
    assert_eq!(said(&restart.on_stopped()), ("bot-restart-phase-b", "stopped"));
    assert_eq!(said(&restart.on_looked_up(true).unwrap()), ("bot-restart-phase-b", "starting"));
    let (running, disconnect) = restart.on_started::<AppError>(Ok(())).unwrap();
    assert_eq!(said(&running), ("bot-restart-phase-b", "running"));
    assert_eq!(said(&disconnect), ("terminal-disconnect-b", "restart"));
    assert_eq!(restart.stage, RestartStage::Running);
}

#[test]
fn restart_ends_if_the_bot_is_gone() {
    let (mut restart, _) = Restart::begin("b");
    restart.on_stopped();
    assert!(matches!(restart.on_looked_up(false), Err(AppError::BotNotFound(id)) if id == "b"));
    assert_eq!(restart.stage, RestartStage::Failed);
}

#[test]
fn restart_ends_if_the_container_does_not_start() {
    let (mut restart, _) = Restart::begin("b");
    restart.on_stopped();
    restart.on_looked_up(true).unwrap();
    let r = restart.on_started(Err(AppError::Other("no image".to_string())));
    assert!(matches!(r, Err(AppError::Other(m)) if m == "no image"));
    assert_eq!(restart.stage, RestartStage::Failed);
}

#[test]
fn slow_stops_are_noticed() {
    assert!(!stop_was_slow(15));
    assert!(stop_was_slow(16));
}

fn monitor(retries: u32, auto_restart: bool) -> HealthMonitor {
    let config = HealthCheckConfig {
        command: vec!["true".to_string()],
        interval_secs: 5,
        retries,
        auto_restart,
    };
    HealthMonitor::new("b", &config)
}

fn exit(code: i64) -> Option<ExecResult> {
    Some(ExecResult { output: format!("exit {}", code), exit_code: Some(code) })
}

#[test]
fn health_is_restored_by_one_success() {
    let mut m = monitor(3, true);
    let (u, a) = m.on_check(exit(1));
    assert_eq!((u.bot_id.as_str(), u.healthy, u.consecutive_failures), ("b", false, 1));
    assert_eq!(u.last_output.as_deref(), Some("exit 1"));
    assert_eq!(a, HealthAction::Wait);
    let (u, _) = m.on_check(None);
    assert_eq!((u.consecutive_failures, u.last_output), (2, None));
    let (u, a) = m.on_check(exit(0));
    assert_eq!((u.healthy, u.consecutive_failures, a), (true, 0, HealthAction::Wait));
}

#[test]
fn bot_is_restarted_at_the_threshold() {
    let mut m = monitor(3, true);
    let unknown = ExecResult { output: String::new(), exit_code: None };
    assert_eq!(m.on_check(None).1, HealthAction::Wait);
    assert_eq!(m.on_check(Some(unknown)).1, HealthAction::Wait);
    let (u, a) = m.on_check(exit(2));
    assert_eq!((u.consecutive_failures, a), (3, HealthAction::Restart));
}

#[test]
fn full_counter_takes_only_a_success() {
    let mut m = monitor(1, false);
    assert!(m.can_take(&None) && m.can_take(&exit(1)));
    m.consecutive_failures = u32::MAX;
    assert!(!m.can_take(&None) && !m.can_take(&exit(1)));
    assert!(m.can_take(&exit(0)));
    assert_eq!(m.on_check(exit(0)).0.consecutive_failures, 0);
}

#[test]
fn bot_is_not_restarted_unless_wanted() {
    let mut m = monitor(1, false);
    for n in 1..5 {
        let (u, a) = m.on_check(None);
        assert_eq!((u.consecutive_failures, a), (n, HealthAction::Wait));
    }
}

// ── Ports and resources ──────────────────────────────────────────────

#[test]
fn check_port_available_returns_result() {
    let result = check_port_available(0, true);
    assert_eq!(result.port, 0);
    assert!(result.available);
}

#[test]
fn check_port_available_high_port() {
    let result = check_port_available(59999, false);
    assert_eq!(result.port, 59999);
    assert!(!result.available);
}

#[test]
fn suggest_port_returns_in_range() {
    for free in [50000, 50001, 50099] {
        let port = suggest_port(50000, |p| p >= free);
        assert!(port >= 50000 && port <= 50099);
        assert_eq!(port, free);
    }
}

#[test]
fn suggest_port_near_max() {
    for free in [65500, 65534, 65535] {
        let port = suggest_port(65500, |p| p == free);
        assert!(port >= 65500);
        assert_eq!(port, free);
    }
}

#[test]
fn suggest_port_falls_back_to_the_start() {
    assert_eq!(suggest_port(50000, |p| p >= 50100), 50000);
    assert_eq!(suggest_port(65535, |_| false), 65535);
    assert_eq!(suggest_port(0, |p| p == 99), 99);
}

#[test]
fn get_system_resources_returns_nonzero() {
    let sys = sysinfo::System::new_with_specifics(
        sysinfo::RefreshKind::new()
            .with_cpu(sysinfo::CpuRefreshKind::new())
            .with_memory(sysinfo::MemoryRefreshKind::everything()),
    );
    let res = get_system_resources(sys.cpus().len(), sys.total_memory());
    assert!(res.cpu_cores > 0, "CPU cores must be > 0");
    assert!(res.memory_bytes > 0, "Memory bytes must be > 0");
}

#[test]
fn resources_are_kept() {
    let res = get_system_resources(8, 1 << 40);
    assert_eq!((res.cpu_cores, res.memory_bytes), (8, 1 << 40));
    assert_eq!(get_system_resources(usize::MAX, 0).cpu_cores, u32::MAX);
}
