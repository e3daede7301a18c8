use clawpier::error::AppError;
use clawpier::models::{EnvVar, HealthCheckConfig, PortMapping};
use clawpier::validation::{
    set_workspace_path, validate_env_key, validate_env_vars, validate_health_check, validate_image_name,
    validate_port_mappings, validate_resource_limits, validate_skill_name,
    validate_workspace_path, WorkspaceFacts,
};

#[test]
fn validate_skill_name_valid() {
    assert!(validate_skill_name("my-skill").is_ok());
    assert!(validate_skill_name("skill_v2").is_ok());
    assert!(validate_skill_name("@scope/package").is_ok());
    assert!(validate_skill_name("simple").is_ok());
}

#[test]
fn validate_skill_name_empty() {
    assert!(validate_skill_name("").is_err());
}

#[test]
fn validate_skill_name_rejects_special_chars() {
    assert!(validate_skill_name("skill;rm -rf").is_err());
    assert!(validate_skill_name("skill$(cmd)").is_err());
    assert!(validate_skill_name("skill`whoami`").is_err());
    assert!(validate_skill_name("a|b").is_err());
}

#[test]
fn validate_skill_name_allows_dots() {
    assert!(validate_skill_name("weather-1.0.0").is_ok());
}

#[test]
fn validate_skill_name_allows_at_scope() {
    assert!(validate_skill_name("@openclaw/weather").is_ok());
}

#[test]
fn validate_skill_name_rejects_path_traversal() {
    assert!(validate_skill_name("../etc/passwd").is_err());
    assert!(validate_skill_name("skill/../../../root").is_err());
}

#[test]
fn validate_skill_name_rejects_newlines() {
    assert!(validate_skill_name("skill\nrm -rf /").is_err());
}

#[test]
fn validate_skill_name_rejects_ampersand() {
    assert!(validate_skill_name("skill&whoami").is_err());
}

#[test]
fn validate_hermes_image_trusted() {
    assert!(validate_image_name("nousresearch/hermes-agent:latest").is_ok());
    assert!(validate_image_name("nousresearch/hermes-agent").is_ok());
}

#[test]
fn validate_openclaw_image_still_trusted() {
    assert!(validate_image_name("ghcr.io/openclaw/openclaw:latest").is_ok());
}

#[test]
fn validate_untrusted_image_rejected() {
    assert!(validate_image_name("malicious/image:latest").is_err());
    assert!(validate_image_name("").is_err());
}

#[test]
fn validate_image_name_rejects_similar_prefix() {
    // Must not match repos that share a prefix with trusted entries
    assert!(validate_image_name("nousresearch/hermes-agent-evil:latest").is_err());
    assert!(validate_image_name("busybox-evil:latest").is_err());
}

fn rejected(r: Result<(), AppError>) -> String {
    match r {
        Err(AppError::Validation(message)) => message,
        other => panic!("not a validation error: {:?}", other),
    }
}

#[test]
fn skill_names_may_have_letters_of_any_script_but_no_spaces() {
    assert!(validate_skill_name("naïve-skill").is_ok());
    assert_eq!(rejected(validate_skill_name("naïve skill")), "Invalid skill name: 'naïve skill'");
    assert!(validate_skill_name("my skill").is_err());
    assert!(validate_skill_name(" ").is_err());
    assert!(validate_skill_name("天気").is_ok());
    assert_eq!(rejected(validate_skill_name("")), "Skill name must not be empty");
    assert_eq!(rejected(validate_skill_name("a..b")), "Invalid skill name: 'a..b'");
    assert_eq!(rejected(validate_skill_name("☔")), "Invalid skill name: '☔'");
    for c in " !\"#$%&'()*+,:;<=>?[\\]^`{|}~\t\n\0".chars() {
        assert!(validate_skill_name(&format!("a{}b", c)).is_err(), "{:?}", c);
    }
}

#[test]
fn image_names_are_held_to_the_trusted_ones() {
    assert_eq!(rejected(validate_image_name("")), "Image name must not be empty");
    assert_eq!(
        rejected(validate_image_name("evil/busybox")),
        "Image 'evil/busybox' is not from a trusted registry"
    );
    assert!(validate_image_name("busybox").is_ok());
    assert!(validate_image_name("busybox:1.36").is_ok());
    assert!(validate_image_name("docker.io/library/alpine").is_ok());
    assert!(validate_image_name("docker.io/evil/alpine").is_err());
    assert!(validate_image_name("busyboxé").is_err());
}

fn env(key: &str) -> EnvVar {
    EnvVar { key: key.to_string(), value: "v".to_string() }
}

#[test]
fn blocked_environment_variables_are_rejected_in_any_case() {
    for key in [
        "PATH", "LD_PRELOAD", "LD_LIBRARY_PATH", "DYLD_INSERT_LIBRARIES", "DYLD_LIBRARY_PATH",
        "NODE_OPTIONS", "PYTHONPATH", "RUBYLIB", "PERL5LIB", "CLASSPATH", "HOME", "USER", "SHELL",
    ] {
        assert!(validate_env_vars(&[env(key)]).is_err(), "{}", key);
        assert!(validate_env_vars(&[env(&key.to_lowercase())]).is_err(), "{}", key);
    }
    assert_eq!(
        rejected(validate_env_vars(&[env("OK"), env("Path"), env("")])),
        "Environment variable 'Path' is blocked for security reasons"
    );
    // The long s is an S in upper case.
    assert!(validate_env_vars(&[env("\u{17f}hell")]).is_err());
}

#[test]
fn environment_variables_are_judged_by_their_upper_case() {
    assert!(validate_env_key("path", "path").is_ok());
    assert_eq!(
        rejected(validate_env_key("x", "PATH")),
        "Environment variable 'x' is blocked for security reasons"
    );
    assert!(validate_env_key("=", "=").is_err());
}

#[test]
fn broken_environment_variables_are_rejected() {
    assert!(validate_env_vars(&[]).is_ok());
    assert!(validate_env_vars(&[env("API_KEY"), env("x")]).is_ok());
    assert_eq!(
        rejected(validate_env_vars(&[env("")])),
        "Invalid environment variable key: ''"
    );
    assert_eq!(
        rejected(validate_env_vars(&[env("A=B")])),
        "Invalid environment variable key: 'A=B'"
    );
    assert!(validate_env_vars(&[env("A\0")]).is_err());
}

fn mapping(container_port: u16, host_port: u16, protocol: &str) -> PortMapping {
    PortMapping { container_port, host_port, protocol: protocol.to_string() }
}

#[test]
fn port_mappings_are_checked_in_order() {
    assert!(validate_port_mappings(&[]).is_ok());
    assert!(validate_port_mappings(&[mapping(1, 1024, "tcp"), mapping(65535, 65535, "udp")]).is_ok());
    assert_eq!(
        rejected(validate_port_mappings(&[mapping(80, 8080, "tcp"), mapping(0, 80, "TCP")])),
        "Invalid protocol 'TCP': must be 'tcp' or 'udp'"
    );
    for m in [mapping(0, 8080, "tcp"), mapping(80, 0, "udp")] {
        assert_eq!(
            rejected(validate_port_mappings(&[m])),
            "Port numbers must be between 1 and 65535"
        );
    }
    assert_eq!(
        rejected(validate_port_mappings(&[mapping(80, 1023, "tcp")])),
        "Host port 1023 is privileged (< 1024); use a port >= 1024"
    );
}

#[test]
fn resource_limits_are_checked() {
    assert!(validate_resource_limits(None, None).is_ok());
    assert!(validate_resource_limits(Some(true), Some(4194304)).is_ok());
    assert_eq!(
        rejected(validate_resource_limits(Some(false), Some(0))),
        "CPU limit must be between 0.01 and 128 cores"
    );
    assert_eq!(
        rejected(validate_resource_limits(Some(true), Some(4194303))),
        "Memory limit must be at least 4 MB"
    );
}

#[test]
fn workspace_paths_are_checked() {
    assert_eq!(
        rejected(validate_workspace_path("/nowhere", None, false)),
        "Workspace path does not exist: /nowhere"
    );
    assert_eq!(
        rejected(validate_workspace_path("/x/../etc", Some("/etc"), true)),
        "Workspace path '/etc' is a sensitive system directory"
    );
    assert!(validate_workspace_path("/", Some("/"), true).is_err());
    assert_eq!(
        rejected(validate_workspace_path("/home/u/f", Some("/home/u/f"), false)),
        "Workspace path must be a directory"
    );
    assert!(validate_workspace_path("/home/u", Some("/home/u"), true).is_ok());
    assert!(validate_workspace_path("/etc/x", Some("/etc/x"), true).is_ok());
}

#[test]
fn choice_of_a_workspace_may_be_none() {
    assert!(set_workspace_path(&None).is_ok());
    let facts = WorkspaceFacts {
        path: "/tmp".to_string(),
        canonical: Some("/tmp".to_string()),
        is_dir: true,
    };
    assert!(set_workspace_path(&Some(facts)).is_err());
}

fn health(command: &[&str], interval_secs: u64, retries: u32) -> Option<HealthCheckConfig> {
    Some(HealthCheckConfig {
        command: command.iter().map(|s| s.to_string()).collect(),
        interval_secs,
        retries,
        auto_restart: true,
    })
}

#[test]
fn health_checks_are_checked() {
    assert!(validate_health_check(&None).is_ok());
    assert!(validate_health_check(&health(&[" ", "curl"], 5, 1)).is_ok());
    for command in [&[][..], &["", " \t"][..]] {
        assert_eq!(
            rejected(validate_health_check(&health(command, 1, 0))),
            "Health check command must not be empty"
        );
    }
    assert_eq!(
        rejected(validate_health_check(&health(&["x"], 4, 0))),
        "Health check interval must be at least 5 seconds"
    );
    assert_eq!(
        rejected(validate_health_check(&health(&["x"], 5, 0))),
        "Health check retries must be at least 1"
    );
}
