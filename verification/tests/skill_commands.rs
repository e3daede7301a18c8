use clawpier::bots::{BotProfile, BotStore, ExecOutcome, Step};
use clawpier::error::AppError;
use clawpier::models::{AgentType, ExecResult};
use clawpier::skill_commands::{
    check_clawhub_available, check_clawhub_request, clawhub_inspect_request,
    clawhub_inspect_skill, clawhub_install_skill, clawhub_search_request, clawhub_search_skills,
    clawhub_uninstall_skill, get_skill_requirements, install_clawhub, install_clawhub_request,
    read_skill_report, requirements_report, skill_report_text, skill_requirements_request,
    SkillReport,
};

fn store() -> BotStore {
    let bot = |id: &str, agent_type: AgentType| BotProfile {
        id: id.to_string(),
        name: id.to_string(),
        container_name: format!("c-{}", id),
        agent_type,
        workspace_path: None,
    };
    BotStore { bots: vec![bot("o", AgentType::OpenClaw), bot("h", AgentType::Hermes)] }
}

fn finished(output: &str, exit_code: Option<i64>) -> ExecOutcome {
    ExecOutcome::Finished(ExecResult { output: output.to_string(), exit_code })
}

fn failed() -> ExecOutcome {
    ExecOutcome::Failed(AppError::Other("engine".to_string()))
}

fn invalid<T>(r: Result<T, AppError>) -> String {
    match r {
        Err(AppError::Validation(m)) => m,
        _ => panic!("no validation error"),
    }
}

#[test]
fn search_runs_the_agents_tool() {
    let s = store();
    let r = clawhub_search_request(&s, "o", " ").unwrap();
    assert_eq!((r.container_name.as_str(), r.timeout_secs), ("c-o", Some(30)));
    assert_eq!(r.agent_type, AgentType::OpenClaw);
    assert_eq!(r.args, ["openclaw", "skills", "list"]);
    let r = clawhub_search_request(&s, "h", "").unwrap();
    assert_eq!(r.args, ["/usr/local/bin/hermes", "skills", "list"]);
    let r = clawhub_search_request(&s, "o", " maps ").unwrap();
    assert_eq!(r.args, ["npx", "--yes", "clawhub", "search", " maps ", "--limit", "20"]);
    let r = clawhub_search_request(&s, "h", "maps").unwrap();
    assert_eq!(r.args, ["/usr/local/bin/hermes", "skills", "search", "maps"]);
    assert!(matches!(clawhub_search_request(&s, "x", ""), Err(AppError::BotNotFound(_))));
}

#[test]
fn search_reads_the_tools_output() {
    let r = clawhub_search_skills(AgentType::OpenClaw, "", finished("│ ✓ │ a │ b │ c │", Some(127))).unwrap();
    assert_eq!((r.total, r.skills[0].source.as_str()), (1, "bundled"));
    let r = clawhub_search_skills(AgentType::OpenClaw, "q", finished("a  A  (1)\nb  B", Some(1))).unwrap();
    assert_eq!((r.total, r.skills.len(), r.skills[1].source.as_str()), (2, 2, "clawhub"));
    let table = "│ Name │ X │\n│ a │ b │\n";
    let r = clawhub_search_skills(AgentType::Hermes, " ", finished(table, None)).unwrap();
    assert!(r.skills[0].installed);
    let r = clawhub_search_skills(AgentType::Hermes, "q", finished(table, None)).unwrap();
    assert!(!r.skills[0].installed);
    let r = clawhub_search_skills(AgentType::Hermes, "q", finished("", None)).unwrap();
    assert_eq!((r.total, r.skills.len()), (0, 0));
}

#[test]
fn search_failures_are_reported() {
    let o = AgentType::OpenClaw;
    assert_eq!(
        invalid(clawhub_search_skills(o, "", ExecOutcome::TimedOut)),
        "Skill listing timed out. Try again later."
    );
    assert_eq!(invalid(clawhub_search_skills(o, "q", ExecOutcome::TimedOut)), "Skill search timed out.");
    assert_eq!(
        invalid(clawhub_search_skills(o, "", failed())),
        "Could not list skills. Is the bot running?"
    );
    assert_eq!(
        invalid(clawhub_search_skills(o, "q", failed())),
        "ClawHub search failed. The container may not have network access."
    );
    assert_eq!(
        invalid(clawhub_search_skills(o, "q", finished("", Some(127)))),
        "Skill search CLI is not available in this container."
    );
}

#[test]
fn registry_tool_is_asked_for_its_version() {
    match check_clawhub_request(&store(), "h").unwrap() {
        Step::Answer(answer) => assert_eq!(answer, "hermes-native"),
        other => panic!("{:?}", other),
    }
    match check_clawhub_request(&store(), "o").unwrap() {
        Step::Run(r) => {
            assert_eq!(r.args, ["npx", "--yes", "clawhub", "--cli-version"]);
            assert_eq!((r.container_name.as_str(), r.timeout_secs), ("c-o", Some(30)));
        }
        other => panic!("{:?}", other),
    }
    assert!(matches!(check_clawhub_request(&store(), "x"), Err(AppError::BotNotFound(_))));
    assert_eq!(check_clawhub_available(finished(" 1.2\n", Some(0))).unwrap(), "1.2");
    assert_eq!(invalid(check_clawhub_available(finished(" \n", Some(0)))), "ClawHub CLI is not installed");
    assert_eq!(invalid(check_clawhub_available(finished("x", Some(127)))), "ClawHub CLI is not installed");
    assert_eq!(invalid(check_clawhub_available(ExecOutcome::TimedOut)), "Check timed out");
    assert!(matches!(check_clawhub_available(failed()), Err(AppError::Other(m)) if m == "engine"));
    let refused = ExecOutcome::Failed(AppError::Docker("no container".to_string()));
    assert!(matches!(check_clawhub_available(refused), Err(AppError::Docker(m)) if m == "no container"));
    let garbled = ExecOutcome::Failed(AppError::Json("bad".to_string()));
    assert!(matches!(install_clawhub(garbled), Err(AppError::Json(m)) if m == "bad"));
}

#[test]
fn registry_tool_is_installed() {
    match install_clawhub_request(&store(), "h").unwrap() {
        Step::Answer(answer) => {
            assert_eq!(answer.output, "Hermes has native skill support");
            assert_eq!(answer.exit_code, Some(0));
        }
        other => panic!("{:?}", other),
    }
    match install_clawhub_request(&store(), "o").unwrap() {
        Step::Run(r) => {
            assert_eq!(r.args, ["npm", "install", "-g", "clawhub"]);
            assert_eq!(r.timeout_secs, Some(60));
        }
        other => panic!("{:?}", other),
    }
    assert!(matches!(install_clawhub_request(&store(), "x"), Err(AppError::BotNotFound(_))));
    assert_eq!(install_clawhub(finished("done", Some(1))).unwrap().output, "done");
    assert_eq!(invalid(install_clawhub(ExecOutcome::TimedOut)), "Install timed out");
    assert!(matches!(install_clawhub(failed()), Err(AppError::Other(_))));
}

#[test]
fn skills_are_installed_and_removed_by_name() {
    let s = store();
    let r = clawhub_install_skill(&s, "o", "@a/b").unwrap();
    assert_eq!(r.args, ["npx", "--yes", "clawhub", "install", "@a/b", "--no-input"]);
    assert_eq!(r.timeout_secs, None);
    let r = clawhub_install_skill(&s, "h", "b").unwrap();
    assert_eq!(r.args, ["/usr/local/bin/hermes", "skills", "install", "b"]);
    let r = clawhub_uninstall_skill(&s, "o", "b").unwrap();
    assert_eq!(r.args, ["npx", "--yes", "clawhub", "uninstall", "b", "--no-input"]);
    let r = clawhub_uninstall_skill(&s, "h", "b").unwrap();
    assert_eq!(r.args, ["/usr/local/bin/hermes", "skills", "uninstall", "b"]);
    // The name is checked before the bot is looked up.
    assert_eq!(invalid(clawhub_install_skill(&s, "x", "a;b")), "Invalid skill name: 'a;b'");
    assert_eq!(invalid(clawhub_uninstall_skill(&s, "x", "")), "Skill name must not be empty");
    assert!(matches!(clawhub_install_skill(&s, "x", "a"), Err(AppError::BotNotFound(_))));
    assert!(matches!(clawhub_uninstall_skill(&s, "x", "a"), Err(AppError::BotNotFound(_))));
}

#[test]
fn inspection_depends_on_the_agent() {
    let s = store();
    let r = clawhub_inspect_request(&s, "o", "maps").unwrap();
    assert_eq!(r.args, ["npx", "--yes", "clawhub", "inspect", "maps", "--json"]);
    assert_eq!(r.timeout_secs, Some(30));
    let r = clawhub_inspect_request(&s, "h", "maps").unwrap();
    assert_eq!((r.args[0].as_str(), r.args[1].as_str(), r.timeout_secs), ("sh", "-c", Some(5)));
    let expected = r#"
f="$HOME/.hermes/skills/maps/SKILL.md"
if [ ! -f "$f" ]; then
  # Try finding the skill in subdirectories (skills can be nested by category)
  f=$(find "$HOME/.hermes/skills" -maxdepth 3 -name "SKILL.md" -path "*/maps/SKILL.md" 2>/dev/null | head -1)
fi
if [ -z "$f" ] || [ ! -f "$f" ]; then
  echo '{"error":"not found"}'
  exit 0
fi
# Extract YAML frontmatter between --- markers and convert to JSON-like output
awk '/^---$/{if(n++)exit;next}n' "$f" | head -30
"#;
    assert_eq!(r.args[2], expected);
    assert!(matches!(clawhub_inspect_request(&s, "x", "maps"), Err(AppError::BotNotFound(_))));
    assert!(clawhub_inspect_request(&s, "h", "$(x)").is_err());
}

#[test]
fn inspection_of_the_registry_is_passed_on_from_the_brace() {
    let o = AgentType::OpenClaw;
    assert_eq!(
        clawhub_inspect_skill(o, "x", finished("- Fetching\n{\"a\": 1}\n", None)).unwrap(),
        "{\"a\": 1}"
    );
    assert_eq!(clawhub_inspect_skill(o, "x", finished(" nothing ", None)).unwrap(), "nothing");
    assert_eq!(invalid(clawhub_inspect_skill(o, "x", ExecOutcome::TimedOut)), "Inspect timed out");
    assert!(matches!(clawhub_inspect_skill(o, "x", failed()), Err(AppError::Other(_))));
}

#[test]
fn inspection_of_a_hermes_skill_is_built_from_its_file() {
    let output = "name: \"Maps\"\n description: 'Finds \"ways\"'\nversion: 1.0\nversion: 2.0\nother: x\n";
    assert_eq!(
        clawhub_inspect_skill(AgentType::Hermes, "maps", finished(output, None)).unwrap(),
        "{\"latestVersion\":{\"version\":\"2.0\"},\"owner\":{\"handle\":\"hermes-bundled\"},\"skill\":{\"displayName\":\"Maps\",\"slug\":\"maps\",\"summary\":\"Finds \\\"ways\\\"\"}}"
    );
    assert!(clawhub_inspect_skill(AgentType::Hermes, "maps", ExecOutcome::TimedOut).is_err());
}

#[test]
fn skill_reports_are_read_and_written() {
    let report = read_skill_report("maps", "category: geo\n");
    assert_eq!((report.slug.as_str(), report.name.as_str()), ("maps", "maps"));
    assert_eq!((report.description.as_str(), report.version.as_str()), ("", ""));
    assert_eq!(report.category, "geo");
    let text = skill_report_text(&SkillReport {
        slug: "s".to_string(),
        name: "n".to_string(),
        description: "d".to_string(),
        version: "v".to_string(),
        category: "c".to_string(),
    });
    let v: serde_json::Value = serde_json::from_str(&text).unwrap();
    assert_eq!(v["skill"]["slug"], "s");
    assert_eq!(v["skill"]["displayName"], "n");
    assert_eq!(v["skill"]["summary"], "d");
    assert_eq!(v["latestVersion"]["version"], "v");
    assert_eq!(v["owner"]["handle"], "c");
}

#[test]
fn requirements_are_checked_by_a_script() {
    let s = store();
    let r = skill_requirements_request(&s, "o", "maps").unwrap();
    assert_eq!((r.args[0].as_str(), r.args[1].as_str(), r.timeout_secs), ("sh", "-c", Some(5)));
    assert!(r.args[2].starts_with("\nf=\"/app/skills/maps/SKILL.md\"\nif [ ! -f \"$f\" ]; then echo '{\"error\":\"not found\"}'; exit 0; fi\n"));
    assert!(r.args[2].contains("grep -oP '\"requires\":\\s*\\{[^{}]*\\}' \"$f\""));
    assert!(r.args[2].ends_with("echo \"{\\\"bins\\\":[$missing_bins],\\\"env\\\":[$missing_env],\\\"config\\\":[$missing_config],\\\"os\\\":[$required_os]}\"\n"));
    let r = skill_requirements_request(&s, "h", "maps").unwrap();
    assert!(r.args[2].starts_with("\nf=\"$HOME/.hermes/skills/maps/SKILL.md\"\n"));
    assert!(matches!(skill_requirements_request(&s, "x", "maps"), Err(AppError::BotNotFound(_))));
    assert!(skill_requirements_request(&s, "o", "..").is_err());
}

#[test]
fn requirements_are_read() {
    let v = get_skill_requirements(finished("\n{\"bins\": [\"gh\"], \"all_met\": false}\n", Some(0))).unwrap();
    assert_eq!(v["bins"][0], "gh");
    assert_eq!(v["all_met"], false);
    let v = get_skill_requirements(finished("sh: not found", Some(127))).unwrap();
    assert_eq!(v.to_string(), "{\"error\":\"Could not parse requirements\"}");
    let v = get_skill_requirements(failed()).unwrap();
    assert_eq!(v.to_string(), "{\"error\":\"Could not check requirements\"}");
    assert_eq!(
        invalid(get_skill_requirements(ExecOutcome::TimedOut)),
        "Requirements check timed out"
    );
    assert_eq!(requirements_report(Ok(serde_json::Value::Null)), serde_json::Value::Null);
}
