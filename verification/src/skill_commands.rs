//! Finding, inspecting, installing and removing skills: the commands run in a
//! bot's container, and what is made of their output.

use vstd::prelude::*;
use vstd::slice::slice_subrange;
use vstd::string::StringExecFns;
use crate::bots;
use crate::bots::{BotProfile, BotStore, ExecOutcome, ExecRequest, ExecRequestView, Step};
use crate::error;
use crate::error::{AppError, ErrorView};
use crate::json;
use crate::json::JsonView;
use crate::models::{AgentType, ExecResult, Skill, SkillView};
use crate::skills;
use crate::text;
use crate::validation;

verus! {

// ── Requests ─────────────────────────────────────────────────────────

/// The request to run a command for a bot.
pub open spec fn request_for(
    bot: BotProfile,
    args: Seq<Seq<char>>,
    timeout_secs: Option<u64>,
) -> ExecRequestView {
    ExecRequestView {
        container_name: bot.container_name@,
        agent_type: bot.agent_type,
        args,
        timeout_secs,
    }
}

fn make_request(
    container_name: String,
    agent_type: AgentType,
    args: Vec<&str>,
    timeout_secs: Option<u64>,
) -> (r: ExecRequest)
    ensures
        r@ == (ExecRequestView {
            container_name: container_name@,
            agent_type,
            args: text::strs(args@),
            timeout_secs,
        }),
{
    let mut owned: Vec<String> = Vec::new();
    for i in 0..args.len()
        invariant
            owned@.len() == i,
            forall|j: int| 0 <= j < i ==> (#[trigger] owned@[j])@ == args@[j]@,
    {
        owned.push(args[i].to_string());
    }
    assert(text::texts(owned@) == text::strs(args@));
    ExecRequest { container_name, agent_type, args: owned, timeout_secs }
}

// ── Searching ────────────────────────────────────────────────────────

/// The command that lists an agent's skills or searches for new ones.
pub open spec fn search_args(agent_type: AgentType, query: Seq<char>) -> Seq<Seq<char>> {
    if text::trimmed(query).len() == 0 {
        match agent_type {
            AgentType::OpenClaw => seq!["openclaw"@, "skills"@, "list"@],
            AgentType::Hermes => seq!["/usr/local/bin/hermes"@, "skills"@, "list"@],
        }
    } else {
        match agent_type {
            AgentType::OpenClaw => seq![
                "npx"@, "--yes"@, "clawhub"@, "search"@, query, "--limit"@, "20"@,
            ],
            AgentType::Hermes => seq!["/usr/local/bin/hermes"@, "skills"@, "search"@, query],
        }
    }
}

/// The request of a skill search.
pub open spec fn search_request(bots: Seq<BotProfile>, id: Seq<char>, query: Seq<char>) -> Result<
    ExecRequestView,
    ErrorView,
> {
    match bots::bot_with_id(bots, id) {
        None => Err(ErrorView::BotNotFound(id)),
        Some(bot) => Ok(request_for(bot, search_args(bot.agent_type, query), Some(30))),
    }
}

fn is_blank(s: &str) -> (r: bool)
    ensures
        r == (text::trimmed(s@).len() == 0),
{
    let chars = text::chars_of(s);
    text::trim(chars.as_slice()).len() == 0
}

/// The command to run for a skill search: without a query the agent's skills
/// are listed.
pub fn clawhub_search_request(store: &BotStore, id: &str, query: &str) -> (r: Result<
    ExecRequest,
    AppError,
>)
    ensures
        error::outcome(r) == search_request(store.bots@, id@, query@),
{
    let (container_name, agent_type) = bots::resolve_container_and_agent(store, id)?;
    let args = if is_blank(query) {
        match agent_type {
            AgentType::OpenClaw => vec!["openclaw", "skills", "list"],
            AgentType::Hermes => vec!["/usr/local/bin/hermes", "skills", "list"],
        }
    } else {
        match agent_type {
            AgentType::OpenClaw => vec![
                "npx", "--yes", "clawhub", "search", query, "--limit", "20",
            ],
            AgentType::Hermes => vec!["/usr/local/bin/hermes", "skills", "search", query],
        }
    };
    assert(text::strs(args@) == search_args(agent_type, query@));
    Ok(make_request(container_name, agent_type, args, Some(30)))
}

/// The skills found, and how many there are.
#[derive(Debug)]
pub struct SkillSearchResult {
    pub skills: Vec<Skill>,
    pub total: u32,
}

pub struct SearchResultView {
    pub skills: Seq<SkillView>,
    pub total: int,
}

impl View for SkillSearchResult {
    type V = SearchResultView;

    open spec fn view(&self) -> SearchResultView {
        SearchResultView { skills: skills::skill_views(self.skills@), total: self.total as int }
    }
}

/// The skills in the output of a skill search.
pub open spec fn found_skills(agent_type: AgentType, query: Seq<char>, output: Seq<char>) -> Seq<
    SkillView,
> {
    if text::trimmed(query).len() == 0 {
        match agent_type {
            AgentType::OpenClaw => skills::openclaw_skills(output),
            AgentType::Hermes => skills::hermes_skills(output),
        }
    } else {
        match agent_type {
            AgentType::OpenClaw => skills::clawhub_skills(output),
            AgentType::Hermes => skills::hermes_search_skills(output),
        }
    }
}

/// The answer to a skill search. The number of skills is kept in 32 bits.
pub open spec fn search_answer(
    agent_type: AgentType,
    query: Seq<char>,
    outcome: ExecOutcome,
) -> Result<SearchResultView, ErrorView> {
    let listing = text::trimmed(query).len() == 0;
    match outcome {
        ExecOutcome::TimedOut => if listing {
            Err(ErrorView::Validation("Skill listing timed out. Try again later."@))
        } else {
            Err(ErrorView::Validation("Skill search timed out."@))
        },
        ExecOutcome::Failed(_) => if listing {
            Err(ErrorView::Validation("Could not list skills. Is the bot running?"@))
        } else {
            Err(
                ErrorView::Validation(
                    "ClawHub search failed. The container may not have network access."@,
                ),
            )
        },
        ExecOutcome::Finished(result) => if !listing && result.exit_code == Some(127i64) {
            Err(ErrorView::Validation("Skill search CLI is not available in this container."@))
        } else {
            let found = found_skills(agent_type, query, result.output@);
            Ok(SearchResultView { skills: found, total: found.len() as int % 0x1_0000_0000 })
        },
    }
}

/// The number in an answer is that of the skills in it, as long as 32 bits can
/// hold it.
pub proof fn law_total_counts_the_skills(
    agent_type: AgentType,
    query: Seq<char>,
    outcome: ExecOutcome,
)
    requires
        search_answer(agent_type, query, outcome) is Ok,
        search_answer(agent_type, query, outcome)->Ok_0.skills.len() < 0x1_0000_0000,
    ensures
        search_answer(agent_type, query, outcome)->Ok_0.total == search_answer(
            agent_type,
            query,
            outcome,
        )->Ok_0.skills.len(),
{
}

/// Answer a skill search by how its command ended.
pub fn clawhub_search_skills(agent_type: AgentType, query: &str, outcome: ExecOutcome) -> (r:
    Result<SkillSearchResult, AppError>)
    ensures
        error::outcome(r) == search_answer(agent_type, query@, outcome),
{
    let listing = is_blank(query);
    match outcome {
        ExecOutcome::TimedOut => {
            if listing {
                Err(AppError::Validation("Skill listing timed out. Try again later.".to_string()))
            } else {
                Err(AppError::Validation("Skill search timed out.".to_string()))
            }
        },
        ExecOutcome::Failed(_) => {
            if listing {
                Err(AppError::Validation("Could not list skills. Is the bot running?".to_string()))
            } else {
                Err(
                    AppError::Validation(
                        "ClawHub search failed. The container may not have network access.".to_string(),
                    ),
                )
            }
        },
        ExecOutcome::Finished(result) => {
            if !listing && result.exit_code == Some(127) {
                return Err(
                    AppError::Validation(
                        "Skill search CLI is not available in this container.".to_string(),
                    ),
                );
            }
            let output = result.output.as_str();
            let found = if listing {
                match agent_type {
                    AgentType::OpenClaw => skills::parse_openclaw_skills_output(output),
                    AgentType::Hermes => skills::parse_hermes_skills_output(output),
                }
            } else {
                match agent_type {
                    AgentType::OpenClaw => skills::parse_clawhub_search_output(output),
                    AgentType::Hermes => skills::parse_hermes_search_output(output),
                }
            };
            let n: u64 = found.len() as u64;
            assert(skills::skill_views(found@).len() == n);
            assert(n as u32 == n % 0x1_0000_0000u64) by (bit_vector);
            let total: u32 = n as u32;
            Ok(SkillSearchResult { skills: found, total })
        },
    }
}

// ── The registry's command line tool ─────────────────────────────────

/// Whether the tool of the skill registry is there: a Hermes agent does not
/// need it, for an OpenClaw agent the tool is asked for its version.
pub fn check_clawhub_request(store: &BotStore, id: &str) -> (r: Result<Step<String>, AppError>)
    ensures
        match (r, bots::bot_with_id(store.bots@, id@)) {
            (Err(e), None) => e@ == ErrorView::BotNotFound(id@),
            (Ok(Step::Answer(answer)), Some(bot)) => bot.agent_type == AgentType::Hermes && answer@
                == "hermes-native"@,
            (Ok(Step::Run(request)), Some(bot)) => bot.agent_type == AgentType::OpenClaw
                && request@ == request_for(
                bot,
                seq!["npx"@, "--yes"@, "clawhub"@, "--cli-version"@],
                Some(30),
            ),
            _ => false,
        },
{
    let (container_name, agent_type) = bots::resolve_container_and_agent(store, id)?;
    if agent_type == AgentType::Hermes {
        return Ok(Step::Answer("hermes-native".to_string()));
    }
    let args = vec!["npx", "--yes", "clawhub", "--cli-version"];
    assert(text::strs(args@) == seq!["npx"@, "--yes"@, "clawhub"@, "--cli-version"@]);
    Ok(Step::Run(make_request(container_name, agent_type, args, Some(30))))
}

/// The version the registry's tool reported, or why there is none.
pub open spec fn version_answer(outcome: ExecOutcome) -> Result<Seq<char>, ErrorView> {
    match outcome {
        ExecOutcome::TimedOut => Err(ErrorView::Validation("Check timed out"@)),
        ExecOutcome::Failed(e) => Err(e@),
        ExecOutcome::Finished(result) => if text::trimmed(result.output@).len() == 0
            || result.exit_code == Some(127i64) {
            Err(ErrorView::Validation("ClawHub CLI is not installed"@))
        } else {
            Ok(text::trimmed(result.output@))
        },
    }
}

/// Answer whether the registry's tool is there by how the question for its
/// version ended.
pub fn check_clawhub_available(outcome: ExecOutcome) -> (r: Result<String, AppError>)
    ensures
        error::outcome(r) == version_answer(outcome),
{
    match outcome {
        ExecOutcome::TimedOut => Err(AppError::Validation("Check timed out".to_string())),
        ExecOutcome::Failed(e) => Err(e),
        ExecOutcome::Finished(result) => {
            let chars = text::chars_of(result.output.as_str());
            let version = text::trim(chars.as_slice());
            if version.len() == 0 || result.exit_code == Some(127) {
                Err(AppError::Validation("ClawHub CLI is not installed".to_string()))
            } else {
                Ok(text::string_of(version))
            }
        },
    }
}

/// Install the tool of the skill registry, which a Hermes agent does not need.
pub fn install_clawhub_request(store: &BotStore, id: &str) -> (r: Result<
    Step<ExecResult>,
    AppError,
>)
    ensures
        match (r, bots::bot_with_id(store.bots@, id@)) {
            (Err(e), None) => e@ == ErrorView::BotNotFound(id@),
            (Ok(Step::Answer(answer)), Some(bot)) => bot.agent_type == AgentType::Hermes
                && answer.output@ == "Hermes has native skill support"@ && answer.exit_code == Some(
                0i64,
            ),
            (Ok(Step::Run(request)), Some(bot)) => bot.agent_type == AgentType::OpenClaw
                && request@ == request_for(
                bot,
                seq!["npm"@, "install"@, "-g"@, "clawhub"@],
                Some(60),
            ),
            _ => false,
        },
{
    let (container_name, agent_type) = bots::resolve_container_and_agent(store, id)?;
    if agent_type == AgentType::Hermes {
        return Ok(
            Step::Answer(
                ExecResult {
                    output: "Hermes has native skill support".to_string(),
                    exit_code: Some(0),
                },
            ),
        );
    }
    let args = vec!["npm", "install", "-g", "clawhub"];
    assert(text::strs(args@) == seq!["npm"@, "install"@, "-g"@, "clawhub"@]);
    Ok(Step::Run(make_request(container_name, agent_type, args, Some(60))))
}

/// Answer how the installation of the registry's tool ended.
pub fn install_clawhub(outcome: ExecOutcome) -> (r: Result<ExecResult, AppError>)
    ensures
        match (r, outcome) {
            (Err(e), ExecOutcome::TimedOut) => e@ == ErrorView::Validation("Install timed out"@),
            (Err(e), ExecOutcome::Failed(f)) => e == f,
            (Ok(done), ExecOutcome::Finished(result)) => done == result,
            _ => false,
        },
{
    match outcome {
        ExecOutcome::TimedOut => Err(AppError::Validation("Install timed out".to_string())),
        ExecOutcome::Failed(e) => Err(e),
        ExecOutcome::Finished(result) => Ok(result),
    }
}

// ── Installing and removing a skill ──────────────────────────────────

/// A request about a skill: the name is checked first, then the bot is looked
/// up, and then the command is made by the bot's agent.
pub open spec fn skill_request(
    bots: Seq<BotProfile>,
    id: Seq<char>,
    skill_name: Seq<char>,
    args: spec_fn(AgentType) -> Seq<Seq<char>>,
    timeout_secs: spec_fn(AgentType) -> Option<u64>,
) -> Result<ExecRequestView, ErrorView> {
    match validation::skill_name_verdict(skill_name) {
        Err(e) => Err(e),
        Ok(_) => match bots::bot_with_id(bots, id) {
            None => Err(ErrorView::BotNotFound(id)),
            Some(bot) => Ok(
                request_for(bot, args(bot.agent_type), timeout_secs(bot.agent_type)),
            ),
        },
    }
}

pub open spec fn install_args(agent_type: AgentType, skill_name: Seq<char>) -> Seq<Seq<char>> {
    match agent_type {
        AgentType::OpenClaw => seq![
            "npx"@, "--yes"@, "clawhub"@, "install"@, skill_name, "--no-input"@,
        ],
        AgentType::Hermes => seq!["/usr/local/bin/hermes"@, "skills"@, "install"@, skill_name],
    }
}

pub open spec fn uninstall_args(agent_type: AgentType, skill_name: Seq<char>) -> Seq<Seq<char>> {
    match agent_type {
        AgentType::OpenClaw => seq![
            "npx"@, "--yes"@, "clawhub"@, "uninstall"@, skill_name, "--no-input"@,
        ],
        AgentType::Hermes => seq!["/usr/local/bin/hermes"@, "skills"@, "uninstall"@, skill_name],
    }
}

/// The command that installs a skill.
pub fn clawhub_install_skill(store: &BotStore, id: &str, skill_name: &str) -> (r: Result<
    ExecRequest,
    AppError,
>)
    ensures
        error::outcome(r) == skill_request(
            store.bots@,
            id@,
            skill_name@,
            |agent_type: AgentType| install_args(agent_type, skill_name@),
            |agent_type: AgentType| None,
        ),
        r is Ok ==> validation::has_plain_ascii(skill_name@),
{
    validation::validate_skill_name(skill_name)?;
    let (container_name, agent_type) = bots::resolve_container_and_agent(store, id)?;
    let args = match agent_type {
        AgentType::OpenClaw => vec![
            "npx", "--yes", "clawhub", "install", skill_name, "--no-input",
        ],
        AgentType::Hermes => vec!["/usr/local/bin/hermes", "skills", "install", skill_name],
    };
    assert(text::strs(args@) == install_args(agent_type, skill_name@));
    Ok(make_request(container_name, agent_type, args, None))
}

/// The command that removes a skill.
pub fn clawhub_uninstall_skill(store: &BotStore, id: &str, skill_name: &str) -> (r: Result<
    ExecRequest,
    AppError,
>)
    ensures
        error::outcome(r) == skill_request(
            store.bots@,
            id@,
            skill_name@,
            |agent_type: AgentType| uninstall_args(agent_type, skill_name@),
            |agent_type: AgentType| None,
        ),
        r is Ok ==> validation::has_plain_ascii(skill_name@),
{
    validation::validate_skill_name(skill_name)?;
    let (container_name, agent_type) = bots::resolve_container_and_agent(store, id)?;
    let args = match agent_type {
        AgentType::OpenClaw => vec![
            "npx", "--yes", "clawhub", "uninstall", skill_name, "--no-input",
        ],
        AgentType::Hermes => vec!["/usr/local/bin/hermes", "skills", "uninstall", skill_name],
    };
    assert(text::strs(args@) == uninstall_args(agent_type, skill_name@));
    Ok(make_request(container_name, agent_type, args, None))
}

// ── Inspecting a skill ───────────────────────────────────────────────

/// The script that reads the description of a Hermes skill, up to the name of
/// the skill, between its two occurrences, and from there on.
pub const INSPECT_SCRIPT_HEAD: &'static str = r#"
f="$HOME/.hermes/skills/"#;

pub const INSPECT_SCRIPT_MIDDLE: &'static str = r#"/SKILL.md"
if [ ! -f "$f" ]; then
  # Try finding the skill in subdirectories (skills can be nested by category)
  f=$(find "$HOME/.hermes/skills" -maxdepth 3 -name "SKILL.md" -path "*/"#;

pub const INSPECT_SCRIPT_TAIL: &'static str = r#"/SKILL.md" 2>/dev/null | head -1)
fi
if [ -z "$f" ] || [ ! -f "$f" ]; then
  echo '{"error":"not found"}'
  exit 0
fi
# Extract YAML frontmatter between --- markers and convert to JSON-like output
awk '/^---$/{if(n++)exit;next}n' "$f" | head -30
"#;

/// The script that checks the requirements of a skill, up to the path of its
/// description, and from there on.
pub const REQUIREMENTS_SCRIPT_HEAD: &'static str = r#"
f=""#;

pub const REQUIREMENTS_SCRIPT_TAIL: &'static str = r#"/SKILL.md"
if [ ! -f "$f" ]; then echo '{"error":"not found"}'; exit 0; fi

# Extract requires block
req=$(grep -oP '"requires":\s*\{[^{}]*\}' "$f" 2>/dev/null | head -1)
if [ -z "$req" ]; then echo '{"all_met":true}'; exit 0; fi

missing_bins=""
missing_env=""
missing_config=""
required_os=""

# Check bins
bins=$(echo "$req" | grep -oP '"bins":\s*\[[^\]]*\]' | grep -oP '"[^"]*"' | tr -d '"')
for b in $bins; do
  command -v "$b" >/dev/null 2>&1 || missing_bins="$missing_bins\"$b\","
done

# Check anyBins (need at least one)
any_bins=$(echo "$req" | grep -oP '"anyBins":\s*\[[^\]]*\]' | grep -oP '"[^"]*"' | tr -d '"')
if [ -n "$any_bins" ]; then
  found=0
  for b in $any_bins; do
    command -v "$b" >/dev/null 2>&1 && found=1 && break
  done
  if [ $found -eq 0 ]; then
    all_str=""
    for b in $any_bins; do all_str="$all_str\"$b\","; done
    missing_bins="$missing_bins$all_str"
  fi
fi

# Check env
envs=$(echo "$req" | grep -oP '"env":\s*\[[^\]]*\]' | grep -oP '"[^"]*"' | tr -d '"')
for e in $envs; do
  eval "val=\$$e"
  [ -z "$val" ] && missing_env="$missing_env\"$e\","
done

# Check config
configs=$(echo "$req" | grep -oP '"config":\s*\[[^\]]*\]' | grep -oP '"[^"]*"' | tr -d '"')
for c in $configs; do
  missing_config="$missing_config\"$c\","
done

# Check OS
os=$(echo "$req" | grep -oP '"os":\s*"[^"]*"' | grep -oP '"[^"]*"$' | tr -d '"')
[ -n "$os" ] && required_os="\"$os\""

# Remove trailing commas and build JSON
missing_bins=$(echo "$missing_bins" | sed 's/,$//')
missing_env=$(echo "$missing_env" | sed 's/,$//')
missing_config=$(echo "$missing_config" | sed 's/,$//')

echo "{\"bins\":[$missing_bins],\"env\":[$missing_env],\"config\":[$missing_config],\"os\":[$required_os]}"
"#;

/// The script that prints the description of a Hermes skill.
pub open spec fn inspect_script(skill_name: Seq<char>) -> Seq<char> {
    INSPECT_SCRIPT_HEAD@ + skill_name + INSPECT_SCRIPT_MIDDLE@ + skill_name + INSPECT_SCRIPT_TAIL@
}

pub open spec fn inspect_args(agent_type: AgentType, skill_name: Seq<char>) -> Seq<Seq<char>> {
    match agent_type {
        AgentType::OpenClaw => seq![
            "npx"@, "--yes"@, "clawhub"@, "inspect"@, skill_name, "--json"@,
        ],
        AgentType::Hermes => seq!["sh"@, "-c"@, inspect_script(skill_name)],
    }
}

pub open spec fn inspect_timeout(agent_type: AgentType) -> Option<u64> {
    match agent_type {
        AgentType::OpenClaw => Some(30),
        AgentType::Hermes => Some(5),
    }
}

/// The command that describes a skill: the registry is asked for that of an
/// OpenClaw agent, the file of a Hermes skill is read.
pub fn clawhub_inspect_request(store: &BotStore, id: &str, skill_name: &str) -> (r: Result<
    ExecRequest,
    AppError,
>)
    ensures
        error::outcome(r) == skill_request(
            store.bots@,
            id@,
            skill_name@,
            |agent_type: AgentType| inspect_args(agent_type, skill_name@),
            |agent_type: AgentType| inspect_timeout(agent_type),
        ),
        r is Ok ==> validation::has_plain_ascii(skill_name@),
{
    validation::validate_skill_name(skill_name)?;
    let (container_name, agent_type) = bots::resolve_container_and_agent(store, id)?;
    match agent_type {
        AgentType::OpenClaw => {
            let args = vec!["npx", "--yes", "clawhub", "inspect", skill_name, "--json"];
            assert(text::strs(args@) == inspect_args(agent_type, skill_name@));
            Ok(make_request(container_name, agent_type, args, Some(30)))
        },
        AgentType::Hermes => {
            let mut script = text::concat3(INSPECT_SCRIPT_HEAD, skill_name, INSPECT_SCRIPT_MIDDLE);
            script.append(skill_name);
            script.append(INSPECT_SCRIPT_TAIL);
            let args = vec!["sh", "-c", script.as_str()];
            assert(text::strs(args@) == inspect_args(agent_type, skill_name@));
            Ok(make_request(container_name, agent_type, args, Some(5)))
        },
    }
}

/// The document in the output of the registry's tool: from the first brace on,
/// if there is one.
pub open spec fn document_in(output: Seq<char>) -> Seq<char> {
    let t = text::trimmed(output);
    if text::position(t, '{') < t.len() {
        t.skip(text::position(t, '{') as int)
    } else {
        t
    }
}

/// The value of a field of a description, without quotes around it.
pub open spec fn unquoted(s: Seq<char>) -> Seq<char> {
    text::trimmed_of(text::trimmed_of(text::trimmed(s), '"'), '\'')
}

/// The value of the last of the lines that start with `key`, if there is one.
pub open spec fn last_field(lines: Seq<Seq<char>>, key: Seq<char>) -> Option<Seq<char>>
    decreases lines.len(),
{
    if lines.len() == 0 {
        None
    } else {
        match text::without_prefix(text::trimmed(lines.last()), key) {
            Some(value) => Some(unquoted(value)),
            None => last_field(lines.drop_last(), key),
        }
    }
}

/// The value of a field, or the given one if no line has it.
pub open spec fn field_or(lines: Seq<Seq<char>>, key: Seq<char>, default: Seq<char>) -> Seq<char> {
    match last_field(lines, key) {
        Some(value) => value,
        None => default,
    }
}

/// What the file of a Hermes skill says of it.
#[derive(Debug)]
pub struct SkillReport {
    pub slug: String,
    pub name: String,
    pub description: String,
    pub version: String,
    pub category: String,
}

#[verifier::ext_equal]
pub struct SkillReportView {
    pub slug: Seq<char>,
    pub name: Seq<char>,
    pub description: Seq<char>,
    pub version: Seq<char>,
    pub category: Seq<char>,
}

impl View for SkillReport {
    type V = SkillReportView;

    open spec fn view(&self) -> SkillReportView {
        SkillReportView {
            slug: self.slug@,
            name: self.name@,
            description: self.description@,
            version: self.version@,
            category: self.category@,
        }
    }
}

/// What a series of `key: value` lines says of a skill.
pub open spec fn report_of(skill_name: Seq<char>, lines: Seq<Seq<char>>) -> SkillReportView {
    SkillReportView {
        slug: skill_name,
        name: field_or(lines, "name:"@, skill_name),
        description: field_or(lines, "description:"@, seq![]),
        version: field_or(lines, "version:"@, seq![]),
        category: field_or(lines, "category:"@, seq![]),
    }
}

fn unquote(s: &[char]) -> (r: String)
    ensures
        r@ == unquoted(s@),
{
    text::string_of(text::trim_matches(text::trim_matches(text::trim(s), '"'), '\''))
}

/// Read the description of a Hermes skill.
pub fn read_skill_report(skill_name: &str, output: &str) -> (r: SkillReport)
    ensures
        r@ == report_of(skill_name@, text::lines(text::trimmed(output@))),
{
    let chars = text::chars_of(output);
    let lines = text::split_lines(text::trim(chars.as_slice()));
    let ghost all = text::lines(text::trimmed(output@));
    let mut report = SkillReport {
        slug: skill_name.to_string(),
        name: skill_name.to_string(),
        description: String::new(),
        version: String::new(),
        category: String::new(),
    };
    assert(report@ == report_of(skill_name@, all.take(0)));
    for i in 0..lines.len()
        invariant
            text::slices(lines@) == all,
            report@ == report_of(skill_name@, all.take(i as int)),
    {
        let ghost next = all.take(i + 1);
        assert(next.drop_last() == all.take(i as int));
        assert(next.last() == lines@[i as int]@);
        let line = text::trim(lines[i]);
        proof {
            reveal_strlit("name:");
            reveal_strlit("description:");
            reveal_strlit("version:");
            reveal_strlit("category:");
            text::lemma_prefix_first(line@, "name:"@);
            text::lemma_prefix_first(line@, "description:"@);
            text::lemma_prefix_first(line@, "version:"@);
            text::lemma_prefix_first(line@, "category:"@);
        }
        if let Some(value) = text::strip_prefix(line, "name:") {
            report.name = unquote(value);
        } else if let Some(value) = text::strip_prefix(line, "description:") {
            report.description = unquote(value);
        } else if let Some(value) = text::strip_prefix(line, "version:") {
            report.version = unquote(value);
        } else if let Some(value) = text::strip_prefix(line, "category:") {
            report.category = unquote(value);
        }
        assert(report@ == report_of(skill_name@, next));
    }
    assert(all.take(all.len() as int) == all);
    report
}

/// The answer about a Hermes skill, in the form of the registry's answers.
pub open spec fn report_json(report: SkillReportView) -> JsonView {
    JsonView::Object(
        map![
            "skill"@ => JsonView::Object(map![
                "slug"@ => JsonView::Text(report.slug),
                "displayName"@ => JsonView::Text(report.name),
                "summary"@ => JsonView::Text(report.description),
            ]),
            "latestVersion"@ => JsonView::Object(map![
                "version"@ => JsonView::Text(report.version),
            ]),
            "owner"@ => JsonView::Object(map![
                "handle"@ => JsonView::Text(if report.category.len() == 0 {
                    "hermes-bundled"@
                } else {
                    report.category
                }),
            ]),
        ],
    )
}

/// Write the answer about a Hermes skill.
pub fn skill_report_text(report: &SkillReport) -> (r: String)
    ensures
        r@ == json::json_display(report_json(report@)),
{
    let mut skill = json::empty_object();
    json::set_member(&mut skill, "slug", json::text_value(report.slug.as_str()));
    json::set_member(&mut skill, "displayName", json::text_value(report.name.as_str()));
    json::set_member(&mut skill, "summary", json::text_value(report.description.as_str()));
    let mut version = json::empty_object();
    json::set_member(&mut version, "version", json::text_value(report.version.as_str()));
    let handle = if report.category.as_str().is_empty() {
        "hermes-bundled"
    } else {
        report.category.as_str()
    };
    let mut owner = json::empty_object();
    json::set_member(&mut owner, "handle", json::text_value(handle));
    let mut answer = json::empty_object();
    json::set_member(&mut answer, "skill", json::object_value(skill));
    json::set_member(&mut answer, "latestVersion", json::object_value(version));
    json::set_member(&mut answer, "owner", json::object_value(owner));
    json::display_text(&json::object_value(answer))
}

/// The answer to the request to describe a skill.
pub open spec fn inspect_answer(
    agent_type: AgentType,
    skill_name: Seq<char>,
    outcome: ExecOutcome,
) -> Result<Seq<char>, ErrorView> {
    match outcome {
        ExecOutcome::TimedOut => Err(ErrorView::Validation("Inspect timed out"@)),
        ExecOutcome::Failed(e) => Err(e@),
        ExecOutcome::Finished(result) => match agent_type {
            AgentType::OpenClaw => Ok(document_in(result.output@)),
            AgentType::Hermes => Ok(
                json::json_display(
                    report_json(
                        report_of(skill_name, text::lines(text::trimmed(result.output@))),
                    ),
                ),
            ),
        },
    }
}

/// Describe a skill by how the command for it ended.
pub fn clawhub_inspect_skill(agent_type: AgentType, skill_name: &str, outcome: ExecOutcome) -> (r:
    Result<String, AppError>)
    ensures
        error::outcome(r) == inspect_answer(agent_type, skill_name@, outcome),
{
    match outcome {
        ExecOutcome::TimedOut => Err(AppError::Validation("Inspect timed out".to_string())),
        ExecOutcome::Failed(e) => Err(e),
        ExecOutcome::Finished(result) => match agent_type {
            AgentType::OpenClaw => {
                let chars = text::chars_of(result.output.as_str());
                let t = text::trim(chars.as_slice());
                let k = text::find_char(t, '{');
                if k < t.len() {
                    let document = slice_subrange(t, k, t.len());
                    assert(document@ == t@.skip(k as int));
                    Ok(text::string_of(document))
                } else {
                    Ok(text::string_of(t))
                }
            },
            AgentType::Hermes => {
                let report = read_skill_report(skill_name, result.output.as_str());
                Ok(skill_report_text(&report))
            },
        },
    }
}

// ── The requirements of a skill ──────────────────────────────────────

/// The script that prints which requirements of a skill are not met: programs
/// and environment variables are checked, keys of the configuration and the
/// operating system are listed without a check.
pub open spec fn requirements_script(agent_type: AgentType, skill_name: Seq<char>) -> Seq<char> {
    REQUIREMENTS_SCRIPT_HEAD@ + (match agent_type {
        AgentType::OpenClaw => "/app/skills"@,
        AgentType::Hermes => "$HOME/.hermes/skills"@,
    }) + "/"@ + skill_name + REQUIREMENTS_SCRIPT_TAIL@
}

/// The command that checks the requirements of a skill.
pub fn skill_requirements_request(store: &BotStore, id: &str, skill_name: &str) -> (r: Result<
    ExecRequest,
    AppError,
>)
    ensures
        error::outcome(r) == skill_request(
            store.bots@,
            id@,
            skill_name@,
            |agent_type: AgentType|
                seq!["sh"@, "-c"@, requirements_script(agent_type, skill_name@)],
            |agent_type: AgentType| Some(5),
        ),
        r is Ok ==> validation::has_plain_ascii(skill_name@),
{
    validation::validate_skill_name(skill_name)?;
    let (container_name, agent_type) = bots::resolve_container_and_agent(store, id)?;
    let base = match agent_type {
        AgentType::OpenClaw => "/app/skills",
        AgentType::Hermes => "$HOME/.hermes/skills",
    };
    let mut script = text::concat3(REQUIREMENTS_SCRIPT_HEAD, base, "/");
    script.append(skill_name);
    script.append(REQUIREMENTS_SCRIPT_TAIL);
    let args = vec!["sh", "-c", script.as_str()];
    assert(text::strs(args@) == seq!["sh"@, "-c"@, requirements_script(agent_type, skill_name@)]);
    Ok(make_request(container_name, agent_type, args, Some(5)))
}

/// An object that reports an error.
pub open spec fn error_json(message: Seq<char>) -> JsonView {
    JsonView::Object(map!["error"@ => JsonView::Text(message)])
}

fn error_value(message: &str) -> (v: serde_json::Value)
    ensures
        json::json_view(v) == error_json(message@),
{
    let mut m = json::empty_object();
    json::set_member(&mut m, "error", json::text_value(message));
    json::object_value(m)
}

/// The report on a skill's requirements, given what was read in the output of
/// the script.
pub fn requirements_report(parsed: Result<serde_json::Value, serde_json::Error>) -> (r:
    serde_json::Value)
    ensures
        match parsed {
            Ok(v) => r == v,
            Err(_) => json::json_view(r) == error_json("Could not parse requirements"@),
        },
{
    match parsed {
        Ok(v) => v,
        Err(_) => error_value("Could not parse requirements"),
    }
}

/// The answer to the question for a skill's requirements.
pub open spec fn requirements_answer(outcome: ExecOutcome) -> Result<JsonView, ErrorView> {
    match outcome {
        ExecOutcome::TimedOut => Err(ErrorView::Validation("Requirements check timed out"@)),
        ExecOutcome::Failed(_) => Ok(error_json("Could not check requirements"@)),
        ExecOutcome::Finished(result) => match json::parsed_json(text::trimmed(result.output@)) {
            Ok(v) => Ok(v),
            Err(_) => Ok(error_json("Could not parse requirements"@)),
        },
    }
}

/// Report the requirements of a skill that are not met, by how the script for
/// it ended. Keys of the configuration and the operating system are among them
/// without a check.
pub fn get_skill_requirements(outcome: ExecOutcome) -> (r: Result<serde_json::Value, AppError>)
    ensures
        match (r, requirements_answer(outcome)) {
            (Ok(v), Ok(expected)) => json::json_view(v) == expected,
            (Err(e), Err(expected)) => e@ == expected,
            _ => false,
        },
{
    match outcome {
        ExecOutcome::TimedOut => {
            Err(AppError::Validation("Requirements check timed out".to_string()))
        },
        ExecOutcome::Failed(_) => Ok(error_value("Could not check requirements")),
        ExecOutcome::Finished(result) => {
            let chars = text::chars_of(result.output.as_str());
            let output = text::string_of(text::trim(chars.as_slice()));
            Ok(requirements_report(json::parse_json(output.as_str())))
        },
    }
}

// ── What holds of a skill's description ──────────────────────────────

proof fn lemma_last_field_add(a: Seq<Seq<char>>, b: Seq<Seq<char>>, key: Seq<char>)
    ensures
        last_field(a + b, key) == (if last_field(b, key) is Some {
            last_field(b, key)
        } else {
            last_field(a, key)
        }),
    decreases b.len(),
{
    if b.len() == 0 {
        assert(a + b == a);
    } else {
        lemma_last_field_add(a, b.drop_last(), key);
        assert((a + b).drop_last() == a + b.drop_last());
        assert((a + b).last() == b.last());
    }
}

/// Only the trimmed lines decide on a field.
proof fn lemma_same_fields(a: Seq<Seq<char>>, b: Seq<Seq<char>>, key: Seq<char>)
    requires
        a.len() == b.len(),
        forall|i: int|
            0 <= i < a.len() ==> text::trimmed(#[trigger] a[i]) == text::trimmed(#[trigger] b[i]),
    ensures
        last_field(a, key) == last_field(b, key),
    decreases a.len(),
{
    if a.len() > 0 {
        assert(text::trimmed(a[a.len() - 1]) == text::trimmed(b[b.len() - 1]));
        let x = a.drop_last();
        let y = b.drop_last();
        assert forall|i: int| 0 <= i < x.len() implies text::trimmed(#[trigger] x[i])
            == text::trimmed(#[trigger] y[i]) by {
            assert(x[i] == a[i] && y[i] == b[i]);
        }
        lemma_same_fields(x, y, key);
    }
}

/// A line has no field if it does not start with the key.
proof fn lemma_no_field(line: Seq<char>, key: Seq<char>)
    requires
        !key.is_prefix_of(text::trimmed(line)),
    ensures
        last_field(seq![line], key) is None,
{
    assert(seq![line].drop_last() == Seq::<Seq<char>>::empty());
    assert(last_field(Seq::<Seq<char>>::empty(), key) is None);
}

proof fn lemma_blank_has_no_field(line: Seq<char>, key: Seq<char>)
    requires
        key.len() > 0,
        text::trimmed(line).len() == 0,
    ensures
        last_field(seq![line], key) is None,
{
    lemma_no_field(line, key);
}

proof fn lemma_field_behind_blank(c: char, s: Seq<char>, key: Seq<char>)
    requires
        key.len() > 0,
        text::is_white_space(c),
    ensures
        last_field(text::lines(seq![c] + s), key) == last_field(text::lines(s), key),
{
    let all = seq![c] + s;
    let none = Seq::<char>::empty();
    if c == '\n' {
        assert(all =~= none + seq!['\n'] + s);
        text::law_line_feeds_end_lines(none, s);
        lemma_blank_has_no_field(none, key);
        lemma_last_field_add(seq![none], text::lines(s), key);
    } else {
        text::lemma_position(s, '\n');
        let k = text::position(s, '\n') as int;
        let first = s.take(k);
        let longer = seq![c] + first;
        assert(!longer.contains('\n')) by {
            if longer.contains('\n') {
                let i = choose|i: int| 0 <= i < longer.len() && longer[i] == '\n';
                assert(s[i - 1] == '\n');
            }
        }
        lemma_blank_before(c, first);
        if k < s.len() {
            let rest = s.skip(k + 1);
            assert(all =~= longer + seq!['\n'] + rest);
            text::lemma_lines_add(longer, rest);
            text::lemma_position(longer, '\n');
            let x = text::without_carriage_return(longer);
            let y = text::without_carriage_return(first);
            assert(text::ended_lines(longer) == seq![x]);
            assert(text::lines(s) == seq![y] + text::lines(rest));
            text::lemma_return_is_trimmed(longer);
            text::lemma_return_is_trimmed(first);
            lemma_same_fields(seq![x], seq![y], key);
            lemma_last_field_add(seq![x], text::lines(rest), key);
            lemma_last_field_add(seq![y], text::lines(rest), key);
        } else {
            assert(all =~= longer);
            assert(first =~= s);
            text::law_line_feeds_end_lines(longer, none);
            if s.len() > 0 {
                assert(text::lines(s) == seq![s]);
                lemma_same_fields(seq![longer], seq![s], key);
            } else {
                assert(s =~= none);
                assert(text::trimmed(none).len() == 0);
                lemma_blank_has_no_field(longer, key);
                assert(text::lines(s) == Seq::<Seq<char>>::empty());
            }
        }
    }
}

/// White space before a text makes no difference to the trimmed text.
proof fn lemma_blank_before(c: char, s: Seq<char>)
    requires
        text::is_white_space(c),
    ensures
        text::trimmed(seq![c] + s) == text::trimmed(s),
        text::trimmed(s.push(c)) == text::trimmed(s),
{
    let p = text::blank();
    let (i, j) = text::lemma_trim_at(s, p);
    let t = s.subrange(i, j);
    let a = seq![c] + s.take(i);
    let b = s.skip(j);
    if i < j {
        assert(t[0] == s[i] && t.last() == s[j - 1]);
    }
    text::law_white_space_is_trimmed(a, t, b);
    assert(seq![c] + s =~= a + t + b);
    let before = s.take(i);
    let after = s.skip(j).push(c);
    text::law_white_space_is_trimmed(before, t, after);
    assert(s.push(c) =~= before + t + after);
}

proof fn lemma_ended_fields(s: Seq<char>, key: Seq<char>)
    requires
        key.len() > 0,
    ensures
        last_field(text::ended_lines(s), key) == last_field(text::lines(s), key),
    decreases s.len(),
{
    text::lemma_position(s, '\n');
    let k = text::position(s, '\n') as int;
    if k < s.len() {
        let first = text::without_carriage_return(s.take(k));
        let rest = s.skip(k + 1);
        lemma_ended_fields(rest, key);
        lemma_last_field_add(seq![first], text::ended_lines(rest), key);
        lemma_last_field_add(seq![first], text::lines(rest), key);
    } else if s.len() == 0 {
        assert(text::trimmed(s).len() == 0);
        assert(text::without_carriage_return(s) == s);
        lemma_blank_has_no_field(s, key);
        assert(last_field(text::lines(s), key) is None);
    } else {
        text::lemma_return_is_trimmed(s);
        lemma_same_fields(seq![text::without_carriage_return(s)], seq![s], key);
    }
}

proof fn lemma_field_before_blank(s: Seq<char>, c: char, key: Seq<char>)
    requires
        key.len() > 0,
        text::is_white_space(c),
    ensures
        last_field(text::lines(s.push(c)), key) == last_field(text::lines(s), key),
    decreases s.len(),
{
    let all = s.push(c);
    let none = Seq::<char>::empty();
    if c == '\n' {
        assert(all =~= s + seq!['\n'] + none);
        text::lemma_lines_add(s, none);
        assert(text::lines(none) == Seq::<Seq<char>>::empty());
        assert(text::ended_lines(s) + text::lines(none) =~= text::ended_lines(s));
        lemma_ended_fields(s, key);
    } else {
        text::lemma_position(s, '\n');
        let k = text::position(s, '\n') as int;
        if k < s.len() {
            let first = s.take(k);
            let rest = s.skip(k + 1);
            lemma_field_before_blank(rest, c, key);
            assert(s =~= first + seq!['\n'] + rest);
            assert(all =~= first + seq!['\n'] + rest.push(c));
            text::lemma_lines_add(first, rest);
            text::lemma_lines_add(first, rest.push(c));
            lemma_last_field_add(text::ended_lines(first), text::lines(rest), key);
            lemma_last_field_add(text::ended_lines(first), text::lines(rest.push(c)), key);
        } else {
            assert(!all.contains('\n')) by {
                if all.contains('\n') {
                    let i = choose|i: int| 0 <= i < all.len() && all[i] == '\n';
                    assert(s[i] == '\n');
                }
            }
            text::law_line_feeds_end_lines(all, none);
            lemma_blank_before(c, s);
            if s.len() > 0 {
                lemma_same_fields(seq![all], seq![s], key);
            } else {
                assert(s =~= none);
                assert(text::trimmed(none).len() == 0);
                lemma_blank_has_no_field(all, key);
                assert(last_field(text::lines(s), key) is None);
            }
        }
    }
}

proof fn lemma_field_between_blanks(before: Seq<char>, s: Seq<char>, after: Seq<char>, key: Seq<char>)
    requires
        key.len() > 0,
        forall|k: int| 0 <= k < before.len() ==> text::is_white_space(#[trigger] before[k]),
        forall|k: int| 0 <= k < after.len() ==> text::is_white_space(#[trigger] after[k]),
    ensures
        last_field(text::lines(before + s + after), key) == last_field(text::lines(s), key),
    decreases before.len() + after.len(),
{
    let all = before + s + after;
    if after.len() > 0 {
        let shorter = after.drop_last();
        assert forall|k: int| 0 <= k < shorter.len() implies text::is_white_space(
            #[trigger] shorter[k],
        ) by {
            assert(shorter[k] == after[k]);
        }
        assert(text::is_white_space(after[after.len() - 1]));
        lemma_field_between_blanks(before, s, shorter, key);
        lemma_field_before_blank(before + s + shorter, after.last(), key);
        assert(all =~= (before + s + shorter).push(after.last()));
    } else if before.len() > 0 {
        let shorter = before.drop_first();
        assert forall|k: int| 0 <= k < shorter.len() implies text::is_white_space(
            #[trigger] shorter[k],
        ) by {
            assert(shorter[k] == before[k + 1]);
        }
        assert(text::is_white_space(before[0]));
        lemma_field_between_blanks(shorter, s, after, key);
        lemma_field_behind_blank(before[0], shorter + s + after, key);
        assert(all =~= seq![before[0]] + (shorter + s + after));
    } else {
        assert(all =~= s);
    }
}

proof fn lemma_field_of_lines(lines: Seq<Seq<char>>, key: Seq<char>)
    requires
        key.len() > 0,
        lines.len() > 0,
        forall|i: int| 0 <= i < lines.len() ==> !(#[trigger] lines[i]).contains('\n'),
    ensures
        last_field(text::lines(text::trimmed(text::joined(lines, seq!['\n']))), key) == last_field(
            lines,
            key,
        ),
{
    let output = text::joined(lines, seq!['\n']);
    let (i, j) = text::lemma_trim_at(output, text::blank());
    let a = output.take(i);
    let b = output.skip(j);
    assert(output =~= a + output.subrange(i, j) + b);
    lemma_field_between_blanks(a, output.subrange(i, j), b, key);
    text::lemma_lines_of_any_joined(lines);
    lemma_ended_fields(output, key);
    let ended = text::ended_lines(output);
    assert forall|i: int| 0 <= i < lines.len() implies text::trimmed(#[trigger] ended[i])
        == text::trimmed(#[trigger] lines[i]) by {
        text::lemma_return_is_trimmed(lines[i]);
    }
    lemma_same_fields(ended, lines, key);
}

proof fn lemma_field_line(
    indent: Seq<char>,
    key: Seq<char>,
    gap: Seq<char>,
    opening: Seq<char>,
    value: Seq<char>,
    closing: Seq<char>,
)
    requires
        forall|k: int| 0 <= k < indent.len() ==> text::is_white_space(#[trigger] indent[k]),
        forall|k: int| 0 <= k < gap.len() ==> text::is_white_space(#[trigger] gap[k]),
        key.len() > 0,
        !text::is_white_space(key[0]),
        !text::is_white_space(key.last()),
        text::is_value_between(opening, value, closing),
    ensures
        last_field(seq![indent + key + gap + (opening + value + closing)], key) == Some(value),
{
    let none = Seq::<char>::empty();
    let quoted = opening + value + closing;
    let line = indent + key + gap + quoted;
    assert(seq![line].drop_last() == Seq::<Seq<char>>::empty());
    text::law_value_is_found(gap, opening, value, closing, none);
    if quoted.len() > 0 {
        let kept = key + (gap + quoted);
        assert(kept[0] == key[0]);
        assert(kept.last() == quoted.last());
        text::law_white_space_is_trimmed(indent, kept, none);
        assert(line =~= indent + kept + none);
        text::law_prefix_is_taken_off(key, gap + quoted, kept);
        assert(gap + quoted + none =~= gap + quoted);
    } else {
        text::law_white_space_is_trimmed(indent, key, gap);
        assert(line =~= indent + key + gap);
        assert(key + none =~= key);
        text::law_prefix_is_taken_off(key, none, key);
        text::law_value_is_found(none, opening, value, closing, none);
        assert(none + quoted + none =~= none);
        assert(value =~= none);
    }
}

/// Each of the four fields of a skill's description is read as it was written,
/// with any white space and any quotes around it, if no later line has the same
/// key.
pub proof fn law_field_is_read(
    skill_name: Seq<char>,
    before: Seq<Seq<char>>,
    indent: Seq<char>,
    key: Seq<char>,
    gap: Seq<char>,
    opening: Seq<char>,
    value: Seq<char>,
    closing: Seq<char>,
    after: Seq<Seq<char>>,
)
    requires
        key == "name"@ || key == "description"@ || key == "version"@ || key == "category"@,
        forall|k: int|
            0 <= k < indent.len() ==> text::is_white_space(#[trigger] indent[k]) && indent[k]
                != '\n',
        forall|k: int|
            0 <= k < gap.len() ==> text::is_white_space(#[trigger] gap[k]) && gap[k] != '\n',
        text::is_value_between(opening, value, closing),
        !value.contains('\n'),
        forall|i: int| 0 <= i < before.len() ==> !(#[trigger] before[i]).contains('\n'),
        forall|i: int|
            0 <= i < after.len() ==> !(#[trigger] after[i]).contains('\n') && !(key
                + seq![':']).is_prefix_of(text::trimmed(after[i])),
    ensures
        ({
            let line = indent + (key + seq![':']) + gap + (opening + value + closing);
            let output = text::joined(before + seq![line] + after, seq!['\n']);
            let report = report_of(skill_name, text::lines(text::trimmed(output)));
            &&& report.slug == skill_name
            &&& key == "name"@ ==> report.name == value
            &&& key == "description"@ ==> report.description == value
            &&& key == "version"@ ==> report.version == value
            &&& key == "category"@ ==> report.category == value
        }),
{
    reveal_strlit("name");
    reveal_strlit("name:");
    reveal_strlit("description");
    reveal_strlit("description:");
    reveal_strlit("version");
    reveal_strlit("version:");
    reveal_strlit("category");
    reveal_strlit("category:");
    let colon = key + seq![':'];
    let line = indent + colon + gap + (opening + value + closing);
    let all = before + seq![line] + after;
    assert("name:"@ =~= "name"@ + seq![':']);
    assert("description:"@ =~= "description"@ + seq![':']);
    assert("version:"@ =~= "version"@ + seq![':']);
    assert("category:"@ =~= "category"@ + seq![':']);
    assert(!text::is_white_space(colon[0]) && colon.last() == ':');
    lemma_field_line(indent, colon, gap, opening, value, closing);
    lemma_no_fields(after, colon);
    lemma_last_field_add(before, seq![line], colon);
    lemma_last_field_add(before + seq![line], after, colon);
    assert(!colon.contains('\n')) by {
        if colon.contains('\n') {
            let k = choose|k: int| 0 <= k < colon.len() && colon[k] == '\n';
            assert(k < key.len() ==> key[k] == '\n');
        }
    }
    lemma_line_has_no_feed(indent, colon, gap, opening, value, closing);
    assert forall|i: int| 0 <= i < all.len() implies !(#[trigger] all[i]).contains('\n') by {
        if i < before.len() {
            assert(all[i] == before[i]);
        } else if i > before.len() {
            assert(all[i] == after[i - before.len() - 1]);
        }
    }
    lemma_field_of_lines(all, colon);
}

proof fn lemma_line_has_no_feed(
    indent: Seq<char>,
    key: Seq<char>,
    gap: Seq<char>,
    opening: Seq<char>,
    value: Seq<char>,
    closing: Seq<char>,
)
    requires
        forall|k: int| 0 <= k < indent.len() ==> #[trigger] indent[k] != '\n',
        !key.contains('\n'),
        forall|k: int| 0 <= k < gap.len() ==> #[trigger] gap[k] != '\n',
        text::is_value_between(opening, value, closing),
        !value.contains('\n'),
    ensures
        !(indent + key + gap + (opening + value + closing)).contains('\n'),
{
    let line = indent + key + gap + (opening + value + closing);
    text::lemma_quotes_of_either_kind(opening);
    text::lemma_quotes_of_either_kind(closing);
    if line.contains('\n') {
        let k = choose|k: int| 0 <= k < line.len() && line[k] == '\n';
        let a = indent.len() as int;
        let b = a + key.len();
        let c = b + gap.len();
        let d = c + opening.len();
        let e = d + value.len();
        if k < a {
            assert(indent[k] == '\n');
        } else if k < b {
            assert(key[k - a] == '\n');
        } else if k < c {
            assert(gap[k - b] == '\n');
        } else if k < d {
            assert(opening[k - c] == '\n');
        } else if k < e {
            assert(value[k - d] == '\n');
        } else {
            assert(closing[k - e] == '\n');
        }
    }
}

/// A field whose line is its key, a colon, a space and its value, or the same
/// with one kind of quotes around the value, is read as that value.
pub proof fn law_plain_field_is_read(
    skill_name: Seq<char>,
    before: Seq<Seq<char>>,
    key: Seq<char>,
    quote: Seq<char>,
    value: Seq<char>,
    after: Seq<Seq<char>>,
)
    requires
        key == "name"@ || key == "description"@ || key == "version"@ || key == "category"@,
        quote == Seq::<char>::empty() || quote == seq!['"'] || quote == seq!['\''],
        !value.contains('\n'),
        value.len() > 0 ==> !text::is_white_space(value[0]) && !text::is_white_space(value.last())
            && value[0] != '"' && value.last() != '"' && value[0] != '\'' && value.last() != '\'',
        forall|i: int| 0 <= i < before.len() ==> !(#[trigger] before[i]).contains('\n'),
        forall|i: int|
            0 <= i < after.len() ==> !(#[trigger] after[i]).contains('\n') && !(key
                + seq![':']).is_prefix_of(text::trimmed(after[i])),
    ensures
        ({
            let line = key + seq![':', ' '] + quote + value + quote;
            let output = text::joined(before + seq![line] + after, seq!['\n']);
            let report = report_of(skill_name, text::lines(text::trimmed(output)));
            &&& key == "name"@ ==> report.name == value
            &&& key == "description"@ ==> report.description == value
            &&& key == "version"@ ==> report.version == value
            &&& key == "category"@ ==> report.category == value
        }),
{
    let none = Seq::<char>::empty();
    let line = key + seq![':', ' '] + quote + value + quote;
    text::lemma_plain_quotes(quote);
    law_field_is_read(skill_name, before, none, key, seq![' '], quote, value, quote, after);
    assert(line =~= none + (key + seq![':']) + seq![' '] + (quote + value + quote));
}

proof fn lemma_no_fields(lines: Seq<Seq<char>>, key: Seq<char>)
    requires
        forall|i: int|
            0 <= i < lines.len() ==> !key.is_prefix_of(text::trimmed(#[trigger] lines[i])),
    ensures
        last_field(lines, key) is None,
    decreases lines.len(),
{
    if lines.len() > 0 {
        assert(!key.is_prefix_of(text::trimmed(lines[lines.len() - 1])));
        let init = lines.drop_last();
        assert forall|i: int| 0 <= i < init.len() implies !key.is_prefix_of(
            text::trimmed(#[trigger] init[i]),
        ) by {
            assert(init[i] == lines[i]);
        }
        lemma_no_fields(init, key);
    }
}

/// A field that no line has is empty, and the name is then that of the skill.
pub proof fn law_missing_field_has_its_default(
    skill_name: Seq<char>,
    lines: Seq<Seq<char>>,
    key: Seq<char>,
)
    requires
        key == "name"@ || key == "description"@ || key == "version"@ || key == "category"@,
        lines.len() > 0,
        forall|i: int|
            0 <= i < lines.len() ==> !(#[trigger] lines[i]).contains('\n') && !(key
                + seq![':']).is_prefix_of(text::trimmed(lines[i])),
    ensures
        ({
            let output = text::joined(lines, seq!['\n']);
            let report = report_of(skill_name, text::lines(text::trimmed(output)));
            &&& key == "name"@ ==> report.name == skill_name
            &&& key == "description"@ ==> report.description.len() == 0
            &&& key == "version"@ ==> report.version.len() == 0
            &&& key == "category"@ ==> report.category.len() == 0
        }),
{
    reveal_strlit("name");
    reveal_strlit("name:");
    reveal_strlit("description");
    reveal_strlit("description:");
    reveal_strlit("version");
    reveal_strlit("version:");
    reveal_strlit("category");
    reveal_strlit("category:");
    let colon = key + seq![':'];
    assert("name:"@ =~= "name"@ + seq![':']);
    assert("description:"@ =~= "description"@ + seq![':']);
    assert("version:"@ =~= "version"@ + seq![':']);
    assert("category:"@ =~= "category"@ + seq![':']);
    lemma_no_fields(lines, colon);
    lemma_field_of_lines(lines, colon);
}

/// The answer about a Hermes skill holds all that was read, each under its own
/// name.
pub proof fn law_report_is_answered(report: SkillReportView)
    ensures
        ({
            let answer = report_json(report);
            let skill = json::member_of(answer, "skill"@);
            let version = json::member_of(answer, "latestVersion"@);
            let owner = json::member_of(answer, "owner"@);
            &&& skill is Some && version is Some && owner is Some
            &&& json::member_of(skill->0, "slug"@) == Some(JsonView::Text(report.slug))
            &&& json::member_of(skill->0, "displayName"@) == Some(JsonView::Text(report.name))
            &&& json::member_of(skill->0, "summary"@) == Some(JsonView::Text(report.description))
            &&& json::member_of(version->0, "version"@) == Some(JsonView::Text(report.version))
            &&& report.category.len() > 0 ==> json::member_of(owner->0, "handle"@) == Some(
                JsonView::Text(report.category),
            )
            &&& report.category.len() == 0 ==> json::member_of(owner->0, "handle"@) == Some(
                JsonView::Text("hermes-bundled"@),
            )
        }),
{
    reveal_strlit("skill");
    reveal_strlit("latestVersion");
    reveal_strlit("owner");
    reveal_strlit("slug");
    reveal_strlit("displayName");
    reveal_strlit("summary");
    assert("skill"@.len() == 5 && "latestVersion"@.len() == 13 && "owner"@[0] == 'o' && "skill"@[0]
        == 's');
    assert("owner"@.len() == 5);
    assert("slug"@.len() == 4 && "displayName"@.len() == 11 && "summary"@.len() == 7);
}

// ── What holds of the answers of the tools ───────────────────────────

/// A document behind other output of the registry's tool is found as it is;
/// output without a document is passed on without the white space around it.
pub proof fn law_document_is_found(
    noise: Seq<char>,
    document: Seq<char>,
    before: Seq<char>,
    plain: Seq<char>,
    after: Seq<char>,
)
    requires
        !noise.contains('{'),
        document.len() > 0,
        document[0] == '{',
        !text::is_white_space(document.last()),
        forall|k: int| 0 <= k < before.len() ==> text::is_white_space(#[trigger] before[k]),
        forall|k: int| 0 <= k < after.len() ==> text::is_white_space(#[trigger] after[k]),
        !plain.contains('{'),
        plain.len() > 0 ==> !text::is_white_space(plain[0]) && !text::is_white_space(plain.last()),
    ensures
        document_in(noise + document + after) == document,
        document_in(before + plain + after) == plain,
{
    let p = text::blank();
    let output = noise + document + after;
    let d = noise.len() as int;
    let n = d + document.len();
    let (i, j) = text::lemma_trim_at(output, p);
    assert(output[d] == '{' && !p(output[d]));
    assert(output[n - 1] == document.last() && !p(output[n - 1]));
    assert(i <= d && j >= n);
    if j > n {
        assert(output[j - 1] == after[j - 1 - n]);
    }
    let rest = noise.skip(i);
    let t = rest + document;
    assert(output.subrange(i, j) =~= t);
    assert forall|k: int| 0 <= k < rest.len() implies t[k] != '{' by {
        assert(t[k] == noise[i + k]);
        assert(noise.contains(noise[i + k]));
    }
    text::lemma_position_is(t, '{', rest.len() as int);
    assert(t.skip(rest.len() as int) =~= document);
    text::law_white_space_is_trimmed(before, plain, after);
    text::lemma_position(plain, '{');
}

/// The version that is reported is what the tool put out, without white space
/// around it; without any, or with the exit code of a missing program, the tool
/// is not there.
pub proof fn law_version_is_reported(
    before: Seq<char>,
    version: Seq<char>,
    after: Seq<char>,
    result: ExecResult,
)
    requires
        forall|k: int| 0 <= k < before.len() ==> text::is_white_space(#[trigger] before[k]),
        forall|k: int| 0 <= k < after.len() ==> text::is_white_space(#[trigger] after[k]),
        version.len() > 0 ==> !text::is_white_space(version[0]) && !text::is_white_space(
            version.last(),
        ),
        result.output@ == before + version + after,
    ensures
        version_answer(ExecOutcome::Finished(result)) is Ok <==> version.len() > 0
            && result.exit_code != Some(127i64),
        version_answer(ExecOutcome::Finished(result)) matches Ok(v) ==> v == version,
{
    text::law_white_space_is_trimmed(before, version, after);
}

/// The requirements that are reported are what is read in the output of the
/// script, without white space around it.
pub proof fn law_requirements_are_read(
    before: Seq<char>,
    document: Seq<char>,
    after: Seq<char>,
    result: ExecResult,
)
    requires
        forall|k: int| 0 <= k < before.len() ==> text::is_white_space(#[trigger] before[k]),
        forall|k: int| 0 <= k < after.len() ==> text::is_white_space(#[trigger] after[k]),
        document.len() > 0 ==> !text::is_white_space(document[0]) && !text::is_white_space(
            document.last(),
        ),
        result.output@ == before + document + after,
    ensures
        requirements_answer(ExecOutcome::Finished(result)) is Ok,
        json::parsed_json(document) matches Ok(v) ==> requirements_answer(
            ExecOutcome::Finished(result),
        )->Ok_0 == v,
        json::parsed_json(document) is Err ==> json::member_of(
            requirements_answer(ExecOutcome::Finished(result))->Ok_0,
            "error"@,
        ) == Some(JsonView::Text("Could not parse requirements"@)),
{
    text::law_white_space_is_trimmed(before, document, after);
}

// ── What holds of the commands ───────────────────────────────────────

/// A query with a character that is no white space is searched for as it is;
/// without one the agent's own skills are listed.
pub proof fn law_query_is_passed_on(agent_type: AgentType, query: Seq<char>, output: Seq<char>)
    ensures
        text::is_filled(query) && agent_type == AgentType::OpenClaw ==> search_args(
            agent_type,
            query,
        )[4] == query && search_args(agent_type, query)[3] == "search"@ && found_skills(
            agent_type,
            query,
            output,
        ) == skills::clawhub_skills(output),
        text::is_filled(query) && agent_type == AgentType::Hermes ==> search_args(
            agent_type,
            query,
        ).last() == query && search_args(agent_type, query)[2] == "search"@ && found_skills(
            agent_type,
            query,
            output,
        ) == skills::hermes_search_skills(output),
        !text::is_filled(query) ==> search_args(agent_type, query).last() == "list"@
            && search_args(agent_type, query).len() == 3,
        !text::is_filled(query) && agent_type == AgentType::OpenClaw ==> found_skills(
            agent_type,
            query,
            output,
        ) == skills::openclaw_skills(output),
        !text::is_filled(query) && agent_type == AgentType::Hermes ==> found_skills(
            agent_type,
            query,
            output,
        ) == skills::hermes_skills(output),
{
    text::law_blank_text_is_trimmed_away(query);
}

/// A search that ran to its end is answered with the skills found, whatever its
/// exit code, unless a program to search with is missing.
pub proof fn law_finished_search_is_answered(
    agent_type: AgentType,
    query: Seq<char>,
    result: ExecResult,
)
    ensures
        search_answer(agent_type, query, ExecOutcome::Finished(result)) is Ok <==> !(
        text::is_filled(query) && result.exit_code == Some(127i64)),
        search_answer(agent_type, query, ExecOutcome::Finished(result)) matches Ok(answer)
            ==> answer.skills == found_skills(agent_type, query, result.output@) && answer.total
            == answer.skills.len() as int % 4294967296,
        search_answer(agent_type, query, ExecOutcome::TimedOut) is Err,
{
    text::law_blank_text_is_trimmed_away(query);
}

/// The commands about a skill name it as it is.
pub proof fn law_skill_is_named_as_it_is(agent_type: AgentType, skill_name: Seq<char>)
    ensures
        install_args(agent_type, skill_name).contains(skill_name),
        install_args(agent_type, skill_name).contains("install"@),
        uninstall_args(agent_type, skill_name).contains(skill_name),
        uninstall_args(agent_type, skill_name).contains("uninstall"@),
        agent_type == AgentType::OpenClaw ==> inspect_args(agent_type, skill_name).contains(
            skill_name,
        ),
        agent_type == AgentType::Hermes ==> text::contains_text(
            inspect_args(agent_type, skill_name).last(),
            skill_name,
        ),
        text::contains_text(
            requirements_script(agent_type, skill_name),
            (match agent_type {
                AgentType::OpenClaw => "/app/skills"@,
                AgentType::Hermes => "$HOME/.hermes/skills"@,
            }) + seq!['/'] + skill_name,
        ),
{
    let at: int = match agent_type {
        AgentType::OpenClaw => 4,
        AgentType::Hermes => 3,
    };
    assert(install_args(agent_type, skill_name)[at] == skill_name);
    assert(install_args(agent_type, skill_name)[at - 1] == "install"@);
    assert(uninstall_args(agent_type, skill_name)[at] == skill_name);
    assert(uninstall_args(agent_type, skill_name)[at - 1] == "uninstall"@);
    if agent_type == AgentType::OpenClaw {
        assert(inspect_args(agent_type, skill_name)[4] == skill_name);
    }
    let tail = INSPECT_SCRIPT_MIDDLE@ + skill_name + INSPECT_SCRIPT_TAIL@;
    text::law_texts_hold_their_parts(INSPECT_SCRIPT_HEAD@, skill_name, tail);
    assert(inspect_script(skill_name) =~= INSPECT_SCRIPT_HEAD@ + skill_name + tail);
    reveal_strlit("/");
    assert("/"@ =~= seq!['/']);
    let dir = match agent_type {
        AgentType::OpenClaw => "/app/skills"@,
        AgentType::Hermes => "$HOME/.hermes/skills"@,
    };
    let path = dir + seq!['/'] + skill_name;
    text::law_texts_hold_their_parts(REQUIREMENTS_SCRIPT_HEAD@, path, REQUIREMENTS_SCRIPT_TAIL@);
    assert(requirements_script(agent_type, skill_name) =~= REQUIREMENTS_SCRIPT_HEAD@ + path
        + REQUIREMENTS_SCRIPT_TAIL@);
}

/// A command about a skill is run in the container of the first bot with the
/// given id, if the skill's name is accepted; the name is checked first.
pub proof fn law_skill_request_is_for_the_bot(
    bots: Seq<BotProfile>,
    id: Seq<char>,
    i: int,
    skill_name: Seq<char>,
    args: spec_fn(AgentType) -> Seq<Seq<char>>,
    timeout_secs: spec_fn(AgentType) -> Option<u64>,
)
    requires
        0 <= i <= bots.len(),
        forall|k: int| 0 <= k < i ==> (#[trigger] bots[k]).id@ != id,
        i < bots.len() ==> bots[i].id@ == id,
    ensures
        ({
            let request = skill_request(bots, id, skill_name, args, timeout_secs);
            &&& request is Ok <==> validation::skill_name_verdict(skill_name) is Ok && i
                < bots.len()
            &&& request matches Ok(r) ==> r.container_name == bots[i].container_name@ && r.args
                == args(bots[i].agent_type) && r.timeout_secs == timeout_secs(bots[i].agent_type)
            &&& request matches Err(e) ==> (e is BotNotFound <==> validation::skill_name_verdict(
                skill_name,
            ) is Ok)
        }),
{
    bots::law_first_bot_is_found(bots, id, i);
}

/// A search is run in the container of the first bot with the given id, and given
/// half a minute.
pub proof fn law_search_is_run_for_the_bot(
    bots: Seq<BotProfile>,
    id: Seq<char>,
    i: int,
    query: Seq<char>,
)
    requires
        0 <= i <= bots.len(),
        forall|k: int| 0 <= k < i ==> (#[trigger] bots[k]).id@ != id,
        i < bots.len() ==> bots[i].id@ == id,
    ensures
        search_request(bots, id, query) is Ok <==> i < bots.len(),
        search_request(bots, id, query) matches Ok(request) ==> request.container_name
            == bots[i].container_name@ && request.agent_type == bots[i].agent_type
            && request.timeout_secs == Some(30u64) && request.args == search_args(
            bots[i].agent_type,
            query,
        ),
        search_request(bots, id, query) matches Err(e) ==> e == ErrorView::BotNotFound(id),
{
    bots::law_first_bot_is_found(bots, id, i);
}

/// The registry is given half a minute to describe a skill, and the file of a
/// Hermes skill is read within five seconds.
pub proof fn law_time_limits_of_a_description()
    ensures
        inspect_timeout(AgentType::OpenClaw) == Some(30u64),
        inspect_timeout(AgentType::Hermes) == Some(5u64),
{
}

/// A description that ended is answered whatever its exit code: that of the
/// registry with its document, and that of a Hermes skill with what its file
/// says of it.
pub proof fn law_finished_description_is_answered(skill_name: Seq<char>, result: ExecResult)
    ensures
        inspect_answer(AgentType::OpenClaw, skill_name, ExecOutcome::Finished(result)) == Ok::<
            Seq<char>,
            ErrorView,
        >(document_in(result.output@)),
        inspect_answer(AgentType::Hermes, skill_name, ExecOutcome::Finished(result)) == Ok::<
            Seq<char>,
            ErrorView,
        >(
            json::json_display(
                report_json(report_of(skill_name, text::lines(text::trimmed(result.output@)))),
            ),
        ),
        inspect_answer(AgentType::OpenClaw, skill_name, ExecOutcome::TimedOut) is Err,
        inspect_answer(AgentType::Hermes, skill_name, ExecOutcome::TimedOut) is Err,
{
}

/// A command that did not end, or could not be run, is reported: the error of the
/// container is passed on where the tool is asked for its version or for a
/// description, and told in words where skills are searched for or listed.
pub proof fn law_failed_commands_are_reported(
    agent_type: AgentType,
    query: Seq<char>,
    skill_name: Seq<char>,
    reason: AppError,
)
    ensures
        version_answer(ExecOutcome::TimedOut) == Err::<Seq<char>, ErrorView>(
            ErrorView::Validation("Check timed out"@),
        ),
        version_answer(ExecOutcome::Failed(reason)) == Err::<Seq<char>, ErrorView>(reason@),
        inspect_answer(agent_type, skill_name, ExecOutcome::TimedOut) == Err::<
            Seq<char>,
            ErrorView,
        >(ErrorView::Validation("Inspect timed out"@)),
        inspect_answer(agent_type, skill_name, ExecOutcome::Failed(reason)) == Err::<
            Seq<char>,
            ErrorView,
        >(reason@),
        requirements_answer(ExecOutcome::TimedOut) == Err::<JsonView, ErrorView>(
            ErrorView::Validation("Requirements check timed out"@),
        ),
        requirements_answer(ExecOutcome::Failed(reason)) matches Ok(v) && json::member_of(
            v,
            "error"@,
        ) == Some(JsonView::Text("Could not check requirements"@)),
        search_answer(agent_type, query, ExecOutcome::TimedOut) == Err::<
            SearchResultView,
            ErrorView,
        >(
            ErrorView::Validation(
                if text::is_filled(query) {
                    "Skill search timed out."@
                } else {
                    "Skill listing timed out. Try again later."@
                },
            ),
        ),
        search_answer(agent_type, query, ExecOutcome::Failed(reason)) == Err::<
            SearchResultView,
            ErrorView,
        >(
            ErrorView::Validation(
                if text::is_filled(query) {
                    "ClawHub search failed. The container may not have network access."@
                } else {
                    "Could not list skills. Is the bot running?"@
                },
            ),
        ),
{
    text::law_blank_text_is_trimmed_away(query);
}

} // verus!
