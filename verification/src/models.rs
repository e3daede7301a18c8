//! The data the commands work on.

use vstd::prelude::*;

verus! {

/// The agent software a bot runs.
#[derive(Debug, Clone, Copy, PartialEq, Eq, Structural)]
pub enum AgentType {
    OpenClaw,
    Hermes,
}

/// An environment variable of a bot's container.
#[derive(Debug)]
pub struct EnvVar {
    pub key: String,
    pub value: String,
}

/// A port of the container published on the host.
#[derive(Debug)]
pub struct PortMapping {
    pub container_port: u16,
    pub host_port: u16,
    pub protocol: String,
}

/// How the health of a running bot is checked.
#[derive(Debug)]
pub struct HealthCheckConfig {
    pub command: Vec<String>,
    pub interval_secs: u64,
    pub retries: u32,
    pub auto_restart: bool,
}

/// What a command run in a container wrote, and its exit code if it has one.
#[derive(Debug)]
pub struct ExecResult {
    pub output: String,
    pub exit_code: Option<i64>,
}

/// A skill an agent has or can get.
#[derive(Debug)]
pub struct Skill {
    pub name: String,
    pub description: String,
    pub author: String,
    pub version: String,
    pub installed: bool,
    pub source: String,
}

/// A skill with its texts as sequences of characters.
pub struct SkillView {
    pub name: Seq<char>,
    pub description: Seq<char>,
    pub author: Seq<char>,
    pub version: Seq<char>,
    pub installed: bool,
    pub source: Seq<char>,
}

impl View for Skill {
    type V = SkillView;

    open spec fn view(&self) -> SkillView {
        SkillView {
            name: self.name@,
            description: self.description@,
            author: self.author@,
            version: self.version@,
            installed: self.installed,
            source: self.source@,
        }
    }
}

} // verus!
