//! The rules a request has to meet before anything is done for it.

use vstd::prelude::*;
use crate::error;
use crate::error::{AppError, ErrorView};
use crate::models::{EnvVar, HealthCheckConfig, PortMapping};
use crate::text;
use crate::unicode;

verus! {

// ── Workspace paths ──────────────────────────────────────────────────

/// The directories that must never be used as workspace paths.
pub open spec fn blocked_workspace_paths() -> Seq<Seq<char>> {
    seq![
        "/"@, "/etc"@, "/var"@, "/usr"@, "/bin"@, "/sbin"@, "/lib"@, "/System"@, "/Library"@,
        "/private"@, "/dev"@, "/proc"@, "/sys"@, "/tmp"@, "/boot"@, "/root"@,
    ]
}

/// The verdict on a workspace path, given its canonical form, if it exists,
/// and whether that is a directory.
pub open spec fn workspace_path_verdict(
    path: Seq<char>,
    canonical: Option<Seq<char>>,
    is_dir: bool,
) -> Result<(), ErrorView> {
    match canonical {
        None => Err(ErrorView::Validation("Workspace path does not exist: "@ + path)),
        Some(resolved) => {
            if blocked_workspace_paths().contains(resolved) {
                Err(
                    ErrorView::Validation(
                        "Workspace path '"@ + resolved + "' is a sensitive system directory"@,
                    ),
                )
            } else if !is_dir {
                Err(ErrorView::Validation("Workspace path must be a directory"@))
            } else {
                Ok(())
            }
        },
    }
}

/// Check a workspace path. `canonical` is the path with all links resolved,
/// or `None` if it does not exist; `is_dir` says whether that is a directory.
pub fn validate_workspace_path(path: &str, canonical: Option<&str>, is_dir: bool) -> (r: Result<
    (),
    AppError,
>)
    ensures
        error::outcome(r) == workspace_path_verdict(
            path@,
            text::option_view(canonical),
            is_dir,
        ),
{
    let resolved = match canonical {
        Some(resolved) => resolved,
        None => {
            return Err(
                AppError::Validation(text::concat2("Workspace path does not exist: ", path)),
            );
        },
    };
    let blocked = vec![
        "/", "/etc", "/var", "/usr", "/bin", "/sbin", "/lib", "/System", "/Library",
        "/private", "/dev", "/proc", "/sys", "/tmp", "/boot", "/root",
    ];
    assert(text::strs(blocked@) == blocked_workspace_paths());
    if text::listed(blocked.as_slice(), text::chars_of(resolved).as_slice()) {
        return Err(
            AppError::Validation(
                text::concat3("Workspace path '", resolved, "' is a sensitive system directory"),
            ),
        );
    }
    if !is_dir {
        return Err(AppError::Validation("Workspace path must be a directory".to_string()));
    }
    Ok(())
}

/// A workspace path, its canonical form if it exists, and whether that is a
/// directory.
#[derive(Debug)]
pub struct WorkspaceFacts {
    pub path: String,
    pub canonical: Option<String>,
    pub is_dir: bool,
}

/// The verdict on the choice of a workspace, which may be none.
pub open spec fn workspace_verdict(workspace: Option<WorkspaceFacts>) -> Result<(), ErrorView> {
    match workspace {
        Some(w) => workspace_path_verdict(w.path@, text::option_view(w.canonical), w.is_dir),
        None => Ok(()),
    }
}

/// Check the choice of a workspace, which may be none.
pub fn set_workspace_path(workspace: &Option<WorkspaceFacts>) -> (r: Result<(), AppError>)
    ensures
        error::outcome(r) == workspace_verdict(*workspace),
{
    match workspace {
        Some(w) => {
            let canonical = match &w.canonical {
                Some(resolved) => Some(resolved.as_str()),
                None => None,
            };
            validate_workspace_path(w.path.as_str(), canonical, w.is_dir)
        },
        None => Ok(()),
    }
}

// ── Environment variables ────────────────────────────────────────────

/// The keys of environment variables that a user may not set.
pub open spec fn blocked_env_keys() -> Seq<Seq<char>> {
    seq![
        "PATH"@, "LD_PRELOAD"@, "LD_LIBRARY_PATH"@, "DYLD_INSERT_LIBRARIES"@,
        "DYLD_LIBRARY_PATH"@, "NODE_OPTIONS"@, "PYTHONPATH"@, "RUBYLIB"@, "PERL5LIB"@,
        "CLASSPATH"@, "HOME"@, "USER"@, "SHELL"@,
    ]
}

/// An ASCII text in capital letters.
pub open spec fn in_capitals(s: Seq<char>) -> Seq<char> {
    s.map_values(|c: char| unicode::ascii_upper(c))
}

/// The verdict on the key of one environment variable, given the key in upper
/// case.
pub open spec fn env_key_verdict(key: Seq<char>, upper: Seq<char>) -> Result<(), ErrorView> {
    if blocked_env_keys().contains(upper) {
        Err(
            ErrorView::Validation(
                "Environment variable '"@ + key + "' is blocked for security reasons"@,
            ),
        )
    } else if key.len() == 0 || key.contains('=') || key.contains('\0') {
        Err(ErrorView::Validation("Invalid environment variable key: '"@ + key + "'"@))
    } else {
        Ok(())
    }
}

/// The verdicts on the keys of environment variables.
pub open spec fn env_checks(env_vars: Seq<EnvVar>) -> Seq<Result<(), ErrorView>> {
    Seq::new(
        env_vars.len(),
        |i: int| env_key_verdict(env_vars[i].key@, unicode::uppercased(env_vars[i].key@)),
    )
}

/// The verdicts on the keys of environment variables, if they are ASCII texts.
pub open spec fn ascii_env_checks(env_vars: Seq<EnvVar>) -> Seq<Result<(), ErrorView>> {
    Seq::new(
        env_vars.len(),
        |i: int| env_key_verdict(env_vars[i].key@, in_capitals(env_vars[i].key@)),
    )
}

/// Whether the keys of environment variables are ASCII texts.
pub open spec fn has_ascii_keys(env_vars: Seq<EnvVar>) -> bool {
    forall|i: int| 0 <= i < env_vars.len() ==> unicode::is_ascii_text(#[trigger] env_vars[i].key@)
}

/// Check the key of an environment variable, given the key in upper case.
pub fn validate_env_key(key: &str, upper: &str) -> (r: Result<(), AppError>)
    ensures
        error::outcome(r) == env_key_verdict(key@, upper@),
{
    let blocked = vec![
        "PATH", "LD_PRELOAD", "LD_LIBRARY_PATH", "DYLD_INSERT_LIBRARIES",
        "DYLD_LIBRARY_PATH", "NODE_OPTIONS", "PYTHONPATH", "RUBYLIB", "PERL5LIB",
        "CLASSPATH", "HOME", "USER", "SHELL",
    ];
    assert(text::strs(blocked@) == blocked_env_keys());
    if text::listed(blocked.as_slice(), text::chars_of(upper).as_slice()) {
        return Err(
            AppError::Validation(
                text::concat3(
                    "Environment variable '",
                    key,
                    "' is blocked for security reasons",
                ),
            ),
        );
    }
    let chars = text::chars_of(key);
    if chars.len() == 0 || text::contains_char(chars.as_slice(), '=') || text::contains_char(
        chars.as_slice(),
        '\0',
    ) {
        return Err(
            AppError::Validation(text::concat3("Invalid environment variable key: '", key, "'")),
        );
    }
    Ok(())
}

/// Check the environment variables of a bot: the first bad key is reported.
/// A blocked key is not accepted in lower case either.
pub fn validate_env_vars(env_vars: &[EnvVar]) -> (r: Result<(), AppError>)
    ensures
        error::outcome(r) == error::first_failure(env_checks(env_vars@)),
        has_ascii_keys(env_vars@) ==> error::outcome(r) == error::first_failure(
            ascii_env_checks(env_vars@),
        ),
{
    let ghost checks = env_checks(env_vars@);
    let ghost ascii_checks = ascii_env_checks(env_vars@);
    for i in 0..env_vars.len()
        invariant
            checks == env_checks(env_vars@),
            ascii_checks == ascii_env_checks(env_vars@),
            forall|j: int| 0 <= j < i ==> checks[j] is Ok,
            has_ascii_keys(env_vars@) ==> forall|j: int| 0 <= j < i ==> ascii_checks[j] is Ok,
    {
        let key = env_vars[i].key.as_str();
        assert(has_ascii_keys(env_vars@) ==> unicode::is_ascii_text(env_vars@[i as int].key@));
        let r = validate_env_key(key, key.to_uppercase().as_str());
        assert(checks[i as int] == error::outcome(r));
        assert(has_ascii_keys(env_vars@) ==> ascii_checks[i as int] == error::outcome(r));
        if r.is_err() {
            proof {
                error::lemma_first_failure(checks, i as int);
                if has_ascii_keys(env_vars@) {
                    error::lemma_first_failure(ascii_checks, i as int);
                }
            }
            return r;
        }
    }
    proof {
        error::lemma_first_failure(checks, env_vars@.len() as int);
        if has_ascii_keys(env_vars@) {
            error::lemma_first_failure(ascii_checks, env_vars@.len() as int);
        }
    }
    Ok(())
}

// ── Port mappings ────────────────────────────────────────────────────

/// The verdict on one port mapping.
pub open spec fn port_mapping_verdict(m: PortMapping) -> Result<(), ErrorView> {
    if m.protocol@ != "tcp"@ && m.protocol@ != "udp"@ {
        Err(
            ErrorView::Validation(
                "Invalid protocol '"@ + m.protocol@ + "': must be 'tcp' or 'udp'"@,
            ),
        )
    } else if m.container_port == 0 || m.host_port == 0 {
        Err(ErrorView::Validation("Port numbers must be between 1 and 65535"@))
    } else if m.host_port < 1024 {
        Err(
            ErrorView::Validation(
                "Host port "@ + text::decimal(m.host_port as nat)
                    + " is privileged (< 1024); use a port >= 1024"@,
            ),
        )
    } else {
        Ok(())
    }
}

pub open spec fn port_mappings_verdict(mappings: Seq<PortMapping>) -> Result<(), ErrorView> {
    error::first_failure(Seq::new(mappings.len(), |i: int| port_mapping_verdict(mappings[i])))
}

fn validate_port_mapping(m: &PortMapping) -> (r: Result<(), AppError>)
    ensures
        error::outcome(r) == port_mapping_verdict(*m),
{
    let protocol = m.protocol.as_str();
    if !text::same_str(protocol, "tcp") && !text::same_str(protocol, "udp") {
        return Err(
            AppError::Validation(
                text::concat3("Invalid protocol '", protocol, "': must be 'tcp' or 'udp'"),
            ),
        );
    }
    if m.container_port == 0 || m.host_port == 0 {
        return Err(AppError::Validation("Port numbers must be between 1 and 65535".to_string()));
    }
    if m.host_port < 1024 {
        return Err(
            AppError::Validation(
                text::concat3(
                    "Host port ",
                    text::decimal_string(m.host_port as u64).as_str(),
                    " is privileged (< 1024); use a port >= 1024",
                ),
            ),
        );
    }
    Ok(())
}

/// Check the port mappings of a bot: the first bad one is reported.
pub fn validate_port_mappings(mappings: &[PortMapping]) -> (r: Result<(), AppError>)
    ensures
        error::outcome(r) == port_mappings_verdict(mappings@),
{
    let ghost checks = Seq::new(mappings@.len(), |i: int| port_mapping_verdict(mappings@[i]));
    for i in 0..mappings.len()
        invariant
            checks == Seq::new(mappings@.len(), |i: int| port_mapping_verdict(mappings@[i])),
            forall|j: int| 0 <= j < i ==> checks[j] is Ok,
    {
        let r = validate_port_mapping(&mappings[i]);
        assert(checks[i as int] == error::outcome(r));
        if r.is_err() {
            proof {
                error::lemma_first_failure(checks, i as int);
            }
            return r;
        }
    }
    proof {
        error::lemma_first_failure(checks, mappings@.len() as int);
    }
    Ok(())
}

// ── Resource limits ──────────────────────────────────────────────────

/// The smallest memory limit of a container, in bytes.
pub const MIN_MEMORY_LIMIT: u64 = 4194304;

/// The verdict on the resource limits of a bot.
pub open spec fn resource_limits_verdict(
    cpu_in_range: Option<bool>,
    memory_limit: Option<u64>,
) -> Result<(), ErrorView> {
    if cpu_in_range == Some(false) {
        Err(ErrorView::Validation("CPU limit must be between 0.01 and 128 cores"@))
    } else if memory_limit is Some && memory_limit->0 < MIN_MEMORY_LIMIT {
        Err(ErrorView::Validation("Memory limit must be at least 4 MB"@))
    } else {
        Ok(())
    }
}

/// Check the resource limits of a bot. `cpu_in_range` says of a CPU limit, if
/// one is given, whether it is above 0 and at most 128 cores.
pub fn validate_resource_limits(cpu_in_range: Option<bool>, memory_limit: Option<u64>) -> (r:
    Result<(), AppError>)
    ensures
        error::outcome(r) == resource_limits_verdict(cpu_in_range, memory_limit),
{
    if let Some(in_range) = cpu_in_range {
        if !in_range {
            return Err(
                AppError::Validation("CPU limit must be between 0.01 and 128 cores".to_string()),
            );
        }
    }
    if let Some(bytes) = memory_limit {
        if bytes < MIN_MEMORY_LIMIT {
            return Err(AppError::Validation("Memory limit must be at least 4 MB".to_string()));
        }
    }
    Ok(())
}

// ── Images ───────────────────────────────────────────────────────────

/// The trusted image registries and images.
pub open spec fn trusted_registries() -> Seq<Seq<char>> {
    seq!["ghcr.io/openclaw/"@, "nousresearch/hermes-agent"@, "docker.io/library/"@, "busybox"@]
}

/// Whether `image` is covered by the trusted entry `entry`: any image of a
/// registry, whose entry ends with `/`, or the image itself, with or without
/// a tag.
pub open spec fn covered_by(image: Seq<char>, entry: Seq<char>) -> bool {
    entry.is_prefix_of(image) && (entry.last() == '/' || image.len() == entry.len()
        || image[entry.len() as int] == ':')
}

/// Whether the image comes from a trusted registry.
pub open spec fn is_trusted_image(image: Seq<char>) -> bool {
    exists|i: int|
        0 <= i < trusted_registries().len() && #[trigger] covered_by(
            image,
            trusted_registries()[i],
        )
}

pub open spec fn image_name_verdict(image: Seq<char>) -> Result<(), ErrorView> {
    if image.len() == 0 {
        Err(ErrorView::Validation("Image name must not be empty"@))
    } else if is_trusted_image(image) {
        Ok(())
    } else {
        Err(ErrorView::Validation("Image '"@ + image + "' is not from a trusted registry"@))
    }
}

/// Check that an image comes from a trusted registry.
pub fn validate_image_name(image: &str) -> (r: Result<(), AppError>)
    ensures
        error::outcome(r) == image_name_verdict(image@),
{
    let chars = text::chars_of(image);
    if chars.len() == 0 {
        return Err(AppError::Validation("Image name must not be empty".to_string()));
    }
    let trusted = vec![
        "ghcr.io/openclaw/", "nousresearch/hermes-agent", "docker.io/library/", "busybox",
    ];
    assert(text::strs(trusted@) == trusted_registries());
    for i in 0..trusted.len()
        invariant
            chars@ == image@,
            chars@.len() > 0,
            text::strs(trusted@) == trusted_registries(),
            forall|j: int| 0 <= j < i ==> !#[trigger] covered_by(image@, trusted_registries()[j]),
    {
        let entry = text::chars_of(trusted[i]);
        assert(entry@ == trusted_registries()[i as int]);
        proof {
            reveal_strlit("ghcr.io/openclaw/");
            reveal_strlit("nousresearch/hermes-agent");
            reveal_strlit("docker.io/library/");
            reveal_strlit("busybox");
        }
        if text::starts_with(chars.as_slice(), trusted[i]) {
            if entry[entry.len() - 1] == '/' || chars.len() == entry.len() || chars[entry.len()]
                == ':' {
                assert(covered_by(image@, trusted_registries()[i as int]));
                return Ok(());
            }
        }
    }
    Err(
        AppError::Validation(
            text::concat3("Image '", image, "' is not from a trusted registry"),
        ),
    )
}

// ── Skill names ──────────────────────────────────────────────────────

/// The characters a skill name is made of.
pub open spec fn is_skill_name_char(c: char) -> bool {
    unicode::is_alphanumeric(c) || "-_./@"@.contains(c)
}

/// The ASCII characters a skill name may have. None of them means anything to
/// a shell inside double quotes.
pub open spec fn is_plain_ascii(c: char) -> bool {
    text::is_ascii_alphanumeric(c) || "-_./@"@.contains(c)
}

/// The verdict on a skill name, given which characters it may have.
pub open spec fn name_verdict(name: Seq<char>, allowed: spec_fn(char) -> bool) -> Result<
    (),
    ErrorView,
> {
    if name.len() == 0 {
        Err(ErrorView::Validation("Skill name must not be empty"@))
    } else if text::contains_text(name, ".."@) || exists|i: int|
        0 <= i < name.len() && !allowed(#[trigger] name[i]) {
        Err(ErrorView::Validation("Invalid skill name: '"@ + name + "'"@))
    } else {
        Ok(())
    }
}

pub open spec fn skill_name_verdict(name: Seq<char>) -> Result<(), ErrorView> {
    name_verdict(name, |c: char| is_skill_name_char(c))
}

/// Whether the ASCII characters of a text are such as a skill name may have.
pub open spec fn has_plain_ascii(name: Seq<char>) -> bool {
    forall|i: int| 0 <= i < name.len() && name[i] <= '\u{7f}' ==> is_plain_ascii(#[trigger] name[i])
}

/// Validate a skill name: letters, digits, `-`, `_`, `.`, `/` and `@`, without
/// a step up to a parent directory.
pub fn validate_skill_name(name: &str) -> (r: Result<(), AppError>)
    ensures
        error::outcome(r) == skill_name_verdict(name@),
        unicode::is_ascii_text(name@) ==> error::outcome(r) == name_verdict(
            name@,
            |c: char| is_plain_ascii(c),
        ),
        r is Ok ==> has_plain_ascii(name@),
{
    let chars = text::chars_of(name);
    if chars.len() == 0 {
        return Err(AppError::Validation("Skill name must not be empty".to_string()));
    }
    if text::contains(chars.as_slice(), "..") {
        return Err(AppError::Validation(text::concat3("Invalid skill name: '", name, "'")));
    }
    let punctuation = text::chars_of("-_./@");
    for i in 0..chars.len()
        invariant
            chars@ == name@,
            name@.len() > 0,
            punctuation@ == "-_./@"@,
            forall|j: int| 0 <= j < i ==> is_skill_name_char(#[trigger] name@[j]),
            forall|j: int|
                0 <= j < i && name@[j] <= '\u{7f}' ==> is_plain_ascii(#[trigger] name@[j]),
    {
        if !chars[i].is_alphanumeric() && !text::contains_char(punctuation.as_slice(), chars[i]) {
            assert(!is_skill_name_char(name@[i as int]));
            assert(name@[i as int] <= '\u{7f}' ==> !is_plain_ascii(name@[i as int]));
            return Err(AppError::Validation(text::concat3("Invalid skill name: '", name, "'")));
        }
    }
    assert forall|i: int| 0 <= i < name@.len() && unicode::is_ascii_text(
        name@,
    ) implies is_plain_ascii(#[trigger] name@[i]) by {
        assert(name@[i] < '\u{80}');
    }
    Ok(())
}

// ── Health checks ────────────────────────────────────────────────────

/// Whether a command says nothing to run: no argument, or only blank ones.
pub open spec fn is_blank_command(command: Seq<String>) -> bool {
    forall|i: int| 0 <= i < command.len() ==> text::trimmed(#[trigger] command[i]@).len() == 0
}

pub open spec fn health_check_verdict(config: Option<HealthCheckConfig>) -> Result<(), ErrorView> {
    match config {
        None => Ok(()),
        Some(hc) => {
            if is_blank_command(hc.command@) {
                Err(ErrorView::Validation("Health check command must not be empty"@))
            } else if hc.interval_secs < 5 {
                Err(ErrorView::Validation("Health check interval must be at least 5 seconds"@))
            } else if hc.retries < 1 {
                Err(ErrorView::Validation("Health check retries must be at least 1"@))
            } else {
                Ok(())
            }
        },
    }
}

fn blank_command(command: &Vec<String>) -> (r: bool)
    ensures
        r == is_blank_command(command@),
{
    for i in 0..command.len()
        invariant
            forall|j: int| 0 <= j < i ==> text::trimmed(#[trigger] command@[j]@).len() == 0,
    {
        let chars = text::chars_of(command[i].as_str());
        if text::trim(chars.as_slice()).len() > 0 {
            assert(text::trimmed(command@[i as int]@).len() > 0);
            return false;
        }
    }
    true
}

/// Check the health check configuration of a bot, if there is one.
pub fn validate_health_check(config: &Option<HealthCheckConfig>) -> (r: Result<(), AppError>)
    ensures
        error::outcome(r) == health_check_verdict(*config),
{
    if let Some(hc) = config {
        if blank_command(&hc.command) {
            return Err(AppError::Validation("Health check command must not be empty".to_string()));
        }
        if hc.interval_secs < 5 {
            return Err(
                AppError::Validation(
                    "Health check interval must be at least 5 seconds".to_string(),
                ),
            );
        }
        if hc.retries < 1 {
            return Err(AppError::Validation("Health check retries must be at least 1".to_string()));
        }
    }
    Ok(())
}

// ── Commands to run ──────────────────────────────────────────────────

/// Check the arguments of a command to run in a container.
pub fn validate_exec_args(args: &[String]) -> (r: Result<(), AppError>)
    ensures
        error::outcome(r) == (if args@.len() == 0 {
            Err(ErrorView::Validation("Command must not be empty"@))
        } else {
            Ok(())
        }),
{
    if args.len() == 0 {
        return Err(AppError::Validation("Command must not be empty".to_string()));
    }
    Ok(())
}

// ── What holds of what is accepted ───────────────────────────────────

/// An accepted workspace exists, is a directory, and is none of the system's.
pub proof fn law_accepted_workspace(path: Seq<char>, canonical: Option<Seq<char>>, is_dir: bool)
    ensures
        workspace_path_verdict(path, canonical, is_dir) is Ok <==> canonical is Some && is_dir
            && !blocked_workspace_paths().contains(canonical->0),
{
}

/// Environment variables are accepted exactly if no key is blocked, empty, or
/// broken by an equals sign or a null character.
pub proof fn law_accepted_env_vars(env_vars: Seq<EnvVar>)
    ensures
        error::first_failure(env_checks(env_vars)) is Ok <==> forall|i: int|
            0 <= i < env_vars.len() ==> {
                let key = (#[trigger] env_vars[i]).key@;
                !blocked_env_keys().contains(unicode::uppercased(key)) && key.len() > 0
                    && !key.contains('=') && !key.contains('\0')
            },
{
    let checks = env_checks(env_vars);
    error::law_first_failure(checks);
    if error::first_failure(checks) is Ok {
        assert forall|i: int| 0 <= i < env_vars.len() implies {
            let key = (#[trigger] env_vars[i]).key@;
            !blocked_env_keys().contains(unicode::uppercased(key)) && key.len() > 0
                && !key.contains('=') && !key.contains('\0')
        } by {
            assert(checks[i] is Ok);
        }
    }
}

/// A blocked key is blocked in any mixture of capital and small letters.
pub proof fn law_case_does_not_matter(env_vars: Seq<EnvVar>, i: int)
    requires
        0 <= i < env_vars.len(),
        blocked_env_keys().contains(in_capitals(env_vars[i].key@)),
    ensures
        error::first_failure(ascii_env_checks(env_vars)) is Err,
{
    let checks = ascii_env_checks(env_vars);
    error::law_first_failure(checks);
    assert(checks[i] is Err);
}

/// Port mappings are accepted exactly if each has a known protocol, a port of
/// the container, and a port of the host that is not privileged.
pub proof fn law_accepted_port_mappings(mappings: Seq<PortMapping>)
    ensures
        port_mappings_verdict(mappings) is Ok <==> forall|i: int|
            0 <= i < mappings.len() ==> {
                let m = #[trigger] mappings[i];
                (m.protocol@ == "tcp"@ || m.protocol@ == "udp"@) && m.container_port >= 1
                    && m.host_port >= 1024
            },
{
    let checks = Seq::new(mappings.len(), |i: int| port_mapping_verdict(mappings[i]));
    error::law_first_failure(checks);
    assert forall|i: int| 0 <= i < mappings.len() implies (checks[i] is Ok <==> {
        let m = #[trigger] mappings[i];
        (m.protocol@ == "tcp"@ || m.protocol@ == "udp"@) && m.container_port >= 1 && m.host_port
            >= 1024
    }) by {
        assert(checks[i] == port_mapping_verdict(mappings[i]));
    }
    if port_mappings_verdict(mappings) is Ok {
        assert forall|i: int| 0 <= i < mappings.len() implies {
            let m = #[trigger] mappings[i];
            (m.protocol@ == "tcp"@ || m.protocol@ == "udp"@) && m.container_port >= 1
                && m.host_port >= 1024
        } by {
            assert(checks[i] is Ok);
        }
    }
}

/// Every image of a trusted registry is accepted, and every trusted image,
/// with or without a tag.
pub proof fn law_trusted_images_are_accepted(rest: Seq<char>)
    ensures
        image_name_verdict("ghcr.io/openclaw/"@ + rest) is Ok,
        image_name_verdict("docker.io/library/"@ + rest) is Ok,
        image_name_verdict("nousresearch/hermes-agent"@) is Ok,
        image_name_verdict("nousresearch/hermes-agent"@ + seq![':'] + rest) is Ok,
        image_name_verdict("busybox"@) is Ok,
        image_name_verdict("busybox"@ + seq![':'] + rest) is Ok,
{
    reveal_strlit("ghcr.io/openclaw/");
    reveal_strlit("nousresearch/hermes-agent");
    reveal_strlit("docker.io/library/");
    reveal_strlit("busybox");
    let trusted = trusted_registries();
    lemma_covers(trusted[0], rest);
    lemma_covers(trusted[2], rest);
    lemma_covers(trusted[1], seq![]);
    lemma_covers(trusted[1], seq![':'] + rest);
    lemma_covers(trusted[3], seq![]);
    lemma_covers(trusted[3], seq![':'] + rest);
    assert(trusted[1] + (seq![':'] + rest) == trusted[1] + seq![':'] + rest);
    assert(trusted[3] + (seq![':'] + rest) == trusted[3] + seq![':'] + rest);
    assert(trusted[1] + Seq::<char>::empty() == trusted[1]);
    assert(trusted[3] + Seq::<char>::empty() == trusted[3]);
}

proof fn lemma_covers(entry: Seq<char>, rest: Seq<char>)
    requires
        entry.len() > 0,
        entry.last() == '/' || rest.len() == 0 || rest[0] == ':',
    ensures
        covered_by(entry + rest, entry),
{
    assert((entry + rest).subrange(0, entry.len() as int) == entry);
}

/// An image is not trusted for a name that only starts like that of a trusted
/// one.
pub proof fn law_similar_images_are_rejected(c: char, rest: Seq<char>)
    requires
        c != ':',
    ensures
        image_name_verdict("nousresearch/hermes-agent"@ + seq![c] + rest) is Err,
        image_name_verdict("busybox"@ + seq![c] + rest) is Err,
{
    reveal_strlit("ghcr.io/openclaw/");
    reveal_strlit("nousresearch/hermes-agent");
    reveal_strlit("docker.io/library/");
    reveal_strlit("busybox");
    let trusted = trusted_registries();
    let a = "nousresearch/hermes-agent"@ + seq![c] + rest;
    let b = "busybox"@ + seq![c] + rest;
    assert(a[0] == 'n' && a[25] == c);
    assert(b[0] == 'b' && b[7] == c);
    assert forall|i: int| 0 <= i < trusted.len() implies !#[trigger] covered_by(a, trusted[i])
        && !covered_by(b, trusted[i]) by {
        text::lemma_prefix_first(a, trusted[i]);
        text::lemma_prefix_first(b, trusted[i]);
        assert(i == 0 || i == 1 || i == 2 || i == 3);
    }
    assert forall|i: int| 0 <= i < trusted.len() implies !#[trigger] covered_by(b, trusted[i]) by {
        assert(!covered_by(a, trusted[i]) && !covered_by(b, trusted[i]));
    }
}

/// An accepted health check has something to run, waits between two checks,
/// and allows at least one failure.
pub proof fn law_accepted_health_check(config: HealthCheckConfig)
    ensures
        health_check_verdict(Some(config)) is Ok <==> config.interval_secs >= 5 && config.retries
            >= 1 && exists|i: int|
            0 <= i < config.command@.len() && text::trimmed(#[trigger] config.command@[i]@).len()
                > 0,
{
}

/// The directories that are refused as workspaces are those of the system.
pub proof fn law_system_directories_are_refused(path: Seq<char>, resolved: Seq<char>)
    ensures
        workspace_path_verdict(path, Some(resolved), true) is Err <==> (resolved == "/"@ || resolved
            == "/etc"@ || resolved == "/var"@ || resolved == "/usr"@ || resolved == "/bin"@
            || resolved == "/sbin"@ || resolved == "/lib"@ || resolved == "/System"@ || resolved
            == "/Library"@ || resolved == "/private"@ || resolved == "/dev"@ || resolved
            == "/proc"@ || resolved == "/sys"@ || resolved == "/tmp"@ || resolved == "/boot"@
            || resolved == "/root"@),
        workspace_path_verdict(path, Some(resolved), false) is Err,
        workspace_path_verdict(path, None, true) is Err,
{
    let blocked = blocked_workspace_paths();
    assert(blocked[0] == "/"@ && blocked[1] == "/etc"@ && blocked[2] == "/var"@ && blocked[3]
        == "/usr"@ && blocked[4] == "/bin"@ && blocked[5] == "/sbin"@ && blocked[6] == "/lib"@
        && blocked[7] == "/System"@ && blocked[8] == "/Library"@ && blocked[9] == "/private"@
        && blocked[10] == "/dev"@ && blocked[11] == "/proc"@ && blocked[12] == "/sys"@
        && blocked[13] == "/tmp"@ && blocked[14] == "/boot"@ && blocked[15] == "/root"@);
    if blocked.contains(resolved) {
        let i = choose|i: int| 0 <= i < blocked.len() && blocked[i] == resolved;
        assert(blocked.len() == 16);
    }
}

/// A refused workspace is named in the report, and the choice of no workspace is
/// accepted.
pub proof fn law_refused_workspace_is_named(path: Seq<char>, resolved: Seq<char>, is_dir: bool)
    ensures
        workspace_path_verdict(path, None, is_dir) == Err::<(), ErrorView>(
            ErrorView::Validation("Workspace path does not exist: "@ + path),
        ),
        workspace_path_verdict(path, Some(resolved), true) matches Err(e) ==> e
            == ErrorView::Validation(
            "Workspace path '"@ + resolved + "' is a sensitive system directory"@,
        ),
        !blocked_workspace_paths().contains(resolved) ==> workspace_path_verdict(
            path,
            Some(resolved),
            false,
        ) == Err::<(), ErrorView>(ErrorView::Validation("Workspace path must be a directory"@)),
        workspace_verdict(None) is Ok,
{
}

/// The keys that are refused are those of the system, in upper case, and those
/// that are empty or have an equals sign or a null character.
pub proof fn law_refused_env_keys(key: Seq<char>, upper: Seq<char>)
    ensures
        ({
            let blocked = upper == "PATH"@ || upper == "LD_PRELOAD"@ || upper
                == "LD_LIBRARY_PATH"@ || upper == "DYLD_INSERT_LIBRARIES"@ || upper
                == "DYLD_LIBRARY_PATH"@ || upper == "NODE_OPTIONS"@ || upper == "PYTHONPATH"@
                || upper == "RUBYLIB"@ || upper == "PERL5LIB"@ || upper == "CLASSPATH"@ || upper
                == "HOME"@ || upper == "USER"@ || upper == "SHELL"@;
            let broken = key.len() == 0 || exists|i: int|
                0 <= i < key.len() && (#[trigger] key[i] == '=' || key[i] == '\0');
            &&& env_key_verdict(key, upper) is Err <==> blocked || broken
            &&& blocked ==> env_key_verdict(key, upper) == Err::<(), ErrorView>(
                ErrorView::Validation(
                    "Environment variable '"@ + key + "' is blocked for security reasons"@,
                ),
            )
            &&& broken && !blocked ==> env_key_verdict(key, upper) == Err::<(), ErrorView>(
                ErrorView::Validation("Invalid environment variable key: '"@ + key + "'"@),
            )
        }),
{
    let blocked = blocked_env_keys();
    assert(blocked[0] == "PATH"@ && blocked[1] == "LD_PRELOAD"@ && blocked[2]
        == "LD_LIBRARY_PATH"@ && blocked[3] == "DYLD_INSERT_LIBRARIES"@ && blocked[4]
        == "DYLD_LIBRARY_PATH"@ && blocked[5] == "NODE_OPTIONS"@ && blocked[6] == "PYTHONPATH"@
        && blocked[7] == "RUBYLIB"@ && blocked[8] == "PERL5LIB"@ && blocked[9] == "CLASSPATH"@
        && blocked[10] == "HOME"@ && blocked[11] == "USER"@ && blocked[12] == "SHELL"@);
    if blocked.contains(upper) {
        let i = choose|i: int| 0 <= i < blocked.len() && blocked[i] == upper;
        assert(blocked.len() == 13);
    }
}

/// The first port mapping that is refused is reported: by its protocol if that
/// is unknown, and a privileged port by its number.
pub proof fn law_refused_port_mapping_is_named(mappings: Seq<PortMapping>, i: int)
    requires
        0 <= i < mappings.len(),
        forall|k: int|
            0 <= k < i ==> {
                let m = #[trigger] mappings[k];
                (m.protocol@ == "tcp"@ || m.protocol@ == "udp"@) && m.container_port >= 1
                    && m.host_port >= 1024
            },
    ensures
        ({
            let m = mappings[i];
            let known = m.protocol@ == "tcp"@ || m.protocol@ == "udp"@;
            &&& !known ==> port_mappings_verdict(mappings) == Err::<(), ErrorView>(
                ErrorView::Validation(
                    "Invalid protocol '"@ + m.protocol@ + "': must be 'tcp' or 'udp'"@,
                ),
            )
            &&& known && (m.container_port == 0 || m.host_port == 0)
                ==> port_mappings_verdict(mappings) == Err::<(), ErrorView>(
                ErrorView::Validation("Port numbers must be between 1 and 65535"@),
            )
            &&& known && m.container_port > 0 && 0 < m.host_port < 1024
                ==> port_mappings_verdict(mappings) == Err::<(), ErrorView>(
                ErrorView::Validation(
                    "Host port "@ + text::decimal(m.host_port as nat)
                        + " is privileged (< 1024); use a port >= 1024"@,
                ),
            )
        }),
{
    let checks = Seq::new(mappings.len(), |k: int| port_mapping_verdict(mappings[k]));
    assert forall|k: int| 0 <= k < i implies checks[k] is Ok by {
        let m = mappings[k];
    }
    error::lemma_first_failure(checks, i);
}

/// Resource limits are accepted exactly if the processors are in range and the
/// memory has at least four mebibytes, as far as they are limited.
pub proof fn law_accepted_resource_limits(cpu_in_range: Option<bool>, memory_limit: Option<u64>)
    ensures
        resource_limits_verdict(cpu_in_range, memory_limit) is Ok <==> cpu_in_range != Some(false)
            && (memory_limit is Some ==> memory_limit->0 >= 4194304),
        cpu_in_range == Some(false) ==> resource_limits_verdict(cpu_in_range, memory_limit) == Err::<
            (),
            ErrorView,
        >(ErrorView::Validation("CPU limit must be between 0.01 and 128 cores"@)),
        cpu_in_range != Some(false) && memory_limit is Some && memory_limit->0 < 4194304
            ==> resource_limits_verdict(cpu_in_range, memory_limit) == Err::<(), ErrorView>(
            ErrorView::Validation("Memory limit must be at least 4 MB"@),
        ),
{
}

/// Whether a text starts with another one.
pub open spec fn starts_with(s: Seq<char>, p: Seq<char>) -> bool {
    p.len() <= s.len() && s.take(p.len() as int) == p
}

/// An image is accepted only if it is one of a trusted registry or a trusted
/// image, possibly with a tag.
pub proof fn law_only_trusted_images_are_accepted(image: Seq<char>)
    ensures
        image_name_verdict(image) is Ok <==> starts_with(image, "ghcr.io/openclaw/"@)
            || starts_with(image, "docker.io/library/"@) || image == "nousresearch/hermes-agent"@
            || starts_with(image, "nousresearch/hermes-agent:"@) || image == "busybox"@
            || starts_with(image, "busybox:"@),
        image.len() > 0 && image_name_verdict(image) is Err ==> image_name_verdict(image) == Err::<
            (),
            ErrorView,
        >(ErrorView::Validation("Image '"@ + image + "' is not from a trusted registry"@)),
        image.len() == 0 ==> image_name_verdict(image) == Err::<(), ErrorView>(
            ErrorView::Validation("Image name must not be empty"@),
        ),
{
    reveal_strlit("ghcr.io/openclaw/");
    reveal_strlit("nousresearch/hermes-agent");
    reveal_strlit("docker.io/library/");
    reveal_strlit("busybox");
    reveal_strlit("nousresearch/hermes-agent:");
    reveal_strlit("busybox:");
    let trusted = trusted_registries();
    lemma_starts(image, "ghcr.io/openclaw/"@);
    lemma_starts(image, "docker.io/library/"@);
    lemma_tag(image, "nousresearch/hermes-agent"@, "nousresearch/hermes-agent:"@);
    lemma_tag(image, "busybox"@, "busybox:"@);
    assert(trusted[0] == "ghcr.io/openclaw/"@ && trusted[1] == "nousresearch/hermes-agent"@
        && trusted[2] == "docker.io/library/"@ && trusted[3] == "busybox"@);
    assert(covered_by(image, trusted[0]) || covered_by(image, trusted[1]) || covered_by(
        image,
        trusted[2],
    ) || covered_by(image, trusted[3]) <==> is_trusted_image(image)) by {
        if is_trusted_image(image) {
            let i = choose|i: int|
                0 <= i < trusted.len() && #[trigger] covered_by(image, trusted[i]);
            assert(i == 0 || i == 1 || i == 2 || i == 3);
        }
    }
}

proof fn lemma_starts(image: Seq<char>, entry: Seq<char>)
    requires
        entry.len() > 0,
        entry.last() == '/',
    ensures
        covered_by(image, entry) <==> starts_with(image, entry),
        starts_with(image, entry) ==> image.len() > 0,
{
    if entry.len() <= image.len() {
        assert(image.take(entry.len() as int) =~= image.subrange(0, entry.len() as int));
    }
}

proof fn lemma_tag(image: Seq<char>, entry: Seq<char>, tagged: Seq<char>)
    requires
        entry.len() > 0,
        entry.last() != '/',
        tagged.len() == entry.len() + 1,
        tagged.last() == ':',
        tagged.drop_last() =~= entry,
    ensures
        covered_by(image, entry) <==> image == entry || starts_with(image, tagged),
        covered_by(image, entry) ==> image.len() > 0,
{
    let n = entry.len() as int;
    assert(entry =~= tagged.drop_last());
    if image.len() == n {
        assert(image.subrange(0, n) =~= image);
    } else if image.len() > n {
        assert(image.take(n + 1).drop_last() =~= image.subrange(0, n));
        assert(image.take(n + 1).last() == image[n]);
        if image.subrange(0, n) == entry && image[n] == ':' {
            assert(image.take(n + 1) =~= tagged);
        }
    }
}

/// A skill name is accepted exactly if it is not empty, has no two dots in a row,
/// and consists of letters, digits and the characters `-`, `_`, `.`, `/` and
/// `@`. A refused one is named in the report.
pub proof fn law_accepted_skill_names(name: Seq<char>)
    ensures
        skill_name_verdict(name) is Ok <==> name.len() > 0 && (forall|i: int|
            0 <= i < name.len() - 1 && #[trigger] name[i] == '.' ==> name[i + 1] != '.') && (
        forall|i: int|
            0 <= i < name.len() ==> unicode::is_alphanumeric(#[trigger] name[i]) || name[i] == '-'
                || name[i] == '_' || name[i] == '.' || name[i] == '/' || name[i] == '@'),
        name.len() > 0 && skill_name_verdict(name) is Err ==> skill_name_verdict(name) == Err::<
            (),
            ErrorView,
        >(ErrorView::Validation("Invalid skill name: '"@ + name + "'"@)),
        name.len() == 0 ==> skill_name_verdict(name) == Err::<(), ErrorView>(
            ErrorView::Validation("Skill name must not be empty"@),
        ),
{
    reveal_strlit("..");
    reveal_strlit("-_./@");
    let dots = ".."@;
    let marks = "-_./@"@;
    assert(marks[0] == '-' && marks[1] == '_' && marks[2] == '.' && marks[3] == '/' && marks[4]
        == '@');
    assert forall|c: char| marks.contains(c) <==> (c == '-' || c == '_' || c == '.' || c == '/' || c
        == '@') by {
        if marks.contains(c) {
            let i = choose|i: int| 0 <= i < marks.len() && marks[i] == c;
        }
    }
    assert(text::contains_text(name, dots) <==> exists|i: int|
        0 <= i < name.len() - 1 && #[trigger] name[i] == '.' && name[i + 1] == '.') by {
        if text::contains_text(name, dots) {
            let i = choose|i: int| text::occurs_at(name, dots, i);
            let here = name.subrange(i, i + 2);
            assert(here[0] == name[i] && here[1] == name[i + 1]);
        }
        if exists|i: int| 0 <= i < name.len() - 1 && #[trigger] name[i] == '.' && name[i + 1] == '.' {
            let i = choose|i: int|
                0 <= i < name.len() - 1 && #[trigger] name[i] == '.' && name[i + 1] == '.';
            assert(name.subrange(i, i + 2) =~= dots);
            assert(text::occurs_at(name, dots, i));
        }
    }
    let allowed = |c: char| is_skill_name_char(c);
    if skill_name_verdict(name) is Ok {
        assert forall|i: int| 0 <= i < name.len() implies unicode::is_alphanumeric(
            #[trigger] name[i],
        ) || name[i] == '-' || name[i] == '_' || name[i] == '.' || name[i] == '/' || name[i]
            == '@' by {
            assert(allowed(name[i]));
        }
    }
}

/// A health check is accepted exactly if one of its arguments has a character
/// that is no white space, it waits at least five seconds between two checks, and
/// allows at least one failure; a bot may do without one.
pub proof fn law_health_check_has_something_to_run(config: HealthCheckConfig)
    ensures
        health_check_verdict(Some(config)) is Ok <==> config.interval_secs >= 5 && config.retries
            >= 1 && exists|i: int|
            0 <= i < config.command@.len() && text::is_filled(#[trigger] config.command@[i]@),
        health_check_verdict(None) is Ok,
        health_check_verdict(Some(config)) matches Err(e) ==> e == ErrorView::Validation(
            if !exists|i: int|
                0 <= i < config.command@.len() && text::is_filled(#[trigger] config.command@[i]@) {
                "Health check command must not be empty"@
            } else if config.interval_secs < 5 {
                "Health check interval must be at least 5 seconds"@
            } else {
                "Health check retries must be at least 1"@
            },
        ),
{
    assert forall|i: int| 0 <= i < config.command@.len() implies (text::is_filled(
        #[trigger] config.command@[i]@,
    ) <==> text::trimmed(config.command@[i]@).len() > 0) by {
        text::law_blank_text_is_trimmed_away(config.command@[i]@);
    }
}

} // verus!
