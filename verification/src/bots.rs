//! The bots a user has, and the commands run in their containers.

use vstd::prelude::*;
use crate::error;
use crate::error::{AppError, ErrorView, IoErrorKind};
use crate::events;
use crate::models::{AgentType, ExecResult};
use crate::text;
use crate::validation;
use crate::validation::WorkspaceFacts;

verus! {

// ── Profiles ─────────────────────────────────────────────────────────

/// What the commands read of a bot's profile.
#[derive(Debug)]
pub struct BotProfile {
    pub id: String,
    pub name: String,
    /// The name of the container the bot runs in.
    pub container_name: String,
    pub agent_type: AgentType,
    pub workspace_path: Option<String>,
}

/// The bots of a user, in the user's order.
#[derive(Debug)]
pub struct BotStore {
    pub bots: Vec<BotProfile>,
}

/// The first bot with the given id, if there is one.
pub open spec fn bot_with_id(bots: Seq<BotProfile>, id: Seq<char>) -> Option<BotProfile>
    decreases bots.len(),
{
    if bots.len() == 0 {
        None
    } else if bots[0].id@ == id {
        Some(bots[0])
    } else {
        bot_with_id(bots.drop_first(), id)
    }
}

impl BotStore {
    /// The bot with the given id, if there is one.
    pub fn get_by_id(&self, id: &str) -> (r: Option<&BotProfile>)
        ensures
            match r {
                Some(bot) => bot_with_id(self.bots@, id@) == Some(*bot),
                None => bot_with_id(self.bots@, id@) is None,
            },
    {
        assert(self.bots@.skip(0) == self.bots@);
        for i in 0..self.bots.len()
            invariant
                bot_with_id(self.bots@, id@) == bot_with_id(self.bots@.skip(i as int), id@),
        {
            let ghost rest = self.bots@.skip(i as int);
            assert(rest[0] == self.bots@[i as int]);
            assert(rest.drop_first() == self.bots@.skip(i + 1));
            if text::same_str(self.bots[i].id.as_str(), id) {
                return Some(&self.bots[i]);
            }
        }
        None
    }
}

/// A bot that is found has the id and is one of the bots, and the first of
/// them with that id; if none is found, no bot has the id.
pub proof fn law_bot_with_id(bots: Seq<BotProfile>, id: Seq<char>)
    ensures
        match bot_with_id(bots, id) {
            Some(bot) => exists|i: int|
                0 <= i < bots.len() && #[trigger] bots[i] == bot && bot.id@ == id && forall|j: int|
                    0 <= j < i ==> (#[trigger] bots[j]).id@ != id,
            None => forall|j: int| 0 <= j < bots.len() ==> (#[trigger] bots[j]).id@ != id,
        },
    decreases bots.len(),
{
    if bots.len() > 0 && bots[0].id@ != id {
        let rest = bots.drop_first();
        law_bot_with_id(rest, id);
        match bot_with_id(rest, id) {
            Some(bot) => {
                let i = choose|i: int|
                    0 <= i < rest.len() && #[trigger] rest[i] == bot && bot.id@ == id
                        && forall|j: int| 0 <= j < i ==> (#[trigger] rest[j]).id@ != id;
                assert(bots[i + 1] == bot);
                assert forall|j: int| 0 <= j < i + 1 implies (#[trigger] bots[j]).id@ != id by {
                    if j > 0 {
                        assert(rest[j - 1] == bots[j]);
                    }
                }
            },
            None => {
                assert forall|j: int| 0 <= j < bots.len() implies (#[trigger] bots[j]).id@
                    != id by {
                    if j > 0 {
                        assert(rest[j - 1] == bots[j]);
                    }
                }
            },
        }
    }
}

/// Find a bot.
pub fn require_bot<'a>(store: &'a BotStore, id: &str) -> (r: Result<&'a BotProfile, AppError>)
    ensures
        match (r, bot_with_id(store.bots@, id@)) {
            (Ok(found), Some(bot)) => *found == bot,
            (Err(e), None) => e@ == ErrorView::BotNotFound(id@),
            _ => false,
        },
{
    match store.get_by_id(id) {
        Some(bot) => Ok(bot),
        None => Err(AppError::BotNotFound(id.to_string())),
    }
}

/// Find the container and the agent of a bot.
pub fn resolve_container_and_agent(store: &BotStore, id: &str) -> (r: Result<
    (String, AgentType),
    AppError,
>)
    ensures
        match (r, bot_with_id(store.bots@, id@)) {
            (Ok((container, agent)), Some(bot)) => container@ == bot.container_name@ && agent
                == bot.agent_type,
            (Err(e), None) => e@ == ErrorView::BotNotFound(id@),
            _ => false,
        },
{
    let bot = require_bot(store, id)?;
    Ok((bot.container_name.clone(), bot.agent_type))
}

/// The verdict on a request for the workspace of a bot.
pub open spec fn workspace_of(bots: Seq<BotProfile>, id: Seq<char>) -> Result<
    Seq<char>,
    ErrorView,
> {
    match bot_with_id(bots, id) {
        None => Err(ErrorView::BotNotFound(id)),
        Some(bot) => match bot.workspace_path {
            Some(path) => Ok(path@),
            None => Err(
                ErrorView::Io(
                    IoErrorKind::NotFound,
                    "No workspace path configured for this bot"@,
                ),
            ),
        },
    }
}

/// Find the workspace path of a bot.
pub fn resolve_workspace_path(store: &BotStore, id: &str) -> (r: Result<String, AppError>)
    ensures
        error::outcome(r) == workspace_of(store.bots@, id@),
{
    let bot = require_bot(store, id)?;
    match &bot.workspace_path {
        Some(path) => Ok(path.clone()),
        None => Err(
            AppError::Io(
                IoErrorKind::NotFound,
                "No workspace path configured for this bot".to_string(),
            ),
        ),
    }
}

// ── Statuses ─────────────────────────────────────────────────────────

/// The status of a bot's container.
#[derive(Debug)]
pub enum BotStatus {
    Stopped,
    /// Any other status, in the words of the container engine.
    Reported(String),
}

pub enum StatusView {
    Stopped,
    Reported(Seq<char>),
}

impl View for BotStatus {
    type V = StatusView;

    open spec fn view(&self) -> StatusView {
        match self {
            BotStatus::Stopped => StatusView::Stopped,
            BotStatus::Reported(s) => StatusView::Reported(s@),
        }
    }
}

/// The status reported for an id; a bot without a report is stopped.
pub open spec fn status_of(reports: Seq<(String, BotStatus)>, id: Seq<char>) -> StatusView
    decreases reports.len(),
{
    if reports.len() == 0 {
        StatusView::Stopped
    } else if reports[0].0@ == id {
        reports[0].1@
    } else {
        status_of(reports.drop_first(), id)
    }
}

/// A bot has the status of the first report on it, and is stopped if there is
/// none.
pub proof fn law_status_is_the_reported_one(reports: Seq<(String, BotStatus)>, id: Seq<char>)
    ensures
        (exists|i: int|
            0 <= i < reports.len() && (#[trigger] reports[i]).0@ == id && status_of(reports, id)
                == reports[i].1@ && forall|j: int|
                0 <= j < i ==> (#[trigger] reports[j]).0@ != id) || (status_of(reports, id)
            == StatusView::Stopped && forall|j: int|
            0 <= j < reports.len() ==> (#[trigger] reports[j]).0@ != id),
    decreases reports.len(),
{
    if reports.len() > 0 && reports[0].0@ != id {
        let rest = reports.drop_first();
        law_status_is_the_reported_one(rest, id);
        if exists|i: int|
            0 <= i < rest.len() && (#[trigger] rest[i]).0@ == id && status_of(rest, id)
                == rest[i].1@ && forall|j: int| 0 <= j < i ==> (#[trigger] rest[j]).0@ != id {
            let i = choose|i: int|
                0 <= i < rest.len() && (#[trigger] rest[i]).0@ == id && status_of(rest, id)
                    == rest[i].1@ && forall|j: int| 0 <= j < i ==> (#[trigger] rest[j]).0@ != id;
            assert(reports[i + 1] == rest[i]);
            assert forall|j: int| 0 <= j < i + 1 implies (#[trigger] reports[j]).0@ != id by {
                if j > 0 {
                    assert(rest[j - 1] == reports[j]);
                }
            }
        } else {
            assert forall|j: int| 0 <= j < reports.len() implies (#[trigger] reports[j]).0@
                != id by {
                if j > 0 {
                    assert(rest[j - 1] == reports[j]);
                }
            }
        }
    }
}

fn copy_status(status: &BotStatus) -> (r: BotStatus)
    ensures
        r@ == status@,
{
    match status {
        BotStatus::Stopped => BotStatus::Stopped,
        BotStatus::Reported(s) => BotStatus::Reported(s.clone()),
    }
}

fn find_status(reports: &[(String, BotStatus)], id: &str) -> (r: BotStatus)
    ensures
        r@ == status_of(reports@, id@),
{
    assert(reports@.skip(0) == reports@);
    for i in 0..reports.len()
        invariant
            status_of(reports@, id@) == status_of(reports@.skip(i as int), id@),
    {
        let ghost rest = reports@.skip(i as int);
        assert(rest[0] == reports@[i as int]);
        assert(rest.drop_first() == reports@.skip(i + 1));
        if text::same_str(reports[i].0.as_str(), id) {
            return copy_status(&reports[i].1);
        }
    }
    BotStatus::Stopped
}

/// A bot with the status of its container.
#[derive(Debug)]
pub struct BotWithStatus<P> {
    pub profile: P,
    pub status: BotStatus,
}

/// The bots, given by id and profile, each with its status, in their order.
pub fn list_bots<P>(bots: Vec<(String, P)>, reports: &[(String, BotStatus)]) -> (r: Vec<
    BotWithStatus<P>,
>)
    ensures
        r@.len() == bots@.len(),
        forall|i: int|
            0 <= i < r@.len() ==> (#[trigger] r@[i]).profile == bots@[i].1 && r@[i].status@
                == status_of(reports@, bots@[i].0@),
{
    let mut listed: Vec<BotWithStatus<P>> = Vec::new();
    for bot in it: bots
        invariant
            it.seq() == bots@,
            listed@.len() == it.index(),
            forall|j: int|
                0 <= j < listed@.len() ==> (#[trigger] listed@[j]).profile == bots@[j].1
                    && listed@[j].status@ == status_of(reports@, bots@[j].0@),
    {
        let status = find_status(reports, bot.0.as_str());
        listed.push(BotWithStatus { profile: bot.1, status });
    }
    listed
}

// ── Settings of a new bot ────────────────────────────────────────────

/// The settings that a request may choose for a new bot.
#[derive(Debug)]
pub struct BotSettings<C, N> {
    pub cpu_limit: Option<C>,
    pub memory_limit: Option<u64>,
    pub network_mode: N,
}

/// The settings of a new bot: those that are asked for, and the given ones
/// where nothing is asked for.
pub open spec fn chosen_settings<C, N>(
    defaults: BotSettings<C, N>,
    cpu_limit: Option<C>,
    memory_limit: Option<u64>,
    network_mode: Option<N>,
) -> BotSettings<C, N> {
    BotSettings {
        cpu_limit: if cpu_limit is Some {
            cpu_limit
        } else {
            defaults.cpu_limit
        },
        memory_limit: if memory_limit is Some {
            memory_limit
        } else {
            defaults.memory_limit
        },
        network_mode: match network_mode {
            Some(mode) => mode,
            None => defaults.network_mode,
        },
    }
}

/// Choose the settings of a new bot.
pub fn choose_settings<C, N>(
    defaults: BotSettings<C, N>,
    cpu_limit: Option<C>,
    memory_limit: Option<u64>,
    network_mode: Option<N>,
) -> (r: BotSettings<C, N>)
    ensures
        r == chosen_settings(defaults, cpu_limit, memory_limit, network_mode),
{
    BotSettings {
        cpu_limit: match cpu_limit {
            Some(limit) => Some(limit),
            None => defaults.cpu_limit,
        },
        memory_limit: match memory_limit {
            Some(limit) => Some(limit),
            None => defaults.memory_limit,
        },
        network_mode: match network_mode {
            Some(mode) => mode,
            None => defaults.network_mode,
        },
    }
}

/// The verdict on a new bot: its workspace is checked first, then its limits.
pub open spec fn new_bot_verdict(
    workspace: Option<WorkspaceFacts>,
    cpu_in_range: Option<bool>,
    memory_limit: Option<u64>,
) -> Result<(), ErrorView> {
    if validation::workspace_verdict(workspace) is Err {
        validation::workspace_verdict(workspace)
    } else {
        validation::resource_limits_verdict(cpu_in_range, memory_limit)
    }
}

/// Check the request for a new bot, and choose its settings. `cpu_in_range`
/// says whether the limit on its processors, if there is one, is in range.
pub fn create_bot<C, N>(
    workspace: &Option<WorkspaceFacts>,
    cpu_in_range: Option<bool>,
    defaults: BotSettings<C, N>,
    cpu_limit: Option<C>,
    memory_limit: Option<u64>,
    network_mode: Option<N>,
) -> (r: Result<BotSettings<C, N>, AppError>)
    ensures
        match (r, new_bot_verdict(*workspace, cpu_in_range, memory_limit)) {
            (Ok(settings), Ok(_)) => settings == chosen_settings(
                defaults,
                cpu_limit,
                memory_limit,
                network_mode,
            ),
            (Err(e), Err(expected)) => e@ == expected,
            _ => false,
        },
{
    validation::set_workspace_path(workspace)?;
    validation::validate_resource_limits(cpu_in_range, memory_limit)?;
    Ok(choose_settings(defaults, cpu_limit, memory_limit, network_mode))
}

// ── Imported and automatically started bots ──────────────────────────

/// The verdict on imported bots: each has a name that is not blank.
pub open spec fn import_verdict(names: Seq<Seq<char>>) -> Result<(), ErrorView> {
    if forall|i: int| 0 <= i < names.len() ==> text::trimmed(#[trigger] names[i]).len() > 0 {
        Ok(())
    } else {
        Err(ErrorView::Validation("Imported bot has empty name"@))
    }
}

/// Check the names of imported bots.
pub fn validate_imported_bots(names: &[String]) -> (r: Result<(), AppError>)
    ensures
        error::outcome(r) == import_verdict(text::texts(names@)),
{
    for i in 0..names.len()
        invariant
            forall|j: int|
                0 <= j < i ==> text::trimmed(#[trigger] text::texts(names@)[j]).len() > 0,
    {
        let chars = text::chars_of(names[i].as_str());
        if text::trim(chars.as_slice()).len() == 0 {
            assert(text::trimmed(text::texts(names@)[i as int]).len() == 0);
            return Err(AppError::Validation("Imported bot has empty name".to_string()));
        }
    }
    Ok(())
}

/// The pause before the `i`th of the automatically started bots, in
/// milliseconds: none before the first one.
pub fn auto_start_pause(i: usize) -> (r: u64)
    ensures
        r == (if i == 0 {
            0int
        } else {
            500
        }),
{
    if i > 0 {
        500
    } else {
        0
    }
}

/// How starting one of the bots ended: its name, and the reason if it failed.
#[derive(Debug)]
pub struct StartOutcome {
    pub name: String,
    pub failure: Option<String>,
}

/// The reports on the bots that could not be started, in order.
pub open spec fn start_failures(outcomes: Seq<StartOutcome>) -> Seq<Seq<char>>
    decreases outcomes.len(),
{
    if outcomes.len() == 0 {
        seq![]
    } else {
        let before = start_failures(outcomes.drop_last());
        match outcomes.last().failure {
            Some(reason) => before.push(outcomes.last().name@ + ": "@ + reason@),
            None => before,
        }
    }
}

/// Report the bots that could not be started.
pub fn auto_start_bots(outcomes: &[StartOutcome]) -> (r: Vec<String>)
    ensures
        text::texts(r@) == start_failures(outcomes@),
{
    let mut errors: Vec<String> = Vec::new();
    assert(outcomes@.take(0).len() == 0);
    assert(text::texts(errors@) == start_failures(outcomes@.take(0)));
    for i in 0..outcomes.len()
        invariant
            text::texts(errors@) == start_failures(outcomes@.take(i as int)),
    {
        let ghost before = text::texts(errors@);
        assert(outcomes@.take(i + 1).drop_last() == outcomes@.take(i as int));
        assert(outcomes@.take(i + 1).last() == outcomes@[i as int]);
        if let Some(reason) = &outcomes[i].failure {
            let report = text::concat3(outcomes[i].name.as_str(), ": ", reason.as_str());
            errors.push(report);
            assert(text::texts(errors@) == before.push(report@));
        }
    }
    assert(outcomes@.take(outcomes@.len() as int) == outcomes@);
    errors
}

// ── Commands in a container ──────────────────────────────────────────

/// A command to run in the container of a bot.
#[derive(Debug)]
pub struct ExecRequest {
    pub container_name: String,
    pub agent_type: AgentType,
    pub args: Vec<String>,
    /// The time the command is given, in seconds, if it is limited.
    pub timeout_secs: Option<u64>,
}

pub struct ExecRequestView {
    pub container_name: Seq<char>,
    pub agent_type: AgentType,
    pub args: Seq<Seq<char>>,
    pub timeout_secs: Option<u64>,
}

impl View for ExecRequest {
    type V = ExecRequestView;

    open spec fn view(&self) -> ExecRequestView {
        ExecRequestView {
            container_name: self.container_name@,
            agent_type: self.agent_type,
            args: text::texts(self.args@),
            timeout_secs: self.timeout_secs,
        }
    }
}

/// How a command in a container ended.
#[derive(Debug)]
pub enum ExecOutcome {
    /// It did not end in time.
    TimedOut,
    /// It could not be run.
    Failed(AppError),
    /// It ran to its end.
    Finished(ExecResult),
}

/// Whether a request is answered at once or by a command in a container.
#[derive(Debug)]
pub enum Step<T> {
    Answer(T),
    Run(ExecRequest),
}

/// The request to run a command of the user's for a bot, or why it is not run.
pub open spec fn exec_request(bots: Seq<BotProfile>, id: Seq<char>, args: Seq<Seq<char>>) -> Result<
    ExecRequestView,
    ErrorView,
> {
    if args.len() == 0 {
        Err(ErrorView::Validation("Command must not be empty"@))
    } else {
        match bot_with_id(bots, id) {
            None => Err(ErrorView::BotNotFound(id)),
            Some(bot) => Ok(
                ExecRequestView {
                    container_name: bot.container_name@,
                    agent_type: bot.agent_type,
                    args,
                    timeout_secs: None,
                },
            ),
        }
    }
}

/// The command to run in a bot's container at the user's request.
pub fn exec_command(store: &BotStore, id: &str, args: Vec<String>) -> (r: Result<
    ExecRequest,
    AppError,
>)
    ensures
        error::outcome(r) == exec_request(store.bots@, id@, text::texts(args@)),
{
    validation::validate_exec_args(args.as_slice())?;
    let (container_name, agent_type) = resolve_container_and_agent(store, id)?;
    Ok(ExecRequest { container_name, agent_type, args, timeout_secs: None })
}

// ── Streams from a container ─────────────────────────────────────────

/// A container, and the event by which what comes from it is sent on.
#[derive(Debug)]
pub struct StreamRequest {
    pub container_name: String,
    pub event: String,
}

/// Find the container of a bot whose figures are to be sent on.
pub fn start_stats_stream(store: &BotStore, id: &str) -> (r: Result<StreamRequest, AppError>)
    ensures
        match (r, bot_with_id(store.bots@, id@)) {
            (Ok(stream), Some(bot)) => stream.container_name@ == bot.container_name@
                && stream.event@ == "container-stats-"@ + id@,
            (Err(e), None) => e@ == ErrorView::BotNotFound(id@),
            _ => false,
        },
{
    let (container_name, _) = resolve_container_and_agent(store, id)?;
    Ok(StreamRequest { container_name, event: events::stats_event(id) })
}

/// Find the container of a bot whose log is to be sent on.
pub fn start_log_stream(store: &BotStore, id: &str) -> (r: Result<StreamRequest, AppError>)
    ensures
        match (r, bot_with_id(store.bots@, id@)) {
            (Ok(stream), Some(bot)) => stream.container_name@ == bot.container_name@
                && stream.event@ == "container-log-"@ + id@,
            (Err(e), None) => e@ == ErrorView::BotNotFound(id@),
            _ => false,
        },
{
    let (container_name, _) = resolve_container_and_agent(store, id)?;
    Ok(StreamRequest { container_name, event: events::log_event(id) })
}

/// Check the name of an image to download, and name the event that goes with
/// it.
pub fn pull_image(image: &str) -> (r: Result<String, AppError>)
    ensures
        error::outcome(r) == (match validation::image_name_verdict(image@) {
            Ok(_) => Ok(
                "image-pull-progress-"@ + image@.map_values(|c: char| events::event_char(c)),
            ),
            Err(e) => Err(e),
        }),
{
    validation::validate_image_name(image)?;
    Ok(events::image_pull_event(image))
}

// ── What holds of requests for bots ──────────────────────────────────

/// The first bot with an id is the one that is found.
pub proof fn law_first_bot_is_found(bots: Seq<BotProfile>, id: Seq<char>, i: int)
    requires
        0 <= i <= bots.len(),
        forall|k: int| 0 <= k < i ==> (#[trigger] bots[k]).id@ != id,
        i < bots.len() ==> bots[i].id@ == id,
    ensures
        i < bots.len() ==> bot_with_id(bots, id) == Some(bots[i]),
        i == bots.len() ==> bot_with_id(bots, id) is None,
{
    law_bot_with_id(bots, id);
}

/// The workspace of a bot is the path that was set for it, and a bot without
/// one is refused.
pub proof fn law_workspace_is_the_one_set(bots: Seq<BotProfile>, id: Seq<char>, i: int)
    requires
        0 <= i <= bots.len(),
        forall|k: int| 0 <= k < i ==> (#[trigger] bots[k]).id@ != id,
        i < bots.len() ==> bots[i].id@ == id,
    ensures
        workspace_of(bots, id) is Ok <==> i < bots.len() && bots[i].workspace_path is Some,
        workspace_of(bots, id) matches Ok(path) ==> path == bots[i].workspace_path->0@,
        workspace_of(bots, id) matches Err(e) ==> (i == bots.len() ==> e
            == ErrorView::BotNotFound(id)) && (i < bots.len() ==> e == ErrorView::Io(
            IoErrorKind::NotFound,
            "No workspace path configured for this bot"@,
        )),
{
    law_first_bot_is_found(bots, id, i);
}

/// What is asked for is chosen, and nothing else is changed.
pub proof fn law_settings_asked_for_are_chosen<C, N>(
    defaults: BotSettings<C, N>,
    cpu_limit: Option<C>,
    memory_limit: Option<u64>,
    network_mode: Option<N>,
    c: C,
    m: u64,
    n: N,
)
    ensures
        chosen_settings(defaults, None, None, None) == defaults,
        chosen_settings(defaults, Some(c), memory_limit, network_mode).cpu_limit == Some(c),
        chosen_settings(defaults, cpu_limit, Some(m), network_mode).memory_limit == Some(m),
        chosen_settings(defaults, cpu_limit, memory_limit, Some(n)).network_mode == n,
        chosen_settings(defaults, None, memory_limit, network_mode).cpu_limit
            == defaults.cpu_limit,
        chosen_settings(defaults, cpu_limit, None, network_mode).memory_limit
            == defaults.memory_limit,
        chosen_settings(defaults, cpu_limit, memory_limit, None).network_mode
            == defaults.network_mode,
{
}

/// A new bot is accepted if both its workspace and its limits are, and a
/// refused workspace is reported first.
pub proof fn law_new_bot_meets_both_checks(
    workspace: Option<WorkspaceFacts>,
    cpu_in_range: Option<bool>,
    memory_limit: Option<u64>,
)
    ensures
        new_bot_verdict(workspace, cpu_in_range, memory_limit) is Ok <==> validation::workspace_verdict(
            workspace,
        ) is Ok && cpu_in_range != Some(false) && (memory_limit matches Some(m) ==> m >= 4194304),
        validation::workspace_verdict(workspace) is Err ==> new_bot_verdict(
            workspace,
            cpu_in_range,
            memory_limit,
        ) == validation::workspace_verdict(workspace),
        validation::workspace_verdict(workspace) is Ok ==> new_bot_verdict(
            workspace,
            cpu_in_range,
            memory_limit,
        ) == validation::resource_limits_verdict(cpu_in_range, memory_limit),
{
}

/// Imported bots are accepted exactly if each name has a character that is no
/// white space.
pub proof fn law_imported_names_are_not_blank(names: Seq<Seq<char>>)
    ensures
        import_verdict(names) is Ok <==> forall|i: int|
            0 <= i < names.len() ==> text::is_filled(#[trigger] names[i]),
{
    assert forall|i: int| 0 <= i < names.len() implies (text::trimmed(#[trigger] names[i]).len() > 0
        <==> text::is_filled(names[i])) by {
        text::law_blank_text_is_trimmed_away(names[i]);
    }
}

/// Each bot that could not be started is reported once, by its name and the
/// reason, in order, and no other one is.
pub proof fn law_start_failures_add_up(a: Seq<StartOutcome>, b: Seq<StartOutcome>)
    ensures
        start_failures(a + b) == start_failures(a) + start_failures(b),
        b.len() == 1 ==> start_failures(b) == (match b[0].failure {
            Some(reason) => seq![b[0].name@ + seq![':', ' '] + reason@],
            None => seq![],
        }),
        a.len() == 0 ==> start_failures(a).len() == 0,
    decreases b.len(),
{
    reveal_strlit(": ");
    assert(": "@ == seq![':', ' ']);
    if b.len() == 0 {
        assert(a + b == a);
        assert(start_failures(a) + start_failures(b) == start_failures(a));
    } else {
        let init = b.drop_last();
        law_start_failures_add_up(a, init);
        assert((a + b).drop_last() == a + init);
        assert((a + b).last() == b.last());
        assert(start_failures(a + b) =~= start_failures(a) + start_failures(b));
        if b.len() == 1 {
            assert(init.len() == 0);
            assert(start_failures(init) == Seq::<Seq<char>>::empty());
            assert(b.last() == b[0]);
        }
    }
}

/// A command of the user's is run as it is, in the container of the first bot
/// with the given id and without a time limit; an empty one is refused.
pub proof fn law_command_is_run_as_it_is(
    bots: Seq<BotProfile>,
    id: Seq<char>,
    i: int,
    args: Seq<Seq<char>>,
)
    requires
        0 <= i <= bots.len(),
        forall|k: int| 0 <= k < i ==> (#[trigger] bots[k]).id@ != id,
        i < bots.len() ==> bots[i].id@ == id,
    ensures
        exec_request(bots, id, args) is Ok <==> args.len() > 0 && i < bots.len(),
        exec_request(bots, id, args) matches Ok(request) ==> request.args == args
            && request.container_name == bots[i].container_name@ && request.agent_type
            == bots[i].agent_type && request.timeout_secs is None,
        exec_request(bots, id, args) matches Err(e) ==> (e is BotNotFound <==> args.len() > 0),
{
    law_first_bot_is_found(bots, id, i);
}

} // verus!
