//! Restarting a bot, and watching its health.

use vstd::prelude::*;
use crate::error;
use crate::error::{AppError, ErrorView};
use crate::events;
use crate::models::{ExecResult, HealthCheckConfig};
use crate::text;

verus! {

// ── Restarting ───────────────────────────────────────────────────────

/// An event with a word that goes with it.
#[derive(Debug)]
pub struct Announcement {
    pub event: String,
    pub word: String,
}

#[verifier::ext_equal]
pub struct AnnouncementView {
    pub event: Seq<char>,
    pub word: Seq<char>,
}

impl View for Announcement {
    type V = AnnouncementView;

    open spec fn view(&self) -> AnnouncementView {
        AnnouncementView { event: self.event@, word: self.word@ }
    }
}

/// How far a restart has come.
#[derive(Debug, Clone, Copy, PartialEq, Eq, Structural)]
pub enum RestartStage {
    /// The container is being stopped.
    Stopping,
    /// It has been stopped, and the bot's profile is looked up.
    Stopped,
    /// The bot's profile was found, and its container is being started.
    Starting,
    /// The container runs.
    Running,
    /// The restart has been given up.
    Failed,
}

/// A restart of a bot.
#[derive(Debug)]
pub struct Restart {
    pub id: String,
    pub stage: RestartStage,
}

pub open spec fn phase(id: Seq<char>, word: Seq<char>) -> AnnouncementView {
    AnnouncementView { event: "bot-restart-phase-"@ + id, word }
}

/// All that is announced of a restart that succeeds, in order.
pub open spec fn restart_announcements(id: Seq<char>) -> Seq<AnnouncementView> {
    seq![
        phase(id, "stopping"@),
        phase(id, "stopped"@),
        phase(id, "starting"@),
        phase(id, "running"@),
        AnnouncementView { event: "terminal-disconnect-"@ + id, word: "restart"@ },
    ]
}

/// What has been announced when a restart is at the given stage and has not
/// failed.
pub open spec fn announced_by(id: Seq<char>, stage: RestartStage) -> Seq<AnnouncementView> {
    match stage {
        RestartStage::Stopping => restart_announcements(id).take(1),
        RestartStage::Stopped => restart_announcements(id).take(2),
        RestartStage::Starting => restart_announcements(id).take(3),
        RestartStage::Running => restart_announcements(id),
        RestartStage::Failed => seq![],
    }
}

/// The phases of a restart are announced in order, and that the terminal is
/// gone only after the container runs.
pub proof fn law_phases_come_in_order(id: Seq<char>, stage: RestartStage)
    ensures
        announced_by(id, stage).is_prefix_of(restart_announcements(id)),
        stage != RestartStage::Running ==> forall|i: int|
            0 <= i < announced_by(id, stage).len() ==> (#[trigger] announced_by(
                id,
                stage,
            )[i]).event == "bot-restart-phase-"@ + id,
{
    let all = restart_announcements(id);
    let now = announced_by(id, stage);
    assert(all.subrange(0, now.len() as int) == now);
}

fn announce_phase(id: &str, word: &str) -> (r: Announcement)
    ensures
        r@ == phase(id@, word@),
{
    Announcement { event: events::restart_phase_event(id), word: word.to_string() }
}

/// Whether stopping a container took so long that it is worth a warning.
pub fn stop_was_slow(secs: u64) -> (r: bool)
    ensures
        r == (secs > 15),
{
    secs > 15
}

impl Restart {
    /// Begin a restart, and say what to announce.
    pub fn begin(id: &str) -> (r: (Restart, Announcement))
        ensures
            r.0.id@ == id@,
            r.0.stage == RestartStage::Stopping,
            seq![r.1@] == announced_by(id@, RestartStage::Stopping),
    {
        let first = announce_phase(id, "stopping");
        assert(seq![first@] == announced_by(id@, RestartStage::Stopping));
        (Restart { id: id.to_string(), stage: RestartStage::Stopping }, first)
    }

    /// Take note that stopping the container has ended, successfully or not,
    /// and say what to announce.
    pub fn on_stopped(&mut self) -> (r: Announcement)
        requires
            old(self).stage == RestartStage::Stopping,
        ensures
            final(self).id@ == old(self).id@,
            final(self).stage == RestartStage::Stopped,
            announced_by(final(self).id@, final(self).stage) == announced_by(
                old(self).id@,
                old(self).stage,
            ).push(r@),
    {
        self.stage = RestartStage::Stopped;
        announce_phase(self.id.as_str(), "stopped")
    }

    /// Take note whether the bot's profile is still there, and say what to
    /// announce.
    pub fn on_looked_up(&mut self, found: bool) -> (r: Result<Announcement, AppError>)
        requires
            old(self).stage == RestartStage::Stopped,
        ensures
            final(self).id@ == old(self).id@,
            match r {
                Ok(announcement) => found && final(self).stage == RestartStage::Starting
                    && announced_by(final(self).id@, final(self).stage) == announced_by(
                    old(self).id@,
                    old(self).stage,
                ).push(announcement@),
                Err(e) => !found && final(self).stage == RestartStage::Failed && e@
                    == ErrorView::BotNotFound(old(self).id@),
            },
    {
        if !found {
            self.stage = RestartStage::Failed;
            return Err(AppError::BotNotFound(self.id.clone()));
        }
        self.stage = RestartStage::Starting;
        Ok(announce_phase(self.id.as_str(), "starting"))
    }

    /// Take note how starting the container ended, and say what to announce:
    /// that the terminal has to be opened anew is announced last, when the
    /// container is ready for it.
    pub fn on_started<E>(&mut self, started: Result<(), E>) -> (r: Result<
        (Announcement, Announcement),
        E,
    >)
        requires
            old(self).stage == RestartStage::Starting,
        ensures
            final(self).id@ == old(self).id@,
            match (r, started) {
                (Ok((running, disconnect)), Ok(_)) => final(self).stage == RestartStage::Running
                    && announced_by(final(self).id@, final(self).stage) == announced_by(
                    old(self).id@,
                    old(self).stage,
                ).push(running@).push(disconnect@),
                (Err(e), Err(f)) => final(self).stage == RestartStage::Failed && e == f,
                _ => false,
            },
    {
        match started {
            Err(e) => {
                self.stage = RestartStage::Failed;
                Err(e)
            },
            Ok(_) => {
                self.stage = RestartStage::Running;
                let running = announce_phase(self.id.as_str(), "running");
                let disconnect = Announcement {
                    event: events::terminal_disconnect_event(self.id.as_str()),
                    word: "restart".to_string(),
                };
                Ok((running, disconnect))
            },
        }
    }
}

// ── Watching the health ──────────────────────────────────────────────

/// The state of a bot's health.
#[derive(Debug)]
pub struct HealthUpdate {
    pub bot_id: String,
    pub healthy: bool,
    pub consecutive_failures: u32,
    /// The output of the last check, if it could be made.
    pub last_output: Option<String>,
}

#[verifier::ext_equal]
pub struct HealthUpdateView {
    pub bot_id: Seq<char>,
    pub healthy: bool,
    pub consecutive_failures: int,
    pub last_output: Option<Seq<char>>,
}

impl View for HealthUpdate {
    type V = HealthUpdateView;

    open spec fn view(&self) -> HealthUpdateView {
        HealthUpdateView {
            bot_id: self.bot_id@,
            healthy: self.healthy,
            consecutive_failures: self.consecutive_failures as int,
            last_output: text::option_view(self.last_output),
        }
    }
}

/// What follows a health check.
#[derive(Debug, Clone, Copy, PartialEq, Eq, Structural)]
pub enum HealthAction {
    /// Check again after the interval.
    Wait,
    /// Restart the bot, and end the watch.
    Restart,
}

/// The watch over the health of a bot.
#[derive(Debug)]
pub struct HealthMonitor {
    pub bot_id: String,
    /// The number of failures in a row at which the bot is restarted.
    pub retries: u32,
    pub auto_restart: bool,
    pub consecutive_failures: u32,
}

/// Whether a check shows that the bot is healthy: it was made, and succeeded.
pub open spec fn shows_health(check: Option<ExecResult>) -> bool {
    match check {
        Some(result) => result.exit_code == Some(0i64),
        None => false,
    }
}

/// The number of failures in a row after one more check.
pub open spec fn failures_after(failures: int, healthy: bool) -> int {
    if healthy {
        0
    } else {
        failures + 1
    }
}

/// What follows a check after which there are that many failures in a row.
pub open spec fn action_at(failures: int, retries: int, auto_restart: bool) -> HealthAction {
    if auto_restart && failures >= retries {
        HealthAction::Restart
    } else {
        HealthAction::Wait
    }
}

impl HealthMonitor {
    /// Begin to watch a bot.
    pub fn new(bot_id: &str, config: &HealthCheckConfig) -> (r: HealthMonitor)
        ensures
            r.bot_id@ == bot_id@,
            r.retries == config.retries,
            r.auto_restart == config.auto_restart,
            r.consecutive_failures == 0,
    {
        HealthMonitor {
            bot_id: bot_id.to_string(),
            retries: config.retries,
            auto_restart: config.auto_restart,
            consecutive_failures: 0,
        }
    }

    /// Whether a check can be taken in: a failure is counted as long as the
    /// counter is not full.
    pub fn can_take(&self, check: &Option<ExecResult>) -> (r: bool)
        ensures
            r == (shows_health(*check) || self.consecutive_failures < u32::MAX),
    {
        let healthy = match check {
            Some(result) => result.exit_code == Some(0),
            None => false,
        };
        healthy || self.consecutive_failures < u32::MAX
    }

    /// Take in a check, or `None` if it could not be made, and say what to
    /// report and what to do.
    pub fn on_check(&mut self, check: Option<ExecResult>) -> (r: (HealthUpdate, HealthAction))
        requires
            shows_health(check) || old(self).consecutive_failures < u32::MAX,
        ensures
            final(self).bot_id@ == old(self).bot_id@,
            final(self).retries == old(self).retries,
            final(self).auto_restart == old(self).auto_restart,
            final(self).consecutive_failures == failures_after(
                old(self).consecutive_failures as int,
                shows_health(check),
            ),
            r.0@ == (HealthUpdateView {
                bot_id: old(self).bot_id@,
                healthy: shows_health(check),
                consecutive_failures: final(self).consecutive_failures as int,
                last_output: match check {
                    Some(result) => Some(result.output@),
                    None => None,
                },
            }),
            r.1 == action_at(
                final(self).consecutive_failures as int,
                old(self).retries as int,
                old(self).auto_restart,
            ),
    {
        let (healthy, last_output) = match check {
            Some(result) => (result.exit_code == Some(0), Some(result.output)),
            None => (false, None),
        };
        if healthy {
            self.consecutive_failures = 0;
        } else {
            self.consecutive_failures = self.consecutive_failures + 1;
        }
        let update = HealthUpdate {
            bot_id: self.bot_id.clone(),
            healthy: self.consecutive_failures == 0,
            consecutive_failures: self.consecutive_failures,
            last_output,
        };
        let action = if self.consecutive_failures >= self.retries && self.auto_restart {
            HealthAction::Restart
        } else {
            HealthAction::Wait
        };
        (update, action)
    }
}

/// The number of failures in a row after a series of checks, the earliest
/// first.
pub open spec fn failures_of(checks: Seq<bool>) -> int
    decreases checks.len(),
{
    if checks.len() == 0 {
        0
    } else {
        failures_after(failures_of(checks.drop_last()), checks.last())
    }
}

/// The number of failures in a row is that of the failed checks at the end of
/// the series: those since the last check that succeeded, if there is one.
pub proof fn law_failures_are_the_last_ones(checks: Seq<bool>)
    ensures
        0 <= failures_of(checks) <= checks.len(),
        forall|i: int|
            checks.len() - failures_of(checks) <= i < checks.len() ==> !#[trigger] checks[i],
        failures_of(checks) < checks.len() ==> checks[checks.len() - failures_of(checks) - 1],
    decreases checks.len(),
{
    if checks.len() > 0 {
        let before = checks.drop_last();
        law_failures_are_the_last_ones(before);
        assert forall|i: int|
            checks.len() - failures_of(checks) <= i < checks.len() implies !#[trigger] checks[i] by {
            if i < before.len() {
                assert(before[i] == checks[i]);
            }
        }
    }
}

/// A bot is restarted as soon as it has failed as often in a row as set, and
/// not before: if the check before the last one was followed by waiting, and
/// the last one by a restart, then there are that many failures in a row, and
/// the last checks, as many as set, have failed.
pub proof fn law_restart_at_the_threshold(checks: Seq<bool>, retries: int)
    requires
        checks.len() > 0,
        action_at(failures_of(checks.drop_last()), retries, true) == HealthAction::Wait,
        action_at(failures_of(checks), retries, true) == HealthAction::Restart,
    ensures
        failures_of(checks) == retries,
        forall|i: int| checks.len() - retries <= i < checks.len() ==> !#[trigger] checks[i],
{
    law_failures_are_the_last_ones(checks.drop_last());
    law_failures_are_the_last_ones(checks);
}

/// Without the wish for automatic restarts a bot is never restarted.
pub proof fn law_no_unwanted_restart(checks: Seq<bool>, retries: int)
    ensures
        action_at(failures_of(checks), retries, false) == HealthAction::Wait,
{
}

/// A check that succeeds never leads to a restart, if at least one failure is
/// needed for it.
pub proof fn law_no_restart_in_health(checks: Seq<bool>, retries: int, auto_restart: bool)
    requires
        auto_restart ==> retries >= 1,
        checks.len() > 0,
        checks.last(),
    ensures
        failures_of(checks) == 0,
        action_at(failures_of(checks), retries, auto_restart) == HealthAction::Wait,
{
}

/// A bot is healthy exactly if the check was made and its command ended with
/// exit code zero, whatever it put out.
pub proof fn law_only_exit_code_zero_is_healthy(result: ExecResult)
    ensures
        shows_health(Some(result)) <==> result.exit_code is Some && result.exit_code->0 == 0,
        !shows_health(None),
{
}

/// A bot is restarted exactly if that is wished for and it has failed at least
/// as often in a row as set; each failure adds one, and a success starts anew.
pub proof fn law_failures_lead_to_a_restart(failures: int, retries: int, auto_restart: bool)
    ensures
        action_at(failures, retries, auto_restart) == HealthAction::Restart <==> auto_restart
            && failures >= retries,
        failures_after(failures, true) == 0,
        failures_after(failures, false) == failures + 1,
{
}

/// As many failures in a row as set lead to a restart, with whatever came
/// before.
pub proof fn law_enough_failures_in_a_row(before: Seq<bool>, n: nat, retries: int)
    requires
        n >= retries,
    ensures
        action_at(failures_of(before + Seq::new(n, |i: int| false)), retries, true)
            == HealthAction::Restart,
        failures_of(before + Seq::new(n, |i: int| false)) >= n,
    decreases n,
{
    let last = Seq::new(n, |i: int| false);
    let all = before + last;
    if n > 0 {
        let m = (n - 1) as nat;
        let shorter = Seq::new(m, |i: int| false);
        assert(all.drop_last() =~= before + shorter);
        law_enough_failures_in_a_row(before, m, retries - 1);
        assert(!all.last());
    } else {
        assert(all =~= before);
        law_failures_are_the_last_ones(before);
    }
}

/// A restart that succeeds is announced in five steps: stopping, stopped,
/// starting, running, and that the terminal is gone.
pub proof fn law_restart_is_announced(id: Seq<char>)
    ensures
        restart_announcements(id).len() == 5,
        restart_announcements(id)[0].word == "stopping"@,
        restart_announcements(id)[1].word == "stopped"@,
        restart_announcements(id)[2].word == "starting"@,
        restart_announcements(id)[3].word == "running"@,
        restart_announcements(id)[4].word == "restart"@,
        forall|i: int|
            0 <= i < 4 ==> (#[trigger] restart_announcements(id)[i]).event == "bot-restart-phase-"@
                + id,
        restart_announcements(id)[4].event == "terminal-disconnect-"@ + id,
        announced_by(id, RestartStage::Stopping).len() == 1,
        announced_by(id, RestartStage::Stopped).len() == 2,
        announced_by(id, RestartStage::Starting).len() == 3,
        announced_by(id, RestartStage::Running).len() == 5,
{
}

} // verus!
