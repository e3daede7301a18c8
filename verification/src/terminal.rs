//! The interactive terminal of a bot.

use vstd::prelude::*;
use crate::bots;
use crate::bots::{BotProfile, BotStore};
use crate::error;
use crate::error::{AppError, ErrorView};
use crate::events;
use crate::text;
use crate::unicode;

verus! {

/// The shell to start in a bot's container, and the events of its terminal.
#[derive(Debug)]
pub struct TerminalRequest {
    pub container_name: String,
    pub cmd: Vec<String>,
    pub env: Vec<String>,
    pub cols: u16,
    pub rows: u16,
    pub output_event: String,
    pub disconnect_event: String,
}

#[verifier::ext_equal]
pub struct TerminalRequestView {
    pub container_name: Seq<char>,
    pub cmd: Seq<Seq<char>>,
    pub env: Seq<Seq<char>>,
    pub cols: u16,
    pub rows: u16,
    pub output_event: Seq<char>,
    pub disconnect_event: Seq<char>,
}

impl View for TerminalRequest {
    type V = TerminalRequestView;

    open spec fn view(&self) -> TerminalRequestView {
        TerminalRequestView {
            container_name: self.container_name@,
            cmd: text::texts(self.cmd@),
            env: text::texts(self.env@),
            cols: self.cols,
            rows: self.rows,
            output_event: self.output_event@,
            disconnect_event: self.disconnect_event@,
        }
    }
}

/// The terminal that is started for a bot, or why none is.
pub open spec fn terminal_request(
    bots: Seq<BotProfile>,
    id: Seq<char>,
    cols: u16,
    rows: u16,
) -> Result<TerminalRequestView, ErrorView> {
    match bots::bot_with_id(bots, id) {
        None => Err(ErrorView::BotNotFound(id)),
        Some(bot) => Ok(
            TerminalRequestView {
                container_name: bot.container_name@,
                cmd: seq!["/bin/bash"@],
                env: seq!["TERM=xterm-256color"@, "PS1=\\u@\\h:\\w\\$ "@],
                cols,
                rows,
                output_event: "terminal-output-"@ + id,
                disconnect_event: "terminal-disconnect-"@ + id,
            },
        ),
    }
}

/// Find out which shell to start for a bot's terminal.
pub fn start_terminal_session(store: &BotStore, id: &str, cols: u16, rows: u16) -> (r: Result<
    TerminalRequest,
    AppError,
>)
    ensures
        error::outcome(r) == terminal_request(store.bots@, id@, cols, rows),
{
    let (container_name, _) = bots::resolve_container_and_agent(store, id)?;
    let cmd = vec!["/bin/bash".to_string()];
    let env = vec!["TERM=xterm-256color".to_string(), "PS1=\\u@\\h:\\w\\$ ".to_string()];
    assert(text::texts(cmd@) == seq!["/bin/bash"@]);
    assert(text::texts(env@) == seq!["TERM=xterm-256color"@, "PS1=\\u@\\h:\\w\\$ "@]);
    Ok(
        TerminalRequest {
            container_name,
            cmd,
            env,
            cols,
            rows,
            output_event: events::terminal_output_event(id),
            disconnect_event: events::terminal_disconnect_event(id),
        },
    )
}

/// The word announced when the output of a terminal ends.
pub const STREAM_ENDED: &'static str = "stream_ended";

/// The report on a terminal that was started without its output.
pub fn detached_terminal() -> (r: AppError)
    ensures
        r@ == ErrorView::Other("Exec started in detached mode unexpectedly"@),
{
    AppError::Other("Exec started in detached mode unexpectedly".to_string())
}

/// What is sent on of a text from the terminal: all of it, unless it is empty.
pub fn terminal_text(out: String) -> (r: Option<String>)
    ensures
        text::option_view(r) == (if out@.len() > 0 {
            Some(out@)
        } else {
            None
        }),
{
    if out.as_str().is_empty() {
        None
    } else {
        Some(out)
    }
}

/// What is sent on of bytes from the terminal: their text, unless it is empty.
pub fn terminal_output(bytes: &[u8]) -> (r: Option<String>)
    ensures
        text::option_view(r) == (if unicode::decoded_lossy(bytes@).len() > 0 {
            Some(unicode::decoded_lossy(bytes@))
        } else {
            None
        }),
{
    terminal_text(unicode::decode_lossy(bytes))
}

/// The container and the command that ends the shell of a terminal, given the
/// shell's process and container as far as they are known.
pub open spec fn kill_request(pid: Option<i64>, container_id: Option<Seq<char>>) -> Option<
    (Seq<char>, Seq<Seq<char>>),
> {
    match (pid, container_id) {
        (Some(n), Some(container)) => if n > 0 {
            Some((container, seq!["kill"@, "-TERM"@, text::decimal(n as nat)]))
        } else {
            None
        },
        _ => None,
    }
}

/// Find out how to end the shell of a terminal, if that can be done.
pub fn stop_terminal_session(pid: Option<i64>, container_id: Option<&str>) -> (r: Option<
    (String, Vec<String>),
>)
    ensures
        match r {
            Some((container, args)) => kill_request(pid, text::option_view(container_id)) == Some(
                (container@, text::texts(args@)),
            ),
            None => kill_request(pid, text::option_view(container_id)) is None,
        },
{
    match (pid, container_id) {
        (Some(n), Some(container)) => {
            if n > 0 {
                let args = vec![
                    "kill".to_string(),
                    "-TERM".to_string(),
                    text::decimal_string(n as u64),
                ];
                assert(text::texts(args@) == seq!["kill"@, "-TERM"@, text::decimal(n as nat)]);
                Some((container.to_string(), args))
            } else {
                None
            }
        },
        _ => None,
    }
}

/// The terminal session of a bot, if it has one.
pub fn active_session<T>(session: Option<T>, id: &str) -> (r: Result<T, AppError>)
    ensures
        match (r, session) {
            (Ok(active), Some(s)) => active == s,
            (Err(e), None) => e@ == ErrorView::Other(
                "No active terminal session for bot "@ + id@,
            ),
            _ => false,
        },
{
    match session {
        Some(s) => Ok(s),
        None => Err(AppError::Other(text::concat2("No active terminal session for bot ", id))),
    }
}

/// What is done with a terminal.
#[derive(Debug, Clone, Copy, PartialEq, Eq, Structural)]
pub enum TerminalStep {
    Write,
    Flush,
    Resize,
}

/// The report on something that could not be done with a terminal.
pub fn terminal_failure(step: TerminalStep, reason: &str) -> (r: AppError)
    ensures
        r@ == ErrorView::Other(
            (match step {
                TerminalStep::Write => "Failed to write to terminal: "@,
                TerminalStep::Flush => "Failed to flush terminal: "@,
                TerminalStep::Resize => "Failed to resize terminal: "@,
            }) + reason@,
        ),
{
    let head = match step {
        TerminalStep::Write => "Failed to write to terminal: ",
        TerminalStep::Flush => "Failed to flush terminal: ",
        TerminalStep::Resize => "Failed to resize terminal: ",
    };
    AppError::Other(text::concat2(head, reason))
}

// ── What holds of terminals ──────────────────────────────────────────

/// A terminal is started in the container of the first bot with the given id, in
/// the size asked for, and its events are those of that bot.
pub proof fn law_terminal_is_started_for_the_bot(
    bots: Seq<BotProfile>,
    id: Seq<char>,
    i: int,
    cols: u16,
    rows: u16,
)
    requires
        0 <= i <= bots.len(),
        forall|k: int| 0 <= k < i ==> (#[trigger] bots[k]).id@ != id,
        i < bots.len() ==> bots[i].id@ == id,
    ensures
        terminal_request(bots, id, cols, rows) is Ok <==> i < bots.len(),
        terminal_request(bots, id, cols, rows) matches Ok(request) ==> request.container_name
            == bots[i].container_name@ && request.cols == cols && request.rows == rows
            && request.output_event == "terminal-output-"@ + id && request.disconnect_event
            == "terminal-disconnect-"@ + id && request.cmd.len() == 1 && request.cmd[0]
            == "/bin/bash"@ && request.env.len() == 2 && request.env[0] == "TERM=xterm-256color"@
            && request.env[1] == "PS1=\\u@\\h:\\w\\$ "@,
        terminal_request(bots, id, cols, rows) matches Err(e) ==> e == ErrorView::BotNotFound(id),
{
    bots::law_first_bot_is_found(bots, id, i);
}

/// A shell is ended exactly if its process and container are known, by the
/// number of that process in that container.
pub proof fn law_shell_is_ended_by_its_number(pid: Option<i64>, container_id: Option<Seq<char>>)
    ensures
        kill_request(pid, container_id) is Some <==> pid is Some && pid->0 > 0 && container_id
            is Some,
        kill_request(pid, container_id) matches Some((container, args)) ==> container
            == container_id->0 && args.len() == 3 && args[0] == "kill"@ && args[1] == "-TERM"@
            && text::number_of(args[2]) == pid->0,
{
    if let Some(n) = pid {
        if n > 0 {
            text::law_decimal_stands_for_the_number(n as nat);
        }
    }
}

} // verus!
