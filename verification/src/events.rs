//! The names of the events that the user's window listens to.

use vstd::prelude::*;
use crate::text;

verus! {

/// The name of the event with the phases of a bot's restart.
pub fn restart_phase_event(id: &str) -> (r: String)
    ensures
        r@ == "bot-restart-phase-"@ + id@,
{
    text::concat2("bot-restart-phase-", id)
}

/// The name of the event that says that a bot's terminal is gone.
pub fn terminal_disconnect_event(id: &str) -> (r: String)
    ensures
        r@ == "terminal-disconnect-"@ + id@,
{
    text::concat2("terminal-disconnect-", id)
}

/// The name of the event with the output of a bot's terminal.
pub fn terminal_output_event(id: &str) -> (r: String)
    ensures
        r@ == "terminal-output-"@ + id@,
{
    text::concat2("terminal-output-", id)
}

/// The name of the event with the pieces of a bot's response.
pub fn chat_response_event(id: &str) -> (r: String)
    ensures
        r@ == "chat-response-"@ + id@,
{
    text::concat2("chat-response-", id)
}

/// The name of the event with the figures of a bot's container.
pub fn stats_event(id: &str) -> (r: String)
    ensures
        r@ == "container-stats-"@ + id@,
{
    text::concat2("container-stats-", id)
}

/// The name of the event with the log of a bot's container.
pub fn log_event(id: &str) -> (r: String)
    ensures
        r@ == "container-log-"@ + id@,
{
    text::concat2("container-log-", id)
}

/// The name of the event with the state of a bot's health.
pub const HEALTH_EVENT: &'static str = "bot-health-update";

/// A character of an image's name as it stands in the name of an event.
pub open spec fn event_char(c: char) -> char {
    if c == '/' || c == ':' {
        '-'
    } else {
        c
    }
}

/// The name of the event with the progress of an image's download: slashes
/// and colons of the image's name are hyphens in it.
pub fn image_pull_event(image: &str) -> (r: String)
    ensures
        r@ == "image-pull-progress-"@ + image@.map_values(|c: char| event_char(c)),
{
    let chars = text::chars_of(image);
    let mut r = "image-pull-progress-".to_string();
    let ghost head = r@;
    for i in 0..chars.len()
        invariant
            chars@ == image@,
            r@ == head + image@.take(i as int).map_values(|c: char| event_char(c)),
    {
        let ghost next = image@.take(i + 1).map_values(|c: char| event_char(c));
        assert(next == image@.take(i as int).map_values(|c: char| event_char(c)).push(
            event_char(chars@[i as int]),
        ));
        let c = if chars[i] == '/' || chars[i] == ':' {
            '-'
        } else {
            chars[i]
        };
        r.push(c);
    }
    assert(image@.take(image@.len() as int) == image@);
    r
}

/// Events of one kind have different names for different bots.
pub proof fn law_event_names_differ(kind: Seq<char>, a: Seq<char>, b: Seq<char>)
    requires
        a != b,
    ensures
        kind + a != kind + b,
{
    assert((kind + a).skip(kind.len() as int) == a);
    assert((kind + b).skip(kind.len() as int) == b);
}

/// In the name of an image's event slashes and colons are hyphens, and all other
/// characters are those of the image's name.
pub proof fn law_only_separators_change(c: char)
    ensures
        event_char('/') == '-',
        event_char(':') == '-',
        c != '/' && c != ':' ==> event_char(c) == c,
{
}

} // verus!
