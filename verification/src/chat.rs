//! Chatting with an agent: the command that asks it, and what becomes of its
//! output.

use vstd::prelude::*;
use vstd::string::StringExecFns;
use crate::bots;
use crate::bots::{BotProfile, BotStore};
use crate::clock;
use crate::error;
use crate::error::{AppError, ErrorView};
use crate::events;
use crate::models::AgentType;
use crate::text;
use crate::unicode;

verus! {

// ── The chat command ─────────────────────────────────────────────────

/// The arguments of the command that sends a message to an agent.
pub open spec fn chat_command(
    agent_type: AgentType,
    session_id: Seq<char>,
    message: Seq<char>,
) -> Seq<Seq<char>> {
    match agent_type {
        AgentType::OpenClaw => seq![
            "/usr/local/bin/openclaw"@,
            "agent"@,
            "--local"@,
            "--agent"@,
            "main"@,
            "--session-id"@,
            "clawpier-"@ + session_id,
            "--message"@,
            message,
        ],
        AgentType::Hermes => seq![
            "/usr/local/bin/hermes"@,
            "chat"@,
            "-Q"@,
            "-q"@,
            message,
        ],
    }
}

/// Build the arguments of an agent's chat command. An OpenClaw agent keeps
/// sessions by the given id; a Hermes agent manages its sessions itself.
pub fn build_agent_chat_cmd(agent_type: &AgentType, session_id: &str, message: &str) -> (r: Vec<
    String,
>)
    ensures
        text::texts(r@) == chat_command(*agent_type, session_id@, message@),
{
    match agent_type {
        AgentType::OpenClaw => {
            let r = vec![
                "/usr/local/bin/openclaw".to_string(),
                "agent".to_string(),
                "--local".to_string(),
                "--agent".to_string(),
                "main".to_string(),
                "--session-id".to_string(),
                text::concat2("clawpier-", session_id),
                "--message".to_string(),
                message.to_string(),
            ];
            assert(text::texts(r@) == chat_command(*agent_type, session_id@, message@));
            r
        },
        AgentType::Hermes => {
            let r = vec![
                "/usr/local/bin/hermes".to_string(),
                "chat".to_string(),
                "-Q".to_string(),
                "-q".to_string(),
                message.to_string(),
            ];
            assert(text::texts(r@) == chat_command(*agent_type, session_id@, message@));
            r
        },
    }
}

// ── The output of a Hermes agent ─────────────────────────────────────

/// Whether a line may stand above the reply of a Hermes agent: a blank line,
/// a line of the box around the agent's name, or a prompt.
pub open spec fn is_header_line(line: Seq<char>) -> bool {
    let t = text::trimmed(line);
    ||| t.len() == 0
    ||| t[0] == '\u{256D}'
    ||| t[0] == '\u{2502}'
    ||| t[0] == '\u{2570}'
    ||| "> "@.is_prefix_of(t)
    ||| t[0] == '\u{2190}'
}

/// Whether a line may stand below the reply of a Hermes agent: a blank line,
/// the session id, or a line of a box.
pub open spec fn is_footer_line(line: Seq<char>) -> bool {
    let t = text::trimmed(line);
    ||| t.len() == 0
    ||| "session_id:"@.is_prefix_of(t)
    ||| t[0] == '\u{2570}'
    ||| t[0] == '\u{256D}'
}

/// The lines from the first one on that is no header line.
pub open spec fn without_header(lines: Seq<Seq<char>>) -> Seq<Seq<char>>
    decreases lines.len(),
{
    if lines.len() > 0 && is_header_line(lines[0]) {
        without_header(lines.drop_first())
    } else {
        lines
    }
}

/// The lines up to the last one that is no footer line.
pub open spec fn without_footer(lines: Seq<Seq<char>>) -> Seq<Seq<char>>
    decreases lines.len(),
{
    if lines.len() > 0 && is_footer_line(lines.last()) {
        without_footer(lines.drop_last())
    } else {
        lines
    }
}

/// The reply in the output of a Hermes agent.
pub open spec fn hermes_reply(raw: Seq<char>) -> Seq<char> {
    text::joined(without_footer(without_header(text::lines(raw))), seq!['\n'])
}

fn header_line(line: &[char]) -> (r: bool)
    ensures
        r == is_header_line(line@),
{
    let t = text::trim(line);
    t.len() == 0 || t[0] == '\u{256D}' || t[0] == '\u{2502}' || t[0] == '\u{2570}'
        || text::starts_with(t, "> ") || t[0] == '\u{2190}'
}

fn footer_line(line: &[char]) -> (r: bool)
    ensures
        r == is_footer_line(line@),
{
    let t = text::trim(line);
    t.len() == 0 || text::starts_with(t, "session_id:") || t[0] == '\u{2570}' || t[0]
        == '\u{256D}'
}

/// Strip the metadata around the reply in the output of a Hermes agent: the
/// header with the agent's name, and the line with the session id.
pub fn strip_hermes_metadata(raw: &str) -> (r: String)
    ensures
        r@ == hermes_reply(raw@),
{
    let chars = text::chars_of(raw);
    let lines = text::split_lines(chars.as_slice());
    let ghost all = text::lines(raw@);
    let mut start: usize = 0;
    assert(all.skip(0) == all);
    while start < lines.len() && header_line(lines[start])
        invariant
            text::slices(lines@) == all,
            start <= lines@.len(),
            without_header(all) == without_header(all.skip(start as int)),
        decreases lines@.len() - start,
    {
        assert(all[start as int] == lines@[start as int]@);
        assert(all.skip(start as int).drop_first() == all.skip(start + 1));
        start += 1;
    }
    let ghost body = all.skip(start as int);
    assert(start < lines@.len() ==> body[0] == lines@[start as int]@);
    assert(without_header(all) == body);
    let mut end: usize = lines.len();
    assert(body.take(end - start) == body);
    while end > start && footer_line(lines[end - 1])
        invariant
            text::slices(lines@) == all,
            body == all.skip(start as int),
            start <= end <= lines@.len(),
            without_footer(body) == without_footer(body.take(end - start)),
        decreases end,
    {
        assert(body.take(end - start).last() == lines@[end - 1]@);
        assert(body.take(end - start).drop_last() == body.take(end - start - 1));
        end -= 1;
    }
    assert(end > start ==> body.take(end - start).last() == lines@[end - 1]@);
    let kept = vstd::slice::slice_subrange(lines.as_slice(), start, end);
    assert(text::slices(kept@) == body.take(end - start));
    text::join_lines(kept)
}

// ── Messages ─────────────────────────────────────────────────────────

/// A message of a chat session.
#[derive(Debug)]
pub struct ChatMessage {
    pub id: String,
    pub role: String,
    pub content: String,
    pub timestamp: String,
}

/// Whether the text is a random identifier: 32 lower case hexadecimal digits
/// in groups of 8, 4, 4, 4 and 12, marked as version 4 of the standard kind.
pub open spec fn is_random_id(s: Seq<char>) -> bool {
    &&& s.len() == 36
    &&& forall|i: int|
        0 <= i < 36 ==> if i == 8 || i == 13 || i == 18 || i == 23 {
            #[trigger] s[i] == '-'
        } else {
            '0' <= s[i] <= '9' || 'a' <= s[i] <= 'f'
        }
    &&& s[14] == '4'
    &&& s[19] == '8' || s[19] == '9' || s[19] == 'a' || s[19] == 'b'
}

/// `uuid::Uuid::new_v4`, written out: a random identifier of that form. Which
/// one it is, is left to chance.
#[verifier::external_body]
fn new_random_id() -> (s: String)
    ensures
        is_random_id(s@),
{
    uuid::Uuid::new_v4().to_string()
}

/// A message of the given role and content.
pub fn chat_message(id: String, role: &str, content: &str, timestamp: String) -> (r: ChatMessage)
    ensures
        r.id@ == id@,
        r.role@ == role@,
        r.content@ == content@,
        r.timestamp@ == timestamp@,
{
    ChatMessage { id, role: role.to_string(), content: content.to_string(), timestamp }
}

/// The message a user sends now.
pub fn user_message(content: &str) -> (r: ChatMessage)
    ensures
        r.role@ == "user"@,
        r.content@ == content@,
        is_random_id(r.id@),
        clock::is_time(r.timestamp@),
        "+00:00"@.is_suffix_of(r.timestamp@),
{
    chat_message(new_random_id(), "user", content, clock::utc_now())
}

/// The message an agent answers now.
pub fn assistant_message(content: &str) -> (r: ChatMessage)
    ensures
        r.role@ == "assistant"@,
        r.content@ == content@,
        is_random_id(r.id@),
        clock::is_time(r.timestamp@),
        "+00:00"@.is_suffix_of(r.timestamp@),
{
    chat_message(new_random_id(), "assistant", content, clock::utc_now())
}

// ── The response to a message ────────────────────────────────────────

/// A piece of a response, as it is sent to the user.
#[derive(Debug)]
pub struct ChatResponseChunk {
    pub session_id: String,
    pub content: String,
    pub done: bool,
}

pub struct ChunkView {
    pub session_id: Seq<char>,
    pub content: Seq<char>,
    pub done: bool,
}

impl View for ChatResponseChunk {
    type V = ChunkView;

    open spec fn view(&self) -> ChunkView {
        ChunkView { session_id: self.session_id@, content: self.content@, done: self.done }
    }
}

/// A response that is being received.
#[derive(Debug)]
pub struct ChatStream {
    pub agent_type: AgentType,
    pub session_id: String,
    /// What is to be shown and stored as the agent's response.
    pub response: String,
    /// What the agent wrote to its error output.
    pub errors: String,
    /// Whether the agent wrote anything to its standard output.
    pub answered: bool,
}

#[verifier::ext_equal]
pub struct StreamView {
    pub agent_type: AgentType,
    pub session_id: Seq<char>,
    pub response: Seq<char>,
    pub errors: Seq<char>,
    pub answered: bool,
}

impl View for ChatStream {
    type V = StreamView;

    open spec fn view(&self) -> StreamView {
        StreamView {
            agent_type: self.agent_type,
            session_id: self.session_id@,
            response: self.response@,
            errors: self.errors@,
            answered: self.answered,
        }
    }
}

impl StreamView {
    /// A response of which nothing has come yet.
    pub open spec fn start(agent_type: AgentType, session_id: Seq<char>) -> StreamView {
        StreamView { agent_type, session_id, response: seq![], errors: seq![], answered: false }
    }

    /// A chunk with the given content.
    pub open spec fn chunk(self, content: Seq<char>) -> ChunkView {
        ChunkView { session_id: self.session_id, content, done: false }
    }

    /// After `out` on the standard output.
    pub open spec fn after_output(self, out: Seq<char>) -> StreamView {
        if out.len() == 0 {
            self
        } else {
            StreamView { response: self.response + out, answered: true, ..self }
        }
    }

    /// What is sent on when `out` comes: the output of an OpenClaw agent at
    /// once, that of a Hermes agent not before its end.
    pub open spec fn output_chunk(self, out: Seq<char>) -> Option<ChunkView> {
        if out.len() == 0 || self.agent_type == AgentType::Hermes {
            None
        } else {
            Some(self.chunk(out))
        }
    }

    /// After `err` on the error output.
    pub open spec fn after_error_output(self, err: Seq<char>) -> StreamView {
        StreamView { errors: self.errors + err, ..self }
    }

    /// After the end of the output. The error output becomes the response only
    /// if nothing else came.
    pub open spec fn after_end(self) -> StreamView {
        if self.answered && self.agent_type == AgentType::Hermes {
            StreamView { response: hermes_reply(self.response), ..self }
        } else if !self.answered && self.errors.len() > 0 {
            StreamView { response: self.errors, ..self }
        } else {
            self
        }
    }

    /// What is sent on at the end of the output: a response, unless it is
    /// empty or went out already.
    pub open spec fn end_chunk(self) -> Option<ChunkView> {
        if self.answered && self.agent_type == AgentType::Hermes {
            if hermes_reply(self.response).len() > 0 {
                Some(self.chunk(hermes_reply(self.response)))
            } else {
                None
            }
        } else if !self.answered && self.errors.len() > 0 {
            Some(self.chunk(self.errors))
        } else {
            None
        }
    }

    /// After a failure, which becomes the response.
    pub open spec fn after_failure(self, reason: Seq<char>) -> StreamView {
        StreamView { response: "Error: "@ + reason, ..self }
    }
}

impl ChatStream {
    /// The response to a message of the given session.
    pub fn new(agent_type: AgentType, session_id: &str) -> (r: ChatStream)
        ensures
            r@ == StreamView::start(agent_type, session_id@),
    {
        ChatStream {
            agent_type,
            session_id: session_id.to_string(),
            response: String::new(),
            errors: String::new(),
            answered: false,
        }
    }

    fn chunk(&self, content: &str) -> (r: ChatResponseChunk)
        ensures
            r@ == self@.chunk(content@),
    {
        ChatResponseChunk {
            session_id: self.session_id.clone(),
            content: content.to_string(),
            done: false,
        }
    }

    /// Take in a text from the agent's standard output, and say what to send on.
    pub fn on_output_text(&mut self, out: &str) -> (r: Option<ChatResponseChunk>)
        ensures
            final(self)@ == old(self)@.after_output(out@),
            text::option_view(r) == old(self)@.output_chunk(out@),
    {
        if out.is_empty() {
            return None;
        }
        self.answered = true;
        self.response.append(out);
        if self.agent_type == AgentType::Hermes {
            None
        } else {
            Some(self.chunk(out))
        }
    }

    /// Take in bytes from the agent's standard output, and say what to send on.
    pub fn on_output(&mut self, bytes: &[u8]) -> (r: Option<ChatResponseChunk>)
        ensures
            final(self)@ == old(self)@.after_output(unicode::decoded_lossy(bytes@)),
            text::option_view(r) == old(self)@.output_chunk(unicode::decoded_lossy(bytes@)),
    {
        let out = unicode::decode_lossy(bytes);
        self.on_output_text(out.as_str())
    }

    /// Take in a text from the agent's error output.
    pub fn on_error_text(&mut self, err: &str)
        ensures
            final(self)@ == old(self)@.after_error_output(err@),
    {
        self.errors.append(err);
    }

    /// Take in bytes from the agent's error output.
    pub fn on_error_output(&mut self, bytes: &[u8])
        ensures
            final(self)@ == old(self)@.after_error_output(unicode::decoded_lossy(bytes@)),
    {
        let err = unicode::decode_lossy(bytes);
        self.on_error_text(err.as_str());
    }

    /// Take note of the end of the agent's output, and say what to send on.
    pub fn on_end(&mut self) -> (r: Option<ChatResponseChunk>)
        ensures
            final(self)@ == old(self)@.after_end(),
            text::option_view(r) == old(self)@.end_chunk(),
    {
        if self.answered {
            if self.agent_type == AgentType::Hermes {
                let reply = strip_hermes_metadata(self.response.as_str());
                let sent = if reply.as_str().is_empty() {
                    None
                } else {
                    Some(self.chunk(reply.as_str()))
                };
                self.response = reply;
                return sent;
            }
            return None;
        }
        if self.errors.as_str().is_empty() {
            return None;
        }
        self.response = self.errors.clone();
        Some(self.chunk(self.errors.as_str()))
    }

    /// Take note that the command was started, but without its output.
    pub fn on_detached(&mut self)
        ensures
            final(self)@ == old(self)@.after_failure("exec started in detached mode"@),
    {
        self.response = text::concat2("Error: ", "exec started in detached mode");
    }

    /// Take note that the command could not be started.
    pub fn on_start_failure(&mut self, reason: &str)
        ensures
            final(self)@ == old(self)@.after_failure(reason@),
    {
        self.response = text::concat2("Error: ", reason);
    }

    /// Take note that the command could not be set up, and say what to send on.
    pub fn on_create_failure(&mut self, reason: &str) -> (r: ChatResponseChunk)
        ensures
            final(self)@ == old(self)@.after_failure(reason@),
            r@ == old(self)@.chunk("Error: "@ + reason@),
    {
        self.response = text::concat2("Error: ", reason);
        self.chunk(self.response.as_str())
    }

    /// What tells the user that the response is complete.
    pub fn done_chunk(&self) -> (r: ChatResponseChunk)
        ensures
            r@ == (ChunkView { session_id: self@.session_id, content: seq![], done: true }),
    {
        ChatResponseChunk { session_id: self.session_id.clone(), content: String::new(), done: true }
    }

    /// The response to store, without white space around it, if any is left.
    pub fn reply(&self) -> (r: Option<String>)
        ensures
            text::option_view(r) == (if text::trimmed(self@.response).len() == 0 {
                None
            } else {
                Some(text::trimmed(self@.response))
            }),
    {
        let chars = text::chars_of(self.response.as_str());
        let t = text::trim(chars.as_slice());
        if t.len() == 0 {
            None
        } else {
            Some(text::string_of(t))
        }
    }
}

// ── Sending a message ────────────────────────────────────────────────

/// The command that sends a message to an agent, the event by which its
/// response is sent on, and the response, of which nothing has come yet.
#[derive(Debug)]
pub struct ChatRequest {
    pub container_name: String,
    pub args: Vec<String>,
    pub event: String,
    pub stream: ChatStream,
}

#[verifier::ext_equal]
pub struct ChatRequestView {
    pub container_name: Seq<char>,
    pub args: Seq<Seq<char>>,
    pub event: Seq<char>,
    pub stream: StreamView,
}

impl View for ChatRequest {
    type V = ChatRequestView;

    open spec fn view(&self) -> ChatRequestView {
        ChatRequestView {
            container_name: self.container_name@,
            args: text::texts(self.args@),
            event: self.event@,
            stream: self.stream@,
        }
    }
}

/// How a message is sent to a bot, or why it is not.
pub open spec fn chat_request(
    bots: Seq<BotProfile>,
    id: Seq<char>,
    session_id: Seq<char>,
    message: Seq<char>,
) -> Result<ChatRequestView, ErrorView> {
    match bots::bot_with_id(bots, id) {
        None => Err(ErrorView::BotNotFound(id)),
        Some(bot) => Ok(
            ChatRequestView {
                container_name: bot.container_name@,
                args: chat_command(bot.agent_type, session_id, message),
                event: "chat-response-"@ + id,
                stream: StreamView::start(bot.agent_type, session_id),
            },
        ),
    }
}

/// Find out how to send a message to a bot.
pub fn send_chat_message(store: &BotStore, id: &str, session_id: &str, message: &str) -> (r: Result<
    ChatRequest,
    AppError,
>)
    ensures
        error::outcome(r) == chat_request(store.bots@, id@, session_id@, message@),
{
    let (container_name, agent_type) = bots::resolve_container_and_agent(store, id)?;
    Ok(
        ChatRequest {
            container_name,
            args: build_agent_chat_cmd(&agent_type, session_id, message),
            event: events::chat_response_event(id),
            stream: ChatStream::new(agent_type, session_id),
        },
    )
}

// ── What holds of the chat command ───────────────────────────────────

/// The message is the last argument of the command, as it is.
pub proof fn law_message_is_passed_on(
    agent_type: AgentType,
    session_id: Seq<char>,
    message: Seq<char>,
)
    ensures
        chat_command(agent_type, session_id, message).last() == message,
{
}

/// The sessions of an OpenClaw agent have ids of their own: each is passed on
/// with a prefix, and different ones stay different.
pub proof fn law_sessions_stay_apart(a: Seq<char>, b: Seq<char>, message: Seq<char>)
    ensures
        chat_command(AgentType::OpenClaw, a, message)[5] == "--session-id"@,
        "clawpier-"@.is_prefix_of(chat_command(AgentType::OpenClaw, a, message)[6]),
        a != b ==> chat_command(AgentType::OpenClaw, a, message)[6] != chat_command(
            AgentType::OpenClaw,
            b,
            message,
        )[6],
{
    let head = "clawpier-"@;
    assert((head + a).subrange(0, head.len() as int) == head);
    assert((head + a).skip(head.len() as int) == a);
    assert((head + b).skip(head.len() as int) == b);
}

/// An OpenClaw agent is asked without a gateway; a Hermes agent is given
/// neither that option nor a session, which it manages itself.
pub proof fn law_options_of_the_agents(session_id: Seq<char>, other: Seq<char>, message: Seq<char>)
    ensures
        chat_command(AgentType::OpenClaw, session_id, message).contains("--local"@),
        !chat_command(AgentType::Hermes, session_id, message).drop_last().contains("--local"@),
        !chat_command(AgentType::Hermes, session_id, message).drop_last().contains("--resume"@),
        chat_command(AgentType::Hermes, session_id, message) == chat_command(
            AgentType::Hermes,
            other,
            message,
        ),
{
    assert(chat_command(AgentType::OpenClaw, session_id, message)[2] == "--local"@);
    reveal_strlit("--local");
    reveal_strlit("--resume");
    reveal_strlit("/usr/local/bin/hermes");
    reveal_strlit("chat");
    reveal_strlit("-Q");
    reveal_strlit("-q");
    let options = chat_command(AgentType::Hermes, session_id, message).drop_last();
    assert forall|i: int| 0 <= i < options.len() implies options[i].len() != 7 && options[i].len()
        != 8 by {
        assert(i == 0 || i == 1 || i == 2 || i == 3);
    }
    assert("--local"@.len() == 7);
    assert("--resume"@.len() == 8);
}

/// The agents' programs are named by absolute paths.
pub proof fn law_programs_are_absolute(
    agent_type: AgentType,
    session_id: Seq<char>,
    message: Seq<char>,
)
    ensures
        chat_command(agent_type, session_id, message)[0][0] == '/',
{
    reveal_strlit("/usr/local/bin/openclaw");
    reveal_strlit("/usr/local/bin/hermes");
}

// ── What holds of a Hermes agent's reply ─────────────────────────────

/// The lines of a reply in the output of a Hermes agent.
pub open spec fn reply_lines(raw: Seq<char>) -> Seq<Seq<char>> {
    without_footer(without_header(text::lines(raw)))
}

proof fn lemma_without_header(lines: Seq<Seq<char>>)
    ensures
        exists|i: int|
            0 <= i <= lines.len() && without_header(lines) == #[trigger] lines.skip(i) && forall|j: int|
                0 <= j < i ==> is_header_line(#[trigger] lines[j]),
        without_header(lines).len() > 0 ==> !is_header_line(without_header(lines)[0]),
    decreases lines.len(),
{
    if lines.len() > 0 && is_header_line(lines[0]) {
        let rest = lines.drop_first();
        lemma_without_header(rest);
        let i = choose|i: int|
            0 <= i <= rest.len() && without_header(rest) == #[trigger] rest.skip(i) && forall|j: int|
                0 <= j < i ==> is_header_line(#[trigger] rest[j]);
        assert(rest.skip(i) == lines.skip(i + 1));
        assert forall|j: int| 0 <= j < i + 1 implies is_header_line(#[trigger] lines[j]) by {
            if j > 0 {
                assert(rest[j - 1] == lines[j]);
            }
        }
    } else {
        assert(lines.skip(0) == lines);
    }
}

proof fn lemma_without_footer(lines: Seq<Seq<char>>)
    ensures
        exists|n: int|
            0 <= n <= lines.len() && without_footer(lines) == #[trigger] lines.take(n) && forall|j: int|
                n <= j < lines.len() ==> is_footer_line(#[trigger] lines[j]),
        without_footer(lines).len() > 0 ==> !is_footer_line(without_footer(lines).last()),
    decreases lines.len(),
{
    if lines.len() > 0 && is_footer_line(lines.last()) {
        let rest = lines.drop_last();
        lemma_without_footer(rest);
        let n = choose|n: int|
            0 <= n <= rest.len() && without_footer(rest) == #[trigger] rest.take(n) && forall|j: int|
                n <= j < rest.len() ==> is_footer_line(#[trigger] rest[j]);
        assert(rest.take(n) == lines.take(n));
        assert forall|j: int| n <= j < lines.len() implies is_footer_line(#[trigger] lines[j]) by {
            if j < rest.len() {
                assert(rest[j] == lines[j]);
            }
        }
    } else {
        assert(lines.take(lines.len() as int) == lines);
    }
}

/// A reply is what stands between the header and the footer: only header lines
/// are removed above it and only footer lines below it, and it starts with no
/// header line and ends with no footer line.
pub proof fn law_reply_stands_between(raw: Seq<char>)
    ensures
        hermes_reply(raw) == text::joined(reply_lines(raw), seq!['\n']),
        exists|i: int, j: int|
            0 <= i <= j <= text::lines(raw).len() && reply_lines(raw) == #[trigger] text::lines(
                raw,
            ).subrange(i, j) && (forall|k: int|
                0 <= k < i ==> is_header_line(#[trigger] text::lines(raw)[k])) && (forall|k: int|
                j <= k < text::lines(raw).len() ==> is_footer_line(#[trigger] text::lines(raw)[k])),
        reply_lines(raw).len() > 0 ==> !is_header_line(reply_lines(raw)[0]) && !is_footer_line(
            reply_lines(raw).last(),
        ),
{
    let all = text::lines(raw);
    let body = without_header(all);
    lemma_without_header(all);
    lemma_without_footer(body);
    let i = choose|i: int|
        0 <= i <= all.len() && body == #[trigger] all.skip(i) && forall|j: int|
            0 <= j < i ==> is_header_line(#[trigger] all[j]);
    let n = choose|n: int|
        0 <= n <= body.len() && without_footer(body) == #[trigger] body.take(n) && forall|j: int|
            n <= j < body.len() ==> is_footer_line(#[trigger] body[j]);
    assert(body.take(n) == all.subrange(i, i + n));
    assert forall|k: int| i + n <= k < all.len() implies is_footer_line(#[trigger] all[k]) by {
        assert(body[k - i] == all[k]);
    }
    assert(0 <= i <= i + n <= all.len() && reply_lines(raw) == all.subrange(i, i + n));
    if reply_lines(raw).len() > 0 {
        assert(reply_lines(raw)[0] == body[0]);
    }
}

/// Output without metadata is passed on as it is: if it starts with no header
/// line, ends with neither a footer line nor a line feed, and has no carriage
/// return before a line feed.
pub proof fn law_plain_reply_is_kept(raw: Seq<char>)
    requires
        raw.len() > 0 ==> raw.last() != '\n' && !is_header_line(text::lines(raw)[0])
            && !is_footer_line(text::lines(raw).last()),
        !text::contains_text(raw, seq!['\r', '\n']),
    ensures
        hermes_reply(raw) == raw,
{
    text::lemma_joined_lines(raw);
    if raw.len() == 0 {
        assert(text::lines(raw).len() == 0);
    }
}

/// Stripping the metadata twice is stripping it once, unless a line of the
/// reply other than the last one ends with a carriage return.
pub proof fn law_stripping_is_idempotent(raw: Seq<char>)
    requires
        forall|i: int|
            0 <= i < reply_lines(raw).len() - 1 ==> !text::ends_with_return(
                #[trigger] reply_lines(raw)[i],
            ),
    ensures
        hermes_reply(hermes_reply(raw)) == hermes_reply(raw),
{
    let all = text::lines(raw);
    let kept = reply_lines(raw);
    law_reply_stands_between(raw);
    text::lemma_lines_have_no_feed(raw);
    let (i, j) = choose|i: int, j: int|
        0 <= i <= j <= all.len() && kept == #[trigger] all.subrange(i, j) && (forall|k: int|
            0 <= k < i ==> is_header_line(#[trigger] all[k])) && (forall|k: int|
            j <= k < all.len() ==> is_footer_line(#[trigger] all[k]));
    assert forall|k: int| 0 <= k < kept.len() implies !(#[trigger] kept[k]).contains('\n') by {
        assert(kept[k] == all[i + k]);
    }
    text::lemma_lines_of_joined(kept);
    assert(without_header(kept) == kept);
    assert(without_footer(kept) == kept);
}

// ── What holds of a response ─────────────────────────────────────────

/// What comes from an agent: a piece of its output or of its error output.
pub enum Arrival {
    Output(Seq<char>),
    ErrorOutput(Seq<char>),
}

impl StreamView {
    /// After one arrival.
    pub open spec fn after(self, arrival: Arrival) -> StreamView {
        match arrival {
            Arrival::Output(out) => self.after_output(out),
            Arrival::ErrorOutput(err) => self.after_error_output(err),
        }
    }

    /// What is sent on at one arrival.
    pub open spec fn sent_at(self, arrival: Arrival) -> Seq<char> {
        match arrival {
            Arrival::Output(out) => content_of(self.output_chunk(out)),
            Arrival::ErrorOutput(_) => seq![],
        }
    }

    /// After a series of arrivals.
    pub open spec fn after_all(self, arrivals: Seq<Arrival>) -> StreamView
        decreases arrivals.len(),
    {
        if arrivals.len() == 0 {
            self
        } else {
            self.after_all(arrivals.drop_last()).after(arrivals.last())
        }
    }

    /// All that is sent on at a series of arrivals.
    pub open spec fn sent_at_all(self, arrivals: Seq<Arrival>) -> Seq<char>
        decreases arrivals.len(),
    {
        if arrivals.len() == 0 {
            seq![]
        } else {
            self.sent_at_all(arrivals.drop_last()) + self.after_all(arrivals.drop_last()).sent_at(
                arrivals.last(),
            )
        }
    }
}

/// The content of a chunk, if there is one.
pub open spec fn content_of(chunk: Option<ChunkView>) -> Seq<char> {
    match chunk {
        Some(c) => c.content,
        None => seq![],
    }
}

/// All output of a series of arrivals.
pub open spec fn output_of(arrivals: Seq<Arrival>) -> Seq<char>
    decreases arrivals.len(),
{
    if arrivals.len() == 0 {
        seq![]
    } else {
        output_of(arrivals.drop_last()) + (match arrivals.last() {
            Arrival::Output(out) => out,
            Arrival::ErrorOutput(_) => seq![],
        })
    }
}

/// All error output of a series of arrivals.
pub open spec fn error_output_of(arrivals: Seq<Arrival>) -> Seq<char>
    decreases arrivals.len(),
{
    if arrivals.len() == 0 {
        seq![]
    } else {
        error_output_of(arrivals.drop_last()) + (match arrivals.last() {
            Arrival::Output(_) => seq![],
            Arrival::ErrorOutput(err) => err,
        })
    }
}

proof fn lemma_stream(agent_type: AgentType, session_id: Seq<char>, arrivals: Seq<Arrival>)
    ensures
        ({
            let start = StreamView::start(agent_type, session_id);
            let now = start.after_all(arrivals);
            &&& now == (StreamView {
                agent_type,
                session_id,
                response: output_of(arrivals),
                errors: error_output_of(arrivals),
                answered: output_of(arrivals).len() > 0,
            })
            &&& start.sent_at_all(arrivals) == (match agent_type {
                AgentType::OpenClaw => output_of(arrivals),
                AgentType::Hermes => seq![],
            })
        }),
    decreases arrivals.len(),
{
    let start = StreamView::start(agent_type, session_id);
    if arrivals.len() > 0 {
        let before = arrivals.drop_last();
        lemma_stream(agent_type, session_id, before);
        match arrivals.last() {
            Arrival::Output(out) => {
                assert(out.len() == 0 ==> output_of(before) + out == output_of(before));
                assert(error_output_of(before) + Seq::<char>::empty() == error_output_of(before));
            },
            Arrival::ErrorOutput(_) => {
                assert(output_of(before) + Seq::<char>::empty() == output_of(before));
            },
        }
        assert(start.after_all(arrivals) =~= (StreamView {
            agent_type,
            session_id,
            response: output_of(arrivals),
            errors: error_output_of(arrivals),
            answered: output_of(arrivals).len() > 0,
        }));
    }
}

/// The response is the agent's output, that of a Hermes agent without its
/// metadata; only of an agent that puts out nothing it is the error output.
pub proof fn law_response_is_the_output(
    agent_type: AgentType,
    session_id: Seq<char>,
    arrivals: Seq<Arrival>,
)
    ensures
        StreamView::start(agent_type, session_id).after_all(arrivals).after_end().response == (
        if output_of(arrivals).len() == 0 {
            error_output_of(arrivals)
        } else {
            match agent_type {
                AgentType::OpenClaw => output_of(arrivals),
                AgentType::Hermes => hermes_reply(output_of(arrivals)),
            }
        }),
{
    lemma_stream(agent_type, session_id, arrivals);
    if output_of(arrivals).len() == 0 && error_output_of(arrivals).len() == 0 {
        assert(output_of(arrivals) == error_output_of(arrivals));
    }
}

/// What is sent on, piece by piece and at the end, is the response.
pub proof fn law_response_is_sent_on(
    agent_type: AgentType,
    session_id: Seq<char>,
    arrivals: Seq<Arrival>,
)
    ensures
        ({
            let start = StreamView::start(agent_type, session_id);
            let now = start.after_all(arrivals);
            start.sent_at_all(arrivals) + content_of(now.end_chunk()) == now.after_end().response
        }),
{
    lemma_stream(agent_type, session_id, arrivals);
    let start = StreamView::start(agent_type, session_id);
    let now = start.after_all(arrivals);
    let sent = start.sent_at_all(arrivals);
    assert(sent + Seq::<char>::empty() == sent);
    if now.answered && agent_type == AgentType::Hermes && hermes_reply(now.response).len() == 0 {
        assert(hermes_reply(now.response) == Seq::<char>::empty());
    }
    if !now.answered {
        assert(sent == Seq::<char>::empty());
        assert(sent + now.errors == now.errors);
    }
    assert(sent + content_of(now.end_chunk()) =~= now.after_end().response);
}

/// The error output of an agent that puts out anything has no part in its
/// response.
pub proof fn law_errors_do_not_pollute(
    agent_type: AgentType,
    session_id: Seq<char>,
    a: Seq<Arrival>,
    b: Seq<Arrival>,
)
    requires
        output_of(a).len() > 0,
        output_of(a) == output_of(b),
    ensures
        StreamView::start(agent_type, session_id).after_all(a).after_end().response
            == StreamView::start(agent_type, session_id).after_all(b).after_end().response,
{
    law_response_is_the_output(agent_type, session_id, a);
    law_response_is_the_output(agent_type, session_id, b);
}

// ── What is read between metadata ────────────────────────────────────

proof fn lemma_header_is_skipped(head: Seq<Seq<char>>, rest: Seq<Seq<char>>)
    requires
        forall|i: int| 0 <= i < head.len() ==> is_header_line(#[trigger] head[i]),
        rest.len() > 0,
        !is_header_line(rest[0]),
    ensures
        without_header(head + rest) == rest,
    decreases head.len(),
{
    let all = head + rest;
    if head.len() == 0 {
        assert(all == rest);
    } else {
        assert(is_header_line(head[0]));
        let tail = head.drop_first();
        assert forall|i: int| 0 <= i < tail.len() implies is_header_line(#[trigger] tail[i]) by {
            assert(tail[i] == head[i + 1]);
        }
        lemma_header_is_skipped(tail, rest);
        assert(all.drop_first() == tail + rest);
    }
}

proof fn lemma_footer_is_skipped(rest: Seq<Seq<char>>, foot: Seq<Seq<char>>)
    requires
        forall|i: int| 0 <= i < foot.len() ==> is_footer_line(#[trigger] foot[i]),
        rest.len() > 0,
        !is_footer_line(rest.last()),
    ensures
        without_footer(rest + foot) == rest,
    decreases foot.len(),
{
    let all = rest + foot;
    if foot.len() == 0 {
        assert(all == rest);
    } else {
        assert(is_footer_line(foot[foot.len() - 1]));
        let init = foot.drop_last();
        assert forall|i: int| 0 <= i < init.len() implies is_footer_line(#[trigger] init[i]) by {
            assert(init[i] == foot[i]);
        }
        lemma_footer_is_skipped(rest, init);
        assert(all.drop_last() == rest + init);
    }
}

/// The reply of a Hermes agent is read as it was written, whatever metadata
/// stands around it: blank lines, lines of a box and prompts above it, and
/// blank lines, session ids and lines of a box below it. The first line of the
/// reply looks like none of those above, and the last one like none of those
/// below.
pub proof fn law_reply_is_read_between_metadata(
    head: Seq<Seq<char>>,
    body: Seq<Seq<char>>,
    foot: Seq<Seq<char>>,
)
    requires
        body.len() > 0,
        forall|i: int|
            0 <= i < body.len() ==> !(#[trigger] body[i]).contains('\n') && !(body[i].len() > 0
                && body[i].last() == '\r'),
        ({
            let t = text::trimmed(body[0]);
            &&& t.len() > 0
            &&& t[0] != '\u{256D}' && t[0] != '\u{2502}' && t[0] != '\u{2570}' && t[0] != '\u{2190}'
            &&& !(t[0] == '>' && t.len() > 1 && t[1] == ' ')
        }),
        ({
            let t = text::trimmed(body.last());
            &&& t.len() > 0
            &&& t[0] != '\u{256D}' && t[0] != '\u{2570}'
            &&& !(t.len() >= 11 && t.take(11) == "session_id:"@)
        }),
        forall|i: int|
            0 <= i < head.len() ==> !(#[trigger] head[i]).contains('\n') && ({
                let t = text::trimmed(head[i]);
                ||| t.len() == 0
                ||| t[0] == '\u{256D}' || t[0] == '\u{2502}' || t[0] == '\u{2570}' || t[0]
                    == '\u{2190}'
                ||| t[0] == '>' && t.len() > 1 && t[1] == ' '
            }),
        forall|i: int|
            0 <= i < foot.len() ==> !(#[trigger] foot[i]).contains('\n') && ({
                let t = text::trimmed(foot[i]);
                ||| t.len() == 0
                ||| t[0] == '\u{256D}' || t[0] == '\u{2570}'
                ||| t.len() >= 11 && t.take(11) == "session_id:"@
            }),
    ensures
        hermes_reply(text::joined(head + body + foot, seq!['\n'])) == text::joined(
            body,
            seq!['\n'],
        ),
{
    reveal_strlit("> ");
    reveal_strlit("session_id:");
    let all = head + body + foot;
    let n = all.len() as int;
    let f = |s: Seq<char>| text::without_carriage_return(s);
    assert forall|i: int| 0 <= i < n implies !(#[trigger] all[i]).contains('\n') by {
        if i < head.len() {
            assert(all[i] == head[i]);
        } else if i < head.len() + body.len() {
            assert(all[i] == body[i - head.len()]);
        } else {
            assert(all[i] == foot[i - head.len() - body.len()]);
        }
    }
    text::lemma_lines_of_any_joined(all);
    let read = text::lines(text::joined(all, seq!['\n']));
    let top = head.map_values(f);
    let m = head.len() + body.len();
    assert(body.last() == body[body.len() - 1]);
    assert(n == m ==> all.last() == body.last());
    assert(body.last().len() > 0) by {
        text::lemma_trim_at(body.last(), text::blank());
    }
    assert(read.len() >= m);
    let bottom = read.skip(m as int);
    assert(read =~= top + body + bottom) by {
        assert forall|i: int| 0 <= i < m implies read[i] == (top + body)[i] by {
            if i < head.len() {
                assert(all[i] == head[i]);
            } else {
                assert(all[i] == body[i - head.len()]);
            }
        }
    }
    assert forall|i: int| 0 <= i < top.len() implies is_header_line(#[trigger] top[i]) by {
        text::lemma_return_is_trimmed(head[i]);
        let t = text::trimmed(head[i]);
        if t.len() > 1 && t[0] == '>' && t[1] == ' ' {
            assert(t.subrange(0, 2) =~= "> "@);
        }
    }
    assert forall|i: int| 0 <= i < bottom.len() implies is_footer_line(#[trigger] bottom[i]) by {
        assert(all[m + i] == foot[i]);
        text::lemma_return_is_trimmed(foot[i]);
        let t = text::trimmed(foot[i]);
        if t.len() >= 11 {
            assert(t.subrange(0, 11) =~= t.take(11));
        }
        assert(bottom[i] == read[m + i]);
    }
    let rest = body + bottom;
    assert(top + body + bottom =~= top + rest);
    let t = text::trimmed(body[0]);
    if "> "@.is_prefix_of(t) {
        assert(t.subrange(0, 2)[0] == '>' && t.subrange(0, 2)[1] == ' ');
    }
    assert(rest[0] == body[0]);
    lemma_header_is_skipped(top, rest);
    let t = text::trimmed(body.last());
    if "session_id:"@.is_prefix_of(t) {
        assert(t.subrange(0, 11) =~= t.take(11));
    }
    lemma_footer_is_skipped(body, bottom);
}

/// The reply of a Hermes agent is what stands between the line of a box and the
/// session id.
pub proof fn law_reply_is_read_before_the_session_id(
    header: Seq<char>,
    body: Seq<Seq<char>>,
    id: Seq<char>,
)
    requires
        !header.contains('\n'),
        text::trimmed(header).len() > 0,
        ({
            let c = text::trimmed(header)[0];
            c == '\u{256D}' || c == '\u{2502}' || c == '\u{2570}'
        }),
        !id.contains('\n'),
        body.len() > 0,
        forall|i: int|
            0 <= i < body.len() ==> !(#[trigger] body[i]).contains('\n') && !(body[i].len() > 0
                && body[i].last() == '\r'),
        ({
            let t = text::trimmed(body[0]);
            &&& t.len() > 0
            &&& t[0] != '\u{256D}' && t[0] != '\u{2502}' && t[0] != '\u{2570}' && t[0] != '\u{2190}'
            &&& !(t[0] == '>' && t.len() > 1 && t[1] == ' ')
        }),
        ({
            let t = text::trimmed(body.last());
            &&& t.len() > 0
            &&& t[0] != '\u{256D}' && t[0] != '\u{2570}'
            &&& !(t.len() >= 11 && t.take(11) == "session_id:"@)
        }),
    ensures
        hermes_reply(
            header + seq!['\n'] + text::joined(body, seq!['\n']) + "\n\nsession_id: "@ + id,
        ) == text::joined(body, seq!['\n']),
{
    reveal_strlit("\n\nsession_id: ");
    reveal_strlit("session_id: ");
    reveal_strlit("session_id:");
    let sep = seq!['\n'];
    let last = "session_id: "@ + id;
    let head = seq![header];
    let foot = seq![Seq::<char>::empty(), last];
    let all = head + body + foot;
    assert(!last.contains('\n')) by {
        if last.contains('\n') {
            let k = choose|k: int| 0 <= k < last.len() && last[k] == '\n';
            if k >= 12 {
                assert(id[k - 12] == '\n');
            }
        }
    }
    let t = text::trimmed(last);
    assert(t.len() >= 11 && t.take(11) =~= "session_id:"@) by {
        let (i, j) = text::lemma_trim_at(last, text::blank());
        let p = text::blank();
        assert(!p(last[0]) && !p(last[10]));
        assert(i == 0 && j >= 11);
    }
    assert(text::trimmed(Seq::<char>::empty()).len() == 0);
    assert forall|i: int| 0 <= i < foot.len() implies !(#[trigger] foot[i]).contains('\n') && ({
        let t = text::trimmed(foot[i]);
        ||| t.len() == 0
        ||| t[0] == '\u{256D}' || t[0] == '\u{2570}'
        ||| t.len() >= 11 && t.take(11) == "session_id:"@
    }) by {
        assert(i == 0 || i == 1);
    }
    law_reply_is_read_between_metadata(head, body, foot);
    let top = head + body;
    assert(top.drop_first() == body);
    text::lemma_joined_first(top, sep);
    assert(all.drop_last() =~= top.push(Seq::<char>::empty()));
    text::law_joining_adds_at_the_end(top, Seq::<char>::empty(), sep);
    text::law_joining_adds_at_the_end(top.push(Seq::<char>::empty()), last, sep);
    assert(all =~= top.push(Seq::<char>::empty()).push(last));
    assert(text::joined(all, sep) =~= header + sep + text::joined(body, sep)
        + "\n\nsession_id: "@ + id);
}

// ── What holds of a request and its chunks ───────────────────────────

/// A message goes to the first bot with the given id, as it is and under the
/// given session; without such a bot it goes nowhere.
pub proof fn law_message_goes_to_the_bot(
    bots: Seq<BotProfile>,
    i: int,
    id: Seq<char>,
    session_id: Seq<char>,
    message: Seq<char>,
)
    requires
        0 <= i <= bots.len(),
        forall|k: int| 0 <= k < i ==> (#[trigger] bots[k]).id@ != id,
        i < bots.len() ==> bots[i].id@ == id,
    ensures
        chat_request(bots, id, session_id, message) is Ok <==> i < bots.len(),
        i == bots.len() ==> chat_request(bots, id, session_id, message) == Err::<
            ChatRequestView,
            ErrorView,
        >(ErrorView::BotNotFound(id)),
        i < bots.len() ==> ({
            let request = chat_request(bots, id, session_id, message)->Ok_0;
            &&& request.container_name == bots[i].container_name@
            &&& request.args[0] == (match bots[i].agent_type {
                AgentType::OpenClaw => "/usr/local/bin/openclaw"@,
                AgentType::Hermes => "/usr/local/bin/hermes"@,
            })
            &&& request.args.last() == message
            &&& bots[i].agent_type == AgentType::OpenClaw ==> request.args.contains(
                "clawpier-"@ + session_id,
            )
            &&& request.event == "chat-response-"@ + id
            &&& request.stream.agent_type == bots[i].agent_type
            &&& request.stream.session_id == session_id
            &&& request.stream.response.len() == 0
            &&& request.stream.errors.len() == 0
            &&& !request.stream.answered
        }),
    decreases i,
{
    bots::law_first_bot_is_found(bots, id, i);
    if i < bots.len() && bots[i].agent_type == AgentType::OpenClaw {
        let args = chat_request(bots, id, session_id, message)->Ok_0.args;
        assert(args[6] == "clawpier-"@ + session_id);
    }
}

/// The chunks of a response carry its session id, are not the last ones and are
/// never empty; nothing that comes changes the session or the agent.
pub proof fn law_chunks_belong_to_the_session(stream: StreamView, text: Seq<char>)
    ensures
        stream.output_chunk(text) matches Some(c) ==> c.session_id == stream.session_id && !c.done
            && c.content == text && text.len() > 0,
        stream.agent_type == AgentType::OpenClaw && text.len() > 0 ==> stream.output_chunk(
            text,
        ) is Some,
        stream.end_chunk() matches Some(c) ==> c.session_id == stream.session_id && !c.done
            && c.content.len() > 0 && c.content == stream.after_end().response,
        ({
            let next = stream.after_output(text);
            next.session_id == stream.session_id && next.agent_type == stream.agent_type
        }),
        ({
            let next = stream.after_error_output(text);
            next.session_id == stream.session_id && next.agent_type == stream.agent_type
        }),
        stream.after_end().session_id == stream.session_id,
        stream.after_failure(text).session_id == stream.session_id,
{
}

/// A failure is told in full.
pub proof fn law_failure_is_told(stream: StreamView, reason: Seq<char>)
    ensures
        stream.after_failure(reason).response.len() == 7 + reason.len(),
        stream.after_failure(reason).response.take(7) == "Error: "@,
        stream.after_failure(reason).response.skip(7) == reason,
{
    reveal_strlit("Error: ");
    let all = "Error: "@ + reason;
    assert(all.take(7) == "Error: "@);
    assert(all.skip(7) == reason);
}

} // verus!
