//! Finding the Telegram account of a bot.

use vstd::prelude::*;
use vstd::slice::slice_subrange;
use crate::config;
use crate::error;
use crate::error::{AppError, ErrorView};
use crate::json;
use crate::json::JsonView;
use crate::models::AgentType;
use crate::text;

verus! {

// ── The token ────────────────────────────────────────────────────────

/// The token in the configuration of an OpenClaw agent, if there is one.
pub open spec fn token_in(v: JsonView) -> Option<Seq<char>> {
    match json::member_at(v, "channels"@, "telegram"@, "botToken"@) {
        Some(token) => json::text_in(token),
        None => None,
    }
}

/// Take the token out of the configuration of an OpenClaw agent, given what
/// was read in its file.
pub fn token_of_config(parsed: &Result<serde_json::Value, serde_json::Error>) -> (r: Result<
    String,
    AppError,
>)
    ensures
        error::outcome(r) == (match *parsed {
            Err(e) => Err(ErrorView::Other(json::json_error_text(e))),
            Ok(v) => match token_in(json::json_view(v)) {
                Some(token) => Ok(token),
                None => Err(ErrorView::Other("No Telegram bot token configured"@)),
            },
        }),
{
    let v = match parsed {
        Ok(v) => v,
        Err(e) => {
            return Err(AppError::Other(json::error_text(e)));
        },
    };
    proof {
        reveal_strlit("channels");
        reveal_strlit("telegram");
        reveal_strlit("botToken");
    }
    if let Some(token) = json::pointed(v, "channels", "telegram", "botToken") {
        if let Some(s) = token.as_str() {
            return Ok(s.to_string());
        }
    }
    Err(AppError::Other("No Telegram bot token configured".to_string()))
}

/// The token in the file `openclaw.json`, or why there is none.
pub open spec fn openclaw_token_in(content: Option<Seq<char>>) -> Result<Seq<char>, ErrorView> {
    match content {
        None => Err(ErrorView::Other("No openclaw.json found"@)),
        Some(s) => match json::parsed_json(s) {
            Err(message) => Err(ErrorView::Other(message)),
            Ok(v) => match token_in(v) {
                Some(token) => Ok(token),
                None => Err(ErrorView::Other("No Telegram bot token configured"@)),
            },
        },
    }
}

/// Find the token of an OpenClaw agent in its file, if that can be read.
pub fn openclaw_token(content: Option<&str>) -> (r: Result<String, AppError>)
    ensures
        error::outcome(r) == openclaw_token_in(text::option_view(content)),
{
    match content {
        Some(s) => token_of_config(&json::parse_json(s)),
        None => Err(AppError::Other("No openclaw.json found".to_string())),
    }
}

/// The token that a line of a file of environment variables sets, if it does.
pub open spec fn token_setting(line: Seq<char>) -> Option<Seq<char>> {
    let t = text::trimmed(line);
    if t.len() > 0 && t[0] == '#' {
        None
    } else {
        match text::without_prefix(config::without_export(t), "TELEGRAM_BOT_TOKEN="@) {
            Some(value) => Some(config::bare_value(value)),
            None => None,
        }
    }
}

/// The token in the first of the lines that sets one.
pub open spec fn first_token(lines: Seq<Seq<char>>) -> Option<Seq<char>>
    decreases lines.len(),
{
    if lines.len() == 0 {
        None
    } else {
        match token_setting(lines[0]) {
            Some(token) => Some(token),
            None => first_token(lines.drop_first()),
        }
    }
}

/// The token that is found is set by a line, and by no line before it; if
/// none is found, no line sets one.
pub proof fn law_first_token_wins(lines: Seq<Seq<char>>)
    ensures
        match first_token(lines) {
            Some(token) => exists|i: int|
                0 <= i < lines.len() && token_setting(#[trigger] lines[i]) == Some(token)
                    && forall|j: int| 0 <= j < i ==> token_setting(#[trigger] lines[j]) is None,
            None => forall|j: int|
                0 <= j < lines.len() ==> token_setting(#[trigger] lines[j]) is None,
        },
    decreases lines.len(),
{
    if lines.len() > 0 && token_setting(lines[0]) is None {
        let rest = lines.drop_first();
        law_first_token_wins(rest);
        match first_token(rest) {
            Some(token) => {
                let i = choose|i: int|
                    0 <= i < rest.len() && token_setting(#[trigger] rest[i]) == Some(token)
                        && forall|j: int| 0 <= j < i ==> token_setting(#[trigger] rest[j]) is None;
                assert(lines[i + 1] == rest[i]);
                assert forall|j: int| 0 <= j < i + 1 implies token_setting(
                    #[trigger] lines[j],
                ) is None by {
                    if j > 0 {
                        assert(rest[j - 1] == lines[j]);
                    }
                }
            },
            None => {
                assert forall|j: int| 0 <= j < lines.len() implies token_setting(
                    #[trigger] lines[j],
                ) is None by {
                    if j > 0 {
                        assert(rest[j - 1] == lines[j]);
                    }
                }
            },
        }
    }
}

/// The token in the file `.env`, or why there is none.
pub open spec fn hermes_token_in(content: Option<Seq<char>>) -> Result<Seq<char>, ErrorView> {
    match content {
        None => Err(ErrorView::Other("No .env file found"@)),
        Some(s) => match first_token(text::lines(s)) {
            Some(token) => Ok(token),
            None => Err(ErrorView::Other("No TELEGRAM_BOT_TOKEN in .env"@)),
        },
    }
}

fn read_token_setting(line: &[char]) -> (r: Option<String>)
    ensures
        text::option_view(r) == token_setting(line@),
{
    let t = text::trim(line);
    if text::starts_with_char(t, '#') {
        return None;
    }
    let setting = match text::strip_prefix(t, "export ") {
        Some(rest) => rest,
        None => t,
    };
    match text::strip_prefix(setting, "TELEGRAM_BOT_TOKEN=") {
        Some(value) => {
            let uncommented = slice_subrange(value, 0, text::find_char(value, '#'));
            assert(uncommented@ == value@.take(text::position(value@, '#') as int));
            Some(
                text::string_of(
                    text::trim_matches(text::trim_matches(text::trim(uncommented), '"'), '\''),
                ),
            )
        },
        None => None,
    }
}

/// Find the token of a Hermes agent in its file, if that can be read.
pub fn hermes_token(content: Option<&str>) -> (r: Result<String, AppError>)
    ensures
        error::outcome(r) == hermes_token_in(text::option_view(content)),
{
    let s = match content {
        Some(s) => s,
        None => {
            return Err(AppError::Other("No .env file found".to_string()));
        },
    };
    let chars = text::chars_of(s);
    let lines = text::split_lines(chars.as_slice());
    let ghost all = text::lines(s@);
    assert(all.skip(0) == all);
    for i in 0..lines.len()
        invariant
            content == Some(s),
            all == text::lines(s@),
            text::slices(lines@) == all,
            first_token(all) == first_token(all.skip(i as int)),
    {
        let ghost rest = all.skip(i as int);
        assert(rest[0] == lines@[i as int]@);
        assert(rest.drop_first() == all.skip(i + 1));
        if let Some(token) = read_token_setting(lines[i]) {
            return Ok(token);
        }
    }
    Err(AppError::Other("No TELEGRAM_BOT_TOKEN in .env".to_string()))
}

/// The name of the file in which an agent keeps its token.
pub fn token_file(agent_type: AgentType) -> (r: &'static str)
    ensures
        r@ == (match agent_type {
            AgentType::OpenClaw => "openclaw.json"@,
            AgentType::Hermes => ".env"@,
        }),
{
    match agent_type {
        AgentType::OpenClaw => "openclaw.json",
        AgentType::Hermes => ".env",
    }
}

/// Find the token of an agent in its file, if that can be read.
pub fn telegram_token(agent_type: AgentType, content: Option<&str>) -> (r: Result<String, AppError>)
    ensures
        error::outcome(r) == (match agent_type {
            AgentType::OpenClaw => openclaw_token_in(text::option_view(content)),
            AgentType::Hermes => hermes_token_in(text::option_view(content)),
        }),
{
    match agent_type {
        AgentType::OpenClaw => openclaw_token(content),
        AgentType::Hermes => hermes_token(content),
    }
}

/// The address at which the account of a token is described.
pub fn telegram_url(token: &str) -> (r: String)
    ensures
        r@ == "https://api.telegram.org/bot"@ + token@ + "/getMe"@,
{
    text::concat3("https://api.telegram.org/bot", token, "/getMe")
}

// ── The account ──────────────────────────────────────────────────────

/// A Telegram bot account.
#[derive(Debug)]
pub struct TelegramBotInfo {
    pub id: i64,
    pub first_name: String,
    pub username: Option<String>,
    pub is_bot: bool,
}

pub struct BotInfoView {
    pub id: i64,
    pub first_name: Seq<char>,
    pub username: Option<Seq<char>>,
    pub is_bot: bool,
}

impl View for TelegramBotInfo {
    type V = BotInfoView;

    open spec fn view(&self) -> BotInfoView {
        BotInfoView {
            id: self.id,
            first_name: self.first_name@,
            username: text::option_view(self.username),
            is_bot: self.is_bot,
        }
    }
}

/// What the answer of the Telegram service says of an account.
#[derive(Debug)]
pub struct TelegramUser {
    pub id: Option<i64>,
    pub first_name: Option<String>,
    pub username: Option<String>,
    pub is_bot: Option<bool>,
}

/// What the answer of the Telegram service says.
#[derive(Debug)]
pub struct TelegramReply {
    pub ok: Option<bool>,
    pub description: Option<String>,
    pub result: Option<TelegramUser>,
}

pub struct TelegramUserView {
    pub id: Option<i64>,
    pub first_name: Option<Seq<char>>,
    pub username: Option<Seq<char>>,
    pub is_bot: Option<bool>,
}

pub struct TelegramReplyView {
    pub ok: Option<bool>,
    pub description: Option<Seq<char>>,
    pub result: Option<TelegramUserView>,
}

impl View for TelegramUser {
    type V = TelegramUserView;

    open spec fn view(&self) -> TelegramUserView {
        TelegramUserView {
            id: self.id,
            first_name: text::option_view(self.first_name),
            username: text::option_view(self.username),
            is_bot: self.is_bot,
        }
    }
}

impl View for TelegramReply {
    type V = TelegramReplyView;

    open spec fn view(&self) -> TelegramReplyView {
        TelegramReplyView {
            ok: self.ok,
            description: text::option_view(self.description),
            result: text::option_view(self.result),
        }
    }
}

/// The text of a member, if it is there and is one.
pub open spec fn text_member(v: JsonView, key: Seq<char>) -> Option<Seq<char>> {
    match json::member_of(v, key) {
        Some(m) => json::text_in(m),
        None => None,
    }
}

/// The truth value of a member, if it is there and is one.
pub open spec fn bool_member(v: JsonView, key: Seq<char>) -> Option<bool> {
    match json::member_of(v, key) {
        Some(m) => json::bool_in(m),
        None => None,
    }
}

/// The integer of a member, if it is there and is one that fits.
pub open spec fn integer_member(v: JsonView, key: Seq<char>) -> Option<i64> {
    match json::member_of(v, key) {
        Some(m) => json::integer_in(m),
        None => None,
    }
}

/// What is read in an answer of the Telegram service.
pub open spec fn reply_in(v: JsonView) -> TelegramReplyView {
    TelegramReplyView {
        ok: bool_member(v, "ok"@),
        description: text_member(v, "description"@),
        result: match json::member_of(v, "result"@) {
            Some(user) => Some(
                TelegramUserView {
                    id: integer_member(user, "id"@),
                    first_name: text_member(user, "first_name"@),
                    username: text_member(user, "username"@),
                    is_bot: bool_member(user, "is_bot"@),
                },
            ),
            None => None,
        },
    }
}

fn read_text(v: &serde_json::Value, key: &str) -> (r: Option<String>)
    ensures
        text::option_view(r) == text_member(json::json_view(*v), key@),
{
    match json::member(v, key) {
        Some(m) => match m.as_str() {
            Some(s) => Some(s.to_string()),
            None => None,
        },
        None => None,
    }
}

fn read_bool(v: &serde_json::Value, key: &str) -> (r: Option<bool>)
    ensures
        r == bool_member(json::json_view(*v), key@),
{
    match json::member(v, key) {
        Some(m) => m.as_bool(),
        None => None,
    }
}

fn read_integer(v: &serde_json::Value, key: &str) -> (r: Option<i64>)
    ensures
        r == integer_member(json::json_view(*v), key@),
{
    match json::member(v, key) {
        Some(m) => m.as_i64(),
        None => None,
    }
}

/// Read an answer of the Telegram service.
pub fn read_reply(v: &serde_json::Value) -> (r: TelegramReply)
    ensures
        r@ == reply_in(json::json_view(*v)),
{
    TelegramReply {
        ok: read_bool(v, "ok"),
        description: read_text(v, "description"),
        result: match json::member(v, "result") {
            Some(user) => Some(
                TelegramUser {
                    id: read_integer(user, "id"),
                    first_name: read_text(user, "first_name"),
                    username: read_text(user, "username"),
                    is_bot: read_bool(user, "is_bot"),
                },
            ),
            None => None,
        },
    }
}

/// The account that an answer of the Telegram service describes, or why it
/// describes none.
pub open spec fn account_in(reply: TelegramReplyView) -> Result<BotInfoView, ErrorView> {
    if reply.ok != Some(true) {
        Err(
            ErrorView::Other(
                "Telegram API error: "@ + (match reply.description {
                    Some(s) => s,
                    None => "Unknown error"@,
                }),
            ),
        )
    } else {
        match reply.result {
            None => Err(ErrorView::Other("Missing result in Telegram response"@)),
            Some(user) => Ok(
                BotInfoView {
                    id: match user.id {
                        Some(n) => n,
                        None => 0,
                    },
                    first_name: match user.first_name {
                        Some(s) => s,
                        None => seq![],
                    },
                    username: user.username,
                    is_bot: match user.is_bot {
                        Some(b) => b,
                        None => false,
                    },
                },
            ),
        }
    }
}

/// Take the account out of what an answer of the Telegram service says.
pub fn telegram_account(reply: TelegramReply) -> (r: Result<TelegramBotInfo, AppError>)
    ensures
        error::outcome(r) == account_in(reply@),
{
    let succeeded = match reply.ok {
        Some(ok) => ok,
        None => false,
    };
    if !succeeded {
        let reason = match reply.description {
            Some(s) => s,
            None => "Unknown error".to_string(),
        };
        return Err(AppError::Other(text::concat2("Telegram API error: ", reason.as_str())));
    }
    match reply.result {
        None => Err(AppError::Other("Missing result in Telegram response".to_string())),
        Some(user) => Ok(
            TelegramBotInfo {
                id: match user.id {
                    Some(n) => n,
                    None => 0,
                },
                first_name: match user.first_name {
                    Some(s) => s,
                    None => String::new(),
                },
                username: user.username,
                is_bot: match user.is_bot {
                    Some(b) => b,
                    None => false,
                },
            },
        ),
    }
}

/// Take the account out of an answer of the Telegram service.
pub fn resolve_telegram_bot(answer: &serde_json::Value) -> (r: Result<TelegramBotInfo, AppError>)
    ensures
        error::outcome(r) == account_in(reply_in(json::json_view(*answer))),
{
    telegram_account(read_reply(answer))
}

/// The report on a request to the Telegram service that failed.
pub fn request_failure(reason: &str) -> (r: AppError)
    ensures
        r@ == ErrorView::Other("Telegram API request failed: "@ + reason@),
{
    AppError::Other(text::concat2("Telegram API request failed: ", reason))
}

/// The report on an answer of the Telegram service that cannot be read.
pub fn response_failure(reason: &str) -> (r: AppError)
    ensures
        r@ == ErrorView::Other("Telegram API response parse error: "@ + reason@),
{
    AppError::Other(text::concat2("Telegram API response parse error: ", reason))
}

// ── What is found ────────────────────────────────────────────────────

/// The token that a line of a file sets is read as it was written, whatever
/// white space stands around the setting, with or without `export`, quotes and a
/// comment.
pub proof fn law_token_setting_is_read(
    indent: Seq<char>,
    export: Seq<char>,
    space: Seq<char>,
    opening: Seq<char>,
    token: Seq<char>,
    closing: Seq<char>,
    more: Seq<char>,
    comment: Seq<char>,
)
    requires
        config::is_space(indent),
        export == Seq::<char>::empty() || export == seq!['e', 'x', 'p', 'o', 'r', 't', ' '],
        config::is_space(space),
        text::is_value_between(opening, token, closing),
        !token.contains('#'),
        config::is_space(more),
        config::is_comment(comment),
    ensures
        token_setting(
            indent + (export + "TELEGRAM_BOT_TOKEN="@) + (space + (opening + token + closing) + more
                + comment),
        ) == Some(token),
{
    reveal_strlit("TELEGRAM_BOT_TOKEN=");
    reveal_strlit("export ");
    let word = seq!['e', 'x', 'p', 'o', 'r', 't', ' '];
    assert("export "@ =~= word);
    let name = "TELEGRAM_BOT_TOKEN="@;
    let behind = space + (opening + token + closing) + more + comment;
    let front = export + name;
    assert(front.last() == '=');
    assert(front[0] == 'e' || front[0] == 'T');
    let m = config::lemma_trimmed_line(indent, front, behind);
    let tail = behind.take(m);
    let t = front + tail;
    assert(t[0] == front[0]);
    config::lemma_bare_value_cut(space, opening, token, closing, more, comment, m);
    if export.len() > 0 {
        assert(t =~= word + (name + tail));
        text::law_prefix_is_taken_off(word, name + tail, t);
    } else {
        assert(t =~= name + tail);
        text::lemma_prefix_first(t, word);
    }
    text::law_prefix_is_taken_off(name, tail, name + tail);
}

/// A comment sets no token, nor does a line without the name of the variable.
pub proof fn law_other_lines_set_no_token(line: Seq<char>)
    requires
        ({
            let t = text::trimmed(line);
            ||| t.len() > 0 && t[0] == '#'
            ||| !text::contains_text(line, "TELEGRAM_BOT_TOKEN="@)
        }),
    ensures
        token_setting(line) is None,
{
    let name = "TELEGRAM_BOT_TOKEN="@;
    let word = "export "@;
    let t = text::trimmed(line);
    let setting = config::without_export(t);
    text::law_trimming_adds_nothing(line, name);
    if name.is_prefix_of(setting) {
        let n = name.len() as int;
        assert(setting.subrange(0, n) == name);
        let w = word.len() as int;
        if word.is_prefix_of(t) {
            assert(t.subrange(w, w + n) =~= setting.subrange(0, n));
            assert(text::occurs_at(t, name, w));
        } else {
            assert(text::occurs_at(t, name, 0));
        }
    }
}

proof fn lemma_first_token_behind(before: Seq<Seq<char>>, rest: Seq<Seq<char>>)
    requires
        forall|i: int| 0 <= i < before.len() ==> token_setting(#[trigger] before[i]) is None,
    ensures
        first_token(before + rest) == first_token(rest),
    decreases before.len(),
{
    if before.len() == 0 {
        assert(before + rest =~= rest);
    } else {
        assert(token_setting(before[0]) is None);
        let tail = before.drop_first();
        assert forall|i: int| 0 <= i < tail.len() implies token_setting(#[trigger] tail[i])
            is None by {
            assert(tail[i] == before[i + 1]);
        }
        lemma_first_token_behind(tail, rest);
        assert((before + rest).drop_first() =~= tail + rest);
    }
}

/// The token of a Hermes agent is what the first line of its file sets that sets
/// one, as it was written; other lines make no difference.
pub proof fn law_token_is_found(
    before: Seq<Seq<char>>,
    quote: Seq<char>,
    token: Seq<char>,
    after: Seq<Seq<char>>,
)
    requires
        quote == Seq::<char>::empty() || quote == seq!['"'] || quote == seq!['\''],
        token.len() > 0 ==> token[0] != '"' && token.last() != '"' && token[0] != '\'' && token.last() != '\'',
        token.len() > 0 && quote.len() == 0 ==> !text::is_white_space(token[0])
            && !text::is_white_space(token.last()),
        !token.contains('#'),
        !token.contains('\n'),
        forall|i: int|
            0 <= i < before.len() ==> !(#[trigger] before[i]).contains('\n')
                && !text::contains_text(before[i], "TELEGRAM_BOT_TOKEN="@),
        forall|i: int| 0 <= i < after.len() ==> !(#[trigger] after[i]).contains('\n'),
    ensures
        hermes_token_in(
            Some(
                text::joined(
                    before + seq!["TELEGRAM_BOT_TOKEN="@ + quote + token + quote] + after,
                    seq!['\n'],
                ),
            ),
        ) == Ok::<Seq<char>, ErrorView>(token),
{
    let none = Seq::<char>::empty();
    let name = "TELEGRAM_BOT_TOKEN="@;
    reveal_strlit("TELEGRAM_BOT_TOKEN=");
    let line = name + quote + token + quote;
    let all = before + seq![line] + after;
    let f = |s: Seq<char>| text::without_carriage_return(s);
    text::lemma_plain_quotes(quote);
    law_token_setting_is_read(none, none, none, quote, token, quote, none, none);
    assert(line =~= none + (none + name) + (none + (quote + token + quote) + none + none));
    assert(!line.contains('\n')) by {
        if line.contains('\n') {
            let k = choose|k: int| 0 <= k < line.len() && line[k] == '\n';
            let n = name.len() as int;
            let q = n + quote.len();
            if k < n {
                assert(name[k] == '\n');
            } else if k < q {
                assert(quote[k - n] == '\n');
            } else if k < q + token.len() {
                assert(token[k - q] == '\n');
            } else {
                assert(quote[k - q - token.len()] == '\n');
            }
        }
    }
    assert forall|i: int| 0 <= i < all.len() implies !(#[trigger] all[i]).contains('\n') by {
        if i < before.len() {
            assert(all[i] == before[i]);
        } else if i > before.len() {
            assert(all[i] == after[i - before.len() - 1]);
        }
    }
    text::lemma_lines_of_any_joined(all);
    let read = text::lines(text::joined(all, seq!['\n']));
    let n = before.len() as int;
    let top = before.map_values(f);
    assert(after.len() == 0 ==> all.last() == line);
    assert(line.len() > 0);
    assert(read.len() > n);
    assert(read =~= top + read.skip(n)) by {
        assert forall|i: int| 0 <= i < n implies read[i] == top[i] by {
            assert(all[i] == before[i]);
        }
    }
    assert forall|i: int| 0 <= i < top.len() implies token_setting(#[trigger] top[i]) is None by {
        text::lemma_return_is_trimmed(before[i]);
        law_other_lines_set_no_token(before[i]);
    }
    lemma_first_token_behind(top, read.skip(n));
    assert(all[n] == line);
    assert(read[n] == line || read[n] == text::without_carriage_return(line));
    text::lemma_return_is_trimmed(line);
    assert(read.skip(n)[0] == read[n]);
    assert(token_setting(read[n]) == Some(token));
}

/// The token of an OpenClaw agent is the text at its place in the configuration,
/// and there is none without such a text.
pub proof fn law_configured_token_is_found(
    content: Seq<char>,
    config: JsonView,
    channels: Option<JsonView>,
    telegram: Option<JsonView>,
    token: Option<JsonView>,
)
    requires
        json::parsed_json(content) == Ok::<JsonView, Seq<char>>(config),
        channels == json::member_of(config, "channels"@),
        telegram == (if channels is Some {
            json::member_of(channels->0, "telegram"@)
        } else {
            None
        }),
        token == (if telegram is Some {
            json::member_of(telegram->0, "botToken"@)
        } else {
            None
        }),
    ensures
        openclaw_token_in(Some(content)) is Ok <==> token is Some && token->0 is Text,
        token matches Some(JsonView::Text(s)) ==> openclaw_token_in(Some(content)) == Ok::<
            Seq<char>,
            ErrorView,
        >(s),
{
}

/// The account in a positive answer has the values of the answer, and the
/// defaults for those that are missing.
pub proof fn law_account_is_read(answer: JsonView, user: JsonView)
    requires
        json::member_of(answer, "ok"@) == Some(JsonView::Bool(true)),
        json::member_of(answer, "result"@) == Some(user),
    ensures
        ({
            let account = account_in(reply_in(answer));
            let id = json::member_of(user, "id"@);
            let first_name = json::member_of(user, "first_name"@);
            let username = json::member_of(user, "username"@);
            let is_bot = json::member_of(user, "is_bot"@);
            &&& account is Ok
            &&& id matches Some(JsonView::Integer(n)) ==> i64::MIN <= n <= i64::MAX
                ==> account->Ok_0.id == n
            &&& !(id is Some && id->0 is Integer) ==> account->Ok_0.id == 0
            &&& first_name matches Some(JsonView::Text(s)) ==> account->Ok_0.first_name == s
            &&& !(first_name is Some && first_name->0 is Text)
                ==> account->Ok_0.first_name.len() == 0
            &&& username matches Some(JsonView::Text(s)) ==> account->Ok_0.username == Some(s)
            &&& !(username is Some && username->0 is Text) ==> account->Ok_0.username is None
            &&& is_bot matches Some(JsonView::Bool(b)) ==> account->Ok_0.is_bot == b
            &&& !(is_bot is Some && is_bot->0 is Bool) ==> !account->Ok_0.is_bot
        }),
{
}

/// An answer that is not positive, or describes no account, is refused, and the
/// reason that it gives is passed on.
pub proof fn law_refusal_is_passed_on(answer: JsonView)
    ensures
        account_in(reply_in(answer)) is Ok <==> json::member_of(answer, "ok"@) == Some(
            JsonView::Bool(true),
        ) && json::member_of(answer, "result"@) is Some,
        json::member_of(answer, "ok"@) != Some(JsonView::Bool(true)) ==> (json::member_of(
            answer,
            "description"@,
        ) matches Some(JsonView::Text(reason)) ==> account_in(reply_in(answer)) == Err::<
            BotInfoView,
            ErrorView,
        >(ErrorView::Other("Telegram API error: "@ + reason))),
{
}

/// A token that is not there is reported by what is missing: the file, what can
/// be read in it, or the token in it.
pub proof fn law_missing_token_is_reported(content: Seq<char>)
    ensures
        hermes_token_in(None) == Err::<Seq<char>, ErrorView>(ErrorView::Other("No .env file found"@)),
        (forall|i: int|
            0 <= i < text::lines(content).len() ==> !text::contains_text(
                #[trigger] text::lines(content)[i],
                "TELEGRAM_BOT_TOKEN="@,
            )) ==> hermes_token_in(Some(content)) == Err::<Seq<char>, ErrorView>(
            ErrorView::Other("No TELEGRAM_BOT_TOKEN in .env"@),
        ),
        openclaw_token_in(None) == Err::<Seq<char>, ErrorView>(
            ErrorView::Other("No openclaw.json found"@),
        ),
        json::parsed_json(content) matches Err(reason) ==> openclaw_token_in(Some(content)) == Err::<
            Seq<char>,
            ErrorView,
        >(ErrorView::Other(reason)),
        json::parsed_json(content) is Ok ==> (openclaw_token_in(Some(content)) matches Err(e) ==> e
            == ErrorView::Other("No Telegram bot token configured"@)),
{
    let lines = text::lines(content);
    law_first_token_wins(lines);
    if forall|i: int|
        0 <= i < lines.len() ==> !text::contains_text(
            #[trigger] text::lines(content)[i],
            "TELEGRAM_BOT_TOKEN="@,
        ) {
        assert forall|i: int| 0 <= i < lines.len() implies token_setting(#[trigger] lines[i])
            is None by {
            law_other_lines_set_no_token(text::lines(content)[i]);
        }
    }
}

} // verus!
