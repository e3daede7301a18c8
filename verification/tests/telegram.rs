use clawpier::error::AppError;
use clawpier::models::AgentType;
use clawpier::telegram::{
    hermes_token, openclaw_token, read_reply, request_failure, resolve_telegram_bot,
    response_failure, telegram_account, telegram_token, telegram_url, token_file,
    token_of_config, TelegramReply, TelegramUser,
};

fn other<T>(r: Result<T, AppError>) -> String {
    match r {
        Err(AppError::Other(message)) => message,
        _ => panic!("no such error"),
    }
}

fn json(s: &str) -> serde_json::Value {
    serde_json::from_str(s).unwrap()
}

#[test]
fn openclaw_token_is_found() {
    let config = "{\"channels\": {\"telegram\": {\"botToken\": \"12:ab\"}}}";
    assert_eq!(openclaw_token(Some(config)).unwrap(), "12:ab");
    assert_eq!(telegram_token(AgentType::OpenClaw, Some(config)).unwrap(), "12:ab");
}

#[test]
fn openclaw_token_may_be_missing() {
    for config in [
        "{}",
        "[]",
        "{\"channels\": [{\"telegram\": 1}]}",
        "{\"channels\": {\"telegram\": {}}}",
        "{\"channels\": {\"telegram\": {\"botToken\": 12}}}",
    ] {
        assert_eq!(other(openclaw_token(Some(config))), "No Telegram bot token configured");
    }
    assert_eq!(other(openclaw_token(None)), "No openclaw.json found");
    assert_eq!(
        other(openclaw_token(Some("{"))),
        "EOF while parsing an object at line 1 column 1"
    );
}

#[test]
fn token_of_config_reports_the_parse_error() {
    let parsed = serde_json::from_str::<serde_json::Value>("nope");
    let expected = serde_json::from_str::<serde_json::Value>("nope").unwrap_err().to_string();
    assert_eq!(other(token_of_config(&parsed)), expected);
}

#[test]
fn hermes_token_is_found() {
    for content in [
        "TELEGRAM_BOT_TOKEN=12:ab",
        "A=1\n  export TELEGRAM_BOT_TOKEN=\"12:ab\" # mine\nTELEGRAM_BOT_TOKEN=other",
        "#TELEGRAM_BOT_TOKEN=x\nTELEGRAM_BOT_TOKEN='12:ab'\n",
    ] {
        assert_eq!(hermes_token(Some(content)).unwrap(), "12:ab");
    }
    assert_eq!(telegram_token(AgentType::Hermes, Some("TELEGRAM_BOT_TOKEN=x")).unwrap(), "x");
    assert_eq!(hermes_token(Some("TELEGRAM_BOT_TOKEN=")).unwrap(), "");
}

#[test]
fn hermes_token_may_be_missing() {
    for content in ["", "TELEGRAM_BOT_TOKEN = x", "# TELEGRAM_BOT_TOKEN=x", "TOKEN=x"] {
        assert_eq!(other(hermes_token(Some(content))), "No TELEGRAM_BOT_TOKEN in .env");
    }
    assert_eq!(other(hermes_token(None)), "No .env file found");
}

#[test]
fn token_is_looked_for_in_the_agents_file() {
    assert_eq!(token_file(AgentType::OpenClaw), "openclaw.json");
    assert_eq!(token_file(AgentType::Hermes), ".env");
    assert_eq!(telegram_url("1:x"), "https://api.telegram.org/bot1:x/getMe");
}

#[test]
fn account_is_read() {
    let answer = json("{\"ok\": true, \"result\": {\"id\": 7, \"first_name\": \"B\", \"username\": \"b_bot\", \"is_bot\": true}}");
    let info = resolve_telegram_bot(&answer).unwrap();
    assert_eq!((info.id, info.first_name.as_str(), info.is_bot), (7, "B", true));
    assert_eq!(info.username.as_deref(), Some("b_bot"));
}

#[test]
fn account_has_defaults() {
    for result in ["{}", "null", "{\"id\": 1.5, \"first_name\": 1, \"username\": null, \"is_bot\": 0}", "{\"id\": 9223372036854775808}"] {
        let answer = json(&format!("{{\"ok\": true, \"result\": {}}}", result));
        let info = resolve_telegram_bot(&answer).unwrap();
        assert_eq!((info.id, info.first_name.as_str(), info.is_bot), (0, "", false));
        assert_eq!(info.username, None);
    }
    let answer = json("{\"ok\": true, \"result\": {\"id\": -9223372036854775808}}");
    assert_eq!(resolve_telegram_bot(&answer).unwrap().id, i64::MIN);
}

#[test]
fn refusals_are_reported() {
    assert_eq!(
        other(resolve_telegram_bot(&json("{\"ok\": false, \"description\": \"Unauthorized\", \"result\": {}}"))),
        "Telegram API error: Unauthorized"
    );
    for answer in ["{}", "[]", "{\"ok\": 1, \"description\": 2}"] {
        assert_eq!(other(resolve_telegram_bot(&json(answer))), "Telegram API error: Unknown error");
    }
    assert_eq!(
        other(resolve_telegram_bot(&json("{\"ok\": true}"))),
        "Missing result in Telegram response"
    );
}

#[test]
fn replies_are_read_and_judged_apart() {
    let reply = read_reply(&json("{\"ok\": true, \"description\": \"d\", \"result\": {\"id\": 3}}"));
    assert_eq!(reply.ok, Some(true));
    assert_eq!(reply.description.as_deref(), Some("d"));
    assert_eq!(reply.result.as_ref().unwrap().id, Some(3));
    let user = TelegramUser { id: None, first_name: None, username: None, is_bot: None };
    let account =
        telegram_account(TelegramReply { ok: Some(true), description: None, result: Some(user) });
    assert_eq!(account.unwrap().id, 0);
}

#[test]
fn failures_of_the_service_are_reported() {
    assert_eq!(other::<()>(Err(request_failure("timeout"))), "Telegram API request failed: timeout");
    assert_eq!(
        other::<()>(Err(response_failure("no json"))),
        "Telegram API response parse error: no json"
    );
}
