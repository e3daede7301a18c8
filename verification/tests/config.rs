use clawpier::config::{
    config_dir_not_found, config_entry, dotenv_is_showable, get_bot_config, may_show_config,
    parse_dotenv_to_json, read_dotenv, yaml_entry, BotConfig,
};
use clawpier::error::{AppError, IoErrorKind};

fn pairs(v: &[(&str, &str)]) -> Vec<(String, String)> {
    v.iter().map(|(a, b)| (a.to_string(), b.to_string())).collect()
}

#[test]
fn dotenv_settings_are_read() {
    let content = "# comment\n\nA=1\n export B = two # rest\nC='x'\nD=\"y\"\nno setting\n =z\nE=a=b\nF=\n";
    assert_eq!(
        read_dotenv(content),
        pairs(&[("A", "1"), ("B", "two"), ("C", "x"), ("D", "y"), ("E", "a=b"), ("F", "")])
    );
}

#[test]
fn dotenv_quotes_are_stripped_in_turn() {
    assert_eq!(read_dotenv("A=\"'x'\"\nB='\"x\"'\nC=\"\""), pairs(&[("A", "x"), ("B", "\"x\""), ("C", "")]));
}

#[test]
fn dotenv_secrets_are_redacted() {
    let content = "API_KEY=sk-1234567\nMY_TOKEN=abcd\nSECRET=abcde\nsecret=plain\nKEYS=\n";
    assert_eq!(
        read_dotenv(content),
        pairs(&[
            ("API_KEY", "sk...4567"),
            ("MY_TOKEN", "****"),
            ("SECRET", "ab...bcde"),
            ("secret", "plain"),
            ("KEYS", "****"),
        ])
    );
}

#[test]
fn dotenv_secrets_are_cut_between_characters() {
    assert!(dotenv_is_showable("API_KEY=éabcd"));
    assert_eq!(read_dotenv("API_KEY=éabcd"), pairs(&[("API_KEY", "é...abcd")]));
    assert!(!dotenv_is_showable("A=1\nAPI_KEY=aéabcd"));
    assert!(!dotenv_is_showable("API_KEY=abéabc"));
    assert!(dotenv_is_showable("NAME=aéabcd"));
    assert!(dotenv_is_showable("API_KEY=☔"));
    assert!(dotenv_is_showable(""));
}

#[test]
fn dotenv_becomes_an_object() {
    let v = parse_dotenv_to_json("A=1\nB=2\nA=3\nTOKEN=123456789\n");
    let o = v.as_object().unwrap();
    assert_eq!(o.len(), 3);
    assert_eq!(v["A"], "3");
    assert_eq!(v["B"], "2");
    assert_eq!(v["TOKEN"], "12...6789");
    assert!(parse_dotenv_to_json("# nothing").as_object().unwrap().is_empty());
}

#[test]
fn files_are_shown_by_their_kind() {
    assert_eq!(
        config_entry("conf.yaml", "b: [1, x]\na: true\n"),
        Some(("conf.json".to_string(), "{\"a\":true,\"b\":[1,\"x\"]}".to_string()))
    );
    assert_eq!(
        config_entry("c.yml", "x: 1.5"),
        Some(("c.json".to_string(), "{\"x\":1.5}".to_string()))
    );
    assert_eq!(config_entry("bad.yaml", "a: [1"), None);
    assert_eq!(
        config_entry(".env", "A=1"),
        Some(("env.json".to_string(), "{\"A\":\"1\"}".to_string()))
    );
    assert_eq!(
        config_entry("notes.txt", "A=1"),
        Some(("notes.txt".to_string(), "A=1".to_string()))
    );
    assert_eq!(
        config_entry("a.yaml.bak", "x: ["),
        Some(("a.yaml.bak".to_string(), "x: [".to_string()))
    );
}

#[test]
fn names_of_yaml_files_are_replaced_throughout() {
    let entry = config_entry("a.yaml.yml", "1").unwrap();
    assert_eq!(entry, ("a.json.json".to_string(), "1".to_string()));
}

#[test]
fn yaml_entry_takes_what_was_read() {
    let v = serde_json::Value::Bool(true);
    assert_eq!(yaml_entry("x.yml", Ok(v)), Some(("x.json".to_string(), "true".to_string())));
    let e = serde_yaml::from_str::<serde_json::Value>("a: [").unwrap_err();
    assert_eq!(yaml_entry("x.yml", Err(e)), None);
}

#[test]
fn later_files_replace_earlier_ones() {
    let config = get_bot_config(&pairs(&[
        ("a.yaml", "1"),
        ("b", "text"),
        ("a.json", "2"),
        ("c.yml", "["),
        ("b", "new"),
    ]));
    let mut entries = config.entries;
    entries.sort();
    assert_eq!(entries, pairs(&[("a.json", "2"), ("b", "new")]));
}

#[test]
fn entries_are_replaced_by_name() {
    let mut config = BotConfig::new();
    assert!(config.entries.is_empty());
    for (name, text) in pairs(&[("a", "1"), ("b", "2"), ("a", "3")]) {
        config.insert(name, text);
    }
    config.entries.sort();
    assert_eq!(config.entries, pairs(&[("a", "3"), ("b", "2")]));
}

fn path(parts: &[&str]) -> Vec<Vec<u8>> {
    parts.iter().map(|p| p.as_bytes().to_vec()).collect()
}

#[test]
fn only_own_files_are_shown() {
    let dir = path(&["/", "data", "x"]);
    let inside = path(&["/", "data", "x", "f"]);
    let outside = path(&["/", "data", "xy", "f"]);
    assert!(may_show_config(false, true, Some(&inside), 1048576, &dir));
    assert!(!may_show_config(true, true, Some(&inside), 0, &dir));
    assert!(!may_show_config(false, false, Some(&inside), 0, &dir));
    assert!(!may_show_config(false, true, Some(&outside), 0, &dir));
    assert!(!may_show_config(false, true, None, 0, &dir));
    assert!(!may_show_config(false, true, Some(&inside), 1048577, &dir));
}

#[test]
fn missing_config_directory_is_reported() {
    match config_dir_not_found("gone") {
        AppError::Io(kind, m) => {
            assert_eq!(kind, IoErrorKind::NotFound);
            assert_eq!(m, "Config dir not found: gone");
        }
        other => panic!("{:?}", other),
    }
}
