use clawpier::models::Skill;
use clawpier::skills::{
    parse_clawhub_search_output, parse_hermes_search_output, parse_hermes_skills_output,
    parse_openclaw_skills_output, parse_rich_table, strip_ansi,
};

#[test]
fn parse_openclaw_skills_output_basic() {
    let output = r#"
┌───────────┬───────────┬──────────────┬──────────────────┐
│ Status    │ Skill     │ Description  │ Source           │
├───────────┼───────────┼──────────────┼──────────────────┤
│ ✓ ready   │ ☔ weather │ Get weather  │ openclaw-bundled │
│ ✗ missing │ 📦 slack   │ Slack ops    │ openclaw-bundled │
└───────────┴───────────┴──────────────┴──────────────────┘
"#;
    let skills = parse_openclaw_skills_output(output);
    assert_eq!(skills.len(), 2);
    assert_eq!(skills[0].name, "weather");
    assert!(skills[0].installed);
    assert_eq!(skills[0].description, "Get weather");
    assert_eq!(skills[1].name, "slack");
    assert!(!skills[1].installed);
}

#[test]
fn parse_openclaw_skills_output_empty() {
    assert!(parse_openclaw_skills_output("Skills (0/0 ready)\n").is_empty());
}

#[test]
fn parse_openclaw_skills_output_sets_source_bundled() {
    let output = "│ ✓ ready   │ ☔ weather │ Get weather  │ openclaw-bundled │\n";
    let skills = parse_openclaw_skills_output(output);
    assert_eq!(skills[0].source, "bundled");
}

#[test]
fn parse_openclaw_skills_output_installed_status() {
    let output = "│ ✓ ready   │ ☔ weather │ forecast  │ bundled │\n│ ✗ missing │ 📦 slack   │ messaging │ bundled │\n";
    let skills = parse_openclaw_skills_output(output);
    assert!(skills[0].installed, "✓ should be installed");
    assert!(!skills[1].installed, "✗ should not be installed");
}

#[test]
fn parse_openclaw_skills_output_strips_emoji_from_name() {
    let output = "│ ✓ ready │ 🔐 1password │ 1Pass │ bundled │\n";
    let skills = parse_openclaw_skills_output(output);
    assert_eq!(skills[0].name, "1password");
}

#[test]
fn parse_openclaw_skills_output_skips_separator_rows() {
    let output = "┌───────────┬───────────┬──────────────┬──────────────────┐\n│ Status    │ Skill     │ Description  │ Source           │\n├───────────┼───────────┼──────────────┼──────────────────┤\n│ ✓ ready   │ ☔ weather │ Get weather  │ openclaw-bundled │\n└───────────┴───────────┴──────────────┴──────────────────┘\n";
    let skills = parse_openclaw_skills_output(output);
    assert_eq!(skills.len(), 1);
    assert_eq!(skills[0].name, "weather");
}

#[test]
fn parse_openclaw_skills_output_preserves_description() {
    let output = "│ ✗ missing │ 📦 notion │ Notion API integration for notes │ bundled │\n";
    let skills = parse_openclaw_skills_output(output);
    assert_eq!(skills[0].description, "Notion API integration for notes");
}

#[test]
fn parse_openclaw_skills_output_author_from_source_column() {
    let output = "│ ✓ ready │ 📦 test │ Desc │ custom-source │\n";
    let skills = parse_openclaw_skills_output(output);
    assert_eq!(skills[0].author, "custom-source");
}

#[test]
fn parse_clawhub_search_basic() {
    let output = "- Searching\nweather  Weather  (3.872)\nweather-pollen  Weather Pollen  (3.536)\n";
    let skills = parse_clawhub_search_output(output);
    assert_eq!(skills.len(), 2);
    assert_eq!(skills[0].name, "weather");
    assert_eq!(skills[0].description, "Weather");
    assert_eq!(skills[1].name, "weather-pollen");
    assert_eq!(skills[1].description, "Weather Pollen");
}

#[test]
fn parse_clawhub_search_sets_source_clawhub() {
    let output = "my-skill  My Skill  (2.5)\n";
    let skills = parse_clawhub_search_output(output);
    assert_eq!(skills[0].source, "clawhub");
}

#[test]
fn parse_clawhub_search_not_installed() {
    let output = "my-skill  My Skill  (2.5)\n";
    let skills = parse_clawhub_search_output(output);
    assert!(!skills[0].installed, "clawhub results should not be marked installed");
}

#[test]
fn parse_clawhub_search_skips_noise() {
    let output = "npm warn something\n- Searching\nmy-skill  My Skill  (2.5)\n";
    let skills = parse_clawhub_search_output(output);
    assert_eq!(skills.len(), 1);
    assert_eq!(skills[0].name, "my-skill");
}

#[test]
fn parse_clawhub_search_empty() {
    assert!(parse_clawhub_search_output("").is_empty());
}

#[test]
fn parse_clawhub_search_only_noise() {
    let output = "npm warn\n- Searching\nerror: no results\n";
    assert!(parse_clawhub_search_output(output).is_empty());
}

#[test]
fn parse_clawhub_search_strips_score() {
    let output = "openmeteo-sh-weather-advanced  Weather via OpenMeteo (via openmeteo-sh cli; advanced ver)  (3.431)\n";
    let skills = parse_clawhub_search_output(output);
    assert_eq!(skills[0].name, "openmeteo-sh-weather-advanced");
    // Description should not include the trailing score
    assert!(!skills[0].description.contains("3.431"));
    assert!(skills[0].description.contains("Weather via OpenMeteo"));
}

#[test]
fn parse_clawhub_search_no_score() {
    let output = "my-skill  A description without a score\n";
    let skills = parse_clawhub_search_output(output);
    assert_eq!(skills[0].description, "A description without a score");
}

#[test]
fn openclaw_list_names_each_skill_once() {
    let output = "│ ✓ ready │ a │ first │ x │\n│ ✗ missing │ a │ second │ x │\n│ ✓ ready │ ☔ │ no name │ x │\n│ ✓ ready │ b │ third │ x │\n";
    let skills = parse_openclaw_skills_output(output);
    assert_eq!(skills.len(), 2);
    assert_eq!((skills[0].name.as_str(), skills[0].description.as_str()), ("a", "first"));
    assert_eq!(skills[1].name, "b");
    assert_eq!(skills[1].version, "");
}

#[test]
fn openclaw_rows_need_all_cells() {
    assert!(parse_openclaw_skills_output("│ ✓ ready │ a │\n").is_empty());
    assert!(parse_openclaw_skills_output("│ ─── │ a │ b │ c │\n").is_empty());
    assert!(parse_openclaw_skills_output("a │ ✓ │ a │ b │ c │\n").is_empty());
    assert_eq!(parse_openclaw_skills_output("│ x │ a │ b │ c").len(), 1);
}

const HERMES_LIST: &str = "┏━━━┓\n│ Name │ Category │ Source │ Trust │\n├───┤\n│ \u{1b}[1mgit\u{1b}[0m │ dev │ builtin │ trusted │\n│ maps │ │ official │ ok │\n│ web │ net │ github-hub │ ok │\n│ git │ again │ x │ y │\n└───┘\n";

#[test]
fn hermes_list_is_read_by_filled_cells() {
    let skills = parse_hermes_skills_output(HERMES_LIST);
    let names: Vec<&str> = skills.iter().map(|s| s.name.as_str()).collect();
    assert_eq!(names, ["git", "maps", "web"]);
    assert!(skills.iter().all(|s| s.installed && s.version.is_empty()));
    assert_eq!(skills[0].description, "[dev]");
    assert_eq!((skills[0].author.as_str(), skills[0].source.as_str()), ("builtin", "bundled"));
    // An empty cell is left out, so that the later ones move up.
    assert_eq!((skills[1].description.as_str(), skills[1].author.as_str()), ("[official]", "ok"));
    assert_eq!(skills[2].source, "hermes-hub");
}

#[test]
fn hermes_list_without_rows_is_empty() {
    assert!(parse_hermes_skills_output("").is_empty());
    assert!(parse_hermes_skills_output("│ Name │ Category │\n").is_empty());
    assert!(parse_hermes_skills_output("no table\n").is_empty());
}

#[test]
fn hermes_search_with_and_without_numbers() {
    let search = parse_hermes_search_output("│ Name │ Description │\n│ a │ does a │\n│ b │\n");
    assert_eq!(search.len(), 2);
    assert_eq!((search[0].name.as_str(), search[0].description.as_str()), ("a", "does a"));
    assert_eq!(search[1].description, "");
    assert!(!search[0].installed);
    assert_eq!(search[0].source, "hermes-hub");
    let browse = parse_hermes_search_output("│ # │ Name │\n│ 1 │ a │ does a │\n│ 2 │\n");
    assert_eq!(browse.len(), 1);
    assert_eq!((browse[0].name.as_str(), browse[0].description.as_str()), ("a", "does a"));
}

#[test]
fn borders_of_tables_are_skipped() {
    for border in ["┌│", "└│", "├│", "╭│", "╰│", "╞│"] {
        let mut output = String::from("│ head │\n");
        output.push_str(border);
        output.push_str("x│\n│ row │\n");
        let skills = parse_hermes_search_output(&output);
        assert_eq!(skills.len(), 1, "{}", border);
        assert_eq!(skills[0].name, "row");
    }
}

#[test]
fn rich_table_hands_cells_to_the_reader() {
    let read = |cells: &[&str]| -> Option<Skill> {
        assert!(!cells.is_empty() && cells.iter().all(|c| !c.is_empty()), "{:?}", cells);
        if cells[0] == "skip" {
            return None;
        }
        Some(Skill {
            name: cells.concat(),
            description: String::new(),
            author: String::new(),
            version: String::new(),
            installed: false,
            source: String::new(),
        })
    };
    let output = "│ head │\n│ a │  │ b │\n│ skip │\n│ ab │\n│ \u{1b}[2m │ c │\n";
    let names: Vec<String> = parse_rich_table(output, read).into_iter().map(|s| s.name).collect();
    assert_eq!(names, ["ab", "c"]);
}

#[test]
fn cells_of_escapes_alone_are_left_out() {
    let read = |cells: &[&str]| -> Option<Skill> {
        assert!(cells.iter().all(|c| !c.is_empty()), "{:?}", cells);
        Some(Skill {
            name: cells[0].to_string(),
            description: cells.len().to_string(),
            author: String::new(),
            version: String::new(),
            installed: false,
            source: String::new(),
        })
    };
    let output = "a│b\nx│\u{1b}m\n│ \u{1b}[1m \u{1b}[0m │\n│ \u{1b}[2m │ y │ z │\n";
    let skills = parse_rich_table(output, read);
    assert_eq!(names(&skills), [("x", "1"), ("y", "2")]);
    // A row without a cell is not the header either.
    let skills = parse_hermes_skills_output("│ \u{1b}[0m │\n│ Name │\n│ \u{1b}[0m │ git │ dev │\n");
    assert_eq!(names(&skills), [("git", "[dev]")]);
}

#[test]
fn ansi_sequences_are_stripped() {
    assert_eq!(strip_ansi("\u{1b}[1;32mgreen\u{1b}[0m"), "green");
    assert_eq!(strip_ansi("  plain text "), "plain text");
    assert_eq!(strip_ansi("a\u{1b}[unfinished"), "a");
    assert_eq!(strip_ansi("\u{1b}[2J memo"), "emo");
    assert_eq!(strip_ansi(""), "");
}

#[test]
fn clawhub_hits_are_read_to_the_last_parenthesis() {
    let skills = parse_clawhub_search_output("a  Title (one) (two)  (3.1)\na  Again  (2)\n b   Spaced out \n");
    assert_eq!(skills.len(), 2);
    assert_eq!(skills[0].description, "Title (one) (two)");
    assert_eq!((skills[1].name.as_str(), skills[1].description.as_str()), ("b", "Spaced out"));
}

fn names(skills: &[Skill]) -> Vec<(&str, &str)> {
    skills.iter().map(|s| (s.name.as_str(), s.description.as_str())).collect()
}

#[test]
fn outputs_add_up() {
    let listed = ["│ ✓ │ a │ one │ x │", "│ ✓ │ b │ two │ x │\r", "", "│ ✓ │ a │ three │ x │\n", "\n\r\n│ ✓ │ c │ four │ x │"];
    let hits = ["a  one  (1)", "b  two\r", "", "- noise\na  three\n", "\r\nc  four"];
    let readers: [(fn(&str) -> Vec<Skill>, [&str; 5]); 2] =
        [(parse_openclaw_skills_output, listed), (parse_clawhub_search_output, hits)];
    for (read, outputs) in readers {
        for a in outputs {
            for b in outputs {
                let first = read(a);
                let second = read(b);
                let mut expected = names(&first);
                expected.extend(
                    names(&second).into_iter().filter(|s| !first.iter().any(|f| f.name == s.0)),
                );
                let joined = read(&format!("{}\n{}", a, b));
                assert_eq!(names(&joined), expected, "{:?} {:?}", a, b);
            }
        }
    }
}

#[test]
fn number_column_makes_no_difference() {
    let rows = [("maps", "finds ways", "hub"), ("2do", "lists", "hub"), ("maps", "again", "x")];
    let mut plain = String::from("│ Name │ Description │ Source │");
    let mut counted = String::from("│ # │ Name │ Description │ Source │");
    for (k, (n, d, s)) in rows.iter().enumerate() {
        plain.push_str(&format!("\n│ {} │ {} │ {} │", n, d, s));
        counted.push_str(&format!("\n│ {} │ {} │ {} │ {} │", k + 1, n, d, s));
    }
    let a = parse_hermes_search_output(&plain);
    let b = parse_hermes_search_output(&counted);
    assert_eq!(names(&a), [("maps", "finds ways"), ("2do", "lists")]);
    assert_eq!(names(&b), names(&a));
    assert!(b.iter().all(|s| !s.installed && s.source == "hermes-hub"));
    assert!(b.iter().all(|s| s.author.is_empty() && s.version.is_empty()));
}
