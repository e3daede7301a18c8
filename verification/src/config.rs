//! The configuration files of a bot, as they are shown to the user.

use vstd::prelude::*;
use vstd::slice::slice_subrange;
use vstd::string::StringExecFns;
use crate::error::{AppError, ErrorView, IoErrorKind};
use crate::json;
use crate::json::JsonView;
use crate::paths;
use crate::text;
use crate::unicode;
use crate::workspace::MAX_FILE_SIZE;

verus! {

// ── Files of environment variables ───────────────────────────────────

/// A line of a file of environment variables without an `export` before it.
pub open spec fn without_export(line: Seq<char>) -> Seq<char> {
    match text::without_prefix(line, "export "@) {
        Some(rest) => rest,
        None => line,
    }
}

/// A value without a comment behind it and without quotes around it.
pub open spec fn bare_value(s: Seq<char>) -> Seq<char> {
    let value = text::trimmed(s.take(text::position(s, '#') as int));
    text::trimmed_of(text::trimmed_of(value, '"'), '\'')
}

/// The variable that a line sets, if it sets one: its key and its value.
pub open spec fn variable_in(line: Seq<char>) -> Option<(Seq<char>, Seq<char>)> {
    let t = text::trimmed(line);
    let setting = without_export(t);
    let k = text::position(setting, '=') as int;
    let key = text::trimmed(setting.take(k));
    if t.len() == 0 || t[0] == '#' || k >= setting.len() || key.len() == 0 {
        None
    } else {
        Some((key, bare_value(setting.skip(k + 1))))
    }
}

/// Whether the value of a variable is sensitive.
pub open spec fn is_sensitive(key: Seq<char>) -> bool {
    text::contains_text(key, "KEY"@) || text::contains_text(key, "TOKEN"@)
        || text::contains_text(key, "SECRET"@)
}

/// Whether a longer value can be cut behind its second byte and before its
/// fourth last one without splitting a character.
pub open spec fn can_be_redacted(value: Seq<char>) -> bool {
    text::byte_len(value) > 4 ==> text::first_bytes(value, 2) is Some && text::last_bytes(
        value,
        4,
    ) is Some
}

/// What is shown of a sensitive value: two bytes at the beginning and four at
/// the end of one of five or more bytes, nothing of a shorter one. Of a value
/// of five or six bytes that leaves nothing out.
pub open spec fn redacted(value: Seq<char>) -> Seq<char> {
    if text::byte_len(value) > 4 {
        text::first_bytes(value, 2)->0 + "..."@ + text::last_bytes(value, 4)->0
    } else {
        "****"@
    }
}

/// What is shown of a variable's value.
pub open spec fn shown_value(key: Seq<char>, value: Seq<char>) -> Seq<char> {
    if is_sensitive(key) {
        redacted(value)
    } else {
        value
    }
}

/// Whether the sensitive value that a line sets, if it does, can be redacted.
pub open spec fn is_showable_line(line: Seq<char>) -> bool {
    match variable_in(line) {
        Some((key, value)) => is_sensitive(key) ==> can_be_redacted(value),
        None => true,
    }
}

/// Whether all sensitive values in a file can be redacted.
pub open spec fn is_showable(content: Seq<char>) -> bool {
    forall|i: int|
        0 <= i < text::lines(content).len() ==> is_showable_line(#[trigger] text::lines(content)[i])
}

/// The variables that lines set, in order, with what is shown of their values.
pub open spec fn shown_variables(lines: Seq<Seq<char>>) -> Seq<(Seq<char>, Seq<char>)>
    decreases lines.len(),
{
    if lines.len() == 0 {
        seq![]
    } else {
        let before = shown_variables(lines.drop_last());
        match variable_in(lines.last()) {
            Some((key, value)) => before.push((key, shown_value(key, value))),
            None => before,
        }
    }
}

/// An object with the given texts; of several for one key the last is taken.
pub open spec fn text_members(v: Seq<(Seq<char>, Seq<char>)>) -> Map<Seq<char>, JsonView>
    decreases v.len(),
{
    if v.len() == 0 {
        json::no_members()
    } else {
        text_members(v.drop_last()).insert(v.last().0, JsonView::Text(v.last().1))
    }
}

/// A file of environment variables as a JSON object.
pub open spec fn dotenv_json(content: Seq<char>) -> JsonView {
    JsonView::Object(text_members(shown_variables(text::lines(content))))
}

/// The texts of a sequence of pairs of strings.
pub open spec fn text_pairs(v: Seq<(String, String)>) -> Seq<(Seq<char>, Seq<char>)> {
    Seq::new(v.len(), |i: int| (v[i].0@, v[i].1@))
}

fn read_variable<'a>(line: &'a [char]) -> (r: Option<(&'a [char], &'a [char])>)
    ensures
        match r {
            Some((key, value)) => variable_in(line@) == Some((key@, value@)),
            None => variable_in(line@) is None,
        },
{
    let t = text::trim(line);
    if t.len() == 0 || text::starts_with_char(t, '#') {
        return None;
    }
    let setting = match text::strip_prefix(t, "export ") {
        Some(rest) => rest,
        None => t,
    };
    let k = text::find_char(setting, '=');
    if k == setting.len() {
        return None;
    }
    let left = slice_subrange(setting, 0, k);
    let right = slice_subrange(setting, k + 1, setting.len());
    assert(left@ == setting@.take(k as int));
    assert(right@ == setting@.skip(k + 1));
    let key = text::trim(left);
    if key.len() == 0 {
        return None;
    }
    let uncommented = slice_subrange(right, 0, text::find_char(right, '#'));
    assert(uncommented@ == right@.take(text::position(right@, '#') as int));
    let value = text::trim_matches(text::trim_matches(text::trim(uncommented), '"'), '\'');
    Some((key, value))
}

fn sensitive(key: &[char]) -> (r: bool)
    ensures
        r == is_sensitive(key@),
{
    text::contains(key, "KEY") || text::contains(key, "TOKEN") || text::contains(key, "SECRET")
}

fn redact(value: &[char]) -> (r: String)
    requires
        can_be_redacted(value@),
    ensures
        r@ == redacted(value@),
{
    if !text::longer_than(value, 4) {
        return "****".to_string();
    }
    match (text::byte_prefix(value, 2), text::byte_suffix(value, 4)) {
        (Some(head), Some(tail)) => {
            let mut s = text::string_of(head);
            s.append("...");
            s.append(text::string_of(tail).as_str());
            s
        },
        _ => {
            assert(false);
            String::new()
        },
    }
}

/// Whether all sensitive values in a file of environment variables can be
/// redacted without splitting a character.
pub fn dotenv_is_showable(content: &str) -> (r: bool)
    ensures
        r == is_showable(content@),
{
    let chars = text::chars_of(content);
    let lines = text::split_lines(chars.as_slice());
    let ghost all = text::lines(content@);
    for i in 0..lines.len()
        invariant
            text::slices(lines@) == all,
            all == text::lines(content@),
            forall|j: int| 0 <= j < i ==> is_showable_line(#[trigger] all[j]),
    {
        assert(all[i as int] == lines@[i as int]@);
        if let Some((key, value)) = read_variable(lines[i]) {
            if sensitive(key) && text::longer_than(value, 4) && (text::byte_prefix(
                value,
                2,
            ).is_none() || text::byte_suffix(value, 4).is_none()) {
                assert(!is_showable_line(all[i as int]));
                return false;
            }
        }
        assert(is_showable_line(all[i as int]));
    }
    true
}

/// Read a file of environment variables: the variables it sets, in order, with
/// what is shown of their values.
pub fn read_dotenv(content: &str) -> (r: Vec<(String, String)>)
    requires
        is_showable(content@),
    ensures
        text_pairs(r@) == shown_variables(text::lines(content@)),
{
    let chars = text::chars_of(content);
    let lines = text::split_lines(chars.as_slice());
    let ghost all = text::lines(content@);
    let mut r: Vec<(String, String)> = Vec::new();
    assert(text_pairs(r@) == shown_variables(all.take(0)));
    for i in 0..lines.len()
        invariant
            text::slices(lines@) == all,
            forall|j: int| 0 <= j < all.len() ==> is_showable_line(#[trigger] all[j]),
            text_pairs(r@) == shown_variables(all.take(i as int)),
    {
        assert(all[i as int] == lines@[i as int]@);
        assert(is_showable_line(all[i as int]));
        let ghost next = all.take(i + 1);
        assert(next.drop_last() == all.take(i as int));
        assert(next.last() == lines@[i as int]@);
        let ghost before = text_pairs(r@);
        if let Some((key, value)) = read_variable(lines[i]) {
            let shown = if sensitive(key) {
                redact(value)
            } else {
                text::string_of(value)
            };
            r.push((text::string_of(key), shown));
            assert(text_pairs(r@) == before.push((key@, shown@)));
        }
    }
    assert(all.take(all.len() as int) == all);
    r
}

/// Parse a file of environment variables into a JSON object. An `export`
/// before a setting, comments and quotes are handled; of a sensitive value at
/// most two bytes of its beginning and four of its end are shown, which is all
/// of it if it has five or six.
pub fn parse_dotenv_to_json(content: &str) -> (r: serde_json::Value)
    requires
        is_showable(content@),
    ensures
        json::json_view(r) == dotenv_json(content@),
{
    let variables = read_dotenv(content);
    let ghost all = text_pairs(variables@);
    let mut m = json::empty_object();
    assert(all.take(0).len() == 0);
    for i in 0..variables.len()
        invariant
            all == text_pairs(variables@),
            json::members(m) == text_members(all.take(i as int)),
    {
        assert(all.take(i + 1).drop_last() == all.take(i as int));
        assert(all.take(i + 1).last() == (variables@[i as int].0@, variables@[i as int].1@));
        json::set_member(
            &mut m,
            variables[i].0.as_str(),
            json::text_value(variables[i].1.as_str()),
        );
    }
    assert(all.take(all.len() as int) == all);
    json::object_value(m)
}

// ── Configuration files ──────────────────────────────────────────────

/// The name of a YAML file as that of a JSON file.
pub open spec fn json_file_name(name: Seq<char>) -> Seq<char> {
    text::replaced(text::replaced(name, ".yaml"@, ".json"@), ".yml"@, ".json"@)
}

pub open spec fn is_yaml_file(name: Seq<char>) -> bool {
    ".yaml"@.is_suffix_of(name) || ".yml"@.is_suffix_of(name)
}

/// The name and the text under which a configuration file is shown, if it is:
/// YAML files and files of environment variables as JSON, others as they are.
pub open spec fn config_entry_of(name: Seq<char>, content: Seq<char>) -> Option<
    (Seq<char>, Seq<char>),
> {
    if is_yaml_file(name) {
        match json::parsed_yaml(content) {
            Some(v) => Some((json_file_name(name), json::json_text(v))),
            None => None,
        }
    } else if name == ".env"@ {
        Some(("env.json"@, json::json_text(dotenv_json(content))))
    } else {
        Some((name, content))
    }
}

/// The entry for a YAML file, given what was read in it.
pub fn yaml_entry(name: &str, parsed: Result<serde_json::Value, serde_yaml::Error>) -> (r: Option<
    (String, String),
>)
    ensures
        match (r, parsed) {
            (Some((shown_name, shown)), Ok(v)) => shown_name@ == json_file_name(name@) && shown@
                == json::json_text(json::json_view(v)),
            (None, Err(_)) => true,
            _ => false,
        },
{
    match parsed {
        Ok(v) => match json::to_text(&v) {
            Ok(shown) => {
                proof {
                    reveal_strlit(".yaml");
                    reveal_strlit(".yml");
                }
                let chars = text::chars_of(name);
                let half = text::replace(chars.as_slice(), ".yaml", ".json");
                let full = text::replace(half.as_slice(), ".yml", ".json");
                Some((text::string_of(full.as_slice()), shown))
            },
            Err(_) => None,
        },
        Err(_) => None,
    }
}

/// Make the entry under which a configuration file is shown.
pub fn config_entry(name: &str, content: &str) -> (r: Option<(String, String)>)
    requires
        name@ == ".env"@ ==> is_showable(content@),
    ensures
        match r {
            Some((shown_name, shown)) => config_entry_of(name@, content@) == Some(
                (shown_name@, shown@),
            ),
            None => config_entry_of(name@, content@) is None,
        },
{
    let chars = text::chars_of(name);
    if text::ends_with(chars.as_slice(), ".yaml") || text::ends_with(chars.as_slice(), ".yml") {
        return yaml_entry(name, json::parse_yaml(content));
    }
    if text::same_str(name, ".env") {
        return match json::to_text(&parse_dotenv_to_json(content)) {
            Ok(shown) => Some(("env.json".to_string(), shown)),
            Err(_) => None,
        };
    }
    Some((name.to_string(), content.to_string()))
}

/// Whether a file of the configuration directory may be shown, given whether
/// it is a link, whether it is a file, its path with all links resolved, if
/// there is one, and its size: it is a file that stands in the directory
/// itself, and is not too large.
pub open spec fn may_show(
    is_symlink: bool,
    is_file: bool,
    canonical: Option<Seq<Seq<u8>>>,
    size: u64,
    dir: Seq<Seq<u8>>,
) -> bool {
    !is_symlink && is_file && (match canonical {
        Some(path) => paths::lies_in(path, dir),
        None => false,
    }) && size <= MAX_FILE_SIZE
}

/// Check whether a file of the configuration directory may be shown.
pub fn may_show_config(
    is_symlink: bool,
    is_file: bool,
    canonical: Option<&[Vec<u8>]>,
    size: u64,
    dir: &[Vec<u8>],
) -> (r: bool)
    ensures
        r == may_show(
            is_symlink,
            is_file,
            match canonical {
                Some(path) => Some(paths::components(path@)),
                None => None,
            },
            size,
            paths::components(dir@),
        ),
{
    if is_symlink || !is_file {
        return false;
    }
    match canonical {
        Some(path) => paths::is_within(path, dir) && size <= MAX_FILE_SIZE,
        None => false,
    }
}

/// The report on a configuration directory that cannot be found.
pub fn config_dir_not_found(reason: &str) -> (r: AppError)
    ensures
        r@ == ErrorView::Io(IoErrorKind::NotFound, "Config dir not found: "@ + reason@),
{
    AppError::Io(IoErrorKind::NotFound, text::concat2("Config dir not found: ", reason))
}

/// The texts of a sequence of pairs by their names; of several under one name
/// the last is taken.
pub open spec fn by_name(v: Seq<(Seq<char>, Seq<char>)>) -> Map<Seq<char>, Seq<char>>
    decreases v.len(),
{
    if v.len() == 0 {
        Map::empty()
    } else {
        by_name(v.drop_last()).insert(v.last().0, v.last().1)
    }
}

proof fn lemma_by_name_remove(v: Seq<(Seq<char>, Seq<char>)>, i: int, text: Seq<char>)
    requires
        0 <= i < v.len(),
    ensures
        by_name(v.remove(i)).insert(v[i].0, text) == by_name(v).insert(v[i].0, text),
    decreases v.len(),
{
    let rest = v.remove(i);
    if i == v.len() - 1 {
        assert(rest == v.drop_last());
    } else {
        let init = v.drop_last();
        lemma_by_name_remove(init, i, text);
        assert(rest.drop_last() == init.remove(i));
        let m = by_name(init.remove(i)).insert(v[i].0, text);
        let n = by_name(init).insert(v[i].0, text);
        assert(m == n);
        assert(by_name(rest).insert(v[i].0, text) =~= m.insert(v.last().0, v.last().1).insert(
            v[i].0,
            text,
        ));
        assert(by_name(v).insert(v[i].0, text) =~= n.insert(v.last().0, v.last().1).insert(
            v[i].0,
            text,
        ));
    }
}

/// The texts that are shown of a bot's configuration, by their names.
#[derive(Debug)]
pub struct BotConfig {
    pub entries: Vec<(String, String)>,
}

impl View for BotConfig {
    type V = Map<Seq<char>, Seq<char>>;

    open spec fn view(&self) -> Map<Seq<char>, Seq<char>> {
        by_name(text_pairs(self.entries@))
    }
}

impl BotConfig {
    /// No name occurs twice.
    pub open spec fn wf(&self) -> bool {
        forall|i: int, j: int|
            0 <= i < j < self.entries@.len() ==> (#[trigger] self.entries@[i]).0@ != (
            #[trigger] self.entries@[j]).0@
    }

    /// A configuration of which nothing is shown yet.
    pub fn new() -> (r: BotConfig)
        ensures
            r.wf(),
            r@ == Map::<Seq<char>, Seq<char>>::empty(),
    {
        BotConfig { entries: Vec::new() }
    }

    /// Show a text under a name, in place of what was shown under it.
    pub fn insert(&mut self, name: String, text: String)
        requires
            old(self).wf(),
        ensures
            final(self).wf(),
            final(self)@ == old(self)@.insert(name@, text@),
    {
        let ghost all = text_pairs(self.entries@);
        let mut i: usize = 0;
        while i < self.entries.len() && !text::same_str(self.entries[i].0.as_str(), name.as_str())
            invariant
                i <= self.entries@.len(),
                forall|j: int| 0 <= j < i ==> (#[trigger] self.entries@[j]).0@ != name@,
            decreases self.entries@.len() - i,
        {
            i += 1;
        }
        let ghost before = self.entries@;
        if i < self.entries.len() {
            self.entries.remove(i);
            proof {
                assert(text_pairs(self.entries@) == all.remove(i as int));
                lemma_by_name_remove(all, i as int, text@);
            }
        }
        let ghost rest = self.entries@;
        assert forall|j: int| 0 <= j < rest.len() implies (#[trigger] rest[j]).0@ != name@ by {
            if i < before.len() {
                assert(before[i as int].0@ == name@);
                if j < i {
                    assert(rest[j] == before[j]);
                } else {
                    assert(rest[j] == before[j + 1]);
                }
            } else {
                assert(rest[j] == before[j]);
            }
        }
        self.entries.push((name, text));
        assert(text_pairs(self.entries@).drop_last() == text_pairs(rest));
        assert(self@ == by_name(text_pairs(rest)).insert(name@, text@));
    }
}

/// What is shown of the files of a configuration directory, given by name and
/// content in the order in which they are read.
pub open spec fn shown_config(files: Seq<(Seq<char>, Seq<char>)>) -> Map<Seq<char>, Seq<char>>
    decreases files.len(),
{
    if files.len() == 0 {
        Map::empty()
    } else {
        let before = shown_config(files.drop_last());
        match config_entry_of(files.last().0, files.last().1) {
            Some((name, shown)) => before.insert(name, shown),
            None => before,
        }
    }
}

/// Make what is shown of a bot's configuration.
pub fn get_bot_config(files: &[(String, String)]) -> (r: BotConfig)
    requires
        forall|i: int|
            0 <= i < files@.len() && (#[trigger] files@[i]).0@ == ".env"@ ==> is_showable(
                files@[i].1@,
            ),
    ensures
        r.wf(),
        r@ == shown_config(text_pairs(files@)),
{
    let ghost all = text_pairs(files@);
    let mut config = BotConfig::new();
    assert(all.take(0).len() == 0);
    for i in 0..files.len()
        invariant
            all == text_pairs(files@),
            config.wf(),
            config@ == shown_config(all.take(i as int)),
            forall|j: int|
                0 <= j < files@.len() && (#[trigger] files@[j]).0@ == ".env"@ ==> is_showable(
                    files@[j].1@,
                ),
    {
        assert(all.take(i + 1).drop_last() == all.take(i as int));
        assert(all.take(i + 1).last() == (files@[i as int].0@, files@[i as int].1@));
        if let Some((name, shown)) = config_entry(files[i].0.as_str(), files[i].1.as_str()) {
            config.insert(name, shown);
        }
    }
    assert(all.take(all.len() as int) == all);
    config
}

// ── What holds of the configuration that is shown ────────────────────

/// Of a sensitive value of five or more bytes nine bytes are shown: two of its
/// beginning and four of its end, with three dots between them. In a value of
/// seven or more bytes some are left out; one of five or six can be read off
/// in full. Of a shorter value nothing is shown.
pub proof fn law_redaction_shows_the_ends(value: Seq<char>)
    requires
        can_be_redacted(value),
    ensures
        text::byte_len(value) <= 4 ==> redacted(value) == "****"@,
        text::byte_len(value) > 4 ==> {
            &&& text::byte_len(redacted(value)) == 9
            &&& exists|head: Seq<char>, tail: Seq<char>|
                head.is_prefix_of(value) && tail.is_suffix_of(value) && text::byte_len(head) == 2
                    && text::byte_len(tail) == 4 && redacted(value) == #[trigger] (head + "..."@
                    + tail)
        },
{
    if text::byte_len(value) > 4 {
        let head = text::first_bytes(value, 2)->0;
        let tail = text::last_bytes(value, 4)->0;
        text::lemma_first_bytes(value, 2);
        text::lemma_last_bytes(value, 4);
        text::lemma_byte_len_add(head, "..."@);
        text::lemma_byte_len_add(head + "..."@, tail);
        reveal_strlit("...");
        reveal_with_fuel(text::byte_len, 4);
        assert(text::byte_len("..."@) == 3) by {
            let dots = "..."@;
            assert(dots.drop_first()[0] == '.');
            assert(dots.drop_first().drop_first()[0] == '.');
            assert(dots.drop_first().drop_first().drop_first().len() == 0);
        }
        assert(redacted(value) == head + "..."@ + tail);
    }
}

/// A value of ASCII characters can always be redacted.
pub proof fn law_ascii_can_be_redacted(value: Seq<char>)
    requires
        unicode::is_ascii_text(value),
    ensures
        can_be_redacted(value),
{
    lemma_ascii_bytes(value);
    if text::byte_len(value) > 4 {
        reveal_with_fuel(text::first_bytes, 3);
        let one = value.drop_first();
        assert(one[0] == value[1]);
        assert(value[0] <= '\u{7f}' && value[1] <= '\u{7f}');
        assert(text::first_bytes(one.drop_first(), 0) is Some);
        assert(text::first_bytes(one, 1) is Some);
        assert(text::first_bytes(value, 2) is Some);
        lemma_ascii_last(value, 4);
    }
}

proof fn lemma_ascii_bytes(s: Seq<char>)
    requires
        unicode::is_ascii_text(s),
    ensures
        text::byte_len(s) == s.len(),
    decreases s.len(),
{
    if s.len() > 0 {
        assert forall|i: int| 0 <= i < s.drop_first().len() implies s.drop_first()[i] < '\u{80}' by {
            assert(s[i + 1] < '\u{80}');
        }
        lemma_ascii_bytes(s.drop_first());
        assert(s[0] < '\u{80}');
    }
}

proof fn lemma_ascii_last(s: Seq<char>, n: int)
    requires
        unicode::is_ascii_text(s),
        0 <= n <= s.len(),
    ensures
        text::last_bytes(s, n) is Some,
    decreases n,
{
    if n > 0 {
        assert(s[s.len() - 1] < '\u{80}');
        assert forall|i: int| 0 <= i < s.drop_last().len() implies s.drop_last()[i] < '\u{80}' by {
            assert(s[i] < '\u{80}');
        }
        lemma_ascii_last(s.drop_last(), n - 1);
    }
}

/// An `export` before a line makes no difference, unless the line is a comment
/// that looks like a setting, or a setting with an `export` of its own.
pub proof fn law_export_is_ignored(line: Seq<char>)
    requires
        text::trimmed(line).contains('=') ==> text::trimmed(line)[0] != '#' && !"export "@.is_prefix_of(
            text::trimmed(line),
        ),
    ensures
        variable_in("export "@ + line) == variable_in(line),
{
    let head = "export "@;
    let all = head + line;
    let t = text::trimmed(line);
    let p = text::blank();
    reveal_strlit("export ");
    let (i, j) = text::lemma_trim_at(line, p);
    assert(all[0] == 'e' && all[5] == 't' && all[6] == ' ');
    assert forall|k: int| 7 + j <= k < all.len() implies p(#[trigger] all[k]) by {
        assert(all[k] == line[k - 7]);
    }
    if i == j {
        // Only the word itself is left, and sets nothing.
        assert forall|k: int| 6 <= k < all.len() implies p(#[trigger] all[k]) by {
            if k >= 7 {
                assert(all[k] == line[k - 7]);
            }
        }
        text::lemma_trim_is(all, p, 0, 6);
        let word = all.subrange(0, 6);
        assert(!head.is_prefix_of(word));
        assert(forall|k: int| 0 <= k < word.len() ==> word[k] == head[k]);
        text::lemma_position(word, '=');
    } else {
        assert(all[7 + j - 1] == line[j - 1]);
        text::lemma_trim_is(all, p, 0, 7 + j);
        let full = all.subrange(0, 7 + j);
        let setting = line.take(j);
        assert(full.subrange(0, 7) == head);
        assert(full.skip(7) == setting);
        assert(setting.skip(i) == t);
        text::lemma_position(t, '=');
        text::lemma_position(setting, '=');
        assert forall|k: int| 0 <= k < i implies p(#[trigger] setting[k]) && setting[k] != '=' by {
            assert(setting[k] == line[k]);
        }
        if t.contains('=') {
            let k = text::position(t, '=') as int;
            assert forall|m: int| 0 <= m < i + k implies setting[m] != '=' by {
                if m >= i {
                    assert(setting[m] == t[m - i]);
                }
            }
            text::lemma_position_is(setting, '=', i + k);
            let before = setting.take(i + k);
            assert forall|m: int| 0 <= m < i implies p(#[trigger] before[m]) by {
                assert(before[m] == setting[m]);
            }
            text::lemma_trim_start_skip(before, p, i);
            assert(before.skip(i) == t.take(k));
            assert(setting.skip(i + k + 1) == t.skip(k + 1));
        } else {
            if setting.contains('=') {
                let m = choose|m: int| 0 <= m < setting.len() && setting[m] == '=';
                assert(t[m - i] == '=');
            }
            let rest = without_export(t);
            text::lemma_position(rest, '=');
            if rest.contains('=') {
                let m = choose|m: int| 0 <= m < rest.len() && rest[m] == '=';
                if head.is_prefix_of(t) {
                    assert(t[m + 7] == '=');
                }
            }
        }
    }
}

/// Quotes around a value are left out, unless it looks like a comment in part
/// or has quotes of its own at an end.
pub proof fn law_quotes_are_ignored(value: Seq<char>, quote: char)
    requires
        quote == '"' || quote == '\'',
        !value.contains('#'),
        value.len() > 0 ==> value[0] != '\'' && value.last() != '\'',
        value.len() > 0 && quote == '"' ==> value[0] != '"' && value.last() != '"',
    ensures
        bare_value(seq![quote] + value + seq![quote]) == value,
{
    let quoted = seq![quote] + value + seq![quote];
    text::lemma_position(quoted, '#');
    if quoted.contains('#') {
        let i = choose|i: int| 0 <= i < quoted.len() && quoted[i] == '#';
        assert(value[i - 1] == '#');
    }
    assert(quoted.take(quoted.len() as int) == quoted);
    assert(quoted[0] == quote && quoted.last() == quote);
    text::lemma_trim_kept(quoted, text::blank());
    if quote == '"' {
        text::lemma_trim_both(value, quote, text::exactly('"'));
        text::lemma_trim_kept(value, text::exactly('\''));
    } else {
        text::lemma_trim_kept(quoted, text::exactly('"'));
        text::lemma_trim_both(value, quote, text::exactly('\''));
    }
}

/// A comment behind a value makes no difference.
pub proof fn law_comments_are_ignored(value: Seq<char>, comment: Seq<char>)
    ensures
        bare_value(value + seq!['#'] + comment) == bare_value(value),
{
    let all = value + seq!['#'] + comment;
    text::lemma_position(value, '#');
    let k = text::position(value, '#') as int;
    assert forall|j: int| 0 <= j < k implies all[j] != '#' by {
        assert(all[j] == value[j]);
    }
    text::lemma_position_is(all, '#', k);
    assert(all.take(k) == value.take(k));
}

/// What the last pair with the given key holds, if there is one.
pub open spec fn last_value(v: Seq<(Seq<char>, Seq<char>)>, key: Seq<char>) -> Option<Seq<char>>
    decreases v.len(),
{
    if v.len() == 0 {
        None
    } else if v.last().0 == key {
        Some(v.last().1)
    } else {
        last_value(v.drop_last(), key)
    }
}

/// The object made of a file has a member for each key that is set, with what
/// is shown of the value set last, and no others.
pub proof fn law_last_setting_wins(v: Seq<(Seq<char>, Seq<char>)>, key: Seq<char>)
    ensures
        json::member_of(JsonView::Object(text_members(v)), key) == (match last_value(v, key) {
            Some(value) => Some(JsonView::Text(value)),
            None => None,
        }),
    decreases v.len(),
{
    if v.len() > 0 {
        law_last_setting_wins(v.drop_last(), key);
    }
}

/// Of several texts under one name the last is shown.
pub proof fn law_last_text_wins(v: Seq<(Seq<char>, Seq<char>)>, name: Seq<char>)
    ensures
        by_name(v).contains_key(name) <==> last_value(v, name) is Some,
        last_value(v, name) is Some ==> by_name(v)[name] == last_value(v, name)->0,
    decreases v.len(),
{
    if v.len() > 0 {
        law_last_text_wins(v.drop_last(), name);
    }
}

/// A link is never shown, nor a file outside of the configuration directory,
/// nor one that is too large.
pub proof fn law_only_own_files_are_shown(
    is_symlink: bool,
    is_file: bool,
    canonical: Option<Seq<Seq<u8>>>,
    size: u64,
    dir: Seq<Seq<u8>>,
)
    requires
        may_show(is_symlink, is_file, canonical, size, dir),
    ensures
        !is_symlink,
        is_file,
        canonical is Some,
        paths::lies_in(canonical->0, dir),
        size <= MAX_FILE_SIZE,
{
}

// ── What is read in a setting ────────────────────────────────────────

/// The value of a variable whose key has none of the words that mark a sensitive
/// one is shown as it is.
pub proof fn law_plain_values_are_shown(key: Seq<char>, value: Seq<char>)
    requires
        !text::contains_text(key, seq!['K', 'E', 'Y']),
        !text::contains_text(key, seq!['T', 'O', 'K', 'E', 'N']),
        !text::contains_text(key, seq!['S', 'E', 'C', 'R', 'E', 'T']),
    ensures
        shown_value(key, value) == value,
{
    reveal_strlit("KEY");
    reveal_strlit("TOKEN");
    reveal_strlit("SECRET");
    assert("KEY"@ =~= seq!['K', 'E', 'Y']);
    assert("TOKEN"@ =~= seq!['T', 'O', 'K', 'E', 'N']);
    assert("SECRET"@ =~= seq!['S', 'E', 'C', 'R', 'E', 'T']);
}

/// Of the value of a variable with one of the words that mark a sensitive one in
/// its key, only the first two bytes and the last four are shown, and none of
/// them if there are no more than four.
pub proof fn law_sensitive_values_are_redacted(
    before: Seq<char>,
    word: Seq<char>,
    after: Seq<char>,
    value: Seq<char>,
    head: Seq<char>,
    tail: Seq<char>,
    start: Seq<char>,
    rest: Seq<char>,
)
    requires
        word == seq!['K', 'E', 'Y'] || word == seq!['T', 'O', 'K', 'E', 'N'] || word
            == seq!['S', 'E', 'C', 'R', 'E', 'T'],
        value == head + rest,
        value == start + tail,
        text::byte_len(head) == 2,
        text::byte_len(tail) == 4,
    ensures
        text::byte_len(value) > 4 ==> shown_value(before + word + after, value) == head
            + seq!['.', '.', '.'] + tail,
        text::byte_len(value) <= 4 ==> shown_value(before + word + after, value)
            == seq!['*', '*', '*', '*'],
{
    reveal_strlit("KEY");
    reveal_strlit("TOKEN");
    reveal_strlit("SECRET");
    reveal_strlit("...");
    reveal_strlit("****");
    assert("KEY"@ =~= seq!['K', 'E', 'Y']);
    assert("TOKEN"@ =~= seq!['T', 'O', 'K', 'E', 'N']);
    assert("SECRET"@ =~= seq!['S', 'E', 'C', 'R', 'E', 'T']);
    assert("..."@ =~= seq!['.', '.', '.']);
    assert("****"@ =~= seq!['*', '*', '*', '*']);
    text::law_texts_hold_their_parts(before, word, after);
    text::law_bytes_are_cut_between_characters(head, rest);
    text::law_bytes_are_cut_between_characters(start, tail);
}

/// A short sensitive value is not shown at all.
pub proof fn law_short_secrets_are_hidden(
    before: Seq<char>,
    word: Seq<char>,
    after: Seq<char>,
    value: Seq<char>,
)
    requires
        word == seq!['K', 'E', 'Y'] || word == seq!['T', 'O', 'K', 'E', 'N'] || word
            == seq!['S', 'E', 'C', 'R', 'E', 'T'],
        text::byte_len(value) <= 4,
    ensures
        shown_value(before + word + after, value) == seq!['*', '*', '*', '*'],
{
    reveal_strlit("KEY");
    reveal_strlit("TOKEN");
    reveal_strlit("SECRET");
    reveal_strlit("****");
    assert("KEY"@ =~= seq!['K', 'E', 'Y']);
    assert("TOKEN"@ =~= seq!['T', 'O', 'K', 'E', 'N']);
    assert("SECRET"@ =~= seq!['S', 'E', 'C', 'R', 'E', 'T']);
    assert("****"@ =~= seq!['*', '*', '*', '*']);
    text::law_texts_hold_their_parts(before, word, after);
}

/// Whether a text consists of white space.
pub open spec fn is_space(s: Seq<char>) -> bool {
    forall|k: int| 0 <= k < s.len() ==> text::is_white_space(#[trigger] s[k])
}

/// Whether a text can stand as the key of a setting.
pub open spec fn is_plain_key(key: Seq<char>) -> bool {
    &&& key.len() > 0
    &&& !key.contains('=')
    &&& key[0] != '#'
    &&& !text::is_white_space(key[0])
    &&& !text::is_white_space(key.last())
    &&& !(key.len() >= 7 && key.take(7) == seq!['e', 'x', 'p', 'o', 'r', 't', ' '])
}

/// Whether a key and the white space behind it do not look like `export`.
pub open spec fn is_no_export(key: Seq<char>, gap: Seq<char>) -> bool {
    !(key == seq!['e', 'x', 'p', 'o', 'r', 't'] && gap.len() > 0 && gap[0] == ' ')
}

/// Whether a text is empty or a comment.
pub open spec fn is_comment(s: Seq<char>) -> bool {
    s.len() == 0 || s[0] == '#'
}

/// A value is read as it is, whatever white space, quotes and comment stand
/// around it.
proof fn lemma_bare_value(
    space: Seq<char>,
    opening: Seq<char>,
    value: Seq<char>,
    closing: Seq<char>,
    more: Seq<char>,
    comment: Seq<char>,
)
    requires
        is_space(space),
        is_space(more),
        text::is_value_between(opening, value, closing),
        !value.contains('#'),
        is_comment(comment),
    ensures
        bare_value(space + (opening + value + closing) + more + comment) == value,
{
    let quoted = opening + value + closing;
    let visible = space + quoted + more;
    let all = visible + comment;
    let n = visible.len() as int;
    text::lemma_quotes_of_either_kind(opening);
    text::lemma_quotes_of_either_kind(closing);
    assert forall|k: int| 0 <= k < quoted.len() implies quoted[k] != '#' by {
        if k < opening.len() {
            assert(quoted[k] == opening[k]);
        } else if k < opening.len() + value.len() {
            assert(quoted[k] == value[k - opening.len()]);
            assert(value.contains(value[k - opening.len()]));
        } else {
            assert(quoted[k] == closing[k - opening.len() - value.len()]);
        }
    }
    assert forall|k: int| 0 <= k < n implies all[k] != '#' by {
        if k < space.len() {
            assert(all[k] == space[k]);
        } else if k < space.len() + quoted.len() {
            assert(all[k] == quoted[k - space.len()]);
        } else {
            assert(all[k] == more[k - space.len() - quoted.len()]);
        }
    }
    text::lemma_position_is(all, '#', n);
    assert(all.take(n) =~= visible);
    text::law_value_is_found(space, opening, value, closing, more);
}

/// What is read behind the `=` does not depend on white space at the end of the
/// line.
pub proof fn lemma_bare_value_cut(
    space: Seq<char>,
    opening: Seq<char>,
    value: Seq<char>,
    closing: Seq<char>,
    more: Seq<char>,
    comment: Seq<char>,
    m: int,
)
    requires
        is_space(space),
        is_space(more),
        text::is_value_between(opening, value, closing),
        !value.contains('#'),
        is_comment(comment),
        0 <= m <= (space + (opening + value + closing) + more + comment).len(),
        is_space((space + (opening + value + closing) + more + comment).skip(m)),
    ensures
        bare_value((space + (opening + value + closing) + more + comment).take(m)) == value,
{
    let quoted = opening + value + closing;
    let all = space + quoted + more + comment;
    let n = (space.len() + quoted.len() + more.len()) as int;
    let rest = all.skip(m);
    let none = Seq::<char>::empty();
    text::law_value_is_found(space, opening, value, closing, more);
    if comment.len() > 0 {
        assert(m > n) by {
            if m <= n {
                assert(rest[n - m] == comment[0]);
                assert(text::is_white_space(rest[n - m]));
            }
        }
        let c = comment.take(m - n);
        assert(all.take(m) =~= space + quoted + more + c);
        lemma_bare_value(space, opening, value, closing, more, c);
    } else if quoted.len() > 0 {
        let q = (space.len() + quoted.len()) as int;
        assert(m >= q) by {
            if m < q {
                assert(rest[q - 1 - m] == quoted.last());
                assert(text::is_white_space(rest[q - 1 - m]));
            }
        }
        let s = more.take(m - q);
        assert(all.take(m) =~= space + quoted + s + none);
        assert forall|k: int| 0 <= k < s.len() implies text::is_white_space(#[trigger] s[k]) by {
            assert(s[k] == more[k]);
        }
        lemma_bare_value(space, opening, value, closing, s, none);
    } else {
        let s = all.take(m);
        assert forall|k: int| 0 <= k < s.len() implies text::is_white_space(#[trigger] s[k]) by {
            if k < space.len() {
                assert(s[k] == space[k]);
            } else {
                assert(s[k] == more[k - space.len()]);
            }
        }
        assert(s =~= s + quoted + none + none);
        lemma_bare_value(s, opening, value, closing, none, none);
    }
}

/// White space at the end of a line is all that trimming takes from what stands
/// behind a text without white space around it.
pub proof fn lemma_trimmed_line(indent: Seq<char>, front: Seq<char>, behind: Seq<char>) -> (m: int)
    requires
        is_space(indent),
        front.len() > 0,
        !text::is_white_space(front[0]),
        !text::is_white_space(front.last()),
    ensures
        0 <= m <= behind.len(),
        text::trimmed(indent + front + behind) == front + behind.take(m),
        is_space(behind.skip(m)),
{
    let p = text::blank();
    let line = indent + front + behind;
    let a = indent.len() as int;
    let f = front.len() as int;
    let (i, j) = text::lemma_trim_at(line, p);
    assert(line[a] == front[0] && !p(line[a]));
    assert(i == a) by {
        if i < a {
            assert(line[i] == indent[i]);
        }
    }
    assert(line[a + f - 1] == front.last() && !p(line[a + f - 1]));
    let m = j - a - f;
    assert(line.subrange(i, j) =~= front + behind.take(m));
    let rest = behind.skip(m);
    assert forall|k: int| 0 <= k < rest.len() implies text::is_white_space(#[trigger] rest[k]) by {
        assert(rest[k] == line[j + k]);
    }
    m
}

proof fn lemma_setting_parts(lead: Seq<char>, key: Seq<char>, gap: Seq<char>, tail: Seq<char>)
    requires
        is_space(lead),
        is_plain_key(key),
        is_space(gap),
    ensures
        ({
            let setting = lead + key + gap + seq!['='] + tail;
            let k = text::position(setting, '=') as int;
            &&& k < setting.len()
            &&& text::trimmed(setting.take(k)) == key
            &&& setting.skip(k + 1) == tail
        }),
{
    let setting = lead + key + gap + seq!['='] + tail;
    let name = lead + key + gap;
    let d = name.len() as int;
    assert forall|k: int| 0 <= k < d implies setting[k] != '=' by {
        if k < lead.len() {
            assert(setting[k] == lead[k]);
        } else if k < lead.len() + key.len() {
            assert(setting[k] == key[k - lead.len()]);
            assert(key.contains(key[k - lead.len()]));
        } else {
            assert(setting[k] == gap[k - lead.len() - key.len()]);
        }
    }
    assert(setting[d] == '=');
    text::lemma_position_is(setting, '=', d);
    assert(setting.take(d) =~= name);
    text::law_white_space_is_trimmed(lead, key, gap);
    assert(setting.skip(d + 1) =~= tail);
}

/// Whether a text is empty or the word `export` with a space and possibly more
/// white space behind it.
pub open spec fn is_export(s: Seq<char>) -> bool {
    s.len() == 0 || (s.len() >= 7 && s.take(7) == seq!['e', 'x', 'p', 'o', 'r', 't', ' ']
        && is_space(s.skip(7)))
}

proof fn lemma_export_parts(export: Seq<char>, key: Seq<char>, gap: Seq<char>, tail: Seq<char>)
    requires
        is_export(export),
        is_plain_key(key),
        is_no_export(key, gap),
        is_space(gap),
    ensures
        ({
            let lead = if export.len() > 0 {
                export.skip(7)
            } else {
                export
            };
            &&& is_space(lead)
            &&& without_export(export + key + gap + seq!['='] + tail) == lead + key + gap + seq!['=']
                + tail
        }),
{
    let t = export + key + gap + seq!['='] + tail;
    let word = seq!['e', 'x', 'p', 'o', 'r', 't', ' '];
    reveal_strlit("export ");
    assert("export "@ =~= word);
    if export.len() > 0 {
        let lead = export.skip(7);
        assert(t.subrange(0, 7) =~= export.take(7));
        assert(t.skip(7) =~= lead + key + gap + seq!['='] + tail);
    } else {
        let front = key + gap + seq!['='];
        assert(t =~= front + tail);
        assert(t.subrange(0, front.len() as int) =~= front);
        lemma_no_export(key, gap, t);
    }
}

/// A setting is read as the key and the value it was written with, whatever
/// white space stands in it, with or without `export`, quotes and a comment.
pub proof fn law_setting_is_read(
    indent: Seq<char>,
    export: Seq<char>,
    key: Seq<char>,
    gap: Seq<char>,
    space: Seq<char>,
    opening: Seq<char>,
    value: Seq<char>,
    closing: Seq<char>,
    more: Seq<char>,
    comment: Seq<char>,
)
    requires
        is_space(indent),
        is_export(export),
        is_plain_key(key),
        is_no_export(key, gap),
        is_space(gap),
        is_space(space),
        text::is_value_between(opening, value, closing),
        !value.contains('#'),
        is_space(more),
        is_comment(comment),
    ensures
        variable_in(
            indent + (export + key + gap + seq!['=']) + (space + (opening + value + closing) + more
                + comment),
        ) == Some((key, value)),
{
    let behind = space + (opening + value + closing) + more + comment;
    let front = export + key + gap + seq!['='];
    assert(front.last() == '=');
    assert(front[0] == (if export.len() > 0 {
        export[0]
    } else {
        key[0]
    }));
    if export.len() > 0 {
        assert(export[0] == export.take(7)[0]);
    }
    let m = lemma_trimmed_line(indent, front, behind);
    let tail = behind.take(m);
    let t = front + tail;
    assert(t[0] == front[0]);
    lemma_bare_value_cut(space, opening, value, closing, more, comment, m);
    lemma_export_parts(export, key, gap, tail);
    let lead = if export.len() > 0 {
        export.skip(7)
    } else {
        export
    };
    lemma_setting_parts(lead, key, gap, tail);
}

proof fn lemma_no_export(key: Seq<char>, gap: Seq<char>, t: Seq<char>)
    requires
        is_plain_key(key),
        is_no_export(key, gap),
        is_space(gap),
        (key + gap + seq!['=']).is_prefix_of(t),
    ensures
        !seq!['e', 'x', 'p', 'o', 'r', 't', ' '].is_prefix_of(t),
{
    let word = seq!['e', 'x', 'p', 'o', 'r', 't', ' '];
    if word.is_prefix_of(t) {
        let front = key + gap + seq!['='];
        assert(t.subrange(0, 7) == word);
        assert(t.subrange(0, front.len() as int) == front);
        assert forall|k: int| 0 <= k < 7 implies #[trigger] t[k] == word[k] by {
            assert(t.subrange(0, 7)[k] == t[k]);
        }
        assert forall|k: int| 0 <= k < front.len() implies #[trigger] t[k] == front[k] by {
            assert(t.subrange(0, front.len() as int)[k] == t[k]);
        }
        let n = key.len() as int;
        if n < 6 {
            assert(t[n] == front[n]);
            assert(front[n] == (if gap.len() > 0 {
                gap[0]
            } else {
                '='
            }));
            assert(t[n] == word[n]);
        } else {
            assert forall|k: int| 0 <= k < 6 implies key[k] == word[k] by {
                assert(t[k] == front[k] && front[k] == key[k]);
            }
            assert(t[6] == front[6] && t[6] == word[6]);
            if n > 6 {
                assert(front[6] == key[6]);
                assert(key.take(7) =~= word);
            } else {
                assert(key =~= seq!['e', 'x', 'p', 'o', 'r', 't']);
                assert(front[6] == (if gap.len() > 0 {
                    gap[0]
                } else {
                    '='
                }));
            }
        }
    }
}

/// A line sets nothing if it is blank or a comment, or has no `=` or no key
/// before it.
pub proof fn law_other_lines_set_nothing(line: Seq<char>)
    requires
        ({
            let t = text::trimmed(line);
            ||| t.len() == 0
            ||| t[0] == '#'
            ||| !t.contains('=')
            ||| t[0] == '='
        }),
    ensures
        variable_in(line) is None,
{
    let t = text::trimmed(line);
    let setting = without_export(t);
    if t.len() > 0 && t[0] == '=' {
        reveal_strlit("export ");
        text::lemma_prefix_first(t, "export "@);
        text::lemma_position_is(t, '=', 0);
        assert(text::trimmed(t.take(0)).len() == 0);
    }
    text::lemma_position(setting, '=');
    if setting.contains('=') {
        let k = choose|k: int| 0 <= k < setting.len() && setting[k] == '=';
        reveal_strlit("export ");
        if "export "@.is_prefix_of(t) {
            assert(t[k + 7] == '=');
        }
    }
}

/// The variables of one series of lines after another are those of the first one
/// and then those of the second one.
pub proof fn law_variables_add_up(a: Seq<Seq<char>>, b: Seq<Seq<char>>)
    ensures
        shown_variables(a + b) == shown_variables(a) + shown_variables(b),
    decreases b.len(),
{
    if b.len() == 0 {
        assert(a + b == a);
        assert(shown_variables(a) + shown_variables(b) =~= shown_variables(a));
    } else {
        law_variables_add_up(a, b.drop_last());
        assert((a + b).drop_last() == a + b.drop_last());
        assert((a + b).last() == b.last());
        assert(shown_variables(a + b) =~= shown_variables(a) + shown_variables(b));
    }
}

proof fn lemma_last_value_add(
    a: Seq<(Seq<char>, Seq<char>)>,
    b: Seq<(Seq<char>, Seq<char>)>,
    key: Seq<char>,
)
    ensures
        last_value(a + b, key) == (if last_value(b, key) is Some {
            last_value(b, key)
        } else {
            last_value(a, key)
        }),
    decreases b.len(),
{
    if b.len() == 0 {
        assert(a + b == a);
    } else {
        lemma_last_value_add(a, b.drop_last(), key);
        assert((a + b).drop_last() == a + b.drop_last());
        assert((a + b).last() == b.last());
    }
}

/// Whether a line sets the variable with the given key.
pub open spec fn sets(line: Seq<char>, key: Seq<char>) -> bool {
    variable_in(line) matches Some((k, _)) && k == key
}

proof fn lemma_not_set(lines: Seq<Seq<char>>, key: Seq<char>)
    requires
        forall|i: int| 0 <= i < lines.len() ==> !sets(#[trigger] lines[i], key),
    ensures
        last_value(shown_variables(lines), key) is None,
    decreases lines.len(),
{
    if lines.len() > 0 {
        let init = lines.drop_last();
        assert(!sets(lines[lines.len() - 1], key));
        assert forall|i: int| 0 <= i < init.len() implies !sets(#[trigger] init[i], key) by {
            assert(init[i] == lines[i]);
        }
        lemma_not_set(init, key);
        let before = shown_variables(init);
        let now = shown_variables(lines);
        if now.len() > before.len() {
            assert(now.drop_last() =~= before);
        }
    }
}

/// A carriage return at the end of a line makes no difference to what it sets.
proof fn lemma_return_sets_nothing(line: Seq<char>)
    ensures
        variable_in(text::without_carriage_return(line)) == variable_in(line),
{
    text::lemma_return_is_trimmed(line);
}

proof fn lemma_same_variables(a: Seq<Seq<char>>, b: Seq<Seq<char>>)
    requires
        a.len() == b.len(),
        forall|i: int|
            0 <= i < a.len() ==> variable_in(#[trigger] a[i]) == variable_in(#[trigger] b[i]),
    ensures
        shown_variables(a) == shown_variables(b),
    decreases a.len(),
{
    if a.len() > 0 {
        let x = a.drop_last();
        let y = b.drop_last();
        assert(variable_in(a[a.len() - 1]) == variable_in(b[b.len() - 1]));
        assert forall|i: int| 0 <= i < x.len() implies variable_in(#[trigger] x[i]) == variable_in(
            #[trigger] y[i],
        ) by {
            assert(x[i] == a[i] && y[i] == b[i]);
        }
        lemma_same_variables(x, y);
    }
}

/// The variables in a file are those of the lines it was written from.
pub proof fn law_file_is_read_by_lines(lines: Seq<Seq<char>>)
    requires
        lines.len() > 0,
        forall|i: int| 0 <= i < lines.len() ==> !(#[trigger] lines[i]).contains('\n'),
    ensures
        shown_variables(text::lines(text::joined(lines, seq!['\n']))) == shown_variables(lines),
{
    let f = |s: Seq<char>| text::without_carriage_return(s);
    let init = lines.drop_last();
    let last = lines.last();
    let a = init.map_values(f);
    text::lemma_lines_of_any_joined(lines);
    assert forall|i: int| 0 <= i < a.len() implies variable_in(#[trigger] a[i]) == variable_in(
        #[trigger] init[i],
    ) by {
        lemma_return_sets_nothing(init[i]);
    }
    lemma_same_variables(a, init);
    law_variables_add_up(a, text::lines(last));
    law_variables_add_up(init, seq![last]);
    assert(lines =~= init + seq![last]);
    if last.len() == 0 {
        law_other_lines_set_nothing(last);
        assert(seq![last].drop_last() =~= Seq::<Seq<char>>::empty());
        assert(shown_variables(Seq::<Seq<char>>::empty()) =~= shown_variables(seq![last]));
        assert(text::lines(last) =~= Seq::<Seq<char>>::empty());
    }
}

/// A file has a member for a variable exactly if one of its lines sets it, and
/// then it is what is shown of the value set last.
pub proof fn law_set_variables_are_shown(
    before: Seq<Seq<char>>,
    line: Seq<char>,
    after: Seq<Seq<char>>,
    key: Seq<char>,
    value: Seq<char>,
)
    requires
        variable_in(line) == Some((key, value)),
        !line.contains('\n'),
        forall|i: int| 0 <= i < before.len() ==> !(#[trigger] before[i]).contains('\n'),
        forall|i: int|
            0 <= i < after.len() ==> !(#[trigger] after[i]).contains('\n') && !sets(after[i], key),
    ensures
        json::member_of(dotenv_json(text::joined(before + seq![line] + after, seq!['\n'])), key)
            == Some(JsonView::Text(shown_value(key, value))),
        after.len() > 0 ==> json::member_of(dotenv_json(text::joined(after, seq!['\n'])), key)
            is None,
{
    let all = before + seq![line] + after;
    assert forall|i: int| 0 <= i < all.len() implies !(#[trigger] all[i]).contains('\n') by {
        if i < before.len() {
            assert(all[i] == before[i]);
        } else if i > before.len() {
            assert(all[i] == after[i - before.len() - 1]);
        }
    }
    law_file_is_read_by_lines(all);
    law_variables_add_up(before + seq![line], after);
    law_variables_add_up(before, seq![line]);
    lemma_not_set(after, key);
    let one = shown_variables(seq![line]);
    assert(seq![line].drop_last() =~= Seq::<Seq<char>>::empty());
    assert(shown_variables(seq![line].drop_last()) =~= Seq::<(Seq<char>, Seq<char>)>::empty());
    assert(seq![line].last() == line);
    assert(one =~= seq![(key, shown_value(key, value))]);
    assert(last_value(one, key) == Some(shown_value(key, value)));
    lemma_last_value_add(shown_variables(before), one, key);
    lemma_last_value_add(shown_variables(before + seq![line]), shown_variables(after), key);
    law_last_setting_wins(shown_variables(all), key);
    if after.len() > 0 {
        law_file_is_read_by_lines(after);
        law_last_setting_wins(shown_variables(after), key);
    }
}

/// A file of environment variables gives back what was written into it: the
/// member for a key that is not sensitive is exactly the value that the last
/// line with that key sets, with or without quotes around it.
pub proof fn law_setting_is_given_back(
    before: Seq<Seq<char>>,
    key: Seq<char>,
    quote: Seq<char>,
    value: Seq<char>,
    after: Seq<Seq<char>>,
)
    requires
        is_plain_key(key),
        !key.contains('\n'),
        !text::contains_text(key, seq!['K', 'E', 'Y']),
        !text::contains_text(key, seq!['T', 'O', 'K', 'E', 'N']),
        !text::contains_text(key, seq!['S', 'E', 'C', 'R', 'E', 'T']),
        quote == Seq::<char>::empty() || quote == seq!['"'] || quote == seq!['\''],
        value.len() > 0 ==> value[0] != '"' && value.last() != '"' && value[0] != '\'' && value.last() != '\'',
        value.len() > 0 && quote.len() == 0 ==> !text::is_white_space(value[0])
            && !text::is_white_space(value.last()),
        !value.contains('#'),
        !value.contains('\n'),
        forall|i: int| 0 <= i < before.len() ==> !(#[trigger] before[i]).contains('\n'),
        forall|i: int|
            0 <= i < after.len() ==> !(#[trigger] after[i]).contains('\n') && !sets(after[i], key),
    ensures
        json::member_of(
            dotenv_json(
                text::joined(
                    before + seq![key + seq!['='] + quote + value + quote] + after,
                    seq!['\n'],
                ),
            ),
            key,
        ) == Some(JsonView::Text(value)),
{
    let none = Seq::<char>::empty();
    let line = key + seq!['='] + quote + value + quote;
    text::lemma_plain_quotes(quote);
    law_setting_is_read(none, none, key, none, none, quote, value, quote, none, none);
    assert(line =~= none + (none + key + none + seq!['=']) + (none + (quote + value + quote) + none
        + none));
    assert(!line.contains('\n')) by {
        if line.contains('\n') {
            let k = choose|k: int| 0 <= k < line.len() && line[k] == '\n';
            let n = key.len() as int;
            let q = n + 1 + quote.len();
            if k < n {
                assert(key[k] == '\n');
            } else if n < k < q {
                assert(quote[k - n - 1] == '\n');
            } else if q <= k < q + value.len() {
                assert(value[k - q] == '\n');
            } else if k >= q + value.len() {
                assert(quote[k - q - value.len()] == '\n');
            }
        }
    }
    law_set_variables_are_shown(before, line, after, key, value);
    law_plain_values_are_shown(key, value);
}

// ── What holds of configuration files ────────────────────────────────

/// The extension of a YAML file does not begin in what stands before another
/// extension.
proof fn lemma_no_extension_before(
    stem: Seq<char>,
    extension: Seq<char>,
    other: Seq<char>,
    rest: Seq<char>,
)
    requires
        other.len() > 0,
        other[0] == '.',
        forall|k: int| 0 < k < other.len() ==> #[trigger] other[k] != '.',
        extension.len() > 0,
        extension[0] == '.',
        forall|k: int| 0 < k < extension.len() ==> #[trigger] extension[k] != '.',
        !text::contains_text(stem, other),
    ensures
        forall|i: int|
            0 <= i < stem.len() ==> !text::occurs_at(stem + extension + rest, other, i),
{
    let all = stem + extension + rest;
    let n = stem.len() as int;
    assert forall|i: int| 0 <= i < n implies !text::occurs_at(all, other, i) by {
        if text::occurs_at(all, other, i) {
            let here = all.subrange(i, i + other.len());
            if i + other.len() <= n {
                assert(here =~= stem.subrange(i, i + other.len()));
                assert(text::occurs_at(stem, other, i));
            } else {
                assert(here[n - i] == all[n]);
                assert(all[n] == extension[0]);
                assert(other[n - i] == '.');
            }
        }
    }
}

/// An extension that starts otherwise does not begin in another one either.
proof fn lemma_no_extension_within(
    stem: Seq<char>,
    extension: Seq<char>,
    other: Seq<char>,
    rest: Seq<char>,
)
    requires
        other.len() > 0,
        other[0] == '.',
        forall|k: int| 0 < k < other.len() ==> #[trigger] other[k] != '.',
        extension.len() >= 3,
        other.len() >= 3,
        extension[0] == '.',
        forall|k: int| 0 < k < extension.len() ==> #[trigger] extension[k] != '.',
        extension[1] != other[1] || extension[2] != other[2],
        !text::contains_text(stem, other),
    ensures
        forall|i: int|
            0 <= i < (stem + extension).len() ==> !text::occurs_at(
                stem + extension + rest,
                other,
                i,
            ),
{
    let all = stem + extension + rest;
    let n = stem.len() as int;
    lemma_no_extension_before(stem, extension, other, rest);
    assert forall|i: int| 0 <= i < (stem + extension).len() implies !text::occurs_at(
        all,
        other,
        i,
    ) by {
        if i >= n && text::occurs_at(all, other, i) {
            let here = all.subrange(i, i + other.len());
            assert(here[0] == all[i]);
            assert(all[i] == extension[i - n]);
            if i == n {
                assert(here[1] == all[n + 1] && here[2] == all[n + 2]);
                assert(all[n + 1] == extension[1] && all[n + 2] == extension[2]);
            }
        }
    }
}

/// In the name of a file every extension of a YAML file becomes that of a JSON
/// file, the first one and so on, and all else is kept.
pub proof fn law_yaml_extensions_are_replaced(stem: Seq<char>, rest: Seq<char>)
    requires
        !text::contains_text(stem, ".yaml"@),
        !text::contains_text(stem, ".yml"@),
    ensures
        json_file_name(stem) == stem,
        json_file_name(stem + ".yaml"@ + rest) == stem + ".json"@ + json_file_name(rest),
        json_file_name(stem + ".yml"@ + rest) == stem + ".json"@ + json_file_name(rest),
{
    reveal_strlit(".yaml");
    reveal_strlit(".yml");
    reveal_strlit(".json");
    let yaml = ".yaml"@;
    let yml = ".yml"@;
    let to = ".json"@;
    text::law_nothing_to_replace(stem, yaml, to);
    text::law_nothing_to_replace(stem, yml, to);
    let half = text::replaced(rest, yaml, to);
    lemma_no_extension_before(stem, yaml, yaml, rest);
    text::law_first_occurrence_is_replaced(stem, yaml, rest, to);
    lemma_no_extension_within(stem, to, yml, half);
    text::law_text_before_is_kept(stem + to, half, yml, to);
    lemma_no_extension_within(stem, yml, yaml, rest);
    text::law_text_before_is_kept(stem + yml, rest, yaml, to);
    lemma_no_extension_before(stem, yml, yml, half);
    text::law_first_occurrence_is_replaced(stem, yml, half, to);
}

/// A YAML file is shown as the JSON form of what is read in it, under the name
/// of a JSON file; one that cannot be read is not shown.
pub proof fn law_yaml_file_is_shown_as_json(stem: Seq<char>, extension: Seq<char>, content: Seq<char>)
    requires
        extension == ".yaml"@ || extension == ".yml"@,
    ensures
        json::parsed_yaml(content) matches Some(v) ==> config_entry_of(stem + extension, content)
            == Some((json_file_name(stem + extension), json::json_text(v))),
        json::parsed_yaml(content) is None ==> config_entry_of(stem + extension, content) is None,
{
    let a = stem + extension;
    assert(a.subrange(a.len() - extension.len(), a.len() as int) =~= extension);
}

/// A file of environment variables is shown as a JSON object, and any file with
/// another name that does not end like that of a YAML file is shown as it is.
pub proof fn law_other_files_are_shown_as_they_are(name: Seq<char>, content: Seq<char>)
    ensures
        config_entry_of(seq!['.', 'e', 'n', 'v'], content) == Some(
            ("env.json"@, json::json_text(dotenv_json(content))),
        ),
        name != seq!['.', 'e', 'n', 'v'] && !(name.len() >= 5 && name.skip(name.len() - 5)
            == seq!['.', 'y', 'a', 'm', 'l']) && !(name.len() >= 4 && name.skip(name.len() - 4)
            == seq!['.', 'y', 'm', 'l']) ==> config_entry_of(name, content) == Some(
            (name, content),
        ),
{
    reveal_strlit(".yaml");
    reveal_strlit(".yml");
    reveal_strlit(".env");
    let env = seq!['.', 'e', 'n', 'v'];
    assert(".yaml"@ =~= seq!['.', 'y', 'a', 'm', 'l']);
    assert(".yml"@ =~= seq!['.', 'y', 'm', 'l']);
    assert(".env"@ =~= env);
    if name.len() >= 5 {
        assert(name.skip(name.len() - 5) =~= name.subrange(name.len() - 5, name.len() as int));
    }
    if name.len() >= 4 {
        assert(name.skip(name.len() - 4) =~= name.subrange(name.len() - 4, name.len() as int));
    }
    assert(!".yml"@.is_suffix_of(env)) by {
        assert(env.subrange(0, 4)[1] == 'e');
    }
}

/// Whether a file is shown under the given name.
pub open spec fn is_shown_as(file: (Seq<char>, Seq<char>), name: Seq<char>) -> bool {
    config_entry_of(file.0, file.1) is Some && (config_entry_of(file.0, file.1)->0).0 == name
}

/// Every file that has something to show is shown, unless a later one is shown
/// under the same name; and nothing else is shown.
pub proof fn law_every_file_is_shown(files: Seq<(Seq<char>, Seq<char>)>, i: int, name: Seq<char>)
    requires
        -1 <= i < files.len(),
        i >= 0 ==> is_shown_as(files[i], name),
        forall|k: int| i < k < files.len() ==> !is_shown_as(#[trigger] files[k], name),
    ensures
        shown_config(files).contains_key(name) <==> i >= 0,
        i >= 0 ==> shown_config(files)[name] == (config_entry_of(files[i].0, files[i].1)->0).1,
    decreases files.len(),
{
    if i < files.len() - 1 {
        let init = files.drop_last();
        assert(!is_shown_as(files[files.len() - 1], name));
        assert forall|k: int| i < k < init.len() implies !is_shown_as(#[trigger] init[k], name) by {
            assert(init[k] == files[k]);
        }
        law_every_file_is_shown(init, i, name);
        if i >= 0 {
            assert(init[i] == files[i]);
        }
    }
}

/// A file of the configuration directory is shown exactly if it is no link but a
/// file, its resolved path extends that of the directory, and it has at most a
/// mebibyte.
pub proof fn law_own_files_are_shown(
    is_symlink: bool,
    is_file: bool,
    canonical: Option<Seq<Seq<u8>>>,
    size: u64,
    dir: Seq<Seq<u8>>,
)
    ensures
        may_show(is_symlink, is_file, canonical, size, dir) <==> !is_symlink && is_file
            && canonical is Some && dir.len() <= canonical->0.len() && canonical->0.take(
            dir.len() as int,
        ) == dir && size <= 1048576,
{
    if let Some(path) = canonical {
        if dir.len() <= path.len() {
            assert(path.take(dir.len() as int) =~= path.subrange(0, dir.len() as int));
        }
    }
}

} // verus!
