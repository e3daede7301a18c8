//! Reading the skill lists that the agents' command line tools print.

use vstd::prelude::*;
use vstd::slice::slice_subrange;
use crate::models::{Skill, SkillView};
use crate::text;

verus! {

// ── Collecting skills ────────────────────────────────────────────────

/// The views of a sequence of skills.
pub open spec fn skill_views(v: Seq<Skill>) -> Seq<SkillView> {
    Seq::new(v.len(), |i: int| v[i]@)
}

/// Whether one of the skills has the given name.
pub open spec fn has_name(skills: Seq<SkillView>, name: Seq<char>) -> bool {
    exists|i: int| 0 <= i < skills.len() && #[trigger] skills[i].name == name
}

/// The skills of a series of rows, in order: a row may hold none, a skill
/// needs a name, and of several with one name only the first is taken.
pub open spec fn collected(rows: Seq<Option<SkillView>>) -> Seq<SkillView>
    decreases rows.len(),
{
    if rows.len() == 0 {
        seq![]
    } else {
        let before = collected(rows.drop_last());
        match rows.last() {
            Some(skill) => if skill.name.len() == 0 || has_name(before, skill.name) {
                before
            } else {
                before.push(skill)
            },
            None => before,
        }
    }
}

fn known_name(skills: &Vec<Skill>, name: &str) -> (r: bool)
    ensures
        r == has_name(skill_views(skills@), name@),
{
    for i in 0..skills.len()
        invariant
            forall|j: int| 0 <= j < i ==> #[trigger] skill_views(skills@)[j].name != name@,
    {
        if text::same_str(skills[i].name.as_str(), name) {
            assert(skill_views(skills@)[i as int].name == name@);
            return true;
        }
    }
    false
}

/// Add the skill of one more row to those collected so far.
fn collect_row(skills: &mut Vec<Skill>, row: Option<Skill>, Ghost(rows): Ghost<
    Seq<Option<SkillView>>,
>)
    requires
        skill_views(old(skills)@) == collected(rows),
    ensures
        skill_views(final(skills)@) == collected(rows.push(text::option_view(row))),
{
    let ghost next = rows.push(text::option_view(row));
    assert(next.drop_last() == rows);
    if let Some(skill) = row {
        if !skill.name.as_str().is_empty() && !known_name(skills, skill.name.as_str()) {
            let ghost before = skill_views(skills@);
            let ghost added = skill@;
            skills.push(skill);
            assert(skill_views(skills@) == before.push(added));
        }
    }
}

// ── The list of an OpenClaw agent ────────────────────────────────────

/// The skill in one line of the output of `openclaw skills list`, if it is a
/// row of the table: `│ ✓ ready │ 📦 name │ description │ source │`.
pub open spec fn openclaw_row(line: Seq<char>) -> Option<SkillView> {
    let row = text::trimmed(line);
    let cells = text::pieces(row, '│');
    let status = text::trimmed(cells[1]);
    let name = text::trimmed(text::from_alphanumeric(text::trimmed(cells[2])));
    if !(row.len() > 0 && row[0] == '│') || "│ Status"@.is_prefix_of(row) {
        None
    } else if cells.len() < 5 {
        None
    } else if text::contains_text(status, "Status"@) || text::contains_text(status, "───"@) {
        None
    } else if name.len() == 0 {
        None
    } else {
        Some(
            SkillView {
                name,
                description: text::trimmed(cells[3]),
                author: text::trimmed(cells[4]),
                version: seq![],
                installed: status.contains('✓'),
                source: "bundled"@,
            },
        )
    }
}

/// The skills in the output of `openclaw skills list`.
pub open spec fn openclaw_skills(output: Seq<char>) -> Seq<SkillView> {
    collected(text::lines(output).map_values(|line: Seq<char>| openclaw_row(line)))
}

fn parse_openclaw_row(line: &[char]) -> (r: Option<Skill>)
    ensures
        text::option_view(r) == openclaw_row(line@),
{
    let row = text::trim(line);
    if !text::starts_with_char(row, '│') || text::starts_with(row, "│ Status") {
        return None;
    }
    let cells = text::split_char(row, '│');
    assert(cells@.len() == text::pieces(row@, '│').len());
    if cells.len() < 5 {
        return None;
    }
    assert(forall|i: int| 0 <= i < cells@.len() ==> text::slices(cells@)[i] == cells@[i]@);
    let status = text::trim(cells[1]);
    if text::contains(status, "Status") || text::contains(status, "───") {
        return None;
    }
    let name = text::trim(text::skip_to_alphanumeric(text::trim(cells[2])));
    if name.len() == 0 {
        return None;
    }
    Some(
        Skill {
            name: text::string_of(name),
            description: text::string_of(text::trim(cells[3])),
            author: text::string_of(text::trim(cells[4])),
            version: String::new(),
            installed: text::contains_char(status, '✓'),
            source: "bundled".to_string(),
        },
    )
}

/// Parse the table that `openclaw skills list` prints.
pub fn parse_openclaw_skills_output(output: &str) -> (r: Vec<Skill>)
    ensures
        skill_views(r@) == openclaw_skills(output@),
{
    let chars = text::chars_of(output);
    let lines = text::split_lines(chars.as_slice());
    let ghost all = text::lines(output@);
    let ghost rows = all.map_values(|line: Seq<char>| openclaw_row(line));
    let mut skills: Vec<Skill> = Vec::new();
    assert(skill_views(skills@) == collected(rows.take(0)));
    for i in 0..lines.len()
        invariant
            text::slices(lines@) == all,
            rows == all.map_values(|line: Seq<char>| openclaw_row(line)),
            skill_views(skills@) == collected(rows.take(i as int)),
    {
        assert(all[i as int] == lines@[i as int]@);
        let row = parse_openclaw_row(lines[i]);
        assert(rows.take(i + 1) == rows.take(i as int).push(text::option_view(row)));
        collect_row(&mut skills, row, Ghost(rows.take(i as int)));
    }
    assert(rows.take(rows.len() as int) == rows);
    skills
}

// ── Tables with box-drawing characters ───────────────────────────────

/// The text without escape sequences, each of which goes from an escape
/// character to the next `m`.
pub open spec fn without_escapes(s: Seq<char>) -> Seq<char>
    decreases s.len(),
{
    if s.len() == 0 {
        seq![]
    } else if s[0] == '\x1b' {
        let rest = s.drop_first();
        let k = text::position(rest, 'm') as int;
        if k >= rest.len() {
            seq![]
        } else {
            without_escapes(rest.skip(k + 1))
        }
    } else {
        seq![s[0]] + without_escapes(s.drop_first())
    }
}

/// Strip ANSI escape sequences (terminal colours) from a text, and the white
/// space around what is left.
pub fn strip_ansi(s: &str) -> (r: String)
    ensures
        r@ == text::trimmed(without_escapes(s@)),
{
    let chars = text::chars_of(s);
    let mut kept: Vec<char> = Vec::new();
    let mut i: usize = 0;
    assert(chars@.skip(0) == chars@);
    while i < chars.len()
        invariant
            i <= chars@.len(),
            kept@ + without_escapes(chars@.skip(i as int)) == without_escapes(chars@),
        decreases chars@.len() - i,
    {
        let ghost here = chars@.skip(i as int);
        let ghost before = kept@;
        assert(here.drop_first() == chars@.skip(i + 1));
        if chars[i] == '\x1b' {
            let rest = slice_subrange(chars.as_slice(), i + 1, chars.len());
            assert(rest@ == here.drop_first());
            let k = text::find_char(rest, 'm');
            if k == rest.len() {
                i = chars.len();
                assert(without_escapes(here) == Seq::<char>::empty());
            } else {
                i = i + 1 + k + 1;
                assert(here.drop_first().skip(k + 1) == chars@.skip(i as int));
            }
            assert(without_escapes(here) == without_escapes(chars@.skip(i as int)));
        } else {
            kept.push(chars[i]);
            i += 1;
            assert(kept@ + without_escapes(chars@.skip(i as int)) == before + (seq![here[0]]
                + without_escapes(chars@.skip(i as int))));
        }
    }
    assert(kept@ + without_escapes(chars@.skip(i as int)) == kept@);
    text::string_of(text::trim(kept.as_slice()))
}

/// Whether a line is the border of a table.
pub open spec fn is_border(row: Seq<char>) -> bool {
    row.len() > 0 && "┌└├╭╰╞"@.contains(row[0])
}

/// What a cell of a table holds, without escape sequences in it and white space
/// around it.
pub open spec fn cell_in(piece: Seq<char>) -> Seq<char> {
    text::trimmed(without_escapes(text::trimmed(piece)))
}

/// What the cells of a row hold; those that hold nothing are left out.
pub open spec fn filled_cells(v: Seq<Seq<char>>) -> Seq<Seq<char>>
    decreases v.len(),
{
    if v.len() == 0 {
        seq![]
    } else {
        let before = filled_cells(v.drop_last());
        let cell = cell_in(v.last());
        if cell.len() == 0 {
            before
        } else {
            before.push(cell)
        }
    }
}

/// The cells of a line with `│` between them, empty ones left out; none if the
/// line is no row of a table.
pub open spec fn row_cells(line: Seq<char>) -> Seq<Seq<char>> {
    let row = text::trimmed(line);
    if row.len() == 0 || is_border(row) || !row.contains('│') {
        seq![]
    } else {
        filled_cells(text::pieces(row, '│'))
    }
}

/// The rows of a table that have a cell, the header among them.
pub open spec fn filled_rows(lines: Seq<Seq<char>>) -> Seq<Seq<Seq<char>>>
    decreases lines.len(),
{
    if lines.len() == 0 {
        seq![]
    } else {
        let before = filled_rows(lines.drop_last());
        let cells = row_cells(lines.last());
        if cells.len() == 0 {
            before
        } else {
            before.push(cells)
        }
    }
}

/// The data rows of a table: all filled rows but the first, which is the
/// header.
pub open spec fn data_rows(output: Seq<char>) -> Seq<Seq<Seq<char>>> {
    let rows = filled_rows(text::lines(output));
    if rows.len() == 0 {
        seq![]
    } else {
        rows.drop_first()
    }
}

proof fn lemma_filled_rows_add(a: Seq<Seq<char>>, b: Seq<Seq<char>>)
    ensures
        filled_rows(a + b) == filled_rows(a) + filled_rows(b),
    decreases b.len(),
{
    if b.len() == 0 {
        assert(a + b == a);
    } else {
        lemma_filled_rows_add(a, b.drop_last());
        assert((a + b).drop_last() == a + b.drop_last());
        assert((a + b).last() == b.last());
    }
}

/// Whether a row has a cell, and none that is empty.
pub open spec fn is_filled_row(cells: Seq<Seq<char>>) -> bool {
    cells.len() > 0 && forall|i: int| 0 <= i < cells.len() ==> (#[trigger] cells[i]).len() > 0
}

proof fn lemma_cells_are_filled(v: Seq<Seq<char>>)
    ensures
        forall|i: int|
            0 <= i < filled_cells(v).len() ==> (#[trigger] filled_cells(v)[i]).len() > 0,
    decreases v.len(),
{
    if v.len() > 0 {
        let before = filled_cells(v.drop_last());
        lemma_cells_are_filled(v.drop_last());
        assert forall|i: int| 0 <= i < filled_cells(v).len() implies (#[trigger] filled_cells(
            v,
        )[i]).len() > 0 by {
            if i < before.len() {
                assert(filled_cells(v)[i] == before[i]);
            }
        }
    }
}

proof fn lemma_rows_are_filled(lines: Seq<Seq<char>>)
    ensures
        forall|i: int|
            0 <= i < filled_rows(lines).len() ==> is_filled_row(#[trigger] filled_rows(lines)[i]),
    decreases lines.len(),
{
    if lines.len() > 0 {
        let before = filled_rows(lines.drop_last());
        lemma_rows_are_filled(lines.drop_last());
        lemma_cells_are_filled(text::pieces(text::trimmed(lines.last()), '│'));
        assert forall|i: int| 0 <= i < filled_rows(lines).len() implies is_filled_row(
            #[trigger] filled_rows(lines)[i],
        ) by {
            if i < before.len() {
                assert(filled_rows(lines)[i] == before[i]);
            }
        }
    }
}

/// A data row has at least one cell, and none that is empty.
pub proof fn law_data_rows_have_cells(output: Seq<char>)
    ensures
        forall|row: Seq<Seq<char>>| #[trigger]
            data_rows(output).contains(row) ==> row.len() > 0,
        forall|row: Seq<Seq<char>>, i: int|
            #![trigger data_rows(output).contains(row), row[i]]
            data_rows(output).contains(row) && 0 <= i < row.len() ==> row[i].len() > 0,
{
    let rows = filled_rows(text::lines(output));
    lemma_rows_are_filled(text::lines(output));
    assert forall|row: Seq<Seq<char>>| #[trigger] data_rows(output).contains(
        row,
    ) implies is_filled_row(row) by {
        let k = choose|k: int| 0 <= k < data_rows(output).len() && data_rows(output)[k] == row;
        assert(rows[k + 1] == row);
    }
    assert forall|row: Seq<Seq<char>>, i: int|
        #![trigger data_rows(output).contains(row), row[i]]
        data_rows(output).contains(row) && 0 <= i < row.len() implies row[i].len() > 0 by {
        assert(is_filled_row(row));
    }
}

/// Whether `row_fn` may answer `row` for a row with the given cells.
pub open spec fn may_answer<F: Fn(&[&str]) -> Option<Skill>>(
    row_fn: F,
    cells: Seq<Seq<char>>,
    row: Option<Skill>,
) -> bool {
    exists|arg: &[&str]| text::strs(arg@) == cells && #[trigger] row_fn.ensures((arg,), row)
}

/// The views of the answers for a series of rows.
pub open spec fn answer_views(rows: Seq<Option<Skill>>) -> Seq<Option<SkillView>> {
    Seq::new(rows.len(), |i: int| text::option_view(rows[i]))
}

fn is_border_line(row: &[char]) -> (r: bool)
    ensures
        r == is_border(row@),
{
    row.len() > 0 && text::contains_char(text::chars_of("┌└├╭╰╞").as_slice(), row[0])
}

/// The cells of a line, empty ones left out.
fn split_row(line: &[char]) -> (r: Vec<String>)
    ensures
        text::texts(r@) == row_cells(line@),
{
    let row = text::trim(line);
    let mut cells: Vec<String> = Vec::new();
    if row.len() == 0 || is_border_line(row) || !text::contains_char(row, '│') {
        assert(text::texts(cells@) == row_cells(line@));
        return cells;
    }
    let parts = text::split_char(row, '│');
    let ghost all = text::pieces(row@, '│');
    assert(text::texts(cells@) == filled_cells(all.take(0)));
    for i in 0..parts.len()
        invariant
            text::slices(parts@) == all,
            text::texts(cells@) == filled_cells(all.take(i as int)),
    {
        let ghost before = text::texts(cells@);
        assert(all[i as int] == parts@[i as int]@);
        assert(all.take(i + 1).drop_last() == all.take(i as int));
        let cell = strip_ansi(text::string_of(text::trim(parts[i])).as_str());
        if !cell.as_str().is_empty() {
            let ghost added = cell@;
            cells.push(cell);
            assert(text::texts(cells@) == before.push(added));
        }
    }
    assert(all.take(all.len() as int) == all);
    cells
}

fn borrowed<'a>(v: &'a Vec<String>) -> (r: Vec<&'a str>)
    ensures
        text::strs(r@) == text::texts(v@),
{
    let mut r: Vec<&'a str> = Vec::new();
    for i in 0..v.len()
        invariant
            r@.len() == i,
            forall|j: int| 0 <= j < i ==> #[trigger] r@[j]@ == v@[j]@,
    {
        r.push(v[i].as_str());
    }
    assert(text::strs(r@) == text::texts(v@));
    r
}

/// Parse a table drawn with `│`, whose first row is a header. `row_fn` is
/// called for each data row with its non-empty cells, without escape sequences
/// in them. A cell of which nothing is left then is an empty one, and a row
/// without any other cell is no row.
pub fn parse_rich_table<F>(output: &str, row_fn: F) -> (r: Vec<Skill>) where
    F: Fn(&[&str]) -> Option<Skill>,

    requires
        forall|cells: &[&str]|
            data_rows(output@).contains(text::strs(cells@)) ==> #[trigger] row_fn.requires(
                (cells,),
            ),
    ensures
        exists|rows: Seq<Option<Skill>>|
            {
                &&& rows.len() == data_rows(output@).len()
                &&& forall|i: int|
                    0 <= i < rows.len() ==> may_answer(row_fn, data_rows(output@)[i], #[trigger] rows[i])
                &&& skill_views(r@) == collected(#[trigger] answer_views(rows))
            },
{
    let chars = text::chars_of(output);
    let lines = text::split_lines(chars.as_slice());
    let ghost all = text::lines(output@);
    let ghost mut rows: Seq<Option<Skill>> = seq![];
    let mut header_seen = false;
    let mut skills: Vec<Skill> = Vec::new();
    assert(skill_views(skills@) == collected(answer_views(rows)));
    assert(filled_rows(all.take(0)).len() == 0);
    for i in 0..lines.len()
        invariant
            text::slices(lines@) == all,
            all == text::lines(output@),
            forall|cells: &[&str]|
                data_rows(output@).contains(text::strs(cells@)) ==> #[trigger] row_fn.requires(
                    (cells,),
                ),
            header_seen == (filled_rows(all.take(i as int)).len() > 0),
            rows.len() == (if header_seen {
                filled_rows(all.take(i as int)).len() - 1
            } else {
                0
            }),
            forall|j: int|
                0 <= j < rows.len() ==> may_answer(
                    row_fn,
                    filled_rows(all.take(i as int))[j + 1],
                    #[trigger] rows[j],
                ),
            skill_views(skills@) == collected(answer_views(rows)),
    {
        let ghost before = filled_rows(all.take(i as int));
        assert(all[i as int] == lines@[i as int]@);
        assert(all.take(i + 1).drop_last() == all.take(i as int));
        let cells = split_row(lines[i]);
        assert(filled_rows(all.take(i + 1)) == (if cells@.len() == 0 {
            before
        } else {
            before.push(text::texts(cells@))
        }));
        if cells.len() > 0 {
            if !header_seen {
                header_seen = true;
            } else {
                let args = borrowed(&cells);
                proof {
                    let k = before.len() as int;
                    lemma_filled_rows_add(all.take(i + 1), all.skip(i + 1));
                    assert(all == all.take(i + 1) + all.skip(i + 1));
                    assert(filled_rows(all)[k] == text::texts(cells@));
                    assert(data_rows(output@)[k - 1] == text::strs(args@));
                }
                let row = row_fn(args.as_slice());
                proof {
                    assert(may_answer(row_fn, text::texts(cells@), row));
                    assert(answer_views(rows.push(row)) == answer_views(rows).push(
                        text::option_view(row),
                    ));
                }
                collect_row(&mut skills, row, Ghost(answer_views(rows)));
                proof {
                    rows = rows.push(row);
                }
            }
        }
    }
    assert(all.take(all.len() as int) == all);
    assert(forall|i: int|
        0 <= i < rows.len() ==> data_rows(output@)[i] == filled_rows(all)[i + 1]);
    skills
}

// ── The lists of a Hermes agent ──────────────────────────────────────

/// The `i`th cell, or an empty text if there are fewer.
pub open spec fn cell_at(cells: Seq<Seq<char>>, i: int) -> Seq<char> {
    if i < cells.len() {
        cells[i]
    } else {
        seq![]
    }
}

/// The skill in a row of `hermes skills list`, whose columns are name,
/// category, source and trust. Empty cells are left out of a row, so that the
/// later ones move up: without a category the source is taken for it, and the
/// trust for the source. Only installed skills are listed.
pub open spec fn hermes_row(cells: Seq<Seq<char>>) -> SkillView {
    let category = cell_at(cells, 1);
    let origin = cell_at(cells, 2);
    SkillView {
        name: cells[0],
        description: if category.len() == 0 {
            seq![]
        } else {
            "["@ + category + "]"@
        },
        author: origin,
        version: seq![],
        installed: true,
        source: if text::contains_text(origin, "hub"@) || origin == "official"@ {
            "hermes-hub"@
        } else {
            "bundled"@
        },
    }
}

/// The skills in the output of `hermes skills list`.
pub open spec fn hermes_skills(output: Seq<char>) -> Seq<SkillView> {
    collected(data_rows(output).map_values(|cells: Seq<Seq<char>>| Some(hermes_row(cells))))
}

fn cell_or_empty<'a>(cells: &[&'a str], i: usize) -> (r: &'a str)
    ensures
        r@ == cell_at(text::strs(cells@), i as int),
{
    if i < cells.len() {
        cells[i]
    } else {
        proof {
            reveal_strlit("");
        }
        assert(""@ == Seq::<char>::empty());
        ""
    }
}

fn read_hermes_row(cells: &[&str]) -> (r: Option<Skill>)
    requires
        cells@.len() > 0,
    ensures
        text::option_view(r) == Some(hermes_row(text::strs(cells@))),
{
    let category = cell_or_empty(cells, 1);
    let origin = cell_or_empty(cells, 2);
    let origin_chars = text::chars_of(origin);
    let source = if text::contains(origin_chars.as_slice(), "hub") || text::same_str(
        origin,
        "official",
    ) {
        "hermes-hub"
    } else {
        "bundled"
    };
    Some(
        Skill {
            name: cells[0].to_string(),
            description: if category.is_empty() {
                String::new()
            } else {
                text::concat3("[", category, "]")
            },
            author: origin.to_string(),
            version: String::new(),
            installed: true,
            source: source.to_string(),
        },
    )
}

/// Parse the table that `hermes skills list` prints: every skill in it is
/// installed. An empty cell of a row is left out, and the later ones move up.
pub fn parse_hermes_skills_output(output: &str) -> (r: Vec<Skill>)
    ensures
        skill_views(r@) == hermes_skills(output@),
{
    let row_fn = |cells: &[&str]| -> (row: Option<Skill>)
        requires
            cells@.len() > 0,
        ensures
            text::option_view(row) == Some(hermes_row(text::strs(cells@))),
        { read_hermes_row(cells) };
    proof {
        law_data_rows_have_cells(output@);
        assert forall|cells: &[&str]| data_rows(output@).contains(
            text::strs(cells@),
        ) implies #[trigger] row_fn.requires((cells,)) by {
            assert(text::strs(cells@).len() == cells@.len());
        }
    }
    let r = parse_rich_table(output, row_fn);
    proof {
        let table = data_rows(output@);
        let rows = choose|rows: Seq<Option<Skill>>|
            {
                &&& rows.len() == table.len()
                &&& forall|i: int|
                    0 <= i < rows.len() ==> may_answer(row_fn, table[i], #[trigger] rows[i])
                &&& skill_views(r@) == collected(#[trigger] answer_views(rows))
            };
        let expected = table.map_values(|cells: Seq<Seq<char>>| Some(hermes_row(cells)));
        assert forall|i: int| 0 <= i < rows.len() implies answer_views(rows)[i] == expected[i] by {
            assert(may_answer(row_fn, table[i], rows[i]));
        }
        assert(answer_views(rows) == expected);
    }
    r
}

/// Whether the text is made of decimal digits.
pub open spec fn is_numeric(s: Seq<char>) -> bool {
    forall|i: int| 0 <= i < s.len() ==> text::is_ascii_digit(#[trigger] s[i])
}

/// The skill in a row of `hermes skills search` or `hermes skills browse`. The
/// latter has a column with the row's number before name and description.
/// Empty cells are left out of a row, so that the later ones move up.
pub open spec fn hermes_search_row(cells: Seq<Seq<char>>) -> Option<SkillView> {
    let first: int = if is_numeric(cells[0]) {
        1
    } else {
        0
    };
    if cell_at(cells, first).len() == 0 {
        None
    } else {
        Some(
            SkillView {
                name: cells[first],
                description: cell_at(cells, first + 1),
                author: seq![],
                version: seq![],
                installed: false,
                source: "hermes-hub"@,
            },
        )
    }
}

/// The skills in the output of `hermes skills search` or `hermes skills browse`.
pub open spec fn hermes_search_skills(output: Seq<char>) -> Seq<SkillView> {
    collected(data_rows(output).map_values(|cells: Seq<Seq<char>>| hermes_search_row(cells)))
}

fn numeric(s: &str) -> (r: bool)
    ensures
        r == is_numeric(s@),
{
    let chars = text::chars_of(s);
    for i in 0..chars.len()
        invariant
            chars@ == s@,
            forall|j: int| 0 <= j < i ==> text::is_ascii_digit(#[trigger] s@[j]),
    {
        if !text::ascii_digit(chars[i]) {
            assert(!text::is_ascii_digit(s@[i as int]));
            return false;
        }
    }
    true
}

fn read_hermes_search_row(cells: &[&str]) -> (r: Option<Skill>)
    requires
        cells@.len() > 0,
    ensures
        text::option_view(r) == hermes_search_row(text::strs(cells@)),
{
    let first: usize = if numeric(cells[0]) {
        1
    } else {
        0
    };
    let name = cell_or_empty(cells, first);
    if name.is_empty() {
        return None;
    }
    Some(
        Skill {
            name: name.to_string(),
            description: cell_or_empty(cells, first + 1).to_string(),
            author: String::new(),
            version: String::new(),
            installed: false,
            source: "hermes-hub".to_string(),
        },
    )
}

/// Parse the table that `hermes skills search` or `hermes skills browse` prints.
pub fn parse_hermes_search_output(output: &str) -> (r: Vec<Skill>)
    ensures
        skill_views(r@) == hermes_search_skills(output@),
{
    let row_fn = |cells: &[&str]| -> (row: Option<Skill>)
        requires
            cells@.len() > 0,
        ensures
            text::option_view(row) == hermes_search_row(text::strs(cells@)),
        { read_hermes_search_row(cells) };
    proof {
        law_data_rows_have_cells(output@);
        assert forall|cells: &[&str]| data_rows(output@).contains(
            text::strs(cells@),
        ) implies #[trigger] row_fn.requires((cells,)) by {
            assert(text::strs(cells@).len() == cells@.len());
        }
    }
    let r = parse_rich_table(output, row_fn);
    proof {
        let table = data_rows(output@);
        let rows = choose|rows: Seq<Option<Skill>>|
            {
                &&& rows.len() == table.len()
                &&& forall|i: int|
                    0 <= i < rows.len() ==> may_answer(row_fn, table[i], #[trigger] rows[i])
                &&& skill_views(r@) == collected(#[trigger] answer_views(rows))
            };
        let expected = table.map_values(|cells: Seq<Seq<char>>| hermes_search_row(cells));
        assert forall|i: int| 0 <= i < rows.len() implies answer_views(rows)[i] == expected[i] by {
            assert(may_answer(row_fn, table[i], rows[i]));
        }
        assert(answer_views(rows) == expected);
    }
    r
}

// ── The search of the skill registry ─────────────────────────────────

/// The skill in one line of the output of `clawhub search`, if it is a hit:
/// `slug  Title  (score)`, with two spaces after the slug.
pub open spec fn clawhub_row(line: Seq<char>) -> Option<SkillView> {
    let row = text::trimmed(line);
    if row.len() == 0 || row[0] == '-' || "npm "@.is_prefix_of(row) || "error"@.is_prefix_of(row) {
        None
    } else {
        match text::text_position(row, "  "@) {
            None => None,
            Some(k) => {
                let slug = text::trimmed(row.take(k));
                let rest = text::trimmed(row.skip(k + 2));
                if slug.len() == 0 {
                    None
                } else {
                    Some(
                        SkillView {
                            name: slug,
                            description: match text::last_position(rest, '(') {
                                Some(paren) => text::trimmed(rest.take(paren)),
                                None => rest,
                            },
                            author: seq![],
                            version: seq![],
                            installed: false,
                            source: "clawhub"@,
                        },
                    )
                }
            },
        }
    }
}

/// The skills in the output of `clawhub search`.
pub open spec fn clawhub_skills(output: Seq<char>) -> Seq<SkillView> {
    collected(text::lines(output).map_values(|line: Seq<char>| clawhub_row(line)))
}

fn parse_clawhub_row(line: &[char]) -> (r: Option<Skill>)
    ensures
        text::option_view(r) == clawhub_row(line@),
{
    let row = text::trim(line);
    if row.len() == 0 || text::starts_with_char(row, '-') || text::starts_with(row, "npm ")
        || text::starts_with(row, "error") {
        return None;
    }
    proof {
        reveal_strlit("  ");
    }
    let k = match text::find_text(row, "  ") {
        Some(k) => k,
        None => {
            return None;
        },
    };
    let before = slice_subrange(row, 0, k);
    let after = slice_subrange(row, k + 2, row.len());
    assert(before@ == row@.take(k as int));
    assert(after@ == row@.skip(k + 2));
    let slug = text::trim(before);
    if slug.len() == 0 {
        return None;
    }
    let rest = text::trim(after);
    let description = match text::rfind_char(rest, '(') {
        Some(paren) => {
            assert(rest@.subrange(0, paren as int) == rest@.take(paren as int));
            text::trim(slice_subrange(rest, 0, paren))
        },
        None => rest,
    };
    Some(
        Skill {
            name: text::string_of(slug),
            description: text::string_of(description),
            author: String::new(),
            version: String::new(),
            installed: false,
            source: "clawhub".to_string(),
        },
    )
}

/// Parse the hits that `clawhub search` prints, one a line.
pub fn parse_clawhub_search_output(output: &str) -> (r: Vec<Skill>)
    ensures
        skill_views(r@) == clawhub_skills(output@),
{
    let chars = text::chars_of(output);
    let lines = text::split_lines(chars.as_slice());
    let ghost all = text::lines(output@);
    let ghost rows = all.map_values(|line: Seq<char>| clawhub_row(line));
    let mut skills: Vec<Skill> = Vec::new();
    assert(skill_views(skills@) == collected(rows.take(0)));
    for i in 0..lines.len()
        invariant
            text::slices(lines@) == all,
            rows == all.map_values(|line: Seq<char>| clawhub_row(line)),
            skill_views(skills@) == collected(rows.take(i as int)),
    {
        assert(all[i as int] == lines@[i as int]@);
        let row = parse_clawhub_row(lines[i]);
        assert(rows.take(i + 1) == rows.take(i as int).push(text::option_view(row)));
        collect_row(&mut skills, row, Ghost(rows.take(i as int)));
    }
    assert(rows.take(rows.len() as int) == rows);
    skills
}

// ── What holds of a skill list ───────────────────────────────────────

/// The position of the first row with a skill of the given name, or the number
/// of rows if there is none.
pub open spec fn first_row(rows: Seq<Option<SkillView>>, name: Seq<char>) -> int
    decreases rows.len(),
{
    if rows.len() == 0 {
        0
    } else if rows[0] is Some && rows[0]->0.name == name {
        0
    } else {
        1 + first_row(rows.drop_first(), name)
    }
}

proof fn lemma_first_row(rows: Seq<Option<SkillView>>, name: Seq<char>)
    ensures
        0 <= first_row(rows, name) <= rows.len(),
        first_row(rows, name) < rows.len() ==> rows[first_row(rows, name)] is Some && rows[first_row(
            rows,
            name,
        )]->0.name == name,
        forall|i: int|
            0 <= i < first_row(rows, name) && #[trigger] rows[i] is Some ==> rows[i]->0.name != name,
    decreases rows.len(),
{
    if rows.len() > 0 && !(rows[0] is Some && rows[0]->0.name == name) {
        let rest = rows.drop_first();
        lemma_first_row(rest, name);
        assert forall|i: int|
            0 <= i < first_row(rows, name) && #[trigger] rows[i] is Some implies rows[i]->0.name
            != name by {
            if i > 0 {
                assert(rest[i - 1] == rows[i]);
            }
        }
    }
}

/// A row behind the first one with a name does not change which that is.
proof fn lemma_first_row_push(rows: Seq<Option<SkillView>>, row: Option<SkillView>, name: Seq<char>)
    ensures
        first_row(rows, name) < rows.len() ==> first_row(rows.push(row), name) == first_row(
            rows,
            name,
        ),
        first_row(rows, name) == rows.len() && row is Some && row->0.name == name ==> first_row(
            rows.push(row),
            name,
        ) == rows.len(),
    decreases rows.len(),
{
    let all = rows.push(row);
    if rows.len() == 0 {
        assert(all[0] == row);
    } else if !(rows[0] is Some && rows[0]->0.name == name) {
        lemma_first_row_push(rows.drop_first(), row, name);
        assert(all.drop_first() == rows.drop_first().push(row));
    }
}

/// Whether every skill has a name, and no two have the same.
pub open spec fn names_each_once(skills: Seq<SkillView>) -> bool {
    &&& forall|i: int| 0 <= i < skills.len() ==> (#[trigger] skills[i]).name.len() > 0
    &&& forall|i: int, j: int|
        0 <= i < j < skills.len() ==> (#[trigger] skills[i]).name != (#[trigger] skills[j]).name
}

/// A list names each skill once.
pub proof fn law_names_are_distinct(rows: Seq<Option<SkillView>>)
    ensures
        names_each_once(collected(rows)),
    decreases rows.len(),
{
    if rows.len() > 0 {
        law_names_are_distinct(rows.drop_last());
        let before = collected(rows.drop_last());
        let now = collected(rows);
        assert forall|i: int, j: int| 0 <= i < j < now.len() implies (#[trigger] now[i]).name != (
        #[trigger] now[j]).name by {
            assert(now[i] == before[i]);
            if j < before.len() {
                assert(now[j] == before[j]);
            }
        }
    }
}

/// Whatever an agent's tool prints, each skill is named once in what is read
/// in it.
pub proof fn law_parsed_names_are_distinct(output: Seq<char>)
    ensures
        names_each_once(openclaw_skills(output)),
        names_each_once(hermes_skills(output)),
        names_each_once(hermes_search_skills(output)),
        names_each_once(clawhub_skills(output)),
{
    law_names_are_distinct(
        text::lines(output).map_values(|line: Seq<char>| openclaw_row(line)),
    );
    law_names_are_distinct(
        data_rows(output).map_values(|cells: Seq<Seq<char>>| Some(hermes_row(cells))),
    );
    law_names_are_distinct(
        data_rows(output).map_values(|cells: Seq<Seq<char>>| hermes_search_row(cells)),
    );
    law_names_are_distinct(text::lines(output).map_values(|line: Seq<char>| clawhub_row(line)));
}

/// Every entry of a list is the skill of the first row with its name.
pub proof fn law_first_row_wins(rows: Seq<Option<SkillView>>)
    ensures
        forall|i: int|
            #![trigger collected(rows)[i]]
            0 <= i < collected(rows).len() ==> {
                let k = first_row(rows, collected(rows)[i].name);
                k < rows.len() && rows[k] == Some(collected(rows)[i])
            },
    decreases rows.len(),
{
    if rows.len() > 0 {
        let init = rows.drop_last();
        let before = collected(init);
        let now = collected(rows);
        law_first_row_wins(init);
        law_every_name_is_listed(init);
        assert(init.push(rows.last()) == rows);
        assert forall|i: int| #![trigger now[i]] 0 <= i < now.len() implies {
            let k = first_row(rows, now[i].name);
            k < rows.len() && rows[k] == Some(now[i])
        } by {
            lemma_first_row(init, now[i].name);
            lemma_first_row_push(init, rows.last(), now[i].name);
            if i < before.len() {
                assert(now[i] == before[i]);
            } else {
                let k = first_row(init, now[i].name);
                if k < init.len() {
                    assert(has_name(before, now[i].name));
                }
            }
        }
    }
}

/// The name of every row that has one is in the list.
pub proof fn law_every_name_is_listed(rows: Seq<Option<SkillView>>)
    ensures
        forall|k: int|
            0 <= k < rows.len() && (#[trigger] rows[k]) is Some && rows[k]->0.name.len() > 0
                ==> has_name(collected(rows), rows[k]->0.name),
    decreases rows.len(),
{
    if rows.len() > 0 {
        let init = rows.drop_last();
        let before = collected(init);
        let now = collected(rows);
        law_every_name_is_listed(init);
        assert forall|k: int|
            0 <= k < rows.len() && (#[trigger] rows[k]) is Some && rows[k]->0.name.len()
                > 0 implies has_name(now, rows[k]->0.name) by {
            let name = rows[k]->0.name;
            if k < init.len() {
                assert(init[k] == rows[k]);
                assert(has_name(before, name));
            }
            if has_name(before, name) {
                let i = choose|i: int| 0 <= i < before.len() && #[trigger] before[i].name == name;
                assert(now[i] == before[i]);
            } else {
                assert(now.last().name == name);
                assert(now[now.len() - 1].name == name);
            }
        }
    }
}

/// The skills of a list keep what holds of all rows.
proof fn lemma_rows_decide(rows: Seq<Option<SkillView>>, p: spec_fn(SkillView) -> bool)
    requires
        forall|k: int| 0 <= k < rows.len() && (#[trigger] rows[k]) is Some ==> p(rows[k]->0),
    ensures
        forall|i: int| 0 <= i < collected(rows).len() ==> p(#[trigger] collected(rows)[i]),
    decreases rows.len(),
{
    if rows.len() > 0 {
        let init = rows.drop_last();
        assert forall|k: int| 0 <= k < init.len() && (#[trigger] init[k]) is Some implies p(
            init[k]->0,
        ) by {
            assert(init[k] == rows[k]);
        }
        lemma_rows_decide(init, p);
        let now = collected(rows);
        assert forall|i: int| 0 <= i < now.len() implies p(#[trigger] now[i]) by {
            if i < collected(init).len() {
                assert(now[i] == collected(init)[i]);
            } else {
                assert(rows[rows.len() - 1] is Some);
            }
        }
    }
}

/// The skills an OpenClaw agent lists come with it.
pub proof fn law_openclaw_skills_are_bundled(output: Seq<char>)
    ensures
        forall|i: int|
            0 <= i < openclaw_skills(output).len() ==> (#[trigger] openclaw_skills(output)[i]).source
                == "bundled"@,
{
    let rows = text::lines(output).map_values(|line: Seq<char>| openclaw_row(line));
    lemma_rows_decide(rows, |s: SkillView| s.source == "bundled"@);
}

/// All skills that a Hermes agent lists are installed.
pub proof fn law_hermes_skills_are_installed(output: Seq<char>)
    ensures
        forall|i: int|
            0 <= i < hermes_skills(output).len() ==> (#[trigger] hermes_skills(output)[i]).installed,
{
    let rows = data_rows(output).map_values(|cells: Seq<Seq<char>>| Some(hermes_row(cells)));
    lemma_rows_decide(rows, |s: SkillView| s.installed);
}

/// Whether a skill is one that a search of the given place found: it is not
/// installed, and neither author nor version is known.
pub open spec fn is_found(skill: SkillView, source: Seq<char>) -> bool {
    !skill.installed && skill.source == source && skill.author.len() == 0 && skill.version.len()
        == 0
}

/// What a search finds is not installed, comes from the place searched, and
/// has neither author nor version.
pub proof fn law_found_skills_are_not_installed(output: Seq<char>)
    ensures
        forall|i: int|
            0 <= i < clawhub_skills(output).len() ==> is_found(
                #[trigger] clawhub_skills(output)[i],
                "clawhub"@,
            ),
        forall|i: int|
            0 <= i < hermes_search_skills(output).len() ==> is_found(
                #[trigger] hermes_search_skills(output)[i],
                "hermes-hub"@,
            ),
{
    let hits = text::lines(output).map_values(|line: Seq<char>| clawhub_row(line));
    lemma_rows_decide(hits, |s: SkillView| is_found(s, "clawhub"@));
    let rows = data_rows(output).map_values(|cells: Seq<Seq<char>>| hermes_search_row(cells));
    lemma_rows_decide(rows, |s: SkillView| is_found(s, "hermes-hub"@));
}

// ── What holds of one output after another ───────────────────────────

/// The skills whose names are not among the listed ones.
pub open spec fn new_skills(listed: Seq<SkillView>, more: Seq<SkillView>) -> Seq<SkillView> {
    more.filter(|skill: SkillView| !has_name(listed, skill.name))
}

/// The list of one series of rows after another is that of the first one, and
/// then what is new in that of the second one.
pub proof fn law_rows_add_up(a: Seq<Option<SkillView>>, b: Seq<Option<SkillView>>)
    ensures
        collected(a + b) == collected(a) + new_skills(collected(a), collected(b)),
    decreases b.len(),
{
    let x = collected(a);
    let is_new = |skill: SkillView| !has_name(x, skill.name);
    reveal(Seq::filter);
    if b.len() == 0 {
        assert(a + b == a);
    } else {
        let init = b.drop_last();
        let y = collected(init);
        let before = x + y.filter(is_new);
        law_rows_add_up(a, init);
        assert((a + b).drop_last() == a + init);
        assert((a + b).last() == b.last());
        assert(collected(a + init) == before);
        if let Some(skill) = b.last() {
            let name = skill.name;
            assert(y.push(skill).drop_last() == y);
            if has_name(x, name) {
                let i = choose|i: int| 0 <= i < x.len() && #[trigger] x[i].name == name;
                assert(before[i].name == name);
            } else if has_name(y, name) {
                let i = choose|i: int| 0 <= i < y.len() && #[trigger] y[i].name == name;
                y.lemma_filter_contains(is_new, i);
                let j = choose|j: int|
                    0 <= j < y.filter(is_new).len() && y.filter(is_new)[j] == y[i];
                assert(before[x.len() + j].name == name);
            } else {
                if has_name(before, name) {
                    let i = choose|i: int|
                        0 <= i < before.len() && #[trigger] before[i].name == name;
                    if i < x.len() {
                        assert(x[i].name == name);
                    } else {
                        let kept = y.filter(is_new)[i - x.len()];
                        assert(y.filter(is_new).contains(kept));
                        y.lemma_filter_contains_rev(is_new, kept);
                        let j = choose|j: int| 0 <= j < y.len() && y[j] == kept;
                        assert(y[j].name == name);
                    }
                }
                if name.len() > 0 {
                    assert(before.push(skill) == x + y.filter(is_new).push(skill));
                }
            }
        }
    }
}

/// What the rows of a text are that is followed by a line break: those of its
/// lines, and possibly one that holds nothing.
proof fn lemma_ended_rows(s: Seq<char>, row: spec_fn(Seq<char>) -> Option<SkillView>)
    requires
        row(seq![]) is None,
        forall|line: Seq<char>|
            row(#[trigger] text::without_carriage_return(line)) == row(line),
    ensures
        text::ended_lines(s).map_values(row) == text::lines(s).map_values(row)
            || text::ended_lines(s).map_values(row) == text::lines(s).map_values(row).push(None),
    decreases s.len(),
{
    text::lemma_position(s, '\n');
    let k = text::position(s, '\n') as int;
    let ended = text::ended_lines(s);
    let all = text::lines(s);
    if k < s.len() {
        let first = text::without_carriage_return(s.take(k));
        let rest = s.skip(k + 1);
        lemma_ended_rows(rest, row);
        let more = text::lines(rest).map_values(row);
        assert(ended.map_values(row) =~= seq![row(first)] + text::ended_lines(rest).map_values(
            row,
        ));
        assert(all.map_values(row) =~= seq![row(first)] + more);
        assert(seq![row(first)] + more.push(None) =~= (seq![row(first)] + more).push(None));
    } else if s.len() == 0 {
        assert(text::without_carriage_return(s) == s);
        assert(s == Seq::<char>::empty());
        assert(ended.map_values(row) =~= all.map_values(row).push(None));
    } else {
        assert(row(text::without_carriage_return(s)) == row(s));
        assert(ended.map_values(row) =~= all.map_values(row));
    }
}

proof fn lemma_outputs_add_up(
    a: Seq<char>,
    b: Seq<char>,
    row: spec_fn(Seq<char>) -> Option<SkillView>,
)
    requires
        row(seq![]) is None,
        forall|line: Seq<char>|
            row(#[trigger] text::without_carriage_return(line)) == row(line),
    ensures
        ({
            let first = collected(text::lines(a).map_values(row));
            let second = collected(text::lines(b).map_values(row));
            collected(text::lines(a + seq!['\n'] + b).map_values(row)) == first + new_skills(
                first,
                second,
            )
        }),
{
    let rows = text::lines(a).map_values(row);
    let ended = text::ended_lines(a).map_values(row);
    let more = text::lines(b).map_values(row);
    text::lemma_lines_add(a, b);
    lemma_ended_rows(a, row);
    assert(text::lines(a + seq!['\n'] + b).map_values(row) =~= ended + more);
    assert(rows.push(None).drop_last() == rows);
    assert(collected(ended) == collected(rows));
    law_rows_add_up(ended, more);
}

/// The list of two outputs with a line break between them is that of the first
/// one, and then what is new in that of the second one: later lines never
/// change, move or remove what earlier ones gave.
pub proof fn law_openclaw_outputs_add_up(a: Seq<char>, b: Seq<char>)
    ensures
        openclaw_skills(a + seq!['\n'] + b) == openclaw_skills(a) + new_skills(
            openclaw_skills(a),
            openclaw_skills(b),
        ),
{
    let row = |line: Seq<char>| openclaw_row(line);
    assert forall|line: Seq<char>| row(#[trigger] text::without_carriage_return(line)) == row(
        line,
    ) by {
        text::lemma_return_is_trimmed(line);
    }
    lemma_outputs_add_up(a, b, row);
}

/// The list of two outputs with a line break between them is that of the first
/// one, and then what is new in that of the second one. The list of an empty
/// output is empty.
pub proof fn law_clawhub_outputs_add_up(a: Seq<char>, b: Seq<char>)
    ensures
        clawhub_skills(a + seq!['\n'] + b) == clawhub_skills(a) + new_skills(
            clawhub_skills(a),
            clawhub_skills(b),
        ),
        clawhub_skills(seq![]).len() == 0,
{
    let row = |line: Seq<char>| clawhub_row(line);
    assert forall|line: Seq<char>| row(#[trigger] text::without_carriage_return(line)) == row(
        line,
    ) by {
        text::lemma_return_is_trimmed(line);
    }
    lemma_outputs_add_up(a, b, row);
    assert(text::lines(seq![]).len() == 0);
}

// ── What holds of drawn tables ───────────────────────────────────────

/// What stands behind the first `│` of a drawn row.
pub open spec fn cells_text(cells: Seq<Seq<char>>) -> Seq<char>
    decreases cells.len(),
{
    if cells.len() == 0 {
        seq![]
    } else {
        (seq![' '] + cells[0] + seq![' ']) + seq!['│'] + cells_text(cells.drop_first())
    }
}

/// A row of a table as it is drawn: `│ a │ b │`.
pub open spec fn drawn_row(cells: Seq<Seq<char>>) -> Seq<char> {
    seq!['│'] + cells_text(cells)
}

/// A table as it is drawn, line by line: a header and rows.
pub open spec fn drawn_table(header: Seq<char>, rows: Seq<Seq<Seq<char>>>) -> Seq<char> {
    header + seq!['\n'] + text::joined(
        rows.map_values(|cells: Seq<Seq<char>>| drawn_row(cells)),
        seq!['\n'],
    )
}

/// Whether a text can stand in a cell: it is not blank, and has no border, line
/// feed or escape character in it.
pub open spec fn is_plain_cell(cell: Seq<char>) -> bool {
    text::trimmed(cell).len() > 0 && !cell.contains('│') && !cell.contains('\n')
        && !cell.contains('\x1b')
}

pub open spec fn is_plain_row(cells: Seq<Seq<char>>) -> bool {
    cells.len() > 0 && forall|i: int| 0 <= i < cells.len() ==> is_plain_cell(#[trigger] cells[i])
}

/// Whether a line can be the header of a drawn table.
pub open spec fn is_header(line: Seq<char>) -> bool {
    !line.contains('\n') && row_cells(line).len() > 0
}

/// Cells without white space around them.
pub open spec fn trimmed_cells(cells: Seq<Seq<char>>) -> Seq<Seq<char>> {
    cells.map_values(|cell: Seq<char>| text::trimmed(cell))
}

proof fn lemma_filled_cells_add(a: Seq<Seq<char>>, b: Seq<Seq<char>>)
    ensures
        filled_cells(a + b) == filled_cells(a) + filled_cells(b),
    decreases b.len(),
{
    if b.len() == 0 {
        assert(a + b == a);
    } else {
        lemma_filled_cells_add(a, b.drop_last());
        assert((a + b).drop_last() == a + b.drop_last());
        assert((a + b).last() == b.last());
    }
}

proof fn lemma_filled_cell(piece: Seq<char>)
    ensures
        filled_cells(seq![piece]) == (if cell_in(piece).len() == 0 {
            seq![]
        } else {
            seq![cell_in(piece)]
        }),
{
    assert(seq![piece].drop_last() == Seq::<Seq<char>>::empty());
    assert(filled_cells(seq![piece].drop_last()) == Seq::<Seq<char>>::empty());
}

proof fn lemma_cells_text(cells: Seq<Seq<char>>)
    requires
        forall|i: int| 0 <= i < cells.len() ==> is_plain_cell(#[trigger] cells[i]),
    ensures
        filled_cells(text::pieces(cells_text(cells), '│')) == trimmed_cells(cells),
        !cells_text(cells).contains('\n'),
        cells.len() > 0 ==> cells_text(cells).len() > 0 && cells_text(cells).last() == '│',
    decreases cells.len(),
{
    let s = cells_text(cells);
    if cells.len() == 0 {
        text::lemma_position(s, '│');
        assert(text::pieces(s, '│') == seq![s]);
        lemma_filled_cell(s);
        assert(cell_in(s).len() == 0);
    } else {
        let cell = cells[0];
        let padded = seq![' '] + cell + seq![' '];
        let rest = cells.drop_first();
        assert(is_plain_cell(cells[0]));
        assert forall|i: int| 0 <= i < rest.len() implies is_plain_cell(#[trigger] rest[i]) by {
            assert(rest[i] == cells[i + 1]);
        }
        lemma_cells_text(rest);
        assert forall|c: char| c != ' ' && padded.contains(c) implies cell.contains(c) by {
            let i = choose|i: int| 0 <= i < padded.len() && padded[i] == c;
            assert(cell[i - 1] == c);
        }
        text::lemma_padding_is_trimmed(cell);
        law_plain_text_is_kept(text::trimmed(cell));
        assert(cell_in(padded) == text::trimmed(cell));
        text::lemma_pieces_first(padded, cells_text(rest), '│');
        lemma_filled_cells_add(seq![padded], text::pieces(cells_text(rest), '│'));
        lemma_filled_cell(padded);
        assert(seq![text::trimmed(cell)] + trimmed_cells(rest) =~= trimmed_cells(cells));
        if s.contains('\n') {
            let i = choose|i: int| 0 <= i < s.len() && s[i] == '\n';
            if i < padded.len() {
                assert(padded[i] == '\n');
            } else if i > padded.len() {
                assert(cells_text(rest)[i - padded.len() - 1] == '\n');
            }
        }
    }
}

/// A drawn row is a line of its own, and read as the cells it was drawn from.
proof fn lemma_drawn_row(cells: Seq<Seq<char>>)
    requires
        is_plain_row(cells),
    ensures
        row_cells(drawn_row(cells)) == trimmed_cells(cells),
        !drawn_row(cells).contains('\n'),
        drawn_row(cells).len() > 0,
        drawn_row(cells).last() == '│',
{
    let s = drawn_row(cells);
    let rest = cells_text(cells);
    lemma_cells_text(cells);
    assert(s[0] == '│' && s.last() == '│');
    text::lemma_trim_kept(s, text::blank());
    reveal_strlit("┌└├╭╰╞");
    assert(!is_border(s)) by {
        let borders = "┌└├╭╰╞"@;
        assert(borders.len() == 6);
        assert(forall|i: int| 0 <= i < borders.len() ==> borders[i] != '│');
    }
    assert(s.contains(s[0]));
    assert(s == Seq::<char>::empty() + seq!['│'] + rest);
    text::lemma_pieces_first(seq![], rest, '│');
    lemma_filled_cells_add(seq![seq![]], text::pieces(rest, '│'));
    lemma_filled_cell(seq![]);
    assert(cell_in(Seq::<char>::empty()).len() == 0);
    assert(row_cells(s) =~= trimmed_cells(cells));
    if s.contains('\n') {
        let i = choose|i: int| 0 <= i < s.len() && s[i] == '\n';
        assert(rest[i - 1] == '\n');
    }
}

proof fn lemma_drawn_rows(rows: Seq<Seq<Seq<char>>>)
    requires
        forall|k: int| 0 <= k < rows.len() ==> is_plain_row(#[trigger] rows[k]),
    ensures
        filled_rows(rows.map_values(|cells: Seq<Seq<char>>| drawn_row(cells)))
            == rows.map_values(|cells: Seq<Seq<char>>| trimmed_cells(cells)),
    decreases rows.len(),
{
    let drawn = rows.map_values(|cells: Seq<Seq<char>>| drawn_row(cells));
    let read = rows.map_values(|cells: Seq<Seq<char>>| trimmed_cells(cells));
    if rows.len() > 0 {
        let init = rows.drop_last();
        assert forall|k: int| 0 <= k < init.len() implies is_plain_row(#[trigger] init[k]) by {
            assert(init[k] == rows[k]);
        }
        lemma_drawn_rows(init);
        assert(is_plain_row(rows[rows.len() - 1]));
        lemma_drawn_row(rows.last());
        assert(drawn.drop_last() =~= init.map_values(|cells: Seq<Seq<char>>| drawn_row(cells)));
        assert(read =~= init.map_values(|cells: Seq<Seq<char>>| trimmed_cells(cells)).push(
            trimmed_cells(rows.last()),
        ));
        assert(row_cells(drawn.last()).len() == rows.last().len());
    } else {
        assert(filled_rows(drawn) =~= read);
    }
}

/// A table is read as the rows it was drawn from, without white space around
/// the cells.
pub proof fn law_drawn_table_is_read(header: Seq<char>, rows: Seq<Seq<Seq<char>>>)
    requires
        is_header(header),
        forall|k: int| 0 <= k < rows.len() ==> is_plain_row(#[trigger] rows[k]),
    ensures
        data_rows(drawn_table(header, rows)) == rows.map_values(
            |cells: Seq<Seq<char>>| trimmed_cells(cells),
        ),
{
    let drawn = rows.map_values(|cells: Seq<Seq<char>>| drawn_row(cells));
    let read = rows.map_values(|cells: Seq<Seq<char>>| trimmed_cells(cells));
    let body = text::joined(drawn, seq!['\n']);
    let first = text::without_carriage_return(header);
    assert forall|k: int| 0 <= k < drawn.len() implies !(#[trigger] drawn[k]).contains('\n')
        && drawn[k].len() > 0 && !text::ends_with_return(drawn[k]) by {
        assert(is_plain_row(rows[k]));
        lemma_drawn_row(rows[k]);
    }
    text::lemma_lines_of_joined(drawn);
    text::lemma_lines_add(header, body);
    text::lemma_position(header, '\n');
    assert(text::ended_lines(header) == seq![first]);
    text::lemma_return_is_trimmed(header);
    assert(row_cells(first) == row_cells(header));
    assert(seq![first].drop_last() == Seq::<Seq<char>>::empty());
    assert(filled_rows(seq![first].drop_last()) == Seq::<Seq<Seq<char>>>::empty());
    assert(filled_rows(seq![first]) =~= seq![row_cells(header)]);
    lemma_filled_rows_add(seq![first], drawn);
    lemma_drawn_rows(rows);
    let all = filled_rows(text::lines(drawn_table(header, rows)));
    assert(all == seq![row_cells(header)] + read);
    assert(all.drop_first() =~= read);
    assert(data_rows(drawn_table(header, rows)) =~= read);
}

/// Rows with a number before the cells of each.
pub open spec fn numbered(rows: Seq<Seq<Seq<char>>>, numbers: Seq<Seq<char>>) -> Seq<
    Seq<Seq<char>>,
> {
    Seq::new(rows.len(), |k: int| seq![numbers[k]] + rows[k])
}

/// Whether a text is a number in decimal digits.
pub open spec fn is_number(s: Seq<char>) -> bool {
    s.len() > 0 && is_numeric(s)
}

/// A number before the cells of a row makes no difference to the skill in it,
/// unless its name is itself made of digits.
pub proof fn law_row_number_is_ignored(cells: Seq<Seq<char>>, number: Seq<char>)
    requires
        cells.len() > 0,
        is_numeric(number),
        !is_numeric(cells[0]),
    ensures
        hermes_search_row(seq![number] + cells) == hermes_search_row(cells),
{
    let all = seq![number] + cells;
    assert(all[0] == number && all[1] == cells[0]);
    assert(cells.len() > 1 ==> all[2] == cells[1]);
}

/// If the rows read in one output are those read in another one with a number
/// before each, the same skills are found in both.
pub proof fn law_numbers_are_ignored(plain: Seq<char>, counted: Seq<char>, numbers: Seq<Seq<char>>)
    requires
        numbers.len() == data_rows(plain).len(),
        data_rows(counted) == numbered(data_rows(plain), numbers),
        forall|k: int| 0 <= k < numbers.len() ==> is_numeric(#[trigger] numbers[k]),
        forall|k: int|
            0 <= k < numbers.len() ==> !is_numeric((#[trigger] data_rows(plain)[k])[0]),
    ensures
        hermes_search_skills(counted) == hermes_search_skills(plain),
{
    let rows = data_rows(plain);
    let found = rows.map_values(|cells: Seq<Seq<char>>| hermes_search_row(cells));
    let others = data_rows(counted).map_values(|cells: Seq<Seq<char>>| hermes_search_row(cells));
    law_data_rows_have_cells(plain);
    assert forall|k: int| 0 <= k < rows.len() implies others[k] == found[k] by {
        assert(rows.contains(rows[k]));
        assert(is_numeric(numbers[k]));
        law_row_number_is_ignored(rows[k], numbers[k]);
    }
    assert(others =~= found);
}

/// A leading column of numbers makes no difference to a table of skills: in
/// both forms the same ones are found, each once, and none is installed. A
/// name may not be made of digits itself, for it would be taken for a number.
pub proof fn law_number_column_is_ignored(
    header: Seq<char>,
    counted_header: Seq<char>,
    rows: Seq<Seq<Seq<char>>>,
    numbers: Seq<Seq<char>>,
)
    requires
        is_header(header),
        is_header(counted_header),
        numbers.len() == rows.len(),
        forall|k: int| 0 <= k < rows.len() ==> is_number(#[trigger] numbers[k]),
        forall|k: int|
            0 <= k < rows.len() ==> is_plain_row(#[trigger] rows[k]) && !is_numeric(
                text::trimmed(rows[k][0]),
            ),
    ensures
        hermes_search_skills(drawn_table(counted_header, numbered(rows, numbers)))
            == hermes_search_skills(drawn_table(header, rows)),
        names_each_once(hermes_search_skills(drawn_table(header, rows))),
        forall|i: int|
            0 <= i < hermes_search_skills(drawn_table(header, rows)).len() ==> is_found(
                #[trigger] hermes_search_skills(drawn_table(header, rows))[i],
                "hermes-hub"@,
            ),
{
    let plain = drawn_table(header, rows);
    let counted = drawn_table(counted_header, numbered(rows, numbers));
    let more = numbered(rows, numbers);
    assert forall|k: int| 0 <= k < more.len() implies is_plain_row(#[trigger] more[k])
        && trimmed_cells(more[k]) == seq![numbers[k]] + trimmed_cells(rows[k]) by {
        let number = numbers[k];
        assert(is_number(number));
        assert(is_plain_row(rows[k]));
        assert(text::is_ascii_digit(number[0]));
        assert(text::is_ascii_digit(number[number.len() - 1]));
        text::lemma_trim_kept(number, text::blank());
        assert forall|i: int| 0 <= i < more[k].len() implies is_plain_cell(#[trigger] more[k][i]) by {
            if i > 0 {
                assert(more[k][i] == rows[k][i - 1]);
            }
        }
        assert(trimmed_cells(more[k]) =~= seq![number] + trimmed_cells(rows[k]));
    }
    law_drawn_table_is_read(header, rows);
    law_drawn_table_is_read(counted_header, more);
    assert forall|k: int| 0 <= k < rows.len() implies !is_numeric(
        (#[trigger] data_rows(plain)[k])[0],
    ) by {
        assert(is_plain_row(rows[k]));
    }
    assert forall|k: int| 0 <= k < rows.len() implies is_numeric(#[trigger] numbers[k]) by {
        assert(is_number(numbers[k]));
    }
    assert(data_rows(counted) =~= numbered(data_rows(plain), numbers));
    law_numbers_are_ignored(plain, counted, numbers);
    law_parsed_names_are_distinct(plain);
    law_found_skills_are_not_installed(plain);
}

/// The decimal notation of a number is a number in decimal digits.
pub proof fn law_decimals_are_numbers(n: nat)
    ensures
        is_number(text::decimal(n)),
    decreases n,
{
    if n >= 10 {
        law_decimals_are_numbers(n / 10);
    }
}

// ── What holds of stripped text ──────────────────────────────────────

/// No escape character is left.
pub proof fn law_no_escape_is_left(s: Seq<char>)
    ensures
        !without_escapes(s).contains('\x1b'),
    decreases s.len(),
{
    if s.len() > 0 {
        if s[0] == '\x1b' {
            let rest = s.drop_first();
            let k = text::position(rest, 'm') as int;
            text::lemma_position(rest, 'm');
            if k < rest.len() {
                law_no_escape_is_left(rest.skip(k + 1));
            }
        } else {
            let rest = without_escapes(s.drop_first());
            law_no_escape_is_left(s.drop_first());
            let all = seq![s[0]] + rest;
            if all.contains('\x1b') {
                let i = choose|i: int| 0 <= i < all.len() && all[i] == '\x1b';
                if i > 0 {
                    assert(rest[i - 1] == '\x1b');
                }
            }
        }
    }
}

/// A text without escape characters is kept.
pub proof fn law_plain_text_is_kept(s: Seq<char>)
    requires
        !s.contains('\x1b'),
    ensures
        without_escapes(s) == s,
    decreases s.len(),
{
    if s.len() > 0 {
        let rest = s.drop_first();
        assert forall|c: char| rest.contains(c) implies s.contains(c) by {
            let i = choose|i: int| 0 <= i < rest.len() && rest[i] == c;
            assert(s[i + 1] == c);
        }
        law_plain_text_is_kept(rest);
        assert(s.contains(s[0]));
        assert(s == seq![s[0]] + rest);
    }
}

// ── What is read in a drawn row ──────────────────────────────────────

/// What follows the last cell of a row that is read: nothing, or a bar and
/// whatever stands behind it.
pub open spec fn is_row_end(end: Seq<char>) -> bool {
    end.len() > 0 ==> end[0] == '│' && !text::is_white_space(end.last())
}

proof fn lemma_row_pieces(cells: Seq<Seq<char>>, end: Seq<char>)
    requires
        cells.len() == 4,
        forall|i: int| 0 <= i < cells.len() ==> !(#[trigger] cells[i]).contains('│'),
        is_row_end(end),
    ensures
        ({
            let row = seq!['│'] + cells[0] + seq!['│'] + cells[1] + seq!['│'] + cells[2]
                + seq!['│'] + cells[3] + end;
            let found = text::pieces(row, '│');
            found.len() >= 5 && forall|i: int| 0 <= i < 4 ==> found[i + 1] == #[trigger] cells[i]
        }),
{
    let bar = seq!['│'];
    let none = Seq::<char>::empty();
    let t3 = cells[3] + end;
    let t2 = cells[2] + bar + t3;
    let t1 = cells[1] + bar + t2;
    let t0 = cells[0] + bar + t1;
    let row = bar + cells[0] + bar + cells[1] + bar + cells[2] + bar + cells[3] + end;
    assert(row =~= none + bar + t0);
    text::lemma_pieces_first(none, t0, '│');
    text::lemma_pieces_first(cells[0], t1, '│');
    text::lemma_pieces_first(cells[1], t2, '│');
    text::lemma_pieces_first(cells[2], t3, '│');
    if end.len() > 0 {
        let more = end.drop_first();
        assert(t3 =~= cells[3] + bar + more);
        text::lemma_pieces_first(cells[3], more, '│');
    } else {
        assert(t3 =~= cells[3]);
        text::lemma_position(t3, '│');
        assert(text::pieces(t3, '│') == seq![t3]);
    }
    let found = text::pieces(row, '│');
    let last = text::pieces(t3, '│');
    assert(last.len() > 0 && last[0] == cells[3]);
    assert(found =~= seq![none] + (seq![cells[0]] + (seq![cells[1]] + (seq![cells[2]] + last))));
    assert(found[1] == cells[0] && found[2] == cells[1] && found[3] == cells[2] && found[4]
        == cells[3]);
}

/// A name is found behind the decoration before it.
proof fn lemma_decorated_name(decoration: Seq<char>, name: Seq<char>, padding: Seq<char>)
    requires
        forall|k: int|
            0 <= k < decoration.len() ==> !text::is_ascii_alphanumeric(#[trigger] decoration[k]),
        forall|k: int| 0 <= k < padding.len() ==> text::is_white_space(#[trigger] padding[k]),
        name.len() > 0,
        text::is_ascii_alphanumeric(name[0]),
        !text::is_white_space(name.last()),
    ensures
        text::trimmed(
            text::from_alphanumeric(text::trimmed(decoration + name + padding)),
        ) == name,
{
    let p = text::blank();
    let cell = decoration + name + padding;
    let d = decoration.len() as int;
    let n = d + name.len();
    let (i, j) = text::lemma_trim_at(cell, p);
    assert(cell[d] == name[0] && !p(cell[d]));
    assert(cell[n - 1] == name.last() && !p(cell[n - 1]));
    assert(i <= d && j >= n);
    if j > n {
        assert(cell[j - 1] == padding[j - 1 - n]);
    }
    let before = decoration.skip(i);
    assert(cell.subrange(i, j) =~= before + name);
    assert forall|k: int| 0 <= k < before.len() implies !text::is_ascii_alphanumeric(
        #[trigger] before[k],
    ) by {
        assert(before[k] == decoration[i + k]);
    }
    text::law_decoration_is_left_out(before, name);
    text::lemma_trim_kept(name, p);
}

/// A row drawn from a status, a name with decoration before it, a description
/// and a source is read as the skill with that name, description and source,
/// and as installed exactly if the status has a check mark. Further columns make
/// no difference. The status is not that of the table's header or of a line.
pub proof fn law_openclaw_row_is_read(
    before: Seq<char>,
    status: Seq<char>,
    decoration: Seq<char>,
    name: Seq<char>,
    padding: Seq<char>,
    description: Seq<char>,
    source: Seq<char>,
    end: Seq<char>,
    after: Seq<char>,
)
    requires
        forall|k: int| 0 <= k < before.len() ==> text::is_white_space(#[trigger] before[k]),
        forall|k: int| 0 <= k < after.len() ==> text::is_white_space(#[trigger] after[k]),
        forall|k: int| 0 <= k < padding.len() ==> text::is_white_space(#[trigger] padding[k]),
        is_row_end(end),
        end.len() == 0 && source.len() > 0 ==> !text::is_white_space(source.last()),
        !status.contains('│'),
        !decoration.contains('│'),
        !name.contains('│'),
        !description.contains('│'),
        !source.contains('│'),
        !text::contains_text(status, "Status"@),
        !text::contains_text(status, "───"@),
        forall|k: int|
            0 <= k < decoration.len() ==> !text::is_ascii_alphanumeric(#[trigger] decoration[k]),
        name.len() > 0,
        text::is_ascii_alphanumeric(name[0]),
        !text::is_white_space(name.last()),
    ensures
        openclaw_row(
            before + (seq!['│'] + status + seq!['│'] + (decoration + name + padding) + seq!['│']
                + description + seq!['│'] + source + end) + after,
        ) == Some(
            SkillView {
                name,
                description: text::trimmed(description),
                author: text::trimmed(source),
                version: seq![],
                installed: status.contains('✓'),
                source: "bundled"@,
            },
        ),
{
    let cell = decoration + name + padding;
    let row = seq!['│'] + status + seq!['│'] + cell + seq!['│'] + description + seq!['│'] + source
        + end;
    assert(row[0] == '│');
    assert(row.last() == (if end.len() > 0 {
        end.last()
    } else if source.len() > 0 {
        source.last()
    } else {
        '│'
    }));
    text::law_white_space_is_trimmed(before, row, after);
    let cells = seq![status, cell, description, source];
    assert(!cell.contains('│')) by {
        if cell.contains('│') {
            let k = choose|k: int| 0 <= k < cell.len() && cell[k] == '│';
            if k < decoration.len() {
                assert(decoration[k] == '│');
            } else if k < decoration.len() + name.len() {
                assert(name[k - decoration.len()] == '│');
            } else {
                assert(text::is_white_space(padding[k - decoration.len() - name.len()]));
            }
        }
    }
    assert forall|i: int| 0 <= i < cells.len() implies !(#[trigger] cells[i]).contains('│') by {
        assert(i == 0 || i == 1 || i == 2 || i == 3);
    }
    lemma_row_pieces(cells, end);
    let found = text::pieces(row, '│');
    assert(cells[0] == status && cells[1] == cell && cells[2] == description && cells[3] == source);
    assert(found[1] == status && found[2] == cell && found[3] == description && found[4] == source);
    text::law_trimming_adds_nothing(status, "Status"@);
    text::law_trimming_adds_nothing(status, "───"@);
    text::law_trimming_keeps_characters(status, '✓');
    lemma_decorated_name(decoration, name, padding);
    let rest = cell + seq!['│'] + description + seq!['│'] + source + end;
    if "│ Status"@.is_prefix_of(row) {
        assert(row =~= seq!['│'] + status + seq!['│'] + rest);
        lemma_header_status(status, rest);
    }
}

/// A row that starts like the header has the status of the header.
proof fn lemma_header_status(status: Seq<char>, rest: Seq<char>)
    requires
        "│ Status"@.is_prefix_of(seq!['│'] + status + seq!['│'] + rest),
    ensures
        text::contains_text(text::trimmed(status), "Status"@),
{
    let p = text::blank();
    let row = seq!['│'] + status + seq!['│'] + rest;
    reveal_strlit("│ Status");
    reveal_strlit("Status");
    let start = row.subrange(0, 8);
    assert(start == "│ Status"@);
    let n = status.len() as int;
    if n < 7 {
        assert(row[1 + n] == '│');
        assert(start[1 + n] == row[1 + n]);
    } else {
        let (x, y) = text::lemma_trim_at(status, p);
        assert forall|k: int| 0 <= k < 6 implies status[1 + k] == "Status"@[k] by {
            assert(status[1 + k] == row[2 + k]);
            assert(start[2 + k] == row[2 + k]);
        }
        assert("Status"@[0] == 'S' && "Status"@[5] == 's');
        assert(status[1 + 0int] == 'S' && status[1 + 5int] == 's');
        assert(!p(status[1]) && !p(status[6]));
        assert(x <= 1 && y >= 7);
        let t = status.subrange(x, y);
        assert(t.subrange(1 - x, 7 - x) =~= "Status"@);
        assert(text::occurs_at(t, "Status"@, 1 - x));
    }
}

/// Whether a text has an ASCII letter or digit.
pub open spec fn can_be_name(s: Seq<char>) -> bool {
    exists|k: int| 0 <= k < s.len() && text::is_ascii_alphanumeric(#[trigger] s[k])
}

proof fn lemma_name_in_cell(cell: Seq<char>)
    ensures
        text::trimmed(text::from_alphanumeric(text::trimmed(cell))).len() > 0 <==> can_be_name(
            cell,
        ),
{
    let p = text::blank();
    let q = text::decoration();
    let t = text::trimmed(cell);
    let (i, j) = text::lemma_trim_at(cell, p);
    let a = text::lemma_trim_start_at(t, q);
    text::lemma_trim_start_skip(t, q, a);
    let tail = t.skip(a);
    if a < t.len() {
        assert(!q(t[a]));
        assert(t[a] == cell[i + a]);
        assert(text::is_ascii_alphanumeric(cell[i + a]));
        assert(!p(tail[0]));
        text::lemma_trim_at(tail, p);
    } else {
        assert(tail.len() == 0);
        assert forall|k: int| 0 <= k < cell.len() implies !text::is_ascii_alphanumeric(
            #[trigger] cell[k],
        ) by {
            if i <= k < j {
                assert(t[k - i] == cell[k]);
                assert(q(t[k - i]));
            } else {
                assert(p(cell[k]));
            }
        }
    }
}

/// A drawn row has a skill in it unless its status is that of the header or of
/// a line between rows, or there is no letter or digit where the name is
/// expected. A line without a bar at its beginning is no row, nor is one with
/// fewer than four bars.
pub proof fn law_openclaw_noise_is_skipped(line: Seq<char>, cells: Seq<Seq<char>>, end: Seq<char>)
    requires
        cells.len() == 4,
        forall|i: int| 0 <= i < cells.len() ==> !(#[trigger] cells[i]).contains('│'),
        is_row_end(end),
        end.len() == 0 && cells[3].len() > 0 ==> !text::is_white_space(cells[3].last()),
    ensures
        !(text::trimmed(line).len() > 0 && text::trimmed(line)[0] == '│') ==> openclaw_row(line)
            is None,
        text::pieces(text::trimmed(line), '│').len() < 5 ==> openclaw_row(line) is None,
        openclaw_row(
            seq!['│'] + cells[0] + seq!['│'] + cells[1] + seq!['│'] + cells[2] + seq!['│']
                + cells[3] + end,
        ) is None <==> text::contains_text(text::trimmed(cells[0]), "Status"@)
            || text::contains_text(text::trimmed(cells[0]), "───"@) || !can_be_name(cells[1]),
{
    let bar = seq!['│'];
    let row = bar + cells[0] + bar + cells[1] + bar + cells[2] + bar + cells[3] + end;
    assert(row[0] == '│');
    assert(row.last() == (if end.len() > 0 {
        end.last()
    } else if cells[3].len() > 0 {
        cells[3].last()
    } else {
        '│'
    }));
    text::lemma_trim_kept(row, text::blank());
    lemma_row_pieces(cells, end);
    let found = text::pieces(row, '│');
    assert(found[1] == cells[0] && found[2] == cells[1] && found.len() >= 5);
    lemma_name_in_cell(cells[1]);
    let rest = cells[1] + bar + cells[2] + bar + cells[3] + end;
    if "│ Status"@.is_prefix_of(row) {
        assert(row =~= bar + cells[0] + bar + rest);
        lemma_header_status(cells[0], rest);
    }
}

// ── What is listed of drawn rows ─────────────────────────────────────

/// Skills with names of their own are all listed, in order.
pub proof fn law_distinct_skills_are_all_listed(skills: Seq<SkillView>)
    requires
        names_each_once(skills),
    ensures
        collected(skills.map_values(|skill: SkillView| Some(skill))) == skills,
    decreases skills.len(),
{
    let rows = skills.map_values(|skill: SkillView| Some(skill));
    if skills.len() > 0 {
        let init = skills.drop_last();
        let last = skills.last();
        assert forall|i: int, j: int| 0 <= i < j < init.len() implies (#[trigger] init[i]).name != (
        #[trigger] init[j]).name by {
            assert(init[i] == skills[i] && init[j] == skills[j]);
        }
        assert forall|i: int| 0 <= i < init.len() implies (#[trigger] init[i]).name.len() > 0 by {
            assert(init[i] == skills[i]);
        }
        law_distinct_skills_are_all_listed(init);
        assert(rows.drop_last() =~= init.map_values(|skill: SkillView| Some(skill)));
        assert(rows.last() == Some(last));
        assert(last == skills[skills.len() - 1]);
        assert(!has_name(init, last.name)) by {
            if has_name(init, last.name) {
                let i = choose|i: int| 0 <= i < init.len() && #[trigger] init[i].name == last.name;
                assert(skills[i] == init[i]);
            }
        }
        assert(init.push(last) == skills);
    } else {
        assert(collected(rows) == skills);
    }
}

/// The lists of an OpenClaw agent and of the registry are read line by line.
pub proof fn law_lists_are_read_by_lines(lines: Seq<Seq<char>>)
    requires
        lines.len() > 0 ==> lines.last().len() > 0,
        forall|i: int|
            0 <= i < lines.len() ==> !(#[trigger] lines[i]).contains('\n') && !(lines[i].len() > 0
                && lines[i].last() == '\r'),
    ensures
        openclaw_skills(text::joined(lines, seq!['\n'])) == collected(
            lines.map_values(|line: Seq<char>| openclaw_row(line)),
        ),
        clawhub_skills(text::joined(lines, seq!['\n'])) == collected(
            lines.map_values(|line: Seq<char>| clawhub_row(line)),
        ),
{
    text::lemma_lines_of_joined(lines);
}

/// The `i`th cell without white space around it, or an empty text if there are
/// fewer.
pub open spec fn text_in_cell(cells: Seq<Seq<char>>, i: int) -> Seq<char> {
    if 0 <= i < cells.len() {
        text::trimmed(cells[i])
    } else {
        seq![]
    }
}

/// A row of plain cells can be the header of a table.
pub proof fn law_drawn_row_is_a_header(cells: Seq<Seq<char>>)
    requires
        is_plain_row(cells),
    ensures
        is_header(drawn_row(cells)),
{
    lemma_drawn_row(cells);
}

/// A table drawn from a header and rows with names of their own is read as one
/// installed skill for each row, with the texts of the row: its name, its
/// category in brackets, and its origin, which decides on the source.
pub proof fn law_hermes_table_is_listed(header: Seq<Seq<char>>, rows: Seq<Seq<Seq<char>>>)
    requires
        is_plain_row(header),
        forall|k: int| 0 <= k < rows.len() ==> is_plain_row(#[trigger] rows[k]),
        forall|i: int, j: int|
            0 <= i < j < rows.len() ==> text::trimmed((#[trigger] rows[i])[0]) != text::trimmed(
                (#[trigger] rows[j])[0],
            ),
    ensures
        ({
            let listed = hermes_skills(drawn_table(drawn_row(header), rows));
            &&& listed.len() == rows.len()
            &&& forall|k: int|
                0 <= k < rows.len() ==> {
                    let skill = #[trigger] listed[k];
                    let category = text_in_cell(rows[k], 1);
                    let origin = text_in_cell(rows[k], 2);
                    &&& skill.name == text_in_cell(rows[k], 0)
                    &&& rows[k].len() > 1 ==> skill.description == seq!['['] + category + seq![']']
                    &&& rows[k].len() == 1 ==> skill.description.len() == 0
                    &&& skill.author == origin
                    &&& skill.version.len() == 0
                    &&& skill.installed
                    &&& (text::contains_text(origin, "hub"@) || origin == "official"@)
                        ==> skill.source == "hermes-hub"@
                    &&& !text::contains_text(origin, "hub"@) && origin != "official"@
                        ==> skill.source == "bundled"@
                }
        }),
{
    reveal_strlit("[");
    reveal_strlit("]");
    assert("["@ =~= seq!['['] && "]"@ =~= seq![']']);
    let output = drawn_table(drawn_row(header), rows);
    law_drawn_row_is_a_header(header);
    law_drawn_table_is_read(drawn_row(header), rows);
    let read = data_rows(output);
    let skills = read.map_values(|cells: Seq<Seq<char>>| hermes_row(cells));
    let found = read.map_values(|cells: Seq<Seq<char>>| Some(hermes_row(cells)));
    assert forall|k: int| 0 <= k < rows.len() implies (#[trigger] skills[k]).name == text::trimmed(
        rows[k][0],
    ) && skills[k].name.len() > 0 by {
        assert(is_plain_row(rows[k]));
        assert(is_plain_cell(rows[k][0]));
        assert(read[k] == trimmed_cells(rows[k]));
    }
    assert forall|i: int, j: int| 0 <= i < j < skills.len() implies (#[trigger] skills[i]).name != (
    #[trigger] skills[j]).name by {
        assert(text::trimmed(rows[i][0]) != text::trimmed(rows[j][0]));
    }
    law_distinct_skills_are_all_listed(skills);
    assert(found =~= skills.map_values(|skill: SkillView| Some(skill)));
    assert forall|k: int| 0 <= k < rows.len() implies {
        let skill = #[trigger] skills[k];
        let category = text_in_cell(rows[k], 1);
        let origin = text_in_cell(rows[k], 2);
        &&& skill.name == text_in_cell(rows[k], 0)
        &&& rows[k].len() > 1 ==> skill.description == seq!['['] + category + seq![']']
        &&& rows[k].len() == 1 ==> skill.description.len() == 0
        &&& skill.author == origin
    } by {
        assert(is_plain_row(rows[k]));
        assert(read[k] == trimmed_cells(rows[k]));
        if rows[k].len() > 1 {
            assert(is_plain_cell(rows[k][1]));
        }
    }
}

/// A table of search results drawn from a header and rows with names of their
/// own is read as one skill for each row, with the name and the description of
/// the row. A name may not be made of digits, for it would be taken for a
/// number.
pub proof fn law_search_table_is_listed(header: Seq<Seq<char>>, rows: Seq<Seq<Seq<char>>>)
    requires
        is_plain_row(header),
        forall|k: int|
            0 <= k < rows.len() ==> is_plain_row(#[trigger] rows[k]) && exists|c: char|
                text::trimmed(rows[k][0]).contains(c) && !('0' <= c && c <= '9'),
        forall|i: int, j: int|
            0 <= i < j < rows.len() ==> text::trimmed((#[trigger] rows[i])[0]) != text::trimmed(
                (#[trigger] rows[j])[0],
            ),
    ensures
        ({
            let listed = hermes_search_skills(drawn_table(drawn_row(header), rows));
            &&& listed.len() == rows.len()
            &&& forall|k: int|
                0 <= k < rows.len() ==> {
                    let skill = #[trigger] listed[k];
                    &&& skill.name == text_in_cell(rows[k], 0)
                    &&& skill.description == text_in_cell(rows[k], 1)
                    &&& skill.author.len() == 0
                    &&& skill.version.len() == 0
                    &&& !skill.installed
                    &&& skill.source == "hermes-hub"@
                }
        }),
{
    let output = drawn_table(drawn_row(header), rows);
    law_drawn_row_is_a_header(header);
    law_drawn_table_is_read(drawn_row(header), rows);
    let read = data_rows(output);
    let skills = read.map_values(|cells: Seq<Seq<char>>| hermes_search_row(cells)->0);
    let found = read.map_values(|cells: Seq<Seq<char>>| hermes_search_row(cells));
    assert forall|k: int| 0 <= k < rows.len() implies (#[trigger] skills[k]).name == text_in_cell(
        rows[k],
        0,
    ) && skills[k].name.len() > 0 && found[k] == Some(skills[k]) && skills[k].description
        == text_in_cell(rows[k], 1) by {
        assert(is_plain_row(rows[k]));
        assert(is_plain_cell(rows[k][0]));
        assert(read[k] == trimmed_cells(rows[k]));
        let name = text::trimmed(rows[k][0]);
        let c = choose|c: char| name.contains(c) && !('0' <= c && c <= '9');
        let i = choose|i: int| 0 <= i < name.len() && name[i] == c;
        assert(!text::is_ascii_digit(name[i]));
        assert(!is_numeric(name));
    }
    assert forall|i: int, j: int| 0 <= i < j < skills.len() implies (#[trigger] skills[i]).name != (
    #[trigger] skills[j]).name by {
        assert(text::trimmed(rows[i][0]) != text::trimmed(rows[j][0]));
    }
    law_distinct_skills_are_all_listed(skills);
    assert(found =~= skills.map_values(|skill: SkillView| Some(skill)));
}

/// Borders, blank lines and lines without a bar have no cells, and a blank cell
/// of a row is left out.
pub proof fn law_borders_have_no_cells(line: Seq<char>)
    requires
        ({
            let row = text::trimmed(line);
            ||| row.len() == 0
            ||| row[0] == '┌' || row[0] == '└' || row[0] == '├' || row[0] == '╭' || row[0] == '╰'
                || row[0] == '╞'
            ||| !line.contains('│')
        }),
    ensures
        row_cells(line).len() == 0,
{
    let row = text::trimmed(line);
    text::law_trimming_keeps_characters(line, '│');
    reveal_strlit("┌└├╭╰╞");
    let borders = "┌└├╭╰╞"@;
    assert(borders[0] == '┌' && borders[1] == '└' && borders[2] == '├' && borders[3] == '╭'
        && borders[4] == '╰' && borders[5] == '╞');
}

/// Whether a text is not empty.
pub open spec fn holds_text() -> spec_fn(Seq<char>) -> bool {
    |s: Seq<char>| s.len() > 0
}

/// What is read in a cell: its text without escape sequences in it and white
/// space around it.
pub open spec fn cell_text() -> spec_fn(Seq<char>) -> Seq<char> {
    |cell: Seq<char>| text::trimmed(without_escapes(text::trimmed(cell)))
}

proof fn lemma_filled_cells_are_kept(v: Seq<Seq<char>>)
    ensures
        filled_cells(v) == v.map_values(cell_text()).filter(holds_text()),
    decreases v.len(),
{
    let f = cell_text();
    let p = holds_text();
    reveal(Seq::filter);
    if v.len() > 0 {
        let init = v.drop_last();
        lemma_filled_cells_are_kept(init);
        assert(v.map_values(f).drop_last() =~= init.map_values(f));
        assert(v.map_values(f).last() == f(v.last()));
    } else {
        assert(filled_cells(v) =~= v.map_values(f).filter(p));
    }
}

proof fn lemma_pieces_of_joined(cells: Seq<Seq<char>>)
    requires
        cells.len() > 0,
        forall|i: int| 0 <= i < cells.len() ==> !(#[trigger] cells[i]).contains('│'),
    ensures
        text::pieces(text::joined(cells, seq!['│']), '│') == cells,
    decreases cells.len(),
{
    let s = text::joined(cells, seq!['│']);
    assert(!cells[0].contains('│'));
    if cells.len() == 1 {
        text::lemma_position(s, '│');
        assert(text::pieces(s, '│') =~= cells);
    } else {
        let rest = cells.drop_first();
        assert forall|i: int| 0 <= i < rest.len() implies !(#[trigger] rest[i]).contains('│') by {
            assert(rest[i] == cells[i + 1]);
        }
        lemma_pieces_of_joined(rest);
        text::lemma_joined_first(cells, seq!['│']);
        text::lemma_pieces_first(cells[0], text::joined(rest, seq!['│']), '│');
        assert(seq![cells[0]] + rest =~= cells);
    }
}

/// A row is read as the texts of its cells, with bars between them, in order,
/// without escape sequences in them and white space around them; cells without
/// any text are left out. The line has a bar, no white space around it, and does
/// not start like a border.
pub proof fn law_row_is_read_by_cells(cells: Seq<Seq<char>>)
    requires
        cells.len() >= 2,
        forall|i: int| 0 <= i < cells.len() ==> !(#[trigger] cells[i]).contains('│'),
        cells[0].len() > 0 ==> !text::is_white_space(cells[0][0]) && cells[0][0] != '┌'
            && cells[0][0] != '└' && cells[0][0] != '├' && cells[0][0] != '╭' && cells[0][0] != '╰'
            && cells[0][0] != '╞',
        cells.last().len() > 0 ==> !text::is_white_space(cells.last().last()),
    ensures
        row_cells(text::joined(cells, seq!['│'])) == cells.map_values(cell_text()).filter(
            holds_text(),
        ),
{
    let bar = seq!['│'];
    let row = text::joined(cells, bar);
    let init = cells.drop_last();
    text::lemma_joined_first(cells, bar);
    let n = cells[0].len() as int;
    assert(row[n] == '│');
    assert(row.contains('│'));
    assert(row[0] == (if n > 0 {
        cells[0][0]
    } else {
        '│'
    }));
    assert(row == text::joined(init, bar) + bar + cells.last());
    assert(row.last() == (if cells.last().len() > 0 {
        cells.last().last()
    } else {
        '│'
    }));
    text::lemma_trim_kept(row, text::blank());
    reveal_strlit("┌└├╭╰╞");
    let borders = "┌└├╭╰╞"@;
    assert forall|i: int| 0 <= i < 6 implies borders[i] != row[0] by {
        assert(i == 0 || i == 1 || i == 2 || i == 3 || i == 4 || i == 5);
    }
    assert(!is_border(row));
    lemma_pieces_of_joined(cells);
    lemma_filled_cells_are_kept(cells);
}

/// Whether a row has cells.
pub open spec fn has_cells() -> spec_fn(Seq<Seq<char>>) -> bool {
    |cells: Seq<Seq<char>>| cells.len() > 0
}

proof fn lemma_filled_rows_are_kept(lines: Seq<Seq<char>>)
    ensures
        filled_rows(lines) == lines.map_values(|line: Seq<char>| row_cells(line)).filter(
            has_cells(),
        ),
    decreases lines.len(),
{
    let f = |line: Seq<char>| row_cells(line);
    let p = has_cells();
    reveal(Seq::filter);
    if lines.len() > 0 {
        let init = lines.drop_last();
        lemma_filled_rows_are_kept(init);
        assert(lines.map_values(f).drop_last() =~= init.map_values(f));
        assert(lines.map_values(f).last() == f(lines.last()));
    } else {
        assert(filled_rows(lines) =~= lines.map_values(f).filter(p));
    }
}

/// A table is read line by line: its rows are those lines that have cells, but
/// for the first, which is the header.
pub proof fn law_table_is_read_by_lines(lines: Seq<Seq<char>>)
    requires
        lines.len() > 0 ==> lines.last().len() > 0,
        forall|i: int|
            0 <= i < lines.len() ==> !(#[trigger] lines[i]).contains('\n') && !(lines[i].len() > 0
                && lines[i].last() == '\r'),
    ensures
        ({
            let rows = lines.map_values(|line: Seq<char>| row_cells(line)).filter(has_cells());
            data_rows(text::joined(lines, seq!['\n'])) == (if rows.len() > 0 {
                rows.skip(1)
            } else {
                seq![]
            })
        }),
{
    text::lemma_lines_of_joined(lines);
    lemma_filled_rows_are_kept(lines);
}

/// A cell of digits at the beginning of a search result is a number, which is
/// left out: the name is that of the next cell, whatever that is, and the
/// description that of the one behind it. Otherwise the name is the first cell.
pub proof fn law_number_is_no_name(number: Seq<char>, cells: Seq<Seq<char>>)
    requires
        forall|i: int| 0 <= i < number.len() ==> '0' <= #[trigger] number[i] && number[i] <= '9',
    ensures
        hermes_search_row(seq![number]) is None,
        cells.len() > 0 && cells[0].len() > 0 ==> ({
            let skill = hermes_search_row(seq![number] + cells);
            &&& skill is Some
            &&& skill->0.name == cells[0]
            &&& skill->0.description == (if cells.len() > 1 {
                cells[1]
            } else {
                seq![]
            })
        }),
{
    assert forall|i: int| 0 <= i < number.len() implies text::is_ascii_digit(
        #[trigger] number[i],
    ) by {
        assert('0' <= number[i] && number[i] <= '9');
    }
    assert(is_numeric(number));
    let all = seq![number] + cells;
    assert(all[0] == number);
    if cells.len() > 0 {
        assert(all[1] == cells[0]);
        if cells.len() > 1 {
            assert(all[2] == cells[1]);
        }
    }
}

/// A table in a frame is read as the rows it was drawn from: the lines above and
/// below the header and below the rows make no difference.
pub proof fn law_framed_table_is_read(
    top: Seq<char>,
    header: Seq<Seq<char>>,
    middle: Seq<char>,
    rows: Seq<Seq<Seq<char>>>,
    bottom: Seq<char>,
)
    requires
        is_plain_row(header),
        forall|k: int| 0 <= k < rows.len() ==> is_plain_row(#[trigger] rows[k]),
        is_frame(top),
        is_frame(middle),
        is_frame(bottom),
    ensures
        data_rows(
            text::joined(
                seq![top, drawn_row(header), middle] + rows.map_values(
                    |cells: Seq<Seq<char>>| drawn_row(cells),
                ) + seq![bottom],
                seq!['\n'],
            ),
        ) == rows.map_values(|cells: Seq<Seq<char>>| trimmed_cells(cells)),
{
    let drawn = rows.map_values(|cells: Seq<Seq<char>>| drawn_row(cells));
    let read = rows.map_values(|cells: Seq<Seq<char>>| trimmed_cells(cells));
    let head = seq![top, drawn_row(header), middle];
    let all = head + drawn + seq![bottom];
    lemma_drawn_row(header);
    assert forall|i: int| 0 <= i < all.len() implies !(#[trigger] all[i]).contains('\n')
        && all[i].len() > 0 && !text::ends_with_return(all[i]) by {
        if 3 <= i < 3 + drawn.len() {
            assert(all[i] == drawn[i - 3]);
            assert(is_plain_row(rows[i - 3]));
            lemma_drawn_row(rows[i - 3]);
        } else if i < 3 {
            assert(all[i] == head[i]);
        } else {
            assert(all[i] == bottom);
        }
    }
    text::lemma_lines_of_joined(all);
    lemma_drawn_rows(rows);
    lemma_frame(top);
    lemma_frame(middle);
    lemma_frame(bottom);
    lemma_filled_row(top);
    lemma_filled_row(drawn_row(header));
    lemma_filled_row(middle);
    lemma_filled_row(bottom);
    assert(head =~= seq![top] + seq![drawn_row(header)] + seq![middle]);
    lemma_filled_rows_add(seq![top], seq![drawn_row(header)]);
    lemma_filled_rows_add(seq![top] + seq![drawn_row(header)], seq![middle]);
    lemma_filled_rows_add(head, drawn);
    lemma_filled_rows_add(head + drawn, seq![bottom]);
    let first = seq![trimmed_cells(header)];
    assert(filled_rows(all) =~= first + read);
    assert((first + read).drop_first() =~= read);
    assert(data_rows(text::joined(all, seq!['\n'])) =~= read);
}

/// Whether a line is part of the frame of a table.
pub open spec fn is_frame(line: Seq<char>) -> bool {
    &&& line.len() > 0
    &&& line[0] == '┌' || line[0] == '└' || line[0] == '├' || line[0] == '╭' || line[0] == '╰'
        || line[0] == '╞'
    &&& !line.contains('\n')
    &&& line.last() != '\r'
}

proof fn lemma_frame(line: Seq<char>)
    requires
        is_frame(line),
    ensures
        row_cells(line).len() == 0,
{
    let (i, _) = text::lemma_trim_at(line, text::blank());
    let p = text::blank();
    assert(!p(line[0]));
    assert(i == 0);
    assert(text::trimmed(line)[0] == line[0]);
    law_borders_have_no_cells(line);
}

proof fn lemma_filled_row(line: Seq<char>)
    ensures
        filled_rows(seq![line]) == (if row_cells(line).len() == 0 {
            seq![]
        } else {
            seq![row_cells(line)]
        }),
{
    assert(seq![line].drop_last() == Seq::<Seq<char>>::empty());
    assert(filled_rows(seq![line].drop_last()) == Seq::<Seq<Seq<char>>>::empty());
}

// ── What is read in a hit of the registry ────────────────────────────

/// Whether a text can be the slug of a hit: it has no two spaces in a row and no
/// white space around it, and does not look like a message of the tool.
pub open spec fn is_plain_slug(slug: Seq<char>) -> bool {
    &&& slug.len() > 0
    &&& !text::is_white_space(slug[0])
    &&& !text::is_white_space(slug.last())
    &&& slug[0] != '-'
    &&& slug != seq!['n', 'p', 'm']
    &&& !(slug.len() >= 4 && slug.take(4) == seq!['n', 'p', 'm', ' '])
    &&& !(slug.len() >= 5 && slug.take(5) == seq!['e', 'r', 'r', 'o', 'r'])
    &&& forall|i: int|
        0 <= i < slug.len() - 1 && #[trigger] slug[i] == ' ' ==> slug[i + 1] != ' '
}

/// A line that starts with a slug and two spaces is read as a hit with that
/// slug.
proof fn lemma_slug(before: Seq<char>, slug: Seq<char>, rest: Seq<char>, after: Seq<char>)
    requires
        forall|k: int| 0 <= k < before.len() ==> text::is_white_space(#[trigger] before[k]),
        forall|k: int| 0 <= k < after.len() ==> text::is_white_space(#[trigger] after[k]),
        is_plain_slug(slug),
        rest.len() > 0,
        !text::is_white_space(rest.last()),
    ensures
        ({
            let found = text::trimmed(rest);
            clawhub_row(before + (slug + seq![' ', ' '] + rest) + after) == Some(
                SkillView {
                    name: slug,
                    description: match text::last_position(found, '(') {
                        Some(paren) => text::trimmed(found.take(paren)),
                        None => found,
                    },
                    author: seq![],
                    version: seq![],
                    installed: false,
                    source: "clawhub"@,
                },
            )
        }),
{
    let gap = seq![' ', ' '];
    let row = slug + gap + rest;
    let n = slug.len() as int;
    assert(row[0] == slug[0] && row.last() == rest.last());
    text::law_white_space_is_trimmed(before, row, after);
    reveal_strlit("npm ");
    reveal_strlit("error");
    reveal_strlit("  ");
    assert("  "@ =~= gap);
    if "npm "@.is_prefix_of(row) {
        let start = row.subrange(0, 4);
        assert(start == "npm "@);
        assert(row[0] == start[0] && row[1] == start[1] && row[2] == start[2] && row[3]
            == start[3]);
        if n >= 4 {
            assert(slug.take(4) =~= seq!['n', 'p', 'm', ' ']);
        } else if n == 3 {
            assert(slug =~= seq!['n', 'p', 'm']);
        } else if n == 2 {
            assert(row[2] == ' ');
        } else {
            assert(row[1] == ' ');
        }
    }
    if "error"@.is_prefix_of(row) {
        let start = row.subrange(0, 5);
        assert(start == "error"@);
        assert(row[0] == start[0] && row[1] == start[1] && row[2] == start[2] && row[3] == start[3]
            && row[4] == start[4]);
        if n >= 5 {
            assert(slug.take(5) =~= seq!['e', 'r', 'r', 'o', 'r']);
        } else {
            assert(row[n] == ' ');
        }
    }
    text::law_text_position_is_the_first(row, gap);
    assert(row.subrange(n, n + 2) =~= gap);
    let k = text::text_position(row, gap)->0;
    assert(k == n) by {
        if k < n {
            let here = row.subrange(k, k + 2);
            assert(here[0] == row[k] && here[1] == row[k + 1]);
            assert(slug[k] == ' ');
            if k + 1 < n {
                assert(slug[k + 1] == ' ');
            }
        }
    }
    assert(row.take(n) =~= slug);
    text::lemma_trim_kept(slug, text::blank());
    assert(row.skip(n + 2) =~= rest);
}

/// A hit with a score is read as the skill with its slug and its title, whatever
/// the title holds; what stands from the last bracket on is left out.
pub proof fn law_scored_hit_is_read(
    before: Seq<char>,
    slug: Seq<char>,
    gap: Seq<char>,
    title: Seq<char>,
    space: Seq<char>,
    score: Seq<char>,
    after: Seq<char>,
)
    requires
        forall|k: int| 0 <= k < before.len() ==> text::is_white_space(#[trigger] before[k]),
        forall|k: int| 0 <= k < after.len() ==> text::is_white_space(#[trigger] after[k]),
        forall|k: int| 0 <= k < gap.len() ==> text::is_white_space(#[trigger] gap[k]),
        forall|k: int| 0 <= k < space.len() ==> text::is_white_space(#[trigger] space[k]),
        is_plain_slug(slug),
        title.len() > 0 ==> !text::is_white_space(title[0]) && !text::is_white_space(title.last()),
        !score.contains('('),
        score.len() > 0 ==> !text::is_white_space(score.last()),
    ensures
        clawhub_row(
            before + (slug + seq![' ', ' '] + (gap + title + space + seq!['('] + score)) + after,
        ) == Some(
            SkillView {
                name: slug,
                description: title,
                author: seq![],
                version: seq![],
                installed: false,
                source: "clawhub"@,
            },
        ),
{
    let tail = space + seq!['('] + score;
    let rest = gap + title + space + seq!['('] + score;
    let none = Seq::<char>::empty();
    let end = if score.len() > 0 {
        score.last()
    } else {
        '('
    };
    assert(rest.last() == end);
    lemma_slug(before, slug, rest, after);
    if title.len() > 0 {
        let kept = title + tail;
        assert(rest =~= gap + kept + none);
        assert(kept[0] == title[0] && kept.last() == end);
        text::law_white_space_is_trimmed(gap, kept, none);
        let n = title.len() + space.len();
        lemma_last_paren(title + space, score);
        assert(kept =~= (title + space) + seq!['('] + score);
        assert(kept.take(n as int) =~= none + title + space);
        text::law_white_space_is_trimmed(none, title, space);
    } else {
        let kept = seq!['('] + score;
        let blanks = gap + space;
        assert(rest =~= blanks + kept + none);
        assert forall|k: int| 0 <= k < blanks.len() implies text::is_white_space(
            #[trigger] blanks[k],
        ) by {
            if k < gap.len() {
                assert(blanks[k] == gap[k]);
            } else {
                assert(blanks[k] == space[k - gap.len()]);
            }
        }
        assert(kept[0] == '(' && kept.last() == end);
        text::law_white_space_is_trimmed(blanks, kept, none);
        lemma_last_paren(none, score);
        assert(kept =~= none + seq!['('] + score);
        assert(kept.take(0) =~= none + none + none);
        text::law_white_space_is_trimmed(none, none, none);
        assert(title =~= none);
    }
}

proof fn lemma_last_paren(a: Seq<char>, score: Seq<char>)
    requires
        !score.contains('('),
    ensures
        text::last_position(a + seq!['('] + score, '(') == Some(a.len() as int),
{
    let s = a + seq!['('] + score;
    text::law_last_position_is_the_last(s, '(');
    let n = a.len() as int;
    assert(s[n] == '(');
    let k = text::last_position(s, '(')->0;
    if k > n {
        assert(score[k - n - 1] == '(');
    }
}

/// A hit without a score is read as the skill with its slug and its title.
pub proof fn law_plain_hit_is_read(
    before: Seq<char>,
    slug: Seq<char>,
    gap: Seq<char>,
    title: Seq<char>,
    after: Seq<char>,
)
    requires
        forall|k: int| 0 <= k < before.len() ==> text::is_white_space(#[trigger] before[k]),
        forall|k: int| 0 <= k < after.len() ==> text::is_white_space(#[trigger] after[k]),
        forall|k: int| 0 <= k < gap.len() ==> text::is_white_space(#[trigger] gap[k]),
        is_plain_slug(slug),
        title.len() > 0,
        !text::is_white_space(title[0]),
        !text::is_white_space(title.last()),
        !title.contains('('),
    ensures
        clawhub_row(before + (slug + seq![' ', ' '] + (gap + title)) + after) == Some(
            SkillView {
                name: slug,
                description: title,
                author: seq![],
                version: seq![],
                installed: false,
                source: "clawhub"@,
            },
        ),
{
    let rest = gap + title;
    let none = Seq::<char>::empty();
    assert(rest.last() == title.last());
    lemma_slug(before, slug, rest, after);
    assert(rest =~= gap + title + none);
    text::law_white_space_is_trimmed(gap, title, none);
    text::law_last_position_is_the_last(title, '(');
}

/// Blank lines, messages of the tool and lines without two spaces in a row are
/// no hits.
pub proof fn law_registry_noise_is_skipped(line: Seq<char>)
    requires
        ({
            let row = text::trimmed(line);
            ||| row.len() == 0
            ||| row[0] == '-'
            ||| row.len() >= 4 && row.take(4) == seq!['n', 'p', 'm', ' ']
            ||| row.len() >= 5 && row.take(5) == seq!['e', 'r', 'r', 'o', 'r']
            ||| forall|i: int| 0 <= i < row.len() - 1 && #[trigger] row[i] == ' ' ==> row[i + 1] != ' '
        }),
    ensures
        clawhub_row(line) is None,
{
    let row = text::trimmed(line);
    let gap = seq![' ', ' '];
    reveal_strlit("npm ");
    reveal_strlit("error");
    reveal_strlit("  ");
    assert("  "@ =~= gap);
    assert("npm "@ =~= seq!['n', 'p', 'm', ' ']);
    assert("error"@ =~= seq!['e', 'r', 'r', 'o', 'r']);
    if row.len() >= 4 && row.take(4) == "npm "@ {
        assert(row.subrange(0, 4) =~= row.take(4));
    }
    if row.len() >= 5 && row.take(5) == "error"@ {
        assert(row.subrange(0, 5) =~= row.take(5));
    }
    text::law_text_position_is_the_first(row, gap);
    if let Some(k) = text::text_position(row, gap) {
        let here = row.subrange(k, k + 2);
        assert(here[0] == row[k] && here[1] == row[k + 1]);
    }
}

// ── What is stripped from a text ─────────────────────────────────────

/// An escape sequence, up to its `m`, is cut out between what stands before and
/// behind it; one without an end is cut off with all behind it.
pub proof fn law_escape_is_cut_out(before: Seq<char>, code: Seq<char>, after: Seq<char>)
    requires
        !before.contains('\x1b'),
        !code.contains('m'),
    ensures
        without_escapes(before + seq!['\x1b'] + code + seq!['m'] + after) == before
            + without_escapes(after),
        without_escapes(before + seq!['\x1b'] + code) == before,
    decreases before.len(),
{
    let all = before + seq!['\x1b'] + code + seq!['m'] + after;
    let open = before + seq!['\x1b'] + code;
    if before.len() == 0 {
        let rest = code + seq!['m'] + after;
        let n = code.len() as int;
        assert(all.drop_first() =~= rest);
        assert(all[0] == '\x1b');
        assert forall|j: int| 0 <= j < n implies rest[j] != 'm' by {
            assert(code.contains(code[j]));
            assert(rest[j] == code[j]);
        }
        text::lemma_position_is(rest, 'm', n);
        assert(rest.skip(n + 1) =~= after);
        assert(before + without_escapes(after) =~= without_escapes(after));
        assert(open.drop_first() =~= code);
        assert(open[0] == '\x1b');
        text::lemma_position(code, 'm');
        assert(without_escapes(open) =~= before);
    } else {
        let rest = before.drop_first();
        assert(before.contains(before[0]));
        assert forall|c: char| rest.contains(c) implies before.contains(c) by {
            let i = choose|i: int| 0 <= i < rest.len() && rest[i] == c;
            assert(before[i + 1] == c);
        }
        law_escape_is_cut_out(rest, code, after);
        assert(all[0] == before[0] && open[0] == before[0]);
        assert(all.drop_first() =~= rest + seq!['\x1b'] + code + seq!['m'] + after);
        assert(open.drop_first() =~= rest + seq!['\x1b'] + code);
        assert(seq![before[0]] + (rest + without_escapes(after)) =~= before + without_escapes(
            after,
        ));
        assert(seq![before[0]] + rest =~= before);
    }
}

} // verus!
