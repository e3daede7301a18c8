//! The files in a bot's workspace.

use vstd::prelude::*;
use crate::error;
use crate::error::{AppError, ErrorView, IoErrorKind};
use crate::paths;
use crate::text;
use crate::unicode;

verus! {

// ── Access ───────────────────────────────────────────────────────────

/// The size, in bytes, above which a file is not read.
pub const MAX_FILE_SIZE: u64 = 1048576;

/// The verdict on a request for a path, given the workspace it has to lie in.
pub open spec fn access_verdict(target: Seq<Seq<u8>>, base: Seq<Seq<u8>>) -> Result<
    (),
    ErrorView,
> {
    if paths::lies_in(target, base) {
        Ok(())
    } else {
        Err(ErrorView::Io(IoErrorKind::PermissionDenied, "Path traversal not allowed"@))
    }
}

/// Access is granted exactly to the workspace and what lies below it.
pub proof fn law_access_stays_inside(target: Seq<Seq<u8>>, base: Seq<Seq<u8>>)
    ensures
        access_verdict(target, base) is Ok <==> exists|rest: Seq<Seq<u8>>|
            target == #[trigger] (base + rest),
{
    paths::law_lies_in_means_extends(target, base);
}

/// Check that a path lies in the workspace, both with all links resolved.
pub fn check_access(target: &[Vec<u8>], base: &[Vec<u8>]) -> (r: Result<(), AppError>)
    ensures
        error::outcome(r) == access_verdict(
            paths::components(target@),
            paths::components(base@),
        ),
{
    if paths::is_within(target, base) {
        Ok(())
    } else {
        Err(AppError::Io(IoErrorKind::PermissionDenied, "Path traversal not allowed".to_string()))
    }
}

/// The verdict on a request to read a file of the given size.
pub open spec fn read_verdict(target: Seq<Seq<u8>>, base: Seq<Seq<u8>>, size: u64) -> Result<
    (),
    ErrorView,
> {
    if access_verdict(target, base) is Err {
        access_verdict(target, base)
    } else if size > MAX_FILE_SIZE {
        Err(ErrorView::Io(IoErrorKind::Other, "File too large (max 1MB)"@))
    } else {
        Ok(())
    }
}

/// Check that a file may be read: it lies in the workspace and is not too
/// large.
pub fn read_workspace_file(target: &[Vec<u8>], base: &[Vec<u8>], size: u64) -> (r: Result<
    (),
    AppError,
>)
    ensures
        error::outcome(r) == read_verdict(
            paths::components(target@),
            paths::components(base@),
            size,
        ),
{
    check_access(target, base)?;
    if size > MAX_FILE_SIZE {
        return Err(AppError::Io(IoErrorKind::Other, "File too large (max 1MB)".to_string()));
    }
    Ok(())
}

/// The report on a workspace that cannot be found.
pub fn workspace_not_found(reason: &str) -> (r: AppError)
    ensures
        r@ == ErrorView::Io(IoErrorKind::NotFound, "Workspace path not found: "@ + reason@),
{
    AppError::Io(IoErrorKind::NotFound, text::concat2("Workspace path not found: ", reason))
}

/// The report on a path that cannot be found.
pub fn path_not_found(reason: &str) -> (r: AppError)
    ensures
        r@ == ErrorView::Io(IoErrorKind::NotFound, "Path not found: "@ + reason@),
{
    AppError::Io(IoErrorKind::NotFound, text::concat2("Path not found: ", reason))
}

// ── Entries ──────────────────────────────────────────────────────────

/// What a directory holds under a name.
#[derive(Debug)]
pub struct DirEntry {
    pub name: String,
    pub is_dir: bool,
    pub is_file: bool,
    pub len: u64,
}

/// A file or directory of the workspace, as it is shown.
#[derive(Debug)]
pub struct FileEntry {
    pub name: String,
    /// The path below the workspace.
    pub path: String,
    pub is_dir: bool,
    pub size: Option<u64>,
}

#[verifier::ext_equal]
pub struct FileEntryView {
    pub name: Seq<char>,
    pub path: Seq<char>,
    pub is_dir: bool,
    pub size: Option<u64>,
}

impl View for FileEntry {
    type V = FileEntryView;

    open spec fn view(&self) -> FileEntryView {
        FileEntryView {
            name: self.name@,
            path: self.path@,
            is_dir: self.is_dir,
            size: self.size,
        }
    }
}

pub open spec fn entry_views(v: Seq<FileEntry>) -> Seq<FileEntryView> {
    Seq::new(v.len(), |i: int| v[i]@)
}

/// Whether a name is that of a hidden file.
pub open spec fn is_hidden(name: Seq<char>) -> bool {
    name.len() > 0 && name[0] == '.'
}

/// An entry as it is shown, if it is: hidden ones are not. `sub` is the path
/// of the directory below the workspace, if it is not the workspace itself.
pub open spec fn shown_entry(entry: DirEntry, sub: Option<Seq<char>>) -> Option<FileEntryView> {
    if is_hidden(entry.name@) {
        None
    } else {
        Some(
            FileEntryView {
                name: entry.name@,
                path: match sub {
                    Some(dir) => dir + "/"@ + entry.name@,
                    None => entry.name@,
                },
                is_dir: entry.is_dir,
                size: if entry.is_file {
                    Some(entry.len)
                } else {
                    None
                },
            },
        )
    }
}

/// The entries of a directory that are shown, in the order of the directory.
pub open spec fn shown_entries(entries: Seq<DirEntry>, sub: Option<Seq<char>>) -> Seq<FileEntryView>
    decreases entries.len(),
{
    if entries.len() == 0 {
        seq![]
    } else {
        let before = shown_entries(entries.drop_last(), sub);
        match shown_entry(entries.last(), sub) {
            Some(entry) => before.push(entry),
            None => before,
        }
    }
}

/// Whether the first text comes before the second in the order of the
/// characters' code points.
pub open spec fn lex_less(a: Seq<char>, b: Seq<char>) -> bool
    decreases b.len(),
{
    if b.len() == 0 {
        false
    } else if a.len() == 0 {
        true
    } else if a[0] != b[0] {
        a[0] < b[0]
    } else {
        lex_less(a.drop_first(), b.drop_first())
    }
}

/// An entry with the key by which it is ordered.
#[verifier::ext_equal]
pub struct KeyedView {
    pub key: Seq<char>,
    pub entry: FileEntryView,
}

/// Entries with their names in lower case as keys.
pub open spec fn with_keys(v: Seq<FileEntryView>) -> Seq<KeyedView> {
    v.map_values(
        |entry: FileEntryView| KeyedView { key: unicode::lowercased(entry.name), entry },
    )
}

pub open spec fn without_keys(v: Seq<KeyedView>) -> Seq<FileEntryView> {
    v.map_values(|k: KeyedView| k.entry)
}

/// Whether the first entry is shown before the second whatever the order of
/// the directory: directories come first, then the keys decide.
pub open spec fn comes_before(a: KeyedView, b: KeyedView) -> bool {
    if a.entry.is_dir != b.entry.is_dir {
        a.entry.is_dir
    } else {
        lex_less(a.key, b.key)
    }
}

/// How many of the entries stand before a new one: all up to the last that
/// the new one does not come before.
pub open spec fn slot(v: Seq<KeyedView>, x: KeyedView) -> nat
    decreases v.len(),
{
    if v.len() > 0 && comes_before(x, v.last()) {
        slot(v.drop_last(), x)
    } else {
        v.len()
    }
}

/// The entries in the order in which they are shown.
pub open spec fn in_order(v: Seq<KeyedView>) -> Seq<KeyedView>
    decreases v.len(),
{
    if v.len() == 0 {
        v
    } else {
        let before = in_order(v.drop_last());
        before.insert(slot(before, v.last()) as int, v.last())
    }
}

/// The entries of a directory as they are listed.
pub open spec fn listing(entries: Seq<DirEntry>, sub: Option<Seq<char>>) -> Seq<FileEntryView> {
    without_keys(in_order(with_keys(shown_entries(entries, sub))))
}

fn less(a: &[char], b: &[char]) -> (r: bool)
    ensures
        r == lex_less(a@, b@),
{
    let mut i: usize = 0;
    assert(a@.skip(0) == a@ && b@.skip(0) == b@);
    while i < a.len() && i < b.len()
        invariant
            i <= a@.len(),
            i <= b@.len(),
            lex_less(a@, b@) == lex_less(a@.skip(i as int), b@.skip(i as int)),
        decreases b@.len() - i,
    {
        let ghost x = a@.skip(i as int);
        let ghost y = b@.skip(i as int);
        assert(x[0] == a@[i as int] && y[0] == b@[i as int]);
        if a[i] != b[i] {
            return a[i] < b[i];
        }
        assert(x.drop_first() == a@.skip(i + 1) && y.drop_first() == b@.skip(i + 1));
        i += 1;
    }
    i < b.len()
}

/// An entry with the key by which it is ordered.
#[derive(Debug)]
pub struct KeyedEntry {
    pub key: String,
    pub entry: FileEntry,
}

impl View for KeyedEntry {
    type V = KeyedView;

    open spec fn view(&self) -> KeyedView {
        KeyedView { key: self.key@, entry: self.entry@ }
    }
}

pub open spec fn keyed_views(v: Seq<KeyedEntry>) -> Seq<KeyedView> {
    Seq::new(v.len(), |i: int| v[i]@)
}

fn precedes(a: &KeyedEntry, b: &KeyedEntry) -> (r: bool)
    ensures
        r == comes_before(a@, b@),
{
    if a.entry.is_dir != b.entry.is_dir {
        a.entry.is_dir
    } else {
        less(
            text::chars_of(a.key.as_str()).as_slice(),
            text::chars_of(b.key.as_str()).as_slice(),
        )
    }
}

/// Put entries in the order in which they are shown, by the given keys.
pub fn sort_entries(entries: Vec<KeyedEntry>) -> (r: Vec<FileEntry>)
    ensures
        entry_views(r@) == without_keys(in_order(keyed_views(entries@))),
{
    let ghost all = keyed_views(entries@);
    let mut sorted: Vec<KeyedEntry> = Vec::new();
    assert(all.take(0).len() == 0);
    assert(keyed_views(sorted@) == in_order(all.take(0)));
    for new in it: entries
        invariant
            it.seq() == entries@,
            all == keyed_views(entries@),
            keyed_views(sorted@) == in_order(all.take(it.index() as int)),
    {
        let ghost x = new@;
        let ghost views = keyed_views(sorted@);
        let ghost i = it.index() as int;
        assert(all.take(i + 1).drop_last() == all.take(i));
        assert(all.take(i + 1).last() == x);
        let mut at: usize = sorted.len();
        assert(views.take(at as int) == views);
        while at > 0 && precedes(&new, &sorted[at - 1])
            invariant
                at <= sorted@.len(),
                views == keyed_views(sorted@),
                new@ == x,
                slot(views, x) == slot(views.take(at as int), x),
            decreases at,
        {
            assert(views.take(at as int).last() == sorted@[at - 1]@);
            assert(views.take(at as int).drop_last() == views.take(at - 1));
            at -= 1;
        }
        assert(at > 0 ==> views.take(at as int).last() == sorted@[at - 1]@);
        assert(slot(views, x) == at);
        sorted.insert(at, new);
        assert(keyed_views(sorted@) == views.insert(at as int, x));
    }
    assert(all.take(all.len() as int) == all);
    let ghost done = sorted@;
    let mut r: Vec<FileEntry> = Vec::new();
    for k in it: sorted
        invariant
            it.seq() == done,
            r@.len() == it.index(),
            forall|j: int| 0 <= j < r@.len() ==> (#[trigger] r@[j])@ == done[j].entry@,
    {
        r.push(k.entry);
    }
    assert(entry_views(r@) == without_keys(keyed_views(done)));
    r
}

fn show_entry(entry: &DirEntry, sub: Option<&str>) -> (r: Option<FileEntry>)
    ensures
        text::option_view(r) == shown_entry(*entry, text::option_view(sub)),
{
    let chars = text::chars_of(entry.name.as_str());
    if text::starts_with_char(chars.as_slice(), '.') {
        return None;
    }
    let path = match sub {
        Some(dir) => text::concat3(dir, "/", entry.name.as_str()),
        None => entry.name.clone(),
    };
    Some(
        FileEntry {
            name: entry.name.clone(),
            path,
            is_dir: entry.is_dir,
            size: if entry.is_file {
                Some(entry.len)
            } else {
                None
            },
        },
    )
}

/// Make the list of a directory's entries: hidden ones are left out,
/// directories come first, and the names decide within both groups.
pub fn list_workspace_files(entries: &[DirEntry], sub: Option<&str>) -> (r: Vec<FileEntry>)
    ensures
        entry_views(r@) == listing(entries@, text::option_view(sub)),
{
    let ghost dir = text::option_view(sub);
    let mut keyed: Vec<KeyedEntry> = Vec::new();
    assert(entries@.take(0) == Seq::<DirEntry>::empty());
    assert(keyed_views(keyed@) == with_keys(shown_entries(entries@.take(0), dir)));
    for i in 0..entries.len()
        invariant
            dir == text::option_view(sub),
            keyed_views(keyed@) == with_keys(shown_entries(entries@.take(i as int), dir)),
    {
        let ghost before = keyed_views(keyed@);
        assert(entries@.take(i + 1).drop_last() == entries@.take(i as int));
        assert(entries@.take(i + 1).last() == entries@[i as int]);
        if let Some(entry) = show_entry(&entries[i], sub) {
            let new = KeyedEntry { key: entry.name.to_lowercase(), entry };
            let ghost added = new@;
            keyed.push(new);
            assert(keyed_views(keyed@) == before.push(added));
            assert(keyed_views(keyed@) == with_keys(shown_entries(entries@.take(i + 1), dir)));
        }
    }
    assert(entries@.take(entries@.len() as int) == entries@);
    sort_entries(keyed)
}

// ── The order of a list ──────────────────────────────────────────────

/// No text comes before itself, of two different texts one comes before the
/// other, and never both.
proof fn lemma_lex_total(a: Seq<char>, b: Seq<char>)
    ensures
        !(lex_less(a, b) && lex_less(b, a)),
        lex_less(a, b) || lex_less(b, a) || a == b,
    decreases b.len(),
{
    if a.len() > 0 && b.len() > 0 && a[0] == b[0] {
        lemma_lex_total(a.drop_first(), b.drop_first());
        if a.drop_first() == b.drop_first() {
            assert(a == seq![a[0]] + a.drop_first());
            assert(b == seq![b[0]] + b.drop_first());
        }
    }
}

/// A text that comes before another one comes before all that do not come
/// before that one.
proof fn lemma_lex_chain(a: Seq<char>, b: Seq<char>, c: Seq<char>)
    requires
        lex_less(a, b),
        !lex_less(c, b),
    ensures
        lex_less(a, c),
    decreases b.len(),
{
    if c.len() > 0 && a.len() > 0 && a[0] == b[0] && b[0] == c[0] {
        lemma_lex_chain(a.drop_first(), b.drop_first(), c.drop_first());
    }
}

/// Of two entries at most one comes before the other.
pub proof fn law_order_is_asymmetric(a: KeyedView, b: KeyedView)
    ensures
        !(comes_before(a, b) && comes_before(b, a)),
{
    lemma_lex_total(a.key, b.key);
}

/// An entry that comes before another one comes before all that do not come
/// before that one.
pub proof fn law_order_is_transitive(a: KeyedView, b: KeyedView, c: KeyedView)
    requires
        comes_before(a, b),
        !comes_before(c, b),
    ensures
        comes_before(a, c),
{
    if a.entry.is_dir == b.entry.is_dir && b.entry.is_dir == c.entry.is_dir {
        lemma_lex_chain(
            a.key,
            b.key,
            c.key,
        );
    }
}

/// A new entry is put before exactly those that follow its slot.
proof fn lemma_slot(v: Seq<KeyedView>, x: KeyedView)
    ensures
        slot(v, x) <= v.len(),
        slot(v, x) > 0 ==> !comes_before(x, v[slot(v, x) - 1]),
        forall|i: int| slot(v, x) <= i < v.len() ==> comes_before(x, #[trigger] v[i]),
    decreases v.len(),
{
    if v.len() > 0 && comes_before(x, v.last()) {
        lemma_slot(v.drop_last(), x);
        assert forall|i: int| slot(v, x) <= i < v.len() implies comes_before(
            x,
            #[trigger] v[i],
        ) by {
            if i < v.len() - 1 {
                assert(v.drop_last()[i] == v[i]);
            }
        }
    }
}

/// Whether no entry comes before one that stands above it.
pub open spec fn is_ordered(v: Seq<KeyedView>) -> bool {
    forall|i: int, j: int| 0 <= i < j < v.len() ==> !comes_before(#[trigger] v[j], #[trigger] v[i])
}

/// In a list no entry comes before one that stands above it.
pub proof fn law_list_is_ordered(v: Seq<KeyedView>)
    ensures
        is_ordered(in_order(v)),
    decreases v.len(),
{
    if v.len() > 0 {
        let before = in_order(v.drop_last());
        let x = v.last();
        let at = slot(before, x) as int;
        let list = in_order(v);
        law_list_is_ordered(v.drop_last());
        lemma_slot(before, x);
        assert(list == before.insert(at, x));
        assert forall|i: int, j: int| 0 <= i < j < list.len() implies !comes_before(
            #[trigger] list[j],
            #[trigger] list[i],
        ) by {
            if j == at {
                assert(list[i] == before[i]);
                if comes_before(x, before[i]) {
                    if i < at - 1 {
                        assert(!comes_before(before[at - 1], before[i]));
                        law_order_is_transitive(x, before[i], before[at - 1]);
                    }
                }
            } else if i == at {
                assert(list[j] == before[j - 1]);
                law_order_is_asymmetric(x, before[j - 1]);
            } else {
                let k = if i < at {
                    i
                } else {
                    i - 1
                };
                let l = if j < at {
                    j
                } else {
                    j - 1
                };
                assert(list[i] == before[k] && list[j] == before[l]);
            }
        }
    }
}

/// A list holds the entries it is made of, each as often as it is given.
pub proof fn law_list_keeps_entries(v: Seq<KeyedView>)
    ensures
        in_order(v).to_multiset() == v.to_multiset(),
    decreases v.len(),
{
    if v.len() > 0 {
        let before = in_order(v.drop_last());
        let x = v.last();
        let at = slot(before, x) as int;
        let list = in_order(v);
        law_list_keeps_entries(v.drop_last());
        lemma_slot(before, x);
        assert(list.remove(at) == before);
        assert(list[at] == x);
        list.to_multiset_ensures();
        before.to_multiset_ensures();
        v.drop_last().to_multiset_ensures();
        assert(v.drop_last().push(x) == v);
        assert(list.contains(x));
        assert(list.to_multiset().count(x) > 0);
        assert(list.to_multiset() =~= before.to_multiset().insert(x));
    }
}

/// Whether two entries take the same place in the order of a list.
pub open spec fn same_place(a: KeyedView) -> spec_fn(KeyedView) -> bool {
    |b: KeyedView|
        a.entry.is_dir == b.entry.is_dir && a.key == b.key
}

/// Entries that take the same place keep the order in which they are given.
#[verifier::rlimit(40)]
pub proof fn law_list_is_stable(v: Seq<KeyedView>, a: KeyedView)
    ensures
        in_order(v).filter(same_place(a)) == v.filter(same_place(a)),
    decreases v.len(),
{
    if v.len() > 0 {
        let p = same_place(a);
        let before = in_order(v.drop_last());
        let x = v.last();
        let at = slot(before, x) as int;
        law_list_is_stable(v.drop_last(), a);
        lemma_slot(before, x);
        let head = before.take(at);
        let tail = before.skip(at);
        assert(before == head + tail);
        assert(in_order(v) == head + (seq![x] + tail));
        Seq::filter_distributes_over_add(head, tail, p);
        Seq::filter_distributes_over_add(head, seq![x] + tail, p);
        Seq::filter_distributes_over_add(seq![x], tail, p);
        assert(v == v.drop_last() + seq![x]);
        Seq::filter_distributes_over_add(v.drop_last(), seq![x], p);
        reveal_with_fuel(Seq::filter, 2);
        if p(x) {
            assert forall|i: int| 0 <= i < tail.len() implies !p(#[trigger] tail[i]) by {
                assert(tail[i] == before[at + i]);
                law_order_is_asymmetric(x, tail[i]);
            }
            lemma_filter_none(tail, p);
            assert(seq![x].filter(p) == seq![x]);
            assert(in_order(v).filter(p) == before.filter(p) + seq![x]);
        } else {
            assert(seq![x].filter(p) == Seq::<KeyedView>::empty());
            assert(in_order(v).filter(p) == before.filter(p));
        }
    }
}

proof fn lemma_filter_none(v: Seq<KeyedView>, p: spec_fn(KeyedView) -> bool)
    requires
        forall|i: int| 0 <= i < v.len() ==> !p(#[trigger] v[i]),
    ensures
        v.filter(p) == Seq::<KeyedView>::empty(),
    decreases v.len(),
{
    reveal(Seq::filter);
    if v.len() > 0 {
        lemma_filter_none(v.drop_last(), p);
    }
}

/// A list shows no hidden file.
pub proof fn law_list_hides_hidden(entries: Seq<DirEntry>, sub: Option<Seq<char>>, i: int)
    requires
        0 <= i < listing(entries, sub).len(),
    ensures
        !is_hidden(listing(entries, sub)[i].name),
{
    let shown = shown_entries(entries, sub);
    let v = with_keys(shown);
    lemma_none_hidden(entries, sub);
    law_list_keeps_entries(v);
    v.to_multiset_ensures();
    in_order(v).to_multiset_ensures();
    let k = in_order(v)[i];
    assert(in_order(v).contains(k));
    assert(in_order(v).to_multiset().count(k) > 0);
    assert(v.to_multiset().count(k) > 0);
    assert(v.contains(k));
    let j = choose|j: int| 0 <= j < v.len() && v[j] == k;
    assert(shown[j] == k.entry);
}

proof fn lemma_none_hidden(entries: Seq<DirEntry>, sub: Option<Seq<char>>)
    ensures
        forall|i: int|
            0 <= i < shown_entries(entries, sub).len() ==> !is_hidden(
                (#[trigger] shown_entries(entries, sub)[i]).name,
            ),
    decreases entries.len(),
{
    if entries.len() > 0 {
        lemma_none_hidden(entries.drop_last(), sub);
    }
}

// ── What a list holds ────────────────────────────────────────────────

/// Whether the name of an entry starts with something else than a dot.
pub open spec fn has_plain_name() -> spec_fn(DirEntry) -> bool {
    |entry: DirEntry| !(entry.name@.len() > 0 && entry.name@[0] == '.')
}

/// What is to be seen of an entry in a list of the directory `sub`: its name, its
/// path below the workspace, its kind, and the size of a file.
pub open spec fn seen(entry: DirEntry, sub: Option<Seq<char>>) -> FileEntryView {
    FileEntryView {
        name: entry.name@,
        path: match sub {
            Some(dir) => dir + seq!['/'] + entry.name@,
            None => entry.name@,
        },
        is_dir: entry.is_dir,
        size: if entry.is_file {
            Some(entry.len)
        } else {
            None
        },
    }
}

proof fn lemma_shown_entries(entries: Seq<DirEntry>, sub: Option<Seq<char>>)
    ensures
        shown_entries(entries, sub) == entries.filter(has_plain_name()).map_values(
            |entry: DirEntry| seen(entry, sub),
        ),
    decreases entries.len(),
{
    let p = has_plain_name();
    let f = |entry: DirEntry| seen(entry, sub);
    reveal(Seq::filter);
    reveal_strlit("/");
    assert("/"@ =~= seq!['/']);
    if entries.len() > 0 {
        let init = entries.drop_last();
        let last = entries.last();
        lemma_shown_entries(init, sub);
        if p(last) {
            assert(entries.filter(p) == init.filter(p).push(last));
            assert(init.filter(p).push(last).map_values(f) =~= init.filter(p).map_values(f).push(
                f(last),
            ));
            assert(shown_entry(last, sub)->0 =~= f(last));
        }
    } else {
        assert(shown_entries(entries, sub) =~= entries.filter(p).map_values(f));
    }
}

proof fn lemma_listing_is_shuffled(entries: Seq<DirEntry>, sub: Option<Seq<char>>)
    ensures
        listing(entries, sub).to_multiset() == shown_entries(entries, sub).to_multiset(),
        listing(entries, sub).len() == shown_entries(entries, sub).len(),
{
    let shown = shown_entries(entries, sub);
    let v = with_keys(shown);
    law_list_keeps_entries(v);
    lemma_same_without_keys(in_order(v), v);
    assert(without_keys(v) =~= shown);
    in_order(v).to_multiset_ensures();
    v.to_multiset_ensures();
}

/// Entries without their keys are the same ones if the entries with them are.
proof fn lemma_same_without_keys(a: Seq<KeyedView>, b: Seq<KeyedView>)
    requires
        a.to_multiset() == b.to_multiset(),
    ensures
        without_keys(a).to_multiset() == without_keys(b).to_multiset(),
    decreases a.len(),
{
    a.to_multiset_ensures();
    b.to_multiset_ensures();
    assert(a.len() == b.len());
    if a.len() > 0 {
        let x = a.last();
        let init = a.drop_last();
        assert(init.push(x) =~= a);
        init.to_multiset_ensures();
        assert(a.contains(x));
        assert(b.to_multiset().count(x) > 0);
        assert(b.contains(x));
        let k = choose|k: int| 0 <= k < b.len() && b[k] == x;
        let rest = b.remove(k);
        rest.to_multiset_ensures();
        assert(rest.to_multiset() =~= init.to_multiset());
        lemma_same_without_keys(init, rest);
        let s = without_keys(init);
        let t = without_keys(rest);
        s.to_multiset_ensures();
        t.to_multiset_ensures();
        assert(without_keys(a) =~= s.push(x.entry));
        assert(without_keys(b).remove(k) =~= t);
        without_keys(b).to_multiset_ensures();
        without_keys(a).to_multiset_ensures();
        assert(without_keys(b)[k] == x.entry);
        assert(without_keys(b).contains(x.entry));
        assert(t.to_multiset() =~= without_keys(b).to_multiset().remove(x.entry));
        assert(without_keys(b).to_multiset() =~= t.to_multiset().insert(x.entry));
    } else {
        assert(without_keys(a) =~= without_keys(b));
    }
}

/// A list is complete: it holds every entry of the directory whose name does not
/// start with a dot, with its name, its path, its kind and its size, as often as
/// the directory does, and nothing else.
pub proof fn law_list_is_complete(entries: Seq<DirEntry>, sub: Option<Seq<char>>)
    ensures
        listing(entries, sub).len() == entries.filter(has_plain_name()).len(),
        listing(entries, sub).to_multiset() == entries.filter(has_plain_name()).map_values(
            |entry: DirEntry| seen(entry, sub),
        ).to_multiset(),
        forall|i: int|
            0 <= i < entries.len() && !((#[trigger] entries[i]).name@.len() > 0
                && entries[i].name@[0] == '.') ==> listing(entries, sub).contains(
                seen(entries[i], sub),
            ),
        forall|j: int|
            0 <= j < listing(entries, sub).len() ==> !((#[trigger] listing(entries, sub)[j]).name.len()
                > 0 && listing(entries, sub)[j].name[0] == '.'),
{
    let p = has_plain_name();
    let kept = entries.filter(p);
    let shown = shown_entries(entries, sub);
    let list = listing(entries, sub);
    lemma_shown_entries(entries, sub);
    lemma_listing_is_shuffled(entries, sub);
    shown.to_multiset_ensures();
    list.to_multiset_ensures();
    assert forall|i: int|
        0 <= i < entries.len() && !((#[trigger] entries[i]).name@.len() > 0 && entries[i].name@[0]
            == '.') implies list.contains(seen(entries[i], sub)) by {
        assert(p(entries[i]));
        entries.lemma_filter_contains(p, i);
        let k = choose|k: int| 0 <= k < kept.len() && kept[k] == entries[i];
        assert(shown[k] == seen(entries[i], sub));
        assert(shown.contains(seen(entries[i], sub)));
        assert(list.to_multiset().count(seen(entries[i], sub)) > 0);
    }
    assert forall|j: int| 0 <= j < list.len() implies !((#[trigger] list[j]).name.len() > 0
        && list[j].name[0] == '.') by {
        law_list_hides_hidden(entries, sub, j);
    }
}

/// Directories are listed before files, and each kind in the order of the names
/// in lower case.
pub proof fn law_names_are_in_order(entries: Seq<DirEntry>, sub: Option<Seq<char>>, i: int, j: int)
    requires
        0 <= i < j < listing(entries, sub).len(),
    ensures
        ({
            let a = listing(entries, sub)[i];
            let b = listing(entries, sub)[j];
            &&& b.is_dir ==> a.is_dir
            &&& a.is_dir == b.is_dir ==> !lex_less(
                unicode::lowercased(b.name),
                unicode::lowercased(a.name),
            )
        }),
{
    let v = with_keys(shown_entries(entries, sub));
    law_list_is_ordered(v);
    let x = in_order(v)[i];
    let y = in_order(v)[j];
    assert(!comes_before(y, x));
    lemma_keys_are_kept(v);
}

proof fn lemma_keys_are_kept(v: Seq<KeyedView>)
    requires
        forall|i: int|
            0 <= i < v.len() ==> (#[trigger] v[i]).key == unicode::lowercased(v[i].entry.name),
    ensures
        forall|i: int|
            0 <= i < in_order(v).len() ==> (#[trigger] in_order(v)[i]).key == unicode::lowercased(
                in_order(v)[i].entry.name,
            ),
    decreases v.len(),
{
    if v.len() > 0 {
        let init = v.drop_last();
        let x = v.last();
        assert(x == v[v.len() - 1]);
        assert forall|i: int| 0 <= i < init.len() implies (#[trigger] init[i]).key
            == unicode::lowercased(init[i].entry.name) by {
            assert(init[i] == v[i]);
        }
        lemma_keys_are_kept(init);
        let before = in_order(init);
        let at = slot(before, x) as int;
        lemma_slot(before, x);
        let list = in_order(v);
        assert(list == before.insert(at, x));
        assert forall|i: int| 0 <= i < list.len() implies (#[trigger] list[i]).key
            == unicode::lowercased(list[i].entry.name) by {
            if i < at {
                assert(list[i] == before[i]);
            } else if i > at {
                assert(list[i] == before[i - 1]);
            }
        }
    }
}

/// Texts are ordered by the first character in which they differ, and a text
/// comes before all longer ones that start with it.
pub proof fn law_first_difference_decides(
    start: Seq<char>,
    x: char,
    a: Seq<char>,
    y: char,
    b: Seq<char>,
)
    requires
        x != y,
    ensures
        lex_less(start + seq![x] + a, start + seq![y] + b) <==> x < y,
        lex_less(start, start + seq![x] + a),
        !lex_less(start + seq![x] + a, start),
        !lex_less(start, start),
    decreases start.len(),
{
    let s = start + seq![x] + a;
    let t = start + seq![y] + b;
    if start.len() > 0 {
        let rest = start.drop_first();
        law_first_difference_decides(rest, x, a, y, b);
        assert(s.drop_first() =~= rest + seq![x] + a);
        assert(t.drop_first() =~= rest + seq![y] + b);
        assert(s[0] == start[0] && t[0] == start[0]);
    } else {
        assert(s[0] == x && t[0] == y);
    }
}

/// A file may be read exactly if its path extends that of the workspace and it
/// has at most a mebibyte.
pub proof fn law_small_files_inside_are_read(
    target: Seq<Seq<u8>>,
    base: Seq<Seq<u8>>,
    size: u64,
)
    ensures
        read_verdict(target, base, size) is Ok <==> base.len() <= target.len() && target.take(
            base.len() as int,
        ) == base && size <= 1048576,
        access_verdict(target, base) is Ok <==> base.len() <= target.len() && target.take(
            base.len() as int,
        ) == base,
        access_verdict(target, base) matches Err(e) ==> e == ErrorView::Io(
            IoErrorKind::PermissionDenied,
            "Path traversal not allowed"@,
        ),
        read_verdict(target, base, size) matches Err(e) ==> e == (if access_verdict(target, base)
            is Err {
            ErrorView::Io(IoErrorKind::PermissionDenied, "Path traversal not allowed"@)
        } else {
            ErrorView::Io(IoErrorKind::Other, "File too large (max 1MB)"@)
        }),
{
    if base.len() <= target.len() {
        assert(target.take(base.len() as int) =~= target.subrange(0, base.len() as int));
    }
}

} // verus!
