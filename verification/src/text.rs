//! Text as sequences of characters: the operations the commands are built from.
//!
//! A string is viewed as a `Seq<char>`. Executable code works on slices of
//! characters, so that a piece of a text is a subrange of it.

use vstd::prelude::*;
use vstd::slice::slice_subrange;
use vstd::string::StringExecFns;

verus! {

// ── Characters ───────────────────────────────────────────────────────

/// The characters with the Unicode property `White_Space`.
pub open spec fn is_white_space(c: char) -> bool {
    ||| '\u{9}' <= c <= '\u{d}'
    ||| c == ' '
    ||| c == '\u{85}'
    ||| c == '\u{a0}'
    ||| c == '\u{1680}'
    ||| '\u{2000}' <= c <= '\u{200a}'
    ||| c == '\u{2028}'
    ||| c == '\u{2029}'
    ||| c == '\u{202f}'
    ||| c == '\u{205f}'
    ||| c == '\u{3000}'
}

pub open spec fn is_ascii_digit(c: char) -> bool {
    '0' <= c <= '9'
}

pub open spec fn is_ascii_alphanumeric(c: char) -> bool {
    is_ascii_digit(c) || 'a' <= c <= 'z' || 'A' <= c <= 'Z'
}

pub fn white_space(c: char) -> (r: bool)
    ensures
        r == is_white_space(c),
{
    ('\u{9}' <= c && c <= '\u{d}') || c == ' ' || c == '\u{85}' || c == '\u{a0}' || c == '\u{1680}'
        || ('\u{2000}' <= c && c <= '\u{200a}') || c == '\u{2028}' || c == '\u{2029}'
        || c == '\u{202f}' || c == '\u{205f}' || c == '\u{3000}'
}

pub fn ascii_digit(c: char) -> (r: bool)
    ensures
        r == is_ascii_digit(c),
{
    '0' <= c && c <= '9'
}

pub fn ascii_alphanumeric(c: char) -> (r: bool)
    ensures
        r == is_ascii_alphanumeric(c),
{
    ascii_digit(c) || ('a' <= c && c <= 'z') || ('A' <= c && c <= 'Z')
}

// ── Strings and characters ───────────────────────────────────────────

/// `String::push`: the character goes to the end of the string.
pub assume_specification[ String::push ](s: &mut String, c: char)
    ensures
        final(s)@ == old(s)@.push(c),
;

/// The characters of a string, in order.
pub fn chars_of(s: &str) -> (cs: Vec<char>)
    ensures
        cs@ == s@,
{
    let mut cs: Vec<char> = Vec::new();
    for c in it: s.chars()
        invariant
            it.seq() == s@,
            cs@ == s@.take(it.index() as int),
    {
        cs.push(c);
    }
    cs
}

/// The string made of the given characters, in order.
pub fn string_of(cs: &[char]) -> (s: String)
    ensures
        s@ == cs@,
{
    let mut s = String::new();
    for i in 0..cs.len()
        invariant
            s@ == cs@.take(i as int),
    {
        s.push(cs[i]);
    }
    s
}

/// The texts of a sequence of strings.
pub open spec fn texts(v: Seq<String>) -> Seq<Seq<char>> {
    Seq::new(v.len(), |i: int| v[i]@)
}

/// The texts of a sequence of character slices.
pub open spec fn slices(v: Seq<&[char]>) -> Seq<Seq<char>> {
    Seq::new(v.len(), |i: int| v[i]@)
}

/// The texts of a sequence of string slices.
pub open spec fn strs(v: Seq<&str>) -> Seq<Seq<char>> {
    Seq::new(v.len(), |i: int| v[i]@)
}

/// An optional value by its view.
pub open spec fn option_view<T: View>(o: Option<T>) -> Option<T::V> {
    match o {
        Some(v) => Some(v@),
        None => None,
    }
}

/// Whether two texts are the same.
pub fn same(a: &[char], b: &[char]) -> (r: bool)
    ensures
        r == (a@ == b@),
{
    if a.len() != b.len() {
        return false;
    }
    for i in 0..a.len()
        invariant
            a@.len() == b@.len(),
            a@.take(i as int) == b@.take(i as int),
    {
        if a[i] != b[i] {
            assert(a@[i as int] != b@[i as int]);
            return false;
        }
        assert(a@.take(i + 1) == a@.take(i as int).push(a@[i as int]));
        assert(b@.take(i + 1) == b@.take(i as int).push(b@[i as int]));
    }
    assert(a@.take(a@.len() as int) == a@);
    assert(b@.take(b@.len() as int) == b@);
    true
}

/// Whether two strings are the same.
pub fn same_str(a: &str, b: &str) -> (r: bool)
    ensures
        r == (a@ == b@),
{
    same(chars_of(a).as_slice(), chars_of(b).as_slice())
}

/// Whether `s` is one of the given texts.
pub fn listed(list: &[&str], s: &[char]) -> (r: bool)
    ensures
        r == strs(list@).contains(s@),
{
    for i in 0..list.len()
        invariant
            forall|j: int| 0 <= j < i ==> strs(list@)[j] != s@,
    {
        if same(chars_of(list[i]).as_slice(), s) {
            assert(strs(list@)[i as int] == s@);
            return true;
        }
    }
    false
}

/// `a` followed by `b`.
pub fn concat2(a: &str, b: &str) -> (s: String)
    ensures
        s@ == a@ + b@,
{
    let mut s = a.to_string();
    s.append(b);
    s
}

/// `a` followed by `b` and `c`.
pub fn concat3(a: &str, b: &str, c: &str) -> (s: String)
    ensures
        s@ == a@ + b@ + c@,
{
    let mut s = a.to_string();
    s.append(b);
    s.append(c);
    s
}

/// The decimal digits of `n`.
pub open spec fn decimal(n: nat) -> Seq<char>
    decreases n,
{
    let digit = (('0' as nat) + n % 10) as char;
    if n < 10 {
        seq![digit]
    } else {
        decimal(n / 10).push(digit)
    }
}

/// `n` in decimal notation.
pub fn decimal_string(n: u64) -> (s: String)
    ensures
        s@ == decimal(n as nat),
    decreases n,
{
    let digit = (48u8 + (n % 10) as u8) as char;
    if n < 10 {
        let mut s = String::new();
        s.push(digit);
        s
    } else {
        let mut s = decimal_string(n / 10);
        s.push(digit);
        s
    }
}

// ── Prefixes, suffixes and occurrences ───────────────────────────────

/// Whether `p` occurs in `s` at position `i`.
pub open spec fn occurs_at(s: Seq<char>, p: Seq<char>, i: int) -> bool {
    0 <= i <= s.len() - p.len() && s.subrange(i, i + p.len()) == p
}

/// Whether `p` occurs somewhere in `s`.
pub open spec fn contains_text(s: Seq<char>, p: Seq<char>) -> bool {
    exists|i: int| occurs_at(s, p, i)
}

/// A text starts with the first character of its prefixes.
pub proof fn lemma_prefix_first(s: Seq<char>, p: Seq<char>)
    requires
        p.len() > 0,
    ensures
        p.is_prefix_of(s) ==> s[0] == p[0],
{
    if p.is_prefix_of(s) {
        assert(s.subrange(0, p.len() as int)[0] == s[0]);
    }
}

/// What is left of `s` without the prefix `p`, if it has it.
pub open spec fn without_prefix(s: Seq<char>, p: Seq<char>) -> Option<Seq<char>> {
    if p.is_prefix_of(s) {
        Some(s.skip(p.len() as int))
    } else {
        None
    }
}

fn matches_at(s: &[char], p: &[char], i: usize) -> (r: bool)
    ensures
        r == occurs_at(s@, p@, i as int),
{
    if p.len() > s.len() || i > s.len() - p.len() {
        return false;
    }
    same(slice_subrange(s, i, i + p.len()), p)
}

pub fn starts_with(s: &[char], p: &str) -> (r: bool)
    ensures
        r == p@.is_prefix_of(s@),
{
    matches_at(s, chars_of(p).as_slice(), 0)
}

pub fn ends_with(s: &[char], p: &str) -> (r: bool)
    ensures
        r == p@.is_suffix_of(s@),
{
    let p = chars_of(p);
    p.len() <= s.len() && matches_at(s, p.as_slice(), s.len() - p.len())
}

pub fn starts_with_char(s: &[char], c: char) -> (r: bool)
    ensures
        r == (s@.len() > 0 && s@[0] == c),
{
    s.len() > 0 && s[0] == c
}

pub fn strip_prefix<'a>(s: &'a [char], p: &str) -> (r: Option<&'a [char]>)
    ensures
        match r {
            Some(rest) => without_prefix(s@, p@) == Some(rest@),
            None => without_prefix(s@, p@) is None,
        },
{
    let p = chars_of(p);
    if matches_at(s, p.as_slice(), 0) {
        Some(slice_subrange(s, p.len(), s.len()))
    } else {
        None
    }
}

pub fn contains_char(s: &[char], c: char) -> (r: bool)
    ensures
        r == s@.contains(c),
{
    for i in 0..s.len()
        invariant
            forall|j: int| 0 <= j < i ==> s@[j] != c,
    {
        if s[i] == c {
            assert(s@[i as int] == c);
            return true;
        }
    }
    false
}

pub fn contains(s: &[char], p: &str) -> (r: bool)
    ensures
        r == contains_text(s@, p@),
{
    let pat = chars_of(p);
    if pat.len() > s.len() {
        return false;
    }
    let last = s.len() - pat.len();
    let mut i: usize = 0;
    while i < last && !matches_at(s, pat.as_slice(), i)
        invariant
            pat@ == p@,
            i <= last == s@.len() - p@.len(),
            forall|j: int| 0 <= j < i ==> !occurs_at(s@, p@, j),
        decreases last - i,
    {
        i += 1;
    }
    matches_at(s, pat.as_slice(), i)
}

/// The position of the first `c` in `s`, or the length of `s` if there is none.
pub open spec fn position(s: Seq<char>, c: char) -> nat
    decreases s.len(),
{
    if s.len() == 0 || s[0] == c {
        0
    } else {
        1 + position(s.drop_first(), c)
    }
}

/// The position is within the text, is that of a `c`, and no `c` stands before it.
pub proof fn lemma_position(s: Seq<char>, c: char)
    ensures
        0 <= position(s, c) <= s.len(),
        position(s, c) < s.len() ==> s[position(s, c) as int] == c,
        forall|j: int| 0 <= j < position(s, c) ==> s[j] != c,
        position(s, c) < s.len() <==> s.contains(c),
    decreases s.len(),
{
    if s.len() > 0 && s[0] != c {
        let t = s.drop_first();
        lemma_position(t, c);
        assert forall|j: int| 0 <= j < position(s, c) implies s[j] != c by {
            if j > 0 {
                assert(t[j - 1] == s[j]);
            }
        }
        if s.contains(c) {
            let i = choose|i: int| 0 <= i < s.len() && s[i] == c;
            assert(t[i - 1] == c);
        }
    }
}

/// A position with those properties is the position of the first `c`.
pub proof fn lemma_position_is(s: Seq<char>, c: char, k: int)
    requires
        0 <= k <= s.len(),
        k < s.len() ==> s[k] == c,
        forall|j: int| 0 <= j < k ==> s[j] != c,
    ensures
        position(s, c) == k,
{
    lemma_position(s, c);
    let p = position(s, c) as int;
    if p < k {
        assert(s[p] == c);
    }
}

pub fn find_char(s: &[char], c: char) -> (r: usize)
    ensures
        r == position(s@, c),
        r <= s@.len(),
{
    let mut i: usize = 0;
    while i < s.len() && s[i] != c
        invariant
            i <= s@.len(),
            forall|j: int| 0 <= j < i ==> s@[j] != c,
        decreases s@.len() - i,
    {
        i += 1;
    }
    proof {
        lemma_position_is(s@, c, i as int);
    }
    i
}

/// The position of the last `c` in `s`, if there is one.
pub open spec fn last_position(s: Seq<char>, c: char) -> Option<int>
    decreases s.len(),
{
    if s.len() == 0 {
        None
    } else if s.last() == c {
        Some(s.len() - 1)
    } else {
        last_position(s.drop_last(), c)
    }
}

pub fn rfind_char(s: &[char], c: char) -> (r: Option<usize>)
    ensures
        match r {
            Some(i) => i < s@.len() && last_position(s@, c) == Some(i as int),
            None => last_position(s@, c) is None,
        },
{
    let mut n: usize = s.len();
    assert(s@.take(n as int) == s@);
    while n > 0
        invariant
            n <= s@.len(),
            last_position(s@, c) == last_position(s@.take(n as int), c),
        decreases n,
    {
        assert(s@.take(n as int).last() == s@[n - 1]);
        assert(s@.take(n as int).drop_last() == s@.take(n - 1));
        if s[n - 1] == c {
            return Some(n - 1);
        }
        n -= 1;
    }
    None
}

/// The position of the first occurrence of `p` in `s`, if there is one.
pub open spec fn text_position(s: Seq<char>, p: Seq<char>) -> Option<int>
    decreases s.len(),
{
    if p.is_prefix_of(s) {
        Some(0)
    } else if s.len() == 0 {
        None
    } else {
        match text_position(s.drop_first(), p) {
            Some(i) => Some(i + 1),
            None => None,
        }
    }
}

pub fn find_text(s: &[char], p: &str) -> (r: Option<usize>)
    ensures
        match r {
            Some(i) => i + p@.len() <= s@.len() && text_position(s@, p@) == Some(i as int),
            None => text_position(s@, p@) is None,
        },
{
    let pat = chars_of(p);
    let mut i: usize = 0;
    assert(s@.skip(0) == s@);
    loop
        invariant
            pat@ == p@,
            i <= s@.len(),
            match text_position(s@.skip(i as int), p@) {
                Some(k) => text_position(s@, p@) == Some(k + i),
                None => text_position(s@, p@) is None,
            },
        decreases s@.len() - i,
    {
        assert(occurs_at(s@, p@, i as int) == p@.is_prefix_of(s@.skip(i as int))) by {
            if i + p@.len() <= s@.len() {
                assert(s@.skip(i as int).subrange(0, p@.len() as int) == s@.subrange(
                    i as int,
                    i + p@.len(),
                ));
            }
        }
        if matches_at(s, pat.as_slice(), i) {
            return Some(i);
        }
        if i == s.len() {
            return None;
        }
        assert(s@.skip(i as int).drop_first() == s@.skip(i + 1));
        i += 1;
    }
}

// ── Trimming ─────────────────────────────────────────────────────────

pub open spec fn trim_start_by(s: Seq<char>, p: spec_fn(char) -> bool) -> Seq<char>
    decreases s.len(),
{
    if s.len() > 0 && p(s[0]) {
        trim_start_by(s.drop_first(), p)
    } else {
        s
    }
}

pub open spec fn trim_end_by(s: Seq<char>, p: spec_fn(char) -> bool) -> Seq<char>
    decreases s.len(),
{
    if s.len() > 0 && p(s.last()) {
        trim_end_by(s.drop_last(), p)
    } else {
        s
    }
}

/// `s` without the characters satisfying `p` at either end.
pub open spec fn trim_by(s: Seq<char>, p: spec_fn(char) -> bool) -> Seq<char> {
    trim_end_by(trim_start_by(s, p), p)
}

pub open spec fn blank() -> spec_fn(char) -> bool {
    |c: char| is_white_space(c)
}

pub open spec fn exactly(c: char) -> spec_fn(char) -> bool {
    |x: char| x == c
}

/// `s` without white space at either end.
pub open spec fn trimmed(s: Seq<char>) -> Seq<char> {
    trim_by(s, blank())
}

/// `s` without the character `c` at either end.
pub open spec fn trimmed_of(s: Seq<char>, c: char) -> Seq<char> {
    trim_by(s, exactly(c))
}

pub fn trim<'a>(s: &'a [char]) -> (r: &'a [char])
    ensures
        r@ == trimmed(s@),
{
    let ghost p = blank();
    let mut i: usize = 0;
    assert(s@.skip(0) == s@);
    while i < s.len() && white_space(s[i])
        invariant
            i <= s@.len(),
            p == blank(),
            trim_start_by(s@, p) == trim_start_by(s@.skip(i as int), p),
        decreases s@.len() - i,
    {
        assert(s@.skip(i as int).drop_first() == s@.skip(i + 1));
        i += 1;
    }
    let t = slice_subrange(s, i, s.len());
    assert(t@ == s@.skip(i as int));
    assert(t@ == trim_start_by(s@, p));
    let mut n: usize = t.len();
    assert(t@.take(n as int) == t@);
    while n > 0 && white_space(t[n - 1])
        invariant
            n <= t@.len(),
            p == blank(),
            trim_end_by(t@, p) == trim_end_by(t@.take(n as int), p),
        decreases n,
    {
        assert(t@.take(n as int).drop_last() == t@.take(n - 1));
        n -= 1;
    }
    assert(t@.subrange(0, n as int) == t@.take(n as int));
    slice_subrange(t, 0, n)
}

pub fn trim_matches<'a>(s: &'a [char], c: char) -> (r: &'a [char])
    ensures
        r@ == trimmed_of(s@, c),
{
    let ghost p = exactly(c);
    let mut i: usize = 0;
    assert(s@.skip(0) == s@);
    while i < s.len() && s[i] == c
        invariant
            i <= s@.len(),
            p == exactly(c),
            trim_start_by(s@, p) == trim_start_by(s@.skip(i as int), p),
        decreases s@.len() - i,
    {
        assert(s@.skip(i as int).drop_first() == s@.skip(i + 1));
        i += 1;
    }
    let t = slice_subrange(s, i, s.len());
    assert(t@ == s@.skip(i as int));
    assert(t@ == trim_start_by(s@, p));
    let mut n: usize = t.len();
    assert(t@.take(n as int) == t@);
    while n > 0 && t[n - 1] == c
        invariant
            n <= t@.len(),
            p == exactly(c),
            trim_end_by(t@, p) == trim_end_by(t@.take(n as int), p),
        decreases n,
    {
        assert(t@.take(n as int).drop_last() == t@.take(n - 1));
        n -= 1;
    }
    assert(t@.subrange(0, n as int) == t@.take(n as int));
    slice_subrange(t, 0, n)
}

pub open spec fn decoration() -> spec_fn(char) -> bool {
    |c: char| !is_ascii_alphanumeric(c)
}

/// `s` from its first ASCII letter or digit on.
pub open spec fn from_alphanumeric(s: Seq<char>) -> Seq<char> {
    trim_start_by(s, decoration())
}

pub fn skip_to_alphanumeric<'a>(s: &'a [char]) -> (r: &'a [char])
    ensures
        r@ == from_alphanumeric(s@),
{
    let ghost p = decoration();
    let mut i: usize = 0;
    assert(s@.skip(0) == s@);
    while i < s.len() && !ascii_alphanumeric(s[i])
        invariant
            i <= s@.len(),
            p == decoration(),
            trim_start_by(s@, p) == trim_start_by(s@.skip(i as int), p),
        decreases s@.len() - i,
    {
        assert(s@.skip(i as int).drop_first() == s@.skip(i + 1));
        i += 1;
    }
    assert(s@.subrange(i as int, s@.len() as int) == s@.skip(i as int));
    slice_subrange(s, i, s.len())
}

/// A text that neither starts nor ends with such a character is kept.
pub proof fn lemma_trim_kept(s: Seq<char>, p: spec_fn(char) -> bool)
    requires
        s.len() > 0 ==> !p(s[0]) && !p(s.last()),
    ensures
        trim_by(s, p) == s,
{
}

/// One such character at either end makes no difference.
pub proof fn lemma_trim_both(s: Seq<char>, c: char, p: spec_fn(char) -> bool)
    requires
        p(c),
        s.len() > 0 ==> !p(s[0]) && !p(s.last()),
    ensures
        trim_by(seq![c] + s + seq![c], p) == s,
{
    let all = seq![c] + s + seq![c];
    let tail = s + seq![c];
    assert(all.drop_first() == tail);
    if s.len() == 0 {
        assert(tail.drop_first() == s);
        reveal_with_fuel(trim_start_by, 3);
    } else {
        assert(tail[0] == s[0]);
        assert(trim_start_by(tail, p) == tail);
        assert(trim_start_by(all, p) == tail);
        assert(tail.drop_last() == s);
        assert(trim_end_by(s, p) == s);
    }
}

/// Such characters at the beginning make no difference.
pub proof fn lemma_trim_start_skip(s: Seq<char>, p: spec_fn(char) -> bool, i: int)
    requires
        0 <= i <= s.len(),
        forall|k: int| 0 <= k < i ==> p(#[trigger] s[k]),
    ensures
        trim_start_by(s, p) == trim_start_by(s.skip(i), p),
    decreases i,
{
    if i == 0 {
        assert(s.skip(0) == s);
    } else {
        assert(p(s[0]));
        let rest = s.drop_first();
        assert forall|k: int| 0 <= k < i - 1 implies p(#[trigger] rest[k]) by {
            assert(rest[k] == s[k + 1]);
        }
        lemma_trim_start_skip(rest, p, i - 1);
        assert(rest.skip(i - 1) == s.skip(i));
    }
}

proof fn lemma_trim_end_take(s: Seq<char>, p: spec_fn(char) -> bool, n: int)
    requires
        0 <= n <= s.len(),
        forall|k: int| n <= k < s.len() ==> p(#[trigger] s[k]),
    ensures
        trim_end_by(s, p) == trim_end_by(s.take(n), p),
    decreases s.len() - n,
{
    if n == s.len() {
        assert(s.take(n) == s);
    } else {
        assert(p(s[s.len() - 1]));
        lemma_trim_end_take(s.drop_last(), p, n);
        assert(s.drop_last().take(n) == s.take(n));
    }
}

/// What is left is what stands between such characters, if it neither starts
/// nor ends with one.
pub proof fn lemma_trim_is(s: Seq<char>, p: spec_fn(char) -> bool, i: int, j: int)
    requires
        0 <= i < j <= s.len(),
        forall|k: int| 0 <= k < i ==> p(#[trigger] s[k]),
        forall|k: int| j <= k < s.len() ==> p(#[trigger] s[k]),
        !p(s[i]),
        !p(s[j - 1]),
    ensures
        trim_by(s, p) == s.subrange(i, j),
{
    let tail = s.skip(i);
    lemma_trim_start_skip(s, p, i);
    assert(tail[0] == s[i]);
    assert forall|k: int| j - i <= k < tail.len() implies p(#[trigger] tail[k]) by {
        assert(tail[k] == s[i + k]);
    }
    lemma_trim_end_take(tail, p, j - i);
    assert(tail.take(j - i) == s.subrange(i, j));
    assert(s.subrange(i, j).last() == s[j - 1]);
}

pub proof fn lemma_trim_start_at(s: Seq<char>, p: spec_fn(char) -> bool) -> (i: int)
    ensures
        0 <= i <= s.len(),
        forall|k: int| 0 <= k < i ==> p(#[trigger] s[k]),
        i < s.len() ==> !p(s[i]),
    decreases s.len(),
{
    if s.len() > 0 && p(s[0]) {
        let rest = s.drop_first();
        let i = lemma_trim_start_at(rest, p);
        assert forall|k: int| 0 <= k < i + 1 implies p(#[trigger] s[k]) by {
            if k > 0 {
                assert(rest[k - 1] == s[k]);
            }
        }
        i + 1
    } else {
        0
    }
}

proof fn lemma_trim_end_at(s: Seq<char>, p: spec_fn(char) -> bool) -> (n: int)
    ensures
        0 <= n <= s.len(),
        forall|k: int| n <= k < s.len() ==> p(#[trigger] s[k]),
        n > 0 ==> !p(s[n - 1]),
    decreases s.len(),
{
    if s.len() > 0 && p(s.last()) {
        let n = lemma_trim_end_at(s.drop_last(), p);
        assert forall|k: int| n <= k < s.len() implies p(#[trigger] s[k]) by {
            if k < s.len() - 1 {
                assert(s.drop_last()[k] == s[k]);
            }
        }
        n
    } else {
        s.len() as int
    }
}

/// Either nothing is left, and all characters are such ones, or what stands
/// between the two positions is left.
pub proof fn lemma_trim_at(s: Seq<char>, p: spec_fn(char) -> bool) -> (r: (int, int))
    ensures
        0 <= r.0 <= r.1 <= s.len(),
        forall|k: int| 0 <= k < r.0 ==> p(#[trigger] s[k]),
        forall|k: int| r.1 <= k < s.len() ==> p(#[trigger] s[k]),
        r.0 < r.1 ==> !p(s[r.0]) && !p(s[r.1 - 1]),
        trim_by(s, p) == s.subrange(r.0, r.1),
{
    let i = lemma_trim_start_at(s, p);
    let j = lemma_trim_end_at(s, p);
    if i < s.len() {
        assert(i < j) by {
            if j <= i {
                assert(p(s[i]));
            }
        }
        lemma_trim_is(s, p, i, j);
        (i, j)
    } else {
        lemma_trim_start_skip(s, p, i);
        assert(s.skip(i) == s.subrange(i, i));
        (i, i)
    }
}

/// A space at either end makes no difference to a text that is not blank, and
/// trimming it twice none to trimming it once.
pub proof fn lemma_padding_is_trimmed(s: Seq<char>)
    requires
        trimmed(s).len() > 0,
    ensures
        trimmed(seq![' '] + s + seq![' ']) == trimmed(s),
        trimmed(trimmed(s)) == trimmed(s),
        forall|c: char| trimmed(s).contains(c) ==> s.contains(c),
{
    let p = blank();
    let (i, j) = lemma_trim_at(s, p);
    let t = s.subrange(i, j);
    let all = seq![' '] + s + seq![' '];
    assert(p(' '));
    assert forall|k: int| 0 <= k < i + 1 implies p(#[trigger] all[k]) by {
        if k > 0 {
            assert(all[k] == s[k - 1]);
        }
    }
    assert forall|k: int| j + 1 <= k < all.len() implies p(#[trigger] all[k]) by {
        if k <= s.len() {
            assert(all[k] == s[k - 1]);
        }
    }
    assert(all[i + 1] == s[i] && all[j] == s[j - 1]);
    lemma_trim_is(all, p, i + 1, j + 1);
    assert(all.subrange(i + 1, j + 1) == t);
    assert(t[0] == s[i] && t.last() == s[j - 1]);
    lemma_trim_kept(t, p);
    assert forall|c: char| t.contains(c) implies s.contains(c) by {
        let k = choose|k: int| 0 <= k < t.len() && t[k] == c;
        assert(s[i + k] == c);
    }
}

// ── Splitting and joining ────────────────────────────────────────────

/// The line `s` without the carriage return of a `\r\n` line ending.
pub open spec fn without_carriage_return(s: Seq<char>) -> Seq<char> {
    if s.len() > 0 && s.last() == '\r' {
        s.drop_last()
    } else {
        s
    }
}

/// The lines of a text. A line ends with `\n` or `\r\n`; the ending of the
/// last line is optional.
pub open spec fn lines(s: Seq<char>) -> Seq<Seq<char>>
    decreases s.len(),
{
    let k = position(s, '\n') as int;
    if s.len() == 0 {
        seq![]
    } else if k >= s.len() {
        seq![s]
    } else {
        seq![without_carriage_return(s.take(k))] + lines(s.skip(k + 1))
    }
}

pub fn split_lines<'a>(s: &'a [char]) -> (r: Vec<&'a [char]>)
    ensures
        slices(r@) == lines(s@),
{
    let mut r: Vec<&'a [char]> = Vec::new();
    let mut rest: &'a [char] = s;
    assert(slices(r@) + lines(s@) == lines(s@));
    while rest.len() > 0
        invariant
            slices(r@) + lines(rest@) == lines(s@),
        decreases rest@.len(),
    {
        let ghost before = slices(r@);
        let ghost old_rest = rest@;
        let k = find_char(rest, '\n');
        proof {
            lemma_position(rest@, '\n');
        }
        if k == rest.len() {
            r.push(rest);
            assert(slices(r@) == before + seq![old_rest]);
            return r;
        }
        let end = if k > 0 && rest[k - 1] == '\r' {
            k - 1
        } else {
            k
        };
        let line = slice_subrange(rest, 0, end);
        assert(line@ == without_carriage_return(old_rest.take(k as int)));
        r.push(line);
        rest = slice_subrange(rest, k + 1, rest.len());
        assert(rest@ == old_rest.skip(k + 1));
        assert(slices(r@) == before.push(line@));
        assert(slices(r@) + lines(rest@) == before + (seq![line@] + lines(rest@)));
    }
    assert(slices(r@) + lines(rest@) == slices(r@));
    r
}

/// The pieces of a text between the separators `c`.
pub open spec fn pieces(s: Seq<char>, c: char) -> Seq<Seq<char>>
    decreases s.len(),
{
    let k = position(s, c) as int;
    if k >= s.len() {
        seq![s]
    } else {
        seq![s.take(k)] + pieces(s.skip(k + 1), c)
    }
}

/// The first piece is what stands before the first separator.
pub proof fn lemma_pieces_first(s: Seq<char>, rest: Seq<char>, c: char)
    requires
        !s.contains(c),
    ensures
        pieces(s + seq![c] + rest, c) == seq![s] + pieces(rest, c),
{
    let all = s + seq![c] + rest;
    let k = s.len() as int;
    assert forall|j: int| 0 <= j < k implies all[j] != c by {
        assert(s.contains(s[j]));
    }
    lemma_position_is(all, c, k);
    assert(all.take(k) == s);
    assert(all.skip(k + 1) == rest);
}

pub fn split_char<'a>(s: &'a [char], c: char) -> (r: Vec<&'a [char]>)
    ensures
        slices(r@) == pieces(s@, c),
{
    let mut r: Vec<&'a [char]> = Vec::new();
    let mut rest: &'a [char] = s;
    assert(slices(r@) + pieces(s@, c) == pieces(s@, c));
    loop
        invariant
            slices(r@) + pieces(rest@, c) == pieces(s@, c),
        decreases rest@.len(),
    {
        let ghost before = slices(r@);
        let ghost old_rest = rest@;
        let k = find_char(rest, c);
        proof {
            lemma_position(rest@, c);
        }
        if k == rest.len() {
            r.push(rest);
            assert(slices(r@) == before + seq![old_rest]);
            return r;
        }
        let piece = slice_subrange(rest, 0, k);
        assert(piece@ == old_rest.take(k as int));
        r.push(piece);
        rest = slice_subrange(rest, k + 1, rest.len());
        assert(rest@ == old_rest.skip(k + 1));
        assert(slices(r@) == before.push(piece@));
        assert(slices(r@) + pieces(rest@, c) == before + (seq![piece@] + pieces(rest@, c)));
    }
}

/// The texts `v` one after the other, with `sep` between each two.
pub open spec fn joined(v: Seq<Seq<char>>, sep: Seq<char>) -> Seq<char>
    decreases v.len(),
{
    if v.len() == 0 {
        seq![]
    } else if v.len() == 1 {
        v[0]
    } else {
        joined(v.drop_last(), sep) + sep + v.last()
    }
}

/// Joining starts with the first text.
pub proof fn lemma_joined_first(v: Seq<Seq<char>>, sep: Seq<char>)
    requires
        v.len() >= 2,
    ensures
        joined(v, sep) == v[0] + sep + joined(v.drop_first(), sep),
    decreases v.len(),
{
    let rest = v.drop_first();
    if v.len() == 2 {
        assert(joined(v.drop_last(), sep) == v[0]);
        assert(joined(rest, sep) == v[1]);
    } else {
        let init = v.drop_last();
        lemma_joined_first(init, sep);
        assert(init.drop_first() == rest.drop_last());
        assert(v[0] + sep + joined(rest, sep) == v[0] + sep + joined(rest.drop_last(), sep) + sep
            + v.last());
    }
}

/// Whether a line ends with a carriage return.
pub open spec fn ends_with_return(s: Seq<char>) -> bool {
    s.len() > 0 && s.last() == '\r'
}

/// The lines of joined lines are those lines, if the last one is not empty and
/// no other one ends with a carriage return.
pub proof fn lemma_lines_of_joined(v: Seq<Seq<char>>)
    requires
        v.len() > 0 ==> v.last().len() > 0,
        forall|i: int| 0 <= i < v.len() ==> !(#[trigger] v[i]).contains('\n'),
        forall|i: int| 0 <= i < v.len() - 1 ==> !ends_with_return(#[trigger] v[i]),
    ensures
        lines(joined(v, seq!['\n'])) == v,
    decreases v.len(),
{
    let s = joined(v, seq!['\n']);
    if v.len() == 1 {
        lemma_position(s, '\n');
        assert(s == v[0]);
        assert(v == seq![s]);
    } else if v.len() >= 2 {
        let rest = v.drop_first();
        let first = v[0];
        lemma_joined_first(v, seq!['\n']);
        assert forall|i: int| 0 <= i < rest.len() implies !(#[trigger] rest[i]).contains('\n') by {
            assert(rest[i] == v[i + 1]);
        }
        assert forall|i: int| 0 <= i < rest.len() - 1 implies !ends_with_return(
            #[trigger] rest[i],
        ) by {
            assert(rest[i] == v[i + 1]);
        }
        lemma_lines_of_joined(rest);
        let k = first.len() as int;
        assert(!v[0].contains('\n'));
        assert forall|j: int| 0 <= j < k implies s[j] != '\n' by {
            assert(s[j] == first[j]);
            assert(first.contains(first[j]));
        }
        lemma_position_is(s, '\n', k);
        assert(s.take(k) == first);
        assert(s.skip(k + 1) == joined(rest, seq!['\n']));
        assert(!ends_with_return(v[0]));
        assert(v == seq![first] + rest);
    }
}

/// The lines of a text have no line feed in them.
pub proof fn lemma_lines_have_no_feed(s: Seq<char>)
    ensures
        forall|i: int| 0 <= i < lines(s).len() ==> !(#[trigger] lines(s)[i]).contains('\n'),
    decreases s.len(),
{
    lemma_position(s, '\n');
    let k = position(s, '\n') as int;
    if s.len() > 0 && k < s.len() {
        let first = without_carriage_return(s.take(k));
        let rest = s.skip(k + 1);
        lemma_lines_have_no_feed(rest);
        assert(!first.contains('\n')) by {
            if first.contains('\n') {
                let i = choose|i: int| 0 <= i < first.len() && first[i] == '\n';
                assert(s[i] == '\n');
            }
        }
        let all = lines(s);
        assert(all == seq![first] + lines(rest));
        assert forall|i: int| 0 <= i < all.len() implies !(#[trigger] all[i]).contains('\n') by {
            if i > 0 {
                assert(all[i] == lines(rest)[i - 1]);
            }
        }
    }
}

/// The lines of a text, joined, are that text, if it does not end with a line
/// feed and has no carriage return before one.
pub proof fn lemma_joined_lines(s: Seq<char>)
    requires
        !contains_text(s, seq!['\r', '\n']),
        s.len() > 0 ==> s.last() != '\n',
    ensures
        joined(lines(s), seq!['\n']) == s,
        s.len() > 0 ==> lines(s).len() > 0,
    decreases s.len(),
{
    lemma_position(s, '\n');
    let k = position(s, '\n') as int;
    if s.len() > 0 && k < s.len() {
        let p = seq!['\r', '\n'];
        let first = s.take(k);
        let rest = s.skip(k + 1);
        if ends_with_return(first) {
            assert(s.subrange(k - 1, k + 1) == p);
            assert(occurs_at(s, p, k - 1));
        }
        assert forall|i: int| occurs_at(rest, p, i) implies occurs_at(s, p, i + k + 1) by {
            assert(s.subrange(i + k + 1, i + k + 3) == rest.subrange(i, i + 2));
        }
        assert(!contains_text(rest, p));
        assert(rest.len() > 0 && rest.last() == s.last());
        lemma_joined_lines(rest);
        let all = lines(s);
        assert(all == seq![first] + lines(rest));
        lemma_joined_first(all, seq!['\n']);
        assert(all.drop_first() == lines(rest));
        assert(s == first + seq!['\n'] + rest);
    }
}

/// The lines of a text that is followed by a line break.
pub open spec fn ended_lines(s: Seq<char>) -> Seq<Seq<char>>
    decreases s.len(),
{
    let k = position(s, '\n') as int;
    if k >= s.len() {
        seq![without_carriage_return(s)]
    } else {
        seq![without_carriage_return(s.take(k))] + ended_lines(s.skip(k + 1))
    }
}

/// The lines of two texts with a line break between them are those of the one,
/// ended, and those of the other.
pub proof fn lemma_lines_add(a: Seq<char>, b: Seq<char>)
    ensures
        lines(a + seq!['\n'] + b) == ended_lines(a) + lines(b),
    decreases a.len(),
{
    let all = a + seq!['\n'] + b;
    lemma_position(a, '\n');
    let k = position(a, '\n') as int;
    assert forall|j: int| 0 <= j < k implies all[j] != '\n' by {
        assert(all[j] == a[j]);
    }
    lemma_position_is(all, '\n', k);
    assert(all.take(k) == a.take(k));
    if k < a.len() {
        let rest = a.skip(k + 1);
        lemma_lines_add(rest, b);
        assert(all.skip(k + 1) == rest + seq!['\n'] + b);
        assert(lines(all) =~= ended_lines(a) + lines(b));
    } else {
        assert(a.take(k) == a);
        assert(all.skip(k + 1) == b);
    }
}

/// A carriage return at the end of a line is white space around it.
pub proof fn lemma_return_is_trimmed(s: Seq<char>)
    ensures
        trimmed(without_carriage_return(s)) == trimmed(s),
{
    if ends_with_return(s) {
        let p = blank();
        let t = s.drop_last();
        let (i, j) = lemma_trim_at(t, p);
        assert forall|k: int| j <= k < s.len() implies p(#[trigger] s[k]) by {
            if k < t.len() {
                assert(t[k] == s[k]);
            }
        }
        assert forall|k: int| 0 <= k < i implies p(#[trigger] s[k]) by {
            assert(t[k] == s[k]);
        }
        if i < j {
            assert(t[i] == s[i] && t[j - 1] == s[j - 1]);
            lemma_trim_is(s, p, i, j);
            assert(s.subrange(i, j) == t.subrange(i, j));
        } else {
            lemma_trim_start_skip(s, p, s.len() as int);
            assert(s.skip(s.len() as int) == t.subrange(i, j));
        }
    }
}

/// The lines `v` with a line feed between each two.
pub fn join_lines(v: &[&[char]]) -> (s: String)
    ensures
        s@ == joined(slices(v@), seq!['\n']),
{
    let mut s = String::new();
    for i in 0..v.len()
        invariant
            s@ == joined(slices(v@).take(i as int), seq!['\n']),
    {
        let ghost done = slices(v@).take(i + 1);
        assert(done.drop_last() == slices(v@).take(i as int));
        assert(done.last() == v@[i as int]@);
        if i > 0 {
            s.push('\n');
        }
        let ghost start = s@;
        let line = v[i];
        for j in 0..line.len()
            invariant
                s@ == start + line@.take(j as int),
        {
            s.push(line[j]);
        }
        assert(line@.take(line@.len() as int) == line@);
        assert(s@ == joined(done, seq!['\n']));
    }
    assert(slices(v@).take(v@.len() as int) == slices(v@));
    s
}

/// `s` with every occurrence of `from`, left to right, replaced by `to`.
pub open spec fn replaced(s: Seq<char>, from: Seq<char>, to: Seq<char>) -> Seq<char>
    recommends
        from.len() > 0,
    decreases s.len(),
{
    if from.len() == 0 || s.len() < from.len() {
        s
    } else if from.is_prefix_of(s) {
        to + replaced(s.skip(from.len() as int), from, to)
    } else {
        seq![s[0]] + replaced(s.drop_first(), from, to)
    }
}

pub fn replace(s: &[char], from: &str, to: &str) -> (r: Vec<char>)
    requires
        from@.len() > 0,
    ensures
        r@ == replaced(s@, from@, to@),
{
    let pattern = chars_of(from);
    let substitute = chars_of(to);
    let mut r: Vec<char> = Vec::new();
    let mut i: usize = 0;
    assert(s@.skip(0) == s@);
    while i < s.len()
        invariant
            pattern@ == from@,
            from@.len() > 0,
            substitute@ == to@,
            i <= s@.len(),
            r@ + replaced(s@.skip(i as int), from@, to@) == replaced(s@, from@, to@),
        decreases s@.len() - i,
    {
        let ghost here = s@.skip(i as int);
        let ghost before = r@;
        assert(occurs_at(s@, from@, i as int) == from@.is_prefix_of(here)) by {
            if i + from@.len() <= s@.len() {
                assert(here.subrange(0, from@.len() as int) == s@.subrange(
                    i as int,
                    i + from@.len(),
                ));
            }
        }
        if matches_at(s, pattern.as_slice(), i) {
            for j in 0..substitute.len()
                invariant
                    substitute@ == to@,
                    r@ == before + to@.take(j as int),
            {
                r.push(substitute[j]);
            }
            assert(to@.take(to@.len() as int) == to@);
            i += pattern.len();
            assert(here.skip(from@.len() as int) == s@.skip(i as int));
            assert(r@ + replaced(s@.skip(i as int), from@, to@) == before + (to@ + replaced(
                s@.skip(i as int),
                from@,
                to@,
            )));
        } else {
            r.push(s[i]);
            i += 1;
            assert(here.drop_first() == s@.skip(i as int));
            assert(here == seq![here[0]] + here.drop_first());
            assert(replaced(here, from@, to@) == seq![here[0]] + replaced(
                here.drop_first(),
                from@,
                to@,
            ));
            assert(r@ + replaced(s@.skip(i as int), from@, to@) == before + (seq![here[0]]
                + replaced(s@.skip(i as int), from@, to@)));
        }
    }
    assert(r@ + replaced(s@.skip(i as int), from@, to@) == r@);
    r
}

// ── Bytes of a text ──────────────────────────────────────────────────

/// The number of bytes that encode a character in UTF-8.
pub open spec fn byte_width(c: char) -> nat {
    if c <= '\u{7f}' {
        1
    } else if c <= '\u{7ff}' {
        2
    } else if c <= '\u{ffff}' {
        3
    } else {
        4
    }
}

/// The number of bytes that encode a text in UTF-8.
pub open spec fn byte_len(s: Seq<char>) -> nat
    decreases s.len(),
{
    if s.len() == 0 {
        0
    } else {
        byte_width(s[0]) + byte_len(s.drop_first())
    }
}

proof fn lemma_byte_width(c: char)
    ensures
        byte_width(c) == vstd::utf8::encode_scalar(c as u32).len(),
{
    vstd::utf8::char_is_scalar(c);
}

/// The bytes of a text are those of its UTF-8 encoding.
pub proof fn law_byte_len_is_that_of_utf8(s: Seq<char>)
    ensures
        byte_len(s) == vstd::utf8::encode_utf8(s).len(),
    decreases s.len(),
{
    if s.len() > 0 {
        law_byte_len_is_that_of_utf8(s.drop_first());
        lemma_byte_width(s[0]);
    }
}

/// The first `n` bytes of a text, unless they end within a character or there
/// are fewer.
pub open spec fn first_bytes(s: Seq<char>, n: int) -> Option<Seq<char>>
    decreases s.len(),
{
    if n == 0 {
        Some(seq![])
    } else if s.len() == 0 || n < byte_width(s[0]) {
        None
    } else {
        match first_bytes(s.drop_first(), n - byte_width(s[0])) {
            Some(t) => Some(seq![s[0]] + t),
            None => None,
        }
    }
}

proof fn lemma_byte_len_push(s: Seq<char>, c: char)
    ensures
        byte_len(s.push(c)) == byte_len(s) + byte_width(c),
    decreases s.len(),
{
    let all = s.push(c);
    if s.len() > 0 {
        lemma_byte_len_push(s.drop_first(), c);
        assert(all.drop_first() == s.drop_first().push(c));
    } else {
        assert(all.drop_first() == s);
    }
}

/// The bytes of two texts are those of the one and of the other.
pub proof fn lemma_byte_len_add(s: Seq<char>, t: Seq<char>)
    ensures
        byte_len(s + t) == byte_len(s) + byte_len(t),
    decreases s.len(),
{
    if s.len() == 0 {
        assert(s + t == t);
    } else {
        lemma_byte_len_add(s.drop_first(), t);
        assert((s + t).drop_first() == s.drop_first() + t);
    }
}

/// The first `n` bytes are `n` bytes at the beginning of the text.
pub proof fn lemma_first_bytes(s: Seq<char>, n: int)
    ensures
        match first_bytes(s, n) {
            Some(t) => byte_len(t) == n && t.is_prefix_of(s),
            None => true,
        },
    decreases s.len(),
{
    if n == 0 {
        assert(s.subrange(0, 0) == Seq::<char>::empty());
    } else if s.len() > 0 && n >= byte_width(s[0]) {
        let rest = s.drop_first();
        lemma_first_bytes(rest, n - byte_width(s[0]));
        if let Some(t) = first_bytes(rest, n - byte_width(s[0])) {
            let all = seq![s[0]] + t;
            assert(all.drop_first() == t);
            assert(s.subrange(0, all.len() as int) == all) by {
                assert forall|i: int| 0 <= i < all.len() implies s[i] == all[i] by {
                    if i > 0 {
                        assert(rest.subrange(0, t.len() as int)[i - 1] == s[i]);
                    }
                }
            }
        }
    }
}

/// The last `n` bytes are `n` bytes at the end of the text.
pub proof fn lemma_last_bytes(s: Seq<char>, n: int)
    ensures
        match last_bytes(s, n) {
            Some(t) => byte_len(t) == n && t.is_suffix_of(s),
            None => true,
        },
    decreases s.len(),
{
    if n == 0 {
        assert(s.subrange(s.len() as int, s.len() as int) == Seq::<char>::empty());
    } else if s.len() > 0 && n >= byte_width(s.last()) {
        let rest = s.drop_last();
        lemma_last_bytes(rest, n - byte_width(s.last()));
        if let Some(t) = last_bytes(rest, n - byte_width(s.last())) {
            let all = t.push(s.last());
            lemma_byte_len_push(t, s.last());
            let k = s.len() - all.len();
            assert(s.subrange(k, s.len() as int) == all) by {
                assert forall|i: int| 0 <= i < all.len() implies s[k + i] == all[i] by {
                    if i < t.len() {
                        assert(rest.subrange(k, rest.len() as int)[i] == s[k + i]);
                    }
                }
            }
        }
    }
}

/// The last `n` bytes of a text, unless they start within a character or there
/// are fewer.
pub open spec fn last_bytes(s: Seq<char>, n: int) -> Option<Seq<char>>
    decreases s.len(),
{
    if n == 0 {
        Some(seq![])
    } else if s.len() == 0 || n < byte_width(s.last()) {
        None
    } else {
        match last_bytes(s.drop_last(), n - byte_width(s.last())) {
            Some(t) => Some(t.push(s.last())),
            None => None,
        }
    }
}

fn width(c: char) -> (r: usize)
    ensures
        r == byte_width(c),
        1 <= r <= 4,
{
    if c <= '\u{7f}' {
        1
    } else if c <= '\u{7ff}' {
        2
    } else if c <= '\u{ffff}' {
        3
    } else {
        4
    }
}

/// Whether a text takes more than `n` bytes.
pub fn longer_than(s: &[char], n: usize) -> (r: bool)
    ensures
        r == (byte_len(s@) > n),
{
    let mut left: usize = n;
    assert(s@.skip(0) == s@);
    for i in 0..s.len()
        invariant
            left <= n,
            byte_len(s@) == n - left + byte_len(s@.skip(i as int)),
    {
        let ghost rest = s@.skip(i as int);
        assert(rest[0] == s@[i as int]);
        assert(rest.drop_first() == s@.skip(i + 1));
        let w = width(s[i]);
        if w > left {
            return true;
        }
        left -= w;
    }
    assert(s@.skip(s@.len() as int).len() == 0);
    false
}

pub fn byte_prefix<'a>(s: &'a [char], n: usize) -> (r: Option<&'a [char]>)
    ensures
        option_view(r) == first_bytes(s@, n as int),
{
    let mut left: usize = n;
    let mut i: usize = 0;
    assert(s@.skip(0) == s@);
    assert(s@.take(0) == Seq::<char>::empty());
    loop
        invariant
            i <= s@.len(),
            match first_bytes(s@.skip(i as int), left as int) {
                Some(t) => first_bytes(s@, n as int) == Some(s@.take(i as int) + t),
                None => first_bytes(s@, n as int) is None,
            },
        decreases s@.len() - i,
    {
        if left == 0 {
            assert(s@.subrange(0, i as int) == s@.take(i as int) + Seq::<char>::empty());
            return Some(slice_subrange(s, 0, i));
        }
        if i == s.len() {
            return None;
        }
        let w = width(s[i]);
        assert(s@.skip(i as int)[0] == s@[i as int]);
        if w > left {
            return None;
        }
        assert(s@.skip(i as int).drop_first() == s@.skip(i + 1));
        proof {
            if let Some(t) = first_bytes(s@.skip(i + 1), left - w) {
                assert(s@.take(i as int) + (seq![s@[i as int]] + t) == s@.take(i + 1) + t);
            }
        }
        left -= w;
        i += 1;
    }
}

pub fn byte_suffix<'a>(s: &'a [char], n: usize) -> (r: Option<&'a [char]>)
    ensures
        option_view(r) == last_bytes(s@, n as int),
{
    let mut left: usize = n;
    let mut i: usize = s.len();
    assert(s@.take(i as int) == s@);
    assert(s@.skip(i as int) == Seq::<char>::empty());
    loop
        invariant
            i <= s@.len(),
            match last_bytes(s@.take(i as int), left as int) {
                Some(t) => last_bytes(s@, n as int) == Some(t + s@.skip(i as int)),
                None => last_bytes(s@, n as int) is None,
            },
        decreases i,
    {
        if left == 0 {
            assert(s@.subrange(i as int, s@.len() as int) == Seq::<char>::empty() + s@.skip(
                i as int,
            ));
            return Some(slice_subrange(s, i, s.len()));
        }
        if i == 0 {
            return None;
        }
        let w = width(s[i - 1]);
        assert(s@.take(i as int).last() == s@[i - 1]);
        if w > left {
            return None;
        }
        assert(s@.take(i as int).drop_last() == s@.take(i - 1));
        proof {
            if let Some(t) = last_bytes(s@.take(i - 1), left - w) {
                assert(t.push(s@[i - 1]) + s@.skip(i as int) == t + s@.skip(i - 1));
            }
        }
        left -= w;
        i -= 1;
    }
}

// ── What holds of texts ──────────────────────────────────────────────

/// Trimming takes away what stands around a text, and no more.
pub proof fn law_trimming_keeps_the_middle(
    before: Seq<char>,
    s: Seq<char>,
    after: Seq<char>,
    p: spec_fn(char) -> bool,
)
    requires
        forall|k: int| 0 <= k < before.len() ==> p(#[trigger] before[k]),
        forall|k: int| 0 <= k < after.len() ==> p(#[trigger] after[k]),
        s.len() > 0 ==> !p(s[0]) && !p(s.last()),
    ensures
        trim_by(before + s + after, p) == s,
        trim_start_by(before + s, p) == s,
{
    let all = before + s + after;
    let i = before.len() as int;
    let j = i + s.len();
    assert forall|k: int| 0 <= k < i implies p(#[trigger] all[k]) by {
        assert(all[k] == before[k]);
    }
    assert forall|k: int| j <= k < all.len() implies p(#[trigger] all[k]) by {
        assert(all[k] == after[k - j]);
    }
    if s.len() > 0 {
        assert(all[i] == s[0] && all[j - 1] == s.last());
        lemma_trim_is(all, p, i, j);
        assert(all.subrange(i, j) == s);
    } else {
        lemma_trim_start_skip(all, p, all.len() as int);
        assert(all.skip(all.len() as int) == s);
    }
    let start = before + s;
    assert forall|k: int| 0 <= k < i implies p(#[trigger] start[k]) by {
        assert(start[k] == before[k]);
    }
    lemma_trim_start_skip(start, p, i);
    assert(start.skip(i) == s);
}

/// White space around a text is trimmed, and nothing else.
pub proof fn law_white_space_is_trimmed(before: Seq<char>, s: Seq<char>, after: Seq<char>)
    requires
        forall|k: int| 0 <= k < before.len() ==> is_white_space(#[trigger] before[k]),
        forall|k: int| 0 <= k < after.len() ==> is_white_space(#[trigger] after[k]),
        s.len() > 0 ==> !is_white_space(s[0]) && !is_white_space(s.last()),
    ensures
        trimmed(before + s + after) == s,
{
    law_trimming_keeps_the_middle(before, s, after, blank());
}

/// A character that is no white space is in a trimmed text if it was in the
/// text.
pub proof fn law_trimming_keeps_characters(s: Seq<char>, c: char)
    requires
        !is_white_space(c),
    ensures
        trimmed(s).contains(c) <==> s.contains(c),
{
    let p = blank();
    let (i, j) = lemma_trim_at(s, p);
    let t = s.subrange(i, j);
    if t.contains(c) {
        let k = choose|k: int| 0 <= k < t.len() && t[k] == c;
        assert(s[i + k] == c);
    }
    if s.contains(c) {
        let k = choose|k: int| 0 <= k < s.len() && s[k] == c;
        assert(!p(s[k]));
        assert(t[k - i] == c);
    }
}

/// What occurs in a trimmed text occurs in the text.
pub proof fn law_trimming_adds_nothing(s: Seq<char>, p: Seq<char>)
    ensures
        contains_text(trimmed(s), p) ==> contains_text(s, p),
{
    let (i, j) = lemma_trim_at(s, blank());
    let t = s.subrange(i, j);
    if contains_text(t, p) {
        let k = choose|k: int| occurs_at(t, p, k);
        assert(s.subrange(i + k, i + k + p.len()) == t.subrange(k, k + p.len()));
        assert(occurs_at(s, p, i + k));
    }
}

/// An empty text has no lines, a text without a line feed has one, and a line
/// feed, with the carriage return before it if there is one, ends a line.
pub proof fn law_line_feeds_end_lines(s: Seq<char>, rest: Seq<char>)
    requires
        !s.contains('\n'),
    ensures
        lines(seq![]) == Seq::<Seq<char>>::empty(),
        s.len() > 0 ==> lines(s) == seq![s],
        s.len() > 0 && s.last() == '\r' ==> lines(s + seq!['\n'] + rest) == seq![s.drop_last()]
            + lines(rest),
        !(s.len() > 0 && s.last() == '\r') ==> lines(s + seq!['\n'] + rest) == seq![s] + lines(
            rest,
        ),
{
    lemma_position(s, '\n');
    lemma_lines_add(s, rest);
}

/// The lines of joined lines are those lines, up to a carriage return at the
/// end of a line and an empty last line.
pub proof fn lemma_lines_of_any_joined(v: Seq<Seq<char>>)
    requires
        v.len() > 0,
        forall|i: int| 0 <= i < v.len() ==> !(#[trigger] v[i]).contains('\n'),
    ensures
        ended_lines(joined(v, seq!['\n'])) == v.map_values(|s: Seq<char>| without_carriage_return(s)),
        lines(joined(v, seq!['\n'])) == v.drop_last().map_values(
            |s: Seq<char>| without_carriage_return(s),
        ) + lines(v.last()),
        v.last().len() == 0 ==> lines(v.last()) == Seq::<Seq<char>>::empty(),
        v.last().len() > 0 ==> lines(v.last()) == seq![v.last()],
    decreases v.len(),
{
    let f = |s: Seq<char>| without_carriage_return(s);
    let last = v.last();
    let all = joined(v, seq!['\n']);
    lemma_position(last, '\n');
    assert(!last.contains('\n'));
    if v.len() == 1 {
        assert(ended_lines(all) =~= v.map_values(f));
        assert(v.drop_last().map_values(f) + lines(last) =~= lines(last));
    } else {
        let init = v.drop_last();
        lemma_lines_of_any_joined(init);
        let a = joined(init, seq!['\n']);
        assert(all == a + seq!['\n'] + last);
        lemma_lines_add(a, last);
        lemma_ended_lines_add(a, last);
        assert(ended_lines(last) == seq![without_carriage_return(last)]);
        assert(v.map_values(f) =~= init.map_values(f) + seq![without_carriage_return(last)]);
    }
}

proof fn lemma_ended_lines_add(a: Seq<char>, b: Seq<char>)
    ensures
        ended_lines(a + seq!['\n'] + b) == ended_lines(a) + ended_lines(b),
    decreases a.len(),
{
    let all = a + seq!['\n'] + b;
    lemma_position(a, '\n');
    let k = position(a, '\n') as int;
    assert forall|j: int| 0 <= j < k implies all[j] != '\n' by {
        assert(all[j] == a[j]);
    }
    lemma_position_is(all, '\n', k);
    assert(all.take(k) == a.take(k));
    if k < a.len() {
        let rest = a.skip(k + 1);
        lemma_ended_lines_add(rest, b);
        assert(all.skip(k + 1) == rest + seq!['\n'] + b);
        assert(ended_lines(all) =~= ended_lines(a) + ended_lines(b));
    } else {
        assert(a.take(k) == a);
        assert(all.skip(k + 1) == b);
    }
}

/// The pieces of a text hold no separator, and joined with it they are the text.
pub proof fn law_pieces_make_up_the_text(s: Seq<char>, c: char)
    ensures
        joined(pieces(s, c), seq![c]) == s,
        forall|i: int| 0 <= i < pieces(s, c).len() ==> !(#[trigger] pieces(s, c)[i]).contains(c),
        pieces(s, c).len() > 0,
    decreases s.len(),
{
    lemma_position(s, c);
    let k = position(s, c) as int;
    if k < s.len() {
        let first = s.take(k);
        let rest = s.skip(k + 1);
        law_pieces_make_up_the_text(rest, c);
        let all = pieces(s, c);
        assert(all == seq![first] + pieces(rest, c));
        lemma_joined_first(all, seq![c]);
        assert(all.drop_first() == pieces(rest, c));
        assert(s == first + seq![c] + rest);
        assert forall|i: int| 0 <= i < all.len() implies !(#[trigger] all[i]).contains(c) by {
            if i == 0 {
                if first.contains(c) {
                    let j = choose|j: int| 0 <= j < first.len() && first[j] == c;
                    assert(s[j] == c);
                }
            } else {
                assert(all[i] == pieces(rest, c)[i - 1]);
            }
        }
    }
}

/// Joined texts stand one after the other, each after the separator.
pub proof fn law_joining_adds_at_the_end(v: Seq<Seq<char>>, s: Seq<char>, sep: Seq<char>)
    ensures
        joined(seq![s], sep) == s,
        v.len() > 0 ==> joined(v.push(s), sep) == joined(v, sep) + sep + s,
{
    if v.len() > 0 {
        assert(v.push(s).drop_last() == v);
    }
}

/// A text holds what stands somewhere in it.
pub proof fn law_texts_hold_their_parts(a: Seq<char>, p: Seq<char>, b: Seq<char>)
    ensures
        contains_text(a + p + b, p),
{
    let s = a + p + b;
    let i = a.len() as int;
    assert(s.subrange(i, i + p.len()) == p);
    assert(occurs_at(s, p, i));
}

/// A text that holds another one is made of what stands before, of that one and
/// of what stands after.
pub proof fn law_parts_make_up_the_text(s: Seq<char>, p: Seq<char>)
    requires
        contains_text(s, p),
    ensures
        exists|a: Seq<char>, b: Seq<char>| s == #[trigger] (a + p + b),
{
    let i = choose|i: int| occurs_at(s, p, i);
    let a = s.take(i);
    let b = s.skip(i + p.len());
    assert(p == s.subrange(i, i + p.len()));
    assert(s =~= a + p + b);
}

/// The position of a text is that of its first occurrence.
pub proof fn law_text_position_is_the_first(s: Seq<char>, p: Seq<char>)
    ensures
        match text_position(s, p) {
            Some(i) => 0 <= i <= s.len() - p.len() && s.subrange(i, i + p.len()) == p,
            None => !contains_text(s, p),
        },
        forall|i: int, j: int|
            #![trigger s.subrange(i, j)]
            0 <= i && j == i + p.len() <= s.len() && s.subrange(i, j) == p ==> text_position(
                s,
                p,
            ) is Some && text_position(s, p)->0 <= i,
    decreases s.len(),
{
    assert(p.len() <= s.len() ==> (p.is_prefix_of(s) == (s.subrange(0, p.len() as int) == p)));
    if s.len() > 0 && !p.is_prefix_of(s) {
        let rest = s.drop_first();
        law_text_position_is_the_first(rest, p);
        assert forall|i: int, j: int|
            #![trigger s.subrange(i, j)]
            0 <= i && j == i + p.len() <= s.len() && s.subrange(i, j) == p implies text_position(
            s,
            p,
        ) is Some && text_position(s, p)->0 <= i by {
            assert(i > 0);
            assert(rest.subrange(i - 1, j - 1) == s.subrange(i, j));
        }
        if let Some(i) = text_position(rest, p) {
            assert(rest.subrange(i, i + p.len()) == s.subrange(i + 1, i + 1 + p.len()));
        }
    }
    if contains_text(s, p) {
        let i = choose|i: int| occurs_at(s, p, i);
        assert(s.subrange(i, i + p.len()) == p);
    }
}

/// The last position of a character is that of its last occurrence.
pub proof fn law_last_position_is_the_last(s: Seq<char>, c: char)
    ensures
        match last_position(s, c) {
            Some(i) => 0 <= i < s.len() && s[i] == c,
            None => !s.contains(c),
        },
        forall|i: int|
            0 <= i < s.len() && #[trigger] s[i] == c ==> last_position(s, c) is Some && i
                <= last_position(s, c)->0,
    decreases s.len(),
{
    if s.len() > 0 && s.last() != c {
        let init = s.drop_last();
        law_last_position_is_the_last(init, c);
        assert forall|i: int| 0 <= i < s.len() && #[trigger] s[i] == c implies last_position(
            s,
            c,
        ) is Some && i <= last_position(s, c)->0 by {
            assert(init[i] == s[i]);
        }
    }
    if s.contains(c) {
        let i = choose|i: int| 0 <= i < s.len() && s[i] == c;
        assert(s[i] == c);
    }
}

/// What a text has after a prefix is what was put after it.
pub proof fn law_prefix_is_taken_off(p: Seq<char>, rest: Seq<char>, s: Seq<char>)
    ensures
        without_prefix(p + rest, p) == Some(rest),
        without_prefix(s, p) matches Some(t) ==> s == p + t,
{
    let all = p + rest;
    assert(all.subrange(0, p.len() as int) == p);
    assert(all.skip(p.len() as int) == rest);
    if p.is_prefix_of(s) {
        assert(s.subrange(0, p.len() as int) == p);
        assert(s == p + s.skip(p.len() as int));
    }
}

/// A text in which another one does not occur is not changed by replacing it.
pub proof fn law_nothing_to_replace(s: Seq<char>, from: Seq<char>, to: Seq<char>)
    requires
        from.len() > 0,
        !contains_text(s, from),
    ensures
        replaced(s, from, to) == s,
    decreases s.len(),
{
    if s.len() >= from.len() {
        assert(s.subrange(0, from.len() as int) == from ==> occurs_at(s, from, 0));
        let rest = s.drop_first();
        assert forall|i: int| occurs_at(rest, from, i) implies occurs_at(s, from, i + 1) by {
            assert(s.subrange(i + 1, i + 1 + from.len()) == rest.subrange(i, i + from.len()));
        }
        assert(!contains_text(rest, from));
        law_nothing_to_replace(rest, from, to);
    }
}

/// The first occurrence of a text is replaced, and what stands before it is
/// kept.
pub proof fn law_first_occurrence_is_replaced(
    before: Seq<char>,
    from: Seq<char>,
    after: Seq<char>,
    to: Seq<char>,
)
    requires
        from.len() > 0,
        forall|i: int| 0 <= i < before.len() ==> !occurs_at(before + from + after, from, i),
    ensures
        replaced(before + from + after, from, to) == before + to + replaced(after, from, to),
    decreases before.len(),
{
    let all = before + from + after;
    if before.len() == 0 {
        assert(all == from + after);
        assert(all.subrange(0, from.len() as int) == from);
        assert(all.skip(from.len() as int) == after);
        assert(before + to + replaced(after, from, to) == to + replaced(after, from, to));
    } else {
        let rest = before.drop_first();
        let tail = rest + from + after;
        assert(all.drop_first() == tail);
        assert forall|i: int| 0 <= i < rest.len() implies !occurs_at(tail, from, i) by {
            if occurs_at(tail, from, i) {
                assert(all.subrange(i + 1, i + 1 + from.len()) == tail.subrange(i, i + from.len()));
                assert(occurs_at(all, from, i + 1));
            }
        }
        law_first_occurrence_is_replaced(rest, from, after, to);
        assert(!occurs_at(all, from, 0));
        assert(all.subrange(0, from.len() as int) != from);
        assert(!from.is_prefix_of(all));
        assert(seq![all[0]] + (rest + to + replaced(after, from, to)) == before + to + replaced(
            after,
            from,
            to,
        ));
    }
}

/// The first bytes of a text and the last ones can be cut off between any two
/// characters.
pub proof fn law_bytes_are_cut_between_characters(a: Seq<char>, b: Seq<char>)
    ensures
        first_bytes(a + b, byte_len(a) as int) == Some(a),
        last_bytes(a + b, byte_len(b) as int) == Some(b),
{
    lemma_first_bytes_of(a, b);
    lemma_last_bytes_of(a, b);
}

proof fn lemma_first_bytes_of(a: Seq<char>, b: Seq<char>)
    ensures
        first_bytes(a + b, byte_len(a) as int) == Some(a),
    decreases a.len(),
{
    if a.len() == 0 {
        assert(a == Seq::<char>::empty());
    } else {
        let rest = a.drop_first();
        lemma_first_bytes_of(rest, b);
        assert((a + b).drop_first() == rest + b);
        assert(seq![a[0]] + rest == a);
    }
}

proof fn lemma_last_bytes_of(a: Seq<char>, b: Seq<char>)
    ensures
        last_bytes(a + b, byte_len(b) as int) == Some(b),
    decreases b.len(),
{
    if b.len() == 0 {
        assert(b == Seq::<char>::empty());
    } else {
        let rest = b.drop_last();
        lemma_last_bytes_of(a, rest);
        assert((a + b).drop_last() == a + rest);
        assert(rest.push(b.last()) == b);
        lemma_byte_len_push(rest, b.last());
    }
}

/// The number that decimal digits stand for.
pub open spec fn number_of(digits: Seq<char>) -> int
    decreases digits.len(),
{
    if digits.len() == 0 {
        0
    } else {
        number_of(digits.drop_last()) * 10 + (digits.last() as int - '0' as int)
    }
}

/// The decimal digits of a number stand for that number, and the first one is
/// zero only for zero itself.
pub proof fn law_decimal_stands_for_the_number(n: nat)
    ensures
        number_of(decimal(n)) == n,
        decimal(n).len() > 0,
        forall|i: int| 0 <= i < decimal(n).len() ==> '0' <= #[trigger] decimal(n)[i] <= '9',
        n > 0 ==> decimal(n)[0] != '0',
    decreases n,
{
    if n < 10 {
        assert(decimal(n).drop_last() == Seq::<char>::empty());
        assert(number_of(Seq::<char>::empty()) == 0);
    } else {
        law_decimal_stands_for_the_number(n / 10);
        assert(decimal(n).drop_last() == decimal(n / 10));
    }
}

/// The first ASCII letter or digit starts what is left.
pub proof fn law_decoration_is_left_out(before: Seq<char>, s: Seq<char>)
    requires
        forall|k: int| 0 <= k < before.len() ==> !is_ascii_alphanumeric(#[trigger] before[k]),
        s.len() > 0,
        is_ascii_alphanumeric(s[0]),
    ensures
        from_alphanumeric(before + s) == s,
{
    let p = decoration();
    let all = before + s;
    assert forall|k: int| 0 <= k < before.len() implies p(#[trigger] all[k]) by {
        assert(all[k] == before[k]);
    }
    lemma_trim_start_skip(all, p, before.len() as int);
    assert(all.skip(before.len() as int) == s);
}

/// Whether a text has a character that is no white space.
pub open spec fn is_filled(s: Seq<char>) -> bool {
    exists|j: int| 0 <= j < s.len() && !is_white_space(#[trigger] s[j])
}

/// A text is trimmed to nothing exactly if it has only white space.
pub proof fn law_blank_text_is_trimmed_away(s: Seq<char>)
    ensures
        trimmed(s).len() > 0 <==> is_filled(s),
{
    let p = blank();
    let (a, b) = lemma_trim_at(s, p);
    if a < b {
        assert(!is_white_space(s[a]));
    }
    if is_filled(s) {
        let j = choose|j: int| 0 <= j < s.len() && !is_white_space(#[trigger] s[j]);
        assert(!p(s[j]));
    }
}

/// The ASCII digits and letters.
pub proof fn law_ascii_digits_and_letters(c: char)
    ensures
        is_ascii_digit(c) <==> '0' <= c && c <= '9',
        is_ascii_alphanumeric(c) <==> ('0' <= c && c <= '9') || ('a' <= c && c <= 'z') || ('A' <= c
            && c <= 'Z'),
{
}

/// Whether a text consists of one character, however often.
pub open spec fn is_all(s: Seq<char>, c: char) -> bool {
    forall|k: int| 0 <= k < s.len() ==> #[trigger] s[k] == c
}

/// A character is trimmed however often it stands at an end.
pub proof fn law_character_is_trimmed(before: Seq<char>, s: Seq<char>, after: Seq<char>, c: char)
    requires
        is_all(before, c),
        is_all(after, c),
        s.len() > 0 ==> s[0] != c && s.last() != c,
    ensures
        trimmed_of(before + s + after, c) == s,
{
    law_trimming_keeps_the_middle(before, s, after, exactly(c));
}

/// Whether a text consists of quotes that open a value: double ones, and then
/// single ones.
pub open spec fn is_opening(q: Seq<char>) -> bool {
    exists|n: int|
        0 <= n <= q.len() && #[trigger] is_all(q.take(n), '"') && is_all(q.skip(n), '\'')
}

/// Whether a text consists of quotes that close a value: single ones, and then
/// double ones.
pub open spec fn is_closing(q: Seq<char>) -> bool {
    exists|n: int|
        0 <= n <= q.len() && #[trigger] is_all(q.take(n), '\'') && is_all(q.skip(n), '"')
}

/// Double quotes around single ones around a value are all taken off, be they
/// none, one or many, and as many at either end or not; double quotes within
/// single ones are kept.
pub proof fn law_quotes_are_taken_off(opening: Seq<char>, s: Seq<char>, closing: Seq<char>)
    requires
        is_opening(opening),
        is_closing(closing),
        s.len() > 0 ==> s[0] != '\'' && s.last() != '\'',
        s.len() > 0 && s[0] == '"' ==> opening.len() > 0 && opening.last() == '\'',
        s.len() > 0 && s.last() == '"' ==> closing.len() > 0 && closing[0] == '\'',
    ensures
        trimmed_of(trimmed_of(opening + s + closing, '"'), '\'') == s,
{
    let n = choose|n: int|
        0 <= n <= opening.len() && #[trigger] is_all(opening.take(n), '"') && is_all(
            opening.skip(n),
            '\'',
        );
    let m = choose|m: int|
        0 <= m <= closing.len() && #[trigger] is_all(closing.take(m), '\'') && is_all(
            closing.skip(m),
            '"',
        );
    let a = opening.take(n);
    let b = opening.skip(n);
    let c = closing.take(m);
    let d = closing.skip(m);
    let inner = b + s + c;
    assert(opening + s + closing =~= a + inner + d);
    if opening.len() > 0 && opening.last() == '\'' && n == opening.len() {
        assert(a[n - 1] == opening.last());
    }
    if closing.len() > 0 && closing[0] == '\'' && m == 0 {
        assert(d[0] == closing[0]);
    }
    if inner.len() > 0 {
        assert(inner[0] == (if b.len() > 0 {
            b[0]
        } else if s.len() > 0 {
            s[0]
        } else {
            c[0]
        }));
        let e = inner.len() - 1;
        assert(inner[e] == (if c.len() > 0 {
            c[c.len() - 1]
        } else if s.len() > 0 {
            s[s.len() - 1]
        } else {
            b[b.len() - 1]
        }));
    }
    law_character_is_trimmed(a, inner, d, '"');
    law_character_is_trimmed(b, s, c, '\'');
}

/// No quotes, one and the same quote at either end: all are quotes that open and
/// close a value.
pub proof fn lemma_plain_quotes(quote: Seq<char>)
    requires
        quote == Seq::<char>::empty() || quote == seq!['"'] || quote == seq!['\''],
    ensures
        is_opening(quote),
        is_closing(quote),
{
    if quote == seq!['"'] {
        assert(is_all(quote.take(1), '"') && is_all(quote.skip(1), '\''));
        assert(is_all(quote.take(0), '\'') && is_all(quote.skip(0), '"'));
    } else if quote == seq!['\''] {
        assert(is_all(quote.take(0), '"') && is_all(quote.skip(0), '\''));
        assert(is_all(quote.take(1), '\'') && is_all(quote.skip(1), '"'));
    } else {
        assert(is_all(quote.take(0), '"') && is_all(quote.skip(0), '\''));
        assert(is_all(quote.take(0), '\'') && is_all(quote.skip(0), '"'));
    }
}

/// What stands before the first place where a text occurs is kept when that text
/// is replaced.
pub proof fn law_text_before_is_kept(
    before: Seq<char>,
    rest: Seq<char>,
    from: Seq<char>,
    to: Seq<char>,
)
    requires
        from.len() > 0,
        forall|i: int| 0 <= i < before.len() ==> !occurs_at(before + rest, from, i),
    ensures
        replaced(before + rest, from, to) == before + replaced(rest, from, to),
    decreases before.len(),
{
    let all = before + rest;
    if before.len() == 0 {
        assert(all =~= rest);
        assert(before + replaced(rest, from, to) =~= replaced(rest, from, to));
    } else {
        let tail = before.drop_first();
        let shorter = tail + rest;
        assert(all.drop_first() =~= shorter);
        assert forall|i: int| 0 <= i < tail.len() implies !occurs_at(shorter, from, i) by {
            if occurs_at(shorter, from, i) {
                assert(all.subrange(i + 1, i + 1 + from.len()) =~= shorter.subrange(
                    i,
                    i + from.len(),
                ));
                assert(occurs_at(all, from, i + 1));
            }
        }
        law_text_before_is_kept(tail, rest, from, to);
        assert(!occurs_at(all, from, 0));
        if from.len() <= all.len() {
            assert(all.subrange(0, from.len() as int) != from);
            assert(!from.is_prefix_of(all));
        } else {
            assert(replaced(rest, from, to) == rest);
        }
        assert(seq![all[0]] + (tail + replaced(rest, from, to)) =~= before + replaced(
            rest,
            from,
            to,
        ));
    }
}

/// Whether a value can be told apart from the quotes and the white space around
/// it: it has no single quote at either end, no double one unless within single
/// ones, and no white space where there are no quotes.
pub open spec fn is_value_between(opening: Seq<char>, value: Seq<char>, closing: Seq<char>) -> bool {
    &&& is_opening(opening)
    &&& is_closing(closing)
    &&& value.len() > 0 ==> value[0] != '\'' && value.last() != '\''
    &&& value.len() > 0 && value[0] == '"' ==> opening.len() > 0 && opening.last() == '\''
    &&& value.len() > 0 && value.last() == '"' ==> closing.len() > 0 && closing[0] == '\''
    &&& value.len() > 0 && opening.len() == 0 ==> !is_white_space(value[0])
    &&& value.len() > 0 && closing.len() == 0 ==> !is_white_space(value.last())
}

/// A value is found between white space and quotes.
pub proof fn law_value_is_found(
    before: Seq<char>,
    opening: Seq<char>,
    value: Seq<char>,
    closing: Seq<char>,
    after: Seq<char>,
)
    requires
        forall|k: int| 0 <= k < before.len() ==> is_white_space(#[trigger] before[k]),
        forall|k: int| 0 <= k < after.len() ==> is_white_space(#[trigger] after[k]),
        is_value_between(opening, value, closing),
    ensures
        trimmed_of(
            trimmed_of(trimmed(before + (opening + value + closing) + after), '"'),
            '\'',
        ) == value,
        ({
            let quoted = opening + value + closing;
            quoted.len() > 0 ==> !is_white_space(quoted[0]) && !is_white_space(quoted.last())
        }),
{
    let quoted = opening + value + closing;
    lemma_quotes_of_either_kind(opening);
    lemma_quotes_of_either_kind(closing);
    if quoted.len() > 0 {
        assert(quoted[0] == (if opening.len() > 0 {
            opening[0]
        } else if value.len() > 0 {
            value[0]
        } else {
            closing[0]
        }));
        let e = quoted.len() - 1;
        assert(quoted[e] == (if closing.len() > 0 {
            closing[closing.len() - 1]
        } else if value.len() > 0 {
            value[value.len() - 1]
        } else {
            opening[opening.len() - 1]
        }));
    }
    law_white_space_is_trimmed(before, quoted, after);
    law_quotes_are_taken_off(opening, value, closing);
}

/// Such quotes consist of quotes of either kind.
pub proof fn lemma_quotes_of_either_kind(q: Seq<char>)
    requires
        is_opening(q) || is_closing(q),
    ensures
        forall|k: int| 0 <= k < q.len() ==> #[trigger] q[k] == '"' || q[k] == '\'',
{
    assert forall|k: int| 0 <= k < q.len() implies #[trigger] q[k] == '"' || q[k] == '\'' by {
        if is_opening(q) {
            let n = choose|n: int|
                0 <= n <= q.len() && #[trigger] is_all(q.take(n), '"') && is_all(q.skip(n), '\'');
            if k < n {
                assert(q.take(n)[k] == q[k]);
            } else {
                assert(q.skip(n)[k - n] == q[k]);
            }
        } else {
            let n = choose|n: int|
                0 <= n <= q.len() && #[trigger] is_all(q.take(n), '\'') && is_all(q.skip(n), '"');
            if k < n {
                assert(q.take(n)[k] == q[k]);
            } else {
                assert(q.skip(n)[k - n] == q[k]);
            }
        }
    }
}

} // verus!
