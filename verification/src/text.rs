//! Character-level text operations: searching, trimming, splitting into lines
//! and words, joining. Every operation is specified over `Seq<char>` and
//! implemented over `Vec<char>`.
//!
//! What the Unicode tables of the standard library say is taken on trust
//! here: which characters are white space, which are upper case, which are
//! letters or numbers, and what the lower-case and the upper-case form of a
//! text are.

use vstd::prelude::*;
use vstd::std_specs::iter::IteratorSpec;

verus! {

/// Whether the standard library classifies `c` as white space
/// (`char::is_whitespace`).
pub uninterp spec fn unicode_white_space(c: char) -> bool;

/// Whether the standard library classifies `c` as upper case
/// (`char::is_uppercase`).
pub uninterp spec fn unicode_uppercase(c: char) -> bool;

/// Whether the standard library classifies `c` as a letter or a number
/// (`char::is_alphanumeric`).
pub uninterp spec fn unicode_alphanumeric(c: char) -> bool;

/// The lower-case form that the standard library gives a text
/// (`str::to_lowercase`).
pub uninterp spec fn unicode_lowercase(text: Seq<char>) -> Seq<char>;

/// The upper-case form that the standard library gives a text
/// (`str::to_uppercase`).
pub uninterp spec fn unicode_uppercased(text: Seq<char>) -> Seq<char>;

/// Trusted: `char::is_whitespace`. The result is the Unicode `White_Space`
/// property of `c`, which depends on `c` alone.
#[verifier::external_body]
pub(crate) fn is_white_space(c: char) -> (b: bool)
    ensures
        b == unicode_white_space(c),
{
    c.is_whitespace()
}

/// Trusted: `char::is_uppercase`. The result is the Unicode `Uppercase`
/// property of `c`, which depends on `c` alone.
#[verifier::external_body]
pub(crate) fn is_uppercase(c: char) -> (b: bool)
    ensures
        b == unicode_uppercase(c),
{
    c.is_uppercase()
}

/// Trusted: `char::is_alphanumeric`. The result is a property of `c` in the
/// Unicode tables, which depends on `c` alone.
#[verifier::external_body]
pub(crate) fn is_alphanumeric(c: char) -> (b: bool)
    ensures
        b == unicode_alphanumeric(c),
{
    c.is_alphanumeric()
}

/// Trusted: `str::to_lowercase`. The result depends on the characters of
/// `text` alone.
#[verifier::external_body]
pub(crate) fn to_lowercase(text: &str) -> (lowered: String)
    ensures
        lowered@ == unicode_lowercase(text@),
{
    text.to_lowercase()
}

/// Trusted: `str::to_uppercase`. The result depends on the characters of
/// `text` alone.
#[verifier::external_body]
pub(crate) fn to_uppercase(text: &str) -> (raised: String)
    ensures
        raised@ == unicode_uppercased(text@),
{
    text.to_uppercase()
}

/// Trusted: collecting characters into a `String` (`String::from_iter`). The
/// string holds exactly the given characters, in order.
#[verifier::external_body]
pub(crate) fn string_from_chars(chars: &Vec<char>) -> (s: String)
    ensures
        s@ == chars@,
{
    String::from_iter(chars.iter())
}

/// The characters of `s`, in order.
pub fn chars_of(s: &str) -> (v: Vec<char>)
    ensures
        v@ == s@,
{
    let mut v: Vec<char> = Vec::new();
    for c in it: s.chars()
        invariant
            v@ == it.seq().take(it.index()),
            it.seq() == s@,
    {
        v.push(c);
    }
    v
}

/// Whether two character vectors hold the same text.
pub fn same_chars(a: &Vec<char>, b: &Vec<char>) -> (same: bool)
    ensures
        same == (a@ == b@),
{
    if a.len() != b.len() {
        return false;
    }
    let mut i: usize = 0;
    while i < a.len()
        invariant
            i <= a.len() == b.len(),
            a@.take(i as int) == b@.take(i as int),
        decreases a.len() - i,
    {
        if a[i] != b[i] {
            return false;
        }
        assert(a@.take(i + 1) == a@.take(i as int).push(a@[i as int]));
        assert(b@.take(i + 1) == b@.take(i as int).push(b@[i as int]));
        i += 1;
    }
    assert(a@.take(i as int) == a@ && b@.take(i as int) == b@);
    true
}

/// Whether `chars` spells `word`.
pub fn spells(chars: &Vec<char>, word: &str) -> (same: bool)
    ensures
        same == (chars@ == word@),
{
    let letters = chars_of(word);
    same_chars(chars, &letters)
}

/// The least index `i >= from` with `s[i] == c`, or `s.len()` if there is none.
pub open spec fn find_char(s: Seq<char>, c: char, from: int) -> int
    decreases s.len() - from,
{
    if from < 0 || from >= s.len() {
        s.len() as int
    } else if s[from] == c {
        from
    } else {
        find_char(s, c, from + 1)
    }
}

/// The least index `i >= from` at which `s` holds white space, or `s.len()`.
pub open spec fn find_white(s: Seq<char>, from: int) -> int
    decreases s.len() - from,
{
    if from < 0 || from >= s.len() {
        s.len() as int
    } else if unicode_white_space(s[from]) {
        from
    } else {
        find_white(s, from + 1)
    }
}

/// The least index `i >= from` at which `s` holds no white space, or `s.len()`.
pub open spec fn find_ink(s: Seq<char>, from: int) -> int
    decreases s.len() - from,
{
    if from < 0 || from >= s.len() {
        s.len() as int
    } else if !unicode_white_space(s[from]) {
        from
    } else {
        find_ink(s, from + 1)
    }
}

/// The least index `i >= from` with `s[i] != c`, or `s.len()`.
pub open spec fn find_other(s: Seq<char>, c: char, from: int) -> int
    decreases s.len() - from,
{
    if from < 0 || from >= s.len() {
        s.len() as int
    } else if s[from] != c {
        from
    } else {
        find_other(s, c, from + 1)
    }
}

/// The least `e >= lo` such that `s[e..hi]` is all white space.
pub open spec fn ink_end(s: Seq<char>, lo: int, hi: int) -> int
    decreases hi - lo,
{
    if hi <= lo || hi > s.len() || lo < 0 {
        lo
    } else if unicode_white_space(s[hi - 1]) {
        ink_end(s, lo, hi - 1)
    } else {
        hi
    }
}

/// `s` without its leading and trailing white space.
pub open spec fn trimmed(s: Seq<char>) -> Seq<char> {
    let lo = find_ink(s, 0);
    s.subrange(lo, ink_end(s, lo, s.len() as int))
}

/// `s` without its leading run of `c`.
pub open spec fn without_leading(s: Seq<char>, c: char) -> Seq<char> {
    s.subrange(find_other(s, c, 0), s.len() as int)
}

/// `find_char` gives the first `c` at or after `from`.
pub proof fn lemma_find_char_bounds(s: Seq<char>, c: char, from: int)
    requires
        0 <= from <= s.len(),
    ensures
        from <= find_char(s, c, from) <= s.len(),
        find_char(s, c, from) < s.len() ==> s[find_char(s, c, from)] == c,
        forall|i: int| from <= i < find_char(s, c, from) ==> s[i] != c,
    decreases s.len() - from,
{
    if from < s.len() && s[from] != c {
        lemma_find_char_bounds(s, c, from + 1);
    }
}

/// `find_white` gives the first white space at or after `from`.
pub proof fn lemma_find_white_bounds(s: Seq<char>, from: int)
    requires
        0 <= from <= s.len(),
    ensures
        from <= find_white(s, from) <= s.len(),
        find_white(s, from) < s.len() ==> unicode_white_space(s[find_white(s, from)]),
        forall|i: int| from <= i < find_white(s, from) ==> !unicode_white_space(s[i]),
    decreases s.len() - from,
{
    if from < s.len() && !unicode_white_space(s[from]) {
        lemma_find_white_bounds(s, from + 1);
    }
}

/// `find_ink` gives the first character at or after `from` that is no white
/// space.
pub proof fn lemma_find_ink_bounds(s: Seq<char>, from: int)
    requires
        0 <= from <= s.len(),
    ensures
        from <= find_ink(s, from) <= s.len(),
        find_ink(s, from) < s.len() ==> !unicode_white_space(s[find_ink(s, from)]),
        forall|i: int| from <= i < find_ink(s, from) ==> unicode_white_space(s[i]),
    decreases s.len() - from,
{
    if from < s.len() && unicode_white_space(s[from]) {
        lemma_find_ink_bounds(s, from + 1);
    }
}

/// `ink_end` gives the end of the last character before `hi` that is no
/// white space.
pub proof fn lemma_ink_end_bounds(s: Seq<char>, lo: int, hi: int)
    requires
        0 <= lo <= hi <= s.len(),
    ensures
        lo <= ink_end(s, lo, hi) <= hi,
        ink_end(s, lo, hi) > lo ==> !unicode_white_space(s[ink_end(s, lo, hi) - 1]),
        forall|i: int| ink_end(s, lo, hi) <= i < hi ==> unicode_white_space(s[i]),
    decreases hi - lo,
{
    if lo < hi && unicode_white_space(s[hi - 1]) {
        lemma_ink_end_bounds(s, lo, hi - 1);
    }
}

/// Index of the first `c` in `v` at or after `from`; `v.len()` if there is none.
pub fn position_of(v: &Vec<char>, c: char, from: usize) -> (i: usize)
    requires
        from <= v.len(),
    ensures
        i == find_char(v@, c, from as int),
        from <= i <= v.len(),
{
    let mut i: usize = from;
    while i < v.len() && v[i] != c
        invariant
            from <= i <= v.len(),
            find_char(v@, c, from as int) == find_char(v@, c, i as int),
        decreases v.len() - i,
    {
        i += 1;
    }
    i
}

/// Index of the first white-space character of `v` at or after `from`.
pub fn position_of_white(v: &Vec<char>, from: usize) -> (i: usize)
    requires
        from <= v.len(),
    ensures
        i == find_white(v@, from as int),
        from <= i <= v.len(),
{
    let mut i: usize = from;
    while i < v.len() && !is_white_space(v[i])
        invariant
            from <= i <= v.len(),
            find_white(v@, from as int) == find_white(v@, i as int),
        decreases v.len() - i,
    {
        i += 1;
    }
    i
}

/// Index of the first character of `v` at or after `from` that is no white space.
pub fn position_of_ink(v: &Vec<char>, from: usize) -> (i: usize)
    requires
        from <= v.len(),
    ensures
        i == find_ink(v@, from as int),
        from <= i <= v.len(),
{
    let mut i: usize = from;
    while i < v.len() && is_white_space(v[i])
        invariant
            from <= i <= v.len(),
            find_ink(v@, from as int) == find_ink(v@, i as int),
        decreases v.len() - i,
    {
        i += 1;
    }
    i
}

/// A copy of `v[lo..hi]`.
pub fn copy_range(v: &Vec<char>, lo: usize, hi: usize) -> (out: Vec<char>)
    requires
        lo <= hi <= v.len(),
    ensures
        out@ == v@.subrange(lo as int, hi as int),
{
    let mut out: Vec<char> = Vec::new();
    let mut i: usize = lo;
    while i < hi
        invariant
            lo <= i <= hi <= v.len(),
            out@ == v@.subrange(lo as int, i as int),
        decreases hi - i,
    {
        out.push(v[i]);
        i += 1;
    }
    out
}

/// `v` without leading and trailing white space.
pub fn trim(v: &Vec<char>) -> (out: Vec<char>)
    ensures
        out@ == trimmed(v@),
{
    let lo: usize = position_of_ink(v, 0);
    let mut hi: usize = v.len();
    while hi > lo && is_white_space(v[hi - 1])
        invariant
            lo <= hi <= v.len(),
            ink_end(v@, lo as int, v.len() as int) == ink_end(v@, lo as int, hi as int),
        decreases hi - lo,
    {
        hi -= 1;
    }
    copy_range(v, lo, hi)
}

/// `v` without its leading run of `c`.
pub fn strip_leading(v: &Vec<char>, c: char) -> (out: Vec<char>)
    ensures
        out@ == without_leading(v@, c),
{
    let mut i: usize = 0;
    while i < v.len() && v[i] == c
        invariant
            i <= v.len(),
            find_other(v@, c, 0) == find_other(v@, c, i as int),
        decreases v.len() - i,
    {
        i += 1;
    }
    copy_range(v, i, v.len())
}

/// The views of a list of character vectors.
pub open spec fn views(vs: Seq<Vec<char>>) -> Seq<Seq<char>> {
    vs.map_values(|w: Vec<char>| w@)
}

/// The maximal runs of characters that are no white space, from index `from`
/// on, in order.
pub open spec fn words_from(s: Seq<char>, from: int) -> Seq<Seq<char>>
    decreases s.len() - from,
    via words_from_decreases
{
    let a = find_ink(s, from);
    if from < 0 || a >= s.len() {
        Seq::empty()
    } else {
        let b = find_white(s, a);
        seq![s.subrange(a, b)] + words_from(s, b)
    }
}

#[via_fn]
proof fn words_from_decreases(s: Seq<char>, from: int) {
    if 0 <= from <= s.len() {
        lemma_find_ink_bounds(s, from);
        let a = find_ink(s, from);
        if a < s.len() {
            lemma_find_white_bounds(s, a);
        }
    }
}

/// `s` split on runs of white space: its words, none of them empty.
pub open spec fn words(s: Seq<char>) -> Seq<Seq<char>> {
    words_from(s, 0)
}

/// One line of `s`: it starts at `from` and ends before the line feed at `nl`
/// (or at the end of `s`). A carriage return directly before the line feed
/// belongs to the line ending.
pub open spec fn line_between(s: Seq<char>, from: int, nl: int) -> Seq<char> {
    if nl < s.len() && from < nl && s[nl - 1] == '\r' {
        s.subrange(from, nl - 1)
    } else {
        s.subrange(from, nl)
    }
}

/// The lines of `s` from index `from` on.
pub open spec fn lines_from(s: Seq<char>, from: int) -> Seq<Seq<char>>
    decreases s.len() + 1 - from,
    via lines_from_decreases
{
    if from < 0 || from >= s.len() {
        Seq::empty()
    } else {
        let nl = find_char(s, '\n', from);
        seq![line_between(s, from, nl)] + lines_from(s, nl + 1)
    }
}

#[via_fn]
proof fn lines_from_decreases(s: Seq<char>, from: int) {
    if 0 <= from < s.len() {
        lemma_find_char_bounds(s, '\n', from);
    }
}

/// The lines of `s`. A line ends with a line feed, or with a carriage return
/// and a line feed; the last line may end with the text. Line endings are not
/// part of the lines.
pub open spec fn lines(s: Seq<char>) -> Seq<Seq<char>> {
    lines_from(s, 0)
}

/// `parts` put together with `sep` between each two neighbours.
pub open spec fn joined(parts: Seq<Seq<char>>, sep: char) -> Seq<char>
    decreases parts.len(),
{
    if parts.len() == 0 {
        Seq::empty()
    } else if parts.len() == 1 {
        parts[0]
    } else {
        joined(parts.drop_last(), sep) + seq![sep] + parts.last()
    }
}

/// The words of `v`.
pub fn split_words(v: &Vec<char>) -> (out: Vec<Vec<char>>)
    ensures
        views(out@) == words(v@),
{
    let mut out: Vec<Vec<char>> = Vec::new();
    let mut i: usize = 0;
    let mut a: usize = position_of_ink(v, 0);
    while a < v.len()
        invariant
            i <= a <= v.len(),
            a == find_ink(v@, i as int),
            views(out@) + words_from(v@, i as int) == words(v@),
        decreases v.len() - a,
    {
        let b: usize = position_of_white(v, a);
        let word = copy_range(v, a, b);
        proof {
            lemma_find_white_bounds(v@, a as int);
            assert(views(out@.push(word)) == views(out@).push(word@));
            assert(views(out@).push(word@) + words_from(v@, b as int) == views(out@) + words_from(
                v@,
                i as int,
            ));
        }
        out.push(word);
        i = b;
        a = position_of_ink(v, b);
    }
    out
}

/// The lines of `v`.
pub fn split_lines(v: &Vec<char>) -> (out: Vec<Vec<char>>)
    ensures
        views(out@) == lines(v@),
{
    let mut out: Vec<Vec<char>> = Vec::new();
    let mut i: usize = 0;
    while i < v.len()
        invariant
            views(out@) + lines_from(v@, i as int) == lines(v@),
        decreases v.len() - i,
    {
        let nl: usize = position_of(v, '\n', i);
        let end: usize = if nl < v.len() && i < nl && v[nl - 1] == '\r' {
            nl - 1
        } else {
            nl
        };
        let line = copy_range(v, i, end);
        proof {
            assert(line@ == line_between(v@, i as int, nl as int));
            assert(views(out@.push(line)) == views(out@).push(line@));
            assert(views(out@).push(line@) + lines_from(v@, nl + 1) == views(out@) + lines_from(
                v@,
                i as int,
            ));
        }
        out.push(line);
        if nl == v.len() {
            i = nl;
        } else {
            i = nl + 1;
        }
    }
    out
}

/// `parts[from..]` put together with `sep` between each two neighbours.
pub fn join_from(parts: &Vec<Vec<char>>, from: usize, sep: char) -> (out: Vec<char>)
    requires
        from <= parts.len(),
    ensures
        out@ == joined(views(parts@).subrange(from as int, parts.len() as int), sep),
{
    let mut out: Vec<char> = Vec::new();
    let mut k: usize = from;
    while k < parts.len()
        invariant
            from <= k <= parts.len(),
            out@ == joined(views(parts@).subrange(from as int, k as int), sep),
        decreases parts.len() - k,
    {
        let ghost before = views(parts@).subrange(from as int, k as int);
        let ghost after = views(parts@).subrange(from as int, k + 1);
        proof {
            assert(after.drop_last() == before);
            assert(after.last() == parts@[k as int]@);
        }
        if k > from {
            out.push(sep);
        }
        let part = &parts[k];
        let mut j: usize = 0;
        while j < part.len()
            invariant
                j <= part.len(),
                out@ == (if k > from {
                    joined(before, sep) + seq![sep]
                } else {
                    joined(before, sep)
                }) + part@.subrange(0, j as int),
            decreases part.len() - j,
        {
            out.push(part[j]);
            j += 1;
        }
        proof {
            assert(part@.subrange(0, part.len() as int) == part@);
        }
        k += 1;
    }
    proof {
        assert(views(parts@).subrange(from as int, parts.len() as int) == views(
            parts@,
        ).subrange(from as int, k as int));
    }
    out
}

/// Trimming makes a text no longer.
pub proof fn lemma_trimmed_len(s: Seq<char>)
    ensures
        trimmed(s).len() <= s.len(),
{
    lemma_find_ink_bounds(s, 0);
    lemma_ink_end_bounds(s, find_ink(s, 0), s.len() as int);
}

/// A text has no more words than characters.
pub proof fn lemma_words_len(s: Seq<char>, from: int)
    requires
        0 <= from <= s.len(),
    ensures
        words_from(s, from).len() <= s.len() - from,
    decreases s.len() - from,
{
    lemma_find_ink_bounds(s, from);
    let a = find_ink(s, from);
    if a < s.len() {
        lemma_find_white_bounds(s, a);
        lemma_words_len(s, find_white(s, a));
    }
}

/// The words behind the first word are the words of the text behind it.
pub proof fn lemma_words_tail(s: Seq<char>, from: int)
    requires
        0 <= from <= s.len(),
        words_from(s, from).len() > 0,
    ensures
        find_ink(s, from) < s.len(),
        from < find_white(s, find_ink(s, from)) <= s.len(),
        words_from(s, from).subrange(1, words_from(s, from).len() as int) == words_from(
            s,
            find_white(s, find_ink(s, from)),
        ),
{
    lemma_find_ink_bounds(s, from);
    let a = find_ink(s, from);
    lemma_find_white_bounds(s, a);
}

/// Joining with a part in front: the part, then the separator and the rest
/// joined, if there is a rest.
pub proof fn lemma_joined_prepend(first: Seq<char>, rest: Seq<Seq<char>>, sep: char)
    ensures
        joined(seq![first] + rest, sep) == if rest.len() == 0 {
            first
        } else {
            first + seq![sep] + joined(rest, sep)
        },
    decreases rest.len(),
{
    let all = seq![first] + rest;
    if rest.len() == 0 {
        assert(all == seq![first]);
        assert(all.len() == 1 && all[0] == first);
    } else if rest.len() == 1 {
        assert(all.len() == 2);
        assert(all.last() == rest.last());
        assert(all.drop_last() == seq![first]);
        assert(seq![first].len() == 1 && seq![first][0] == first);
        assert(joined(seq![first], sep) == first);
        assert(joined(rest, sep) == rest[0]);
    } else {
        assert(all.len() > 2);
        assert(all.last() == rest.last());
        assert(all.drop_last() == seq![first] + rest.drop_last());
        lemma_joined_prepend(first, rest.drop_last(), sep);
        assert(joined(rest, sep) == joined(rest.drop_last(), sep) + seq![sep] + rest.last());
        assert(first + seq![sep] + joined(rest.drop_last(), sep) + seq![sep] + rest.last() == first
            + seq![sep] + (joined(rest.drop_last(), sep) + seq![sep] + rest.last()));
    }
}

/// The words of a text, joined with one separator between each two, are no
/// longer than the text from its first word on.
pub proof fn lemma_joined_words_len(s: Seq<char>, from: int, sep: char)
    requires
        0 <= from <= s.len(),
    ensures
        joined(words_from(s, from), sep).len() <= s.len() - find_ink(s, from),
        find_ink(s, from) >= from,
    decreases s.len() - from,
{
    lemma_find_ink_bounds(s, from);
    let a = find_ink(s, from);
    if a < s.len() {
        lemma_find_white_bounds(s, a);
        let b = find_white(s, a);
        let rest = words_from(s, b);
        lemma_joined_words_len(s, b, sep);
        lemma_joined_prepend(s.subrange(a, b), rest, sep);
        if rest.len() > 0 {
            lemma_find_ink_bounds(s, b);
        }
    }
}

/// The words of a text from the `k`-th on, joined, are no longer than the
/// text.
pub proof fn lemma_joined_tail_len(s: Seq<char>, from: int, k: int, sep: char)
    requires
        0 <= from <= s.len(),
        0 <= k <= words_from(s, from).len(),
    ensures
        joined(words_from(s, from).subrange(k, words_from(s, from).len() as int), sep).len()
            <= s.len() - from,
    decreases k,
{
    let w = words_from(s, from);
    if k == 0 {
        assert(w.subrange(0, w.len() as int) == w);
        lemma_joined_words_len(s, from, sep);
    } else {
        lemma_words_tail(s, from);
        let b = find_white(s, find_ink(s, from));
        let tail = words_from(s, b);
        assert(w.subrange(k, w.len() as int) == tail.subrange(k - 1, tail.len() as int));
        lemma_joined_tail_len(s, b, k - 1, sep);
    }
}

/// The number of characters in all of `parts`.
pub open spec fn chars_in(parts: Seq<Seq<char>>) -> nat
    decreases parts.len(),
{
    if parts.len() == 0 {
        0
    } else {
        chars_in(parts.drop_last()) + parts.last().len()
    }
}

/// The characters of parts with one part in front.
proof fn lemma_chars_in_prepend(first: Seq<char>, rest: Seq<Seq<char>>)
    ensures
        chars_in(seq![first] + rest) == first.len() + chars_in(rest),
    decreases rest.len(),
{
    let all = seq![first] + rest;
    if rest.len() == 0 {
        assert(all.len() == 1 && all.last() == first);
        assert(all.drop_last() == Seq::<Seq<char>>::empty());
        assert(chars_in(all.drop_last()) == 0);
    } else {
        assert(all.len() > 1 && all.last() == rest.last());
        assert(all.drop_last() == seq![first] + rest.drop_last());
        lemma_chars_in_prepend(first, rest.drop_last());
    }
}

/// The lines of a text hold no more characters than the text.
pub proof fn lemma_lines_chars(s: Seq<char>, from: int)
    requires
        0 <= from <= s.len(),
    ensures
        chars_in(lines_from(s, from)) <= s.len() - from,
    decreases s.len() - from,
{
    if from < s.len() {
        lemma_find_char_bounds(s, '\n', from);
        let nl = find_char(s, '\n', from);
        if nl < s.len() {
            lemma_lines_chars(s, nl + 1);
        }
        lemma_chars_in_prepend(line_between(s, from, nl), lines_from(s, nl + 1));
    }
}

/// The pieces of `s` between the occurrences of `c`, from index `from` on.
pub open spec fn split_from(s: Seq<char>, c: char, from: int) -> Seq<Seq<char>>
    decreases s.len() + 1 - from,
    via split_from_decreases
{
    if from < 0 || from > s.len() {
        Seq::empty()
    } else {
        let p = find_char(s, c, from);
        seq![s.subrange(from, p)] + split_from(s, c, p + 1)
    }
}

#[via_fn]
proof fn split_from_decreases(s: Seq<char>, c: char, from: int) {
    if 0 <= from <= s.len() {
        lemma_find_char_bounds(s, c, from);
    }
}

/// `s` split at every `c`: the pieces between them, empty ones too. There is
/// one piece more than there are `c` in `s`.
pub open spec fn split_at_char(s: Seq<char>, c: char) -> Seq<Seq<char>> {
    split_from(s, c, 0)
}

/// `v` split at every `c`.
pub fn split_on(v: &Vec<char>, c: char) -> (out: Vec<Vec<char>>)
    ensures
        views(out@) == split_at_char(v@, c),
{
    let mut out: Vec<Vec<char>> = Vec::new();
    let mut i: usize = 0;
    loop
        invariant_except_break
            i <= v.len(),
            views(out@) + split_from(v@, c, i as int) == split_at_char(v@, c),
        ensures
            views(out@) == split_at_char(v@, c),
        decreases v.len() - i,
    {
        let p: usize = position_of(v, c, i);
        let piece = copy_range(v, i, p);
        proof {
            assert(views(out@.push(piece)) == views(out@).push(piece@));
            assert(views(out@).push(piece@) + split_from(v@, c, p + 1) == views(out@) + split_from(
                v@,
                c,
                i as int,
            ));
        }
        out.push(piece);
        if p == v.len() {
            assert(split_from(v@, c, p + 1) == Seq::<Seq<char>>::empty());
            break;
        }
        i = p + 1;
    }
    out
}

/// Joining the pieces of a split with the character of the split gives the
/// text back.
pub proof fn lemma_joined_split(s: Seq<char>, c: char, from: int)
    requires
        0 <= from <= s.len(),
    ensures
        split_from(s, c, from).len() >= 1,
        joined(split_from(s, c, from), c) == s.subrange(from, s.len() as int),
    decreases s.len() - from,
{
    lemma_find_char_bounds(s, c, from);
    let p = find_char(s, c, from);
    let rest = split_from(s, c, p + 1);
    lemma_joined_prepend(s.subrange(from, p), rest, c);
    if p < s.len() {
        lemma_joined_split(s, c, p + 1);
        assert(s.subrange(from, p) + seq![c] + s.subrange(p + 1, s.len() as int) == s.subrange(
            from,
            s.len() as int,
        ));
    }
}

/// The first pieces of a split, and when there are at least three. With `p`
/// the place of the first `c` and `q` that of the second: the first piece ends
/// at `p`, the second lies between `p` and `q`, and the pieces from the third
/// on, joined with `c`, are what stands behind `q`.
pub proof fn lemma_split_in_three(s: Seq<char>, c: char)
    ensures
        ({
            let parts = split_at_char(s, c);
            let p = find_char(s, c, 0);
            let q = find_char(s, c, p + 1);
            &&& parts.len() >= 3 <==> q < s.len()
            &&& q < s.len() ==> {
                &&& parts[0] == s.subrange(0, p)
                &&& parts[1] == s.subrange(p + 1, q)
                &&& joined(parts.subrange(2, parts.len() as int), c) == s.subrange(
                    q + 1,
                    s.len() as int,
                )
            }
        }),
{
    let parts = split_at_char(s, c);
    lemma_find_char_bounds(s, c, 0);
    let p = find_char(s, c, 0);
    if p < s.len() {
        lemma_find_char_bounds(s, c, p + 1);
        let q = find_char(s, c, p + 1);
        let second = split_from(s, c, p + 1);
        if q < s.len() {
            let third = split_from(s, c, q + 1);
            lemma_joined_split(s, c, q + 1);
            assert(parts.subrange(2, parts.len() as int) == third);
        } else {
            assert(split_from(s, c, q + 1) == Seq::<Seq<char>>::empty());
        }
    } else {
        assert(split_from(s, c, p + 1) == Seq::<Seq<char>>::empty());
    }
}

} // verus!
