//! Reading configuration text: lines of `key = value`, with or without
//! sections, into named values; and reading single values.

use crate::fields::{with_field, FieldMap, Fields};
use crate::text::{
    chars_of, copy_range, find_char, lines, position_of, spells, split_at_char, split_lines,
    split_on, string_from_chars, to_lowercase, trim, trimmed, unicode_lowercase, views,
};
use vstd::prelude::*;

verus! {

/// The key and the value of a line `key = value`: what stands before the
/// first `=` and what stands behind it, each without the white space around
/// it. A line without `=` has none.
pub open spec fn assignment(line: Seq<char>) -> Option<(Seq<char>, Seq<char>)> {
    let p = find_char(line, '=', 0);
    if p < line.len() {
        Some((trimmed(line.subrange(0, p)), trimmed(line.subrange(p + 1, line.len() as int))))
    } else {
        None
    }
}

/// Whether a line, without the white space around it, names a section:
/// `[name]`.
pub open spec fn is_section(t: Seq<char>) -> bool {
    t.len() > 0 && t[0] == '[' && t.last() == ']'
}

/// The key of a value in a section: `section.key`, or the key alone outside
/// any section.
pub open spec fn full_key(section: Seq<char>, key: Seq<char>) -> Seq<char> {
    if section.len() == 0 {
        key
    } else {
        section + seq!['.'] + key
    }
}

/// Where the reading of sectioned text stands: the section and the values
/// read so far.
pub struct Reading {
    pub section: Seq<char>,
    pub fields: Fields,
}

/// The reading after one more line. An empty line and a line that starts with
/// `#` or `;` change nothing; `[name]` opens a section; `key = value` sets a
/// value in the open section; any other line changes nothing.
pub open spec fn after_ini_line(before: Reading, line: Seq<char>) -> Reading {
    let t = trimmed(line);
    if t.len() == 0 || t[0] == '#' || t[0] == ';' {
        before
    } else if is_section(t) {
        Reading { section: t.subrange(1, t.len() - 1), fields: before.fields }
    } else {
        match assignment(t) {
            Some((key, value)) => Reading {
                section: before.section,
                fields: with_field(before.fields, full_key(before.section, key), value),
            },
            None => before,
        }
    }
}

/// The reading after some lines.
pub open spec fn after_ini_lines(lines: Seq<Seq<char>>) -> Reading
    decreases lines.len(),
{
    if lines.len() == 0 {
        Reading { section: Seq::empty(), fields: Seq::empty() }
    } else {
        after_ini_line(after_ini_lines(lines.drop_last()), lines.last())
    }
}

/// The values that text with sections sets.
pub open spec fn ini_fields(content: Seq<char>) -> Fields {
    after_ini_lines(lines(content)).fields
}

/// The values after one more line of text without sections. An empty line
/// and a line that starts with `#` change nothing; `key = value` sets a
/// value; any other line changes nothing.
pub open spec fn after_plain_line(before: Fields, line: Seq<char>) -> Fields {
    let t = trimmed(line);
    if t.len() == 0 || t[0] == '#' {
        before
    } else {
        match assignment(t) {
            Some((key, value)) => with_field(before, key, value),
            None => before,
        }
    }
}

/// The values after some lines of text without sections.
pub open spec fn after_plain_lines(lines: Seq<Seq<char>>) -> Fields
    decreases lines.len(),
{
    if lines.len() == 0 {
        Seq::empty()
    } else {
        after_plain_line(after_plain_lines(lines.drop_last()), lines.last())
    }
}

/// The values that text without sections sets.
pub open spec fn key_value_fields(content: Seq<char>) -> Fields {
    after_plain_lines(lines(content))
}

/// Splits a line `key = value`.
fn split_assignment(line: &Vec<char>) -> (parts: Option<(Vec<char>, Vec<char>)>)
    ensures
        match parts {
            Some((key, value)) => assignment(line@) == Some((key@, value@)),
            None => assignment(line@) is None,
        },
{
    let p: usize = position_of(line, '=', 0);
    if p < line.len() {
        Some((trim(&copy_range(line, 0, p)), trim(&copy_range(line, p + 1, line.len()))))
    } else {
        None
    }
}

/// Reads text with sections: lines `key = value` under lines `[section]`.
/// A value in a section goes by the name `section.key`. A later value takes
/// the place of an earlier one of the same name.
pub fn parse_ini(content: &str) -> (values: FieldMap)
    ensures
        values@ == ini_fields(content@),
{
    let all = split_lines(&chars_of(content));
    let ghost ls = views(all@);
    assert(ls.len() == all@.len());
    let mut values = FieldMap::new();
    let mut section: Vec<char> = Vec::new();
    let mut k: usize = 0;
    while k < all.len()
        invariant
            k <= all.len(),
            ls == views(all@),
            ls.len() == all@.len(),
            (Reading { section: section@, fields: values@ }) == after_ini_lines(ls.take(k as int)),
        decreases all.len() - k,
    {
        proof {
            assert(ls.take(k + 1).drop_last() == ls.take(k as int));
            assert(ls.take(k + 1).last() == all@[k as int]@);
        }
        let t = trim(&all[k]);
        if t.len() == 0 || t[0] == '#' || t[0] == ';' {
        } else if t[0] == '[' && t[t.len() - 1] == ']' {
            section = copy_range(&t, 1, t.len() - 1);
        } else if let Some((key, value)) = split_assignment(&t) {
            let name: Vec<char> = if section.len() == 0 {
                key
            } else {
                let mut name = copy_range(&section, 0, section.len());
                assert(name@ == section@);
                name.push('.');
                let mut j: usize = 0;
                while j < key.len()
                    invariant
                        j <= key.len(),
                        name@ == section@ + seq!['.'] + key@.subrange(0, j as int),
                    decreases key.len() - j,
                {
                    name.push(key[j]);
                    j += 1;
                }
                assert(key@.subrange(0, j as int) == key@);
                name
            };
            values.insert(string_from_chars(&name), string_from_chars(&value));
        }
        k += 1;
    }
    assert(ls.take(k as int) == ls);
    values
}

/// Reads text without sections: lines `key = value`. A later value takes the
/// place of an earlier one of the same name.
pub fn parse_key_value(content: &str) -> (values: FieldMap)
    ensures
        values@ == key_value_fields(content@),
{
    let all = split_lines(&chars_of(content));
    let ghost ls = views(all@);
    assert(ls.len() == all@.len());
    let mut values = FieldMap::new();
    let mut k: usize = 0;
    while k < all.len()
        invariant
            k <= all.len(),
            ls == views(all@),
            ls.len() == all@.len(),
            values@ == after_plain_lines(ls.take(k as int)),
        decreases all.len() - k,
    {
        proof {
            assert(ls.take(k + 1).drop_last() == ls.take(k as int));
            assert(ls.take(k + 1).last() == all@[k as int]@);
        }
        let t = trim(&all[k]);
        if t.len() == 0 || t[0] == '#' {
        } else if let Some((key, value)) = split_assignment(&t) {
            values.insert(string_from_chars(&key), string_from_chars(&value));
        }
        k += 1;
    }
    assert(ls.take(k as int) == ls);
    values
}

/// The truth value that a text in lower case names.
pub open spec fn boolean_named(lowered: Seq<char>) -> Option<bool> {
    if lowered == "true"@ || lowered == "yes"@ || lowered == "1"@ {
        Some(true)
    } else if lowered == "false"@ || lowered == "no"@ || lowered == "0"@ {
        Some(false)
    } else {
        None
    }
}

/// The truth value that the lower-case text `lowered` names.
pub fn boolean_from_lowered(lowered: &str) -> (value: Option<bool>)
    ensures
        value == boolean_named(lowered@),
{
    let low = chars_of(lowered);
    if spells(&low, "true") || spells(&low, "yes") || spells(&low, "1") {
        Some(true)
    } else if spells(&low, "false") || spells(&low, "no") || spells(&low, "0") {
        Some(false)
    } else {
        None
    }
}

/// The truth value that `text` names, whatever its case: `true`, `yes` and
/// `1` name true; `false`, `no` and `0` name false.
pub fn parse_boolean(text: &str) -> (value: Option<bool>)
    ensures
        value == boolean_named(unicode_lowercase(text@)),
{
    let lowered = to_lowercase(text);
    boolean_from_lowered(lowered.as_str())
}

/// The texts of a list of strings.
pub open spec fn path_parts(parts: Seq<String>) -> Seq<Seq<char>> {
    parts.map_values(|p: String| p@)
}

/// The path that a key with dots names: its parts between the dots.
pub fn key_path(key: &str) -> (parts: Vec<String>)
    ensures
        path_parts(parts@) == split_at_char(key@, '.'),
{
    let pieces = split_on(&chars_of(key), '.');
    let mut parts: Vec<String> = Vec::new();
    let mut k: usize = 0;
    assert(views(pieces@).len() == pieces@.len());
    while k < pieces.len()
        invariant
            k <= pieces.len(),
            path_parts(parts@) == views(pieces@).take(k as int),
        decreases pieces.len() - k,
    {
        let part = string_from_chars(&pieces[k]);
        proof {
            assert(path_parts(parts@.push(part)) == path_parts(parts@).push(part@));
            assert(views(pieces@).take(k + 1) == views(pieces@).take(k as int).push(
                pieces@[k as int]@,
            ));
        }
        parts.push(part);
        k += 1;
    }
    assert(views(pieces@).take(k as int) == views(pieces@));
    parts
}

} // verus!
