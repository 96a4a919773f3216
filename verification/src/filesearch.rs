//! Searching files by name, extension and size: the criteria, the test of one
//! file against them, and the result of a search.
//!
//! Walking the tree is left to the caller, who hands over the files found.

use crate::dirscan::PathKind;
use crate::error::{RtoolsError, RtoolsResult};
use crate::text::{chars_of, same_chars, to_lowercase, unicode_lowercase};
use vstd::prelude::*;

verus! {

/// What a file has to meet to be found.
#[derive(Debug, Clone)]
pub struct SearchCriteria {
    /// A text that the name holds, whatever the case.
    pub name_pattern: Option<String>,
    /// The extension, whatever the case.
    pub extension: Option<String>,
    pub min_size: Option<u64>,
    pub max_size: Option<u64>,
    /// How many levels below the start the search goes.
    pub max_depth: Option<usize>,
}

/// The model of [`SearchCriteria`].
pub struct Criteria {
    pub name_pattern: Option<Seq<char>>,
    pub extension: Option<Seq<char>>,
    pub min_size: Option<u64>,
    pub max_size: Option<u64>,
    pub max_depth: Option<usize>,
}

/// The view of a text that may be absent.
pub open spec fn text_of(text: Option<String>) -> Option<Seq<char>> {
    match text {
        Some(t) => Some(t@),
        None => None,
    }
}

impl View for SearchCriteria {
    type V = Criteria;

    open spec fn view(&self) -> Criteria {
        Criteria {
            name_pattern: text_of(self.name_pattern),
            extension: text_of(self.extension),
            min_size: self.min_size,
            max_size: self.max_size,
            max_depth: self.max_depth,
        }
    }
}

impl Default for SearchCriteria {
    /// The criteria that every file meets.
    fn default() -> (criteria: SearchCriteria)
        ensures
            criteria@ == (Criteria {
                name_pattern: None,
                extension: None,
                min_size: None,
                max_size: None,
                max_depth: None,
            }),
    {
        SearchCriteria {
            name_pattern: None,
            extension: None,
            min_size: None,
            max_size: None,
            max_depth: None,
        }
    }
}

impl SearchCriteria {
    /// The criteria that every file meets.
    pub fn new() -> (criteria: SearchCriteria)
        ensures
            criteria@ == (Criteria {
                name_pattern: None,
                extension: None,
                min_size: None,
                max_size: None,
                max_depth: None,
            }),
    {
        SearchCriteria {
            name_pattern: None,
            extension: None,
            min_size: None,
            max_size: None,
            max_depth: None,
        }
    }

    /// The criteria, with names that hold `pattern`.
    pub fn with_name_pattern(self, pattern: String) -> (criteria: SearchCriteria)
        ensures
            criteria@ == (Criteria { name_pattern: Some(pattern@), ..self@ }),
    {
        let mut criteria = self;
        criteria.name_pattern = Some(pattern);
        criteria
    }

    /// The criteria, with the extension `ext`.
    pub fn with_extension(self, ext: String) -> (criteria: SearchCriteria)
        ensures
            criteria@ == (Criteria { extension: Some(ext@), ..self@ }),
    {
        let mut criteria = self;
        criteria.extension = Some(ext);
        criteria
    }

    /// The criteria, with sizes from `min` to `max`.
    pub fn with_size_range(self, min: Option<u64>, max: Option<u64>) -> (criteria: SearchCriteria)
        ensures
            criteria@ == (Criteria { min_size: min, max_size: max, ..self@ }),
    {
        let mut criteria = self;
        criteria.min_size = min;
        criteria.max_size = max;
        criteria
    }

    /// The criteria, for a search of at most `depth` levels.
    pub fn with_max_depth(self, depth: usize) -> (criteria: SearchCriteria)
        ensures
            criteria@ == (Criteria { max_depth: Some(depth), ..self@ }),
    {
        let mut criteria = self;
        criteria.max_depth = Some(depth);
        criteria
    }
}

/// A file that a search came upon.
#[derive(Debug)]
pub struct Candidate {
    pub path: String,
    /// The name of the file, where it has one that is text.
    pub name: Option<String>,
    /// The extension of the file, where it has one that is text.
    pub extension: Option<String>,
    pub size: u64,
}

/// The model of a [`Candidate`].
pub struct Found {
    pub path: Seq<char>,
    pub name: Option<Seq<char>>,
    pub extension: Option<Seq<char>>,
    pub size: u64,
}

impl View for Candidate {
    type V = Found;

    open spec fn view(&self) -> Found {
        Found {
            path: self.path@,
            name: text_of(self.name),
            extension: text_of(self.extension),
            size: self.size,
        }
    }
}

/// Whether `needle` stands in `hay` at index `at`.
pub open spec fn stands_at(hay: Seq<char>, needle: Seq<char>, at: int) -> bool {
    0 <= at && at + needle.len() <= hay.len() && hay.subrange(at, at + needle.len()) == needle
}

/// Whether `needle` stands somewhere in `hay`.
pub open spec fn holds_text(hay: Seq<char>, needle: Seq<char>) -> bool {
    exists|at: int| stands_at(hay, needle, at)
}

/// Whether a file meets the criteria. The extension is the one asked for,
/// whatever the case; the name holds the pattern, whatever the case; the size
/// is within the limits. A file without extension meets no criteria that ask
/// for one, and likewise for the name.
pub open spec fn meets(file: Found, criteria: Criteria) -> bool {
    &&& criteria.extension matches Some(wanted) ==> file.extension matches Some(actual)
        && unicode_lowercase(actual) == unicode_lowercase(wanted)
    &&& criteria.name_pattern matches Some(pattern) ==> file.name matches Some(name) && holds_text(
        unicode_lowercase(name),
        unicode_lowercase(pattern),
    )
    &&& criteria.min_size matches Some(min) ==> file.size >= min
    &&& criteria.max_size matches Some(max) ==> file.size <= max
}

/// Whether `needle` stands in `hay` at `at`.
fn matches_at(hay: &Vec<char>, needle: &Vec<char>, at: usize) -> (b: bool)
    requires
        at + needle.len() <= hay.len(),
    ensures
        b == stands_at(hay@, needle@, at as int),
{
    let mut k: usize = 0;
    while k < needle.len()
        invariant
            k <= needle.len(),
            at + needle.len() <= hay.len(),
            hay@.subrange(at as int, at + k) == needle@.take(k as int),
        decreases needle.len() - k,
    {
        if hay[at + k] != needle[k] {
            assert(hay@.subrange(at as int, at + needle.len())[k as int] != needle@[k as int]);
            return false;
        }
        assert(hay@.subrange(at as int, at + k + 1) == hay@.subrange(at as int, at + k).push(
            hay@[at + k],
        ));
        assert(needle@.take(k + 1) == needle@.take(k as int).push(needle@[k as int]));
        k += 1;
    }
    assert(needle@.take(k as int) == needle@);
    true
}

/// Whether `needle` stands somewhere in `hay`.
pub fn contains_text(hay: &Vec<char>, needle: &Vec<char>) -> (b: bool)
    ensures
        b == holds_text(hay@, needle@),
{
    if needle.len() > hay.len() {
        return false;
    }
    let last: usize = hay.len() - needle.len();
    let mut at: usize = 0;
    while at < last
        invariant
            at <= last,
            last == hay.len() - needle.len(),
            forall|i: int| 0 <= i < at ==> !stands_at(hay@, needle@, i),
        decreases last - at,
    {
        if matches_at(hay, needle, at) {
            return true;
        }
        at += 1;
    }
    matches_at(hay, needle, last)
}

/// Whether a file meets the criteria.
pub fn matches_criteria(file: &Candidate, criteria: &SearchCriteria) -> (b: bool)
    ensures
        b == meets(file@, criteria@),
{
    if let Some(wanted) = &criteria.extension {
        match &file.extension {
            Some(actual) => {
                let a = chars_of(to_lowercase(actual.as_str()).as_str());
                let w = chars_of(to_lowercase(wanted.as_str()).as_str());
                if !same_chars(&a, &w) {
                    return false;
                }
            },
            None => {
                return false;
            },
        }
    }
    if let Some(pattern) = &criteria.name_pattern {
        match &file.name {
            Some(name) => {
                let n = chars_of(to_lowercase(name.as_str()).as_str());
                let p = chars_of(to_lowercase(pattern.as_str()).as_str());
                if !contains_text(&n, &p) {
                    return false;
                }
            },
            None => {
                return false;
            },
        }
    }
    if let Some(min) = criteria.min_size {
        if file.size < min {
            return false;
        }
    }
    if let Some(max) = criteria.max_size {
        if file.size > max {
            return false;
        }
    }
    true
}

/// What a search found.
#[derive(Debug)]
pub struct SearchResult {
    /// The paths of the files found, in the order of the search.
    pub files: Vec<String>,
    pub total_count: usize,
    pub total_size: u64,
    pub search_time_ms: u128,
}

impl Default for SearchResult {
    /// Nothing found.
    fn default() -> (result: SearchResult)
        ensures
            result.files@.len() == 0,
            result.total_count == 0,
            result.total_size == 0,
            result.search_time_ms == 0,
    {
        SearchResult::new()
    }
}

impl SearchResult {
    /// Nothing found.
    pub fn new() -> (result: SearchResult)
        ensures
            result.files@.len() == 0,
            result.total_count == 0,
            result.total_size == 0,
            result.search_time_ms == 0,
    {
        SearchResult { files: Vec::new(), total_count: 0, total_size: 0, search_time_ms: 0 }
    }
}

/// The paths of those of `files` that meet the criteria, in order.
pub open spec fn paths_found(files: Seq<Found>, criteria: Criteria) -> Seq<Seq<char>>
    decreases files.len(),
{
    if files.len() == 0 {
        Seq::empty()
    } else if meets(files.last(), criteria) {
        paths_found(files.drop_last(), criteria).push(files.last().path)
    } else {
        paths_found(files.drop_last(), criteria)
    }
}

/// The sizes of those of `files` that meet the criteria, added up.
pub open spec fn size_found(files: Seq<Found>, criteria: Criteria) -> nat
    decreases files.len(),
{
    if files.len() == 0 {
        0
    } else if meets(files.last(), criteria) {
        size_found(files.drop_last(), criteria) + files.last().size as nat
    } else {
        size_found(files.drop_last(), criteria)
    }
}

/// The models of a list of candidates.
pub open spec fn found_views(files: Seq<Candidate>) -> Seq<Found> {
    files.map_values(|f: Candidate| f@)
}

/// The texts of a list of paths.
pub open spec fn path_texts(paths: Seq<String>) -> Seq<Seq<char>> {
    paths.map_values(|p: String| p@)
}

/// The first `n` of the files hold no more that is found than all of them.
pub proof fn lemma_found_prefix(files: Seq<Found>, criteria: Criteria, n: int)
    requires
        0 <= n <= files.len(),
    ensures
        size_found(files.take(n), criteria) <= size_found(files, criteria),
    decreases files.len() - n,
{
    if n < files.len() {
        lemma_found_prefix(files, criteria, n + 1);
        assert(files.take(n + 1).drop_last() == files.take(n));
    } else {
        assert(files.take(n) == files);
    }
}

/// What a search amounts to: the error for a path that is no directory, or
/// else the files that meet the criteria with their number and their size.
pub open spec fn search_outcome(
    result: RtoolsResult<SearchResult>,
    dir_path: Seq<char>,
    kind: PathKind,
    candidates: Seq<Found>,
    criteria: Criteria,
    elapsed_ms: u128,
) -> bool {
    match result {
        Ok(found) => {
            &&& kind == PathKind::Directory
            &&& path_texts(found.files@) == paths_found(candidates, criteria)
            &&& found.total_count == found.files@.len()
            &&& found.total_size == size_found(candidates, criteria)
            &&& found.search_time_ms == elapsed_ms
        },
        Err(RtoolsError::DirectoryNotFound(path)) => kind == PathKind::Missing && path@
            == dir_path,
        Err(RtoolsError::NotADirectory(path)) => kind == PathKind::File && path@ == dir_path,
        Err(_) => false,
    }
}

/// The result of a search, unless the sizes of the files found add up to
/// more than a `u64` holds. `kind` says what stands at `dir_path`,
/// `candidates` holds the files that a walk below it came upon, in the order
/// of the walk, and `elapsed_ms` how long the walk took.
pub fn try_search_files(
    dir_path: &str,
    kind: PathKind,
    candidates: &Vec<Candidate>,
    criteria: &SearchCriteria,
    elapsed_ms: u128,
) -> (outcome: Option<RtoolsResult<SearchResult>>)
    ensures
        outcome is None <==> kind == PathKind::Directory && size_found(
            found_views(candidates@),
            criteria@,
        ) > u64::MAX,
        outcome matches Some(result) ==> search_outcome(
            result,
            dir_path@,
            kind,
            found_views(candidates@),
            criteria@,
            elapsed_ms,
        ),
{
    match kind {
        PathKind::Missing => {
            return Some(Err(RtoolsError::DirectoryNotFound(dir_path.to_owned())));
        },
        PathKind::File => {
            return Some(Err(RtoolsError::NotADirectory(dir_path.to_owned())));
        },
        PathKind::Directory => {},
    }
    let ghost all = found_views(candidates@);
    let mut files: Vec<String> = Vec::new();
    let mut total_size: u64 = 0;
    let mut k: usize = 0;
    assert(path_texts(files@) == Seq::<Seq<char>>::empty());
    while k < candidates.len()
        invariant
            k <= candidates.len(),
            kind == PathKind::Directory,
            all == found_views(candidates@),
            path_texts(files@) == paths_found(all.take(k as int), criteria@),
            total_size == size_found(all.take(k as int), criteria@),
        decreases candidates.len() - k,
    {
        proof {
            assert(all.take(k + 1).drop_last() == all.take(k as int));
            assert(all.take(k + 1).last() == candidates@[k as int]@);
            lemma_found_prefix(all, criteria@, k + 1);
        }
        if matches_criteria(&candidates[k], criteria) {
            if candidates[k].size > u64::MAX - total_size {
                return None;
            }
            let path = candidates[k].path.clone();
            assert(path_texts(files@.push(path)) == path_texts(files@).push(path@));
            files.push(path);
            total_size = total_size + candidates[k].size;
        }
        k += 1;
    }
    assert(all.take(k as int) == all);
    let total_count: usize = files.len();
    Some(Ok(SearchResult { files, total_count, total_size, search_time_ms: elapsed_ms }))
}

/// The result of a search among files whose sizes, as far as they are found,
/// add up within a `u64`.
pub fn search_files(
    dir_path: &str,
    kind: PathKind,
    candidates: &Vec<Candidate>,
    criteria: &SearchCriteria,
    elapsed_ms: u128,
) -> (result: RtoolsResult<SearchResult>)
    requires
        size_found(found_views(candidates@), criteria@) <= u64::MAX,
    ensures
        search_outcome(
            result,
            dir_path@,
            kind,
            found_views(candidates@),
            criteria@,
            elapsed_ms,
        ),
{
    match try_search_files(dir_path, kind, candidates, criteria, elapsed_ms) {
        Some(result) => result,
        None => Ok(SearchResult::new()),
    }
}

} // verus!
