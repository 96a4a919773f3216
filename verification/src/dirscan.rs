//! Statistics of a directory tree: how many files and directories, how large,
//! of which kinds, and which files are the largest and the oldest.
//!
//! Walking the tree is left to the caller, who hands over what was found.

use crate::error::{RtoolsError, RtoolsResult};
use crate::tally::{count_of, lemma_tally_of, lemma_tally_of_push, one_more, tally_of, Counts, Tally};
use vstd::prelude::*;

verus! {

/// How many files the lists of the largest and of the oldest files hold at
/// most.
pub const LIST_LIMIT: usize = 10;

/// One entry of a directory.
#[derive(Debug)]
pub struct FileInfo {
    pub name: String,
    pub path: String,
    pub size: u64,
    pub is_dir: bool,
    /// When the entry was last changed, in nanoseconds since 1970-01-01
    /// 00:00:00 UTC.
    pub modified: i128,
    pub extension: Option<String>,
}

/// The model of a [`FileInfo`].
pub struct FileView {
    pub name: Seq<char>,
    pub path: Seq<char>,
    pub size: u64,
    pub is_dir: bool,
    pub modified: i128,
    pub extension: Option<Seq<char>>,
}

impl View for FileInfo {
    type V = FileView;

    open spec fn view(&self) -> FileView {
        FileView {
            name: self.name@,
            path: self.path@,
            size: self.size,
            is_dir: self.is_dir,
            modified: self.modified,
            extension: match self.extension {
                Some(text) => Some(text@),
                None => None,
            },
        }
    }
}

impl Clone for FileInfo {
    fn clone(&self) -> (copy: FileInfo)
        ensures
            copy@ == self@,
    {
        FileInfo {
            name: self.name.clone(),
            path: self.path.clone(),
            size: self.size,
            is_dir: self.is_dir,
            modified: self.modified,
            extension: match &self.extension {
                Some(text) => Some(text.clone()),
                None => None,
            },
        }
    }
}

/// The models of a list of entries.
pub open spec fn file_views(files: Seq<FileInfo>) -> Seq<FileView> {
    files.map_values(|f: FileInfo| f@)
}

/// The first index at or after `from` whose file is smaller than `size`, or
/// `files.len()`.
pub open spec fn smaller_from(files: Seq<FileView>, size: u64, from: int) -> int
    decreases files.len() - from,
{
    if from < 0 || from >= files.len() {
        files.len() as int
    } else if files[from].size < size {
        from
    } else {
        smaller_from(files, size, from + 1)
    }
}

/// The first index at or after `from` whose file was changed later than
/// `modified`, or `files.len()`.
pub open spec fn later_from(files: Seq<FileView>, modified: i128, from: int) -> int
    decreases files.len() - from,
{
    if from < 0 || from >= files.len() {
        files.len() as int
    } else if files[from].modified > modified {
        from
    } else {
        later_from(files, modified, from + 1)
    }
}

/// The index of the first among the smallest of the first `n` files.
pub open spec fn smallest_index(files: Seq<FileView>, n: int) -> int
    decreases n,
{
    if n <= 1 {
        0
    } else {
        let m = smallest_index(files, n - 1);
        if files[n - 1].size < files[m].size {
            n - 1
        } else {
            m
        }
    }
}

/// The index of the last among the newest of the first `n` files.
pub open spec fn newest_index(files: Seq<FileView>, n: int) -> int
    decreases n,
{
    if n <= 1 {
        0
    } else {
        let m = newest_index(files, n - 1);
        if files[n - 1].modified >= files[m].modified {
            n - 1
        } else {
            m
        }
    }
}

/// The sizes never rise.
pub open spec fn by_falling_size(files: Seq<FileView>) -> bool {
    forall|i: int, j: int| 0 <= i < j < files.len() ==> files[i].size >= files[j].size
}

/// The times of change never fall.
pub open spec fn by_rising_age(files: Seq<FileView>) -> bool {
    forall|i: int, j: int| 0 <= i < j < files.len() ==> files[i].modified <= files[j].modified
}

/// `files` with `file` put in behind every file that is at least as large.
pub open spec fn placed_by_size(files: Seq<FileView>, file: FileView) -> Seq<FileView> {
    files.insert(smaller_from(files, file.size, 0), file)
}

/// `files` with `file` put in behind every file that is at least as old.
pub open spec fn placed_by_age(files: Seq<FileView>, file: FileView) -> Seq<FileView> {
    files.insert(later_from(files, file.modified, 0), file)
}

/// The list of the largest files after `file` was seen. While the list is
/// short, `file` enters. Later it takes the place of the first among the
/// smallest, if it is larger.
pub open spec fn largest_with(files: Seq<FileView>, file: FileView) -> Seq<FileView> {
    if files.len() < LIST_LIMIT {
        placed_by_size(files, file)
    } else {
        let m = smallest_index(files, files.len() as int);
        if file.size > files[m].size {
            placed_by_size(files.remove(m), file)
        } else {
            files
        }
    }
}

/// The list of the oldest files after `file` was seen. While the list is
/// short, `file` enters. Later it takes the place of the last among the
/// newest, if it is older.
pub open spec fn oldest_with(files: Seq<FileView>, file: FileView) -> Seq<FileView> {
    if files.len() < LIST_LIMIT {
        placed_by_age(files, file)
    } else {
        let m = newest_index(files, files.len() as int);
        if file.modified < files[m].modified {
            placed_by_age(files.remove(m), file)
        } else {
            files
        }
    }
}

/// The model of [`DirectoryStats`].
pub struct Stats {
    pub total_files: nat,
    pub total_dirs: nat,
    pub total_size: nat,
    pub extension_stats: Counts,
    pub largest_files: Seq<FileView>,
    pub oldest_files: Seq<FileView>,
}

impl Stats {
    /// Nothing seen.
    pub open spec fn empty() -> Stats {
        Stats {
            total_files: 0,
            total_dirs: 0,
            total_size: 0,
            extension_stats: Seq::empty(),
            largest_files: Seq::empty(),
            oldest_files: Seq::empty(),
        }
    }

    /// The statistics after `file` was seen. A directory is only counted. A
    /// file is counted with its size and its extension, and may enter the
    /// lists of the largest and the oldest files.
    pub open spec fn with(self, file: FileView) -> Stats {
        if file.is_dir {
            Stats { total_dirs: self.total_dirs + 1, ..self }
        } else {
            Stats {
                total_files: self.total_files + 1,
                total_dirs: self.total_dirs,
                total_size: self.total_size + file.size as nat,
                extension_stats: match file.extension {
                    Some(ext) => one_more(self.extension_stats, ext),
                    None => self.extension_stats,
                },
                largest_files: largest_with(self.largest_files, file),
                oldest_files: oldest_with(self.oldest_files, file),
            }
        }
    }

    /// The two lists are in order and within their limit.
    pub open spec fn well_formed(self) -> bool {
        &&& by_falling_size(self.largest_files)
        &&& by_rising_age(self.oldest_files)
        &&& self.largest_files.len() <= LIST_LIMIT
        &&& self.oldest_files.len() <= LIST_LIMIT
    }
}

/// The statistics of `files`, seen in their order.
pub open spec fn stats_of(files: Seq<FileView>) -> Stats
    decreases files.len(),
{
    if files.len() == 0 {
        Stats::empty()
    } else {
        stats_of(files.drop_last()).with(files.last())
    }
}

/// `smaller_from` gives the first file at or after `from` that is smaller
/// than `size`.
pub proof fn lemma_smaller_from(files: Seq<FileView>, size: u64, from: int)
    requires
        0 <= from <= files.len(),
    ensures
        from <= smaller_from(files, size, from) <= files.len(),
        smaller_from(files, size, from) < files.len() ==> files[smaller_from(
            files,
            size,
            from,
        )].size < size,
        forall|i: int| from <= i < smaller_from(files, size, from) ==> files[i].size >= size,
    decreases files.len() - from,
{
    if from < files.len() && files[from].size >= size {
        lemma_smaller_from(files, size, from + 1);
    }
}

/// `later_from` gives the first file at or after `from` that was changed
/// later than `modified`.
pub proof fn lemma_later_from(files: Seq<FileView>, modified: i128, from: int)
    requires
        0 <= from <= files.len(),
    ensures
        from <= later_from(files, modified, from) <= files.len(),
        later_from(files, modified, from) < files.len() ==> files[later_from(
            files,
            modified,
            from,
        )].modified > modified,
        forall|i: int|
            from <= i < later_from(files, modified, from) ==> files[i].modified <= modified,
    decreases files.len() - from,
{
    if from < files.len() && files[from].modified <= modified {
        lemma_later_from(files, modified, from + 1);
    }
}

/// `smallest_index` gives the first among the smallest of the first `n`
/// files.
pub proof fn lemma_smallest_index(files: Seq<FileView>, n: int)
    requires
        1 <= n <= files.len(),
    ensures
        0 <= smallest_index(files, n) < n,
        forall|i: int|
            0 <= i < n ==> files[smallest_index(files, n)].size <= (#[trigger] files[i]).size,
        forall|i: int|
            0 <= i < smallest_index(files, n) ==> files[smallest_index(files, n)].size < (
            #[trigger] files[i]).size,
    decreases n,
{
    if n > 1 {
        lemma_smallest_index(files, n - 1);
    }
}

/// `newest_index` gives the last among the newest of the first `n` files.
pub proof fn lemma_newest_index(files: Seq<FileView>, n: int)
    requires
        1 <= n <= files.len(),
    ensures
        0 <= newest_index(files, n) < n,
        forall|i: int|
            0 <= i < n ==> files[newest_index(files, n)].modified >= (#[trigger] files[i]).modified,
        forall|i: int|
            newest_index(files, n) < i < n ==> files[newest_index(files, n)].modified > (
            #[trigger] files[i]).modified,
    decreases n,
{
    if n > 1 {
        lemma_newest_index(files, n - 1);
    }
}

/// A list in order stays in order, and within its limit, when a file is
/// seen.
pub proof fn lemma_lists_stay_ordered(files: Seq<FileView>, file: FileView)
    ensures
        by_falling_size(files) ==> by_falling_size(largest_with(files, file)),
        by_rising_age(files) ==> by_rising_age(oldest_with(files, file)),
        files.len() <= LIST_LIMIT ==> largest_with(files, file).len() <= LIST_LIMIT
            && oldest_with(files, file).len() <= LIST_LIMIT,
        largest_with(files, file).len() >= files.len(),
        oldest_with(files, file).len() >= files.len(),
{
    if by_falling_size(files) {
        if files.len() < LIST_LIMIT {
            lemma_placed_by_size(files, file);
        } else {
            let m = smallest_index(files, files.len() as int);
            lemma_smallest_index(files, files.len() as int);
            let rest = files.remove(m);
            assert forall|i: int, j: int| 0 <= i < j < rest.len() implies rest[i].size
                >= rest[j].size by {
                let a = if i < m { i } else { i + 1 };
                let b = if j < m { j } else { j + 1 };
                assert(rest[i] == files[a] && rest[j] == files[b]);
            }
            lemma_placed_by_size(rest, file);
        }
    }
    if by_rising_age(files) {
        if files.len() < LIST_LIMIT {
            lemma_placed_by_age(files, file);
        } else {
            let m = newest_index(files, files.len() as int);
            lemma_newest_index(files, files.len() as int);
            let rest = files.remove(m);
            assert forall|i: int, j: int| 0 <= i < j < rest.len() implies rest[i].modified
                <= rest[j].modified by {
                let a = if i < m { i } else { i + 1 };
                let b = if j < m { j } else { j + 1 };
                assert(rest[i] == files[a] && rest[j] == files[b]);
            }
            lemma_placed_by_age(rest, file);
        }
    }
    if files.len() >= LIST_LIMIT {
        lemma_smallest_index(files, files.len() as int);
        lemma_newest_index(files, files.len() as int);
        lemma_smaller_from(files.remove(smallest_index(files, files.len() as int)), file.size, 0);
        lemma_later_from(files.remove(newest_index(files, files.len() as int)), file.modified, 0);
    } else {
        lemma_smaller_from(files, file.size, 0);
        lemma_later_from(files, file.modified, 0);
    }
}

/// A file placed by size leaves the list in order.
proof fn lemma_placed_by_size(files: Seq<FileView>, file: FileView)
    requires
        by_falling_size(files),
    ensures
        by_falling_size(placed_by_size(files, file)),
        placed_by_size(files, file).len() == files.len() + 1,
{
    let p = smaller_from(files, file.size, 0);
    lemma_smaller_from(files, file.size, 0);
    let after = placed_by_size(files, file);
    assert forall|i: int, j: int| 0 <= i < j < after.len() implies after[i].size
        >= after[j].size by {
        if j < p {
            assert(after[i] == files[i] && after[j] == files[j]);
        } else if j == p {
            assert(after[i] == files[i]);
        } else if i < p {
            assert(after[i] == files[i] && after[j] == files[j - 1]);
        } else if i == p {
            assert(after[j] == files[j - 1]);
            if p < j - 1 {
                assert(files[p].size >= files[j - 1].size);
            }
        } else {
            assert(after[i] == files[i - 1] && after[j] == files[j - 1]);
        }
    }
}

/// A file placed by age leaves the list in order.
proof fn lemma_placed_by_age(files: Seq<FileView>, file: FileView)
    requires
        by_rising_age(files),
    ensures
        by_rising_age(placed_by_age(files, file)),
        placed_by_age(files, file).len() == files.len() + 1,
{
    let p = later_from(files, file.modified, 0);
    lemma_later_from(files, file.modified, 0);
    let after = placed_by_age(files, file);
    assert forall|i: int, j: int| 0 <= i < j < after.len() implies after[i].modified
        <= after[j].modified by {
        if j < p {
            assert(after[i] == files[i] && after[j] == files[j]);
        } else if j == p {
            assert(after[i] == files[i]);
        } else if i < p {
            assert(after[i] == files[i] && after[j] == files[j - 1]);
        } else if i == p {
            assert(after[j] == files[j - 1]);
            if p < j - 1 {
                assert(files[p].modified <= files[j - 1].modified);
            }
        } else {
            assert(after[i] == files[i - 1] && after[j] == files[j - 1]);
        }
    }
}

/// The statistics of any files are well formed; they count every entry once,
/// and no more files than were seen.
pub proof fn lemma_stats_of(files: Seq<FileView>)
    ensures
        stats_of(files).well_formed(),
        stats_of(files).total_files + stats_of(files).total_dirs == files.len(),
        stats_of(files).largest_files.len() <= stats_of(files).total_files,
        stats_of(files).oldest_files.len() <= stats_of(files).total_files,
    decreases files.len(),
{
    if files.len() > 0 {
        let before = stats_of(files.drop_last());
        lemma_stats_of(files.drop_last());
        lemma_lists_stay_ordered(before.largest_files, files.last());
        lemma_lists_stay_ordered(before.oldest_files, files.last());
        lemma_list_grows_by_one(before.largest_files, files.last());
        lemma_list_grows_by_one(before.oldest_files, files.last());
    }
}

/// A list grows by at most one file when a file is seen.
proof fn lemma_list_grows_by_one(files: Seq<FileView>, file: FileView)
    ensures
        largest_with(files, file).len() <= files.len() + 1,
        oldest_with(files, file).len() <= files.len() + 1,
{
    if files.len() >= LIST_LIMIT {
        lemma_smallest_index(files, files.len() as int);
        lemma_newest_index(files, files.len() as int);
        lemma_smaller_from(files.remove(smallest_index(files, files.len() as int)), file.size, 0);
        lemma_later_from(files.remove(newest_index(files, files.len() as int)), file.modified, 0);
    } else {
        lemma_smaller_from(files, file.size, 0);
        lemma_later_from(files, file.modified, 0);
    }
}

/// What was seen of a directory tree.
pub struct DirectoryStats {
    pub total_files: usize,
    pub total_dirs: usize,
    pub total_size: u64,
    /// The number of files of each extension.
    pub extension_stats: Tally,
    /// The largest files, the largest first.
    pub largest_files: Vec<FileInfo>,
    /// The oldest files, the oldest first.
    pub oldest_files: Vec<FileInfo>,
}

impl View for DirectoryStats {
    type V = Stats;

    open spec fn view(&self) -> Stats {
        Stats {
            total_files: self.total_files as nat,
            total_dirs: self.total_dirs as nat,
            total_size: self.total_size as nat,
            extension_stats: self.extension_stats@,
            largest_files: file_views(self.largest_files@),
            oldest_files: file_views(self.oldest_files@),
        }
    }
}

/// Puts `file` into `list`, which is in order of falling size.
fn place_by_size(list: &mut Vec<FileInfo>, file: FileInfo)
    ensures
        file_views(final(list)@) == placed_by_size(file_views(old(list)@), file@),
{
    let mut p: usize = 0;
    while p < list.len() && list[p].size >= file.size
        invariant
            p <= list@.len(),
            smaller_from(file_views(list@), file.size, 0) == smaller_from(
                file_views(list@),
                file.size,
                p as int,
            ),
        decreases list@.len() - p,
    {
        p += 1;
    }
    assert(file_views(list@.insert(p as int, file)) == file_views(list@).insert(p as int, file@));
    list.insert(p, file);
}

/// Puts `file` into `list`, which is in order of rising time of change.
fn place_by_age(list: &mut Vec<FileInfo>, file: FileInfo)
    ensures
        file_views(final(list)@) == placed_by_age(file_views(old(list)@), file@),
{
    let mut p: usize = 0;
    while p < list.len() && list[p].modified <= file.modified
        invariant
            p <= list@.len(),
            later_from(file_views(list@), file.modified, 0) == later_from(
                file_views(list@),
                file.modified,
                p as int,
            ),
        decreases list@.len() - p,
    {
        p += 1;
    }
    assert(file_views(list@.insert(p as int, file)) == file_views(list@).insert(p as int, file@));
    list.insert(p, file);
}

impl Default for DirectoryStats {
    /// Nothing seen.
    fn default() -> (stats: DirectoryStats)
        ensures
            stats@ == Stats::empty(),
    {
        DirectoryStats::new()
    }
}

impl DirectoryStats {
    /// Nothing seen.
    pub fn new() -> (stats: DirectoryStats)
        ensures
            stats@ == Stats::empty(),
    {
        let stats = DirectoryStats {
            total_files: 0,
            total_dirs: 0,
            total_size: 0,
            extension_stats: Tally::new(),
            largest_files: Vec::new(),
            oldest_files: Vec::new(),
        };
        assert(file_views(stats.largest_files@) == Seq::<FileView>::empty());
        assert(file_views(stats.oldest_files@) == Seq::<FileView>::empty());
        stats
    }

    /// Takes note of one entry of the tree. The two lists are in order
    /// before and after.
    pub fn add_file(&mut self, file_info: FileInfo)
        requires
            old(self)@.well_formed(),
            old(self)@.with(file_info@).total_files <= usize::MAX,
            old(self)@.with(file_info@).total_dirs <= usize::MAX,
            old(self)@.with(file_info@).total_size <= u64::MAX,
            file_info@.extension matches Some(ext) ==> count_of(old(self)@.extension_stats, ext)
                < usize::MAX,
        ensures
            final(self)@ == old(self)@.with(file_info@),
            final(self)@.well_formed(),
    {
        proof {
            lemma_lists_stay_ordered(self@.largest_files, file_info@);
            lemma_lists_stay_ordered(self@.oldest_files, file_info@);
        }
        if file_info.is_dir {
            self.total_dirs = self.total_dirs + 1;
        } else {
            self.total_files = self.total_files + 1;
            self.total_size = self.total_size + file_info.size;
            if let Some(ext) = &file_info.extension {
                self.extension_stats.add(ext.clone());
            }
            self.update_largest_files(&file_info);
            self.update_oldest_files(&file_info);
        }
    }

    /// Lets `file_info` into the list of the largest files, if it belongs
    /// there.
    pub fn update_largest_files(&mut self, file_info: &FileInfo)
        requires
            old(self)@.well_formed(),
        ensures
            final(self)@ == (Stats {
                largest_files: largest_with(old(self)@.largest_files, file_info@),
                ..old(self)@
            }),
            final(self)@.well_formed(),
    {
        proof {
            lemma_lists_stay_ordered(self@.largest_files, file_info@);
        }
        if self.largest_files.len() < LIST_LIMIT {
            place_by_size(&mut self.largest_files, file_info.clone());
        } else {
            let ghost before = file_views(self.largest_files@);
            let mut m: usize = 0;
            let mut i: usize = 1;
            while i < self.largest_files.len()
                invariant
                    1 <= i <= self.largest_files@.len(),
                    *self == *old(self),
                    before == file_views(self.largest_files@),
                    m == smallest_index(before, i as int),
                    m < i,
                decreases self.largest_files@.len() - i,
            {
                if self.largest_files[i].size < self.largest_files[m].size {
                    m = i;
                }
                i += 1;
            }
            if file_info.size > self.largest_files[m].size {
                self.largest_files.remove(m);
                assert(file_views(self.largest_files@) == before.remove(m as int));
                place_by_size(&mut self.largest_files, file_info.clone());
            }
        }
    }

    /// Lets `file_info` into the list of the oldest files, if it belongs
    /// there.
    pub fn update_oldest_files(&mut self, file_info: &FileInfo)
        requires
            old(self)@.well_formed(),
        ensures
            final(self)@ == (Stats {
                oldest_files: oldest_with(old(self)@.oldest_files, file_info@),
                ..old(self)@
            }),
            final(self)@.well_formed(),
    {
        proof {
            lemma_lists_stay_ordered(self@.oldest_files, file_info@);
        }
        if self.oldest_files.len() < LIST_LIMIT {
            place_by_age(&mut self.oldest_files, file_info.clone());
        } else {
            let ghost before = file_views(self.oldest_files@);
            let mut m: usize = 0;
            let mut i: usize = 1;
            while i < self.oldest_files.len()
                invariant
                    1 <= i <= self.oldest_files@.len(),
                    *self == *old(self),
                    before == file_views(self.oldest_files@),
                    m == newest_index(before, i as int),
                    m < i,
                decreases self.oldest_files@.len() - i,
            {
                if self.oldest_files[i].modified >= self.oldest_files[m].modified {
                    m = i;
                }
                i += 1;
            }
            if file_info.modified < self.oldest_files[m].modified {
                self.oldest_files.remove(m);
                assert(file_views(self.oldest_files@) == before.remove(m as int));
                place_by_age(&mut self.oldest_files, file_info.clone());
            }
        }
    }
}

/// What stands at a path.
#[derive(Debug, Clone, Copy, PartialEq, Eq, Structural)]
pub enum PathKind {
    /// Nothing.
    Missing,
    /// Something that is no directory.
    File,
    Directory,
}

/// Whether a walk that is `current_depth` levels below its start, and may go
/// `max_depth` levels deep, enters the directories that it finds there.
pub fn descends(current_depth: usize, max_depth: Option<usize>) -> (b: bool)
    ensures
        b == match max_depth {
            Some(limit) => current_depth < limit,
            None => current_depth < usize::MAX,
        },
{
    match max_depth {
        Some(limit) => current_depth < limit,
        None => current_depth < usize::MAX,
    }
}

/// The sizes of the files among `files`, added up.
pub open spec fn size_of_files(files: Seq<FileView>) -> nat
    decreases files.len(),
{
    if files.len() == 0 {
        0
    } else if files.last().is_dir {
        size_of_files(files.drop_last())
    } else {
        size_of_files(files.drop_last()) + files.last().size as nat
    }
}

/// The extensions of the files among `files` that have one, in order.
pub open spec fn extensions_of(files: Seq<FileView>) -> Seq<Seq<char>>
    decreases files.len(),
{
    if files.len() == 0 {
        Seq::empty()
    } else if !files.last().is_dir && files.last().extension is Some {
        extensions_of(files.drop_last()).push(files.last().extension->0)
    } else {
        extensions_of(files.drop_last())
    }
}

/// The statistics of `files` hold the sum of the sizes of the files, and the
/// tally of their extensions.
pub proof fn lemma_stats_sums(files: Seq<FileView>)
    ensures
        stats_of(files).total_size == size_of_files(files),
        stats_of(files).extension_stats == tally_of(extensions_of(files)),
        extensions_of(files).len() <= files.len(),
    decreases files.len(),
{
    if files.len() > 0 {
        lemma_stats_sums(files.drop_last());
        if !files.last().is_dir && files.last().extension is Some {
            lemma_tally_of_push(extensions_of(files.drop_last()), files.last().extension->0);
        }
    }
}

/// The first `n` of the files are no larger in sum than all of them.
pub proof fn lemma_size_of_files_prefix(files: Seq<FileView>, n: int)
    requires
        0 <= n <= files.len(),
    ensures
        size_of_files(files.take(n)) <= size_of_files(files),
    decreases files.len() - n,
{
    if n < files.len() {
        lemma_size_of_files_prefix(files, n + 1);
        assert(files.take(n + 1).drop_last() == files.take(n));
    } else {
        assert(files.take(n) == files);
    }
}

/// The statistics of a directory. `kind` says what stands at `dir_path`, and
/// `entries` holds what a walk below it found, in the order of the walk.
pub fn scan_directory(dir_path: &str, kind: PathKind, entries: Vec<FileInfo>) -> (result:
    RtoolsResult<DirectoryStats>)
    requires
        size_of_files(file_views(entries@)) <= u64::MAX,
    ensures
        match result {
            Ok(stats) => kind == PathKind::Directory && stats@ == stats_of(file_views(entries@)),
            Err(RtoolsError::DirectoryNotFound(path)) => kind == PathKind::Missing && path@
                == dir_path@,
            Err(RtoolsError::NotADirectory(path)) => kind == PathKind::File && path@ == dir_path@,
            Err(_) => false,
        },
{
    match kind {
        PathKind::Missing => {
            return Err(RtoolsError::DirectoryNotFound(dir_path.to_owned()));
        },
        PathKind::File => {
            return Err(RtoolsError::NotADirectory(dir_path.to_owned()));
        },
        PathKind::Directory => {},
    }
    let ghost files = file_views(entries@);
    let mut stats = DirectoryStats::new();
    let mut k: usize = 0;
    while k < entries.len()
        invariant
            k <= entries.len(),
            files == file_views(entries@),
            size_of_files(files) <= u64::MAX,
            stats@ == stats_of(files.take(k as int)),
        decreases entries.len() - k,
    {
        proof {
            assert(files.take(k + 1).drop_last() == files.take(k as int));
            assert(files.take(k + 1).last() == entries@[k as int]@);
            lemma_stats_of(files.take(k as int));
            lemma_stats_sums(files.take(k as int));
            lemma_stats_sums(files.take(k + 1));
            lemma_stats_of(files.take(k + 1));
            lemma_size_of_files_prefix(files, k + 1);
            if let Some(ext) = entries@[k as int]@.extension {
                lemma_tally_of(extensions_of(files.take(k as int)), ext);
            }
        }
        stats.add_file(entries[k].clone());
        k += 1;
    }
    assert(files.take(k as int) == files);
    Ok(stats)
}

} // verus!
