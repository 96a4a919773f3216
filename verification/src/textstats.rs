//! Counting a text: its characters, bytes, lines and words, and how often
//! each word occurs.

use crate::error::{RtoolsError, RtoolsResult};
use crate::tally::{
    lemma_count_within_total, lemma_tally_onto, tally_of, tally_onto, total, Counts, Tally,
};
use crate::text::{
    chars_of, is_alphanumeric, lemma_words_len, lines, split_lines, split_words, string_from_chars, to_lowercase,
    unicode_alphanumeric, unicode_lowercase, views, words,
};
use vstd::prelude::*;
use vstd::string::StringSliceAdditionalSpecFns;
use vstd::utf8::encode_utf8;

verus! {

/// The letters and numbers of `word`, in order.
pub open spec fn letters_of(word: Seq<char>) -> Seq<char>
    decreases word.len(),
{
    if word.len() == 0 {
        Seq::empty()
    } else if unicode_alphanumeric(word.last()) {
        letters_of(word.drop_last()).push(word.last())
    } else {
        letters_of(word.drop_last())
    }
}

/// The words as they are counted: of each word its letters and numbers, in
/// lower case; a word without any is left out.
pub open spec fn counted_words(words: Seq<Seq<char>>) -> Seq<Seq<char>>
    decreases words.len(),
{
    if words.len() == 0 {
        Seq::empty()
    } else if letters_of(words.last()).len() > 0 {
        counted_words(words.drop_last()).push(unicode_lowercase(letters_of(words.last())))
    } else {
        counted_words(words.drop_last())
    }
}

/// The number of bytes that the letters and numbers of the words take in
/// UTF-8.
pub open spec fn letter_bytes(words: Seq<Seq<char>>) -> nat
    decreases words.len(),
{
    if words.len() == 0 {
        0
    } else {
        letter_bytes(words.drop_last()) + encode_utf8(letters_of(words.last())).len()
    }
}

/// The model of [`TextStats`].
pub struct Counted {
    pub char_count: nat,
    pub word_count: nat,
    pub line_count: nat,
    pub byte_count: nat,
    pub word_frequency: Counts,
    pub word_bytes: nat,
}

impl Counted {
    /// Nothing counted.
    pub open spec fn empty() -> Counted {
        Counted {
            char_count: 0,
            word_count: 0,
            line_count: 0,
            byte_count: 0,
            word_frequency: Seq::empty(),
            word_bytes: 0,
        }
    }

    /// The counts after `text` was counted: the counts of `text`, with its
    /// words counted onto the words counted before.
    pub open spec fn after(self, text: Seq<char>) -> Counted {
        Counted {
            char_count: text.len(),
            word_count: words(text).len(),
            line_count: lines(text).len(),
            byte_count: encode_utf8(text).len(),
            word_frequency: tally_onto(self.word_frequency, counted_words(words(text))),
            word_bytes: letter_bytes(words(text)),
        }
    }
}

/// What was counted in a text.
pub struct TextStats {
    pub char_count: usize,
    /// The number of words: runs of characters between white space.
    pub word_count: usize,
    pub line_count: usize,
    pub byte_count: usize,
    /// How often each word occurs. A word counts by its letters and numbers,
    /// whatever the case.
    pub word_frequency: Tally,
    /// The bytes that the letters and numbers of all words take.
    pub word_bytes: u128,
}

impl View for TextStats {
    type V = Counted;

    open spec fn view(&self) -> Counted {
        Counted {
            char_count: self.char_count as nat,
            word_count: self.word_count as nat,
            line_count: self.line_count as nat,
            byte_count: self.byte_count as nat,
            word_frequency: self.word_frequency@,
            word_bytes: self.word_bytes as nat,
        }
    }
}

/// The letters and numbers of `word`.
fn keep_letters(word: &Vec<char>) -> (kept: Vec<char>)
    ensures
        kept@ == letters_of(word@),
{
    let mut kept: Vec<char> = Vec::new();
    let mut i: usize = 0;
    while i < word.len()
        invariant
            i <= word.len(),
            kept@ == letters_of(word@.take(i as int)),
        decreases word.len() - i,
    {
        proof {
            assert(word@.take(i + 1).drop_last() == word@.take(i as int));
            assert(word@.take(i + 1).last() == word@[i as int]);
        }
        if is_alphanumeric(word[i]) {
            kept.push(word[i]);
        }
        i += 1;
    }
    assert(word@.take(i as int) == word@);
    kept
}

/// There are no more counted words than words.
pub proof fn lemma_counted_words_len(words: Seq<Seq<char>>)
    ensures
        counted_words(words).len() <= words.len(),
    decreases words.len(),
{
    if words.len() > 0 {
        lemma_counted_words_len(words.drop_last());
    }
}

impl Default for TextStats {
    /// Nothing counted.
    fn default() -> (stats: TextStats)
        ensures
            stats@ == Counted::empty(),
    {
        TextStats::new()
    }
}

impl TextStats {
    /// Nothing counted.
    pub fn new() -> (stats: TextStats)
        ensures
            stats@ == Counted::empty(),
    {
        TextStats {
            char_count: 0,
            word_count: 0,
            line_count: 0,
            byte_count: 0,
            word_frequency: Tally::new(),
            word_bytes: 0,
        }
    }

    /// The counts of `text` alone.
    pub fn of(text: &str) -> (stats: TextStats)
        ensures
            stats@ == Counted::empty().after(text@),
    {
        let mut stats = TextStats::new();
        let chars = chars_of(text);
        let length: usize = chars.len();
        proof {
            lemma_words_len(chars@, 0);
            assert(words(chars@).len() <= length);
            assert(total(stats@.word_frequency) == 0);
        }
        stats.count(&chars, text.as_bytes().len());
        stats
    }

    /// Counts `text`. The counts of characters, bytes, lines and words are
    /// those of `text`; the words of `text` are counted onto the words
    /// counted before.
    pub fn analyze_text(&mut self, text: &str)
        requires
            total(old(self)@.word_frequency) + words(text@).len() <= usize::MAX,
        ensures
            final(self)@ == old(self)@.after(text@),
    {
        let chars = chars_of(text);
        self.count(&chars, text.as_bytes().len());
    }

    /// Counts the text with the characters `chars`, which takes `byte_count`
    /// bytes.
    fn count(&mut self, chars: &Vec<char>, byte_count: usize)
        requires
            total(old(self)@.word_frequency) + words(chars@).len() <= usize::MAX,
            byte_count == encode_utf8(chars@).len(),
        ensures
            final(self)@ == old(self)@.after(chars@),
    {
        let all_lines = split_lines(chars);
        let all_words = split_words(chars);
        let ghost start = self.word_frequency@;
        let ghost w = views(all_words@);
        assert(views(all_lines@).len() == all_lines@.len());
        assert(w.len() == all_words@.len());
        let mut word_bytes: u128 = 0;
        let mut k: usize = 0;
        while k < all_words.len()
            invariant
                k <= all_words.len(),
                w == views(all_words@),
                w.len() == all_words@.len(),
                total(start) + w.len() <= usize::MAX,
                self.word_frequency@ == tally_onto(start, counted_words(w.take(k as int))),
                word_bytes == letter_bytes(w.take(k as int)),
                word_bytes <= k * usize::MAX,
            decreases all_words.len() - k,
        {
            proof {
                assert(w.take(k + 1).drop_last() == w.take(k as int));
                assert(w.take(k + 1).last() == all_words@[k as int]@);
            }
            let kept = keep_letters(&all_words[k]);
            let clean = string_from_chars(&kept);
            let size: usize = clean.as_str().as_bytes().len();
            proof {
                assert(k * usize::MAX + usize::MAX <= u128::MAX) by (nonlinear_arith)
                    requires
                        k <= usize::MAX,
                        usize::MAX <= 0xffff_ffff_ffff_ffff,
                ;
                assert((k + 1) * usize::MAX == k * usize::MAX + usize::MAX) by (nonlinear_arith);
            }
            word_bytes = word_bytes + size as u128;
            if kept.len() > 0 {
                let key = to_lowercase(clean.as_str());
                proof {
                    let keys = counted_words(w.take(k as int));
                    lemma_counted_words_len(w.take(k as int));
                    lemma_tally_onto(start, keys);
                    lemma_count_within_total(tally_onto(start, keys), key@);
                    assert(keys.push(key@).drop_last() == keys);
                }
                self.word_frequency.add(key);
            }
            k += 1;
        }
        assert(w.take(k as int) == w);
        self.char_count = chars.len();
        self.word_count = all_words.len();
        self.line_count = all_lines.len();
        self.byte_count = byte_count;
        self.word_bytes = word_bytes;
    }
}

/// The words of a text, counted onto nothing, are the tally of the words.
pub proof fn lemma_first_text(text: Seq<char>)
    ensures
        Counted::empty().after(text).word_frequency == tally_of(counted_words(words(text))),
{
    lemma_tally_onto(Seq::empty(), counted_words(words(text)));
}

/// The counts of the text file at `file_path`. `found` holds what came of
/// reading the file: nothing where no file stands at the path, or else the
/// text of the file or the error of the reading.
pub fn analyze_file(file_path: &str, found: Option<Result<String, std::io::Error>>) -> (result:
    RtoolsResult<TextStats>)
    ensures
        match result {
            Ok(stats) => found matches Some(Ok(content)) && stats@ == Counted::empty().after(
                content@,
            ),
            Err(RtoolsError::FileNotFound(path)) => found is None && path@ == file_path@,
            Err(RtoolsError::IoError(e)) => found == Some(Err::<String, std::io::Error>(e)),
            Err(_) => false,
        },
{
    match found {
        None => Err(RtoolsError::FileNotFound(file_path.to_owned())),
        Some(Err(e)) => Err(RtoolsError::IoError(e)),
        Some(Ok(content)) => Ok(TextStats::of(content.as_str())),
    }
}

} // verus!
