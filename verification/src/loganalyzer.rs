//! Log analysis: from the text of a log to counts by severity, by hour, by
//! error token and by message, and to the span of time that the log covers.
//!
//! A line becomes an event through the first of three recognizers that takes
//! it: the bracketed format, the format of words separated by white space, and
//! a fallback that keeps the whole line as the message. The events are then
//! folded into a [`LogAnalysis`].

use crate::error::{RtoolsError, RtoolsResult};
use crate::tally::{
    count_of, counts_of_pairs, lemma_count_within_total, lemma_one_more, lemma_tally_of,
    lemma_ranked, lemma_tally_of_push, one_more, ranked, tally_of, total, Counts, Tally,
};
use crate::text::{
    chars_in, chars_of, spells, is_uppercase, lemma_find_char_bounds, lemma_joined_tail_len,
    lemma_lines_chars, lemma_trimmed_len, lemma_words_len, lines, split_lines, copy_range, find_char, join_from, joined, position_of, split_words, string_from_chars,
    strip_leading, to_lowercase, trim, trimmed, unicode_lowercase, unicode_uppercase, views,
    without_leading, words,
};
use crate::timestamp::{parse_timestamp, timestamp_of, Timestamp};
use vstd::prelude::*;

verus! {

/// Severity of a log event.
#[derive(Debug, Clone, PartialEq, Eq, Hash)]
pub enum LogLevel {
    Debug,
    Info,
    Warning,
    Error,
    Critical,
    /// A token that names no known severity, kept as it was written.
    Unknown(String),
}

/// The model of a [`LogLevel`].
pub enum Level {
    Debug,
    Info,
    Warning,
    Error,
    Critical,
    Unknown(Seq<char>),
}

impl View for LogLevel {
    type V = Level;

    open spec fn view(&self) -> Level {
        match self {
            LogLevel::Debug => Level::Debug,
            LogLevel::Info => Level::Info,
            LogLevel::Warning => Level::Warning,
            LogLevel::Error => Level::Error,
            LogLevel::Critical => Level::Critical,
            LogLevel::Unknown(token) => Level::Unknown(token@),
        }
    }
}

/// The severity that a token names. `lowered` is the token in lower case,
/// `written` the token as it stands in the log.
pub open spec fn classify(lowered: Seq<char>, written: Seq<char>) -> Level {
    if lowered == "debug"@ {
        Level::Debug
    } else if lowered == "info"@ {
        Level::Info
    } else if lowered == "warning"@ || lowered == "warn"@ {
        Level::Warning
    } else if lowered == "error"@ || lowered == "err"@ {
        Level::Error
    } else if lowered == "critical"@ || lowered == "fatal"@ {
        Level::Critical
    } else {
        Level::Unknown(written)
    }
}

/// The severity that `token` names, whatever its case.
pub open spec fn level_of_token(token: Seq<char>) -> Level {
    classify(unicode_lowercase(token), token)
}

/// The rank of a severity: 0 for `Debug` up to 4 for `Critical`, and 0 for an
/// unknown one.
pub open spec fn severity_of(level: Level) -> u8 {
    match level {
        Level::Debug => 0,
        Level::Info => 1,
        Level::Warning => 2,
        Level::Error => 3,
        Level::Critical => 4,
        Level::Unknown(_) => 0,
    }
}

impl LogLevel {
    /// The severity for a token whose lower-case form is `lowered`.
    pub fn from_lowered(lowered: &str, written: &str) -> (level: LogLevel)
        ensures
            level@ == classify(lowered@, written@),
    {
        let low = chars_of(lowered);
        if spells(&low, "debug") {
            LogLevel::Debug
        } else if spells(&low, "info") {
            LogLevel::Info
        } else if spells(&low, "warning") || spells(&low, "warn") {
            LogLevel::Warning
        } else if spells(&low, "error") || spells(&low, "err") {
            LogLevel::Error
        } else if spells(&low, "critical") || spells(&low, "fatal") {
            LogLevel::Critical
        } else {
            LogLevel::Unknown(written.to_owned())
        }
    }

    /// The severity that `s` names, whatever its case; a token that names
    /// none is kept in `Unknown`.
    pub fn parse(s: &str) -> (level: LogLevel)
        ensures
            level@ == level_of_token(s@),
    {
        let lowered = to_lowercase(s);
        LogLevel::from_lowered(lowered.as_str(), s)
    }

    /// The rank of this severity.
    pub fn severity(&self) -> (rank: u8)
        ensures
            rank == severity_of(self@),
    {
        match self {
            LogLevel::Debug => 0,
            LogLevel::Info => 1,
            LogLevel::Warning => 2,
            LogLevel::Error => 3,
            LogLevel::Critical => 4,
            LogLevel::Unknown(_) => 0,
        }
    }

    /// A copy of this severity.
    pub fn duplicate(&self) -> (copy: LogLevel)
        ensures
            copy@ == self@,
    {
        match self {
            LogLevel::Debug => LogLevel::Debug,
            LogLevel::Info => LogLevel::Info,
            LogLevel::Warning => LogLevel::Warning,
            LogLevel::Error => LogLevel::Error,
            LogLevel::Critical => LogLevel::Critical,
            LogLevel::Unknown(token) => LogLevel::Unknown(token.clone()),
        }
    }
}

/// One event of a log: what one line states.
#[derive(Debug, Clone)]
pub struct LogEntry {
    /// When the event happened, where the line says so in a known pattern.
    pub timestamp: Option<Timestamp>,
    pub level: LogLevel,
    pub message: String,
    pub source: Option<String>,
    pub line_number: Option<usize>,
}

/// The model of a [`LogEntry`].
pub struct Event {
    pub timestamp: Option<Timestamp>,
    pub level: Level,
    pub message: Seq<char>,
    pub source: Option<Seq<char>>,
    pub line_number: Option<usize>,
}

impl View for LogEntry {
    type V = Event;

    open spec fn view(&self) -> Event {
        Event {
            timestamp: self.timestamp,
            level: self.level@,
            message: self.message@,
            source: match self.source {
                Some(text) => Some(text@),
                None => None,
            },
            line_number: self.line_number,
        }
    }
}

/// An event of a line: it has neither source nor line number.
pub open spec fn event(timestamp: Option<Timestamp>, level: Level, message: Seq<char>) -> Event {
    Event { timestamp, level, message, source: None, line_number: None }
}

/// The bracketed format, `[time] [level] message`. The line, without the white
/// space around it, starts with `[` and holds `]` at least twice. What stands
/// before the first `]`, without leading `[`, is read as the time; what stands
/// between the first and the second `]`, without the white space around it,
/// without leading `[` and again without white space around it, names the
/// severity; the rest, without the white space around it, is the message.
pub open spec fn bracketed_event(line: Seq<char>) -> Option<Event> {
    let t = trimmed(line);
    let first = find_char(t, ']', 0);
    let second = find_char(t, ']', first + 1);
    if t.len() > 0 && t[0] == '[' && second < t.len() {
        Some(
            event(
                timestamp_of(without_leading(t.subrange(0, first), '[')),
                level_of_token(
                    trimmed(without_leading(trimmed(t.subrange(first + 1, second)), '[')),
                ),
                trimmed(t.subrange(second + 1, t.len() as int)),
            ),
        )
    } else {
        None
    }
}

/// The format of words, `date time level message`. The line has at least
/// three words. The first two, with a space between them, are read as the
/// time; the third names the severity; the others, with one space between
/// each two, are the message.
pub open spec fn spaced_event(line: Seq<char>) -> Option<Event> {
    let w = words(line);
    if w.len() >= 3 {
        Some(
            event(
                timestamp_of(w[0] + seq![' '] + w[1]),
                level_of_token(w[2]),
                joined(w.subrange(3, w.len() as int), ' '),
            ),
        )
    } else {
        None
    }
}

/// The event of a line that no format takes: the line is the message.
pub open spec fn fallback_event(line: Seq<char>) -> Event {
    event(None, Level::Unknown("unknown"@), line)
}

/// The event of a line: that of the first format that takes the line, the
/// bracketed one first, or else the fallback.
pub open spec fn event_of_line(line: Seq<char>) -> Event {
    match bracketed_event(line) {
        Some(e) => e,
        None => match spaced_event(line) {
            Some(e) => e,
            None => fallback_event(line),
        },
    }
}

/// Recognizes the bracketed format on the characters of a line.
fn bracketed_chars(line: &Vec<char>) -> (entry: Option<LogEntry>)
    ensures
        match entry {
            Some(e) => bracketed_event(line@) == Some(e@),
            None => bracketed_event(line@) is None,
        },
{
    let t = trim(line);
    if t.len() == 0 || t[0] != '[' {
        return None;
    }
    let first: usize = position_of(&t, ']', 0);
    if first >= t.len() {
        assert(find_char(t@, ']', first + 1) == t@.len());
        return None;
    }
    let second: usize = position_of(&t, ']', first + 1);
    if second >= t.len() {
        return None;
    }
    let time_part = strip_leading(&copy_range(&t, 0, first), '[');
    let level_part = trim(&strip_leading(&trim(&copy_range(&t, first + 1, second)), '['));
    let message_part = trim(&copy_range(&t, second + 1, t.len()));
    let time_text = string_from_chars(&time_part);
    let level_text = string_from_chars(&level_part);
    Some(
        LogEntry {
            timestamp: parse_timestamp(time_text.as_str()),
            level: LogLevel::parse(level_text.as_str()),
            message: string_from_chars(&message_part),
            source: None,
            line_number: None,
        },
    )
}

/// Recognizes the format of words on the characters of a line.
fn spaced_chars(line: &Vec<char>) -> (entry: Option<LogEntry>)
    ensures
        match entry {
            Some(e) => spaced_event(line@) == Some(e@),
            None => spaced_event(line@) is None,
        },
{
    let w = split_words(line);
    assert(views(w@).len() == w@.len());
    if w.len() < 3 {
        return None;
    }
    let mut time_part: Vec<char> = copy_range(&w[0], 0, w[0].len());
    assert(time_part@ == w@[0]@);
    time_part.push(' ');
    let second = &w[1];
    let mut j: usize = 0;
    while j < second.len()
        invariant
            j <= second.len(),
            time_part@ == w@[0]@ + seq![' '] + second@.subrange(0, j as int),
        decreases second.len() - j,
    {
        time_part.push(second[j]);
        j += 1;
    }
    assert(second@.subrange(0, j as int) == second@);
    let time_text = string_from_chars(&time_part);
    let level_text = string_from_chars(&w[2]);
    let message_part = join_from(&w, 3, ' ');
    assert(views(w@)[0] == w@[0]@ && views(w@)[1] == w@[1]@ && views(w@)[2] == w@[2]@);
    Some(
        LogEntry {
            timestamp: parse_timestamp(time_text.as_str()),
            level: LogLevel::parse(level_text.as_str()),
            message: string_from_chars(&message_part),
            source: None,
            line_number: None,
        },
    )
}

/// Turns the characters of a line into its event.
fn entry_of_chars(line: &Vec<char>) -> (entry: LogEntry)
    ensures
        entry@ == event_of_line(line@),
{
    if let Some(entry) = bracketed_chars(line) {
        return entry;
    }
    if let Some(entry) = spaced_chars(line) {
        return entry;
    }
    LogEntry {
        timestamp: None,
        level: LogLevel::Unknown("unknown".to_owned()),
        message: string_from_chars(line),
        source: None,
        line_number: None,
    }
}

/// Recognizes the bracketed format, `[time] [level] message`.
pub fn parse_standard_format(line: &str) -> (entry: Option<LogEntry>)
    ensures
        match entry {
            Some(e) => bracketed_event(line@) == Some(e@),
            None => bracketed_event(line@) is None,
        },
{
    bracketed_chars(&chars_of(line))
}

/// Recognizes the format of words, `date time level message`.
pub fn parse_simple_format(line: &str) -> (entry: Option<LogEntry>)
    ensures
        match entry {
            Some(e) => spaced_event(line@) == Some(e@),
            None => spaced_event(line@) is None,
        },
{
    spaced_chars(&chars_of(line))
}

/// Turns a line into its event.
pub fn parse_log_line(line: &str) -> (entry: LogEntry)
    ensures
        entry@ == event_of_line(line@),
{
    entry_of_chars(&chars_of(line))
}

/// The model of [`LevelCounts`]: how many events there are of each severity,
/// and of each unknown token.
pub struct LevelTally {
    pub debug: nat,
    pub info: nat,
    pub warning: nat,
    pub error: nat,
    pub critical: nat,
    pub unknown: Counts,
}

impl LevelTally {
    /// No event counted.
    pub open spec fn empty() -> LevelTally {
        LevelTally { debug: 0, info: 0, warning: 0, error: 0, critical: 0, unknown: Seq::empty() }
    }

    /// The number of events counted for `level`.
    pub open spec fn count(self, level: Level) -> nat {
        match level {
            Level::Debug => self.debug,
            Level::Info => self.info,
            Level::Warning => self.warning,
            Level::Error => self.error,
            Level::Critical => self.critical,
            Level::Unknown(token) => count_of(self.unknown, token),
        }
    }

    /// `self` after one more event of `level`.
    pub open spec fn one_more(self, level: Level) -> LevelTally {
        match level {
            Level::Debug => LevelTally { debug: self.debug + 1, ..self },
            Level::Info => LevelTally { info: self.info + 1, ..self },
            Level::Warning => LevelTally { warning: self.warning + 1, ..self },
            Level::Error => LevelTally { error: self.error + 1, ..self },
            Level::Critical => LevelTally { critical: self.critical + 1, ..self },
            Level::Unknown(token) => LevelTally {
                unknown: one_more(self.unknown, token),
                ..self
            },
        }
    }

    /// The number of all events counted.
    pub open spec fn sum(self) -> nat {
        self.debug + self.info + self.warning + self.error + self.critical + total(self.unknown)
    }

    /// The severities that have events, each with its count: the known ones
    /// by rising rank, then the unknown tokens in the order of first counting.
    pub open spec fn pairs(self) -> Seq<(Level, nat)> {
        listed(Level::Debug, self.debug) + listed(Level::Info, self.info) + listed(
            Level::Warning,
            self.warning,
        ) + listed(Level::Error, self.error) + listed(Level::Critical, self.critical)
            + self.unknown.map_values(|p: (Seq<char>, nat)| (Level::Unknown(p.0), p.1))
    }
}

/// The pair of `level` and `n`, unless `n` is 0.
pub open spec fn listed(level: Level, n: nat) -> Seq<(Level, nat)> {
    if n > 0 {
        seq![(level, n)]
    } else {
        Seq::empty()
    }
}

/// The model of a list of severities with their counts.
pub open spec fn level_pairs(pairs: Seq<(LogLevel, usize)>) -> Seq<(Level, nat)> {
    pairs.map_values(|p: (LogLevel, usize)| (p.0@, p.1 as nat))
}

/// How many events there are of each severity.
pub struct LevelCounts {
    debug: usize,
    info: usize,
    warning: usize,
    error: usize,
    critical: usize,
    unknown: Tally,
}

impl View for LevelCounts {
    type V = LevelTally;

    closed spec fn view(&self) -> LevelTally {
        LevelTally {
            debug: self.debug as nat,
            info: self.info as nat,
            warning: self.warning as nat,
            error: self.error as nat,
            critical: self.critical as nat,
            unknown: self.unknown@,
        }
    }
}

impl LevelCounts {
    /// No event counted.
    pub fn new() -> (counts: LevelCounts)
        ensures
            counts@ == LevelTally::empty(),
    {
        LevelCounts { debug: 0, info: 0, warning: 0, error: 0, critical: 0, unknown: Tally::new() }
    }

    /// Counts one more event of `level`.
    pub fn add(&mut self, level: &LogLevel)
        requires
            old(self)@.count(level@) < usize::MAX,
        ensures
            final(self)@ == old(self)@.one_more(level@),
    {
        match level {
            LogLevel::Debug => {
                self.debug = self.debug + 1;
            },
            LogLevel::Info => {
                self.info = self.info + 1;
            },
            LogLevel::Warning => {
                self.warning = self.warning + 1;
            },
            LogLevel::Error => {
                self.error = self.error + 1;
            },
            LogLevel::Critical => {
                self.critical = self.critical + 1;
            },
            LogLevel::Unknown(token) => {
                self.unknown.add(token.clone());
            },
        }
    }

    /// The number of events counted for `level`.
    pub fn get(&self, level: &LogLevel) -> (n: usize)
        ensures
            n == self@.count(level@),
    {
        match level {
            LogLevel::Debug => self.debug,
            LogLevel::Info => self.info,
            LogLevel::Warning => self.warning,
            LogLevel::Error => self.error,
            LogLevel::Critical => self.critical,
            LogLevel::Unknown(token) => self.unknown.get(token.as_str()),
        }
    }

    /// Puts the pair of `level` and `n` behind `out`, unless `n` is 0.
    fn list(out: &mut Vec<(LogLevel, usize)>, level: LogLevel, n: usize)
        ensures
            level_pairs(final(out)@) == level_pairs(old(out)@) + listed(level@, n as nat),
    {
        if n > 0 {
            assert(level_pairs(out@.push((level, n))) == level_pairs(out@).push(
                (level@, n as nat),
            ));
            out.push((level, n));
        }
    }

    /// The severities that have events, each with its count.
    pub fn pairs(&self) -> (out: Vec<(LogLevel, usize)>)
        ensures
            level_pairs(out@) == self@.pairs(),
    {
        let mut out: Vec<(LogLevel, usize)> = Vec::new();
        assert(level_pairs(out@) == Seq::<(Level, nat)>::empty());
        Self::list(&mut out, LogLevel::Debug, self.debug);
        Self::list(&mut out, LogLevel::Info, self.info);
        Self::list(&mut out, LogLevel::Warning, self.warning);
        Self::list(&mut out, LogLevel::Error, self.error);
        Self::list(&mut out, LogLevel::Critical, self.critical);
        let ghost known = level_pairs(out@);
        let ghost rest = self@.unknown.map_values(|p: (Seq<char>, nat)| (Level::Unknown(p.0), p.1));
        let mut i: usize = 0;
        while i < self.unknown.len()
            invariant
                i <= self.unknown@.len(),
                rest == self@.unknown.map_values(|p: (Seq<char>, nat)| (Level::Unknown(p.0), p.1)),
                level_pairs(out@) == known + rest.take(i as int),
            decreases self.unknown@.len() - i,
        {
            let pair = (LogLevel::Unknown(self.unknown.key_at(i).clone()), self.unknown.count_at(i));
            proof {
                assert(level_pairs(out@.push(pair)) == level_pairs(out@).push(
                    (pair.0@, pair.1 as nat),
                ));
                assert(rest.take(i + 1) == rest.take(i as int).push(rest[i as int]));
            }
            out.push(pair);
            i += 1;
        }
        assert(rest.take(i as int) == rest);
        out
    }

    /// The counts of the unknown tokens.
    pub fn unknown(&self) -> (tally: &Tally)
        ensures
            tally@ == self@.unknown,
    {
        &self.unknown
    }
}

/// The models of a list of entries.
pub open spec fn events_of_entries(entries: Seq<LogEntry>) -> Seq<Event> {
    entries.map_values(|e: LogEntry| e@)
}

/// The severities of the events, counted.
pub open spec fn level_tally(events: Seq<Event>) -> LevelTally
    decreases events.len(),
{
    if events.len() == 0 {
        LevelTally::empty()
    } else {
        level_tally(events.drop_last()).one_more(events.last().level)
    }
}

/// The hour buckets of the events that have a time, in the order of the
/// events.
pub open spec fn hour_keys(events: Seq<Event>) -> Seq<Seq<char>>
    decreases events.len(),
{
    if events.len() == 0 {
        Seq::empty()
    } else {
        match events.last().timestamp {
            Some(t) => hour_keys(events.drop_last()).push(t.spec_hour_key()),
            None => hour_keys(events.drop_last()),
        }
    }
}

/// The messages of the events, in their order.
pub open spec fn messages(events: Seq<Event>) -> Seq<Seq<char>> {
    events.map_values(|e: Event| e.message)
}

/// Whether `word` holds an upper-case character.
pub open spec fn has_uppercase(word: Seq<char>) -> bool {
    exists|i: int| 0 <= i < word.len() && unicode_uppercase(#[trigger] word[i])
}

/// Whether `word` counts as an error pattern: more than three characters, one
/// of them upper case.
pub open spec fn is_error_pattern(word: Seq<char>) -> bool {
    word.len() > 3 && has_uppercase(word)
}

/// Those of `words` that count as error patterns, in their order.
pub open spec fn patterns_among(words: Seq<Seq<char>>) -> Seq<Seq<char>>
    decreases words.len(),
{
    if words.len() == 0 {
        Seq::empty()
    } else if is_error_pattern(words.last()) {
        patterns_among(words.drop_last()).push(words.last())
    } else {
        patterns_among(words.drop_last())
    }
}

/// Whether an event is an error or worse.
pub open spec fn is_severe(e: Event) -> bool {
    severity_of(e.level) >= severity_of(Level::Error)
}

/// The error patterns in the messages of the events that are errors or worse,
/// in the order in which they stand.
pub open spec fn error_tokens(events: Seq<Event>) -> Seq<Seq<char>>
    decreases events.len(),
{
    if events.len() == 0 {
        Seq::empty()
    } else if is_severe(events.last()) {
        error_tokens(events.drop_last()) + patterns_among(words(events.last().message))
    } else {
        error_tokens(events.drop_last())
    }
}

/// The earliest time among the events, if one has a time.
pub open spec fn earliest(events: Seq<Event>) -> Option<Timestamp>
    decreases events.len(),
{
    if events.len() == 0 {
        None
    } else {
        match (earliest(events.drop_last()), events.last().timestamp) {
            (Some(m), Some(t)) => if m.at_or_before(&t) {
                Some(m)
            } else {
                Some(t)
            },
            (Some(m), None) => Some(m),
            (None, t) => t,
        }
    }
}

/// The latest time among the events, if one has a time.
pub open spec fn latest(events: Seq<Event>) -> Option<Timestamp>
    decreases events.len(),
{
    if events.len() == 0 {
        None
    } else {
        match (latest(events.drop_last()), events.last().timestamp) {
            (Some(m), Some(t)) => if t.at_or_before(&m) {
                Some(m)
            } else {
                Some(t)
            },
            (Some(m), None) => Some(m),
            (None, t) => t,
        }
    }
}

/// The span of time that the events cover: from the earliest to the latest
/// time that an event has.
pub open spec fn time_range_of(events: Seq<Event>) -> Option<(Timestamp, Timestamp)> {
    match (earliest(events), latest(events)) {
        (Some(a), Some(b)) => Some((a, b)),
        _ => None,
    }
}

/// The model of a [`LogAnalysis`].
pub struct Analysis {
    pub total_entries: nat,
    pub level_distribution: LevelTally,
    pub time_distribution: Counts,
    pub error_patterns: Counts,
    pub top_messages: Counts,
    pub time_range: Option<(Timestamp, Timestamp)>,
}

/// What a sequence of events amounts to.
pub open spec fn analysis_of(events: Seq<Event>) -> Analysis {
    Analysis {
        total_entries: events.len(),
        level_distribution: level_tally(events),
        time_distribution: tally_of(hour_keys(events)),
        error_patterns: tally_of(error_tokens(events)),
        top_messages: ranked(tally_of(messages(events))),
        time_range: time_range_of(events),
    }
}

/// What a log amounts to.
pub struct LogAnalysis {
    /// The number of events.
    pub total_entries: usize,
    /// The number of events of each severity.
    pub level_distribution: LevelCounts,
    /// The number of events in each hour, for the events that have a time.
    pub time_distribution: Tally,
    /// How often each error pattern stands in the message of an event that is
    /// an error or worse.
    pub error_patterns: Tally,
    /// The messages with the number of events that carry them, the most
    /// frequent first; among equally frequent ones, the one seen first.
    pub top_messages: Vec<(String, usize)>,
    /// The earliest and the latest time of an event.
    pub time_range: Option<(Timestamp, Timestamp)>,
}

impl View for LogAnalysis {
    type V = Analysis;

    open spec fn view(&self) -> Analysis {
        Analysis {
            total_entries: self.total_entries as nat,
            level_distribution: self.level_distribution@,
            time_distribution: self.time_distribution@,
            error_patterns: self.error_patterns@,
            top_messages: counts_of_pairs(self.top_messages@),
            time_range: self.time_range,
        }
    }
}

impl Default for LogAnalysis {
    /// The analysis of no events.
    fn default() -> (analysis: LogAnalysis)
        ensures
            analysis@ == analysis_of(Seq::empty()),
    {
        LogAnalysis::new()
    }
}

impl LogAnalysis {
    /// The analysis of no events.
    pub fn new() -> (analysis: LogAnalysis)
        ensures
            analysis@ == analysis_of(Seq::empty()),
    {
        let analysis = LogAnalysis {
            total_entries: 0,
            level_distribution: LevelCounts::new(),
            time_distribution: Tally::new(),
            error_patterns: Tally::new(),
            top_messages: Vec::new(),
            time_range: None,
        };
        proof {
            let none = Seq::<Event>::empty();
            assert(messages(none) == Seq::<Seq<char>>::empty());
            assert(counts_of_pairs(analysis.top_messages@) == Seq::<(Seq<char>, nat)>::empty());
            lemma_ranked(Seq::empty());
            assert(ranked(Seq::empty()) == Seq::<(Seq<char>, nat)>::empty());
        }
        analysis
    }
}

/// Every event is counted once: the counts of a level tally add up to the
/// number of events, and no count is larger.
pub proof fn lemma_level_tally(events: Seq<Event>, level: Level)
    ensures
        level_tally(events).sum() == events.len(),
        level_tally(events).count(level) <= events.len(),
    decreases events.len(),
{
    if events.len() > 0 {
        let before = level_tally(events.drop_last());
        lemma_level_tally(events.drop_last(), level);
        if let Level::Unknown(token) = events.last().level {
            lemma_one_more(before.unknown, token, token);
        }
    }
    if let Level::Unknown(token) = level {
        lemma_count_within_total(level_tally(events).unknown, token);
    }
}

/// There are no more hour buckets than events.
pub proof fn lemma_hour_keys_len(events: Seq<Event>)
    ensures
        hour_keys(events).len() <= events.len(),
    decreases events.len(),
{
    if events.len() > 0 {
        lemma_hour_keys_len(events.drop_last());
    }
}

/// The first `n` of the words hold no more error patterns than all of them.
pub proof fn lemma_patterns_among_prefix(words: Seq<Seq<char>>, n: int)
    requires
        0 <= n <= words.len(),
    ensures
        patterns_among(words.take(n)).len() <= patterns_among(words).len(),
    decreases words.len() - n,
{
    if n < words.len() {
        lemma_patterns_among_prefix(words, n + 1);
        assert(words.take(n + 1).drop_last() == words.take(n));
    } else {
        assert(words.take(n) == words);
    }
}

/// The first `n` of the events hold no more error tokens than all of them.
pub proof fn lemma_error_tokens_prefix(events: Seq<Event>, n: int)
    requires
        0 <= n <= events.len(),
    ensures
        error_tokens(events.take(n)).len() <= error_tokens(events).len(),
    decreases events.len() - n,
{
    if n < events.len() {
        lemma_error_tokens_prefix(events, n + 1);
        assert(events.take(n + 1).drop_last() == events.take(n));
    } else {
        assert(events.take(n) == events);
    }
}

/// The events of the first `k + 1` entries are those of the first `k` and
/// the event of entry `k`.
proof fn lemma_take_next(entries: Seq<LogEntry>, k: int)
    requires
        0 <= k < entries.len(),
    ensures
        events_of_entries(entries).take(k + 1).drop_last() == events_of_entries(entries).take(k),
        events_of_entries(entries).take(k + 1).last() == entries[k]@,
        events_of_entries(entries).take(k + 1).len() == k + 1,
        events_of_entries(entries).take(k).len() == k,
{
}

/// Counts the entries by severity.
fn count_levels(entries: &Vec<LogEntry>) -> (counts: LevelCounts)
    ensures
        counts@ == level_tally(events_of_entries(entries@)),
{
    let ghost events = events_of_entries(entries@);
    let mut counts = LevelCounts::new();
    let mut k: usize = 0;
    while k < entries.len()
        invariant
            k <= entries.len(),
            events == events_of_entries(entries@),
            counts@ == level_tally(events.take(k as int)),
        decreases entries.len() - k,
    {
        proof {
            lemma_take_next(entries@, k as int);
            lemma_level_tally(events.take(k as int), entries@[k as int].level@);
        }
        counts.add(&entries[k].level);
        k += 1;
    }
    assert(events.take(k as int) == events);
    counts
}

/// Counts the entries that have a time by their hour bucket.
fn count_hours(entries: &Vec<LogEntry>) -> (tally: Tally)
    ensures
        tally@ == tally_of(hour_keys(events_of_entries(entries@))),
{
    let ghost events = events_of_entries(entries@);
    let mut tally = Tally::new();
    let mut k: usize = 0;
    while k < entries.len()
        invariant
            k <= entries.len(),
            events == events_of_entries(entries@),
            tally@ == tally_of(hour_keys(events.take(k as int))),
        decreases entries.len() - k,
    {
        proof {
            lemma_take_next(entries@, k as int);
        }
        if let Some(t) = entries[k].timestamp {
            let key = t.hour_key();
            proof {
                let keys = hour_keys(events.take(k as int));
                lemma_hour_keys_len(events.take(k as int));
                lemma_tally_of(keys, key@);
                lemma_tally_of_push(keys, key@);
            }
            tally.add(key);
        }
        k += 1;
    }
    assert(events.take(k as int) == events);
    tally
}

/// Whether `word` counts as an error pattern.
fn is_pattern(word: &Vec<char>) -> (b: bool)
    ensures
        b == is_error_pattern(word@),
{
    if word.len() <= 3 {
        return false;
    }
    let mut i: usize = 0;
    while i < word.len()
        invariant
            3 < word.len(),
            i <= word.len(),
            forall|j: int| 0 <= j < i ==> !unicode_uppercase(#[trigger] word@[j]),
        decreases word.len() - i,
    {
        if is_uppercase(word[i]) {
            assert(unicode_uppercase(word@[i as int]));
            return true;
        }
        i += 1;
    }
    false
}

/// Counts the error patterns in the messages of the entries that are errors
/// or worse, unless there are more of them than a `usize` counts.
fn count_patterns(entries: &Vec<LogEntry>) -> (counted: Option<Tally>)
    ensures
        match counted {
            Some(tally) => error_tokens(events_of_entries(entries@)).len() <= usize::MAX
                && tally@ == tally_of(error_tokens(events_of_entries(entries@))),
            None => error_tokens(events_of_entries(entries@)).len() > usize::MAX,
        },
{
    let ghost events = events_of_entries(entries@);
    let mut tally = Tally::new();
    let mut seen: usize = 0;
    let mut k: usize = 0;
    while k < entries.len()
        invariant
            k <= entries.len(),
            events == events_of_entries(entries@),
            seen == error_tokens(events.take(k as int)).len(),
            tally@ == tally_of(error_tokens(events.take(k as int))),
        decreases entries.len() - k,
    {
        proof {
            lemma_take_next(entries@, k as int);
            lemma_error_tokens_prefix(events, k + 1);
        }
        if entries[k].level.severity() >= LogLevel::Error.severity() {
            let ghost done = error_tokens(events.take(k as int));
            let tokens = split_words(&chars_of(entries[k].message.as_str()));
            let ghost all = views(tokens@);
            assert(all == words(entries@[k as int]@.message));
            let mut j: usize = 0;
            while j < tokens.len()
                invariant
                    j <= tokens.len(),
                    events == events_of_entries(entries@),
                    all == views(tokens@),
                    all.len() == tokens.len(),
                    (done + patterns_among(all)).len() <= error_tokens(events).len(),
                    seen == (done + patterns_among(all.take(j as int))).len(),
                    tally@ == tally_of(done + patterns_among(all.take(j as int))),
                decreases tokens.len() - j,
            {
                proof {
                    assert(all.take(j + 1).drop_last() == all.take(j as int));
                    assert(all.take(j + 1).last() == tokens@[j as int]@);
                    lemma_patterns_among_prefix(all, j + 1);
                }
                if is_pattern(&tokens[j]) {
                    if seen == usize::MAX {
                        assert(patterns_among(all.take(j + 1)).len() == patterns_among(
                            all.take(j as int),
                        ).len() + 1);
                        return None;
                    }
                    proof {
                        let token = tokens@[j as int]@;
                        let so_far = done + patterns_among(all.take(j as int));
                        lemma_tally_of(so_far, token);
                        lemma_tally_of_push(so_far, token);
                        assert(so_far.push(token) == done + patterns_among(all.take(j + 1)));
                    }
                    tally.add(string_from_chars(&tokens[j]));
                    seen = seen + 1;
                }
                j += 1;
            }
            assert(all.take(j as int) == all);
        }
        k += 1;
    }
    assert(events.take(k as int) == events);
    Some(tally)
}

/// Counts the entries by message.
fn count_messages(entries: &Vec<LogEntry>) -> (tally: Tally)
    ensures
        tally@ == tally_of(messages(events_of_entries(entries@))),
{
    let ghost events = events_of_entries(entries@);
    let mut tally = Tally::new();
    let mut k: usize = 0;
    while k < entries.len()
        invariant
            k <= entries.len(),
            events == events_of_entries(entries@),
            tally@ == tally_of(messages(events.take(k as int))),
        decreases entries.len() - k,
    {
        let key = entries[k].message.clone();
        proof {
            let keys = messages(events.take(k as int));
            lemma_tally_of(keys, key@);
            lemma_tally_of_push(keys, key@);
            assert(keys.push(key@) == messages(events.take(k + 1)));
        }
        tally.add(key);
        k += 1;
    }
    assert(events.take(k as int) == events);
    tally
}

/// The earliest and the latest time of an entry.
fn find_time_range(entries: &Vec<LogEntry>) -> (range: Option<(Timestamp, Timestamp)>)
    ensures
        range == time_range_of(events_of_entries(entries@)),
{
    let ghost events = events_of_entries(entries@);
    let mut first: Option<Timestamp> = None;
    let mut last: Option<Timestamp> = None;
    let mut k: usize = 0;
    while k < entries.len()
        invariant
            k <= entries.len(),
            events == events_of_entries(entries@),
            first == earliest(events.take(k as int)),
            last == latest(events.take(k as int)),
        decreases entries.len() - k,
    {
        proof {
            lemma_take_next(entries@, k as int);
        }
        if let Some(t) = entries[k].timestamp {
            first = match first {
                Some(m) => if m.at_or_before(&t) {
                    Some(m)
                } else {
                    Some(t)
                },
                None => Some(t),
            };
            last = match last {
                Some(m) => if t.at_or_before(&m) {
                    Some(m)
                } else {
                    Some(t)
                },
                None => Some(t),
            };
        }
        k += 1;
    }
    assert(events.take(k as int) == events);
    match (first, last) {
        (Some(a), Some(b)) => Some((a, b)),
        _ => None,
    }
}

/// Folds the entries into their analysis, unless the messages of the errors
/// hold more error patterns than a `usize` counts.
pub fn try_analyze_entries(entries: &Vec<LogEntry>) -> (outcome: Option<LogAnalysis>)
    ensures
        match outcome {
            Some(analysis) => error_tokens(events_of_entries(entries@)).len() <= usize::MAX
                && analysis@ == analysis_of(events_of_entries(entries@)),
            None => error_tokens(events_of_entries(entries@)).len() > usize::MAX,
        },
{
    let error_patterns = match count_patterns(entries) {
        Some(tally) => tally,
        None => {
            return None;
        },
    };
    let by_message = count_messages(entries);
    Some(
        LogAnalysis {
            total_entries: entries.len(),
            level_distribution: count_levels(entries),
            time_distribution: count_hours(entries),
            error_patterns,
            top_messages: by_message.ranked(),
            time_range: find_time_range(entries),
        },
    )
}

/// Folds the entries into their analysis.
pub fn analyze_entries(entries: &Vec<LogEntry>) -> (analysis: LogAnalysis)
    requires
        error_tokens(events_of_entries(entries@)).len() <= usize::MAX,
    ensures
        analysis@ == analysis_of(events_of_entries(entries@)),
{
    match try_analyze_entries(entries) {
        Some(analysis) => analysis,
        None => LogAnalysis::new(),
    }
}

/// The events of some lines: one for each line that is not empty.
pub open spec fn events_of_lines(lines: Seq<Seq<char>>) -> Seq<Event>
    decreases lines.len(),
{
    if lines.len() == 0 {
        Seq::empty()
    } else if lines.last().len() == 0 {
        events_of_lines(lines.drop_last())
    } else {
        events_of_lines(lines.drop_last()).push(event_of_line(lines.last()))
    }
}

/// The events of a log: those of its lines.
pub open spec fn events_of(content: Seq<char>) -> Seq<Event> {
    events_of_lines(lines(content))
}

/// The number of characters in the messages of the events.
pub open spec fn message_chars(events: Seq<Event>) -> nat
    decreases events.len(),
{
    if events.len() == 0 {
        0
    } else {
        message_chars(events.drop_last()) + events.last().message.len()
    }
}

/// Among some words there are no more error patterns than words.
pub proof fn lemma_patterns_among_len(words: Seq<Seq<char>>)
    ensures
        patterns_among(words).len() <= words.len(),
    decreases words.len(),
{
    if words.len() > 0 {
        lemma_patterns_among_len(words.drop_last());
    }
}

/// The events hold no more error tokens than their messages hold characters.
pub proof fn lemma_error_tokens_len(events: Seq<Event>)
    ensures
        error_tokens(events).len() <= message_chars(events),
    decreases events.len(),
{
    if events.len() > 0 {
        lemma_error_tokens_len(events.drop_last());
        let message = events.last().message;
        lemma_patterns_among_len(words(message));
        lemma_words_len(message, 0);
    }
}

/// The message of an event is no longer than the line of the event.
pub proof fn lemma_message_len(line: Seq<char>)
    ensures
        event_of_line(line).message.len() <= line.len(),
{
    if bracketed_event(line) is Some {
        let t = trimmed(line);
        lemma_trimmed_len(line);
        let first = find_char(t, ']', 0);
        lemma_find_char_bounds(t, ']', 0);
        lemma_find_char_bounds(t, ']', first + 1);
        let second = find_char(t, ']', first + 1);
        lemma_trimmed_len(t.subrange(second + 1, t.len() as int));
    } else if spaced_event(line) is Some {
        lemma_joined_tail_len(line, 0, 3, ' ');
    }
}

/// The messages of the events of some lines hold no more characters than the
/// lines.
pub proof fn lemma_message_chars(lines: Seq<Seq<char>>)
    ensures
        message_chars(events_of_lines(lines)) <= chars_in(lines),
        events_of_lines(lines).len() <= lines.len(),
    decreases lines.len(),
{
    if lines.len() > 0 {
        lemma_message_chars(lines.drop_last());
        if lines.last().len() > 0 {
            lemma_message_len(lines.last());
            assert(events_of_lines(lines).drop_last() == events_of_lines(lines.drop_last()));
        }
    }
}

/// A log holds no more error tokens than characters.
pub proof fn lemma_error_tokens_of_log(content: Seq<char>)
    ensures
        error_tokens(events_of(content)).len() <= content.len(),
{
    lemma_error_tokens_len(events_of(content));
    lemma_message_chars(lines(content));
    lemma_lines_chars(content, 0);
}

/// The events of the characters of a log.
fn entries_of_chars(text: &Vec<char>) -> (entries: Vec<LogEntry>)
    ensures
        events_of_entries(entries@) == events_of(text@),
{
    let all = split_lines(text);
    let mut entries: Vec<LogEntry> = Vec::new();
    let mut k: usize = 0;
    assert(views(all@).len() == all@.len());
    while k < all.len()
        invariant
            k <= all.len(),
            views(all@).len() == all@.len(),
            events_of_entries(entries@) == events_of_lines(views(all@).take(k as int)),
        decreases all.len() - k,
    {
        proof {
            assert(views(all@).take(k + 1).drop_last() == views(all@).take(k as int));
            assert(views(all@).take(k + 1).last() == all@[k as int]@);
        }
        if all[k].len() > 0 {
            let entry = entry_of_chars(&all[k]);
            assert(events_of_entries(entries@.push(entry)) == events_of_entries(entries@).push(
                entry@,
            ));
            entries.push(entry);
        }
        k += 1;
    }
    assert(views(all@).take(k as int) == views(all@));
    entries
}

/// The events of a log, in the order of its lines. A line that is empty has
/// none.
pub fn parse_log(content: &str) -> (entries: Vec<LogEntry>)
    ensures
        events_of_entries(entries@) == events_of(content@),
{
    entries_of_chars(&chars_of(content))
}

/// Analyzes the text of a log: turns its lines into events and folds them.
pub fn analyze(content: &str) -> (analysis: LogAnalysis)
    ensures
        analysis@ == analysis_of(events_of(content@)),
{
    let text = chars_of(content);
    let entries = entries_of_chars(&text);
    proof {
        lemma_error_tokens_of_log(content@);
    }
    analyze_entries(&entries)
}

/// The analysis of the log file at `file_path`. `found` holds what came of
/// reading the file: nothing where no file stands at the path, or else the
/// text of the file or the error of the reading. A file that cannot be read
/// is an error; its text, whatever it holds, is not.
pub fn analyze_log_file(file_path: &str, found: Option<Result<String, std::io::Error>>) -> (result:
    RtoolsResult<LogAnalysis>)
    ensures
        match result {
            Ok(analysis) => found matches Some(Ok(content)) && analysis@ == analysis_of(
                events_of(content@),
            ),
            Err(RtoolsError::FileNotFound(path)) => found is None && path@ == file_path@,
            Err(RtoolsError::IoError(e)) => found == Some(Err::<String, std::io::Error>(e)),
            Err(_) => false,
        },
{
    match found {
        None => Err(RtoolsError::FileNotFound(file_path.to_owned())),
        Some(Err(e)) => Err(RtoolsError::IoError(e)),
        Some(Ok(content)) => Ok(analyze(content.as_str())),
    }
}

} // verus!
