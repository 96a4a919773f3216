//! What holds of the analysis of every log, proved from the definitions in
//! [`crate::loganalyzer`].

use crate::loganalyzer::{
    analysis_of, bracketed_event, earliest, error_tokens, event, events_of, hour_keys,
    is_error_pattern, is_severe, latest, lemma_level_tally, level_of_token, level_tally,
    messages, patterns_among, time_range_of, Analysis, Event, Level, LevelTally,
};
use crate::tally::{
    distinct_keys, falling, first_place, has_key, lemma_key_index, lemma_one_more, lemma_ranked,
    lemma_ranked_order, lemma_tally_entries, lemma_tally_of, lemma_tally_order, occurrences,
    ranked, ranks_before, tally_of, total,
};
use crate::text::{
    joined, lemma_split_in_three, lines, split_at_char, trimmed, without_leading, words,
};
use crate::timestamp::{lemma_timestamp_order, timestamp_of, Timestamp};
use vstd::prelude::*;

verus! {

/// Every event is counted under exactly one severity: the counts by severity
/// add up to the number of events.
pub proof fn lemma_levels_add_up(events: Seq<Event>)
    ensures
        analysis_of(events).level_distribution.sum() == analysis_of(events).total_entries,
{
    lemma_level_tally(events, Level::Debug);
}

/// The number of events of the severity `level`.
pub open spec fn events_of_level(events: Seq<Event>, level: Level) -> nat
    decreases events.len(),
{
    if events.len() == 0 {
        0
    } else if events.last().level == level {
        events_of_level(events.drop_last(), level) + 1
    } else {
        events_of_level(events.drop_last(), level)
    }
}

/// The count of a severity is the number of events of that severity.
pub proof fn lemma_level_counts(events: Seq<Event>, level: Level)
    ensures
        analysis_of(events).level_distribution.count(level) == events_of_level(events, level),
    decreases events.len(),
{
    if events.len() > 0 {
        lemma_level_counts(events.drop_last(), level);
        let before = level_tally(events.drop_last());
        if let Level::Unknown(token) = events.last().level {
            if let Level::Unknown(other) = level {
                lemma_one_more(before.unknown, token, other);
            }
        }
    }
}

/// Whether event `j` has a time in the hour bucket `key`.
pub open spec fn in_hour(events: Seq<Event>, j: int, key: Seq<char>) -> bool {
    0 <= j < events.len() && events[j].timestamp is Some
        && events[j].timestamp->0.spec_hour_key() == key
}

/// Whether an event has a time in the hour bucket `key`.
pub open spec fn hour_of_an_event(events: Seq<Event>, key: Seq<char>) -> bool {
    exists|j: int| in_hour(events, j, key)
}

/// Whether every event has a time.
pub open spec fn all_timed(events: Seq<Event>) -> bool {
    forall|j: int| 0 <= j < events.len() ==> (#[trigger] events[j]).timestamp is Some
}

proof fn lemma_hour_keys(events: Seq<Event>)
    ensures
        hour_keys(events).len() <= events.len(),
        hour_keys(events).len() == events.len() <==> all_timed(events),
        forall|key: Seq<char>|
            hour_keys(events).contains(key) ==> exists|j: int| in_hour(events, j, key),
    decreases events.len(),
{
    if events.len() > 0 {
        let before = events.drop_last();
        lemma_hour_keys(before);
        let n = events.len() - 1;
        if all_timed(events) {
            assert(events[n].timestamp is Some);
            assert forall|j: int| 0 <= j < before.len() implies (#[trigger] before[j]).timestamp is Some by {
                assert(before[j] == events[j]);
            }
        }
        if all_timed(before) && events[n].timestamp is Some {
            assert forall|j: int| 0 <= j < events.len() implies (#[trigger] events[j]).timestamp is Some by {
                if j < n {
                    assert(before[j] == events[j]);
                }
            }
        }
        assert forall|key: Seq<char>| hour_keys(events).contains(key) implies exists|j: int|
            in_hour(events, j, key) by {
            let keys = hour_keys(events);
            let i = choose|i: int| 0 <= i < keys.len() && keys[i] == key;
            if events[n].timestamp is Some && i == keys.len() - 1 {
                assert(in_hour(events, n, key));
            } else {
                assert(hour_keys(before)[i] == key);
                assert(hour_keys(before).contains(key));
                let j = choose|j: int| in_hour(before, j, key);
                assert(before[j] == events[j]);
                assert(in_hour(events, j, key));
            }
        }
    }
}

/// Every hour bucket of the time distribution is the bucket of an event, with
/// the number of events in that hour. The buckets hold no more events than
/// there are, and all of them exactly if every event has a time.
pub proof fn lemma_time_distribution(events: Seq<Event>)
    ensures
        forall|i: int|
            0 <= i < analysis_of(events).time_distribution.len() ==> hour_of_an_event(
                events,
                (#[trigger] analysis_of(events).time_distribution[i]).0,
            ),
        forall|i: int|
            0 <= i < analysis_of(events).time_distribution.len() ==> (#[trigger] analysis_of(
                events,
            ).time_distribution[i]).1 == occurrences(
                hour_keys(events),
                analysis_of(events).time_distribution[i].0,
            ),
        distinct_keys(analysis_of(events).time_distribution),
        total(analysis_of(events).time_distribution) <= analysis_of(events).total_entries,
        total(analysis_of(events).time_distribution) == analysis_of(events).total_entries
            <==> all_timed(events),
{
    let keys = hour_keys(events);
    let buckets = tally_of(keys);
    assert(analysis_of(events).time_distribution == buckets);
    lemma_hour_keys(events);
    lemma_tally_of(keys, Seq::empty());
    assert forall|i: int| 0 <= i < buckets.len() implies hour_of_an_event(
        events,
        (#[trigger] buckets[i]).0,
    ) by {
        lemma_tally_entries(keys, i);
        assert(keys.contains(buckets[i].0));
    }
    assert forall|i: int| 0 <= i < buckets.len() implies (#[trigger] buckets[i]).1 == occurrences(
        keys,
        buckets[i].0,
    ) by {
        lemma_tally_entries(keys, i);
    }
}

/// Whether event `j` has the time `t`.
pub open spec fn at_time(events: Seq<Event>, j: int, t: Timestamp) -> bool {
    0 <= j < events.len() && events[j].timestamp == Some(t)
}

proof fn lemma_earliest_latest(events: Seq<Event>)
    ensures
        earliest(events) is Some <==> exists|j: int|
            0 <= j < events.len() && (#[trigger] events[j]).timestamp is Some,
        latest(events) is Some <==> earliest(events) is Some,
        earliest(events) matches Some(a) ==> exists|j: int| at_time(events, j, a),
        latest(events) matches Some(b) ==> exists|j: int| at_time(events, j, b),
        forall|j: int, t: Timestamp| #[trigger]
            at_time(events, j, t) ==> earliest(events)->0.at_or_before(&t) && t.at_or_before(
                &latest(events)->0,
            ),
    decreases events.len(),
{
    if events.len() > 0 {
        let before = events.drop_last();
        let n = events.len() - 1;
        lemma_earliest_latest(before);
        if earliest(before) is Some {
            let j = choose|j: int| 0 <= j < before.len() && (#[trigger] before[j]).timestamp is Some;
            assert(events[j] == before[j]);
        }
        if exists|j: int| 0 <= j < events.len() && (#[trigger] events[j]).timestamp is Some {
            let j = choose|j: int| 0 <= j < events.len() && (#[trigger] events[j]).timestamp is Some;
            if j < n {
                assert(before[j] == events[j]);
            }
        }
        if let Some(a) = earliest(events) {
            if earliest(before) == Some(a) {
                let j = choose|j: int| at_time(before, j, a);
                assert(before[j] == events[j]);
                assert(at_time(events, j, a));
            } else {
                assert(at_time(events, n, a));
            }
        }
        if let Some(b) = latest(events) {
            if latest(before) == Some(b) {
                let j = choose|j: int| at_time(before, j, b);
                assert(before[j] == events[j]);
                assert(at_time(events, j, b));
            } else {
                assert(at_time(events, n, b));
            }
        }
        assert forall|j: int, t: Timestamp| #[trigger] at_time(events, j, t) implies earliest(
            events,
        )->0.at_or_before(&t) && t.at_or_before(&latest(events)->0) by {
            let a = earliest(events)->0;
            let b = latest(events)->0;
            if j < n {
                assert(before[j] == events[j]);
                assert(at_time(before, j, t));
                let a0 = earliest(before)->0;
                let b0 = latest(before)->0;
                lemma_timestamp_order(a, a0, t);
                lemma_timestamp_order(t, b0, b);
                lemma_timestamp_order(a0, a, a);
                lemma_timestamp_order(b0, b, b);
                if let Some(last) = events[n].timestamp {
                    lemma_timestamp_order(a0, last, t);
                    lemma_timestamp_order(last, b0, t);
                }
            } else {
                lemma_timestamp_order(t, t, t);
                if let Some(a0) = earliest(before) {
                    lemma_timestamp_order(a0, t, t);
                }
                if let Some(b0) = latest(before) {
                    lemma_timestamp_order(t, b0, t);
                }
            }
        }
    }
}

/// There is a time range exactly if an event has a time. Its ends are times
/// of events, the first no later than the second, and the time of every event
/// lies between them.
pub proof fn lemma_time_range(events: Seq<Event>)
    ensures
        analysis_of(events).time_range is Some <==> exists|j: int|
            0 <= j < events.len() && (#[trigger] events[j]).timestamp is Some,
        analysis_of(events).time_range matches Some(range) ==> {
            &&& range.0.at_or_before(&range.1)
            &&& exists|j: int| at_time(events, j, range.0)
            &&& exists|j: int| at_time(events, j, range.1)
            &&& forall|j: int, t: Timestamp| #[trigger]
                at_time(events, j, t) ==> range.0.at_or_before(&t) && t.at_or_before(&range.1)
        },
{
    lemma_earliest_latest(events);
    if let Some(range) = time_range_of(events) {
        let j = choose|j: int| at_time(events, j, range.0);
        assert(at_time(events, j, range.0));
    }
}

/// Whether the message of event `j`, an error or worse, holds the word
/// `token`.
pub open spec fn in_severe_message(events: Seq<Event>, j: int, token: Seq<char>) -> bool {
    0 <= j < events.len() && is_severe(events[j]) && words(events[j].message).contains(token)
}

proof fn lemma_patterns_among(words: Seq<Seq<char>>)
    ensures
        forall|token: Seq<char>| #[trigger]
            patterns_among(words).contains(token) <==> words.contains(token) && is_error_pattern(
                token,
            ),
    decreases words.len(),
{
    if words.len() > 0 {
        let before = words.drop_last();
        lemma_patterns_among(before);
        assert forall|token: Seq<char>| #[trigger]
            patterns_among(words).contains(token) <==> words.contains(token) && is_error_pattern(
                token,
            ) by {
            let found = patterns_among(words);
            if found.contains(token) {
                let i = choose|i: int| 0 <= i < found.len() && found[i] == token;
                if is_error_pattern(words.last()) && i == found.len() - 1 {
                    assert(words[words.len() - 1] == token);
                } else {
                    assert(patterns_among(before)[i] == token);
                    assert(patterns_among(before).contains(token));
                    let k = choose|k: int| 0 <= k < before.len() && before[k] == token;
                    assert(words[k] == token);
                }
            }
            if words.contains(token) && is_error_pattern(token) {
                let k = choose|k: int| 0 <= k < words.len() && words[k] == token;
                if k < words.len() - 1 {
                    assert(before[k] == token);
                    assert(before.contains(token));
                    assert(patterns_among(before).contains(token));
                    let i = choose|i: int|
                        0 <= i < patterns_among(before).len() && patterns_among(before)[i] == token;
                    assert(found[i] == token);
                } else {
                    assert(found[found.len() - 1] == token);
                }
            }
        }
    }
}

proof fn lemma_error_tokens(events: Seq<Event>)
    ensures
        forall|token: Seq<char>| #[trigger]
            error_tokens(events).contains(token) <==> is_error_pattern(token) && exists|j: int|
                in_severe_message(events, j, token),
    decreases events.len(),
{
    if events.len() > 0 {
        let before = events.drop_last();
        let n = events.len() - 1;
        lemma_error_tokens(before);
        let here = patterns_among(words(events[n].message));
        lemma_patterns_among(words(events[n].message));
        assert forall|token: Seq<char>| #[trigger]
            error_tokens(events).contains(token) <==> is_error_pattern(token) && exists|j: int|
                in_severe_message(events, j, token) by {
            let all = error_tokens(events);
            let old = error_tokens(before);
            if all.contains(token) {
                let i = choose|i: int| 0 <= i < all.len() && all[i] == token;
                if i < old.len() {
                    assert(old[i] == token);
                    assert(old.contains(token));
                    let j = choose|j: int| in_severe_message(before, j, token);
                    assert(before[j] == events[j]);
                    assert(in_severe_message(events, j, token));
                } else {
                    assert(here[i - old.len()] == token);
                    assert(here.contains(token));
                    assert(in_severe_message(events, n, token));
                }
            }
            if is_error_pattern(token) && exists|j: int| in_severe_message(events, j, token) {
                let j = choose|j: int| in_severe_message(events, j, token);
                if j < n {
                    assert(before[j] == events[j]);
                    assert(in_severe_message(before, j, token));
                    assert(old.contains(token));
                    let i = choose|i: int| 0 <= i < old.len() && old[i] == token;
                    assert(all[i] == token);
                } else {
                    assert(here.contains(token));
                    let i = choose|i: int| 0 <= i < here.len() && here[i] == token;
                    assert(all[old.len() + i] == token);
                }
            }
        }
    }
}

/// The error patterns are exactly the words of more than three characters,
/// one of them upper case, in the messages of the events that are errors or
/// worse; each is counted as often as it stands there.
pub proof fn lemma_error_patterns(events: Seq<Event>, token: Seq<char>)
    ensures
        has_key(analysis_of(events).error_patterns, token) <==> is_error_pattern(token)
            && exists|j: int| in_severe_message(events, j, token),
        crate::tally::count_of(analysis_of(events).error_patterns, token) == occurrences(
            error_tokens(events),
            token,
        ),
        distinct_keys(analysis_of(events).error_patterns),
{
    lemma_error_tokens(events);
    lemma_tally_of(error_tokens(events), token);
    assert(error_tokens(events).contains(token) <==> is_error_pattern(token) && exists|j: int|
        in_severe_message(events, j, token));
}

/// Whether the message `a` with the count `m` comes before the message `b`
/// with the count `n` in the ranking of the messages of the events: it is the
/// more frequent, or as frequent and the first to occur.
pub open spec fn comes_first(events: Seq<Event>, a: (Seq<char>, nat), b: (Seq<char>, nat)) -> bool {
    a.1 > b.1 || (a.1 == b.1 && first_place(messages(events), a.0) < first_place(
        messages(events),
        b.0,
    ))
}

/// The ranking of the messages holds every message of an event once, with the
/// number of events that carry it, and nothing else. The more frequent
/// message comes first, and of two equally frequent ones the one that occurs
/// first.
pub proof fn lemma_top_messages(events: Seq<Event>)
    ensures
        falling(analysis_of(events).top_messages),
        distinct_keys(analysis_of(events).top_messages),
        forall|i: int, j: int|
            0 <= i < j < analysis_of(events).top_messages.len() ==> comes_first(
                events,
                #[trigger] analysis_of(events).top_messages[i],
                #[trigger] analysis_of(events).top_messages[j],
            ),
        forall|i: int|
            0 <= i < analysis_of(events).top_messages.len() ==> {
                let pair = #[trigger] analysis_of(events).top_messages[i];
                &&& pair.1 == occurrences(messages(events), pair.0)
                &&& pair.1 >= 1
            },
        forall|j: int|
            0 <= j < events.len() ==> has_key(
                analysis_of(events).top_messages,
                (#[trigger] events[j]).message,
            ),
{
    let keys = messages(events);
    let counts = tally_of(keys);
    let top = ranked(counts);
    lemma_ranked(counts);
    lemma_tally_of(keys, Seq::empty());
    lemma_ranked_order(counts);
    assert(analysis_of(events).top_messages == top);
    assert forall|i: int, j: int| 0 <= i < j < top.len() implies comes_first(
        events,
        #[trigger] top[i],
        #[trigger] top[j],
    ) by {
        assert(ranks_before(counts, top[i], top[j]));
        assert(counts.contains(top[i]) && counts.contains(top[j]));
        let ki = choose|k: int| 0 <= k < counts.len() && counts[k] == top[i];
        let kj = choose|k: int| 0 <= k < counts.len() && counts[k] == top[j];
        lemma_tally_entries(keys, ki);
        lemma_tally_entries(keys, kj);
        lemma_tally_order(keys, top[i].0, top[j].0);
    }
    assert forall|i: int| 0 <= i < top.len() implies {
        let pair = #[trigger] top[i];
        &&& pair.1 == occurrences(keys, pair.0)
        &&& pair.1 >= 1
    } by {
        assert(counts.contains(top[i]));
        let k = choose|k: int| 0 <= k < counts.len() && counts[k] == top[i];
        lemma_tally_entries(keys, k);
    }
    assert forall|j: int| 0 <= j < events.len() implies has_key(
        top,
        (#[trigger] events[j]).message,
    ) by {
        let m = events[j].message;
        assert(keys[j] == m);
        assert(keys.contains(m));
        lemma_tally_of(keys, m);
        lemma_key_index(counts, m, 0);
        let k = crate::tally::key_index(counts, m);
        assert(top.contains(counts[k]));
        let i = choose|i: int| 0 <= i < top.len() && top[i] == counts[k];
        lemma_key_index(top, m, 0);
        if crate::tally::key_index(top, m) >= top.len() {
            assert(top[i].0 != m);
        }
    }
}

/// A log without characters has no events, and its analysis is empty.
pub proof fn lemma_empty_log()
    ensures
        events_of(Seq::empty()) == Seq::<Event>::empty(),
        analysis_of(events_of(Seq::empty())) == (Analysis {
            total_entries: 0,
            level_distribution: LevelTally::empty(),
            time_distribution: Seq::empty(),
            error_patterns: Seq::empty(),
            top_messages: Seq::empty(),
            time_range: None,
        }),
{
    let none = Seq::<Event>::empty();
    assert(lines(Seq::<char>::empty()) == Seq::<Seq<char>>::empty());
    assert(messages(none) == Seq::<Seq<char>>::empty());
    lemma_ranked(Seq::empty());
    assert(ranked(Seq::empty()) == Seq::<(Seq<char>, nat)>::empty());
}

/// The bracketed format in terms of the parts of the line between its `]`.
/// A line that starts with `[` is taken exactly if it has at least three
/// parts. The first part, without leading `[`, is read as the time; the
/// second names the severity; the parts from the third on, joined with `]`
/// again, are the message.
pub proof fn lemma_bracketed_parts(line: Seq<char>)
    ensures
        ({
            let t = trimmed(line);
            let parts = split_at_char(t, ']');
            bracketed_event(line) == if t.len() > 0 && t[0] == '[' && parts.len() >= 3 {
                Some(
                    event(
                        timestamp_of(without_leading(parts[0], '[')),
                        level_of_token(trimmed(without_leading(trimmed(parts[1]), '['))),
                        trimmed(joined(parts.subrange(2, parts.len() as int), ']')),
                    ),
                )
            } else {
                None
            }
        }),
{
    lemma_split_in_three(trimmed(line), ']');
}


} // verus!
