use vstd::prelude::*;

use crate::timestamp::{timestamp_of, Timestamp, DATE_WIDTH, TIMESTAMP_WIDTH};

verus! {

/// A parsed log record, as the contracts see it.
pub struct EntryView {
    pub timestamp: Timestamp,
    pub level: Seq<char>,
    pub message: Seq<char>,
}

/// One log line read into its parts: when it was written, its level and its message.
#[derive(Debug)]
pub struct LogEntry {
    pub timestamp: Timestamp,
    pub level: String,
    pub message: String,
}

impl View for LogEntry {
    type V = EntryView;

    open spec fn view(&self) -> EntryView {
        EntryView { timestamp: self.timestamp, level: self.level@, message: self.message@ }
    }
}

/// `c` is a white-space character in Unicode's sense (the characters for which
/// `char::is_whitespace` holds).
pub open spec fn is_ws(c: char) -> bool {
    c == ' ' || ('\u{9}' <= c <= '\u{d}') || c == '\u{85}' || c == '\u{a0}' || c == '\u{1680}'
        || ('\u{2000}' <= c <= '\u{200a}') || c == '\u{2028}' || c == '\u{2029}' || c == '\u{202f}'
        || c == '\u{205f}' || c == '\u{3000}'
}

/// Whether `c` is white space (see `is_ws`).
pub fn is_whitespace(c: char) -> (r: bool)
    ensures
        r == is_ws(c),
{
    c == ' ' || ('\u{9}' <= c && c <= '\u{d}') || c == '\u{85}' || c == '\u{a0}' || c == '\u{1680}'
        || ('\u{2000}' <= c && c <= '\u{200a}') || c == '\u{2028}' || c == '\u{2029}' || c == '\u{202f}'
        || c == '\u{205f}' || c == '\u{3000}'
}

/// `s` has the shape of a timestamp text: the fixed width, one space after the
/// date, and no other white space.
pub open spec fn is_stamp_shape(s: Seq<char>) -> bool {
    &&& s.len() == TIMESTAMP_WIDTH
    &&& s[DATE_WIDTH as int] == ' '
    &&& forall|i: int| 0 <= i < s.len() && i != DATE_WIDTH ==> !is_ws(#[trigger] s[i])
}

/// `k` is the position of the first space in `s` at or after `from`.
pub open spec fn is_first_space(s: Seq<char>, from: int, k: int) -> bool {
    &&& from <= k < s.len()
    &&& s[k] == ' '
    &&& forall|j: int| from <= j < k ==> s[j] != ' '
}

/// `k` is where the level of `line` ends: the first space after the timestamp and
/// the space that follows it.
pub open spec fn is_level_end(line: Seq<char>, k: int) -> bool {
    is_first_space(line, TIMESTAMP_WIDTH as int + 1, k)
}

/// `s` is one whitespace-delimited token: not empty, and without white space.
pub open spec fn is_token(s: Seq<char>) -> bool {
    s.len() > 0 && forall|i: int| 0 <= i < s.len() ==> !is_ws(#[trigger] s[i])
}

/// The three fields of a line: the timestamp text that opens it, then, after one
/// space, the level up to the next space, which must be one token, and the message,
/// which is the rest of the line. `None` where the line has no room for all three.
pub open spec fn fields_of(line: Seq<char>) -> Option<(Seq<char>, Seq<char>, Seq<char>)> {
    let w = TIMESTAMP_WIDTH as int;
    if line.len() > w && line[w] == ' ' && is_stamp_shape(line.subrange(0, w)) && exists|k: int|
        is_level_end(line, k) {
        let k = choose|k: int| is_level_end(line, k);
        if is_token(line.subrange(w + 1, k)) {
            Some((line.subrange(0, w), line.subrange(w + 1, k), line.subrange(k + 1, line.len() as int)))
        } else {
            None
        }
    } else {
        None
    }
}

/// The record that `line` holds: its fields, with a timestamp text that names an
/// instant. `None` where either is missing.
pub open spec fn parse_spec(line: Seq<char>) -> Option<EntryView> {
    match fields_of(line) {
        Some(f) => match timestamp_of(f.0) {
            Some(t) => Some(EntryView { timestamp: t, level: f.1, message: f.2 }),
            None => None,
        },
        None => None,
    }
}

proof fn lemma_first_space_unique(s: Seq<char>, from: int, k1: int, k2: int)
    requires
        is_first_space(s, from, k1),
        is_first_space(s, from, k2),
    ensures
        k1 == k2,
{
}

/// Splits a line into its timestamp text, level and message (see `fields_of`),
/// without reading the timestamp.
pub fn split_line(line: &str) -> (r: Option<(String, String, String)>)
    ensures
        match (r, fields_of(line@)) {
            (Some(p), Some(f)) => p.0@ == f.0 && p.1@ == f.1 && p.2@ == f.2,
            (None, None) => true,
            _ => false,
        },
{
    let n = line.unicode_len();
    let w = TIMESTAMP_WIDTH;
    if n <= w || line.get_char(w) != ' ' || line.get_char(DATE_WIDTH) != ' ' {
        proof {
            if n > w && line@[w as int] == ' ' {
                assert(line@.subrange(0, w as int)[DATE_WIDTH as int] == line@[DATE_WIDTH as int]);
            }
        }
        return None;
    }
    let mut i: usize = 0;
    while i < w
        invariant
            i <= w < n,
            w == TIMESTAMP_WIDTH,
            n == line@.len(),
            forall|j: int| 0 <= j < i && j != DATE_WIDTH ==> !is_ws(line@[j]),
        decreases w - i,
    {
        if i != DATE_WIDTH && is_whitespace(line.get_char(i)) {
            proof {
                assert(line@.subrange(0, w as int)[i as int] == line@[i as int]);
                assert(!is_stamp_shape(line@.subrange(0, w as int)));
            }
            return None;
        }
        i = i + 1;
    }
    assert(is_stamp_shape(line@.subrange(0, w as int)));
    let mut k: usize = w + 1;
    while k < n && line.get_char(k) != ' '
        invariant
            w + 1 <= k <= n,
            w == TIMESTAMP_WIDTH,
            n == line@.len(),
            forall|j: int| w + 1 <= j < k ==> line@[j] != ' ' && !is_ws(line@[j]),
        decreases n - k,
    {
        if is_whitespace(line.get_char(k)) {
            proof {
                if exists|e: int| is_level_end(line@, e) {
                    let e = choose|e: int| is_level_end(line@, e);
                    assert(line@[k as int] != ' ');
                    assert(k < e);
                    assert(line@.subrange(w as int + 1, e)[k - w - 1] == line@[k as int]);
                    assert(!is_token(line@.subrange(w as int + 1, e)));
                }
            }
            return None;
        }
        k = k + 1;
    }
    if k == n {
        return None;
    }
    proof {
        assert(is_first_space(line@, w + 1, k as int));
        assert(is_level_end(line@, k as int));
        let c = choose|c: int| is_level_end(line@, c);
        lemma_first_space_unique(line@, w + 1, k as int, c);
    }
    if k == w + 1 {
        return None;
    }
    assert(is_token(line@.subrange(w + 1, k as int)));
    let stamp = String::from_str(line.substring_char(0, w));
    let level = String::from_str(line.substring_char(w + 1, k));
    let message = String::from_str(line.substring_char(k + 1, n));
    Some((stamp, level, message))
}

/// A line made of a timestamp text of the fixed shape, a space, a level that is
/// one token, a space and a message yields the record of exactly those parts,
/// provided the timestamp text names an instant; the record's timestamp is that
/// instant.
pub proof fn lemma_parse_well_formed(stamp: Seq<char>, level: Seq<char>, message: Seq<char>)
    requires
        is_stamp_shape(stamp),
        is_token(level),
        timestamp_of(stamp) is Some,
    ensures
        parse_spec(stamp + seq![' '] + level + seq![' '] + message) == Some(
            EntryView { timestamp: timestamp_of(stamp).unwrap(), level, message },
        ),
{
    let line = stamp + seq![' '] + level + seq![' '] + message;
    let w = TIMESTAMP_WIDTH as int;
    let k = w + 1 + level.len();
    assert(line[w] == ' ');
    assert(line[k] == ' ');
    assert forall|j: int| w + 1 <= j < k implies line[j] != ' ' by {
        assert(line[j] == level[j - w - 1]);
    }
    assert(is_level_end(line, k));
    let c = choose|c: int| is_level_end(line, c);
    lemma_first_space_unique(line, w + 1, k, c);
    assert(line.subrange(0, w) =~= stamp);
    assert(line.subrange(w + 1, k) =~= level);
    assert(line.subrange(k + 1, line.len() as int) =~= message);
}

/// A whitespace-delimited token of `s` starts at `i`.
pub open spec fn token_starts_at(s: Seq<char>, i: int) -> bool {
    !is_ws(s[i]) && (i == 0 || is_ws(s[i - 1]))
}

/// The number of whitespace-delimited tokens that start before position `n` of `s`.
pub open spec fn tokens_before(s: Seq<char>, n: int) -> nat
    decreases n,
{
    if n <= 0 {
        0
    } else {
        tokens_before(s, n - 1) + if token_starts_at(s, n - 1) { 1nat } else { 0nat }
    }
}

/// The number of whitespace-delimited tokens in `s`.
pub open spec fn token_count(s: Seq<char>) -> nat {
    tokens_before(s, s.len() as int)
}

proof fn lemma_tokens_monotone(s: Seq<char>, m: int, n: int)
    requires
        0 <= m <= n,
    ensures
        tokens_before(s, m) <= tokens_before(s, n),
    decreases n - m,
{
    if m < n {
        lemma_tokens_monotone(s, m, n - 1);
    }
}

/// A line with fewer than three whitespace-delimited tokens yields no record: a
/// record's line holds the date, the time and the level, each a token.
pub proof fn lemma_parse_needs_three_tokens(line: Seq<char>)
    requires
        token_count(line) < 3,
    ensures
        parse_spec(line) is None,
{
    if fields_of(line) is Some {
        let w = TIMESTAMP_WIDTH as int;
        let d = DATE_WIDTH as int;
        let stamp = line.subrange(0, w);
        let level = line.subrange(w + 1, choose|k: int| is_level_end(line, k));
        assert(stamp[0] == line[0] && stamp[d + 1] == line[d + 1] && stamp[d] == line[d]);
        assert(level[0] == line[w + 1]);
        assert(token_starts_at(line, 0));
        assert(token_starts_at(line, d + 1));
        assert(token_starts_at(line, w + 1));
        lemma_tokens_monotone(line, 1, d + 1);
        lemma_tokens_monotone(line, d + 2, w + 1);
        lemma_tokens_monotone(line, w + 2, line.len() as int);
    }
}

impl Clone for LogEntry {
    fn clone(&self) -> (r: LogEntry)
        ensures
            r@ == self@,
    {
        LogEntry {
            timestamp: self.timestamp,
            level: self.level.clone(),
            message: self.message.clone(),
        }
    }
}

impl LogEntry {
    /// Reads one log line `YYYY-MM-DD HH:MM:SS LEVEL MESSAGE`; `None` where the
    /// line does not have that shape, its level is not one token, or its
    /// timestamp is not a valid instant.
    pub fn parse(line: &str) -> (r: Option<LogEntry>)
        ensures
            match r {
                Some(e) => parse_spec(line@) == Some(e@),
                None => parse_spec(line@) is None,
            },
    {
        match split_line(line) {
            Some((stamp, level, message)) => match Timestamp::parse(stamp.as_str()) {
                Some(t) => Some(LogEntry { timestamp: t, level, message }),
                None => None,
            },
            None => None,
        }
    }
}

} // verus!
