use vstd::prelude::*;

use crate::args::{opt_view, strings_view, Args};
use crate::log_entry::{parse_spec, EntryView, LogEntry};
use crate::timestamp::{timestamp_of, Timestamp};

verus! {

/// `hay` holds `needle` as a run of consecutive characters.
pub open spec fn seq_contains(hay: Seq<char>, needle: Seq<char>) -> bool {
    exists|i: int| 0 <= i && i + needle.len() <= hay.len() && #[trigger] hay.subrange(i, i + needle.len()) == needle
}

/// Relies on `str::contains` with a `&str` pattern: whether `needle` occurs in `hay`.
#[verifier::external_body]
fn str_contains(hay: &str, needle: &str) -> (r: bool)
    ensures
        r == seq_contains(hay@, needle@),
{
    hay.contains(needle)
}

/// The pattern condition: no pattern, or a message that contains it.
pub open spec fn pattern_holds(pattern: Option<Seq<char>>, message: Seq<char>) -> bool {
    match pattern {
        Some(p) => seq_contains(message, p),
        None => true,
    }
}

/// A time bound as the settings give it: absent (`None`), given but not a valid
/// timestamp (`Some(None)`), or an instant.
pub open spec fn bound_of(text: Option<Seq<char>>) -> Option<Option<Timestamp>> {
    match text {
        Some(s) => Some(timestamp_of(s)),
        None => None,
    }
}

/// The time condition: each bound that is given must be a valid timestamp, and `t`
/// lies between the bounds, both ends included.
pub open spec fn range_holds(from: Option<Option<Timestamp>>, to: Option<Option<Timestamp>>, t: Timestamp) -> bool {
    &&& match from {
        Some(Some(f)) => f.spec_le(t),
        Some(None) => false,
        None => true,
    }
    &&& match to {
        Some(Some(u)) => t.spec_le(u),
        Some(None) => false,
        None => true,
    }
}

/// The records of `entries`, as the contracts see them.
pub open spec fn entries_view(entries: Seq<LogEntry>) -> Seq<EntryView> {
    entries.map_values(|e: LogEntry| e@)
}

/// The records that a sequence of lines yields, in the order of the lines.
pub open spec fn parse_all(lines: Seq<Seq<char>>) -> Seq<EntryView> {
    lines.filter_map(|l: Seq<char>| parse_spec(l))
}

/// The test for one level.
pub open spec fn is_level(level: Seq<char>) -> spec_fn(Seq<char>) -> bool {
    |l: Seq<char>| l == level
}

/// How often `level` occurs in `levels`.
pub open spec fn tally(levels: Seq<Seq<char>>, level: Seq<char>) -> nat {
    levels.filter(is_level(level)).len()
}

/// The levels of `entries`, in order.
pub open spec fn levels_of(entries: Seq<EntryView>) -> Seq<Seq<char>> {
    entries.map_values(|e: EntryView| e.level)
}

/// The number of records of one level.
pub struct LevelCount {
    pub level: String,
    pub count: usize,
}

/// `counts` gives each level of `levels` exactly once, with the number of times it
/// occurs there, and no other level.
pub open spec fn is_level_tally(counts: Seq<LevelCount>, levels: Seq<Seq<char>>) -> bool {
    &&& forall|i: int, j: int| 0 <= i < j < counts.len() ==> counts[i].level@ != counts[j].level@
    &&& forall|i: int| 0 <= i < counts.len() ==> #[trigger] counts[i].count == tally(levels, counts[i].level@)
    &&& forall|i: int| 0 <= i < counts.len() ==> levels.contains(#[trigger] counts[i].level@)
    &&& forall|k: int| 0 <= k < levels.len() ==> has_level(counts, #[trigger] levels[k])
}

/// Some entry of `counts` is for `level`.
pub open spec fn has_level(counts: Seq<LevelCount>, level: Seq<char>) -> bool {
    exists|i: int| 0 <= i < counts.len() && #[trigger] counts[i].level@ == level
}

/// Runs the analysis that `args` describes.
pub struct LogAnalyzer {
    pub args: Args,
}

impl LogAnalyzer {
    pub fn new(args: Args) -> (r: LogAnalyzer)
        ensures
            r.args == args,
    {
        LogAnalyzer { args }
    }

    /// The filter that the settings describe, on one record.
    pub open spec fn admits_spec(&self, e: EntryView) -> bool {
        &&& pattern_holds(opt_view(self.args.pattern), e.message)
        &&& range_holds(bound_of(opt_view(self.args.from)), bound_of(opt_view(self.args.to)), e.timestamp)
    }

    /// Whether `entry` passes the filter: its message contains the pattern, if one
    /// is set, and its timestamp lies within the bounds that are set.
    pub fn admits(&self, entry: &LogEntry) -> (r: bool)
        ensures
            r == self.admits_spec(entry@),
    {
        let from = match &self.args.from {
            Some(s) => Some(Timestamp::parse(s.as_str())),
            None => None,
        };
        let to = match &self.args.to {
            Some(s) => Some(Timestamp::parse(s.as_str())),
            None => None,
        };
        passes_filter(entry, &self.args.pattern, from, to)
    }

    /// Reads the records that `lines` hold, in the order of the lines, and drops
    /// the lines that hold none.
    pub fn analyze_lines(&self, lines: &Vec<String>) -> (r: Vec<LogEntry>)
        ensures
            entries_view(r@) == parse_all(strings_view(lines@)),
    {
        let ghost texts = strings_view(lines@);
        let mut out: Vec<LogEntry> = Vec::new();
        let mut i: usize = 0;
        while i < lines.len()
            invariant
                i <= lines@.len(),
                texts == strings_view(lines@),
                entries_view(out@) == parse_all(texts.take(i as int)),
            decreases lines@.len() - i,
        {
            proof {
                texts.lemma_filter_map_take_succ(|l: Seq<char>| parse_spec(l), i as int);
            }
            ingest_line(&mut out, lines[i].as_str());
            i = i + 1;
        }
        assert(texts.take(lines@.len() as int) =~= texts);
        out
    }

    /// The records of `entries` that pass the filter, in their order.
    pub fn filter_entries(&self, entries: &Vec<LogEntry>) -> (r: Vec<LogEntry>)
        ensures
            entries_view(r@) == entries_view(entries@).filter(|e: EntryView| self.admits_spec(e)),
    {
        let ghost pred = |e: EntryView| self.admits_spec(e);
        let mut out: Vec<LogEntry> = Vec::new();
        let mut i: usize = 0;
        while i < entries.len()
            invariant
                i <= entries@.len(),
                entries_view(out@) == entries_view(entries@.take(i as int)).filter(pred),
                pred == (|e: EntryView| self.admits_spec(e)),
            decreases entries@.len() - i,
        {
            proof {
                assert(entries_view(entries@.take(i as int + 1)) =~= entries_view(entries@.take(i as int)).push(entries@[i as int]@));
                entries_view(entries@.take(i as int)).lemma_filter_push(entries@[i as int]@, pred);
            }
            let ghost before = out@;
            let keep = self.admits(&entries[i]);
            if keep {
                out.push(entries[i].clone());
                assert(entries_view(out@) =~= entries_view(before).push(entries@[i as int]@));
            }
            i = i + 1;
        }
        assert(entries@.take(entries@.len() as int) =~= entries@);
        out
    }
}

/// The filter on one record, with the time bounds already read (see `bound_of`).
pub fn passes_filter(
    entry: &LogEntry,
    pattern: &Option<String>,
    from: Option<Option<Timestamp>>,
    to: Option<Option<Timestamp>>,
) -> (r: bool)
    ensures
        r == (pattern_holds(opt_view(*pattern), entry.message@) && range_holds(from, to, entry.timestamp)),
{
    let pattern_ok = match pattern {
        Some(p) => str_contains(entry.message.as_str(), p.as_str()),
        None => true,
    };
    let after_from = match from {
        Some(Some(f)) => f.le(&entry.timestamp),
        Some(None) => false,
        None => true,
    };
    let before_to = match to {
        Some(Some(u)) => entry.timestamp.le(&u),
        Some(None) => false,
        None => true,
    };
    pattern_ok && after_from && before_to
}

proof fn lemma_filter_keeps_all(s: Seq<EntryView>, p: spec_fn(EntryView) -> bool)
    requires
        forall|i: int| 0 <= i < s.len() ==> p(#[trigger] s[i]),
    ensures
        s.filter(p) == s,
    decreases s.len(),
{
    reveal(Seq::filter);
    if s.len() > 0 {
        lemma_filter_keeps_all(s.drop_last(), p);
        assert(s.drop_last().push(s.last()) =~= s);
    }
}

proof fn lemma_filter_drops_all(s: Seq<EntryView>, p: spec_fn(EntryView) -> bool)
    requires
        forall|i: int| 0 <= i < s.len() ==> !p(#[trigger] s[i]),
    ensures
        s.filter(p) == Seq::<EntryView>::empty(),
    decreases s.len(),
{
    reveal(Seq::filter);
    if s.len() > 0 {
        lemma_filter_drops_all(s.drop_last(), p);
    }
}

/// With no pattern and no time bounds the filter keeps every record, in order.
pub proof fn lemma_no_filter_keeps_all(a: LogAnalyzer, entries: Seq<EntryView>)
    requires
        a.args.pattern is None,
        a.args.from is None,
        a.args.to is None,
    ensures
        entries.filter(|e: EntryView| a.admits_spec(e)) == entries,
{
    lemma_filter_keeps_all(entries, |e: EntryView| a.admits_spec(e));
}

/// With a pattern and no time bounds the filter keeps exactly the records whose
/// message contains the pattern, case and all, in order.
pub proof fn lemma_pattern_filter(a: LogAnalyzer, entries: Seq<EntryView>, pattern: Seq<char>)
    requires
        opt_view(a.args.pattern) == Some(pattern),
        a.args.from is None,
        a.args.to is None,
    ensures
        entries.filter(|e: EntryView| a.admits_spec(e)) == entries.filter(
            |e: EntryView| seq_contains(e.message, pattern),
        ),
{
    assert((|e: EntryView| a.admits_spec(e)) =~= (|e: EntryView| seq_contains(e.message, pattern)));
}

/// With no pattern and both bounds set to the same valid timestamp the filter
/// keeps exactly the records of that instant: both ends of the range are included.
pub proof fn lemma_single_instant_filter(a: LogAnalyzer, entries: Seq<EntryView>, bound: Seq<char>)
    requires
        a.args.pattern is None,
        opt_view(a.args.from) == Some(bound),
        opt_view(a.args.to) == Some(bound),
        timestamp_of(bound) is Some,
    ensures
        entries.filter(|e: EntryView| a.admits_spec(e)) == entries.filter(
            |e: EntryView| e.timestamp == timestamp_of(bound).unwrap(),
        ),
{
    assert((|e: EntryView| a.admits_spec(e)) =~= (|e: EntryView| e.timestamp == timestamp_of(bound).unwrap()));
}

/// A lower bound that is not a valid timestamp, with no upper bound, rejects
/// every record.
pub proof fn lemma_bad_from_rejects_all(a: LogAnalyzer, entries: Seq<EntryView>, bound: Seq<char>)
    requires
        opt_view(a.args.from) == Some(bound),
        timestamp_of(bound) is None,
        a.args.to is None,
    ensures
        entries.filter(|e: EntryView| a.admits_spec(e)) == Seq::<EntryView>::empty(),
{
    lemma_filter_drops_all(entries, |e: EntryView| a.admits_spec(e));
}

/// Adds the record that `line` holds, if it holds one, at the end of `entries`.
pub fn ingest_line(entries: &mut Vec<LogEntry>, line: &str)
    ensures
        entries_view(final(entries)@) == entries_view(old(entries)@) + match parse_spec(line@) {
            Some(e) => seq![e],
            None => Seq::<EntryView>::empty(),
        },
{
    let ghost before = entries@;
    match LogEntry::parse(line) {
        Some(e) => {
            entries.push(e);
            assert(entries_view(entries@) =~= entries_view(before) + seq![e@]);
        },
        None => {
            assert(entries_view(entries@) =~= entries_view(before) + Seq::<EntryView>::empty());
        },
    }
}

proof fn lemma_tally_push(levels: Seq<Seq<char>>, x: Seq<char>, k: Seq<char>)
    ensures
        tally(levels.push(x), k) == tally(levels, k) + if x == k { 1nat } else { 0nat },
{
    levels.lemma_filter_push(x, is_level(k));
}

proof fn lemma_tally_absent(levels: Seq<Seq<char>>, k: Seq<char>)
    requires
        !levels.contains(k),
    ensures
        tally(levels, k) == 0,
    decreases levels.len(),
{
    if levels.len() == 0 {
        reveal(Seq::filter);
    } else {
        let d = levels.drop_last();
        assert(levels =~= d.push(levels.last()));
        assert(!d.contains(k)) by {
            if d.contains(k) {
                let j = choose|j: int| 0 <= j < d.len() && d[j] == k;
                assert(levels[j] == k);
            }
        }
        lemma_tally_absent(d, k);
        lemma_tally_push(d, levels.last(), k);
    }
}

proof fn lemma_tally_bound(levels: Seq<Seq<char>>, k: Seq<char>)
    ensures
        tally(levels, k) <= levels.len(),
{
    levels.lemma_filter_len(is_level(k));
}

proof fn lemma_tally_extend(prev: Seq<LevelCount>, out: Seq<LevelCount>, done: Seq<Seq<char>>, x: Seq<char>, at: int)
    requires
        is_level_tally(prev, done),
        out.len() == prev.len() || (out.len() == prev.len() + 1 && at == prev.len()),
        0 <= at < out.len(),
        out[at].level@ == x,
        out[at].count == tally(done, x) + 1,
        forall|m: int| 0 <= m < prev.len() ==> #[trigger] out[m].level@ == prev[m].level@,
        forall|m: int| 0 <= m < prev.len() && m != at ==> #[trigger] out[m].count == prev[m].count,
        forall|m: int| 0 <= m < prev.len() && m != at ==> #[trigger] out[m].level@ != x,
    ensures
        is_level_tally(out, done.push(x)),
{
    let next = done.push(x);
    assert forall|a: int, b: int| 0 <= a < b < out.len() implies out[a].level@ != out[b].level@ by {
        if b < prev.len() {
            assert(out[a].level@ == prev[a].level@ && out[b].level@ == prev[b].level@);
        } else {
            assert(out[a].level@ == prev[a].level@);
        }
    }
    assert forall|m: int| 0 <= m < out.len() implies #[trigger] out[m].count == tally(next, out[m].level@) by {
        lemma_tally_push(done, x, out[m].level@);
    }
    assert forall|m: int| 0 <= m < out.len() implies next.contains(#[trigger] out[m].level@) by {
        if m == at {
            assert(next[done.len() as int] == x);
        } else {
            assert(done.contains(prev[m].level@));
            let w = choose|w: int| 0 <= w < done.len() && done[w] == prev[m].level@;
            assert(next[w] == out[m].level@);
        }
    }
    assert forall|k: int| 0 <= k < next.len() implies has_level(out, #[trigger] next[k]) by {
        if k < done.len() {
            assert(next[k] == done[k]);
            assert(has_level(prev, done[k]));
            let m = choose|m: int| 0 <= m < prev.len() && #[trigger] prev[m].level@ == done[k];
            assert(out[m].level@ == next[k]);
        } else {
            assert(out[at].level@ == next[k]);
        }
    }
}

/// Counts the records of each level in `entries`: each level that occurs there once,
/// with the number of records that carry it.
pub fn count_levels(entries: &Vec<LogEntry>) -> (r: Vec<LevelCount>)
    ensures
        is_level_tally(r@, levels_of(entries_view(entries@))),
{
    let ghost all = levels_of(entries_view(entries@));
    let mut out: Vec<LevelCount> = Vec::new();
    let mut i: usize = 0;
    while i < entries.len()
        invariant
            i <= entries@.len(),
            all == levels_of(entries_view(entries@)),
            all.len() == entries@.len(),
            is_level_tally(out@, all.take(i as int)),
        decreases entries@.len() - i,
    {
        let ghost done = all.take(i as int);
        let ghost next = all.take(i as int + 1);
        let level = &entries[i].level;
        assert(next =~= done.push(level@));
        let ghost prev = out@;
        let mut j: usize = 0;
        while j < out.len() && out[j].level != *level
            invariant
                j <= out@.len(),
                out@ == prev,
                forall|m: int| 0 <= m < j ==> out@[m].level@ != level@,
            decreases out@.len() - j,
        {
            j = j + 1;
        }
        if j < out.len() {
            proof {
                lemma_tally_bound(done, level@);
            }
            let c = out[j].count;
            let kept = out[j].level.clone();
            out.set(j, LevelCount { level: kept, count: c + 1 });
            proof {
                lemma_tally_extend(prev, out@, done, level@, j as int);
            }
        } else {
            proof {
                assert(!done.contains(level@)) by {
                    if done.contains(level@) {
                        let w = choose|w: int| 0 <= w < done.len() && done[w] == level@;
                        assert(has_level(prev, done[w]));
                    }
                }
                lemma_tally_absent(done, level@);
            }
            out.push(LevelCount { level: level.clone(), count: 1 });
            proof {
                lemma_tally_extend(prev, out@, done, level@, prev.len() as int);
            }
        }
        i = i + 1;
    }
    assert(all.take(entries@.len() as int) =~= all);
    out
}

} // verus!
