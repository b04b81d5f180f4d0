//! The tab store: filter modes, line records, and per-tab unread counters.

use std::collections::VecDeque;
use vstd::prelude::*;
use vstd::string::StrSliceExecFns;

verus! {

/// Capacity of each tab's line buffer; inserting beyond it evicts the oldest record.
pub const MAX_STORED_LINES_PER_TAB: usize = 5000;

/// `pat` occurs in `text` starting at character position `i`.
pub open spec fn contains_at(text: Seq<char>, pat: Seq<char>, i: int) -> bool {
    &&& 0 <= i
    &&& i + pat.len() <= text.len()
    &&& text.subrange(i, i + pat.len() as int) == pat
}

/// `pat` occurs somewhere in `text` as a contiguous run of characters.
pub open spec fn contains_seq(text: Seq<char>, pat: Seq<char>) -> bool {
    exists|i: int| contains_at(text, pat, i)
}

/// The characters of `text` from `i` on are exactly `pat`.
fn match_at(text: &str, pat: &str, i: usize) -> (r: bool)
    requires
        i + pat@.len() <= text@.len(),
    ensures
        r == (text@.subrange(i as int, i + pat@.len() as int) == pat@),
{
    let n = text.unicode_len();
    let m = pat.unicode_len();
    let mut j: usize = 0;
    while j < m
        invariant
            n == text@.len(),
            m == pat@.len(),
            i + m <= n,
            j <= m,
            forall|t: int| 0 <= t < j ==> text@[i + t] == pat@[t],
        decreases m - j,
    {
        if text.get_char(i + j) != pat.get_char(j) {
            proof {
                assert(text@.subrange(i as int, i + m as int)[j as int] == text@[i + j]);
            }
            return false;
        }
        j += 1;
    }
    proof {
        assert forall|k: int| 0 <= k < m implies text@.subrange(i as int, i + m as int)[k]
            == pat@[k] by {
            assert(text@[i + k] == pat@[k]);
        }
        assert(text@.subrange(i as int, i + m as int) =~= pat@);
    }
    true
}

/// Literal substring test: true iff `pat@` is a contiguous subsequence of `text@`.
pub fn contains_substring(text: &str, pat: &str) -> (r: bool)
    ensures
        r == contains_seq(text@, pat@),
{
    let n = text.unicode_len();
    let m = pat.unicode_len();
    if m > n {
        assert(forall|i: int| !contains_at(text@, pat@, i));
        return false;
    }
    if m == 0 {
        proof {
            lemma_empty_pattern_matches_all(text@, pat@);
        }
        return true;
    }
    let mut i: usize = 0;
    while i <= n - m
        invariant
            1 <= m <= n,
            n == text@.len(),
            m == pat@.len(),
            i <= n - m + 1,
            forall|k: int| 0 <= k < i ==> !contains_at(text@, pat@, k),
        decreases n - m + 1 - i,
    {
        if match_at(text, pat, i) {
            assert(contains_at(text@, pat@, i as int));
            return true;
        }
        i += 1;
    }
    assert(forall|k: int| i <= k ==> !contains_at(text@, pat@, k));
    false
}

/// How one marking step moves `seen_matches`: up to `cutoff`, capped at
/// `total`, and never backward.
pub open spec fn seen_after_mark(seen: u64, total: u64, cutoff: u64) -> u64 {
    let capped = if cutoff < total {
        cutoff
    } else {
        total
    };
    if capped > seen {
        capped
    } else {
        seen
    }
}

/// A tab's filter: accept every line, or accept lines containing a literal pattern.
#[derive(Debug)]
pub enum MatchMode {
    All,
    Contains(String),
}

impl MatchMode {
    /// Which lines this filter accepts: every line for `All`, lines with the
    /// pattern as a contiguous substring for `Contains`.
    pub open spec fn spec_matches(&self, line: Seq<char>) -> bool {
        match self {
            MatchMode::All => true,
            MatchMode::Contains(pat) => contains_seq(line, pat@),
        }
    }
}

/// One buffered input line: the global arrival index and the line's text.
#[derive(Debug, Clone, PartialEq, Eq)]
pub struct LineRecord {
    pub seq: u64,
    pub text: String,
}

/// How one appended record relates a tab's old buffer to its new one: the
/// record goes on the back, and when the buffer was full the front is evicted.
pub open spec fn pushed_record(
    old_buf: Seq<LineRecord>,
    new_buf: Seq<LineRecord>,
    seq: u64,
    text: Seq<char>,
) -> bool {
    &&& new_buf.len() == if old_buf.len() < MAX_STORED_LINES_PER_TAB {
        old_buf.len() + 1
    } else {
        MAX_STORED_LINES_PER_TAB as nat
    }
    &&& new_buf.last().seq == seq
    &&& new_buf.last().text@ == text
    &&& new_buf.drop_last() == if old_buf.len() < MAX_STORED_LINES_PER_TAB {
        old_buf
    } else {
        old_buf.drop_first()
    }
}

/// One view onto the stream: a filter, a bounded history of matching lines,
/// and the counters behind the unread badge.
#[derive(Debug)]
pub struct Tab {
    pub label: String,
    pub mode: MatchMode,
    pub lines: VecDeque<LineRecord>,
    pub total_matches: u64,
    pub seen_matches: u64,
}

impl Tab {
    /// Well-formedness: the unread counters never cross and the buffer never
    /// exceeds its capacity.
    pub open spec fn inv(&self) -> bool {
        &&& self.seen_matches <= self.total_matches
        &&& self.lines@.len() <= MAX_STORED_LINES_PER_TAB
    }

    /// Matches yet to be acknowledged: `total_matches - seen_matches`, never negative.
    pub open spec fn spec_unread(&self) -> u64 {
        if self.seen_matches <= self.total_matches {
            (self.total_matches - self.seen_matches) as u64
        } else {
            0u64
        }
    }

    /// A tab that accepts lines containing `filter`, labeled with the filter itself.
    pub fn new(filter: String) -> (t: Tab)
        ensures
            t.inv(),
            t.label@ == filter@,
            t.mode matches MatchMode::Contains(pat) && pat@ == filter@,
            t.lines@.len() == 0,
            t.total_matches == 0,
            t.seen_matches == 0,
    {
        let label = filter.clone();
        Tab {
            label,
            mode: MatchMode::Contains(filter),
            lines: VecDeque::new(),
            total_matches: 0,
            seen_matches: 0,
        }
    }

    /// The synthetic first tab: accepts every line, labeled `"(all)"`.
    pub fn unfiltered() -> (t: Tab)
        ensures
            t.inv(),
            t.mode is All,
            t.label@.len() == 5,
            t.lines@.len() == 0,
            t.total_matches == 0,
            t.seen_matches == 0,
    {
        proof {
            reveal_strlit("(all)");
        }
        Tab {
            label: "(all)".to_owned(),
            mode: MatchMode::All,
            lines: VecDeque::new(),
            total_matches: 0,
            seen_matches: 0,
        }
    }

    /// Append a matching line and count it; evict the oldest record when the
    /// buffer is over capacity. Never touches `seen_matches`, so the unread
    /// count of an inactive or paused tab only grows.
    pub fn push_line(&mut self, seq: u64, line: &str)
        requires
            old(self).inv(),
            old(self).total_matches < u64::MAX,
        ensures
            final(self).inv(),
            final(self).total_matches == old(self).total_matches + 1,
            final(self).seen_matches == old(self).seen_matches,
            final(self).label == old(self).label,
            final(self).mode == old(self).mode,
            pushed_record(old(self).lines@, final(self).lines@, seq, line@),
    {
        self.lines.push_back(LineRecord { seq, text: line.to_owned() });
        self.total_matches = self.total_matches + 1;
        if self.lines.len() > MAX_STORED_LINES_PER_TAB {
            let _ = self.lines.pop_front();
        }
        proof {
            assert(self.lines@.drop_last() =~= if old(self).lines@.len()
                < MAX_STORED_LINES_PER_TAB {
                old(self).lines@
            } else {
                old(self).lines@.drop_first()
            });
        }
    }

    /// The unread badge value: matches counted but not yet marked seen.
    pub fn unread_matches(&self) -> (r: u64)
        ensures
            r == self.spec_unread(),
    {
        self.total_matches.saturating_sub(self.seen_matches)
    }

    /// Advance `seen_matches` to `max_match_index`, capped at `total_matches`;
    /// never moves it backward.
    pub fn mark_seen_through(&mut self, max_match_index: u64)
        ensures
            final(self).seen_matches == seen_after_mark(
                old(self).seen_matches,
                old(self).total_matches,
                max_match_index,
            ),
            final(self).seen_matches >= old(self).seen_matches,
            final(self).total_matches == old(self).total_matches,
            final(self).label == old(self).label,
            final(self).mode == old(self).mode,
            final(self).lines == old(self).lines,
            old(self).inv() ==> final(self).inv(),
    {
        let capped = if max_match_index < self.total_matches {
            max_match_index
        } else {
            self.total_matches
        };
        if capped > self.seen_matches {
            self.seen_matches = capped;
        }
    }

    /// Whether this tab's filter accepts `line`.
    pub fn matches(&self, line: &str) -> (r: bool)
        ensures
            r == self.mode.spec_matches(line@),
    {
        match &self.mode {
            MatchMode::All => true,
            MatchMode::Contains(filter) => contains_substring(line, filter.as_str()),
        }
    }
}

/// The empty pattern is a substring of every line, so a filter on it accepts
/// everything.
pub proof fn lemma_empty_pattern_matches_all(text: Seq<char>, pat: Seq<char>)
    requires
        pat.len() == 0,
    ensures
        contains_seq(text, pat),
{
    assert(text.subrange(0, 0) =~= pat);
    assert(contains_at(text, pat, 0));
}

} // verus!
