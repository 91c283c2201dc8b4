//! The replicated log: entries in arrival order, looked up by their Raft index.

use vstd::prelude::*;
use vstd::slice::slice_to_vec;

verus! {

/// One log entry.
#[derive(Clone, Debug, PartialEq)]
pub struct LogEntry {
    pub index: u64,
    pub term: u64,
    pub command: Vec<u8>,
}

/// The mathematical value of a log entry.
pub struct LogEntryView {
    pub index: u64,
    pub term: u64,
    pub command: Seq<u8>,
}

impl View for LogEntry {
    type V = LogEntryView;

    open spec fn view(&self) -> LogEntryView {
        LogEntryView { index: self.index, term: self.term, command: self.command@ }
    }
}

impl LogEntry {
    /// A copy of the entry with the same index, term and command bytes.
    pub fn copy(&self) -> (e: LogEntry)
        ensures
            e@ == self@,
    {
        LogEntry { index: self.index, term: self.term, command: slice_to_vec(self.command.as_slice()) }
    }
}

/// Index of the last entry, 0 for an empty log.
pub open spec fn last_index_of(s: Seq<LogEntryView>) -> u64 {
    if s.len() == 0 {
        0
    } else {
        s.last().index
    }
}

/// Term of the last entry, 0 for an empty log.
pub open spec fn last_term_of(s: Seq<LogEntryView>) -> u64 {
    if s.len() == 0 {
        0
    } else {
        s.last().term
    }
}

/// The term of the first entry that carries `index`, if any.
pub open spec fn term_at(s: Seq<LogEntryView>, index: u64) -> Option<u64>
    decreases s.len(),
{
    if s.len() == 0 {
        None
    } else {
        match term_at(s.drop_last(), index) {
            Some(t) => Some(t),
            None => if s.last().index == index {
                Some(s.last().term)
            } else {
                None
            },
        }
    }
}

/// The entries whose index is below `cut`, in order.
pub open spec fn entries_below(s: Seq<LogEntryView>, cut: u64) -> Seq<LogEntryView>
    decreases s.len(),
{
    if s.len() == 0 {
        s
    } else {
        let rest = entries_below(s.drop_last(), cut);
        if s.last().index < cut {
            rest.push(s.last())
        } else {
            rest
        }
    }
}

/// The entries whose index is at least `from`, in order.
pub open spec fn entries_at_or_after(s: Seq<LogEntryView>, from: u64) -> Seq<LogEntryView>
    decreases s.len(),
{
    if s.len() == 0 {
        s
    } else {
        let rest = entries_at_or_after(s.drop_last(), from);
        if s.last().index >= from {
            rest.push(s.last())
        } else {
            rest
        }
    }
}

/// Looking an index up in a log with one more entry: the earlier entries win.
pub proof fn lemma_term_at_push(s: Seq<LogEntryView>, e: LogEntryView, index: u64)
    ensures
        term_at(s.push(e), index) == (match term_at(s, index) {
            Some(t) => Some(t),
            None => if e.index == index {
                Some(e.term)
            } else {
                None
            },
        }),
{
    assert(s.push(e).drop_last() =~= s);
}

/// An index found in a prefix is found, with the same term, in the whole log.
pub proof fn lemma_term_at_prefix(s: Seq<LogEntryView>, n: int, index: u64)
    requires
        0 <= n <= s.len(),
        term_at(s.take(n), index) is Some,
    ensures
        term_at(s, index) == term_at(s.take(n), index),
    decreases s.len() - n,
{
    if n == s.len() {
        assert(s.take(n) =~= s);
    } else {
        let d = s.drop_last();
        assert(d.take(n) =~= s.take(n));
        lemma_term_at_prefix(d, n, index);
    }
}

/// Cutting the log at `cut` keeps every lookup below the cut and forgets
/// every index at or above it.
pub proof fn lemma_term_at_entries_below(s: Seq<LogEntryView>, cut: u64, index: u64)
    ensures
        term_at(entries_below(s, cut), index) == (if index < cut {
            term_at(s, index)
        } else {
            None
        }),
    decreases s.len(),
{
    if s.len() > 0 {
        let d = s.drop_last();
        lemma_term_at_entries_below(d, cut, index);
        if s.last().index < cut {
            lemma_term_at_push(entries_below(d, cut), s.last(), index);
        }
    }
}

/// The log of a node.
pub struct RaftLog {
    entries: Vec<LogEntry>,
}

impl View for RaftLog {
    type V = Seq<LogEntryView>;

    closed spec fn view(&self) -> Seq<LogEntryView> {
        self.entries@.map_values(|e: LogEntry| e@)
    }
}

impl RaftLog {
    /// An empty log.
    pub fn new() -> (l: RaftLog)
        ensures
            l@ == Seq::<LogEntryView>::empty(),
    {
        let l = RaftLog { entries: Vec::new() };
        assert(l@ =~= Seq::<LogEntryView>::empty());
        l
    }

    /// Index of the last entry, 0 when empty.
    pub fn last_index(&self) -> (i: u64)
        ensures
            i == last_index_of(self@),
    {
        let n = self.entries.len();
        if n == 0 {
            0
        } else {
            self.entries[n - 1].index
        }
    }

    /// Term of the last entry, 0 when empty.
    pub fn last_term(&self) -> (t: u64)
        ensures
            t == last_term_of(self@),
    {
        let n = self.entries.len();
        if n == 0 {
            0
        } else {
            self.entries[n - 1].term
        }
    }

    /// The term of the first entry with `index`, if any.
    pub fn term_at(&self, index: u64) -> (t: Option<u64>)
        ensures
            t == term_at(self@, index),
    {
        let n = self.entries.len();
        let mut k: usize = 0;
        while k < n
            invariant
                n == self.entries@.len(),
                n == self@.len(),
                k <= n,
                term_at(self@.take(k as int), index) == None::<u64>,
            decreases n - k,
        {
            assert(self@.take(k + 1).drop_last() =~= self@.take(k as int));
            if self.entries[k].index == index {
                proof {
                    lemma_term_at_prefix(self@, k + 1, index);
                }
                return Some(self.entries[k].term);
            }
            k = k + 1;
        }
        assert(self@.take(n as int) =~= self@);
        None
    }

    /// Appends an entry at the end.
    pub fn append(&mut self, entry: LogEntry)
        ensures
            final(self)@ == old(self)@.push(entry@),
    {
        self.entries.push(entry);
        assert(self@ =~= old(self)@.push(entry@));
    }

    /// Drops every entry whose index is at or above `index`, keeping the order
    /// of the others.
    pub fn truncate_from(&mut self, index: u64)
        ensures
            final(self)@ == entries_below(old(self)@, index),
    {
        let ghost s = self@;
        let n = self.entries.len();
        let mut kept: Vec<LogEntry> = Vec::new();
        let mut k: usize = 0;
        while k < n
            invariant
                s == self@,
                n == self.entries@.len(),
                n == s.len(),
                k <= n,
                kept@.map_values(|e: LogEntry| e@) == entries_below(s.take(k as int), index),
            decreases n - k,
        {
            assert(s.take(k + 1).drop_last() =~= s.take(k as int));
            if self.entries[k].index < index {
                kept.push(self.entries[k].copy());
            }
            assert(kept@.map_values(|e: LogEntry| e@) =~= entries_below(s.take(k + 1), index));
            k = k + 1;
        }
        assert(s.take(n as int) =~= s);
        self.entries = kept;
    }

    /// Copies of the entries whose index is at least `index`, in order.
    pub fn entries_from(&self, index: u64) -> (v: Vec<LogEntry>)
        ensures
            v@.map_values(|e: LogEntry| e@) == entries_at_or_after(self@, index),
    {
        let n = self.entries.len();
        let mut out: Vec<LogEntry> = Vec::new();
        let mut k: usize = 0;
        while k < n
            invariant
                n == self.entries@.len(),
                n == self@.len(),
                k <= n,
                out@.map_values(|e: LogEntry| e@) == entries_at_or_after(self@.take(k as int), index),
            decreases n - k,
        {
            assert(self@.take(k + 1).drop_last() =~= self@.take(k as int));
            if self.entries[k].index >= index {
                out.push(self.entries[k].copy());
            }
            assert(out@.map_values(|e: LogEntry| e@) =~= entries_at_or_after(self@.take(k + 1), index));
            k = k + 1;
        }
        assert(self@.take(n as int) =~= self@);
        out
    }
}

} // verus!
