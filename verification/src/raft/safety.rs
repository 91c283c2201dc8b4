//! Safety laws of the Raft decision logic, stated over the handlers' own
//! specifications.

use vstd::prelude::*;

use super::log::{
    entries_below, last_index_of, last_term_of, lemma_term_at_entries_below, lemma_term_at_push, term_at,
    LogEntryView,
};
use super::state_machine::{
    append_entries, apply_entries, entries_change_log, log_is_current, observed, request_vote, set_all,
    step_entry, RaftStateView,
};

verus! {

/// Within a term a vote, once cast, is never changed by a RequestVote; a
/// granted vote is recorded for the candidate; the term never goes back and
/// the reply carries the node's term.
pub proof fn lemma_request_vote_keeps_vote(
    s: RaftStateView,
    term: u64,
    candidate: Seq<char>,
    last_log_index: u64,
    last_log_term: u64,
)
    ensures
        ({
            let (s2, out) = request_vote(s, term, candidate, last_log_index, last_log_term);
            &&& s2.current_term >= s.current_term
            &&& out.term == s2.current_term
            &&& s2.log == s.log
            &&& (s2.current_term == s.current_term && s.voted_for is Some ==> s2.voted_for == s.voted_for)
            &&& (out.vote_granted ==> s2.voted_for == Some(candidate) && s2.current_term == term)
            &&& (out.vote_granted ==> log_is_current(s.log, last_log_index, last_log_term))
        }),
{
}

/// An AppendEntries never changes a vote cast in the node's current term
/// (stepping down within a term keeps the vote), and never moves the term back.
pub proof fn lemma_append_entries_keeps_vote(
    s: RaftStateView,
    term: u64,
    prev_log_index: u64,
    prev_log_term: u64,
    es: Seq<LogEntryView>,
    leader_commit: u64,
)
    ensures
        ({
            let (s2, out) = append_entries(s, term, prev_log_index, prev_log_term, es, leader_commit);
            &&& s2.current_term >= s.current_term
            &&& out.term == s2.current_term
            &&& (s2.current_term == s.current_term ==> s2.voted_for == s.voted_for)
        }),
{
}

/// Election safety at one node: two RequestVotes granted in the same term
/// were granted to the same candidate.
pub proof fn lemma_one_vote_per_term(
    s: RaftStateView,
    term: u64,
    c1: Seq<char>,
    i1: u64,
    t1: u64,
    c2: Seq<char>,
    i2: u64,
    t2: u64,
)
    ensures
        ({
            let (s1, o1) = request_vote(s, term, c1, i1, t1);
            let (s2, o2) = request_vote(s1, term, c2, i2, t2);
            o1.vote_granted && o2.vote_granted ==> c1 == c2
        }),
{
}

/// Election safety across a step-down: a node that granted its vote in a
/// term, then heard from that term's leader, grants no other candidate in
/// that term.
pub proof fn lemma_no_second_vote_after_step_down(
    s: RaftStateView,
    term: u64,
    c1: Seq<char>,
    i1: u64,
    t1: u64,
    prev_log_index: u64,
    prev_log_term: u64,
    es: Seq<LogEntryView>,
    leader_commit: u64,
    c2: Seq<char>,
    i2: u64,
    t2: u64,
)
    ensures
        ({
            let (s1, o1) = request_vote(s, term, c1, i1, t1);
            let (s2, a) = append_entries(s1, term, prev_log_index, prev_log_term, es, leader_commit);
            let (s3, o2) = request_vote(s2, term, c2, i2, t2);
            o1.vote_granted && o2.vote_granted ==> c1 == c2
        }),
{
}

/// A request from a stale term changes nothing and is refused: no vote, no
/// success, no timer reset, nothing to persist.
pub proof fn lemma_stale_term_changes_nothing(
    s: RaftStateView,
    term: u64,
    candidate: Seq<char>,
    last_log_index: u64,
    last_log_term: u64,
    prev_log_index: u64,
    prev_log_term: u64,
    es: Seq<LogEntryView>,
    leader_commit: u64,
)
    requires
        term < s.current_term,
    ensures
        ({
            let (s1, v) = request_vote(s, term, candidate, last_log_index, last_log_term);
            &&& s1 == s
            &&& !v.vote_granted
            &&& !v.persist_required
            &&& v.term == s.current_term
        }),
        ({
            let (s2, a) = append_entries(s, term, prev_log_index, prev_log_term, es, leader_commit);
            &&& s2 == s
            &&& !a.success
            &&& !a.reset_election_timer
            &&& !a.persist_required
            &&& a.term == s.current_term
        }),
{
}

/// Whether every entry of `es` is already held with the same term.
pub open spec fn all_held(log: Seq<LogEntryView>, es: Seq<LogEntryView>) -> bool {
    forall|i: int| 0 <= i < es.len() ==> term_at(log, (#[trigger] es[i]).index) == Some(es[i].term)
}

/// Entries that are all already held leave the log as it is.
pub proof fn lemma_held_entries_change_nothing(log: Seq<LogEntryView>, es: Seq<LogEntryView>)
    requires
        all_held(log, es),
    ensures
        apply_entries(log, es) == log,
        !entries_change_log(log, es),
    decreases es.len(),
{
    if es.len() > 0 {
        let d = es.drop_last();
        assert(all_held(log, d)) by {
            assert forall|i: int| 0 <= i < d.len() implies term_at(log, (#[trigger] d[i]).index) == Some(d[i].term) by {
                assert(d[i] == es[i]);
            }
        }
        lemma_held_entries_change_nothing(log, d);
        assert(es.last() == es[es.len() - 1]);
    }
}

/// A retransmitted AppendEntries whose entries the follower already holds
/// deletes nothing and needs no persisting.
pub proof fn lemma_duplicate_append_is_noop(
    s: RaftStateView,
    prev_log_index: u64,
    prev_log_term: u64,
    es: Seq<LogEntryView>,
    leader_commit: u64,
)
    requires
        all_held(s.log, es),
        prev_log_index == 0 || term_at(s.log, prev_log_index) == Some(prev_log_term),
    ensures
        ({
            let (s2, a) = append_entries(s, s.current_term, prev_log_index, prev_log_term, es, leader_commit);
            &&& a.success
            &&& s2.log == s.log
            &&& !a.persist_required
        }),
{
    lemma_held_entries_change_nothing(s.log, es);
}

/// Whether the indices of `es` strictly increase.
pub open spec fn strictly_increasing(es: Seq<LogEntryView>) -> bool {
    forall|i: int, j: int| 0 <= i < j < es.len() ==> (#[trigger] es[i]).index < (#[trigger] es[j]).index
}

proof fn lemma_step_entry_holds(log: Seq<LogEntryView>, e: LogEntryView, index: u64)
    ensures
        term_at(step_entry(log, e), e.index) == Some(e.term),
        index < e.index && term_at(log, index) is Some ==> term_at(step_entry(log, e), index) == term_at(log, index),
{
    lemma_term_at_push(log, e, e.index);
    lemma_term_at_push(log, e, index);
    lemma_term_at_entries_below(log, e.index, e.index);
    lemma_term_at_entries_below(log, e.index, index);
    lemma_term_at_push(entries_below(log, e.index), e, e.index);
    lemma_term_at_push(entries_below(log, e.index), e, index);
}

/// After the leader's entries are taken (in increasing index order), the
/// log holds each of them with the leader's term.
pub proof fn lemma_taken_entries_are_held(log: Seq<LogEntryView>, es: Seq<LogEntryView>)
    requires
        strictly_increasing(es),
    ensures
        all_held(apply_entries(log, es), es),
    decreases es.len(),
{
    if es.len() > 0 {
        let d = es.drop_last();
        let e = es.last();
        assert(strictly_increasing(d)) by {
            assert forall|i: int, j: int| 0 <= i < j < d.len() implies (#[trigger] d[i]).index < (#[trigger] d[j]).index by {
                assert(d[i] == es[i] && d[j] == es[j]);
            }
        }
        lemma_taken_entries_are_held(log, d);
        let before = apply_entries(log, d);
        assert forall|i: int| 0 <= i < es.len() implies term_at(apply_entries(log, es), (#[trigger] es[i]).index)
            == Some(es[i].term) by {
            if i < es.len() - 1 {
                assert(d[i] == es[i]);
                assert(term_at(before, d[i].index) == Some(d[i].term));
                lemma_step_entry_holds(before, e, es[i].index);
            } else {
                lemma_step_entry_holds(before, e, e.index);
            }
        }
    }
}

/// A successful AppendEntries with increasing indices leaves every sent
/// entry in the log, and a commit index it advances stays within both the
/// leader's commit index and the log the follower holds.
pub proof fn lemma_append_success_holds_entries(
    s: RaftStateView,
    term: u64,
    prev_log_index: u64,
    prev_log_term: u64,
    es: Seq<LogEntryView>,
    leader_commit: u64,
)
    requires
        strictly_increasing(es),
    ensures
        ({
            let (s2, a) = append_entries(s, term, prev_log_index, prev_log_term, es, leader_commit);
            &&& a.success ==> all_held(s2.log, es)
            &&& a.success && leader_commit > s.commit_index ==> s2.commit_index <= leader_commit
                && s2.commit_index <= last_index_of(s2.log)
            &&& a.success ==> a.match_index == last_index_of(s2.log)
        }),
{
    lemma_taken_entries_are_held(s.log, es);
}

/// An AppendEntries never raises the commit index past what the leader has
/// committed or past the last entry the node then holds.
pub proof fn lemma_commit_raise_bounded(
    s: RaftStateView,
    term: u64,
    prev_log_index: u64,
    prev_log_term: u64,
    es: Seq<LogEntryView>,
    leader_commit: u64,
)
    ensures
        ({
            let (s2, out) = append_entries(s, term, prev_log_index, prev_log_term, es, leader_commit);
            s2.commit_index > s.commit_index ==> {
                &&& s2.commit_index <= leader_commit
                &&& s2.commit_index <= last_index_of(s2.log)
                &&& out.success
            }
        }),
{
}

/// Taking the leader's entries changes the log exactly when it is reported
/// as changed.
proof fn lemma_change_reported_exactly(log: Seq<LogEntryView>, es: Seq<LogEntryView>)
    requires
        strictly_increasing(es),
    ensures
        entries_change_log(log, es) <==> apply_entries(log, es) != log,
    decreases es.len(),
{
    if entries_change_log(log, es) {
        if all_held(log, es) {
            lemma_held_entries_change_nothing(log, es);
        }
        let i = choose|i: int| 0 <= i < es.len() && term_at(log, (#[trigger] es[i]).index) != Some(es[i].term);
        lemma_taken_entries_are_held(log, es);
        assert(term_at(apply_entries(log, es), es[i].index) == Some(es[i].term));
    } else {
        lemma_unchanged_log_kept(log, es);
    }
}

proof fn lemma_unchanged_log_kept(log: Seq<LogEntryView>, es: Seq<LogEntryView>)
    requires
        !entries_change_log(log, es),
    ensures
        apply_entries(log, es) == log,
    decreases es.len(),
{
    if es.len() > 0 {
        lemma_unchanged_log_kept(log, es.drop_last());
    }
}

/// Persisting is asked for exactly when the term or the log changed (for
/// entries with increasing indices).
pub proof fn lemma_persist_exactly_on_change(
    s: RaftStateView,
    term: u64,
    prev_log_index: u64,
    prev_log_term: u64,
    es: Seq<LogEntryView>,
    leader_commit: u64,
)
    requires
        strictly_increasing(es),
    ensures
        ({
            let (s2, out) = append_entries(s, term, prev_log_index, prev_log_term, es, leader_commit);
            out.persist_required == (s2.current_term != s.current_term || s2.log != s.log)
        }),
{
    lemma_change_reported_exactly(observed(s, term).log, es);
}

/// Whether the log holds the indices `1..=n` in order.
pub open spec fn indexed_from_one(log: Seq<LogEntryView>) -> bool {
    forall|i: int| 0 <= i < log.len() ==> (#[trigger] log[i]).index == i + 1
}

/// Whether the entries carry the consecutive indices `after + 1, after + 2, ...`.
pub open spec fn consecutive_after(es: Seq<LogEntryView>, after: u64) -> bool {
    forall|i: int| 0 <= i < es.len() ==> (#[trigger] es[i]).index == after + 1 + i
}

/// Whether no entry disagrees with a term the log holds at its index.
pub open spec fn no_conflict(log: Seq<LogEntryView>, es: Seq<LogEntryView>) -> bool {
    forall|i: int| 0 <= i < es.len() ==> (term_at(log, (#[trigger] es[i]).index) is None || term_at(log, es[i].index)
        == Some(es[i].term))
}

proof fn lemma_term_at_indexed(log: Seq<LogEntryView>, idx: u64)
    requires
        indexed_from_one(log),
    ensures
        term_at(log, idx) == (if 1 <= idx <= log.len() {
            Some(log[idx - 1].term)
        } else {
            None::<u64>
        }),
    decreases log.len(),
{
    if log.len() > 0 {
        let d = log.drop_last();
        assert(indexed_from_one(d)) by {
            assert forall|i: int| 0 <= i < d.len() implies (#[trigger] d[i]).index == i + 1 by {
                assert(d[i] == log[i]);
            }
        }
        lemma_term_at_indexed(d, idx);
        assert(log.last() == log[log.len() - 1]);
        if 1 <= idx <= d.len() {
            assert(d[idx - 1] == log[idx - 1]);
        }
    }
}

proof fn lemma_entries_below_indexed(log: Seq<LogEntryView>, cut: u64)
    requires
        indexed_from_one(log),
        cut >= 1,
        cut - 1 <= log.len(),
    ensures
        entries_below(log, cut) == log.take(cut - 1),
    decreases log.len(),
{
    if log.len() > 0 {
        let d = log.drop_last();
        assert(indexed_from_one(d)) by {
            assert forall|i: int| 0 <= i < d.len() implies (#[trigger] d[i]).index == i + 1 by {
                assert(d[i] == log[i]);
            }
        }
        assert(log.last() == log[log.len() - 1]);
        if cut - 1 == log.len() {
            lemma_entries_below_all(d, cut);
            assert(d.push(log.last()) =~= log);
            assert(log.take(cut - 1) =~= log);
        } else {
            lemma_entries_below_indexed(d, cut);
            assert(d.take(cut - 1) =~= log.take(cut - 1));
        }
    } else {
        assert(log.take(0) =~= log);
    }
}

proof fn lemma_entries_below_all(log: Seq<LogEntryView>, cut: u64)
    requires
        indexed_from_one(log),
        log.len() < cut,
    ensures
        entries_below(log, cut) == log,
    decreases log.len(),
{
    if log.len() > 0 {
        let d = log.drop_last();
        assert(indexed_from_one(d)) by {
            assert forall|i: int| 0 <= i < d.len() implies (#[trigger] d[i]).index == i + 1 by {
                assert(d[i] == log[i]);
            }
        }
        lemma_entries_below_all(d, cut);
        assert(log.last() == log[log.len() - 1]);
        assert(d.push(log.last()) =~= log);
    }
}

/// One entry whose index is at most one past the end keeps the log indexed
/// from one, keeps everything below its index, and leaves the log at least
/// as long as its index.
proof fn lemma_step_indexed(log: Seq<LogEntryView>, e: LogEntryView)
    requires
        indexed_from_one(log),
        1 <= e.index <= log.len() + 1,
    ensures
        indexed_from_one(step_entry(log, e)),
        step_entry(log, e).len() >= e.index,
        step_entry(log, e).take(e.index - 1) == log.take(e.index - 1),
        term_at(log, e.index) == Some(e.term) ==> step_entry(log, e) == log,
        e.index == log.len() + 1 ==> step_entry(log, e) == log.push(e),
{
    lemma_term_at_indexed(log, e.index);
    let r = step_entry(log, e);
    if e.index <= log.len() {
        if log[e.index - 1].term != e.term {
            lemma_entries_below_indexed(log, e.index);
            let cut = log.take(e.index - 1);
            assert(r == cut.push(e));
            assert forall|i: int| 0 <= i < r.len() implies (#[trigger] r[i]).index == i + 1 by {
                if i < cut.len() {
                    assert(r[i] == log[i]);
                }
            }
            assert(r.take(e.index - 1) =~= cut);
        } else {
            assert(r == log);
        }
    } else {
        assert(r == log.push(e));
        assert forall|i: int| 0 <= i < r.len() implies (#[trigger] r[i]).index == i + 1 by {
            if i < log.len() {
                assert(r[i] == log[i]);
            }
        }
        assert(r.take(e.index - 1) =~= log.take(e.index - 1));
    }
}

proof fn lemma_apply_indexed(log: Seq<LogEntryView>, es: Seq<LogEntryView>, after: u64)
    requires
        indexed_from_one(log),
        after <= log.len(),
        consecutive_after(es, after),
    ensures
        indexed_from_one(apply_entries(log, es)),
        apply_entries(log, es).len() >= after + es.len(),
        apply_entries(log, es).take(after as int) == log.take(after as int),
        no_conflict(log, es) ==> apply_entries(log, es).len() >= log.len() && apply_entries(log, es).take(
            log.len() as int,
        ) == log,
    decreases es.len(),
{
    if es.len() == 0 {
        assert(log.take(log.len() as int) =~= log);
    } else {
        let d = es.drop_last();
        let e = es.last();
        assert(consecutive_after(d, after)) by {
            assert forall|i: int| 0 <= i < d.len() implies (#[trigger] d[i]).index == after + 1 + i by {
                assert(d[i] == es[i]);
            }
        }
        assert(no_conflict(log, es) ==> no_conflict(log, d)) by {
            if no_conflict(log, es) {
                assert forall|i: int| 0 <= i < d.len() implies (term_at(log, (#[trigger] d[i]).index) is None
                    || term_at(log, d[i].index) == Some(d[i].term)) by {
                    assert(d[i] == es[i]);
                }
            }
        }
        lemma_apply_indexed(log, d, after);
        let a = apply_entries(log, d);
        assert(e == es[es.len() - 1]);
        assert(e.index == after + es.len());
        lemma_step_indexed(a, e);
        let r = step_entry(a, e);
        assert(r.take(after as int) =~= r.take(e.index - 1).take(after as int));
        assert(a.take(after as int) =~= a.take(e.index - 1).take(after as int));
        if no_conflict(log, es) {
            let n = log.len() as int;
            if e.index <= n {
                lemma_term_at_indexed(log, e.index);
                lemma_term_at_indexed(a, e.index);
                assert(a.take(n)[e.index - 1] == a[e.index - 1]);
                assert(term_at(a, e.index) == term_at(log, e.index));
                assert(r == a);
            } else {
                assert(r.take(n) =~= r.take(e.index - 1).take(n));
                assert(a.take(n) =~= a.take(e.index - 1).take(n));
            }
        }
    }
}

/// The shape of a successful AppendEntries: on a log holding indices `1..=n`
/// in order, entries with consecutive indices after the matching previous
/// entry are taken so that the log still holds `1..=n'` in order, every
/// entry at or below the previous index stays, every sent entry is held
/// with the leader's term, and when no sent entry conflicts with the log,
/// every entry the log held stays.
pub proof fn lemma_append_keeps_log_shape(
    s: RaftStateView,
    term: u64,
    prev_log_index: u64,
    prev_log_term: u64,
    es: Seq<LogEntryView>,
    leader_commit: u64,
)
    requires
        indexed_from_one(s.log),
        consecutive_after(es, prev_log_index),
        term >= s.current_term,
        prev_log_index == 0 || term_at(s.log, prev_log_index) == Some(prev_log_term),
    ensures
        ({
            let (s2, out) = append_entries(s, term, prev_log_index, prev_log_term, es, leader_commit);
            &&& out.success
            &&& indexed_from_one(s2.log)
            &&& forall|i: u64| i <= prev_log_index ==> #[trigger] term_at(s2.log, i) == term_at(s.log, i)
            &&& all_held(s2.log, es)
            &&& no_conflict(s.log, es) ==> forall|i: u64|
                (#[trigger] term_at(s.log, i)) is Some ==> term_at(s2.log, i) == term_at(s.log, i)
        }),
{
    let log = s.log;
    lemma_term_at_indexed(log, prev_log_index);
    assert(prev_log_index <= log.len());
    lemma_apply_indexed(log, es, prev_log_index);
    let a = apply_entries(log, es);
    assert(strictly_increasing(es));
    lemma_taken_entries_are_held(log, es);
    assert forall|i: u64| i <= prev_log_index implies #[trigger] term_at(a, i) == term_at(log, i) by {
        lemma_term_at_indexed(log, i);
        lemma_term_at_indexed(a, i);
        if 1 <= i {
            assert(a.take(prev_log_index as int)[i - 1] == a[i - 1]);
            assert(log.take(prev_log_index as int)[i - 1] == log[i - 1]);
        }
    }
    if no_conflict(log, es) {
        assert forall|i: u64| (#[trigger] term_at(log, i)) is Some implies term_at(a, i) == term_at(log, i) by {
            lemma_term_at_indexed(log, i);
            lemma_term_at_indexed(a, i);
            assert(a.take(log.len() as int)[i - 1] == a[i - 1]);
        }
    }
}

/// Setting every listed peer: each listed peer maps to `value`, and every
/// other key keeps what it had (present or absent).
pub proof fn lemma_set_all_pointwise(m: Map<Seq<char>, u64>, peers: Seq<String>, value: u64)
    ensures
        forall|i: int| 0 <= i < peers.len() ==> set_all(m, peers, value).contains_key((#[trigger] peers[i])@)
            && set_all(m, peers, value)[peers[i]@] == value,
        forall|k: Seq<char>|
            (forall|i: int| 0 <= i < peers.len() ==> (#[trigger] peers[i])@ != k) ==> (#[trigger] set_all(
                m,
                peers,
                value,
            ).contains_key(k) == m.contains_key(k)),
        forall|k: Seq<char>|
            (forall|i: int| 0 <= i < peers.len() ==> (#[trigger] peers[i])@ != k) && m.contains_key(k) ==> #[trigger] set_all(
                m,
                peers,
                value,
            )[k] == m[k],
    decreases peers.len(),
{
    if peers.len() > 0 {
        let d = peers.drop_last();
        let last = peers[peers.len() - 1];
        assert(peers.last() == last);
        lemma_set_all_pointwise(m, d, value);
        assert forall|i: int| 0 <= i < peers.len() implies set_all(m, peers, value).contains_key((#[trigger] peers[i])@)
            && set_all(m, peers, value)[peers[i]@] == value by {
            if i < d.len() {
                assert(d[i] == peers[i]);
            }
        }
        assert forall|k: Seq<char>|
            (forall|i: int| 0 <= i < peers.len() ==> (#[trigger] peers[i])@ != k) implies (#[trigger] set_all(
                m,
                peers,
                value,
            ).contains_key(k) == m.contains_key(k)) by {
            assert forall|i: int| 0 <= i < d.len() implies (#[trigger] d[i])@ != k by {
                assert(d[i] == peers[i]);
            }
            assert(last@ != k);
            assert(set_all(m, d, value).contains_key(k) == m.contains_key(k));
        }
        assert forall|k: Seq<char>|
            (forall|i: int| 0 <= i < peers.len() ==> (#[trigger] peers[i])@ != k) && m.contains_key(k) implies #[trigger] set_all(
                m,
                peers,
                value,
            )[k] == m[k] by {
            assert forall|i: int| 0 <= i < d.len() implies (#[trigger] d[i])@ != k by {
                assert(d[i] == peers[i]);
            }
            assert(last@ != k);
            assert(set_all(m, d, value)[k] == m[k]);
        }
    }
}

/// The commit index moves only when the leader's is ahead of ours: any
/// AppendEntries with `leader_commit` at or below our commit index leaves it
/// as it is, and when it moves it goes to the leader's commit index or to
/// the last entry we hold, whichever is smaller. It can only go down when the
/// log itself was cut below it by a conflicting entry; with a log that keeps
/// every entry up to the commit index it never goes down.
pub proof fn lemma_commit_moves_only_forward(
    s: RaftStateView,
    term: u64,
    prev_log_index: u64,
    prev_log_term: u64,
    es: Seq<LogEntryView>,
    leader_commit: u64,
)
    ensures
        ({
            let (s2, out) = append_entries(s, term, prev_log_index, prev_log_term, es, leader_commit);
            &&& leader_commit <= s.commit_index ==> s2.commit_index == s.commit_index
            &&& s2.commit_index != s.commit_index ==> {
                &&& leader_commit > s.commit_index
                &&& out.success
                &&& (s2.commit_index == leader_commit || s2.commit_index == last_index_of(s2.log))
                &&& s2.commit_index <= leader_commit
                &&& s2.commit_index <= last_index_of(s2.log)
            }
            &&& s2.commit_index < s.commit_index ==> last_index_of(s2.log) < s.commit_index
        }),
{
}

/// A vote goes only to a candidate whose log is at least as up to date as
/// ours: its last term is higher than our last term, or equal to it with a
/// last index at least ours. A candidate with our last term and a shorter log
/// is refused.
pub proof fn lemma_vote_needs_current_log(
    s: RaftStateView,
    term: u64,
    candidate: Seq<char>,
    last_log_index: u64,
    last_log_term: u64,
)
    ensures
        ({
            let (s2, out) = request_vote(s, term, candidate, last_log_index, last_log_term);
            &&& out.vote_granted ==> (last_log_term > last_term_of(s.log) || (last_log_term == last_term_of(s.log)
                && last_log_index >= last_index_of(s.log)))
            &&& last_log_term < last_term_of(s.log) ==> !out.vote_granted
            &&& last_log_term == last_term_of(s.log) && last_log_index < last_index_of(s.log) ==> !out.vote_granted
        }),
{
}

} // verus!
