//! The Raft decision logic of one node: pure state transitions for the
//! RequestVote and AppendEntries RPCs, with no I/O. Each handler says, in its
//! outcome, whether durable state changed and must be flushed before the
//! reply is sent.

use vstd::prelude::*;

use super::log::{
    entries_below, last_index_of, last_term_of, term_at, LogEntry, LogEntryView, RaftLog,
};
use super::peers::PeerIndex;
use super::ClusterConfig;
use crate::store::EdisonError;
use crate::text::{owned, text_eq};

verus! {

/// The role a node plays in its current term.
#[derive(Clone, Copy, Debug, PartialEq, Eq, Structural)]
pub enum Role {
    Follower,
    Candidate,
    Leader,
}

/// Reply to a RequestVote.
#[derive(Clone, Copy, Debug, PartialEq, Eq, Structural)]
pub struct VoteOutcome {
    pub term: u64,
    pub vote_granted: bool,
    pub persist_required: bool,
}

/// Reply to an AppendEntries.
#[derive(Clone, Copy, Debug, PartialEq, Eq, Structural)]
pub struct AppendOutcome {
    pub term: u64,
    pub success: bool,
    pub match_index: u64,
    pub persist_required: bool,
    pub reset_election_timer: bool,
}

/// The mathematical value of a node's Raft state.
pub struct RaftStateView {
    pub role: Role,
    pub node_id: Seq<char>,
    pub current_term: u64,
    pub voted_for: Option<Seq<char>>,
    pub log: Seq<LogEntryView>,
    pub commit_index: u64,
    pub last_applied: u64,
    pub next_index: Map<Seq<char>, u64>,
    pub match_index: Map<Seq<char>, u64>,
}

/// The character view of an optional string.
pub open spec fn opt_text(o: Option<String>) -> Option<Seq<char>> {
    match o {
        Some(s) => Some(s@),
        None => None,
    }
}

/// Consensus state of one node. `current_term`, `voted_for` and `log` are the
/// durable part; the rest is volatile.
pub struct RaftState {
    pub role: Role,
    pub node_id: String,
    pub current_term: u64,
    pub voted_for: Option<String>,
    pub log: RaftLog,
    pub commit_index: u64,
    pub last_applied: u64,
    pub next_index: PeerIndex,
    pub match_index: PeerIndex,
}

impl View for RaftState {
    type V = RaftStateView;

    open spec fn view(&self) -> RaftStateView {
        RaftStateView {
            role: self.role,
            node_id: self.node_id@,
            current_term: self.current_term,
            voted_for: opt_text(self.voted_for),
            log: self.log@,
            commit_index: self.commit_index,
            last_applied: self.last_applied,
            next_index: self.next_index@,
            match_index: self.match_index@,
        }
    }
}

/// A fresh follower at term 0 with no vote and an empty log.
pub open spec fn initial_state(node_id: Seq<char>) -> RaftStateView {
    RaftStateView {
        role: Role::Follower,
        node_id,
        current_term: 0,
        voted_for: None,
        log: Seq::empty(),
        commit_index: 0,
        last_applied: 0,
        next_index: Map::empty(),
        match_index: Map::empty(),
    }
}

/// Moving to a strictly higher term: the vote is cleared and the node follows.
pub open spec fn advanced(s: RaftStateView, term: u64) -> RaftStateView {
    RaftStateView { current_term: term, voted_for: None, role: Role::Follower, ..s }
}

/// Reacting to a term seen in an RPC: advance if it is higher, else nothing.
pub open spec fn observed(s: RaftStateView, term: u64) -> RaftStateView {
    if term > s.current_term {
        advanced(s, term)
    } else {
        s
    }
}

/// Whether a candidate's last entry is at least as up to date as ours.
pub open spec fn log_is_current(log: Seq<LogEntryView>, last_log_index: u64, last_log_term: u64) -> bool {
    last_log_term > last_term_of(log) || (last_log_term == last_term_of(log) && last_log_index
        >= last_index_of(log))
}

/// The RequestVote decision: the next state and the reply.
pub open spec fn request_vote(
    s: RaftStateView,
    term: u64,
    candidate: Seq<char>,
    last_log_index: u64,
    last_log_term: u64,
) -> (RaftStateView, VoteOutcome) {
    if term < s.current_term {
        (s, VoteOutcome { term: s.current_term, vote_granted: false, persist_required: false })
    } else {
        let s1 = observed(s, term);
        let can_vote = match s1.voted_for {
            None => true,
            Some(id) => id == candidate,
        };
        let granted = can_vote && log_is_current(s1.log, last_log_index, last_log_term);
        if granted && s1.voted_for is None {
            (
                RaftStateView { voted_for: Some(candidate), ..s1 },
                VoteOutcome { term: s1.current_term, vote_granted: true, persist_required: true },
            )
        } else {
            (
                s1,
                VoteOutcome {
                    term: s1.current_term,
                    vote_granted: granted,
                    persist_required: term > s.current_term,
                },
            )
        }
    }
}

/// One entry from a leader: kept as is when already held with the same term,
/// replacing the conflicting suffix when held with another term, appended
/// when the index is new.
pub open spec fn step_entry(log: Seq<LogEntryView>, e: LogEntryView) -> Seq<LogEntryView> {
    match term_at(log, e.index) {
        Some(t) => if t == e.term {
            log
        } else {
            entries_below(log, e.index).push(e)
        },
        None => log.push(e),
    }
}

/// The log after the leader's entries are taken in order.
pub open spec fn apply_entries(log: Seq<LogEntryView>, es: Seq<LogEntryView>) -> Seq<LogEntryView>
    decreases es.len(),
{
    if es.len() == 0 {
        log
    } else {
        step_entry(apply_entries(log, es.drop_last()), es.last())
    }
}

/// Whether taking the leader's entries changed the log at some step.
pub open spec fn entries_change_log(log: Seq<LogEntryView>, es: Seq<LogEntryView>) -> bool
    decreases es.len(),
{
    if es.len() == 0 {
        false
    } else {
        entries_change_log(log, es.drop_last()) || term_at(apply_entries(log, es.drop_last()), es.last().index)
            != Some(es.last().term)
    }
}

/// The smaller of two indices.
pub open spec fn min_u64(a: u64, b: u64) -> u64 {
    if a <= b {
        a
    } else {
        b
    }
}

/// The AppendEntries decision: the next state and the reply.
pub open spec fn append_entries(
    s: RaftStateView,
    term: u64,
    prev_log_index: u64,
    prev_log_term: u64,
    es: Seq<LogEntryView>,
    leader_commit: u64,
) -> (RaftStateView, AppendOutcome) {
    if term < s.current_term {
        (
            s,
            AppendOutcome {
                term: s.current_term,
                success: false,
                match_index: 0,
                persist_required: false,
                reset_election_timer: false,
            },
        )
    } else {
        let moved = term > s.current_term;
        let s1 = RaftStateView { role: Role::Follower, ..observed(s, term) };
        if prev_log_index > 0 && term_at(s1.log, prev_log_index) != Some(prev_log_term) {
            (
                s1,
                AppendOutcome {
                    term: s1.current_term,
                    success: false,
                    match_index: last_index_of(s1.log),
                    persist_required: moved,
                    reset_election_timer: true,
                },
            )
        } else {
            let log2 = apply_entries(s1.log, es);
            let commit = if leader_commit > s1.commit_index {
                min_u64(leader_commit, last_index_of(log2))
            } else {
                s1.commit_index
            };
            (
                RaftStateView { log: log2, commit_index: commit, ..s1 },
                AppendOutcome {
                    term: s1.current_term,
                    success: true,
                    match_index: last_index_of(log2),
                    persist_required: moved || entries_change_log(s1.log, es),
                    reset_election_timer: true,
                },
            )
        }
    }
}

/// The views of a slice of entries.
pub open spec fn entry_views(es: Seq<LogEntry>) -> Seq<LogEntryView> {
    es.map_values(|e: LogEntry| e@)
}

/// The peer map after every peer in `peers` is set to `value`.
pub open spec fn set_all(m: Map<Seq<char>, u64>, peers: Seq<String>, value: u64) -> Map<Seq<char>, u64>
    decreases peers.len(),
{
    if peers.len() == 0 {
        m
    } else {
        set_all(m, peers.drop_last(), value).insert(peers.last()@, value)
    }
}

impl RaftState {
    /// A fresh follower for `node_id`.
    pub fn new(node_id: String) -> (s: RaftState)
        ensures
            s@ == initial_state(node_id@),
    {
        RaftState {
            role: Role::Follower,
            node_id,
            current_term: 0,
            voted_for: None,
            log: RaftLog::new(),
            commit_index: 0,
            last_applied: 0,
            next_index: PeerIndex::new(),
            match_index: PeerIndex::new(),
        }
    }

    /// Moves to a strictly higher term. Advancing the term is the only event
    /// that clears the vote.
    pub fn advance_term(&mut self, term: u64)
        requires
            term > old(self).current_term,
        ensures
            final(self)@ == advanced(old(self)@, term),
    {
        self.current_term = term;
        self.voted_for = None;
        self.role = Role::Follower;
    }

    /// Steps down to follower, keeping the term and the vote.
    pub fn step_down(&mut self)
        ensures
            final(self)@ == (RaftStateView { role: Role::Follower, ..old(self)@ }),
    {
        self.role = Role::Follower;
    }

    /// Reacts to a term seen in an RPC; true when the term moved (the change
    /// must then be made durable).
    pub fn observe_term(&mut self, term: u64) -> (moved: bool)
        ensures
            moved == (term > old(self).current_term),
            final(self)@ == observed(old(self)@, term),
    {
        if term > self.current_term {
            self.advance_term(term);
            true
        } else {
            false
        }
    }

    /// Starts an election: next term, vote for self.
    pub fn become_candidate(&mut self)
        requires
            old(self).current_term < u64::MAX,
        ensures
            final(self)@ == (RaftStateView {
                current_term: (old(self).current_term + 1) as u64,
                voted_for: Some(old(self)@.node_id),
                role: Role::Candidate,
                ..old(self)@
            }),
    {
        self.current_term = self.current_term + 1;
        self.voted_for = Some(self.node_id.clone());
        self.role = Role::Candidate;
    }

    /// Takes the lead: every peer's next index becomes one past our last
    /// entry and its match index 0.
    pub fn become_leader(&mut self, peers: &[String])
        requires
            last_index_of(old(self)@.log) < u64::MAX,
        ensures
            final(self)@ == (RaftStateView {
                role: Role::Leader,
                next_index: set_all(old(self)@.next_index, peers@, (last_index_of(old(self)@.log) + 1) as u64),
                match_index: set_all(old(self)@.match_index, peers@, 0),
                ..old(self)@
            }),
    {
        self.role = Role::Leader;
        let next = self.log.last_index() + 1;
        let ghost s0 = self@;
        let n = peers.len();
        let mut k: usize = 0;
        while k < n
            invariant
                n == peers@.len(),
                k <= n,
                next == last_index_of(s0.log) + 1,
                self@ == (RaftStateView {
                    next_index: set_all(s0.next_index, peers@.take(k as int), next),
                    match_index: set_all(s0.match_index, peers@.take(k as int), 0),
                    ..s0
                }),
            decreases n - k,
        {
            assert(peers@.take(k + 1).drop_last() =~= peers@.take(k as int));
            self.next_index.insert(peers[k].clone(), next);
            self.match_index.insert(peers[k].clone(), 0);
            k = k + 1;
        }
        assert(peers@.take(n as int) =~= peers@);
    }

    /// Election safety check: false when we lead in `other_leader_term`.
    pub fn invariant_single_leader_per_term(&self, other_leader_term: u64) -> (ok: bool)
        ensures
            ok == !(self.role == Role::Leader && other_leader_term == self.current_term),
    {
        !(self.role == Role::Leader && other_leader_term == self.current_term)
    }

    /// Whether the candidate's log is at least as up to date as ours.
    fn candidate_log_is_current(&self, last_log_index: u64, last_log_term: u64) -> (r: bool)
        ensures
            r == log_is_current(self.log@, last_log_index, last_log_term),
    {
        let our_term = self.log.last_term();
        let our_index = self.log.last_index();
        last_log_term > our_term || (last_log_term == our_term && last_log_index >= our_index)
    }

    /// Decides a RequestVote: stale terms are refused outright; at most one
    /// vote per term, repeated for the same candidate; the candidate's log
    /// must be at least as up to date as ours.
    pub fn handle_request_vote(
        &mut self,
        term: u64,
        candidate_id: &str,
        last_log_index: u64,
        last_log_term: u64,
    ) -> (out: VoteOutcome)
        ensures
            (final(self)@, out) == request_vote(old(self)@, term, candidate_id@, last_log_index, last_log_term),
    {
        if term < self.current_term {
            return VoteOutcome { term: self.current_term, vote_granted: false, persist_required: false };
        }
        let mut persist_required = self.observe_term(term);
        let can_vote = match &self.voted_for {
            None => true,
            Some(id) => text_eq(id.as_str(), candidate_id),
        };
        let vote_granted = can_vote && self.candidate_log_is_current(last_log_index, last_log_term);
        if vote_granted && self.voted_for.is_none() {
            self.voted_for = Some(owned(candidate_id));
            persist_required = true;
        }
        VoteOutcome { term: self.current_term, vote_granted, persist_required }
    }

    /// Decides an AppendEntries (also the heartbeat when `entries` is empty):
    /// a stale leader is refused without resetting the timer; otherwise the
    /// node follows, checks the entry before the new ones, takes the entries
    /// (truncating only on a real conflict) and advances its commit index no
    /// further than the log it holds.
    pub fn handle_append_entries(
        &mut self,
        term: u64,
        prev_log_index: u64,
        prev_log_term: u64,
        entries: &[LogEntry],
        leader_commit: u64,
    ) -> (out: AppendOutcome)
        ensures
            (final(self)@, out) == append_entries(
                old(self)@,
                term,
                prev_log_index,
                prev_log_term,
                entry_views(entries@),
                leader_commit,
            ),
    {
        if term < self.current_term {
            return AppendOutcome {
                term: self.current_term,
                success: false,
                match_index: 0,
                persist_required: false,
                reset_election_timer: false,
            };
        }
        let mut persist_required = self.observe_term(term);
        if self.role != Role::Follower {
            self.step_down();
        }
        if prev_log_index > 0 {
            let matches = match self.log.term_at(prev_log_index) {
                Some(t) => t == prev_log_term,
                None => false,
            };
            if !matches {
                return AppendOutcome {
                    term: self.current_term,
                    success: false,
                    match_index: self.log.last_index(),
                    persist_required,
                    reset_election_timer: true,
                };
            }
        }
        let ghost s1 = self@;
        let ghost es = entry_views(entries@);
        let ghost moved = persist_required;
        let n = entries.len();
        let mut k: usize = 0;
        while k < n
            invariant
                n == entries@.len(),
                es == entry_views(entries@),
                k <= n,
                self@ == (RaftStateView { log: apply_entries(s1.log, es.take(k as int)), ..s1 }),
                persist_required == (moved || entries_change_log(s1.log, es.take(k as int))),
            decreases n - k,
        {
            let e = &entries[k];
            proof {
                assert(es.take(k + 1).drop_last() =~= es.take(k as int));
                assert(es.take(k + 1).last() == e@);
            }
            match self.log.term_at(e.index) {
                Some(existing) => {
                    if existing != e.term {
                        self.log.truncate_from(e.index);
                        self.log.append(e.copy());
                        persist_required = true;
                    }
                },
                None => {
                    self.log.append(e.copy());
                    persist_required = true;
                },
            }
            k = k + 1;
        }
        proof {
            assert(es.take(n as int) =~= es);
        }
        if leader_commit > self.commit_index {
            let last = self.log.last_index();
            self.commit_index = if leader_commit <= last {
                leader_commit
            } else {
                last
            };
        }
        AppendOutcome {
            term: self.current_term,
            success: true,
            match_index: self.log.last_index(),
            persist_required,
            reset_election_timer: true,
        }
    }
}

/// A node: its consensus state and the cluster it belongs to.
pub struct RaftNode {
    pub state: RaftState,
    pub config: ClusterConfig,
}

impl RaftNode {
    /// A node that starts as a fresh follower under its configured id.
    pub fn new(config: ClusterConfig) -> (n: RaftNode)
        ensures
            n.state@ == initial_state(config.node_id@),
            n.config == config,
    {
        let state = RaftState::new(config.node_id.clone());
        RaftNode { state, config }
    }

    /// Makes the durable part of the state durable. Nothing is stored yet,
    /// so this always succeeds.
    pub fn persist(&self) -> (r: Result<(), EdisonError>)
        ensures
            r == Ok::<(), EdisonError>(()),
    {
        Ok(())
    }

    /// Serves a RequestVote: decides it, then makes the state durable when
    /// the decision changed it. The reply is the decision's outcome, or the
    /// error of making it durable.
    pub fn request_vote(
        &mut self,
        term: u64,
        candidate_id: &str,
        last_log_index: u64,
        last_log_term: u64,
    ) -> (r: Result<VoteOutcome, EdisonError>)
        ensures
            final(self).config == old(self).config,
            ({
                let (s, out) = request_vote(old(self).state@, term, candidate_id@, last_log_index, last_log_term);
                final(self).state@ == s && r == Ok::<VoteOutcome, EdisonError>(out)
            }),
    {
        let outcome = self.state.handle_request_vote(term, candidate_id, last_log_index, last_log_term);
        if outcome.persist_required {
            match self.persist() {
                Ok(()) => {},
                Err(e) => {
                    return Err(e);
                },
            }
        }
        Ok(outcome)
    }

    /// Serves an AppendEntries: decides it, then makes the state durable
    /// when the decision changed it.
    pub fn append_entries(
        &mut self,
        term: u64,
        prev_log_index: u64,
        prev_log_term: u64,
        entries: &[LogEntry],
        leader_commit: u64,
    ) -> (r: Result<AppendOutcome, EdisonError>)
        ensures
            final(self).config == old(self).config,
            ({
                let (s, out) = append_entries(
                    old(self).state@,
                    term,
                    prev_log_index,
                    prev_log_term,
                    entry_views(entries@),
                    leader_commit,
                );
                final(self).state@ == s && r == Ok::<AppendOutcome, EdisonError>(out)
            }),
    {
        let outcome = self.state.handle_append_entries(term, prev_log_index, prev_log_term, entries, leader_commit);
        if outcome.persist_required {
            match self.persist() {
                Ok(()) => {},
                Err(e) => {
                    return Err(e);
                },
            }
        }
        Ok(outcome)
    }
}

} // verus!
