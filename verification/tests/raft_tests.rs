use edisondb::raft::{ClusterConfig, LogEntry, RaftNode, RaftState, Role};

fn entry(index: u64, term: u64) -> LogEntry {
    LogEntry { index, term, command: vec![] }
}

fn state_with_log(entries: &[(u64, u64)]) -> RaftState {
    let mut s = RaftState::new("self".to_string());
    for (i, t) in entries {
        s.log.append(entry(*i, *t));
    }
    s
}

#[test]
fn stale_term_vote_is_rejected() {
    let mut s = RaftState::new("self".into());
    s.current_term = 5;
    let out = s.handle_request_vote(3, "c1", 0, 0);
    assert!(!out.vote_granted);
    assert_eq!(out.term, 5);
}

#[test]
fn higher_term_advances_and_clears_vote() {
    let mut s = RaftState::new("self".into());
    s.current_term = 2;
    s.voted_for = Some("old".into());
    s.role = Role::Leader;
    assert!(s.observe_term(7));
    assert_eq!(s.current_term, 7);
    assert_eq!(s.voted_for, None);
    assert_eq!(s.role, Role::Follower);
}

#[test]
fn same_term_does_not_advance() {
    let mut s = RaftState::new("self".into());
    s.current_term = 4;
    assert!(!s.observe_term(4));
}

#[test]
fn second_candidate_denied_in_same_term() {
    let mut s = RaftState::new("self".into());
    assert!(s.handle_request_vote(1, "c1", 0, 0).vote_granted);
    assert!(!s.handle_request_vote(1, "c2", 0, 0).vote_granted);
}

#[test]
fn repeat_request_from_same_candidate_is_idempotent() {
    let mut s = RaftState::new("self".into());
    assert!(s.handle_request_vote(1, "c1", 0, 0).vote_granted);
    let again = s.handle_request_vote(1, "c1", 0, 0);
    assert!(again.vote_granted);
    assert!(!again.persist_required, "no state change on a repeat vote");
}

#[test]
fn candidate_with_stale_log_is_denied() {
    let mut s = state_with_log(&[(1, 1), (2, 2)]);
    let out = s.handle_request_vote(3, "c1", 1, 1);
    assert!(!out.vote_granted, "shorter/older log must not win a vote");
}

#[test]
fn candidate_with_higher_last_term_wins() {
    let mut s = state_with_log(&[(1, 1), (2, 1)]);
    assert!(s.handle_request_vote(3, "c1", 1, 5).vote_granted);
}

#[test]
fn step_down_in_same_term_preserves_vote() {
    let mut s = RaftState::new("self".into());
    s.become_candidate();
    assert_eq!(s.current_term, 1);
    assert_eq!(s.voted_for, Some("self".to_string()));

    let out = s.handle_append_entries(1, 0, 0, &[], 0);
    assert!(out.success);
    assert_eq!(s.role, Role::Follower);
    assert_eq!(s.voted_for, Some("self".to_string()), "vote must survive a same-term step-down");

    let second = s.handle_request_vote(1, "other", 0, 0);
    assert!(!second.vote_granted, "must not double-vote in term 1");
}

#[test]
fn prev_log_mismatch_is_rejected() {
    let mut s = state_with_log(&[(1, 1), (2, 1)]);
    let out = s.handle_append_entries(1, 2, 9, &[entry(3, 1)], 0);
    assert!(!out.success);
    assert_eq!(out.match_index, 2);
    assert!(out.reset_election_timer, "a valid leader still resets the timer");
}

#[test]
fn conflicting_entry_truncates_suffix() {
    let mut s = state_with_log(&[(1, 1), (2, 1), (3, 1)]);
    let out = s.handle_append_entries(2, 1, 1, &[entry(2, 2)], 0);
    assert!(out.success);
    assert_eq!(s.log.last_index(), 2);
    assert_eq!(s.log.term_at(2), Some(2));
    assert_eq!(s.log.term_at(3), None, "conflicting suffix must be dropped");
}

#[test]
fn duplicate_append_does_not_delete_committed_entries() {
    let mut s = state_with_log(&[(1, 1), (2, 1), (3, 1)]);
    s.current_term = 1;
    s.commit_index = 3;

    let out = s.handle_append_entries(1, 0, 0, &[entry(1, 1)], 3);
    assert!(out.success);
    assert_eq!(s.log.last_index(), 3, "entries 2 and 3 must survive");
    assert_eq!(s.log.term_at(2), Some(1));
    assert_eq!(s.log.term_at(3), Some(1));
    assert!(!out.persist_required, "a pure duplicate changes nothing");
}

#[test]
fn heartbeat_advances_commit_index_bounded_by_log() {
    let mut s = state_with_log(&[(1, 1), (2, 1)]);
    s.handle_append_entries(1, 2, 1, &[], 99);
    assert_eq!(s.commit_index, 2, "commit cannot exceed what we hold");
}

#[test]
fn stale_leader_does_not_reset_timer() {
    let mut s = RaftState::new("self".into());
    s.current_term = 6;
    let out = s.handle_append_entries(2, 0, 0, &[], 0);
    assert!(!out.success);
    assert!(!out.reset_election_timer);
}

#[test]
fn invariant_rejects_two_leaders_in_one_term() {
    let mut s = RaftState::new("self".into());
    s.current_term = 3;
    s.become_leader(&["p1".to_string()]);
    assert!(!s.invariant_single_leader_per_term(3));
    assert!(s.invariant_single_leader_per_term(4));
}

#[test]
fn new_state_is_a_follower_at_term_zero() {
    let s = RaftState::new("n1".into());
    assert_eq!(s.role, Role::Follower);
    assert_eq!(s.current_term, 0);
    assert_eq!(s.voted_for, None);
    assert_eq!(s.log.last_index(), 0);
    assert_eq!(s.log.last_term(), 0);
    assert_eq!(s.commit_index, 0);
}

#[test]
fn candidate_votes_for_itself_in_a_new_term() {
    let mut s = RaftState::new("n1".into());
    s.current_term = 4;
    s.become_candidate();
    assert_eq!(s.role, Role::Candidate);
    assert_eq!(s.current_term, 5);
    assert_eq!(s.voted_for, Some("n1".to_string()));
}

#[test]
fn leader_points_next_index_past_its_log() {
    let mut s = state_with_log(&[(1, 1), (2, 1)]);
    s.become_leader(&["p1".to_string(), "p2".to_string()]);
    assert_eq!(s.role, Role::Leader);
    assert_eq!(s.next_index.get("p1"), Some(3));
    assert_eq!(s.match_index.get("p2"), Some(0));
    assert_eq!(s.next_index.get("p3"), None);
}

#[test]
fn step_down_keeps_term_and_vote() {
    let mut s = RaftState::new("n1".into());
    s.become_candidate();
    s.step_down();
    assert_eq!(s.role, Role::Follower);
    assert_eq!(s.current_term, 1);
    assert_eq!(s.voted_for, Some("n1".to_string()));
}

#[test]
fn appended_entries_are_taken_and_committed() {
    let mut s = RaftState::new("f".into());
    let out = s.handle_append_entries(1, 0, 0, &[entry(1, 1), entry(2, 1)], 1);
    assert!(out.success);
    assert!(out.persist_required);
    assert_eq!(out.match_index, 2);
    assert_eq!(s.log.last_index(), 2);
    assert_eq!(s.commit_index, 1);
}

#[test]
fn log_truncate_and_entries_from() {
    let mut s = state_with_log(&[(1, 1), (2, 1), (3, 2)]);
    let tail = s.log.entries_from(2);
    assert_eq!(tail.iter().map(|e| e.index).collect::<Vec<u64>>(), vec![2, 3]);
    s.log.truncate_from(3);
    assert_eq!(s.log.last_index(), 2);
    assert_eq!(s.log.last_term(), 1);
}

#[test]
fn node_serves_votes_and_appends() {
    let mut node = RaftNode::new(ClusterConfig { node_id: "n1".into(), peers: vec!["n2".into()] });
    assert_eq!(node.state.current_term, 0);
    let vote = node.request_vote(2, "n2", 0, 0).unwrap();
    assert!(vote.vote_granted);
    assert_eq!(vote.term, 2);
    assert_eq!(node.state.voted_for, Some("n2".to_string()));
    let app = node.append_entries(2, 0, 0, &[entry(1, 2)], 1).unwrap();
    assert!(app.success);
    assert_eq!(node.state.log.last_index(), 1);
    assert_eq!(node.state.commit_index, 1);
    assert_eq!(node.config.peers, vec!["n2".to_string()]);
    assert!(node.persist().is_ok());
}
