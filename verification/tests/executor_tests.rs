use edisondb::eql::{parse, Tier};
use edisondb::executor::{EqlExecutor, EqlResult, RecordInfo};
use edisondb::{AuditAction, DataTier, EdisonError};

fn fresh(path: &str) -> EqlExecutor {
    EqlExecutor::open(path, "owner", "password", None)
}

#[test]
fn eql_write_and_read_critical() {
    let mut ex = fresh("/tmp/eql_ex_1.redb");
    ex.execute(parse("WRITE k1 TIER CRITICAL top secret").unwrap()).unwrap();
    match ex.execute(parse("READ k1").unwrap()).unwrap() {
        EqlResult::Read { payload, tier, .. } => {
            assert_eq!(payload, "top secret");
            assert_eq!(tier, DataTier::Critical);
        }
        _ => panic!("wrong variant"),
    }
}

#[test]
fn eql_write_and_read_personal() {
    let mut ex = fresh("/tmp/eql_ex_2.redb");
    ex.execute(parse("WRITE note TIER PERSONAL birthday note").unwrap()).unwrap();
    match ex.execute(parse("READ note").unwrap()).unwrap() {
        EqlResult::Read { tier, .. } => assert_eq!(tier, DataTier::Personal),
        _ => panic!("wrong variant"),
    }
}

#[test]
fn eql_write_and_read_noise() {
    let mut ex = fresh("/tmp/eql_ex_3.redb");
    ex.execute(parse("WRITE log1 TIER NOISE server started").unwrap()).unwrap();
    match ex.execute(parse("READ log1").unwrap()).unwrap() {
        EqlResult::Read { payload, tier, .. } => {
            assert_eq!(payload, "server started");
            assert_eq!(tier, DataTier::Noise);
        }
        _ => panic!("wrong variant"),
    }
}

#[test]
fn eql_wrong_password_fails() {
    let path = "/tmp/eql_ex_4.redb";
    let mut ex1 = EqlExecutor::open(path, "owner", "correct", None);
    ex1.execute(parse("WRITE k1 TIER CRITICAL secret").unwrap()).unwrap();
    // The second executor opens the store the first one left behind.
    let mut ex2 = EqlExecutor::open(path, "owner", "wrong", Some(ex1.store().clone()));
    assert!(ex2.execute(parse("READ k1").unwrap()).is_err());
}

#[test]
fn eql_duplicate_id_rejected() {
    let mut ex = fresh("/tmp/eql_ex_5.redb");
    ex.execute(parse("WRITE k1 TIER NOISE foo").unwrap()).unwrap();
    assert!(ex.execute(parse("WRITE k1 TIER NOISE bar").unwrap()).is_err());
}

#[test]
fn eql_delete_removes_record() {
    let mut ex = fresh("/tmp/eql_ex_6.redb");
    ex.execute(parse("WRITE k1 TIER PERSONAL data").unwrap()).unwrap();
    ex.execute(parse("DELETE k1").unwrap()).unwrap();
    assert!(ex.execute(parse("READ k1").unwrap()).is_err());
}

#[test]
fn eql_list_all() {
    let mut ex = fresh("/tmp/eql_ex_7.redb");
    ex.execute(parse("WRITE a TIER CRITICAL x").unwrap()).unwrap();
    ex.execute(parse("WRITE b TIER NOISE y").unwrap()).unwrap();
    match ex.execute(parse("LIST").unwrap()).unwrap() {
        EqlResult::Listed(v) => assert_eq!(v.len(), 2),
        _ => panic!("wrong variant"),
    }
}

#[test]
fn eql_list_tier_filter() {
    let mut ex = fresh("/tmp/eql_ex_8.redb");
    ex.execute(parse("WRITE a TIER CRITICAL x").unwrap()).unwrap();
    ex.execute(parse("WRITE b TIER NOISE y").unwrap()).unwrap();
    match ex.execute(parse("LIST TIER NOISE").unwrap()).unwrap() {
        EqlResult::Listed(v) => {
            assert_eq!(v.len(), 1);
            assert_eq!(v[0].string_id, "b");
        }
        _ => panic!("wrong variant"),
    }
}

#[test]
fn eql_audit_captures_operations() {
    let mut ex = fresh("/tmp/eql_ex_9.redb");
    ex.execute(parse("WRITE k1 TIER PERSONAL data").unwrap()).unwrap();
    ex.execute(parse("READ k1").unwrap()).unwrap();
    match ex.execute(parse("AUDIT").unwrap()).unwrap() {
        EqlResult::Audited(lines) => assert!(lines.len() >= 2),
        _ => panic!("wrong variant"),
    }
}

#[test]
fn eql_read_nonexistent_fails() {
    let mut ex = fresh("/tmp/eql_ex_10.redb");
    assert!(ex.execute(parse("READ ghost").unwrap()).is_err());
}

#[test]
fn read_back_gives_payload_and_written_tier() {
    let mut ex = fresh("/tmp/eql_laws_1.redb");
    match ex.execute(parse("WRITE doc TIER PERSONAL line one  two").unwrap()).unwrap() {
        EqlResult::Written { id, .. } => assert_eq!(id, "doc"),
        _ => panic!("wrong variant"),
    }
    match ex.execute(parse("READ doc").unwrap()).unwrap() {
        EqlResult::Read { id, tier, payload } => {
            assert_eq!(id, "doc");
            assert_eq!(tier, DataTier::Personal);
            assert_eq!(payload, "line one  two");
        }
        _ => panic!("wrong variant"),
    }
}

#[test]
fn other_owner_is_denied_critical_and_the_denial_audited() {
    let mut ex1 = EqlExecutor::open("/tmp/eql_laws_2.redb", "alice", "pw", None);
    ex1.execute(parse("WRITE k TIER CRITICAL x").unwrap()).unwrap();
    let mut ex2 = EqlExecutor::open("/tmp/eql_laws_2.redb", "bob", "pw", Some(ex1.store().clone()));
    assert_eq!(ex2.execute(parse("READ k").unwrap()).err(), Some(EdisonError::AccessDenied));
    let log = ex2.store().audit_entries();
    assert_eq!(log.len(), 2);
    assert_eq!(log[1].action, AuditAction::ReadDenied);
    assert_eq!(log[1].requester_id, "bob");
}

#[test]
fn other_owner_cannot_delete() {
    let mut ex1 = EqlExecutor::open("/tmp/eql_laws_3.redb", "alice", "pw", None);
    ex1.execute(parse("WRITE k TIER NOISE x").unwrap()).unwrap();
    let mut ex2 = EqlExecutor::open("/tmp/eql_laws_3.redb", "bob", "pw", Some(ex1.store().clone()));
    assert_eq!(ex2.execute(parse("DELETE k").unwrap()).err(), Some(EdisonError::AccessDenied));
    assert_eq!(ex2.store().records.len(), 1);
}

#[test]
fn delete_of_missing_id_is_not_found() {
    let mut ex = fresh("/tmp/eql_laws_4.redb");
    assert_eq!(ex.execute(parse("DELETE nothing").unwrap()).err(), Some(EdisonError::NotFound));
}

#[test]
fn empty_owner_cannot_write() {
    let mut ex = EqlExecutor::open("/tmp/eql_laws_5.redb", "", "pw", None);
    assert_eq!(ex.execute(parse("WRITE k TIER NOISE x").unwrap()).err(), Some(EdisonError::NoOwner));
    assert!(ex.store().records.is_empty());
}

#[test]
fn listing_names_only_the_owners_records() {
    let mut ex1 = EqlExecutor::open("/tmp/eql_laws_6.redb", "alice", "pw", None);
    ex1.execute(parse("WRITE mine TIER NOISE x").unwrap()).unwrap();
    let mut ex2 = EqlExecutor::open("/tmp/eql_laws_6.redb", "bob", "pw2", Some(ex1.store().clone()));
    ex2.execute(parse("WRITE his TIER CRITICAL y").unwrap()).unwrap();
    match ex2.execute(parse("LIST").unwrap()).unwrap() {
        EqlResult::Listed(v) => {
            assert_eq!(v.len(), 1);
            assert_eq!(v[0].string_id, "his");
            assert_eq!(v[0].tier, DataTier::Critical);
        }
        _ => panic!("wrong variant"),
    }
}

#[test]
fn audit_filter_by_id_keeps_its_lines() {
    let mut ex = fresh("/tmp/eql_laws_7.redb");
    ex.execute(parse("WRITE a TIER NOISE x").unwrap()).unwrap();
    ex.execute(parse("WRITE b TIER NOISE y").unwrap()).unwrap();
    ex.execute(parse("READ a").unwrap()).unwrap();
    match ex.execute(parse("AUDIT a").unwrap()).unwrap() {
        EqlResult::Audited(lines) => {
            assert_eq!(lines.len(), 2);
            assert!(lines[0].contains("Write"));
            assert!(lines[1].contains("ReadGranted"));
            assert!(lines[1].ends_with("by=owner"));
        }
        _ => panic!("wrong variant"),
    }
}

#[test]
fn stored_payload_is_not_plaintext() {
    let mut ex = fresh("/tmp/eql_laws_8.redb");
    ex.execute(parse("WRITE k TIER NOISE plain words").unwrap()).unwrap();
    let rec = ex.store().records.values().next().unwrap();
    let needle = b"plain words";
    assert!(!rec.payload.windows(needle.len()).any(|w| w == needle));
}

#[test]
fn executor_keeps_its_path() {
    let ex = fresh("/tmp/eql_laws_9.redb");
    assert_eq!(ex.db_path(), "/tmp/eql_laws_9.redb");
}

#[test]
fn results_render_as_the_shell_shows_them() {
    assert_eq!(EqlResult::Written { id: "k1".into(), tier: Tier::Critical }.render(), "OK  WROTE   [CRITICAL] k1");
    assert_eq!(
        EqlResult::Read { id: "k1".into(), tier: DataTier::Personal, payload: "hi".into() }.render(),
        "OK  READ    [Personal] k1\n    → hi"
    );
    assert_eq!(EqlResult::Deleted { id: "k1".into() }.render(), "OK  DELETED k1");
    let listed = EqlResult::Listed(vec![
        RecordInfo { string_id: "a".into(), tier: DataTier::Noise, created_at: 1 },
        RecordInfo { string_id: "b".into(), tier: DataTier::Critical, created_at: 2 },
    ]);
    assert_eq!(listed.render(), "OK  2 record(s)\n    [Noise]  a\n    [Critical]  b\n");
    let audited = EqlResult::Audited((0..12).map(|i| format!("line{i}")).collect());
    assert!(audited.render().starts_with("OK  12 audit entry/entries\n    line0\n"));
    assert_eq!(EqlResult::Audited(vec![]).render(), "OK  0 audit entry/entries\n");
}

#[test]
fn audit_lines_have_the_documented_layout() {
    use_audit_layout(42, AuditAction::Write, 7, "bob", "t=        42  Write  record=7  by=bob");
    use_audit_layout(1_700_000_000, AuditAction::ReadDenied, 0, "", "t=1700000000  ReadDenied  record=0  by=");
    use_audit_layout(12_345_678_901, AuditAction::Delete, 99, "x", "t=12345678901  Delete  record=99  by=x");
}

fn use_audit_layout(ts: u64, action: AuditAction, id: u64, who: &str, expected: &str) {
    let mut store = edisondb::Store::new();
    store.audit_log.push(edisondb::AuditEntry { record_id: id, requester_id: who.to_string(), action, timestamp: ts });
    let mut ex = EqlExecutor::open("/tmp/eql_layout.redb", "x", "pw", Some(store));
    match ex.execute(parse("AUDIT").unwrap()).unwrap() {
        EqlResult::Audited(lines) => {
            assert_eq!(lines, vec![expected.to_string()]);
            assert_eq!(lines[0], format!("t={:10}  {:12?}  record={}  by={}", ts, action, id, who));
        }
        _ => panic!("wrong variant"),
    }
}
