use edisondb::{AuditAction, DataTier, EdisonError, Record, Store};

#[test]
fn owner_can_read_critical() {
    let r = Record::new(1, DataTier::Critical, "owner_abc", vec![1, 2, 3], [0u8; 32]).unwrap();
    assert!(r.is_readable_by("owner_abc"));
}

#[test]
fn non_owner_cannot_read_critical() {
    let r = Record::new(2, DataTier::Critical, "owner_abc", vec![1, 2, 3], [0u8; 32]).unwrap();
    assert!(!r.is_readable_by("attacker"));
}

#[test]
fn admin_cannot_read_critical() {
    let r = Record::new(3, DataTier::Critical, "owner_abc", vec![1, 2, 3], [0u8; 32]).unwrap();
    assert!(!r.is_readable_by("admin"));
    assert!(!r.is_readable_by("root"));
}

#[test]
fn noise_readable_by_anyone() {
    let r = Record::new(4, DataTier::Noise, "owner_abc", vec![9, 8, 7], [0u8; 32]).unwrap();
    assert!(r.is_readable_by("anyone"));
}

#[test]
fn record_without_owner_rejected() {
    let result = Record::new(5, DataTier::Personal, "", vec![1], [0u8; 32]);
    assert_eq!(result, Err(EdisonError::NoOwner));
}

#[test]
fn record_has_timestamp() {
    let r = Record::new(6, DataTier::Personal, "owner_abc", vec![], [0u8; 32]).unwrap();
    assert!(r.created_at > 0);
}

#[test]
fn owner_can_read_stored_record() {
    let mut store = Store::new();
    let r = Record::new(10, DataTier::Personal, "owner_abc", vec![1, 2, 3], [0u8; 32]).unwrap();
    store.write(r).unwrap();
    assert!(store.read(10, "owner_abc").is_ok());
}

#[test]
fn attacker_cannot_read_stored_record() {
    let mut store = Store::new();
    let r = Record::new(11, DataTier::Critical, "owner_abc", vec![1, 2, 3], [0u8; 32]).unwrap();
    store.write(r).unwrap();
    assert_eq!(store.read(11, "attacker"), Err(EdisonError::AccessDenied));
}

#[test]
fn write_creates_audit_entry() {
    let mut store = Store::new();
    let r = Record::new(20, DataTier::Personal, "owner_abc", vec![1], [0u8; 32]).unwrap();
    store.write(r).unwrap();
    assert_eq!(store.audit_count(), 1);
}

#[test]
fn multiple_writes_all_audited() {
    let mut store = Store::new();
    for i in 0..5 {
        let r = Record::new(i, DataTier::Noise, "owner_abc", vec![], [0u8; 32]).unwrap();
        store.write(r).unwrap();
    }
    assert_eq!(store.audit_count(), 5);
}

#[test]
fn granted_read_is_audited() {
    let mut store = Store::new();
    let r = Record::new(30, DataTier::Personal, "owner_abc", vec![1], [0u8; 32]).unwrap();
    store.write(r).unwrap();
    let _ = store.read(30, "owner_abc");
    assert_eq!(store.audit_count(), 2);
}

#[test]
fn denied_read_is_audited() {
    let mut store = Store::new();
    let r = Record::new(31, DataTier::Critical, "owner_abc", vec![1], [0u8; 32]).unwrap();
    store.write(r).unwrap();
    let _ = store.read(31, "attacker");
    assert_eq!(store.audit_count(), 2);
}

#[test]
fn list_returns_owner_records_only() {
    let mut store = Store::new();
    let r1 = Record::new(60, DataTier::Personal, "alice", vec![1], [0u8; 32]).unwrap();
    let r2 = Record::new(61, DataTier::Noise, "bob", vec![2], [0u8; 32]).unwrap();
    store.write(r1).unwrap();
    store.write(r2).unwrap();
    let alice_records = store.list_by_owner("alice");
    assert_eq!(alice_records.len(), 1);
    assert_eq!(alice_records[0].id, 60);
}

#[test]
fn owner_can_delete_own_record() {
    let mut store = Store::new();
    let r = Record::new(70, DataTier::Personal, "alice", vec![1], [0u8; 32]).unwrap();
    store.write(r).unwrap();
    assert!(store.delete(70, "alice").is_ok());
    assert_eq!(store.list_by_owner("alice").len(), 0);
}

#[test]
fn non_owner_cannot_delete_record() {
    let mut store = Store::new();
    let r = Record::new(71, DataTier::Critical, "alice", vec![1], [0u8; 32]).unwrap();
    store.write(r).unwrap();
    assert_eq!(store.delete(71, "attacker"), Err(EdisonError::AccessDenied));
}

#[test]
fn duplicate_id_rejected() {
    let mut store = Store::new();
    let r1 = Record::new(100, DataTier::Personal, "alice", vec![1], [0u8; 32]).unwrap();
    let r2 = Record::new(100, DataTier::Personal, "alice", vec![2], [0u8; 32]).unwrap();
    store.write(r1).unwrap();
    assert_eq!(store.write(r2), Err(EdisonError::AlreadyExists));
}

#[test]
fn read_of_missing_record_is_not_audited() {
    let mut store = Store::new();
    assert_eq!(store.read(404, "anyone"), Err(EdisonError::NotFound));
    assert_eq!(store.audit_count(), 0);
}

#[test]
fn delete_of_missing_record_is_not_found() {
    let mut store = Store::new();
    assert_eq!(store.delete(404, "alice"), Err(EdisonError::NotFound));
    assert_eq!(store.audit_count(), 0);
}

#[test]
fn refused_delete_leaves_trail_and_record() {
    let mut store = Store::new();
    let r = Record::new(72, DataTier::Noise, "alice", vec![1], [0u8; 32]).unwrap();
    store.write(r).unwrap();
    let _ = store.delete(72, "mallory");
    assert_eq!(store.audit_count(), 1);
    assert_eq!(store.read(72, "mallory").unwrap().owner_id, "alice");
}

#[test]
fn audit_trail_records_each_action_in_order() {
    let mut store = Store::new();
    let r = Record::new(80, DataTier::Personal, "alice", vec![1], [0u8; 32]).unwrap();
    store.write(r).unwrap();
    let _ = store.read(80, "alice");
    let _ = store.read(80, "eve");
    store.delete(80, "alice").unwrap();
    let actions: Vec<AuditAction> = store.audit_entries().iter().map(|e| e.action).collect();
    assert_eq!(
        actions,
        vec![AuditAction::Write, AuditAction::ReadGranted, AuditAction::ReadDenied, AuditAction::Delete]
    );
    assert_eq!(store.audit_entries()[2].requester_id, "eve");
    assert!(store.records.is_empty());
}

#[test]
fn personal_record_is_owner_only() {
    let r = Record::new(90, DataTier::Personal, "alice", vec![], [0u8; 32]).unwrap();
    assert!(r.is_readable_by("alice"));
    assert!(!r.is_readable_by("bob"));
}

#[test]
fn error_messages() {
    assert_eq!(EdisonError::NoOwner.message(), "Record must have an owner");
    assert_eq!(EdisonError::AlreadyExists.message(), "Record already exists");
    assert_eq!(EdisonError::AccessDenied.message(), "Access denied — owner only");
}

#[test]
fn default_store_is_empty() {
    let s = Store::default();
    assert!(s.records.is_empty());
    assert_eq!(s.audit_count(), 0);
}

#[test]
fn timed_operations_stamp_the_given_time() {
    let r = Record::new_at(1, DataTier::Personal, "alice", vec![1], [0u8; 32], 1234).unwrap();
    assert_eq!(r.created_at, 1234);
    assert_eq!(Record::new_at(1, DataTier::Personal, "", vec![1], [0u8; 32], 1234), Err(EdisonError::NoOwner));
    let mut store = Store::new();
    store.write_at(r, 10).unwrap();
    assert!(store.read_at(1, "alice", 20).is_ok());
    assert_eq!(store.read_at(1, "eve", 30), Err(EdisonError::AccessDenied));
    assert_eq!(store.delete_at(1, "eve", 40), Err(EdisonError::AccessDenied));
    store.delete_at(1, "alice", 50).unwrap();
    let times: Vec<u64> = store.audit_entries().iter().map(|e| e.timestamp).collect();
    assert_eq!(times, vec![10, 20, 30, 50]);
}
