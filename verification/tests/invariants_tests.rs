use edisondb::invariants::{
    invariant_audit_monotonic, invariant_record_owner_nonempty, invariant_store_owners_nonempty,
    invariant_store_tier_gate, invariant_tier_gate, post_delete, post_write, pre_read, pre_write,
    witness_critical_owner_only, witness_noise_open, witness_write_read_consistency,
};
use edisondb::{AuditAction, AuditEntry, DataTier, Record, Store};

fn rec(id: u64, tier: DataTier, owner: &str) -> Record {
    Record { id, tier, owner_id: owner.to_string(), payload: vec![], salt: [0u8; 32], created_at: 1 }
}

fn entry(t: u64) -> AuditEntry {
    AuditEntry { record_id: 1, requester_id: "x".into(), action: AuditAction::Write, timestamp: t }
}

#[test]
fn owner_invariant_on_records_and_stores() {
    assert!(invariant_record_owner_nonempty(&rec(1, DataTier::Noise, "a")));
    assert!(!invariant_record_owner_nonempty(&rec(1, DataTier::Noise, "")));
    let mut s = Store::new();
    s.write(rec(1, DataTier::Noise, "a")).unwrap();
    assert!(invariant_store_owners_nonempty(&s));
    s.records.insert(2, rec(2, DataTier::Noise, ""));
    assert!(!invariant_store_owners_nonempty(&s));
}

#[test]
fn tier_gate_checks() {
    assert!(invariant_tier_gate(&rec(1, DataTier::Critical, "a"), "a"));
    assert!(!invariant_tier_gate(&rec(1, DataTier::Critical, "a"), "b"));
    assert!(!invariant_tier_gate(&rec(1, DataTier::Personal, "a"), "b"));
    assert!(invariant_tier_gate(&rec(1, DataTier::Noise, "a"), "b"));
    let mut s = Store::new();
    s.write(rec(1, DataTier::Critical, "a")).unwrap();
    assert!(!invariant_store_tier_gate(&s, "stranger"));
    assert!(invariant_store_tier_gate(&s, "a"));
    s.write(rec(2, DataTier::Noise, "b")).unwrap();
    assert!(invariant_store_tier_gate(&s, "a"));
    assert!(!invariant_store_tier_gate(&s, "b"));
    assert!(invariant_store_tier_gate(&Store::new(), "anyone"));
}

#[test]
fn audit_monotonic_check() {
    assert!(invariant_audit_monotonic(&[]));
    assert!(invariant_audit_monotonic(&[entry(3)]));
    assert!(invariant_audit_monotonic(&[entry(1), entry(1), entry(2)]));
    assert!(!invariant_audit_monotonic(&[entry(1), entry(3), entry(2)]));
}

#[test]
fn pre_and_post_conditions() {
    assert_eq!(pre_write(&rec(1, DataTier::Noise, "a")), Ok(()));
    assert_eq!(pre_write(&rec(1, DataTier::Noise, "")), Err("pre_write: owner_id must not be empty".to_string()));
    assert!(post_write(3, 4));
    assert!(post_write(3, 3));
    assert!(!post_write(3, 5));
    assert!(!post_write(usize::MAX, 0));
    assert_eq!(pre_read("", "me"), Err("pre_read: record_id must not be empty".to_string()));
    assert_eq!(pre_read("r", ""), Err("pre_read: requester_id must not be empty".to_string()));
    assert_eq!(pre_read("r", "me"), Ok(()));
    assert!(post_delete(5, 4, true));
    assert!(!post_delete(5, 5, true));
    assert!(post_delete(5, 5, false));
    assert!(!post_delete(0, 0, true));
}

#[test]
fn witnesses_hold() {
    assert!(witness_noise_open(&rec(1, DataTier::Noise, "a")).is_ok());
    assert!(witness_noise_open(&rec(1, DataTier::Critical, "a")).is_ok());
    assert!(witness_critical_owner_only(&rec(1, DataTier::Critical, "a"), "b").is_ok());
    assert!(witness_critical_owner_only(&rec(1, DataTier::Critical, "a"), "a").is_ok());
}

#[test]
fn write_read_witness() {
    let mut s = Store::new();
    assert!(witness_write_read_consistency(&mut s, rec(9, DataTier::Critical, "a"), "a").is_ok());
    assert_eq!(s.audit_count(), 2);
    assert_eq!(s.audit_entries()[1].action, AuditAction::ReadGranted);
    assert_eq!(
        witness_write_read_consistency(&mut s, rec(9, DataTier::Noise, "b"), "b"),
        Err("Record already exists".to_string())
    );
    assert_eq!(s.audit_count(), 2);
}
