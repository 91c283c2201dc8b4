//! Executable checks of the store's invariants, the pre- and postconditions
//! of its operations, and witnesses of its access properties. Each check
//! states in its contract exactly what it decides.

use vstd::prelude::*;

use crate::store::{audit_extended, tier_gate, AuditAction, AuditEntry, DataTier, EdisonError, Record, Store};
use crate::text::{owned, text_eq};

verus! {

broadcast use vstd::std_specs::hash::group_hash_axioms;

/// Whether every record of `m` has an owner.
pub open spec fn owners_nonempty(m: Map<u64, Record>) -> bool {
    forall|k: u64| m.contains_key(k) ==> (#[trigger] m[k]).owner_id@.len() > 0
}

/// Whether the timestamps of `entries` never go down.
pub open spec fn timestamps_monotonic(entries: Seq<AuditEntry>) -> bool {
    forall|i: int| 0 <= i < entries.len() - 1 ==> #[trigger] entries[i].timestamp <= entries[i + 1].timestamp
}

/// A record satisfies the owner invariant when its owner is not empty.
pub fn invariant_record_owner_nonempty(record: &Record) -> (r: bool)
    ensures
        r == (record.owner_id@.len() > 0),
{
    !record.owner_id.as_str().is_empty()
}

/// Every record of the store satisfies the owner invariant.
pub fn invariant_store_owners_nonempty(store: &Store) -> (r: bool)
    ensures
        r == owners_nonempty(store.records@),
{
    let ghost m = store.records@;
    let ghost mut seen: Set<u64> = Set::empty();
    for k in it: store.records.keys()
        invariant
            m == store.records@,
            it.seq().unref().to_set() == m.dom(),
            forall|kk: u64| #[trigger] seen.contains(kk) ==> m.contains_key(kk) && m[kk].owner_id@.len() > 0,
            forall|kk: u64|
                m.contains_key(kk) && !(#[trigger] seen.contains(kk))
                    ==> exists|j: int| it.index() <= j < it.seq().len() && *#[trigger] it.seq()[j] == kk,
    {
        let ghost idx = it.index();
        assert(it.seq().unref()[idx] == *k);
        assert(it.seq().unref().to_set().contains(*k));
        match store.records.get(k) {
            Some(rec) => {
                if !invariant_record_owner_nonempty(rec) {
                    return false;
                }
            },
            None => {},
        }
        proof {
            seen = seen.insert(*k);
            assert forall|kk: u64| m.contains_key(kk) && !(#[trigger] seen.contains(kk)) implies exists|j: int|
                idx + 1 <= j < it.seq().len() && *#[trigger] it.seq()[j] == kk by {
                let j = choose|j: int| idx <= j < it.seq().len() && *it.seq()[j] == kk;
                assert(j != idx);
            }
        }
    }
    proof {
        assert forall|k: u64| m.contains_key(k) implies (#[trigger] m[k]).owner_id@.len() > 0 by {
            assert(seen.contains(k));
        }
    }
    true
}

/// A read of `record` by `requester_id` passes the tier gate: `Critical` and
/// `Personal` records only for their owner, `Noise` for anyone.
pub fn invariant_tier_gate(record: &Record, requester_id: &str) -> (r: bool)
    ensures
        r == tier_gate(record.tier, record.owner_id@, requester_id@),
{
    match record.tier {
        DataTier::Critical => text_eq(requester_id, record.owner_id.as_str()),
        DataTier::Personal => text_eq(requester_id, record.owner_id.as_str()),
        DataTier::Noise => true,
    }
}

/// Whether `requester` passes the tier gate of every record of `m`: each is
/// `Noise` or owned by the requester.
pub open spec fn store_gate_open_to(m: Map<u64, Record>, requester: Seq<char>) -> bool {
    forall|k: u64| m.contains_key(k) ==> tier_gate((#[trigger] m[k]).tier, m[k].owner_id@, requester)
}

/// The store-wide tier check: the requester passes the tier gate of every
/// record in the store.
pub fn invariant_store_tier_gate(store: &Store, requester_id: &str) -> (r: bool)
    ensures
        r == store_gate_open_to(store.records@, requester_id@),
{
    let ghost m = store.records@;
    let ghost mut seen: Set<u64> = Set::empty();
    for k in it: store.records.keys()
        invariant
            m == store.records@,
            it.seq().unref().to_set() == m.dom(),
            forall|kk: u64| #[trigger] seen.contains(kk) ==> m.contains_key(kk) && tier_gate(
                m[kk].tier,
                m[kk].owner_id@,
                requester_id@,
            ),
            forall|kk: u64|
                m.contains_key(kk) && !(#[trigger] seen.contains(kk))
                    ==> exists|j: int| it.index() <= j < it.seq().len() && *#[trigger] it.seq()[j] == kk,
    {
        let ghost idx = it.index();
        assert(it.seq().unref()[idx] == *k);
        assert(it.seq().unref().to_set().contains(*k));
        match store.records.get(k) {
            Some(rec) => {
                if !invariant_tier_gate(rec, requester_id) {
                    return false;
                }
            },
            None => {},
        }
        proof {
            seen = seen.insert(*k);
            assert forall|kk: u64| m.contains_key(kk) && !(#[trigger] seen.contains(kk)) implies exists|j: int|
                idx + 1 <= j < it.seq().len() && *#[trigger] it.seq()[j] == kk by {
                let j = choose|j: int| idx <= j < it.seq().len() && *it.seq()[j] == kk;
                assert(j != idx);
            }
        }
    }
    proof {
        assert forall|k: u64| m.contains_key(k) implies tier_gate((#[trigger] m[k]).tier, m[k].owner_id@, requester_id@) by {
            assert(seen.contains(k));
        }
    }
    true
}

/// The timestamps of the audit entries never go down.
pub fn invariant_audit_monotonic(entries: &[AuditEntry]) -> (r: bool)
    ensures
        r == timestamps_monotonic(entries@),
{
    let n = entries.len();
    if n < 2 {
        return true;
    }
    let mut i: usize = 0;
    while i + 1 < n
        invariant
            n == entries@.len(),
            n >= 2,
            i + 1 <= n,
            forall|j: int| 0 <= j < i ==> #[trigger] entries@[j].timestamp <= entries@[j + 1].timestamp,
        decreases n - i,
    {
        if entries[i].timestamp > entries[i + 1].timestamp {
            return false;
        }
        i = i + 1;
    }
    true
}

/// The precondition of a write: the record has an owner.
pub fn pre_write(record: &Record) -> (r: Result<(), String>)
    ensures
        r is Ok <==> record.owner_id@.len() > 0,
        r matches Err(m) ==> m@ == "pre_write: owner_id must not be empty"@,
{
    if record.owner_id.as_str().is_empty() {
        return Err(owned("pre_write: owner_id must not be empty"));
    }
    Ok(())
}

/// The postcondition of a write on record counts: one more record, or as
/// many as before.
pub fn post_write(before_count: usize, after_count: usize) -> (r: bool)
    ensures
        r == (after_count == before_count + 1 || after_count == before_count),
{
    (before_count < usize::MAX && after_count == before_count + 1) || after_count == before_count
}

/// The precondition of a read: both the record id and the requester are given.
pub fn pre_read(record_id: &str, requester_id: &str) -> (r: Result<(), String>)
    ensures
        r is Ok <==> record_id@.len() > 0 && requester_id@.len() > 0,
        r matches Err(m) ==> m@ == (if record_id@.len() == 0 {
            "pre_read: record_id must not be empty"@
        } else {
            "pre_read: requester_id must not be empty"@
        }),
{
    if record_id.is_empty() {
        return Err(owned("pre_read: record_id must not be empty"));
    }
    if requester_id.is_empty() {
        return Err(owned("pre_read: requester_id must not be empty"));
    }
    Ok(())
}

/// The postcondition of a delete on record counts: one fewer when the record
/// was found, as many as before when it was not.
pub fn post_delete(before_count: usize, after_count: usize, found: bool) -> (r: bool)
    ensures
        r == (if found {
            after_count == before_count - 1
        } else {
            after_count == before_count
        }),
{
    if found {
        before_count >= 1 && after_count == before_count - 1
    } else {
        after_count == before_count
    }
}

/// Witness that a `Noise` record is readable by anyone: it always holds.
pub fn witness_noise_open(record: &Record) -> (r: Result<(), String>)
    ensures
        r is Ok,
        record.tier == DataTier::Noise ==> forall|who: Seq<char>| tier_gate(record.tier, record.owner_id@, who),
{
    if record.tier != DataTier::Noise {
        return Ok(());
    }
    let readable_by_owner = text_eq(record.owner_id.as_str(), record.owner_id.as_str());
    let readable_by_stranger = true;
    if readable_by_owner && readable_by_stranger {
        Ok(())
    } else {
        Err(owned("witness_noise_open: Noise record not universally readable"))
    }
}

/// Witness that a `Critical` record passes the tier gate exactly for its
/// owner: it always holds.
pub fn witness_critical_owner_only(record: &Record, requester: &str) -> (r: Result<(), String>)
    ensures
        r is Ok,
        record.tier == DataTier::Critical ==> (tier_gate(record.tier, record.owner_id@, requester@)
            <==> requester@ == record.owner_id@),
{
    if record.tier != DataTier::Critical {
        return Ok(());
    }
    let should_permit = text_eq(requester, record.owner_id.as_str());
    let tier_gate_result = invariant_tier_gate(record, requester);
    if tier_gate_result == should_permit {
        Ok(())
    } else {
        let mut m = owned("witness_critical_owner_only: tier gate mismatch for ");
        m.append(requester);
        Err(m)
    }
}

/// Witness that a write is read back: writes `record` and reads it as its
/// owner. A write of an id already present fails with the store's message;
/// otherwise the read succeeds, both operations are audited, and the record
/// is in the store.
pub fn witness_write_read_consistency(store: &mut Store, record: Record, _requester_id: &str) -> (r: Result<(), String>)
    ensures
        old(store).records@.contains_key(record.id) ==> {
            &&& r matches Err(m) && m@ == "Record already exists"@
            &&& final(store).records@ == old(store).records@
            &&& final(store).audit_log@ == old(store).audit_log@
        },
        !old(store).records@.contains_key(record.id) ==> {
            &&& r is Ok
            &&& final(store).records@ == old(store).records@.insert(record.id, record)
            &&& final(store).audit_log@.len() == old(store).audit_log@.len() + 2
            &&& final(store).audit_log@.take(old(store).audit_log@.len() as int) == old(store).audit_log@
            &&& final(store).audit_log@[old(store).audit_log@.len() as int].action == AuditAction::Write
            &&& final(store).audit_log@.last().action == AuditAction::ReadGranted
        },
{
    let id = record.id;
    let owner = owned(record.owner_id.as_str());
    let ghost rec = record;
    let ghost before = store.audit_log@;
    match store.write(record) {
        Ok(()) => {},
        Err(e) => {
            return Err(owned(e.message()));
        },
    }
    let ghost mid = store.audit_log@;
    match store.read(id, owner.as_str()) {
        Ok(_) => {
            proof {
                assert(store.audit_log@.drop_last() == mid);
                assert(mid.drop_last() == before);
                assert(store.audit_log@.take(before.len() as int) =~= before);
                assert(store.audit_log@[before.len() as int] == mid.last());
            }
            Ok(())
        },
        Err(e) => {
            let mut m = owned("witness_write_read_consistency: read after write failed: ");
            m.append(e.message());
            Err(m)
        },
    }
}

} // verus!
