//! The owner-first record store: records keyed by id, a tier gate on reads,
//! and an audit trail that every write, read attempt and delete extends.

use std::collections::HashMap;
use vstd::prelude::*;

use crate::clock::now;
use crate::text::text_eq;

verus! {

broadcast use vstd::std_specs::hash::group_hash_axioms;

/// How sensitive a record is. `Critical` and `Personal` records are readable
/// by their owner alone; `Noise` is readable by anyone.
#[derive(Debug, Clone, Copy, PartialEq, Eq, Structural)]
pub enum DataTier {
    Critical,
    Personal,
    Noise,
}

/// Errors of the store and of the layers above it.
#[derive(Debug, Clone, Copy, PartialEq, Eq, Structural)]
pub enum EdisonError {
    NoOwner,
    AccessDenied,
    NotFound,
    SaveFailed,
    LoadFailed,
    EncryptionFailed,
    DecryptionFailed,
    KeyDerivationFailed,
    AlreadyExists,
    EmbeddingUnavailable,
}

/// The human-readable text of an error.
pub open spec fn error_text(e: EdisonError) -> Seq<char> {
    match e {
        EdisonError::NoOwner => "Record must have an owner"@,
        EdisonError::AccessDenied => "Access denied — owner only"@,
        EdisonError::NotFound => "Record not found"@,
        EdisonError::SaveFailed => "Failed to save database"@,
        EdisonError::LoadFailed => "Failed to load database"@,
        EdisonError::EncryptionFailed => "Encryption failed"@,
        EdisonError::DecryptionFailed => "Decryption failed — wrong key or corrupted data"@,
        EdisonError::KeyDerivationFailed => "Key derivation failed"@,
        EdisonError::AlreadyExists => "Record already exists"@,
        EdisonError::EmbeddingUnavailable => "Embedding service unavailable"@,
    }
}

impl EdisonError {
    /// The human-readable text of the error.
    pub fn message(&self) -> (m: &'static str)
        ensures
            m@ == error_text(*self),
    {
        match self {
            EdisonError::NoOwner => "Record must have an owner",
            EdisonError::AccessDenied => "Access denied — owner only",
            EdisonError::NotFound => "Record not found",
            EdisonError::SaveFailed => "Failed to save database",
            EdisonError::LoadFailed => "Failed to load database",
            EdisonError::EncryptionFailed => "Encryption failed",
            EdisonError::DecryptionFailed => "Decryption failed — wrong key or corrupted data",
            EdisonError::KeyDerivationFailed => "Key derivation failed",
            EdisonError::AlreadyExists => "Record already exists",
            EdisonError::EmbeddingUnavailable => "Embedding service unavailable",
        }
    }
}

/// A stored record. The payload is opaque bytes (the encrypted envelope when
/// written through the executor); `salt` is the key-derivation salt.
#[derive(Debug, Clone, PartialEq)]
pub struct Record {
    pub id: u64,
    pub tier: DataTier,
    pub owner_id: String,
    pub payload: Vec<u8>,
    pub salt: [u8; 32],
    pub created_at: u64,
}

/// The tier gate: who may read a record of a tier owned by `owner`.
pub open spec fn tier_gate(tier: DataTier, owner: Seq<char>, requester: Seq<char>) -> bool {
    match tier {
        DataTier::Noise => true,
        _ => requester == owner,
    }
}

/// The owner passes the tier gate of every record they own.
pub proof fn lemma_owner_always_passes(tier: DataTier, owner: Seq<char>)
    ensures
        tier_gate(tier, owner, owner),
{
}

/// Anyone may read a `Noise` record.
pub proof fn lemma_noise_readable_by_all(owner: Seq<char>, requester: Seq<char>)
    ensures
        tier_gate(DataTier::Noise, owner, requester),
{
}

/// `Critical` and `Personal` records are readable by their owner alone:
/// no other requester, administrators included, may read them.
pub proof fn lemma_guarded_tiers_owner_only(tier: DataTier, owner: Seq<char>, requester: Seq<char>)
    requires
        tier != DataTier::Noise,
    ensures
        tier_gate(tier, owner, requester) <==> requester == owner,
{
}

impl Record {
    /// Builds a record stamped with the current time; an empty owner is refused.
    pub fn new(id: u64, tier: DataTier, owner_id: &str, payload: Vec<u8>, salt: [u8; 32]) -> (r:
        Result<Record, EdisonError>)
        ensures
            owner_id@.len() == 0 <==> r == Err::<Record, EdisonError>(EdisonError::NoOwner),
            owner_id@.len() > 0 <==> r is Ok,
            r matches Ok(rec) ==> {
                &&& rec.id == id
                &&& rec.tier == tier
                &&& rec.owner_id@ == owner_id@
                &&& rec.payload@ == payload@
                &&& rec.salt == salt
            },
    {
        if owner_id.is_empty() {
            return Err(EdisonError::NoOwner);
        }
        Record::new_at(id, tier, owner_id, payload, salt, now())
    }

    /// Builds a record created at `created_at` (seconds since the Unix epoch);
    /// an empty owner is refused.
    pub fn new_at(id: u64, tier: DataTier, owner_id: &str, payload: Vec<u8>, salt: [u8; 32], created_at: u64) -> (r:
        Result<Record, EdisonError>)
        ensures
            owner_id@.len() == 0 ==> r == Err::<Record, EdisonError>(EdisonError::NoOwner),
            owner_id@.len() > 0 ==> (r matches Ok(rec) && {
                &&& rec.id == id
                &&& rec.tier == tier
                &&& rec.owner_id@ == owner_id@
                &&& rec.payload@ == payload@
                &&& rec.salt == salt
                &&& rec.created_at == created_at
            }),
    {
        if owner_id.is_empty() {
            return Err(EdisonError::NoOwner);
        }
        Ok(Record { id, tier, owner_id: owner_id.to_owned(), payload, salt, created_at })
    }

    /// Whether `requester_id` passes the tier gate of this record.
    pub fn is_readable_by(&self, requester_id: &str) -> (r: bool)
        ensures
            r == tier_gate(self.tier, self.owner_id@, requester_id@),
    {
        match self.tier {
            DataTier::Critical => text_eq(requester_id, self.owner_id.as_str()),
            DataTier::Personal => text_eq(requester_id, self.owner_id.as_str()),
            DataTier::Noise => true,
        }
    }
}

/// What an audit entry records.
#[derive(Debug, Clone, Copy, PartialEq, Eq, Structural)]
pub enum AuditAction {
    Write,
    ReadGranted,
    ReadDenied,
    Delete,
}

/// One line of the audit trail.
#[derive(Debug, Clone)]
pub struct AuditEntry {
    pub record_id: u64,
    pub requester_id: String,
    pub action: AuditAction,
    pub timestamp: u64,
}

/// Whether `e` records `action` by `requester` on record `id`.
pub open spec fn entry_records(e: AuditEntry, id: u64, requester: Seq<char>, action: AuditAction) -> bool {
    &&& e.record_id == id
    &&& e.requester_id@ == requester
    &&& e.action == action
}

/// `after` is `before` with one more entry, which records `action`.
pub open spec fn audit_extended(
    before: Seq<AuditEntry>,
    after: Seq<AuditEntry>,
    id: u64,
    requester: Seq<char>,
    action: AuditAction,
) -> bool {
    &&& after.len() == before.len() + 1
    &&& after.drop_last() == before
    &&& entry_records(after.last(), id, requester, action)
}

/// `keys` are the ids of the records of `m` owned by `owner`, each once.
pub open spec fn owned_keys(m: Map<u64, Record>, owner: Seq<char>, keys: Seq<u64>) -> bool {
    &&& keys.no_duplicates()
    &&& forall|i: int| 0 <= i < keys.len() ==> m.contains_key(#[trigger] keys[i])
    &&& forall|k: u64| (m.contains_key(k) && m[k].owner_id@ == owner) <==> #[trigger] keys.contains(k)
}

/// `out` lists, in the order of `keys`, exactly the records of `m` owned by
/// `owner`, each once.
pub open spec fn lists_owned(m: Map<u64, Record>, owner: Seq<char>, keys: Seq<u64>, out: Seq<&Record>) -> bool {
    &&& owned_keys(m, owner, keys)
    &&& keys.len() == out.len()
    &&& forall|i: int| 0 <= i < keys.len() ==> *out[i] == m[#[trigger] keys[i]]
}

/// The in-memory store: records by id and the audit trail.
#[derive(Debug, Clone)]
pub struct Store {
    pub records: HashMap<u64, Record>,
    pub audit_log: Vec<AuditEntry>,
}

impl Store {
    /// An empty store with an empty audit trail.
    pub fn new() -> (s: Store)
        ensures
            s.records@ == Map::<u64, Record>::empty(),
            s.audit_log@ == Seq::<AuditEntry>::empty(),
    {
        Store { records: HashMap::new(), audit_log: Vec::new() }
    }

    /// Stores a record under its id. An id already present is refused and
    /// nothing changes; otherwise the write is audited under the owner's name.
    pub fn write(&mut self, record: Record) -> (r: Result<(), EdisonError>)
        ensures
            old(self).records@.contains_key(record.id) ==> {
                &&& r == Err::<(), EdisonError>(EdisonError::AlreadyExists)
                &&& final(self).records@ == old(self).records@
                &&& final(self).audit_log@ == old(self).audit_log@
            },
            !old(self).records@.contains_key(record.id) ==> {
                &&& r == Ok::<(), EdisonError>(())
                &&& final(self).records@ == old(self).records@.insert(record.id, record)
                &&& audit_extended(
                    old(self).audit_log@,
                    final(self).audit_log@,
                    record.id,
                    record.owner_id@,
                    AuditAction::Write,
                )
            },
    {
        self.write_at(record, now())
    }

    /// Stores a record under its id. An id already present is refused and
    /// nothing changes; otherwise the write is audited under the owner's name.
    /// The audit entry carries the time `at` (seconds since the Unix epoch).
    pub fn write_at(&mut self, record: Record, at: u64) -> (r: Result<(), EdisonError>)
        ensures
            old(self).records@.contains_key(record.id) ==> {
                &&& r == Err::<(), EdisonError>(EdisonError::AlreadyExists)
                &&& final(self).records@ == old(self).records@
                &&& final(self).audit_log@ == old(self).audit_log@
            },
            !old(self).records@.contains_key(record.id) ==> {
                &&& r == Ok::<(), EdisonError>(())
                &&& final(self).records@ == old(self).records@.insert(record.id, record)
                &&& audit_extended(
                    old(self).audit_log@,
                    final(self).audit_log@,
                    record.id,
                    record.owner_id@,
                    AuditAction::Write,
                )
                &&& final(self).audit_log@.last().timestamp == at
            },
    {
        if self.records.contains_key(&record.id) {
            return Err(EdisonError::AlreadyExists);
        }
        let entry = AuditEntry {
            record_id: record.id,
            requester_id: record.owner_id.clone(),
            action: AuditAction::Write,
            timestamp: at,
        };
        self.audit_log.push(entry);
        assert(self.audit_log@.drop_last() =~= old(self).audit_log@);
        let id = record.id;
        self.records.insert(id, record);
        Ok(())
    }

    /// Reads a record through the tier gate. A missing id is reported without
    /// an audit entry; every read of a present record is audited as granted or
    /// denied.
    pub fn read(&mut self, id: u64, requester_id: &str) -> (r: Result<&Record, EdisonError>)
        ensures
            final(self).records@ == old(self).records@,
            !old(self).records@.contains_key(id) ==> {
                &&& r == Err::<&Record, EdisonError>(EdisonError::NotFound)
                &&& final(self).audit_log@ == old(self).audit_log@
            },
            old(self).records@.contains_key(id) && tier_gate(
                old(self).records@[id].tier,
                old(self).records@[id].owner_id@,
                requester_id@,
            ) ==> {
                &&& r matches Ok(rec) && *rec == old(self).records@[id]
                &&& audit_extended(
                    old(self).audit_log@,
                    final(self).audit_log@,
                    id,
                    requester_id@,
                    AuditAction::ReadGranted,
                )
            },
            old(self).records@.contains_key(id) && !tier_gate(
                old(self).records@[id].tier,
                old(self).records@[id].owner_id@,
                requester_id@,
            ) ==> {
                &&& r == Err::<&Record, EdisonError>(EdisonError::AccessDenied)
                &&& audit_extended(
                    old(self).audit_log@,
                    final(self).audit_log@,
                    id,
                    requester_id@,
                    AuditAction::ReadDenied,
                )
            },
    {
        self.read_at(id, requester_id, now())
    }

    /// Reads a record through the tier gate. A missing id is reported without
    /// an audit entry; every read of a present record is audited as granted or
    /// denied.
    /// The audit entry carries the time `at` (seconds since the Unix epoch).
    pub fn read_at(&mut self, id: u64, requester_id: &str, at: u64) -> (r: Result<&Record, EdisonError>)
        ensures
            final(self).records@ == old(self).records@,
            !old(self).records@.contains_key(id) ==> {
                &&& r == Err::<&Record, EdisonError>(EdisonError::NotFound)
                &&& final(self).audit_log@ == old(self).audit_log@
            },
            old(self).records@.contains_key(id) && tier_gate(
                old(self).records@[id].tier,
                old(self).records@[id].owner_id@,
                requester_id@,
            ) ==> {
                &&& r matches Ok(rec) && *rec == old(self).records@[id]
                &&& audit_extended(
                    old(self).audit_log@,
                    final(self).audit_log@,
                    id,
                    requester_id@,
                    AuditAction::ReadGranted,
                )
                &&& final(self).audit_log@.last().timestamp == at
            },
            old(self).records@.contains_key(id) && !tier_gate(
                old(self).records@[id].tier,
                old(self).records@[id].owner_id@,
                requester_id@,
            ) ==> {
                &&& r == Err::<&Record, EdisonError>(EdisonError::AccessDenied)
                &&& audit_extended(
                    old(self).audit_log@,
                    final(self).audit_log@,
                    id,
                    requester_id@,
                    AuditAction::ReadDenied,
                )
                &&& final(self).audit_log@.last().timestamp == at
            },
    {
        match self.records.get(&id) {
            None => Err(EdisonError::NotFound),
            Some(record) => {
                if record.is_readable_by(requester_id) {
                    self.audit_log.push(
                        AuditEntry {
                            record_id: id,
                            requester_id: requester_id.to_owned(),
                            action: AuditAction::ReadGranted,
                            timestamp: at,
                        },
                    );
                    assert(self.audit_log@.drop_last() =~= old(self).audit_log@);
                    Ok(record)
                } else {
                    self.audit_log.push(
                        AuditEntry {
                            record_id: id,
                            requester_id: requester_id.to_owned(),
                            action: AuditAction::ReadDenied,
                            timestamp: at,
                        },
                    );
                    assert(self.audit_log@.drop_last() =~= old(self).audit_log@);
                    Err(EdisonError::AccessDenied)
                }
            },
        }
    }

    /// The records owned by `owner_id`, each once, in the order the map walks
    /// its keys (which is not stated).
    pub fn list_by_owner(&self, owner_id: &str) -> (v: Vec<&Record>)
        ensures
            exists|keys: Seq<u64>| #[trigger] lists_owned(self.records@, owner_id@, keys, v@),
    {
        let mut out: Vec<&Record> = Vec::new();
        let ghost mut keys: Seq<u64> = Seq::empty();
        let ghost mut pos: Seq<int> = Seq::empty();
        let ghost m = self.records@;
        for k in it: self.records.keys()
            invariant
                m == self.records@,
                it.seq().no_duplicates(),
                it.seq().unref().to_set() == m.dom(),
                keys.len() == out@.len(),
                pos.len() == keys.len(),
                keys.no_duplicates(),
                forall|i: int|
                    0 <= i < keys.len() ==> m.contains_key(#[trigger] keys[i]) && *out@[i] == m[keys[i]]
                        && m[keys[i]].owner_id@ == owner_id@,
                forall|i: int|
                    0 <= i < pos.len() ==> 0 <= #[trigger] pos[i] < it.index() && keys[i] == *it.seq()[pos[i]],
                forall|k: u64|
                    m.contains_key(k) && m[k].owner_id@ == owner_id@ && !(#[trigger] keys.contains(k))
                        ==> exists|j: int| it.index() <= j < it.seq().len() && *#[trigger] it.seq()[j] == k,
        {
            let ghost idx = it.index();
            assert(it.seq().unref()[idx] == *k);
            assert(it.seq().unref().to_set().contains(*k));
            let ghost old_keys = keys;
            match self.records.get(k) {
                Some(rec) => {
                    if text_eq(rec.owner_id.as_str(), owner_id) {
                        out.push(rec);
                        proof {
                            assert forall|i: int| 0 <= i < old_keys.len() implies old_keys[i] != *k by {
                                assert(pos[i] < idx);
                                assert(it.seq()[pos[i]] != it.seq()[idx]);
                            }
                            keys = keys.push(*k);
                            pos = pos.push(idx);
                        }
                    }
                },
                None => {},
            }
            proof {
                assert forall|kk: u64|
                    m.contains_key(kk) && m[kk].owner_id@ == owner_id@ && !(#[trigger] keys.contains(kk))
                    implies exists|j: int| idx + 1 <= j < it.seq().len() && *#[trigger] it.seq()[j] == kk by {
                    if old_keys.contains(kk) {
                        let i = choose|i: int| 0 <= i < old_keys.len() && old_keys[i] == kk;
                        assert(keys[i] == kk);
                    }
                    let j = choose|j: int| idx <= j < it.seq().len() && *it.seq()[j] == kk;
                    if j == idx {
                        assert(keys.last() == kk);
                    }
                }
            }
        }
        proof {
            assert forall|k: u64| (m.contains_key(k) && m[k].owner_id@ == owner_id@) implies #[trigger] keys.contains(k) by {
            }
            assert forall|k: u64| #[trigger] keys.contains(k) implies (m.contains_key(k) && m[k].owner_id@ == owner_id@) by {
                let i = choose|i: int| 0 <= i < keys.len() && keys[i] == k;
                assert(m.contains_key(keys[i]));
            }
            assert(lists_owned(self.records@, owner_id@, keys, out@));
        }
        out
    }

    /// Deletes a record. Only its owner may delete it, whatever its tier; a
    /// refused delete leaves the store and the audit trail as they were.
    pub fn delete(&mut self, id: u64, requester_id: &str) -> (r: Result<(), EdisonError>)
        ensures
            !old(self).records@.contains_key(id) ==> {
                &&& r == Err::<(), EdisonError>(EdisonError::NotFound)
                &&& final(self).records@ == old(self).records@
                &&& final(self).audit_log@ == old(self).audit_log@
            },
            old(self).records@.contains_key(id) && old(self).records@[id].owner_id@ != requester_id@ ==> {
                &&& r == Err::<(), EdisonError>(EdisonError::AccessDenied)
                &&& final(self).records@ == old(self).records@
                &&& final(self).audit_log@ == old(self).audit_log@
            },
            old(self).records@.contains_key(id) && old(self).records@[id].owner_id@ == requester_id@ ==> {
                &&& r == Ok::<(), EdisonError>(())
                &&& final(self).records@ == old(self).records@.remove(id)
                &&& audit_extended(
                    old(self).audit_log@,
                    final(self).audit_log@,
                    id,
                    requester_id@,
                    AuditAction::Delete,
                )
            },
    {
        self.delete_at(id, requester_id, now())
    }

    /// Deletes a record. Only its owner may delete it, whatever its tier; a
    /// refused delete leaves the store and the audit trail as they were.
    /// The audit entry carries the time `at` (seconds since the Unix epoch).
    pub fn delete_at(&mut self, id: u64, requester_id: &str, at: u64) -> (r: Result<(), EdisonError>)
        ensures
            !old(self).records@.contains_key(id) ==> {
                &&& r == Err::<(), EdisonError>(EdisonError::NotFound)
                &&& final(self).records@ == old(self).records@
                &&& final(self).audit_log@ == old(self).audit_log@
            },
            old(self).records@.contains_key(id) && old(self).records@[id].owner_id@ != requester_id@ ==> {
                &&& r == Err::<(), EdisonError>(EdisonError::AccessDenied)
                &&& final(self).records@ == old(self).records@
                &&& final(self).audit_log@ == old(self).audit_log@
            },
            old(self).records@.contains_key(id) && old(self).records@[id].owner_id@ == requester_id@ ==> {
                &&& r == Ok::<(), EdisonError>(())
                &&& final(self).records@ == old(self).records@.remove(id)
                &&& audit_extended(
                    old(self).audit_log@,
                    final(self).audit_log@,
                    id,
                    requester_id@,
                    AuditAction::Delete,
                )
                &&& final(self).audit_log@.last().timestamp == at
            },
    {
        let is_owner = match self.records.get(&id) {
            None => {
                return Err(EdisonError::NotFound);
            },
            Some(record) => text_eq(record.owner_id.as_str(), requester_id),
        };
        if !is_owner {
            return Err(EdisonError::AccessDenied);
        }
        self.audit_log.push(
            AuditEntry {
                record_id: id,
                requester_id: requester_id.to_owned(),
                action: AuditAction::Delete,
                timestamp: at,
            },
        );
        assert(self.audit_log@.drop_last() =~= old(self).audit_log@);
        self.records.remove(&id);
        Ok(())
    }

    /// Number of audit entries.
    pub fn audit_count(&self) -> (n: usize)
        ensures
            n == self.audit_log@.len(),
    {
        self.audit_log.len()
    }

    /// The audit trail, oldest first.
    pub fn audit_entries(&self) -> (v: &Vec<AuditEntry>)
        ensures
            v@ == self.audit_log@,
    {
        &self.audit_log
    }
}

impl Default for Store {
    fn default() -> (s: Store)
        ensures
            s.records@ == Map::<u64, Record>::empty(),
            s.audit_log@ == Seq::<AuditEntry>::empty(),
    {
        Store::new()
    }
}

} // verus!
