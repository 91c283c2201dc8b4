//! The EQL executor: runs parsed statements for one owner against a store.
//! Every payload is written as an encrypted envelope `<id>\n<payload>` under a
//! key derived from the owner's password and a fresh per-record salt; the
//! record is stored under a hash of its string id.

use std::collections::hash_map::DefaultHasher;
use std::hash::{Hash, Hasher};
use vstd::prelude::*;
use vstd::utf8::{decode_utf8, encode_utf8, valid_utf8};

use crate::crypto::{
    aes256_gcm_open, argon2_key, decrypt_payload, derive_key, encrypt_payload, is_envelope_of,
    open_envelope, random_bytes, AES_GCM_MAX_PLAINTEXT,
};
use crate::eql::parser::{is_word, lemma_parsed_ids_are_words, parse_spec};
use crate::eql::{Statement, StatementView, Tier};
use crate::store::{
    audit_extended, lists_owned, tier_gate, AuditAction, AuditEntry, DataTier, EdisonError, Record,
    Store,
};
use crate::text::{decimal_text, owned, padded_decimal, push_decimal, push_padded_decimal, utf8_to_string};
use vstd::slice::slice_to_vec;

verus! {

broadcast use vstd::string::group_string_axioms;

/// The number a string id is stored under.
pub uninterp spec fn string_id_hash(id: Seq<char>) -> u64;

/// Hashes a string id with `DefaultHasher::new()`, `Hash::hash` and
/// `Hasher::finish`. Claimed: the number depends on the id alone (std
/// documents that every `DefaultHasher::new()` hasher is the same).
#[verifier::external_body]
fn id_hash(s: &str) -> (h: u64)
    ensures
        h == string_id_hash(s@),
{
    let mut hasher = DefaultHasher::new();
    s.hash(&mut hasher);
    hasher.finish()
}

/// The name of an audit action, as its debugging output spells it.
pub open spec fn action_label(a: AuditAction) -> Seq<char> {
    match a {
        AuditAction::Write => "Write"@,
        AuditAction::ReadGranted => "ReadGranted"@,
        AuditAction::ReadDenied => "ReadDenied"@,
        AuditAction::Delete => "Delete"@,
    }
}

fn action_label_str(a: AuditAction) -> (s: &'static str)
    ensures
        s@ == action_label(a),
{
    match a {
        AuditAction::Write => "Write",
        AuditAction::ReadGranted => "ReadGranted",
        AuditAction::ReadDenied => "ReadDenied",
        AuditAction::Delete => "Delete",
    }
}

/// The text of one audit line: the timestamp right-aligned in ten
/// characters, the action, the record number and the requester.
pub open spec fn audit_line_text(timestamp: u64, action: AuditAction, record_id: u64, requester: Seq<char>) -> Seq<
    char,
> {
    "t="@ + padded_decimal(timestamp as nat, 10) + "  "@ + action_label(action) + "  record="@ + decimal_text(
        record_id as nat,
    ) + "  by="@ + requester
}

/// Writes one audit line.
fn audit_line(e: &AuditEntry) -> (s: String)
    ensures
        s@ == audit_line_text(e.timestamp, e.action, e.record_id, e.requester_id@),
{
    let mut s = String::from_str("t=");
    push_padded_decimal(&mut s, e.timestamp, 10);
    s.append("  ");
    s.append(action_label_str(e.action));
    s.append("  record=");
    push_decimal(&mut s, e.record_id);
    s.append("  by=");
    s.append(e.requester_id.as_str());
    s
}

/// The plaintext envelope of a record: the string id, a line feed, the payload.
pub open spec fn envelope_text(id: Seq<char>, payload: Seq<char>) -> Seq<char> {
    id + seq!['\n'] + payload
}

/// Whether `text` holds no line feed before `i` and one at `i`.
pub open spec fn first_newline_at(text: Seq<char>, i: int) -> bool {
    &&& 0 <= i < text.len()
    &&& text[i] == '\n'
    &&& forall|j: int| 0 <= j < i ==> text[j] != '\n'
}

/// The string id part of an envelope: what precedes the first line feed, or
/// nothing when there is none.
pub open spec fn envelope_id(text: Seq<char>) -> Seq<char> {
    if exists|i: int| first_newline_at(text, i) {
        text.take(choose|i: int| first_newline_at(text, i))
    } else {
        Seq::empty()
    }
}

/// The payload part of an envelope: what follows the first line feed, or the
/// whole text when there is none.
pub open spec fn envelope_payload(text: Seq<char>) -> Seq<char> {
    if exists|i: int| first_newline_at(text, i) {
        text.skip((choose|i: int| first_newline_at(text, i)) + 1)
    } else {
        text
    }
}

/// Builds the envelope text.
fn encode(id: &str, payload: &str) -> (s: String)
    ensures
        s@ == envelope_text(id@, payload@),
{
    let mut s = owned(id);
    s.append("\n");
    s.append(payload);
    proof {
        reveal_strlit("\n");
    }
    s
}

/// Splits an envelope at its first line feed.
fn decode(raw: &str) -> (parts: (&str, &str))
    ensures
        parts.0@ == envelope_id(raw@),
        parts.1@ == envelope_payload(raw@),
{
    let n = raw.unicode_len();
    let mut i: usize = 0;
    while i < n
        invariant
            n == raw@.len(),
            i <= n,
            forall|j: int| 0 <= j < i ==> raw@[j] != '\n',
        decreases n - i,
    {
        if raw.get_char(i) == '\n' {
            proof {
                assert(first_newline_at(raw@, i as int));
                assert forall|k: int| first_newline_at(raw@, k) implies k == i by {
                    if k < i {
                        assert(raw@[k] != '\n');
                    } else if k > i {
                        assert(raw@[i as int] == '\n');
                    }
                }
            }
            return (raw.substring_char(0, i), raw.substring_char(i + 1, n));
        }
        i = i + 1;
    }
    proof {
        reveal_strlit("");
        assert(!exists|k: int| first_newline_at(raw@, k));
    }
    ("", raw)
}

/// The storage tier of a statement tier.
pub open spec fn data_tier_of(t: Tier) -> DataTier {
    match t {
        Tier::Critical => DataTier::Critical,
        Tier::Personal => DataTier::Personal,
        Tier::Noise => DataTier::Noise,
    }
}

fn to_data_tier(t: &Tier) -> (d: DataTier)
    ensures
        d == data_tier_of(*t),
{
    match t {
        Tier::Critical => DataTier::Critical,
        Tier::Personal => DataTier::Personal,
        Tier::Noise => DataTier::Noise,
    }
}

/// One line of a listing.
#[derive(Debug)]
pub struct RecordInfo {
    pub string_id: String,
    pub tier: DataTier,
    pub created_at: u64,
}

/// The mathematical value of a listing line.
pub struct RecordInfoView {
    pub string_id: Seq<char>,
    pub tier: DataTier,
    pub created_at: u64,
}

impl View for RecordInfo {
    type V = RecordInfoView;

    open spec fn view(&self) -> RecordInfoView {
        RecordInfoView { string_id: self.string_id@, tier: self.tier, created_at: self.created_at }
    }
}

/// What a statement produced.
#[derive(Debug)]
pub enum EqlResult {
    Written { id: String, tier: Tier },
    Read { id: String, tier: DataTier, payload: String },
    Listed(Vec<RecordInfo>),
    Deleted { id: String },
    Audited(Vec<String>),
}

/// The mathematical value of a statement's result.
pub enum EqlResultView {
    Written { id: Seq<char>, tier: Tier },
    Read { id: Seq<char>, tier: DataTier, payload: Seq<char> },
    Listed(Seq<RecordInfoView>),
    Deleted { id: Seq<char> },
    Audited(Seq<Seq<char>>),
}

impl View for EqlResult {
    type V = EqlResultView;

    open spec fn view(&self) -> EqlResultView {
        match self {
            EqlResult::Written { id, tier } => EqlResultView::Written { id: id@, tier: *tier },
            EqlResult::Read { id, tier, payload } => EqlResultView::Read { id: id@, tier: *tier, payload: payload@ },
            EqlResult::Listed(v) => EqlResultView::Listed(v@.map_values(|i: RecordInfo| i@)),
            EqlResult::Deleted { id } => EqlResultView::Deleted { id: id@ },
            EqlResult::Audited(v) => EqlResultView::Audited(v@.map_values(|l: String| l@)),
        }
    }
}

/// The value of a statement's outcome.
pub open spec fn outcome(r: Result<EqlResult, EdisonError>) -> Result<EqlResultView, EdisonError> {
    match r {
        Ok(x) => Ok(x@),
        Err(e) => Err(e),
    }
}

/// Opening a record with the owner's password: the envelope text, or why it
/// cannot be had (a password too long for key derivation; an envelope that
/// does not authenticate or is not UTF-8).
pub open spec fn unseal(rec: Record, password: Seq<char>) -> Result<Seq<char>, EdisonError> {
    if encode_utf8(password).len() > 0xFFFF_FFFF {
        Err(EdisonError::KeyDerivationFailed)
    } else {
        match open_envelope(rec.payload@, argon2_key(encode_utf8(password), rec.salt@)) {
            None => Err(EdisonError::DecryptionFailed),
            Some(bytes) => if valid_utf8(bytes) {
                Ok(decode_utf8(bytes))
            } else {
                Err(EdisonError::DecryptionFailed)
            },
        }
    }
}

/// Whether `rec` is the record written for envelope bytes `env` under id
/// number `h`: its tier and owner, and a payload that seals `env` under the
/// key derived from `password` and the record's salt.
pub open spec fn seals(rec: Record, h: u64, tier: DataTier, owner: Seq<char>, password: Seq<char>, env: Seq<u8>) -> bool {
    &&& rec.id == h
    &&& rec.tier == tier
    &&& rec.owner_id@ == owner
    &&& is_envelope_of(rec.payload@, argon2_key(encode_utf8(password), rec.salt@), env)
    &&& open_envelope(rec.payload@, argon2_key(encode_utf8(password), rec.salt@)) == Some(env)
}

/// The store did not change.
pub open spec fn store_unchanged(before: Store, after: Store) -> bool {
    after.records@ == before.records@ && after.audit_log@ == before.audit_log@
}

/// The effect and result of `WRITE id TIER tier payload`.
pub open spec fn write_effect(
    before: Store,
    after: Store,
    owner: Seq<char>,
    password: Seq<char>,
    id: Seq<char>,
    tier: Tier,
    payload: Seq<char>,
    r: Result<EqlResultView, EdisonError>,
) -> bool {
    let h = string_id_hash(id);
    let env = encode_utf8(envelope_text(id, payload));
    let m = before.records@;
    if encode_utf8(password).len() > 0xFFFF_FFFF {
        r == Err::<EqlResultView, EdisonError>(EdisonError::KeyDerivationFailed) && store_unchanged(before, after)
    } else if env.len() > AES_GCM_MAX_PLAINTEXT {
        r == Err::<EqlResultView, EdisonError>(EdisonError::EncryptionFailed) && store_unchanged(before, after)
    } else if owner.len() == 0 {
        r == Err::<EqlResultView, EdisonError>(EdisonError::NoOwner) && store_unchanged(before, after)
    } else if m.contains_key(h) {
        r == Err::<EqlResultView, EdisonError>(EdisonError::AlreadyExists) && store_unchanged(before, after)
    } else {
        &&& r == Ok::<EqlResultView, EdisonError>(EqlResultView::Written { id, tier })
        &&& after.records@ == m.insert(h, after.records@[h])
        &&& seals(after.records@[h], h, data_tier_of(tier), owner, password, env)
        &&& audit_extended(before.audit_log@, after.audit_log@, h, owner, AuditAction::Write)
    }
}

/// The effect and result of `READ id`.
pub open spec fn read_effect(
    before: Store,
    after: Store,
    owner: Seq<char>,
    password: Seq<char>,
    id: Seq<char>,
    r: Result<EqlResultView, EdisonError>,
) -> bool {
    let h = string_id_hash(id);
    let m = before.records@;
    &&& after.records@ == m
    &&& if !m.contains_key(h) {
        r == Err::<EqlResultView, EdisonError>(EdisonError::NotFound) && after.audit_log@ == before.audit_log@
    } else if !tier_gate(m[h].tier, m[h].owner_id@, owner) {
        &&& r == Err::<EqlResultView, EdisonError>(EdisonError::AccessDenied)
        &&& audit_extended(before.audit_log@, after.audit_log@, h, owner, AuditAction::ReadDenied)
    } else {
        &&& audit_extended(before.audit_log@, after.audit_log@, h, owner, AuditAction::ReadGranted)
        &&& match unseal(m[h], password) {
            Ok(text) => r == Ok::<EqlResultView, EdisonError>(
                EqlResultView::Read { id, tier: m[h].tier, payload: envelope_payload(text) },
            ),
            Err(e) => r == Err::<EqlResultView, EdisonError>(e),
        }
    }
}

/// The effect and result of `DELETE id`.
pub open spec fn delete_effect(
    before: Store,
    after: Store,
    owner: Seq<char>,
    id: Seq<char>,
    r: Result<EqlResultView, EdisonError>,
) -> bool {
    let h = string_id_hash(id);
    let m = before.records@;
    if !m.contains_key(h) {
        r == Err::<EqlResultView, EdisonError>(EdisonError::NotFound) && store_unchanged(before, after)
    } else if m[h].owner_id@ != owner {
        r == Err::<EqlResultView, EdisonError>(EdisonError::AccessDenied) && store_unchanged(before, after)
    } else {
        &&& r == Ok::<EqlResultView, EdisonError>(EqlResultView::Deleted { id })
        &&& after.records@ == m.remove(h)
        &&& audit_extended(before.audit_log@, after.audit_log@, h, owner, AuditAction::Delete)
    }
}

/// Whether a record of tier `t` passes a listing's tier filter.
pub open spec fn tier_passes(t: DataTier, filter: Option<Tier>) -> bool {
    match filter {
        Some(f) => data_tier_of(f) == t,
        None => true,
    }
}

/// The listing lines for `recs` in order, or the first reason one of the
/// records that pass the filter cannot be opened.
pub open spec fn listed_infos(recs: Seq<Record>, filter: Option<Tier>, password: Seq<char>) -> Result<
    Seq<RecordInfoView>,
    EdisonError,
>
    decreases recs.len(),
{
    if recs.len() == 0 {
        Ok(Seq::empty())
    } else {
        match listed_infos(recs.drop_last(), filter, password) {
            Err(e) => Err(e),
            Ok(acc) => {
                let rec = recs.last();
                if !tier_passes(rec.tier, filter) {
                    Ok(acc)
                } else {
                    match unseal(rec, password) {
                        Err(e) => Err(e),
                        Ok(text) => Ok(
                            acc.push(
                                RecordInfoView {
                                    string_id: envelope_id(text),
                                    tier: rec.tier,
                                    created_at: rec.created_at,
                                },
                            ),
                        ),
                    }
                }
            },
        }
    }
}

/// Whether `r` is the result of listing, in the order of `keys`, the owner's
/// records that pass `filter`.
pub open spec fn listing(
    m: Map<u64, Record>,
    owner: Seq<char>,
    filter: Option<Tier>,
    password: Seq<char>,
    keys: Seq<u64>,
    r: Result<EqlResultView, EdisonError>,
) -> bool {
    &&& owned_keys_of(m, owner, keys)
    &&& match listed_infos(keys.map_values(|k: u64| m[k]), filter, password) {
        Ok(infos) => r == Ok::<EqlResultView, EdisonError>(EqlResultView::Listed(infos)),
        Err(e) => r == Err::<EqlResultView, EdisonError>(e),
    }
}

/// `keys` are the ids of the owner's records, each once.
pub open spec fn owned_keys_of(m: Map<u64, Record>, owner: Seq<char>, keys: Seq<u64>) -> bool {
    crate::store::owned_keys(m, owner, keys)
}

/// Whether an audit entry passes an audit filter (a record number, or none).
pub open spec fn entry_passes(e: AuditEntry, filter: Option<u64>) -> bool {
    match filter {
        Some(h) => e.record_id == h,
        None => true,
    }
}

/// The audit lines for the entries that pass `filter`, oldest first.
pub open spec fn audit_lines(entries: Seq<AuditEntry>, filter: Option<u64>) -> Seq<Seq<char>>
    decreases entries.len(),
{
    if entries.len() == 0 {
        Seq::empty()
    } else {
        let rest = audit_lines(entries.drop_last(), filter);
        let e = entries.last();
        if entry_passes(e, filter) {
            rest.push(audit_line_text(e.timestamp, e.action, e.record_id, e.requester_id@))
        } else {
            rest
        }
    }
}

/// The record number an optional string id filters on.
pub open spec fn id_filter(id: Option<Seq<char>>) -> Option<u64> {
    match id {
        Some(i) => Some(string_id_hash(i)),
        None => None,
    }
}

/// Once a prefix of the records fails to open, the whole listing fails with
/// the same error.
proof fn lemma_listing_error_persists(
    recs: Seq<Record>,
    filter: Option<Tier>,
    password: Seq<char>,
    i: int,
    e: EdisonError,
)
    requires
        0 <= i <= recs.len(),
        listed_infos(recs.take(i), filter, password) == Err::<Seq<RecordInfoView>, EdisonError>(e),
    ensures
        listed_infos(recs, filter, password) == Err::<Seq<RecordInfoView>, EdisonError>(e),
    decreases recs.len() - i,
{
    if i < recs.len() {
        assert(recs.take(i + 1).drop_last() =~= recs.take(i));
        lemma_listing_error_persists(recs, filter, password, i + 1, e);
    } else {
        assert(recs.take(i) =~= recs);
    }
}

/// The effect and result of running `stmt` for `owner` with `password`.
pub open spec fn statement_effect(
    before: Store,
    after: Store,
    owner: Seq<char>,
    password: Seq<char>,
    stmt: StatementView,
    r: Result<EqlResultView, EdisonError>,
) -> bool {
    match stmt {
        StatementView::Write { id, tier, payload } => write_effect(before, after, owner, password, id, tier, payload, r),
        StatementView::Read { id } => read_effect(before, after, owner, password, id, r),
        StatementView::List { tier } => {
            &&& store_unchanged(before, after)
            &&& exists|keys: Seq<u64>| #[trigger] listing(before.records@, owner, tier, password, keys, r)
        },
        StatementView::Delete { id } => delete_effect(before, after, owner, id, r),
        StatementView::Audit { id } => {
            &&& store_unchanged(before, after)
            &&& r == Ok::<EqlResultView, EdisonError>(EqlResultView::Audited(audit_lines(before.audit_log@, id_filter(id))))
        },
    }
}

/// Runs statements for one owner against a store.
pub struct EqlExecutor {
    store: Store,
    owner_id: String,
    password: String,
    db_path: String,
}

impl EqlExecutor {
    /// The store the executor works on.
    pub closed spec fn stored(&self) -> Store {
        self.store
    }

    /// The owner the executor acts for.
    pub closed spec fn owner(&self) -> Seq<char> {
        self.owner_id@
    }

    /// The owner's password.
    pub closed spec fn secret(&self) -> Seq<char> {
        self.password@
    }

    /// Where the store is persisted.
    pub closed spec fn path(&self) -> Seq<char> {
        self.db_path@
    }

    /// An executor for `owner_id` over the store persisted at `path`: the one
    /// loaded from there, or an empty one when there is none yet.
    pub fn open(path: &str, owner_id: &str, password: &str, loaded: Option<Store>) -> (ex: EqlExecutor)
        ensures
            ex.owner() == owner_id@,
            ex.secret() == password@,
            ex.path() == path@,
            match loaded {
                Some(s) => ex.stored() == s,
                None => ex.stored().records@ == Map::<u64, Record>::empty()
                    && ex.stored().audit_log@ == Seq::<AuditEntry>::empty(),
            },
    {
        let store = match loaded {
            Some(s) => s,
            None => Store::new(),
        };
        EqlExecutor { store, owner_id: owned(owner_id), password: owned(password), db_path: owned(path) }
    }

    /// The store, for persisting it.
    pub fn store(&self) -> (s: &Store)
        ensures
            *s == self.stored(),
    {
        &self.store
    }

    /// Where the store is persisted.
    pub fn db_path(&self) -> (p: &str)
        ensures
            p@ == self.path(),
    {
        self.db_path.as_str()
    }

    fn exec_write(&mut self, id: String, tier: Tier, payload: String) -> (r: Result<EqlResult, EdisonError>)
        ensures
            final(self).owner() == old(self).owner(),
            final(self).secret() == old(self).secret(),
            final(self).path() == old(self).path(),
            write_effect(
                old(self).stored(),
                final(self).stored(),
                old(self).owner(),
                old(self).secret(),
                id@,
                tier,
                payload@,
                outcome(r),
            ),
    {
        let salt: [u8; 32] = random_bytes();
        let key = match derive_key(self.password.as_str(), &salt) {
            Ok(k) => k,
            Err(e) => return Err(e),
        };
        let envelope = encode(id.as_str(), payload.as_str());
        let encrypted = match encrypt_payload(envelope.as_str().as_bytes(), &key) {
            Ok(c) => c,
            Err(e) => return Err(e),
        };
        let record = match Record::new(
            id_hash(id.as_str()),
            to_data_tier(&tier),
            self.owner_id.as_str(),
            encrypted,
            salt,
        ) {
            Ok(rec) => rec,
            Err(e) => return Err(e),
        };
        let ghost rec = record;
        match self.store.write(record) {
            Ok(()) => {},
            Err(e) => return Err(e),
        }
        proof {
            assert(self.store.records@[rec.id] == rec);
        }
        Ok(EqlResult::Written { id, tier })
    }

    fn exec_read(&mut self, id: String) -> (r: Result<EqlResult, EdisonError>)
        ensures
            final(self).owner() == old(self).owner(),
            final(self).secret() == old(self).secret(),
            final(self).path() == old(self).path(),
            read_effect(old(self).stored(), final(self).stored(), old(self).owner(), old(self).secret(), id@, outcome(r)),
    {
        let id_num = id_hash(id.as_str());
        let (salt, payload, tier) = match self.store.read(id_num, self.owner_id.as_str()) {
            Ok(record) => (record.salt, slice_to_vec(record.payload.as_slice()), record.tier),
            Err(e) => return Err(e),
        };
        let key = match derive_key(self.password.as_str(), &salt) {
            Ok(k) => k,
            Err(e) => return Err(e),
        };
        let decrypted = match decrypt_payload(payload.as_slice(), &key) {
            Ok(d) => d,
            Err(e) => return Err(e),
        };
        let raw = match utf8_to_string(decrypted) {
            Some(t) => t,
            None => return Err(EdisonError::DecryptionFailed),
        };
        let (_, data) = decode(raw.as_str());
        Ok(EqlResult::Read { id, tier, payload: owned(data) })
    }

    fn exec_delete(&mut self, id: String) -> (r: Result<EqlResult, EdisonError>)
        ensures
            final(self).owner() == old(self).owner(),
            final(self).secret() == old(self).secret(),
            final(self).path() == old(self).path(),
            delete_effect(old(self).stored(), final(self).stored(), old(self).owner(), id@, outcome(r)),
    {
        match self.store.delete(id_hash(id.as_str()), self.owner_id.as_str()) {
            Ok(()) => Ok(EqlResult::Deleted { id }),
            Err(e) => Err(e),
        }
    }

    fn exec_audit(&self, id: Option<String>) -> (r: Result<EqlResult, EdisonError>)
        ensures
            outcome(r) == Ok::<EqlResultView, EdisonError>(
                EqlResultView::Audited(
                    audit_lines(
                        self.stored().audit_log@,
                        id_filter(
                            match id {
                                Some(s) => Some(s@),
                                None => None,
                            },
                        ),
                    ),
                ),
            ),
    {
        let filter: Option<u64> = match &id {
            Some(s) => Some(id_hash(s.as_str())),
            None => None,
        };
        let entries = self.store.audit_entries();
        let ghost es = entries@;
        let mut lines: Vec<String> = Vec::new();
        let mut i: usize = 0;
        while i < entries.len()
            invariant
                es == entries@,
                i <= es.len(),
                lines@.map_values(|l: String| l@) == audit_lines(es.take(i as int), filter),
            decreases es.len() - i,
        {
            let e = &entries[i];
            assert(es.take(i as int + 1).drop_last() =~= es.take(i as int));
            let passes = match filter {
                Some(h) => e.record_id == h,
                None => true,
            };
            if passes {
                let line = audit_line(e);
                lines.push(line);
            }
            assert(lines@.map_values(|l: String| l@) =~= audit_lines(es.take(i as int + 1), filter));
            i = i + 1;
        }
        assert(es.take(es.len() as int) =~= es);
        Ok(EqlResult::Audited(lines))
    }

    fn exec_list(&self, tier_filter: Option<Tier>) -> (r: Result<EqlResult, EdisonError>)
        ensures
            exists|keys: Seq<u64>|
                #[trigger] listing(self.stored().records@, self.owner(), tier_filter, self.secret(), keys, outcome(r)),
    {
        let recs = self.store.list_by_owner(self.owner_id.as_str());
        let ghost m = self.store.records@;
        let ghost keys = choose|keys: Seq<u64>| lists_owned(m, self.owner_id@, keys, recs@);
        let ghost all = keys.map_values(|k: u64| m[k]);
        let mut infos: Vec<RecordInfo> = Vec::new();
        assert(all.take(0) =~= Seq::<Record>::empty());
        assert(infos@.map_values(|x: RecordInfo| x@) =~= Seq::<RecordInfoView>::empty());
        let mut i: usize = 0;
        while i < recs.len()
            invariant
                m == self.store.records@,
                lists_owned(m, self.owner_id@, keys, recs@),
                all == keys.map_values(|k: u64| m[k]),
                i <= recs@.len(),
                listed_infos(all.take(i as int), tier_filter, self.password@)
                    == Ok::<Seq<RecordInfoView>, EdisonError>(infos@.map_values(|x: RecordInfo| x@)),
            decreases recs@.len() - i,
        {
            let rec: &Record = recs[i];
            let ghost before = infos@.map_values(|x: RecordInfo| x@);
            assert(all.take(i as int + 1).drop_last() =~= all.take(i as int));
            assert(all.take(i as int + 1).last() == *rec);
            let passes = match &tier_filter {
                Some(tf) => to_data_tier(tf) == rec.tier,
                None => true,
            };
            if passes {
                let key = match derive_key(self.password.as_str(), &rec.salt) {
                    Ok(k) => k,
                    Err(e) => {
                        proof {
                            lemma_listing_error_persists(all, tier_filter, self.password@, i as int + 1, e);
                            assert(listing(self.stored().records@, self.owner(), tier_filter, self.secret(), keys, outcome(Err::<EqlResult, EdisonError>(e))));
                        }
                        return Err(e);
                    },
                };
                let decrypted = match decrypt_payload(rec.payload.as_slice(), &key) {
                    Ok(d) => d,
                    Err(e) => {
                        proof {
                            lemma_listing_error_persists(all, tier_filter, self.password@, i as int + 1, e);
                            assert(listing(self.stored().records@, self.owner(), tier_filter, self.secret(), keys, outcome(Err::<EqlResult, EdisonError>(e))));
                        }
                        return Err(e);
                    },
                };
                let raw = match utf8_to_string(decrypted) {
                    Some(t) => t,
                    None => {
                        proof {
                            lemma_listing_error_persists(
                                all,
                                tier_filter,
                                self.password@,
                                i as int + 1,
                                EdisonError::DecryptionFailed,
                            );
                            assert(listing(
                                self.stored().records@,
                                self.owner(),
                                tier_filter,
                                self.secret(),
                                keys,
                                outcome(Err::<EqlResult, EdisonError>(EdisonError::DecryptionFailed)),
                            ));
                        }
                        return Err(EdisonError::DecryptionFailed);
                    },
                };
                let (string_id, _) = decode(raw.as_str());
                infos.push(RecordInfo { string_id: owned(string_id), tier: rec.tier, created_at: rec.created_at });
                assert(infos@.map_values(|x: RecordInfo| x@) =~= before.push(infos@.last()@));
            }
            i = i + 1;
        }
        proof {
            assert(all.take(recs@.len() as int) =~= all);
            assert(listing(self.stored().records@, self.owner(), tier_filter, self.secret(), keys, outcome(Ok::<EqlResult, EdisonError>(EqlResult::Listed(infos)))));
        }
        Ok(EqlResult::Listed(infos))
    }

    /// Runs one statement. The executor's owner, password and path stay as
    /// they were; a `Written` or `Deleted` result changed the store, which the
    /// caller persists.
    pub fn execute(&mut self, stmt: Statement) -> (r: Result<EqlResult, EdisonError>)
        ensures
            final(self).owner() == old(self).owner(),
            final(self).secret() == old(self).secret(),
            final(self).path() == old(self).path(),
            statement_effect(old(self).stored(), final(self).stored(), old(self).owner(), old(self).secret(), stmt@, outcome(r)),
    {
        match stmt {
            Statement::Write { id, tier, payload } => self.exec_write(id, tier, payload),
            Statement::Read { id } => self.exec_read(id),
            Statement::List { tier } => self.exec_list(tier),
            Statement::Delete { id } => self.exec_delete(id),
            Statement::Audit { id } => self.exec_audit(id),
        }
    }
}


/// The envelope of `id` and `payload` splits back into them when `id` holds
/// no line feed.
pub proof fn lemma_envelope_split(id: Seq<char>, payload: Seq<char>)
    requires
        !id.contains('\n'),
    ensures
        envelope_id(envelope_text(id, payload)) == id,
        envelope_payload(envelope_text(id, payload)) == payload,
{
    let text = envelope_text(id, payload);
    let n = id.len() as int;
    assert(text[n] == '\n');
    assert forall|j: int| 0 <= j < n implies text[j] != '\n' by {
        assert(text[j] == id[j]);
    }
    assert(first_newline_at(text, n));
    assert forall|k: int| first_newline_at(text, k) implies k == n by {
        if k > n {
            assert(text[n] != '\n');
        }
    }
    assert(text.take(n) =~= id);
    assert(text.skip(n + 1) =~= payload);
}

/// What a write stores reads back: after an owner writes `payload` under
/// `id`, a read of `id` by the same owner with the same password gives the
/// payload and the tier it was written with, and audits the read as granted.
/// The id must hold no line feed, for the envelope splits at the first one.
pub proof fn lemma_write_then_read(
    s0: Store,
    s1: Store,
    s2: Store,
    owner: Seq<char>,
    password: Seq<char>,
    id: Seq<char>,
    tier: Tier,
    payload: Seq<char>,
    w: Result<EqlResultView, EdisonError>,
    r: Result<EqlResultView, EdisonError>,
)
    requires
        statement_effect(s0, s1, owner, password, StatementView::Write { id, tier, payload }, w),
        w is Ok,
        statement_effect(s1, s2, owner, password, StatementView::Read { id }, r),
        !id.contains('\n'),
    ensures
        r == Ok::<EqlResultView, EdisonError>(EqlResultView::Read { id, tier: data_tier_of(tier), payload }),
        s2.records@ == s1.records@,
        audit_extended(s1.audit_log@, s2.audit_log@, string_id_hash(id), owner, AuditAction::ReadGranted),
{
    let h = string_id_hash(id);
    let text = envelope_text(id, payload);
    let env = encode_utf8(text);
    let rec = s1.records@[h];
    assert(seals(rec, h, data_tier_of(tier), owner, password, env));
    assert(tier_gate(rec.tier, rec.owner_id@, owner));
    vstd::utf8::encode_utf8_valid_utf8(text);
    vstd::utf8::encode_utf8_decode_utf8(text);
    assert(unseal(rec, password) == Ok::<Seq<char>, EdisonError>(text));
    lemma_envelope_split(id, payload);
}

/// A deleted record is gone: after its owner deletes `id`, reading it gives
/// `NotFound` and adds nothing to the audit trail.
pub proof fn lemma_delete_then_read(
    s0: Store,
    s1: Store,
    s2: Store,
    owner: Seq<char>,
    reader: Seq<char>,
    password: Seq<char>,
    id: Seq<char>,
    d: Result<EqlResultView, EdisonError>,
    r: Result<EqlResultView, EdisonError>,
)
    requires
        statement_effect(s0, s1, owner, password, StatementView::Delete { id }, d),
        d is Ok,
        statement_effect(s1, s2, reader, password, StatementView::Read { id }, r),
    ensures
        r == Err::<EqlResultView, EdisonError>(EdisonError::NotFound),
        s2.audit_log@ == s1.audit_log@,
{
}

/// An id is written once: a second write of an id already present, whose
/// envelope the cipher accepts, is refused with `AlreadyExists` and changes
/// nothing.
pub proof fn lemma_second_write_refused(
    s0: Store,
    s1: Store,
    s2: Store,
    owner: Seq<char>,
    password: Seq<char>,
    id: Seq<char>,
    t1: Tier,
    p1: Seq<char>,
    t2: Tier,
    p2: Seq<char>,
    w1: Result<EqlResultView, EdisonError>,
    w2: Result<EqlResultView, EdisonError>,
)
    requires
        statement_effect(s0, s1, owner, password, StatementView::Write { id, tier: t1, payload: p1 }, w1),
        w1 is Ok,
        statement_effect(s1, s2, owner, password, StatementView::Write { id, tier: t2, payload: p2 }, w2),
        encode_utf8(envelope_text(id, p2)).len() <= AES_GCM_MAX_PLAINTEXT,
    ensures
        w2 == Err::<EqlResultView, EdisonError>(EdisonError::AlreadyExists),
        store_unchanged(s1, s2),
{
}

/// The audit trail only grows: whatever statement runs, the entries before
/// it stay, in order, at the front of the trail.
pub proof fn lemma_audit_only_grows(
    s0: Store,
    s1: Store,
    owner: Seq<char>,
    password: Seq<char>,
    stmt: StatementView,
    r: Result<EqlResultView, EdisonError>,
)
    requires
        statement_effect(s0, s1, owner, password, stmt, r),
    ensures
        s0.audit_log@.len() <= s1.audit_log@.len(),
        s1.audit_log@.take(s0.audit_log@.len() as int) == s0.audit_log@,
{
    if s1.audit_log@.len() == s0.audit_log@.len() + 1 && s1.audit_log@.drop_last() == s0.audit_log@ {
        assert(s1.audit_log@.take(s0.audit_log@.len() as int) =~= s1.audit_log@.drop_last());
    } else {
        assert(s1.audit_log@.take(s0.audit_log@.len() as int) =~= s1.audit_log@);
    }
}

/// Only writes and deletes change the records; reads, listings and audits
/// leave them as they were.
pub proof fn lemma_queries_keep_records(
    s0: Store,
    s1: Store,
    owner: Seq<char>,
    password: Seq<char>,
    stmt: StatementView,
    r: Result<EqlResultView, EdisonError>,
)
    requires
        statement_effect(s0, s1, owner, password, stmt, r),
        !(stmt is Write),
        !(stmt is Delete),
    ensures
        s1.records@ == s0.records@,
{
}

/// No statement reads a `Critical` or `Personal` record for anyone but its
/// owner: a read by another requester is refused with `AccessDenied`,
/// whatever password it carries.
pub proof fn lemma_guarded_record_owner_only(
    s0: Store,
    s1: Store,
    requester: Seq<char>,
    password: Seq<char>,
    id: Seq<char>,
    r: Result<EqlResultView, EdisonError>,
)
    requires
        statement_effect(s0, s1, requester, password, StatementView::Read { id }, r),
        s0.records@.contains_key(string_id_hash(id)),
        s0.records@[string_id_hash(id)].tier != DataTier::Noise,
        s0.records@[string_id_hash(id)].owner_id@ != requester,
    ensures
        r == Err::<EqlResultView, EdisonError>(EdisonError::AccessDenied),
{
}

/// Every read of a record that exists is audited, granted or denied, under
/// the requester's name; a successful read was granted.
pub proof fn lemma_reads_of_present_records_audited(
    s0: Store,
    s1: Store,
    requester: Seq<char>,
    password: Seq<char>,
    id: Seq<char>,
    r: Result<EqlResultView, EdisonError>,
)
    requires
        statement_effect(s0, s1, requester, password, StatementView::Read { id }, r),
        s0.records@.contains_key(string_id_hash(id)),
    ensures
        s1.audit_log@.len() == s0.audit_log@.len() + 1,
        s1.audit_log@.last().record_id == string_id_hash(id),
        s1.audit_log@.last().requester_id@ == requester,
        r is Ok ==> s1.audit_log@.last().action == AuditAction::ReadGranted,
{
}

/// What a parsed `WRITE` stores, a `READ` of its id by the same owner with
/// the same password gives back: the payload and the tier as written. Ids
/// that the parser yields never hold a line feed, so no input is excepted.
pub proof fn lemma_parsed_write_reads_back(
    text: Seq<char>,
    s0: Store,
    s1: Store,
    s2: Store,
    owner: Seq<char>,
    password: Seq<char>,
    id: Seq<char>,
    tier: Tier,
    payload: Seq<char>,
    w: Result<EqlResultView, EdisonError>,
    r: Result<EqlResultView, EdisonError>,
)
    requires
        parse_spec(text) == Ok::<StatementView, crate::eql::parser::ParseErrorView>(
            StatementView::Write { id, tier, payload },
        ),
        statement_effect(s0, s1, owner, password, StatementView::Write { id, tier, payload }, w),
        w is Ok,
        statement_effect(s1, s2, owner, password, StatementView::Read { id }, r),
    ensures
        r == Ok::<EqlResultView, EdisonError>(EqlResultView::Read { id, tier: data_tier_of(tier), payload }),
{
    lemma_parsed_ids_are_words(text);
    assert(is_word(id));
    assert(!id.contains('\n')) by {
        if id.contains('\n') {
            let i = choose|i: int| 0 <= i < id.len() && id[i] == '\n';
            assert(crate::eql::parser::is_ws(id[i]));
        }
    }
    lemma_write_then_read(s0, s1, s2, owner, password, id, tier, payload, w, r);
}

/// The audit line of an entry.
pub open spec fn entry_line(e: AuditEntry) -> Seq<char> {
    audit_line_text(e.timestamp, e.action, e.record_id, e.requester_id@)
}

/// The audit report is the trail's lines in order: all of them, or, for a
/// record number, exactly those of the entries about that record, whatever
/// their action.
pub proof fn lemma_audit_report_is_filtered_trail(entries: Seq<AuditEntry>, h: u64)
    ensures
        audit_lines(entries, None) == entries.map_values(|e: AuditEntry| entry_line(e)),
        audit_lines(entries, Some(h)) == entries.filter(|e: AuditEntry| e.record_id == h).map_values(
            |e: AuditEntry| entry_line(e),
        ),
        audit_lines(entries, Some(h)).len() == entries.filter(|e: AuditEntry| e.record_id == h).len(),
    decreases entries.len(),
{
    reveal(Seq::filter);
    if entries.len() > 0 {
        let d = entries.drop_last();
        lemma_audit_report_is_filtered_trail(d, h);
        assert(audit_lines(entries, None) =~= entries.map_values(|e: AuditEntry| entry_line(e)));
        let p = |e: AuditEntry| e.record_id == h;
        assert(entries.filter(p) == (if p(entries.last()) {
            d.filter(p).push(entries.last())
        } else {
            d.filter(p)
        }));
        assert(audit_lines(entries, Some(h)) =~= entries.filter(p).map_values(|e: AuditEntry| entry_line(e)));
    } else {
        assert(audit_lines(entries, None) =~= entries.map_values(|e: AuditEntry| entry_line(e)));
        assert(entries.filter(|e: AuditEntry| e.record_id == h) =~= Seq::<AuditEntry>::empty());
    }
}

/// `AUDIT id` reports every entry of the trail about the id's record, in
/// order and whatever its action (denied reads included), and nothing else;
/// `AUDIT` alone reports the whole trail. Neither changes the store.
pub proof fn lemma_audit_reports_every_entry(
    s0: Store,
    s1: Store,
    owner: Seq<char>,
    password: Seq<char>,
    id: Option<Seq<char>>,
    r: Result<EqlResultView, EdisonError>,
)
    requires
        statement_effect(s0, s1, owner, password, StatementView::Audit { id }, r),
    ensures
        store_unchanged(s0, s1),
        id matches Some(i) ==> r == Ok::<EqlResultView, EdisonError>(
            EqlResultView::Audited(
                s0.audit_log@.filter(|e: AuditEntry| e.record_id == string_id_hash(i)).map_values(
                    |e: AuditEntry| entry_line(e),
                ),
            ),
        ),
        id is None ==> r == Ok::<EqlResultView, EdisonError>(
            EqlResultView::Audited(s0.audit_log@.map_values(|e: AuditEntry| entry_line(e))),
        ),
{
    match id {
        Some(i) => lemma_audit_report_is_filtered_trail(s0.audit_log@, string_id_hash(i)),
        None => lemma_audit_report_is_filtered_trail(s0.audit_log@, 0),
    }
}

/// A listing with a tier filter lists only records of that tier, one line
/// for each record of the run that has it; with no filter, one line for
/// every record.
pub proof fn lemma_listing_counts(recs: Seq<Record>, filter: Option<Tier>, password: Seq<char>)
    ensures
        listed_infos(recs, filter, password) matches Ok(infos) ==> {
            &&& filter matches Some(t) ==> forall|i: int| 0 <= i < infos.len() ==> (#[trigger] infos[i]).tier == data_tier_of(t)
            &&& filter matches Some(t) ==> infos.len() == recs.filter(|r: Record| r.tier == data_tier_of(t)).len()
            &&& filter is None ==> infos.len() == recs.len()
        },
    decreases recs.len(),
{
    reveal(Seq::filter);
    if recs.len() > 0 {
        let d = recs.drop_last();
        lemma_listing_counts(d, filter, password);
        match filter {
            Some(t) => {
                let p = |r: Record| r.tier == data_tier_of(t);
                assert(recs.filter(p) == (if p(recs.last()) {
                    d.filter(p).push(recs.last())
                } else {
                    d.filter(p)
                }));
            },
            None => {},
        }
    }
}

/// `LIST TIER t` lists only the owner's records of tier `t`, exactly one
/// line for each of them; `LIST` lists one line for each of the owner's
/// records.
pub proof fn lemma_list_tier_only(
    s0: Store,
    s1: Store,
    owner: Seq<char>,
    password: Seq<char>,
    filter: Option<Tier>,
    infos: Seq<RecordInfoView>,
)
    requires
        statement_effect(
            s0,
            s1,
            owner,
            password,
            StatementView::List { tier: filter },
            Ok::<EqlResultView, EdisonError>(EqlResultView::Listed(infos)),
        ),
    ensures
        store_unchanged(s0, s1),
        filter matches Some(t) ==> forall|i: int| 0 <= i < infos.len() ==> (#[trigger] infos[i]).tier == data_tier_of(t),
        exists|keys: Seq<u64>|
            {
                &&& crate::store::owned_keys(s0.records@, owner, keys)
                &&& (filter matches Some(t) ==> infos.len() == keys.map_values(|k: u64| s0.records@[k]).filter(
                    |r: Record| r.tier == data_tier_of(t),
                ).len())
                &&& (filter is None ==> infos.len() == keys.len())
            },
{
    let m = s0.records@;
    let keys = choose|keys: Seq<u64>| #[trigger] listing(m, owner, filter, password, keys, Ok::<EqlResultView, EdisonError>(EqlResultView::Listed(infos)));
    lemma_listing_counts(keys.map_values(|k: u64| m[k]), filter, password);
    assert(crate::store::owned_keys(m, owner, keys));
}

} // verus!
