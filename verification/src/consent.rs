//! Consent bookkeeping for uploads and engine operations.
//!
//! A manager tracks, per user and operation, whether consent is granted,
//! since when, and for how long.  Time enters every decision as an
//! explicit instant: each public operation has a verified `..._at` form
//! that takes the instant, and a convenience form that reads the clock
//! and delegates to it.

use vstd::prelude::*;
use vstd::string::StringExecFns;
use crate::clock::now_secs;
use crate::text::str_eq;
use crate::text::u64_to_string;
use crate::text::dec_chars_of;

verus! {

/// The operations that consent can cover.
#[derive(Clone, Copy, Debug, Hash, PartialEq, Eq, Structural)]
pub enum ConsentType {
    Upload,
    QuantumCompress,
    MemoryStore,
    CrossSensory,
    ShareContext,
}

/// One consent decision: whether it was granted, when (seconds since the
/// Unix epoch), for how long (seconds; `None` is indefinite), for what
/// purpose, and under which conditions.
#[derive(Clone, Debug)]
pub struct ConsentRecord {
    pub granted: bool,
    pub timestamp: u64,
    pub duration: Option<u64>,
    pub purpose: String,
    pub conditions: Vec<String>,
}

/// The mathematical view of a consent record.
#[verifier::ext_equal]
pub ghost struct ConsentRecordV {
    pub granted: bool,
    pub timestamp: u64,
    pub duration: Option<u64>,
    pub purpose: Seq<char>,
    pub conditions: Seq<Seq<char>>,
}

/// The views of a list of strings.
pub open spec fn strings_view(v: Seq<String>) -> Seq<Seq<char>> {
    Seq::new(v.len(), |i: int| v[i]@)
}

impl View for ConsentRecord {
    type V = ConsentRecordV;

    open spec fn view(&self) -> ConsentRecordV {
        ConsentRecordV {
            granted: self.granted,
            timestamp: self.timestamp,
            duration: self.duration,
            purpose: self.purpose@,
            conditions: strings_view(self.conditions@),
        }
    }
}

/// What the manager falls back to when no granted record decides.
#[derive(Clone, Copy, Debug, PartialEq, Eq, Structural)]
pub enum ConsentPolicy {
    AlwaysAsk,
    ImplicitAllow,
    TimeLimited(u64),
}

struct ConsentEntry {
    user_id: String,
    operation: ConsentType,
    record: ConsentRecord,
}

/// The mathematical view of one stored consent.
#[verifier::ext_equal]
pub ghost struct ConsentEntryV {
    pub user: Seq<char>,
    pub operation: ConsentType,
    pub record: ConsentRecordV,
}

impl View for ConsentEntry {
    type V = ConsentEntryV;

    closed spec fn view(&self) -> ConsentEntryV {
        ConsentEntryV {
            user: self.user_id@,
            operation: self.operation,
            record: self.record@,
        }
    }
}

/// Tracks consents per user and operation under one default policy.
pub struct ConsentManager {
    records: Vec<ConsentEntry>,
    default_policy: ConsentPolicy,
}

// ---------------------------------------------------------------------
// The decision semantics
// ---------------------------------------------------------------------

/// Seconds elapsed from `ts` to `now`; a clock that moved backwards
/// counts as no time passed.
pub open spec fn spec_elapsed(now: u64, ts: u64) -> u64 {
    if now >= ts {
        (now - ts) as u64
    } else {
        0
    }
}

/// Whether a record grants consent at the instant `now`.
pub open spec fn record_active(r: ConsentRecordV, now: u64) -> bool {
    r.granted && match r.duration {
        Some(d) => spec_elapsed(now, r.timestamp) < d,
        None => true,
    }
}

/// Whether some entry covers the user and operation.
pub open spec fn has_entry(s: Seq<ConsentEntryV>, user: Seq<char>, op: ConsentType) -> bool {
    exists|i: int| 0 <= i < s.len() && (#[trigger] s[i]).user == user && s[i].operation == op
}

/// The index of the entry covering the user and operation.
pub open spec fn entry_idx(s: Seq<ConsentEntryV>, user: Seq<char>, op: ConsentType) -> int {
    choose|i: int| 0 <= i < s.len() && (#[trigger] s[i]).user == user && s[i].operation == op
}

/// The stored record for the user and operation, if any.
pub open spec fn spec_lookup(s: Seq<ConsentEntryV>, user: Seq<char>, op: ConsentType) -> Option<
    ConsentRecordV,
> {
    if has_entry(s, user, op) {
        Some(s[entry_idx(s, user, op)].record)
    } else {
        None
    }
}

/// Inserts or replaces the record for the user and operation.
pub open spec fn spec_upsert(
    s: Seq<ConsentEntryV>,
    user: Seq<char>,
    op: ConsentType,
    rec: ConsentRecordV,
) -> Seq<ConsentEntryV> {
    let e = ConsentEntryV { user, operation: op, record: rec };
    if has_entry(s, user, op) {
        s.update(entry_idx(s, user, op), e)
    } else {
        s.push(e)
    }
}

/// Whether the default policy allows an operation with no granted
/// record.
pub open spec fn policy_allows(p: ConsentPolicy) -> bool {
    match p {
        ConsentPolicy::AlwaysAsk => false,
        ConsentPolicy::ImplicitAllow => true,
        ConsentPolicy::TimeLimited(_) => true,
    }
}

/// The record a time-limited policy writes when it allows implicitly.
pub open spec fn implicit_record(now: u64, d: u64) -> ConsentRecordV {
    ConsentRecordV {
        granted: true,
        timestamp: now,
        duration: Some(d),
        purpose: "Implicit consent per policy"@,
        conditions: Seq::empty(),
    }
}

/// The outcome of a consent check at `now`: a granted record decides by
/// its expiry alone; otherwise the default policy decides.
pub open spec fn spec_check_result(
    s: Seq<ConsentEntryV>,
    policy: ConsentPolicy,
    user: Seq<char>,
    op: ConsentType,
    now: u64,
) -> bool {
    match spec_lookup(s, user, op) {
        Some(rec) => if rec.granted {
            record_active(rec, now)
        } else {
            policy_allows(policy)
        },
        None => policy_allows(policy),
    }
}

/// The stored state after a consent check at `now`: a time-limited
/// policy, when it decides, writes an implicit grant; nothing else
/// changes.
pub open spec fn spec_check_state(
    s: Seq<ConsentEntryV>,
    policy: ConsentPolicy,
    user: Seq<char>,
    op: ConsentType,
    now: u64,
) -> Seq<ConsentEntryV> {
    let decided_by_record = match spec_lookup(s, user, op) {
        Some(rec) => rec.granted,
        None => false,
    };
    if decided_by_record {
        s
    } else {
        match policy {
            ConsentPolicy::TimeLimited(d) => spec_upsert(s, user, op, implicit_record(now, d)),
            _ => s,
        }
    }
}

/// The active consents of one user at `now`, in storage order.
pub open spec fn spec_user_consents(s: Seq<ConsentEntryV>, user: Seq<char>, now: u64) -> Seq<
    (ConsentType, ConsentRecordV),
>
    decreases s.len(),
{
    if s.len() == 0 {
        Seq::empty()
    } else {
        spec_user_consents(s.drop_last(), user, now) + (if s.last().user == user
            && record_active(s.last().record, now) {
            seq![(s.last().operation, s.last().record)]
        } else {
            Seq::empty()
        })
    }
}

/// The entries that survive a cleanup at `now`: those whose record still
/// grants consent.
pub open spec fn spec_cleanup(s: Seq<ConsentEntryV>, now: u64) -> Seq<ConsentEntryV>
    decreases s.len(),
{
    if s.len() == 0 {
        Seq::empty()
    } else {
        spec_cleanup(s.drop_last(), now) + (if record_active(s.last().record, now) {
            seq![s.last()]
        } else {
            Seq::empty()
        })
    }
}

/// No two entries cover the same user and operation.
pub open spec fn entries_unique(s: Seq<ConsentEntryV>) -> bool {
    forall|i: int, j: int| 0 <= i < j < s.len()
        ==> !((#[trigger] s[i]).user == (#[trigger] s[j]).user && s[i].operation
            == s[j].operation)
}

/// Every entry the cleanup keeps comes from the input, so uniqueness
/// survives.
proof fn lemma_cleanup_entries(s: Seq<ConsentEntryV>, now: u64)
    ensures
        forall|i: int| 0 <= i < spec_cleanup(s, now).len()
            ==> exists|j: int| 0 <= j < s.len() && #[trigger] spec_cleanup(s, now)[i] == s[j],
        entries_unique(s) ==> entries_unique(spec_cleanup(s, now)),
    decreases s.len(),
{
    if s.len() > 0 {
        lemma_cleanup_entries(s.drop_last(), now);
        let c = spec_cleanup(s, now);
        let cp = spec_cleanup(s.drop_last(), now);
        assert forall|i: int| 0 <= i < c.len() implies exists|j: int| 0 <= j < s.len()
            && #[trigger] c[i] == s[j] by {
            if i < cp.len() {
                let j = choose|j: int| 0 <= j < s.drop_last().len() && cp[i]
                    == s.drop_last()[j];
                assert(c[i] == s[j]);
            } else {
                assert(c[i] == s[s.len() - 1]);
            }
        }
        if entries_unique(s) {
            assert(entries_unique(s.drop_last())) by {
                assert(forall|i: int| 0 <= i < s.len() - 1 ==> s.drop_last()[i] == s[i]);
            }
            assert forall|i: int, j: int| 0 <= i < j < c.len() implies !((#[trigger] c[i]).user
                == (#[trigger] c[j]).user && c[i].operation == c[j].operation) by {
                let a = choose|a: int| 0 <= a < s.len() && c[i] == s[a];
                let b = choose|b: int| 0 <= b < s.len() && c[j] == s[b];
                if i < cp.len() && j < cp.len() {
                } else {
                    assert(c[j] == s[s.len() - 1]);
                    assert(i < cp.len());
                    let a2 = choose|a2: int| 0 <= a2 < s.drop_last().len() && cp[i]
                        == s.drop_last()[a2];
                    assert(c[i] == s[a2]);
                    assert(a2 < s.len() - 1);
                }
            }
        }
    }
}

// ---------------------------------------------------------------------
// The manager
// ---------------------------------------------------------------------

impl View for ConsentManager {
    type V = Seq<ConsentEntryV>;

    closed spec fn view(&self) -> Seq<ConsentEntryV> {
        Seq::new(self.records@.len(), |i: int| self.records@[i]@)
    }
}

impl ConsentManager {
    /// No two stored entries cover the same user and operation.
    pub open spec fn wf(&self) -> bool {
        entries_unique(self@)
    }

    /// The default policy the manager was created with.
    pub closed spec fn policy(&self) -> ConsentPolicy {
        self.default_policy
    }

    /// A manager with no recorded consents.
    pub fn new(policy: ConsentPolicy) -> (m: ConsentManager)
        ensures
            m.wf(),
            m@ == Seq::<ConsentEntryV>::empty(),
            m.policy() == policy,
    {
        let m = ConsentManager { records: Vec::new(), default_policy: policy };
        proof {
            assert(m@ =~= Seq::<ConsentEntryV>::empty());
        }
        m
    }

    /// The index of the entry for the user and operation, if any.
    fn find_entry(&self, user_id: &str, operation: ConsentType) -> (r: Option<usize>)
        ensures
            r matches Some(i) ==> i < self@.len() && self@[i as int].user == user_id@
                && self@[i as int].operation == operation,
            r is None ==> !has_entry(self@, user_id@, operation),
    {
        let mut i: usize = 0;
        while i < self.records.len()
            invariant
                i <= self.records@.len(),
                self@.len() == self.records@.len(),
                forall|j: int| 0 <= j < i ==> !((#[trigger] self@[j]).user == user_id@
                    && self@[j].operation == operation),
            decreases self.records@.len() - i,
        {
            let e = &self.records[i];
            if str_eq(e.user_id.as_str(), user_id) && e.operation == operation {
                proof {
                    assert(self@[i as int] == self.records@[i as int]@);
                }
                return Some(i);
            }
            proof {
                assert(self@[i as int] == self.records@[i as int]@);
            }
            i = i + 1;
        }
        None
    }

    /// Inserts or replaces the record for the user and operation.
    fn upsert(&mut self, user_id: &str, operation: ConsentType, record: ConsentRecord)
        requires
            old(self).wf(),
        ensures
            final(self).wf(),
            final(self).policy() == old(self).policy(),
            final(self)@ == spec_upsert(old(self)@, user_id@, operation, record@),
    {
        let found = self.find_entry(user_id, operation);
        let entry = ConsentEntry { user_id: String::from_str(user_id), operation, record };
        match found {
            Some(i) => {
                proof {
                    let s = self@;
                    let k = entry_idx(s, user_id@, operation);
                    assert(0 <= k < s.len() && s[k].user == user_id@ && s[k].operation
                        == operation);
                    if k != i as int {
                        assert(false);
                    }
                }
                *vstd::std_specs::vec::vec_index_mut(&mut self.records, i) = entry;
                proof {
                    assert(final(self)@ =~= spec_upsert(old(self)@, user_id@, operation,
                        record@));
                    assert forall|a: int, b: int| 0 <= a < b < final(self)@.len() implies !((
                    #[trigger] final(self)@[a]).user == (#[trigger] final(self)@[b]).user
                        && final(self)@[a].operation == final(self)@[b].operation) by {
                        assert(!(old(self)@[a].user == old(self)@[b].user
                            && old(self)@[a].operation == old(self)@[b].operation));
                    }
                }
            },
            None => {
                self.records.push(entry);
                proof {
                    assert(final(self)@ =~= spec_upsert(old(self)@, user_id@, operation,
                        record@));
                    assert forall|a: int, b: int| 0 <= a < b < final(self)@.len() implies !((
                    #[trigger] final(self)@[a]).user == (#[trigger] final(self)@[b]).user
                        && final(self)@[a].operation == final(self)@[b].operation) by {
                        if b < old(self)@.len() {
                            assert(!(old(self)@[a].user == old(self)@[b].user
                                && old(self)@[a].operation == old(self)@[b].operation));
                        } else {
                            assert(final(self)@[b] == final(self)@[final(self)@.len() - 1]);
                            assert(final(self)@[a] == old(self)@[a]);
                            assert(!has_entry(old(self)@, user_id@, operation));
                        }
                    }
                }
            },
        }
    }

    /// Decides consent at the instant `now`.  A granted record decides
    /// by its expiry; otherwise the default policy decides, and a
    /// time-limited policy records an implicit grant as it allows.
    pub fn check_consent_at(&mut self, user_id: &str, operation: ConsentType, now: u64) -> (r:
        bool)
        requires
            old(self).wf(),
        ensures
            final(self).wf(),
            final(self).policy() == old(self).policy(),
            r == spec_check_result(old(self)@, old(self).policy(), user_id@, operation, now),
            final(self)@ == spec_check_state(old(self)@, old(self).policy(), user_id@, operation,
                now),
    {
        let found = self.find_entry(user_id, operation);
        if let Some(i) = found {
            proof {
                let s = self@;
                let k = entry_idx(s, user_id@, operation);
                assert(0 <= k < s.len() && s[k].user == user_id@ && s[k].operation == operation);
                if k != i as int {
                    assert(false);
                }
            }
            let rec = &self.records[i].record;
            if rec.granted {
                let ts = rec.timestamp;
                let dur = rec.duration;
                proof {
                    assert(self@[i as int] == self.records@[i as int]@);
                }
                return match dur {
                    Some(d) => {
                        let elapsed = if now >= ts {
                            now - ts
                        } else {
                            0
                        };
                        elapsed < d
                    },
                    None => true,
                };
            }
            proof {
                assert(self@[i as int] == self.records@[i as int]@);
            }
        }
        match self.default_policy {
            ConsentPolicy::AlwaysAsk => false,
            ConsentPolicy::ImplicitAllow => true,
            ConsentPolicy::TimeLimited(d) => {
                let conditions: Vec<String> = Vec::new();
                let record = ConsentRecord {
                    granted: true,
                    timestamp: now,
                    duration: Some(d),
                    purpose: String::from_str("Implicit consent per policy"),
                    conditions,
                };
                proof {
                    assert(record@ =~= implicit_record(now, d));
                }
                self.upsert(user_id, operation, record);
                true
            },
        }
    }

    /// Decides consent now: reads the clock once and decides at that
    /// instant.
    pub fn check_consent(&mut self, user_id: &str, operation: ConsentType) -> (r: bool)
        requires
            old(self).wf(),
        ensures
            final(self).wf(),
            final(self).policy() == old(self).policy(),
            exists|now: u64|
                r == spec_check_result(old(self)@, old(self).policy(), user_id@, operation, now)
                    && final(self)@ == #[trigger] spec_check_state(old(self)@, old(self).policy(),
                    user_id@, operation, now),
    {
        let now = now_secs();
        self.check_consent_at(user_id, operation, now)
    }

    /// Grants consent for the user and operation at the instant `now`,
    /// replacing any earlier record.
    pub fn grant_consent_at(
        &mut self,
        user_id: &str,
        operation: ConsentType,
        purpose: String,
        duration: Option<u64>,
        conditions: Vec<String>,
        now: u64,
    )
        requires
            old(self).wf(),
        ensures
            final(self).wf(),
            final(self).policy() == old(self).policy(),
            final(self)@ == spec_upsert(old(self)@, user_id@, operation, ConsentRecordV {
                granted: true,
                timestamp: now,
                duration,
                purpose: purpose@,
                conditions: strings_view(conditions@),
            }),
    {
        let record = ConsentRecord { granted: true, timestamp: now, duration, purpose, conditions };
        self.upsert(user_id, operation, record);
    }

    /// Grants consent as of now: reads the clock once and grants at that
    /// instant.
    pub fn grant_consent(
        &mut self,
        user_id: &str,
        operation: ConsentType,
        purpose: String,
        duration: Option<u64>,
        conditions: Vec<String>,
    )
        requires
            old(self).wf(),
        ensures
            final(self).wf(),
            final(self).policy() == old(self).policy(),
            exists|now: u64|
                final(self)@ == #[trigger] spec_upsert(old(self)@, user_id@, operation,
                    ConsentRecordV {
                    granted: true,
                    timestamp: now,
                    duration,
                    purpose: purpose@,
                    conditions: strings_view(conditions@),
                }),
    {
        let now = now_secs();
        self.grant_consent_at(user_id, operation, purpose, duration, conditions, now)
    }

    /// Revokes consent for the user and operation: the record stays but
    /// no longer grants.  Without a record nothing changes.
    pub fn revoke_consent(&mut self, user_id: &str, operation: ConsentType)
        requires
            old(self).wf(),
        ensures
            final(self).wf(),
            final(self).policy() == old(self).policy(),
            has_entry(old(self)@, user_id@, operation) ==> final(self)@ == old(self)@.update(
                entry_idx(old(self)@, user_id@, operation),
                ConsentEntryV {
                    user: old(self)@[entry_idx(old(self)@, user_id@, operation)].user,
                    operation,
                    record: ConsentRecordV {
                        granted: false,
                        ..old(self)@[entry_idx(old(self)@, user_id@, operation)].record
                    },
                },
            ),
            !has_entry(old(self)@, user_id@, operation) ==> final(self)@ == old(self)@,
    {
        let found = self.find_entry(user_id, operation);
        match found {
            Some(i) => {
                proof {
                    let s = self@;
                    let k = entry_idx(s, user_id@, operation);
                    assert(0 <= k < s.len() && s[k].user == user_id@ && s[k].operation
                        == operation);
                    if k != i as int {
                        assert(false);
                    }
                }
                let e = vstd::std_specs::vec::vec_index_mut(&mut self.records, i);
                e.record.granted = false;
                proof {
                    assert(final(self)@ =~= old(self)@.update(
                        entry_idx(old(self)@, user_id@, operation),
                        ConsentEntryV {
                            user: old(self)@[entry_idx(old(self)@, user_id@, operation)].user,
                            operation,
                            record: ConsentRecordV {
                                granted: false,
                                ..old(self)@[entry_idx(old(self)@, user_id@, operation)].record
                            },
                        },
                    ));
                    assert forall|a: int, b: int| 0 <= a < b < final(self)@.len() implies !((
                    #[trigger] final(self)@[a]).user == (#[trigger] final(self)@[b]).user
                        && final(self)@[a].operation == final(self)@[b].operation) by {
                        assert(!(old(self)@[a].user == old(self)@[b].user
                            && old(self)@[a].operation == old(self)@[b].operation));
                    }
                }
            },
            None => {},
        }
    }

    /// The user's active consents at the instant `now`, each with its
    /// record, in storage order.
    pub fn get_user_consents_at(&self, user_id: &str, now: u64) -> (r: Vec<
        (ConsentType, ConsentRecord),
    >)
        ensures
            Seq::new(r@.len(), |i: int| (r@[i].0, r@[i].1@)) == spec_user_consents(self@,
                user_id@, now),
    {
        let mut r: Vec<(ConsentType, ConsentRecord)> = Vec::new();
        let mut i: usize = 0;
        proof {
            assert(Seq::new(r@.len(), |k: int| (r@[k].0, r@[k].1@))
                =~= spec_user_consents(self@.take(0), user_id@, now));
        }
        while i < self.records.len()
            invariant
                i <= self.records@.len(),
                self@.len() == self.records@.len(),
                Seq::new(r@.len(), |k: int| (r@[k].0, r@[k].1@)) == spec_user_consents(
                    self@.take(i as int),
                    user_id@,
                    now,
                ),
            decreases self.records@.len() - i,
        {
            let e = &self.records[i];
            proof {
                assert(self@[i as int] == self.records@[i as int]@);
                assert(self@.take(i + 1int).drop_last() =~= self@.take(i as int));
                assert(self@.take(i + 1int).last() == self@[i as int]);
            }
            let keep = if str_eq(e.user_id.as_str(), user_id) && e.record.granted {
                match e.record.duration {
                    Some(d) => {
                        let elapsed = if now >= e.record.timestamp {
                            now - e.record.timestamp
                        } else {
                            0
                        };
                        elapsed < d
                    },
                    None => true,
                }
            } else {
                false
            };
            if keep {
                let rec = clone_record(&e.record);
                let op = e.operation;
                r.push((op, rec));
            }
            proof {
                assert(Seq::new(r@.len(), |k: int| (r@[k].0, r@[k].1@))
                    =~= spec_user_consents(self@.take(i + 1int), user_id@, now));
            }
            i = i + 1;
        }
        proof {
            assert(self@.take(self@.len() as int) =~= self@);
        }
        r
    }

    /// The user's active consents as of now.
    pub fn get_user_consents(&self, user_id: &str) -> (r: Vec<(ConsentType, ConsentRecord)>)
        ensures
            exists|now: u64|
                Seq::new(r@.len(), |i: int| (r@[i].0, r@[i].1@))
                    == #[trigger] spec_user_consents(self@, user_id@, now),
    {
        let now = now_secs();
        self.get_user_consents_at(user_id, now)
    }

    /// Drops every record that no longer grants consent at the instant
    /// `now`: revoked records and expired ones.
    pub fn cleanup_expired_at(&mut self, now: u64)
        requires
            old(self).wf(),
        ensures
            final(self).wf(),
            final(self).policy() == old(self).policy(),
            final(self)@ == spec_cleanup(old(self)@, now),
    {
        let mut kept: Vec<ConsentEntry> = Vec::new();
        let mut i: usize = 0;
        proof {
            assert(Seq::new(kept@.len(), |k: int| kept@[k]@)
                =~= spec_cleanup(self@.take(0), now));
        }
        while i < self.records.len()
            invariant
                i <= self.records@.len(),
                self@.len() == self.records@.len(),
                Seq::new(kept@.len(), |k: int| kept@[k]@) == spec_cleanup(
                    self@.take(i as int),
                    now,
                ),
            decreases self.records@.len() - i,
        {
            let e = &self.records[i];
            proof {
                assert(self@[i as int] == self.records@[i as int]@);
                assert(self@.take(i + 1int).drop_last() =~= self@.take(i as int));
                assert(self@.take(i + 1int).last() == self@[i as int]);
            }
            let keep = if e.record.granted {
                match e.record.duration {
                    Some(d) => {
                        let elapsed = if now >= e.record.timestamp {
                            now - e.record.timestamp
                        } else {
                            0
                        };
                        elapsed < d
                    },
                    None => true,
                }
            } else {
                false
            };
            if keep {
                kept.push(clone_entry(e));
            }
            proof {
                assert(Seq::new(kept@.len(), |k: int| kept@[k]@)
                    =~= spec_cleanup(self@.take(i + 1int), now));
            }
            i = i + 1;
        }
        proof {
            assert(self@.take(self@.len() as int) =~= self@);
        }
        self.records = kept;
        proof {
            assert(final(self)@ =~= spec_cleanup(old(self)@, now));
            lemma_cleanup_entries(old(self)@, now);
        }
    }

    /// Drops stale records as of now.
    pub fn cleanup_expired(&mut self)
        requires
            old(self).wf(),
        ensures
            final(self).wf(),
            final(self).policy() == old(self).policy(),
            exists|now: u64| final(self)@ == #[trigger] spec_cleanup(old(self)@, now),
    {
        let now = now_secs();
        self.cleanup_expired_at(now)
    }
}

// ---------------------------------------------------------------------
// Consent requests
// ---------------------------------------------------------------------

/// A consent request assembled field by field before being shown to the
/// user.
pub struct ConsentRequest {
    pub user_id: String,
    pub operation: ConsentType,
    pub purpose: String,
    pub data_description: String,
    pub retention_period: Option<u64>,
    pub sharing_scope: Vec<String>,
}

/// The mathematical view of a consent request.
#[verifier::ext_equal]
pub ghost struct ConsentRequestV {
    pub user_id: Seq<char>,
    pub operation: ConsentType,
    pub purpose: Seq<char>,
    pub data_description: Seq<char>,
    pub retention_period: Option<u64>,
    pub sharing_scope: Seq<Seq<char>>,
}

impl View for ConsentRequest {
    type V = ConsentRequestV;

    open spec fn view(&self) -> ConsentRequestV {
        ConsentRequestV {
            user_id: self.user_id@,
            operation: self.operation,
            purpose: self.purpose@,
            data_description: self.data_description@,
            retention_period: self.retention_period,
            sharing_scope: strings_view(self.sharing_scope@),
        }
    }
}

/// The display name of a consent type.
pub open spec fn consent_type_name_of(t: ConsentType) -> Seq<char> {
    match t {
        ConsentType::Upload => "Upload"@,
        ConsentType::QuantumCompress => "QuantumCompress"@,
        ConsentType::MemoryStore => "MemoryStore"@,
        ConsentType::CrossSensory => "CrossSensory"@,
        ConsentType::ShareContext => "ShareContext"@,
    }
}

/// The display name of a consent type.
fn consent_type_name(t: &ConsentType) -> (r: &'static str)
    ensures
        r@ == consent_type_name_of(*t),
{
    match t {
        ConsentType::Upload => "Upload",
        ConsentType::QuantumCompress => "QuantumCompress",
        ConsentType::MemoryStore => "MemoryStore",
        ConsentType::CrossSensory => "CrossSensory",
        ConsentType::ShareContext => "ShareContext",
    }
}

/// The scopes joined with a comma and a space.
pub open spec fn join_comma(v: Seq<Seq<char>>) -> Seq<char>
    decreases v.len(),
{
    if v.len() == 0 {
        Seq::empty()
    } else if v.len() == 1 {
        v[0]
    } else {
        join_comma(v.drop_last()) + ", "@ + v.last()
    }
}

/// The retention line: a duration in seconds, or indefinite.
pub open spec fn retention_chars(o: Option<u64>) -> Seq<char> {
    match o {
        Some(d) => dec_chars_of(d as int) + " seconds"@,
        None => "Indefinite"@,
    }
}

/// The sharing line: the joined scopes, or a note that nothing is
/// shared.
pub open spec fn sharing_chars(v: Seq<Seq<char>>) -> Seq<char> {
    if v.len() == 0 {
        "No external sharing"@
    } else {
        join_comma(v)
    }
}

/// The human-readable consent prompt for a request.
pub open spec fn prompt_chars(rv: ConsentRequestV) -> Seq<char> {
    "Consent Request\n\nUser: "@ + rv.user_id + "\nOperation: "@ + consent_type_name_of(
        rv.operation,
    ) + "\nPurpose: "@ + rv.purpose + "\nData: "@ + rv.data_description + "\nRetention: "@
        + retention_chars(rv.retention_period) + "\nSharing: "@ + sharing_chars(rv.sharing_scope)
        + "\n\nDo you consent to this operation?"@
}

impl ConsentRequest {
    /// A request for one user and operation, with everything else still
    /// empty.
    pub fn new(user_id: String, operation: ConsentType) -> (r: ConsentRequest)
        ensures
            r@ == (ConsentRequestV {
                user_id: user_id@,
                operation,
                purpose: Seq::empty(),
                data_description: Seq::empty(),
                retention_period: None,
                sharing_scope: Seq::empty(),
            }),
    {
        let r = ConsentRequest {
            user_id,
            operation,
            purpose: String::new(),
            data_description: String::new(),
            retention_period: None,
            sharing_scope: Vec::new(),
        };
        proof {
            assert(strings_view(r.sharing_scope@) =~= Seq::<Seq<char>>::empty());
            assert(r@ =~= (ConsentRequestV {
                user_id: r.user_id@,
                operation,
                purpose: Seq::empty(),
                data_description: Seq::empty(),
                retention_period: None,
                sharing_scope: Seq::empty(),
            }));
        }
        r
    }

    /// Sets the purpose.
    pub fn with_purpose(self, purpose: String) -> (r: ConsentRequest)
        ensures
            r@ == (ConsentRequestV { purpose: purpose@, ..self@ }),
    {
        let r = ConsentRequest {
            user_id: self.user_id,
            operation: self.operation,
            purpose,
            data_description: self.data_description,
            retention_period: self.retention_period,
            sharing_scope: self.sharing_scope,
        };
        proof {
            assert(r@ =~= (ConsentRequestV { purpose: r.purpose@, ..self@ }));
        }
        r
    }

    /// Sets the data description.
    pub fn with_data_description(self, description: String) -> (r: ConsentRequest)
        ensures
            r@ == (ConsentRequestV { data_description: description@, ..self@ }),
    {
        let r = ConsentRequest {
            user_id: self.user_id,
            operation: self.operation,
            purpose: self.purpose,
            data_description: description,
            retention_period: self.retention_period,
            sharing_scope: self.sharing_scope,
        };
        proof {
            assert(r@ =~= (ConsentRequestV { data_description: r.data_description@, ..self@ }));
        }
        r
    }

    /// Sets the retention period, in seconds.
    pub fn with_retention(self, period: u64) -> (r: ConsentRequest)
        ensures
            r@ == (ConsentRequestV { retention_period: Some(period), ..self@ }),
    {
        let r = ConsentRequest {
            user_id: self.user_id,
            operation: self.operation,
            purpose: self.purpose,
            data_description: self.data_description,
            retention_period: Some(period),
            sharing_scope: self.sharing_scope,
        };
        proof {
            assert(r@ =~= (ConsentRequestV { retention_period: Some(period), ..self@ }));
        }
        r
    }

    /// Sets the sharing scope.
    pub fn with_sharing(self, scope: Vec<String>) -> (r: ConsentRequest)
        ensures
            r@ == (ConsentRequestV { sharing_scope: strings_view(scope@), ..self@ }),
    {
        let r = ConsentRequest {
            user_id: self.user_id,
            operation: self.operation,
            purpose: self.purpose,
            data_description: self.data_description,
            retention_period: self.retention_period,
            sharing_scope: scope,
        };
        proof {
            assert(r@ =~= (ConsentRequestV { sharing_scope: strings_view(r.sharing_scope@),
                ..self@ }));
        }
        r
    }

    /// Renders the human-readable consent prompt.
    pub fn to_prompt(&self) -> (s: String)
        ensures
            s@ == prompt_chars(self@),
    {
        let mut s = String::from_str("Consent Request\n\nUser: ");
        s.append(self.user_id.as_str());
        s.append("\nOperation: ");
        s.append(consent_type_name(&self.operation));
        s.append("\nPurpose: ");
        s.append(self.purpose.as_str());
        s.append("\nData: ");
        s.append(self.data_description.as_str());
        s.append("\nRetention: ");
        match self.retention_period {
            Some(d) => {
                let ds = u64_to_string(d);
                s.append(ds.as_str());
                s.append(" seconds");
            },
            None => {
                s.append("Indefinite");
            },
        }
        s.append("\nSharing: ");
        if self.sharing_scope.len() == 0 {
            s.append("No external sharing");
            proof {
                assert(strings_view(self.sharing_scope@).len() == 0);
            }
        } else {
            let scope = &self.sharing_scope;
            s.append(scope[0].as_str());
            proof {
                assert(strings_view(scope@)[0] == scope@[0]@);
                assert(join_comma(strings_view(scope@).take(1)) =~= scope@[0]@);
            }
            let mut i: usize = 1;
            while i < scope.len()
                invariant
                    1 <= i <= scope@.len(),
                    s@ == prompt_prefix(self@) + join_comma(
                        strings_view(scope@).take(i as int),
                    ),
                decreases scope@.len() - i,
            {
                s.append(", ");
                s.append(scope[i].as_str());
                proof {
                    let sv = strings_view(scope@);
                    assert(sv.take(i + 1int).drop_last() =~= sv.take(i as int));
                    assert(sv.take(i + 1int).last() == sv[i as int]);
                    assert(sv[i as int] == scope@[i as int]@);
                }
                i = i + 1;
            }
            proof {
                assert(strings_view(scope@).take(scope@.len() as int) =~= strings_view(scope@));
            }
        }
        s.append("\n\nDo you consent to this operation?");
        s
    }
}

/// The prompt text up to and including the sharing label.
pub open spec fn prompt_prefix(rv: ConsentRequestV) -> Seq<char> {
    "Consent Request\n\nUser: "@ + rv.user_id + "\nOperation: "@ + consent_type_name_of(
        rv.operation,
    ) + "\nPurpose: "@ + rv.purpose + "\nData: "@ + rv.data_description + "\nRetention: "@
        + retention_chars(rv.retention_period) + "\nSharing: "@
}

/// Copies a record field by field.
fn clone_record(r: &ConsentRecord) -> (c: ConsentRecord)
    ensures
        c@ == r@,
{
    let mut conditions: Vec<String> = Vec::new();
    let mut i: usize = 0;
    while i < r.conditions.len()
        invariant
            i <= r.conditions@.len(),
            strings_view(conditions@) == strings_view(r.conditions@).take(i as int),
        decreases r.conditions@.len() - i,
    {
        let s0 = r.conditions[i].clone();
        proof {
            assert(s0@ == r.conditions@[i as int]@);
        }
        let ghost pre = conditions@;
        conditions.push(s0);
        proof {
            let lhs = strings_view(conditions@);
            let rhs = strings_view(r.conditions@).take(i + 1int);
            assert(strings_view(pre).len() == pre.len());
            assert(strings_view(pre) == strings_view(r.conditions@).take(i as int));
            assert(strings_view(r.conditions@).len() == r.conditions@.len());
            assert(pre.len() == i);
            assert(lhs.len() == rhs.len());
            assert forall|k: int| 0 <= k < lhs.len() implies lhs[k] == rhs[k] by {
                if k < i as int {
                    assert(lhs[k] == pre[k]@);
                    assert(strings_view(pre)[k] == pre[k]@);
                    assert(strings_view(pre)[k] == strings_view(r.conditions@).take(i as int)[k]);
                } else {
                    assert(lhs[k] == s0@);
                    assert(rhs[k] == r.conditions@[k]@);
                }
            }
            assert(lhs =~= rhs);
        }
        i = i + 1;
    }
    proof {
        assert(strings_view(r.conditions@).take(r.conditions@.len() as int)
            =~= strings_view(r.conditions@));
    }
    let c = ConsentRecord {
        granted: r.granted,
        timestamp: r.timestamp,
        duration: r.duration,
        purpose: r.purpose.clone(),
        conditions,
    };
    proof {
        assert(c@ =~= r@);
    }
    c
}

/// Copies an entry field by field.
fn clone_entry(e: &ConsentEntry) -> (c: ConsentEntry)
    ensures
        c@ == e@,
{
    let c = ConsentEntry {
        user_id: e.user_id.clone(),
        operation: e.operation,
        record: clone_record(&e.record),
    };
    proof {
        assert(c@ =~= e@);
    }
    c
}

} // verus!
