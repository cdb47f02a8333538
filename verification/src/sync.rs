//! The optimistic sync engine: the read-merge-write cycle over the persisted
//! document. The caller performs the storage reads, conditional writes and
//! sleeps; every decision — what to write, whether to retry, how long to back
//! off — is a verified function of the attempt count and the write's outcome.

use vstd::prelude::*;
use crate::entry::{ApiDocEntry, EntryModel, models, valid_timestamp, valid_timestamps};
use crate::merge::{merge, remove, spec_merge, spec_remove};

verus! {

/// Write attempts before a persistent conflict is surfaced to the caller.
pub const MAX_SYNC_ATTEMPTS: u32 = 5;

/// Backoff before the first retry, in milliseconds; each retry doubles it.
pub const BASE_BACKOFF_MS: u64 = 100;

/// Two to the given power.
pub open spec fn pow2(n: nat) -> nat
    decreases n,
{
    if n == 0 {
        1
    } else {
        2 * pow2((n - 1) as nat)
    }
}

/// The backoff after write attempt `attempt` failed on a conflict:
/// `BASE_BACKOFF_MS * 2^(attempt - 1)`.
pub open spec fn spec_backoff_ms(attempt: u32) -> nat {
    (BASE_BACKOFF_MS as nat) * pow2((attempt - 1) as nat)
}

/// Computes the exponential backoff for a retried attempt.
pub fn backoff_delay_ms(attempt: u32) -> (r: u64)
    requires
        1 <= attempt < MAX_SYNC_ATTEMPTS,
    ensures
        r as nat == spec_backoff_ms(attempt),
{
    proof {
        assert(pow2(0) == 1);
        assert(pow2(1) == 2);
        assert(pow2(2) == 4);
        assert(pow2(3) == 8);
    }
    if attempt == 1 {
        100
    } else if attempt == 2 {
        200
    } else if attempt == 3 {
        400
    } else {
        800
    }
}

/// The document mutation one reconcile outcome requests.
pub enum MergeOp {
    /// Insert or refresh the candidate entry at its key.
    Upsert(ApiDocEntry),
    /// Strip the entry of the given key, if any.
    Remove { namespace: String, service_name: String },
}

/// The entry set after an operation runs against a freshly read set.
pub open spec fn spec_apply(op: &MergeOp, s: Seq<EntryModel>) -> Seq<EntryModel> {
    match op {
        MergeOp::Upsert(e) => spec_merge(s, e@),
        MergeOp::Remove { namespace, service_name } => spec_remove(
            s,
            (namespace@, service_name@),
        ),
    }
}

/// Applies the requested operation to the freshly read entry set.
pub fn apply_merge_op(existing: &Vec<ApiDocEntry>, op: &MergeOp) -> (r: Vec<ApiDocEntry>)
    ensures
        models(r@) == spec_apply(op, models(existing@)),
{
    match op {
        MergeOp::Upsert(e) => merge(existing, e.clone()),
        MergeOp::Remove { namespace, service_name } => remove(
            existing,
            namespace.as_str(),
            service_name.as_str(),
        ),
    }
}

/// Timestamps stay storable across an operation on a storable entry set.
pub proof fn lemma_apply_valid_timestamps(op: &MergeOp, s: Seq<EntryModel>)
    requires
        valid_timestamps(s),
        match op {
            MergeOp::Upsert(e) => valid_timestamp(e@.last_updated),
            _ => true,
        },
    ensures
        valid_timestamps(spec_apply(op, s)),
{
    match op {
        MergeOp::Upsert(e) => {
            crate::merge::lemma_merge_elements(s, e@);
            let r = spec_merge(s, e@);
            assert forall|i: int|
                0 <= i < r.len() implies valid_timestamp(#[trigger] r[i].last_updated) by {
                if r[i] != e@ {
                    let j = choose|j: int| 0 <= j < s.len() && s[j] == r[i];
                    assert(valid_timestamp(s[j].last_updated));
                }
            }
        },
        MergeOp::Remove { namespace, service_name } => {
            crate::merge::lemma_remove_prefix_elements(
                s,
                (namespace@, service_name@),
                s.len() as int,
            );
            let r = spec_remove(s, (namespace@, service_name@));
            assert forall|i: int|
                0 <= i < r.len() implies valid_timestamp(#[trigger] r[i].last_updated) by {
                let j = choose|j: int| 0 <= j < s.len() && s[j] == r[i];
                assert(valid_timestamp(s[j].last_updated));
            }
        },
    }
}

/// One read-merge-write round: from the freshly read document text — absent
/// when the store holds none — and the requested operation, the document text
/// to write conditionally. A read that is not the canonical form of any
/// catalogue reads as the empty entry set, as the store contract allows: the
/// document is written by this system alone.
pub fn prepare_write(read: Option<&str>, op: &MergeOp, now_ms: u64) -> (r: String)
    requires
        valid_timestamp(now_ms),
        match op {
            MergeOp::Upsert(e) => valid_timestamp(e@.last_updated),
            _ => true,
        },
    ensures
        match read {
            None => r@ == crate::codec::json_of_document(
                spec_apply(op, Seq::empty()),
                now_ms,
            ),
            Some(s) => forall|ms: Seq<EntryModel>, ts: u64|
                valid_timestamps(ms) && valid_timestamp(ts) && s@
                    == #[trigger] crate::codec::json_of_document(ms, ts) ==> r@
                    == crate::codec::json_of_document(spec_apply(op, ms), now_ms),
        },
{
    let existing: Vec<ApiDocEntry> = match read {
        Some(s) => match crate::codec::decode_document(s) {
            Some(c) => c.apis,
            None => Vec::new(),
        },
        None => Vec::new(),
    };
    proof {
        assert(valid_timestamps(models(existing@)));
    }
    let merged = apply_merge_op(&existing, op);
    proof {
        lemma_apply_valid_timestamps(op, models(existing@));
        assert forall|i: int|
            0 <= i < merged@.len() implies valid_timestamp(
            #[trigger] merged@[i]@.last_updated,
        ) by {
            assert(models(merged@)[i] == merged@[i]@);
            assert(valid_timestamp(models(merged@)[i].last_updated));
        }
    }
    crate::codec::encode_document(&merged, now_ms)
}

/// How one conditional write ended, as the storage layer reported it.
pub enum WriteOutcome {
    /// The token matched (or the document was created): the cycle is done.
    Success,
    /// A concurrent writer got there first: the token no longer matched.
    Conflict,
    /// Any other storage failure.
    Failure,
}

/// What the engine does next after a write attempt.
#[derive(PartialEq, Eq, Structural)]
pub enum SyncDecision {
    /// The merge is persisted.
    Done,
    /// Re-read, re-merge and write again after this many milliseconds.
    Retry { delay_ms: u64 },
    /// The retry budget is exhausted: surface a conflict error.
    ConflictExhausted,
    /// A non-conflict failure: surface it immediately, no retry.
    Failed,
}

/// One read-merge-write cycle's progress: the index of the write attempt
/// about to run, starting at one.
pub struct SyncSession {
    pub attempt: u32,
}

impl SyncSession {
    /// Whether the session is still within its attempt budget.
    pub open spec fn wf(self) -> bool {
        1 <= self.attempt <= MAX_SYNC_ATTEMPTS
    }

    /// Starts a cycle at its first write attempt.
    pub fn new() -> (r: SyncSession)
        ensures
            r.attempt == 1,
            r.wf(),
    {
        SyncSession { attempt: 1 }
    }

    /// Decides what follows a write attempt: success ends the cycle; a
    /// conflict within the budget doubles the backoff and retries; a conflict
    /// on the last attempt surfaces a conflict error; any other failure
    /// surfaces immediately.
    pub fn on_write_outcome(&mut self, outcome: WriteOutcome) -> (r: SyncDecision)
        requires
            old(self).wf(),
        ensures
            final(self).wf(),
            match outcome {
                WriteOutcome::Success => r == SyncDecision::Done && *final(self) == *old(self),
                WriteOutcome::Conflict => {
                    if old(self).attempt < MAX_SYNC_ATTEMPTS {
                        &&& r == (SyncDecision::Retry {
                            delay_ms: (spec_backoff_ms(old(self).attempt) as u64),
                        })
                        &&& final(self).attempt == old(self).attempt + 1
                    } else {
                        r == SyncDecision::ConflictExhausted && *final(self) == *old(self)
                    }
                },
                WriteOutcome::Failure => r == SyncDecision::Failed && *final(self) == *old(self),
            },
    {
        match outcome {
            WriteOutcome::Success => SyncDecision::Done,
            WriteOutcome::Conflict => {
                if self.attempt < MAX_SYNC_ATTEMPTS {
                    let delay = backoff_delay_ms(self.attempt);
                    self.attempt = self.attempt + 1;
                    SyncDecision::Retry { delay_ms: delay }
                } else {
                    SyncDecision::ConflictExhausted
                }
            },
            WriteOutcome::Failure => SyncDecision::Failed,
        }
    }
}

} // verus!
