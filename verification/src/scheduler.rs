//! Bounded-concurrency fetch coordination.
//!
//! The scheduler is a step machine: a driver repeatedly asks it to admit the
//! next tile fetch (`try_start`), performs the fetch however it likes, and
//! hands the result back (`complete`). The scheduler enforces the admission
//! cap — never more than `limit` fetches in flight — and records exactly one
//! outcome per tile, so one tile's failure never cancels or blocks another's.

use vstd::prelude::*;

verus! {

/// The result of one tile's fetch: the bytes persisted to the tile's file on
/// success, or one of three failure kinds — a non-success HTTP status, a
/// transport-level error, or a file-write error.
pub enum FetchOutcome {
    Fetched { bytes_written: u64, path: String },
    HttpError { status: u16 },
    TransportError { message: String },
    WriteError { message: String },
}

impl FetchOutcome {
    pub open spec fn is_success(&self) -> bool {
        self is Fetched
    }
}

/// How many of these slots have been filled with an outcome.
pub open spec fn count_done(s: Seq<Option<FetchOutcome>>) -> nat
    decreases s.len(),
{
    if s.len() == 0 {
        0
    } else {
        count_done(s.drop_last()) + if s.last() is Some {
            1nat
        } else {
            0nat
        }
    }
}

/// How many of these slots hold a successful outcome.
pub open spec fn count_successes(s: Seq<Option<FetchOutcome>>) -> nat
    decreases s.len(),
{
    if s.len() == 0 {
        0
    } else {
        count_successes(s.drop_last()) + if s.last() matches Some(o) && o.is_success() {
            1nat
        } else {
            0nat
        }
    }
}

proof fn lemma_count_push(s: Seq<Option<FetchOutcome>>, o: Option<FetchOutcome>)
    ensures
        count_done(s.push(o)) == count_done(s) + if o is Some {
            1nat
        } else {
            0nat
        },
        count_successes(s.push(o)) == count_successes(s) + if o matches Some(v)
            && v.is_success() {
            1nat
        } else {
            0nat
        },
{
    assert(s.push(o).drop_last() =~= s);
    assert(s.push(o).last() == o);
}

proof fn lemma_count_update(s: Seq<Option<FetchOutcome>>, k: int, o: FetchOutcome)
    requires
        0 <= k < s.len(),
        s[k] is None,
    ensures
        count_done(s.update(k, Some(o))) == count_done(s) + 1,
        count_successes(s.update(k, Some(o))) == count_successes(s) + if o.is_success() {
            1nat
        } else {
            0nat
        },
    decreases s.len(),
{
    let t = s.update(k, Some(o));
    if k == s.len() - 1 {
        assert(t.drop_last() =~= s.drop_last());
        assert(t.last() == Some(o));
    } else {
        assert(t.drop_last() =~= s.drop_last().update(k, Some(o)));
        assert(t.last() == s.last());
        lemma_count_update(s.drop_last(), k, o);
    }
}

proof fn lemma_count_done_le_len(s: Seq<Option<FetchOutcome>>)
    ensures
        count_done(s) <= s.len(),
        count_successes(s) <= count_done(s),
    decreases s.len(),
{
    if s.len() > 0 {
        lemma_count_done_le_len(s.drop_last());
    }
}

proof fn lemma_count_done_full(s: Seq<Option<FetchOutcome>>)
    requires
        count_done(s) == s.len(),
    ensures
        forall|i: int| 0 <= i < s.len() ==> s[i] is Some,
    decreases s.len(),
{
    if s.len() > 0 {
        lemma_count_done_le_len(s.drop_last());
        lemma_count_done_full(s.drop_last());
        assert(forall|i: int| 0 <= i < s.len() - 1 ==> #[trigger] s[i] == s.drop_last()[i]);
        assert(s[s.len() - 1] == s.last());
    }
}

/// If every slot from `k` on is empty, at most `k` slots are filled.
proof fn lemma_count_done_prefix(s: Seq<Option<FetchOutcome>>, k: int)
    requires
        0 <= k <= s.len(),
        forall|i: int| k <= i < s.len() ==> s[i] is None,
    ensures
        count_done(s) <= k,
    decreases s.len(),
{
    if s.len() == 0 {
    } else if k == s.len() {
        lemma_count_done_le_len(s);
    } else {
        assert(forall|i: int| k <= i < s.len() - 1 ==> #[trigger] s.drop_last()[i] == s[i]);
        lemma_count_done_prefix(s.drop_last(), k);
        assert(s.last() == s[s.len() - 1]);
    }
}

/// Runs one fetch task per tile under a global concurrency limit, collecting
/// per-tile outcomes without aborting the batch on individual failures.
///
/// Slots are admitted in order; each admitted slot is completed exactly once;
/// at most `limit` admitted slots are ever awaiting completion.
pub struct FetchScheduler {
    pub limit: usize,
    pub started: usize,
    pub completed: usize,
    pub successes: usize,
    pub failures: usize,
    pub outcomes: Vec<Option<FetchOutcome>>,
}

impl FetchScheduler {
    /// Number of tiles this batch was created over.
    pub open spec fn total(&self) -> int {
        self.outcomes@.len() as int
    }

    /// Fetches currently in flight: admitted but not yet completed.
    pub open spec fn in_flight(&self) -> int {
        self.started - self.completed
    }

    /// Admission is open: there is a tile left to start and a free
    /// concurrency slot.
    pub open spec fn can_start(&self) -> bool {
        self.started < self.total() && self.in_flight() < self.limit
    }

    /// The scheduler's invariant. Among else: never more than `limit`
    /// fetches in flight, and one outcome slot per submitted tile, filled
    /// exactly for the tiles whose completion was recorded.
    pub open spec fn wf(&self) -> bool {
        &&& 1 <= self.limit
        &&& self.completed <= self.started <= self.total()
        &&& self.in_flight() <= self.limit
        &&& self.completed == count_done(self.outcomes@)
        &&& self.successes == count_successes(self.outcomes@)
        &&& self.failures == self.completed - self.successes
        &&& forall|i: int| self.started <= i < self.total() ==> self.outcomes@[i] is None
    }

    /// A new batch over `total` tiles with concurrency limit `limit`:
    /// nothing started, nothing completed.
    pub fn new(total: usize, limit: usize) -> (s: Self)
        requires
            1 <= limit,
        ensures
            s.wf(),
            s.total() == total,
            s.limit == limit,
            s.started == 0,
            s.completed == 0,
            s.successes == 0,
            s.failures == 0,
    {
        let mut outcomes: Vec<Option<FetchOutcome>> = Vec::new();
        let mut i: usize = 0;
        while i < total
            invariant
                i <= total,
                outcomes@.len() == i,
                count_done(outcomes@) == 0,
                count_successes(outcomes@) == 0,
                forall|j: int| 0 <= j < i ==> outcomes@[j] is None,
            decreases total - i,
        {
            proof {
                lemma_count_push(outcomes@, None);
            }
            outcomes.push(None);
            i = i + 1;
        }
        FetchScheduler { limit, started: 0, completed: 0, successes: 0, failures: 0, outcomes }
    }

    /// Admits the next tile fetch if admission is open, returning its index;
    /// returns `None` (leaving the batch unchanged) when every tile has been
    /// started or `limit` fetches are already in flight.
    pub fn try_start(&mut self) -> (r: Option<usize>)
        requires
            old(self).wf(),
        ensures
            final(self).wf(),
            old(self).can_start() ==> r == Some(old(self).started)
                && final(self).started == old(self).started + 1,
            !old(self).can_start() ==> r is None && final(self).started == old(self).started,
            final(self).limit == old(self).limit,
            final(self).completed == old(self).completed,
            final(self).successes == old(self).successes,
            final(self).failures == old(self).failures,
            final(self).outcomes@ == old(self).outcomes@,
    {
        if self.started < self.outcomes.len() && self.started - self.completed < self.limit {
            let idx = self.started;
            self.started = self.started + 1;
            Some(idx)
        } else {
            None
        }
    }

    /// Records the outcome of one admitted, not yet completed tile fetch.
    /// Only that tile's slot changes, so no outcome ever displaces another.
    pub fn complete(&mut self, task: usize, outcome: FetchOutcome)
        requires
            old(self).wf(),
            task < old(self).started,
            old(self).outcomes@[task as int] is None,
        ensures
            final(self).wf(),
            final(self).outcomes@ == old(self).outcomes@.update(task as int, Some(outcome)),
            final(self).completed == old(self).completed + 1,
            outcome.is_success() ==> final(self).successes == old(self).successes + 1
                && final(self).failures == old(self).failures,
            !outcome.is_success() ==> final(self).failures == old(self).failures + 1
                && final(self).successes == old(self).successes,
            final(self).limit == old(self).limit,
            final(self).started == old(self).started,
            final(self).total() == old(self).total(),
    {
        proof {
            lemma_count_update(self.outcomes@, task as int, outcome);
            lemma_count_done_prefix(
                self.outcomes@.update(task as int, Some(outcome)),
                self.started as int,
            );
        }
        let is_ok = match &outcome {
            FetchOutcome::Fetched { .. } => true,
            _ => false,
        };
        self.outcomes.set(task, Some(outcome));
        self.completed = self.completed + 1;
        if is_ok {
            self.successes = self.successes + 1;
        } else {
            self.failures = self.failures + 1;
        }
    }

    /// The batch is done once every tile has exactly one recorded outcome.
    pub fn is_done(&self) -> (r: bool)
        requires
            self.wf(),
        ensures
            r == (self.completed == self.total()),
            r ==> forall|i: int| 0 <= i < self.total() ==> self.outcomes@[i] is Some,
    {
        proof {
            if self.completed == self.total() {
                lemma_count_done_full(self.outcomes@);
            }
        }
        self.completed == self.outcomes.len()
    }

    /// One "tile completed" signal per resolved fetch, for the external
    /// progress observer.
    pub fn completed_count(&self) -> (n: usize)
        ensures
            n == self.completed,
    {
        self.completed
    }

    pub fn success_count(&self) -> (n: usize)
        ensures
            n == self.successes,
    {
        self.successes
    }

    pub fn failure_count(&self) -> (n: usize)
        ensures
            n == self.failures,
    {
        self.failures
    }

    /// A batch that is not yet done can always move: either admission is
    /// open, or a fetch is in flight whose completion the driver can
    /// record. So, driven to quiescence, a batch over `k` tiles yields
    /// exactly `k` outcomes whatever the concurrency limit.
    pub proof fn lemma_progress(&self)
        requires
            self.wf(),
            self.completed < self.total(),
        ensures
            self.can_start() || self.in_flight() > 0,
    {
    }

    /// Consumes a finished batch, yielding one outcome per submitted tile,
    /// in tile order.
    pub fn finish(self) -> (r: Vec<FetchOutcome>)
        requires
            self.wf(),
            self.completed == self.total(),
        ensures
            r@.len() == self.total(),
            forall|i: int| 0 <= i < r@.len() ==> self.outcomes@[i] == Some(r@[i]),
            self.successes == count_successes(self.outcomes@),
    {
        proof {
            lemma_count_done_full(self.outcomes@);
        }
        let ghost orig = self.outcomes@;
        let mut slots = self.outcomes;
        let mut r: Vec<FetchOutcome> = Vec::new();
        while slots.len() > 0
            invariant
                r@.len() + slots@.len() == orig.len(),
                slots@ =~= orig.subrange(r@.len() as int, orig.len() as int),
                forall|i: int| 0 <= i < orig.len() ==> orig[i] is Some,
                forall|i: int| 0 <= i < r@.len() ==> orig[i] == Some(r@[i]),
            decreases slots.len(),
        {
            let slot = slots.remove(0);
            match slot {
                Some(o) => {
                    r.push(o);
                },
                None => {
                    proof {
                        assert(false);
                    }
                },
            }
        }
        r
    }
}

} // verus!
