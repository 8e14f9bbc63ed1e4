//! The bounded retry policy for statements refused because the embedded
//! database is locked.

use vstd::prelude::*;
use crate::text::chars_of;

verus! {

/// How many times a statement refused for a lock is tried again.
pub const MAX_LOCK_RETRIES: u32 = 5;

/// The pause before each new try, in milliseconds.
pub const LOCK_BACKOFF_MS: u64 = 100;

/// How one try of a statement went.
#[derive(Clone, Copy, Debug, PartialEq, Eq, Structural)]
pub enum AttemptOutcome {
    Succeeded,
    /// The store reported the database as locked.
    Locked,
    /// Any other error.
    Failed,
}

/// What to do after a try.
#[derive(Clone, Copy, Debug, PartialEq, Eq, Structural)]
pub enum RetryDecision {
    Done,
    /// Wait this many milliseconds, then try again.
    RetryAfter(u64),
    /// Give up and report the error.
    GiveUp,
}

/// The retry budget of one statement.
#[derive(Clone, Copy, Debug, PartialEq, Eq, Structural)]
pub struct LockRetry {
    pub retries_left: u32,
}

pub open spec fn retry_step(r: LockRetry, o: AttemptOutcome) -> (LockRetry, RetryDecision) {
    match o {
        AttemptOutcome::Succeeded => (r, RetryDecision::Done),
        AttemptOutcome::Locked => if r.retries_left > 0 {
            (
                LockRetry { retries_left: (r.retries_left - 1) as u32 },
                RetryDecision::RetryAfter(LOCK_BACKOFF_MS),
            )
        } else {
            (r, RetryDecision::GiveUp)
        },
        AttemptOutcome::Failed => (r, RetryDecision::GiveUp),
    }
}

/// Where a series of tries ends: `Some(true)` once one succeeds,
/// `Some(false)` once the error is reported, `None` if the tries run out
/// first; with the number of tries made.
pub open spec fn retry_run(r: LockRetry, tries: Seq<AttemptOutcome>) -> (Option<bool>, nat)
    decreases tries.len(),
{
    if tries.len() == 0 {
        (None, 0)
    } else {
        let (next, d) = retry_step(r, tries[0]);
        match d {
            RetryDecision::Done => (Some(true), 1),
            RetryDecision::GiveUp => (Some(false), 1),
            RetryDecision::RetryAfter(_) => {
                let (res, n) = retry_run(next, tries.drop_first());
                (res, n + 1)
            },
        }
    }
}

impl LockRetry {
    /// A full budget.
    pub fn new() -> (r: LockRetry)
        ensures
            r.retries_left == MAX_LOCK_RETRIES,
    {
        LockRetry { retries_left: MAX_LOCK_RETRIES }
    }

    /// Decides what follows a try.
    pub fn after_attempt(&mut self, outcome: AttemptOutcome) -> (d: RetryDecision)
        ensures
            (*final(self), d) == retry_step(*old(self), outcome),
    {
        match outcome {
            AttemptOutcome::Succeeded => RetryDecision::Done,
            AttemptOutcome::Locked => {
                if self.retries_left > 0 {
                    self.retries_left = self.retries_left - 1;
                    RetryDecision::RetryAfter(LOCK_BACKOFF_MS)
                } else {
                    RetryDecision::GiveUp
                }
            },
            AttemptOutcome::Failed => RetryDecision::GiveUp,
        }
    }
}

pub open spec fn locked_tries(n: nat) -> Seq<AttemptOutcome> {
    Seq::new(n, |i: int| AttemptOutcome::Locked)
}

proof fn lemma_locked_then(left: u32, k: nat, rest: Seq<AttemptOutcome>)
    requires
        k <= left,
    ensures
        retry_run(LockRetry { retries_left: left }, locked_tries(k) + rest) == {
            let (res, n) = retry_run(LockRetry { retries_left: (left - k) as u32 }, rest);
            (res, n + k)
        },
    decreases k,
{
    if k > 0 {
        let s = locked_tries(k) + rest;
        assert(s[0] == AttemptOutcome::Locked);
        assert(s.drop_first() =~= locked_tries((k - 1) as nat) + rest);
        lemma_locked_then((left - 1) as u32, (k - 1) as nat, rest);
    } else {
        assert(locked_tries(0) + rest =~= rest);
    }
}

/// With a full budget, a statement that is refused for a lock `k` times,
/// `k` at most five, and then succeeds, completes after `k + 1` tries; one
/// refused six times running is reported as failed at the sixth try, and no
/// further try is made.
pub proof fn lemma_lock_retry_bound(k: nat, rest: Seq<AttemptOutcome>)
    ensures
        k <= MAX_LOCK_RETRIES ==> retry_run(
            LockRetry { retries_left: MAX_LOCK_RETRIES },
            locked_tries(k).push(AttemptOutcome::Succeeded),
        ) == (Some(true), k + 1),
        retry_run(
            LockRetry { retries_left: MAX_LOCK_RETRIES },
            locked_tries(MAX_LOCK_RETRIES as nat + 1) + rest,
        ) == (Some(false), MAX_LOCK_RETRIES as nat + 1),
{
    if k <= MAX_LOCK_RETRIES {
        let last = seq![AttemptOutcome::Succeeded];
        assert(locked_tries(k).push(AttemptOutcome::Succeeded) =~= locked_tries(k) + last);
        lemma_locked_then(MAX_LOCK_RETRIES, k, last);
    }
    let six = MAX_LOCK_RETRIES as nat + 1;
    assert(locked_tries(six) + rest =~= locked_tries(MAX_LOCK_RETRIES as nat) + (seq![
        AttemptOutcome::Locked,
    ] + rest));
    lemma_locked_then(MAX_LOCK_RETRIES, MAX_LOCK_RETRIES as nat, seq![AttemptOutcome::Locked] + rest);
}

/// Whether `pat` occurs in `s`.
pub open spec fn contains_text(s: Seq<char>, pat: Seq<char>) -> bool {
    exists|i: int| 0 <= i && i + pat.len() <= s.len() && #[trigger] s.subrange(i, i + pat.len()) == pat
}

/// The text by which the embedded store reports lock contention.
pub open spec fn lock_message() -> Seq<char> {
    "database is locked"@
}

fn matches_at(s: &Vec<char>, i: usize, pat: &Vec<char>) -> (r: bool)
    requires
        i + pat.len() <= s.len(),
    ensures
        r == (s@.subrange(i as int, i + pat.len()) == pat@),
{
    let mut k: usize = 0;
    while k < pat.len()
        invariant
            i + pat.len() <= s.len(),
            k <= pat.len(),
            forall|j: int| 0 <= j < k ==> s@[i + j] == pat@[j],
        decreases pat.len() - k,
    {
        if s[i + k] != pat[k] {
            assert(s@.subrange(i as int, i + pat.len())[k as int] != pat@[k as int]);
            return false;
        }
        k = k + 1;
    }
    assert(s@.subrange(i as int, i + pat.len()) =~= pat@);
    true
}

/// Whether an error message reports lock contention.
pub fn is_lock_error(message: &str) -> (r: bool)
    ensures
        r == contains_text(message@, lock_message()),
{
    let s = chars_of(message);
    let pat = chars_of("database is locked");
    if pat.len() > s.len() {
        assert(!contains_text(message@, lock_message()));
        return false;
    }
    let end = s.len() - pat.len();
    let mut i: usize = 0;
    while i < end
        invariant
            s@ == message@,
            pat@ == lock_message(),
            end == s.len() - pat.len(),
            i <= end,
            forall|j: int| 0 <= j < i ==> #[trigger] s@.subrange(j, j + pat.len()) != pat@,
        decreases end - i,
    {
        if matches_at(&s, i, &pat) {
            return true;
        }
        i = i + 1;
    }
    if matches_at(&s, end, &pat) {
        return true;
    }
    let ghost i = end + 1;
    assert(!contains_text(message@, lock_message())) by {
        if contains_text(message@, lock_message()) {
            let j = choose|j: int| 0 <= j && j + pat.len() <= s.len() && #[trigger] s@.subrange(
                j,
                j + pat.len(),
            ) == pat@;
            assert(j < i);
        }
    }
    false
}

/// What a failed statement's error message means for the retry policy.
pub fn classify_error(message: &str) -> (r: AttemptOutcome)
    ensures
        r == (if contains_text(message@, lock_message()) {
            AttemptOutcome::Locked
        } else {
            AttemptOutcome::Failed
        }),
{
    if is_lock_error(message) {
        AttemptOutcome::Locked
    } else {
        AttemptOutcome::Failed
    }
}

} // verus!
