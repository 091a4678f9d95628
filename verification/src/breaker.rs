//! Execution circuit breaker: plain counters, fully deterministic.
//! Trips on consecutive failures or on a repeated identical action (dead loop).

use vstd::prelude::*;

verus! {

/// A breaker as the contracts see it.
pub struct BreakerModel {
    /// Failures since the last success.
    pub failures: nat,
    pub max_failures: nat,
    /// The action planned last, and how often in a row.
    pub last_action: Option<u64>,
    pub repeats: nat,
    pub max_repeats: nat,
    pub open: bool,
}

/// One more, up to the largest count that is kept.
pub open spec fn counted(n: nat) -> nat {
    if n < u32::MAX {
        n + 1
    } else {
        n
    }
}

impl BreakerModel {
    /// A closed breaker that has seen nothing.
    pub open spec fn fresh(max_failures: nat, max_repeats: nat) -> Self {
        BreakerModel {
            failures: 0,
            max_failures,
            last_action: None,
            repeats: 0,
            max_repeats,
            open: false,
        }
    }

    pub open spec fn after_success(self) -> Self {
        BreakerModel { failures: 0, open: false, ..self }
    }

    pub open spec fn after_failure(self) -> Self {
        let failures = counted(self.failures);
        BreakerModel { failures, open: self.open || failures >= self.max_failures, ..self }
    }

    /// How often `fingerprint` has been planned in a row, this time included.
    pub open spec fn repeats_with(self, fingerprint: u64) -> nat {
        if self.last_action == Some(fingerprint) {
            counted(self.repeats)
        } else {
            1
        }
    }

    /// Planning `fingerprint` now makes a dead loop.
    pub open spec fn loops_on(self, fingerprint: u64) -> bool {
        self.repeats_with(fingerprint) >= self.max_repeats
    }

    pub open spec fn after_action(self, fingerprint: u64) -> Self {
        BreakerModel {
            last_action: Some(fingerprint),
            repeats: self.repeats_with(fingerprint),
            open: self.open || self.loops_on(fingerprint),
            ..self
        }
    }

    pub open spec fn after_reset(self) -> Self {
        Self::fresh(self.max_failures, self.max_repeats)
    }

    /// The breaker after `n` failures in a row.
    pub open spec fn after_failures(self, n: nat) -> Self
        decreases n,
    {
        if n == 0 {
            self
        } else {
            self.after_failures((n - 1) as nat).after_failure()
        }
    }

    /// The breaker after `fingerprint` has been planned `n` times in a row.
    pub open spec fn after_actions(self, fingerprint: u64, n: nat) -> Self
        decreases n,
    {
        if n == 0 {
            self
        } else {
            self.after_actions(fingerprint, (n - 1) as nat).after_action(fingerprint)
        }
    }
}

/// A breaker. The counters stop at `u32::MAX`.
pub struct Breaker {
    consecutive_failures: u32,
    max_failures: u32,
    last_action: Option<u64>,
    action_repeats: u32,
    max_repeats: u32,
    open: bool,
}

impl View for Breaker {
    type V = BreakerModel;

    closed spec fn view(&self) -> BreakerModel {
        BreakerModel {
            failures: self.consecutive_failures as nat,
            max_failures: self.max_failures as nat,
            last_action: self.last_action,
            repeats: self.action_repeats as nat,
            max_repeats: self.max_repeats as nat,
            open: self.open,
        }
    }
}

impl Breaker {
    pub fn new(max_failures: u32, max_repeats: u32) -> (r: Self)
        ensures
            r@ == BreakerModel::fresh(max_failures as nat, max_repeats as nat),
    {
        Breaker {
            consecutive_failures: 0,
            max_failures,
            last_action: None,
            action_repeats: 0,
            max_repeats,
            open: false,
        }
    }

    pub fn is_open(&self) -> (r: bool)
        ensures
            r == self@.open,
    {
        self.open
    }

    pub fn record_success(&mut self)
        ensures
            final(self)@ == old(self)@.after_success(),
    {
        self.consecutive_failures = 0;
        self.open = false;
    }

    pub fn record_failure(&mut self)
        ensures
            final(self)@ == old(self)@.after_failure(),
    {
        if self.consecutive_failures < u32::MAX {
            self.consecutive_failures = self.consecutive_failures + 1;
        }
        if self.consecutive_failures >= self.max_failures {
            self.open = true;
        }
    }

    /// Records a fingerprint of the action the model just planned. Returns
    /// true if the breaker tripped because of a dead loop.
    pub fn record_action(&mut self, fingerprint: u64) -> (tripped: bool)
        ensures
            final(self)@ == old(self)@.after_action(fingerprint),
            tripped == old(self)@.loops_on(fingerprint),
    {
        let again = match self.last_action {
            Some(last) => last == fingerprint,
            None => false,
        };
        if again {
            if self.action_repeats < u32::MAX {
                self.action_repeats = self.action_repeats + 1;
            }
        } else {
            self.last_action = Some(fingerprint);
            self.action_repeats = 1;
        }
        if self.action_repeats >= self.max_repeats {
            self.open = true;
            return true;
        }
        false
    }

    /// Manual reset, e.g. after a fallback answer calmed things down.
    pub fn reset(&mut self)
        ensures
            final(self)@ == old(self)@.after_reset(),
    {
        self.consecutive_failures = 0;
        self.last_action = None;
        self.action_repeats = 0;
        self.open = false;
    }
}

proof fn lemma_after_failures(b: BreakerModel, n: nat)
    requires
        !b.open,
        b.failures == 0,
        n <= u32::MAX,
    ensures
        b.after_failures(n) == (BreakerModel {
            failures: n,
            open: n > 0 && n >= b.max_failures,
            ..b
        }),
    decreases n,
{
    if n > 0 {
        lemma_after_failures(b, (n - 1) as nat);
    }
}

/// A closed breaker with no failures on record opens exactly when as many
/// failures follow each other as it allows.
pub proof fn law_opens_on_consecutive_failures(b: BreakerModel, n: nat)
    requires
        !b.open,
        b.failures == 0,
        n <= u32::MAX,
    ensures
        b.after_failures(n).open <==> n > 0 && n >= b.max_failures,
{
    lemma_after_failures(b, n);
}

/// A success between failures starts the count anew: however many failures
/// came before it, the breaker then opens only after a full run of failures.
pub proof fn law_success_restarts_the_count(b: BreakerModel, before: nat, after: nat)
    requires
        after <= u32::MAX,
    ensures
        b.after_failures(before).after_success().after_failures(after).open <==> after > 0 && after
            >= b.max_failures,
{
    lemma_limits_kept(b, before);
    lemma_after_failures(b.after_failures(before).after_success(), after);
}

proof fn lemma_limits_kept(b: BreakerModel, n: nat)
    ensures
        b.after_failures(n).max_failures == b.max_failures,
        b.after_failures(n).max_repeats == b.max_repeats,
    decreases n,
{
    if n > 0 {
        lemma_limits_kept(b, (n - 1) as nat);
    }
}

proof fn lemma_after_actions(b: BreakerModel, fingerprint: u64, n: nat)
    requires
        b.last_action != Some(fingerprint),
        0 < n <= u32::MAX,
    ensures
        b.after_actions(fingerprint, n).last_action == Some(fingerprint),
        b.after_actions(fingerprint, n).repeats == n,
        b.after_actions(fingerprint, n).max_repeats == b.max_repeats,
    decreases n,
{
    if n > 1 {
        lemma_after_actions(b, fingerprint, (n - 1) as nat);
    } else {
        assert(b.after_actions(fingerprint, 0) == b);
    }
}

/// An action that differs from the one before trips the breaker exactly when
/// it has been planned as many times in a row as the breaker allows.
pub proof fn law_trips_on_repeated_action(b: BreakerModel, fingerprint: u64, n: nat)
    requires
        b.last_action != Some(fingerprint),
        n < u32::MAX,
    ensures
        b.after_actions(fingerprint, n).loops_on(fingerprint) <==> n + 1 >= b.max_repeats,
{
    if n > 0 {
        lemma_after_actions(b, fingerprint, n);
    } else {
        assert(b.after_actions(fingerprint, 0) == b);
    }
}

/// Failures and actions are counted apart: what one is counted for leaves the other
/// count alone, an action other than the last starts its count anew, and only a reset
/// forgets the actions.
pub proof fn law_failures_and_actions_are_counted_apart(b: BreakerModel, f: u64, g: u64)
    ensures
        b.after_failure().last_action == b.last_action,
        b.after_failure().repeats == b.repeats,
        b.after_success().last_action == b.last_action,
        b.after_success().repeats == b.repeats,
        b.after_success().failures == 0,
        !b.after_success().open,
        b.after_action(f).failures == b.failures,
        b.after_action(f).last_action == Some(f),
        f != g ==> b.after_action(f).after_action(g).repeats == 1,
        b.repeats < u32::MAX - 1 ==> b.after_action(f).after_action(f).repeats
            == b.after_action(f).repeats + 1,
        b.after_reset() == (BreakerModel {
            failures: 0,
            max_failures: b.max_failures,
            last_action: None,
            repeats: 0,
            max_repeats: b.max_repeats,
            open: false,
        }),
{
}

} // verus!
