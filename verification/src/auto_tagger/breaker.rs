//! The circuit breaker that the auto-tagger workers share.

use vstd::prelude::*;

verus! {

/// How many failures in a row open the breaker of the workers.
pub const TRIP_THRESHOLD: usize = 6;

/// How long the breaker of the workers stays open, in milliseconds.
pub const COOLDOWN_MS: u64 = 60000;

/// API circuit breaker for the auto-tagger workers.
///
/// When the provider is down (consecutive `Unavailable` errors), the breaker
/// opens and every worker fails fast without calling the API or sleeping. After
/// the cooldown, one probe call is allowed (half-open); success closes the
/// breaker, failure trips it again.
#[derive(Debug, Clone)]
pub struct ApiCircuitBreaker {
    consecutive_failures: usize,
    /// Millis since UNIX epoch when the breaker tripped (0 = closed).
    tripped_at_ms: usize,
    /// A probe call is out, and its outcome is not recorded yet.
    probing: bool,
    trip_threshold: usize,
    cooldown_ms: u64,
}

/// What a breaker holds.
#[verifier::ext_equal]
pub struct BreakerModel {
    pub failures: usize,
    pub tripped_at: usize,
    pub probing: bool,
    pub threshold: usize,
    pub cooldown: u64,
}

impl View for ApiCircuitBreaker {
    type V = BreakerModel;

    closed spec fn view(&self) -> BreakerModel {
        BreakerModel {
            failures: self.consecutive_failures,
            tripped_at: self.tripped_at_ms,
            probing: self.probing,
            threshold: self.trip_threshold,
            cooldown: self.cooldown_ms,
        }
    }
}

impl BreakerModel {
    /// The breaker has tripped: calls are refused until the cooldown has passed, and
    /// then all but one, until the outcome of that one closes the breaker.
    pub open spec fn is_open(self) -> bool {
        self.tripped_at != 0
    }

    /// The cooldown has passed at `now`.
    pub open spec fn has_cooled(self, now: usize) -> bool {
        (if now >= self.tripped_at {
            now - self.tripped_at
        } else {
            0
        }) >= self.cooldown
    }

    /// A call is allowed at `now`: the breaker is closed, or the cooldown has passed
    /// and no probe is out.
    pub open spec fn allows(self, now: usize) -> bool {
        !self.is_open() || (!self.probing && self.has_cooled(now))
    }

    /// The breaker once a call was asked for at `now`: the call that an open breaker
    /// allows is a probe.
    pub open spec fn after_request(self, now: usize) -> BreakerModel {
        if self.is_open() && self.allows(now) {
            BreakerModel { probing: true, ..self }
        } else {
            self
        }
    }

    /// The breaker once a call failed at `now`.
    pub open spec fn after_failure(self, now: usize) -> BreakerModel {
        let failures = if self.failures < usize::MAX {
            (self.failures + 1) as usize
        } else {
            0
        };
        BreakerModel {
            failures: failures,
            tripped_at: if failures >= self.threshold {
                now
            } else {
                self.tripped_at
            },
            probing: false,
            ..self
        }
    }

    /// The breaker once a call succeeded.
    pub open spec fn after_success(self) -> BreakerModel {
        BreakerModel { failures: 0, tripped_at: 0, probing: false, ..self }
    }

    /// The breaker once the provider answered a call with an error of its own: it is
    /// there, so a probe closes the breaker. The failures stay counted.
    pub open spec fn after_answer(self) -> BreakerModel {
        if self.probing {
            BreakerModel { tripped_at: 0, probing: false, ..self }
        } else {
            self
        }
    }

    /// The breaker once a call that was allowed is not made after all: another may be
    /// the probe.
    pub open spec fn after_no_call(self) -> BreakerModel {
        BreakerModel { probing: false, ..self }
    }

    /// The breaker once calls failed at each of these times.
    pub open spec fn after_failures(self, times: Seq<usize>) -> BreakerModel
        decreases times.len(),
    {
        if times.len() == 0 {
            self
        } else {
            self.after_failures(times.drop_last()).after_failure(times.last())
        }
    }
}

impl ApiCircuitBreaker {
    /// A closed breaker that trips after `trip_threshold` consecutive failures,
    /// and after at least one.
    pub fn new(trip_threshold: usize, cooldown_ms: u64) -> (r: Self)
        ensures
            r@ == (BreakerModel {
                failures: 0,
                tripped_at: 0,
                probing: false,
                threshold: if trip_threshold > 1 {
                    trip_threshold
                } else {
                    1
                },
                cooldown: cooldown_ms,
            }),
    {
        ApiCircuitBreaker {
            consecutive_failures: 0,
            tripped_at_ms: 0,
            probing: false,
            trip_threshold: if trip_threshold > 1 {
                trip_threshold
            } else {
                1
            },
            cooldown_ms: cooldown_ms,
        }
    }

    /// `std::time::SystemTime::now` as milliseconds since the UNIX epoch, 0 before
    /// it. The clock decides; nothing is claimed of the result.
    #[verifier::external_body]
    pub(crate) fn now_ms() -> (r: usize)
    {
        std::time::SystemTime::now().duration_since(std::time::UNIX_EPOCH).map(|d| d.as_millis() as usize).unwrap_or(0)
    }

    /// Whether an API call is allowed at `now_ms` (closed, or half-open probe).
    /// Only one probe is allowed: until its outcome is recorded, every other call is
    /// refused.
    pub fn allow_request_at(&mut self, now_ms: usize) -> (r: bool)
        ensures
            r == old(self)@.allows(now_ms),
            final(self)@ == old(self)@.after_request(now_ms),
    {
        if self.tripped_at_ms == 0 {
            return true;
        }
        if self.probing {
            return false;
        }
        let waited: usize = if now_ms >= self.tripped_at_ms {
            now_ms - self.tripped_at_ms
        } else {
            0
        };
        if waited as u64 >= self.cooldown_ms {
            self.probing = true;
            return true;
        }
        false
    }

    /// Whether an API call is allowed right now (closed, or half-open probe).
    pub fn allow_request(&mut self) -> (r: bool)
        ensures
            exists|now: usize|
                r == #[trigger] old(self)@.allows(now) && final(self)@ == old(self)@.after_request(now),
    {
        let now: usize = Self::now_ms();
        self.allow_request_at(now)
    }

    /// Record a transient provider failure (5xx/timeout/network) at `now_ms`.
    pub fn record_failure_at(&mut self, now_ms: usize)
        ensures
            final(self)@ == old(self)@.after_failure(now_ms),
    {
        self.consecutive_failures = if self.consecutive_failures < usize::MAX {
            self.consecutive_failures + 1
        } else {
            0
        };
        if self.consecutive_failures >= self.trip_threshold {
            self.tripped_at_ms = now_ms;
        }
        self.probing = false;
    }

    /// Record a transient provider failure (5xx/timeout/network).
    pub fn record_failure(&mut self)
        ensures
            exists|now: usize| final(self)@ == #[trigger] old(self)@.after_failure(now),
    {
        let now: usize = Self::now_ms();
        self.record_failure_at(now);
    }

    /// Record a successful provider call — closes the breaker.
    pub fn record_success(&mut self)
        ensures
            final(self)@ == old(self)@.after_success(),
    {
        self.consecutive_failures = 0;
        self.tripped_at_ms = 0;
        self.probing = false;
    }

    /// Record that the provider answered with an error of its own (a refused key, a
    /// bad request, an unreadable reply) — it is there, so a probe closes the breaker.
    pub fn record_answer(&mut self)
        ensures
            final(self)@ == old(self)@.after_answer(),
    {
        if self.probing {
            self.tripped_at_ms = 0;
            self.probing = false;
        }
    }

    /// Record that an allowed call is not made after all.
    pub fn record_no_call(&mut self)
        ensures
            final(self)@ == old(self)@.after_no_call(),
    {
        self.probing = false;
    }
}

/// How many failures are counted.
proof fn lemma_failures(b: BreakerModel, times: Seq<usize>)
    requires
        b.failures + times.len() < usize::MAX,
    ensures
        b.after_failures(times).failures == b.failures + times.len(),
        b.after_failures(times).threshold == b.threshold,
        b.after_failures(times).cooldown == b.cooldown,
        b.failures + times.len() < b.threshold ==> b.after_failures(times).tripped_at
            == b.tripped_at,
    decreases times.len(),
{
    if times.len() > 0 {
        lemma_failures(b, times.drop_last());
    }
}

/// Fewer consecutive failures than the threshold leave a closed breaker closed;
/// as many trip it, and from then on every call is refused, without changing the
/// breaker, until the cooldown has passed since the last failure.
pub proof fn breaker_trips_at_the_threshold(b: BreakerModel, times: Seq<usize>, now: usize)
    requires
        !b.is_open(),
        b.failures == 0,
        b.threshold >= 1,
        times.len() < usize::MAX,
    ensures
        times.len() < b.threshold ==> b.after_failures(times).allows(now),
        times.len() >= b.threshold && times.last() != 0 && times.last() <= now && now - times.last()
            < b.cooldown ==> {
            &&& !b.after_failures(times).allows(now)
            &&& b.after_failures(times).after_request(now) == b.after_failures(times)
        },
{
    lemma_failures(b, times);
    if times.len() >= b.threshold {
        lemma_failures(b, times.drop_last());
    }
}

/// After the cooldown exactly one probe is allowed: every other call is refused,
/// whenever it is asked for, until the outcome of the probe is recorded. If the probe
/// fails the breaker is open again, at once; if it succeeds every later call is
/// allowed.
pub proof fn breaker_probes_after_the_cooldown(
    b: BreakerModel,
    now: usize,
    failed_at: usize,
    later: usize,
)
    requires
        b.is_open(),
        !b.probing,
        b.threshold <= b.failures < usize::MAX,
        b.tripped_at + b.cooldown <= now,
        failed_at > 0,
    ensures
        b.allows(now),
        !b.after_request(now).allows(later),
        b.after_request(now).after_request(later) == b.after_request(now),
        failed_at <= later && later - failed_at < b.cooldown ==> !b.after_request(now).after_failure(
            failed_at,
        ).allows(later),
        failed_at <= later && later - failed_at >= b.cooldown ==> b.after_request(now).after_failure(
            failed_at,
        ).allows(later),
        b.after_request(now).after_success().allows(later),
        b.after_request(now).after_answer().allows(later),
{
}

/// A closed breaker allows every call, and stays as it is; a call that succeeds closes the
/// breaker and forgets the failures; a call that is not made leaves the breaker as it was
/// before it was allowed.
pub proof fn success_closes_the_breaker(b: BreakerModel, now: usize, later: usize)
    ensures
        b.tripped_at == 0 ==> b.allows(now) && b.after_request(now) == b,
        b.after_success().tripped_at == 0 && b.after_success().failures == 0,
        b.after_success().allows(later),
        b.after_success().threshold == b.threshold && b.after_success().cooldown == b.cooldown,
        !b.probing ==> b.after_request(now).after_no_call() == b,
        b.after_answer().failures == b.failures,
        !b.probing ==> b.after_answer() == b,
        b.probing ==> b.after_answer().tripped_at == 0 && !b.after_answer().probing,
        TRIP_THRESHOLD == 6 && COOLDOWN_MS == 60 * 1000,
{
}

/// Each failure is counted, and the one that reaches the threshold opens the breaker at
/// its time; before that a failure leaves the breaker as open or closed as it was.
pub proof fn each_failure_is_counted(b: BreakerModel, now: usize)
    requires
        b.failures < usize::MAX,
    ensures
        b.after_failure(now).failures == b.failures + 1,
        b.failures + 1 >= b.threshold ==> b.after_failure(now).tripped_at == now,
        b.failures + 1 < b.threshold ==> b.after_failure(now).tripped_at == b.tripped_at,
        !b.after_failure(now).probing,
        b.after_failure(now).threshold == b.threshold && b.after_failure(now).cooldown
            == b.cooldown,
{
}

/// An open breaker allows a call where no probe is out and the cooldown has passed since
/// it opened; failures are counted one after another.
pub proof fn open_breakers_wait_for_the_cooldown(
    b: BreakerModel,
    now: usize,
    times: Seq<usize>,
    time: usize,
)
    ensures
        b.is_open() <==> b.tripped_at != 0,
        b.tripped_at != 0 && b.tripped_at <= now ==> (b.allows(now) <==> !b.probing && now
            - b.tripped_at >= b.cooldown),
        b.tripped_at > now ==> (b.allows(now) <==> !b.probing && b.cooldown == 0),
        b.tripped_at != 0 && b.allows(now) ==> b.after_request(now) == (BreakerModel {
            probing: true,
            ..b
        }),
        !b.allows(now) ==> b.after_request(now) == b,
        b.after_failures(Seq::empty()) == b,
        b.after_failures(times.push(time)) == b.after_failures(times).after_failure(time),
{
    assert(times.push(time).drop_last() =~= times);
}

} // verus!
