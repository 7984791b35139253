//! The rate-paced runner's decision logic: batch sizing, tick deadlines,
//! round-robin template selection and sample accounting.  The event loop
//! that waits, sends and collects lives outside the library; it feeds the
//! clock readings in and performs the actions handed back.
use crate::config::BatchSize;
use crate::config::RunnerConfig;
use crate::error::Error;
use crate::report::Report;
use crate::report::Sample;
use crate::request::Request;
use vstd::prelude::*;

verus! {

use vstd::string::StringExecFns;

/// The effective batch size: a fixed size is taken as configured; `auto`
/// derives one tenth of the target rate (rounded half up, at least one),
/// so that the dispatch tick is 100 ms.
pub open spec fn effective_batch_size_model(batch: BatchSize, target_rps: int) -> int {
    match batch {
        BatchSize::Fixed(n) => n as int,
        BatchSize::Auto(_) => if (target_rps + 5) / 10 > 1 {
            (target_rps + 5) / 10
        } else {
            1
        },
    }
}

/// Computes the effective batch size.
pub fn effective_batch_size(batch: &BatchSize, target_rps: u32) -> (r: u32)
    ensures
        r as int == effective_batch_size_model(*batch, target_rps as int),
{
    match batch {
        BatchSize::Fixed(n) => *n,
        BatchSize::Auto(_) => {
            let rounded = (target_rps / 10) + (if target_rps % 10 >= 5 {
                1
            } else {
                0
            });
            proof {
                assert(rounded as int == (target_rps as int + 5) / 10);
            }
            if rounded > 1 {
                rounded
            } else {
                1
            }
        },
    }
}

/// Offset of the `k`-th tick deadline from the start of the run, in
/// microseconds: the exact rational `k · B / R` seconds, floored to the
/// microsecond, so pacing error never accumulates.
pub open spec fn deadline_offset_micros(k: int, batch: int, rps: int) -> int {
    (k * batch * 1000000) / rps
}

/// Rounding up to a whole number of batches.
pub open spec fn ceil_div(a: int, b: int) -> int {
    (a + b - 1) / b
}

/// Rate accuracy: a run of `duration_secs` seconds at `rps` with batches
/// of `batch` dispatches `ceil(duration · rps / batch)` batches, and the
/// total request count `N = batch · ceil(duration · rps / batch)`
/// satisfies `rps · duration <= N <= rps · duration + batch`.
pub proof fn lemma_rate_accuracy(rps: int, duration_secs: int, batch: int)
    requires
        rps >= 1,
        batch >= 1,
        duration_secs >= 0,
    ensures
        rps * duration_secs <= batch * ceil_div(duration_secs * rps, batch),
        batch * ceil_div(duration_secs * rps, batch) <= rps * duration_secs + batch,
{
    let a = duration_secs * rps;
    let x = a + batch - 1;
    vstd::arithmetic::div_mod::lemma_fundamental_div_mod(x, batch);
    vstd::arithmetic::div_mod::lemma_mod_bound(x, batch);
    assert(a >= 0) by (nonlinear_arith)
        requires
            a == duration_secs * rps,
            rps >= 1,
            duration_secs >= 0,
    ;
    assert(batch * (x / batch) == x - x % batch);
}

/// A tick deadline falls inside the run exactly while fewer than
/// `ceil(duration · rps / batch)` batches have been dispatched: the
/// dispatch-count characterization behind the accuracy bound.
pub proof fn lemma_dispatch_count(k: int, batch: int, rps: int, duration_secs: int)
    requires
        rps >= 1,
        batch >= 1,
        k >= 0,
        duration_secs >= 0,
    ensures
        (deadline_offset_micros(k, batch, rps) < duration_secs * 1000000) <==> (k * batch
            < duration_secs * rps),
{
    let x = k * batch * 1000000;
    let d = duration_secs * 1000000;
    vstd::arithmetic::div_mod::lemma_fundamental_div_mod(x, rps);
    vstd::arithmetic::div_mod::lemma_mod_bound(x, rps);
    assert(x >= 0) by (nonlinear_arith)
        requires
            x == k * batch * 1000000,
            k >= 0,
            batch >= 1,
    ;
    if x / rps < d {
        assert(x < d * rps) by (nonlinear_arith)
            requires
                x == rps * (x / rps) + x % rps,
                0 <= x % rps < rps,
                x / rps < d,
                rps >= 1,
    ;
        assert(k * batch * 1000000 < duration_secs * 1000000 * rps);
        assert(k * batch < duration_secs * rps) by (nonlinear_arith)
            requires
                k * batch * 1000000 < duration_secs * 1000000 * rps,
    ;
    }
    if k * batch < duration_secs * rps {
        assert(x <= d * rps - 1000000) by (nonlinear_arith)
            requires
                k * batch < duration_secs * rps,
                x == k * batch * 1000000,
                d == duration_secs * 1000000,
    ;
        assert(x / rps < d) by (nonlinear_arith)
            requires
                x == rps * (x / rps) + x % rps,
                0 <= x % rps < rps,
                x <= d * rps - 1000000,
                rps >= 1,
    ;
    }
}

/// What the event loop must do next.
#[derive(Debug)]
pub enum RunnerAction {
    Finish,
    Dispatch { wait_until_micros: u64, template_indices: Vec<usize> },
}

/// The rate-paced runner: the request mix, the pacing parameters, the
/// tick and template counters, and the accumulating report.
#[derive(Debug)]
pub struct Runner {
    pub requests: Vec<Request>,
    pub target_rps: u32,
    pub batch_size: u32,
    pub duration_micros: u64,
    pub t0_micros: u64,
    pub ticks: u64,
    pub next_template: u64,
    pub report: Report,
}

impl Runner {
    /// The runner's invariant: positive rate and batch, at least one
    /// template, bounded times, and a tick count that never runs more
    /// than one batch past the configured duration.
    pub open spec fn wf(self) -> bool {
        &&& self.target_rps >= 1
        &&& self.batch_size >= 1
        &&& self.requests@.len() >= 1
        &&& self.report.wf()
        &&& self.t0_micros < 0x4000_0000_0000_0000
        &&& self.duration_micros < 0x4000_0000_0000_0000
        &&& self.duration_micros * self.target_rps < 0x8000_0000_0000_0000
        &&& self.ticks * self.batch_size * 1000000 <= self.duration_micros * self.target_rps
            + self.target_rps + self.batch_size * 1000000
    }

    /// Builds a runner from its configuration: the rate must be positive,
    /// a fixed batch size must be positive, at least one request must be
    /// configured, and every template must build.
    pub fn new(config: &RunnerConfig) -> (r: Result<Runner, Error>)
        ensures
            r matches Ok(runner) ==> {
                &&& runner.wf()
                &&& runner.target_rps == config.target_rps
                &&& runner.batch_size as int == effective_batch_size_model(
                    config.batch_size,
                    config.target_rps as int,
                )
                &&& runner.duration_micros as int == config.duration_millis * 1000
                &&& runner.requests@.len() == config.requests@.len()
                &&& forall|i: int|
                    0 <= i < config.requests@.len() ==> (#[trigger] runner.requests@[i]).built_from(
                        config.requests@[i],
                        config.base_url@,
                    )
                &&& runner.ticks == 0
                &&& runner.next_template == 0
            },
            r matches Err(e) ==> !(e is AssertError),
    {
        if config.target_rps < 1 {
            return Err(Error::ConfigError(String::from_str("target_rps must be at least 1")));
        }
        let batch_size = effective_batch_size(&config.batch_size, config.target_rps);
        if batch_size < 1 {
            return Err(Error::ConfigError(String::from_str("batch_size must be at least 1")));
        }
        if config.requests.len() == 0 {
            return Err(Error::ConfigError(String::from_str("no requests configured")));
        }
        if config.duration_millis >= 4611686018427387 {
            return Err(Error::ConfigError(String::from_str("duration too long")));
        }
        let mut requests: Vec<Request> = Vec::new();
        let mut i: usize = 0;
        #[verifier::loop_isolation(false)]
        while i < config.requests.len()
            invariant
                i <= config.requests@.len(),
                requests@.len() == i,
                forall|j: int|
                    0 <= j < i ==> (#[trigger] requests@[j]).built_from(
                        config.requests@[j],
                        config.base_url@,
                    ),
            decreases config.requests@.len() - i,
        {
            match Request::new(&config.requests[i], config.base_url.as_str()) {
                Ok(req) => {
                    requests.push(req);
                },
                Err(e) => {
                    return Err(e);
                },
            }
            i = i + 1;
        }
        let duration_micros = config.duration_millis * 1000;
        proof {
            assert(duration_micros as int * (config.target_rps as int) <= 0x4000000000000000
                * 0x100000000) by (nonlinear_arith)
                requires
                    0 <= (duration_micros as int) < 0x4000000000000000,
                    0 <= (config.target_rps as int) <= 0xffffffff,
            ;
        }
        let dur_rps = (duration_micros as u128) * (config.target_rps as u128);
        if dur_rps >= 0x8000_0000_0000_0000u128 {
            return Err(
                Error::ConfigError(String::from_str("duration too long for target_rps")),
            );
        }
        proof {
            assert(0 <= duration_micros as int * config.target_rps as int) by (nonlinear_arith)
                requires
                    duration_micros as int >= 0,
                    config.target_rps as int >= 1,
            ;
        }
        Ok(
            Runner {
                requests,
                target_rps: config.target_rps,
                batch_size,
                duration_micros,
                t0_micros: 0,
                ticks: 0,
                next_template: 0,
                report: Report::new(),
            },
        )
    }

    /// Starts the clock: the run spans `[now, now + duration)`.
    pub fn start(&mut self, now_micros: u64)
        requires
            old(self).wf(),
            now_micros < 0x4000_0000_0000_0000,
        ensures
            final(self).wf(),
            *final(self) == (Runner { t0_micros: now_micros, ticks: 0, ..*old(self) }),
    {
        self.t0_micros = now_micros;
        self.ticks = 0;
    }

    /// Decides the next step from the clock: finish once `now` has
    /// reached the end of the run or the next deadline falls at or past
    /// it; otherwise dispatch one more batch of round-robin templates at
    /// the next tick deadline, counting a lag when the deadline is
    /// already past.
    pub fn next_action(&mut self, now_micros: u64) -> (r: RunnerAction)
        requires
            old(self).wf(),
        ensures
            final(self).wf(),
            ({
                let end = old(self).t0_micros + old(self).duration_micros;
                let deadline = old(self).t0_micros + deadline_offset_micros(
                    old(self).ticks as int,
                    old(self).batch_size as int,
                    old(self).target_rps as int,
                );
                if now_micros >= end || deadline >= end {
                    r is Finish && *final(self) == *old(self)
                } else {
                    r matches RunnerAction::Dispatch { wait_until_micros, template_indices } && {
                        &&& wait_until_micros == deadline
                        &&& template_indices@.len() == old(self).batch_size
                        &&& forall|j: int|
                            0 <= j < template_indices@.len()
                                ==> (#[trigger] template_indices@[j]) as int == (
                            old(self).next_template + j) % (old(self).requests@.len() as int)
                        &&& final(self).ticks == old(self).ticks + 1
                        &&& final(self).next_template as int == (old(self).next_template as int
                            + old(self).batch_size as int) % 0x10000000000000000
                        &&& final(self).report.model() == (if now_micros > deadline {
                            crate::report::ReportModel {
                                lag_count: crate::report::sat_add(
                                    old(self).report.model().lag_count,
                                    1,
                                ),
                                ..old(self).report.model()
                            }
                        } else {
                            old(self).report.model()
                        })
                        &&& final(self).requests == old(self).requests
                        &&& final(self).t0_micros == old(self).t0_micros
                        &&& final(self).duration_micros == old(self).duration_micros
                        &&& final(self).batch_size == old(self).batch_size
                        &&& final(self).target_rps == old(self).target_rps
                    }
                }
            }),
    {
        let end = self.t0_micros + self.duration_micros;
        let k = self.ticks as u128;
        proof {
            assert(k as int * (self.batch_size as int) * 1000000 <= 0xffffffffffffffff
                * 0xffffffff * 1000000) by (nonlinear_arith)
                requires
                    0 <= (k as int) <= 0xffffffffffffffff,
                    0 <= (self.batch_size as int) <= 0xffffffff,
            ;
        }
        let product = k * (self.batch_size as u128) * 1000000u128;
        let offset = product / (self.target_rps as u128);
        proof {
            assert(offset <= product);
            assert(product <= (self.duration_micros as u128) * (self.target_rps as u128) + (
            self.target_rps as u128) + (self.batch_size as u128) * 1000000u128);
            vstd::arithmetic::div_mod::lemma_fundamental_div_mod(
                product as int,
                self.target_rps as int,
            );
            vstd::arithmetic::div_mod::lemma_mod_bound(product as int, self.target_rps as int);
            assert((product as int) / (self.target_rps as int) <= product as int)
                by (nonlinear_arith)
                requires
                    product as int >= 0,
                    self.target_rps as int >= 1,
            ;
            assert(offset as int == deadline_offset_micros(
                self.ticks as int,
                self.batch_size as int,
                self.target_rps as int,
            ));
            lemma_offset_bound(
                self.ticks as int,
                self.batch_size as int,
                self.target_rps as int,
                self.duration_micros as int,
            );
        }
        let offset64 = offset as u64;
        let deadline = self.t0_micros + offset64;
        if now_micros >= end || deadline >= end {
            return RunnerAction::Finish;
        }
        let n = self.requests.len();
        let mut template_indices: Vec<usize> = Vec::new();
        let mut j: u32 = 0;
        #[verifier::loop_isolation(false)]
        while j < self.batch_size
            invariant
                j <= self.batch_size,
                n == self.requests@.len(),
                n >= 1,
                template_indices@.len() == j,
                forall|t: int|
                    0 <= t < j ==> (#[trigger] template_indices@[t]) as int == (
                    self.next_template + t) % (n as int),
            decreases self.batch_size - j,
        {
            let slot = ((self.next_template as u128 + j as u128) % (n as u128)) as usize;
            proof {
                assert((self.next_template as u128 + j as u128) as int == self.next_template as int
                    + j as int);
                assert(slot as int == (self.next_template as int + j as int) % (n as int));
            }
            template_indices.push(slot);
            j = j + 1;
        }
        if now_micros > deadline {
            self.report.record_lag();
        }
        proof {
            assert((self.ticks + 1) * self.batch_size * 1000000 <= self.duration_micros
                * self.target_rps + self.target_rps + self.batch_size * 1000000) by {
                lemma_tick_increment(
                    self.ticks as int,
                    self.batch_size as int,
                    self.target_rps as int,
                    self.duration_micros as int,
                    offset as int,
                );
            }
        }
        proof {
            assert(self.ticks < 0xffffffffffffffff) by (nonlinear_arith)
                requires
                    self.ticks as int * (self.batch_size as int) * 1000000 <= 0x8000000000000000
                        + 0xffffffff + 0xffffffff * 1000000,
                    self.batch_size as int >= 1,
                    self.ticks as int >= 0,
            ;
        }
        self.ticks = self.ticks + 1;
        let wrapped = ((self.next_template as u128 + self.batch_size as u128)
            % 0x10000000000000000u128) as u64;
        self.next_template = wrapped;
        RunnerAction::Dispatch { wait_until_micros: deadline, template_indices }
    }

    /// Folds one finished request into the report.
    pub fn record(&mut self, sample: &Sample)
        requires
            old(self).wf(),
        ensures
            final(self).wf(),
            final(self).report.model() == crate::report::record_model(
                old(self).report.model(),
                *sample,
            ),
            *final(self) == (Runner { report: final(self).report, ..*old(self) }),
    {
        self.report.record(sample);
    }
}

/// The deadline offset stays below the duration bound used by `wf`.
proof fn lemma_offset_bound(k: int, batch: int, rps: int, duration: int)
    requires
        rps >= 1,
        batch >= 1,
        k >= 0,
        duration >= 0,
        k * batch * 1000000 <= duration * rps + rps + batch * 1000000,
    ensures
        (k * batch * 1000000) / rps <= duration + 1 + batch * 1000000,
{
    let x = k * batch * 1000000;
    vstd::arithmetic::div_mod::lemma_fundamental_div_mod(x, rps);
    vstd::arithmetic::div_mod::lemma_mod_bound(x, rps);
    assert(x >= 0) by (nonlinear_arith)
        requires
            x == k * batch * 1000000,
            k >= 0,
            batch >= 1,
    ;
    assert(x / rps <= duration + 1 + batch * 1000000) by (nonlinear_arith)
        requires
            x == rps * (x / rps) + x % rps,
            0 <= x % rps < rps,
            x <= duration * rps + rps + batch * 1000000,
            rps >= 1,
            duration >= 0,
            batch >= 1,
    ;
}

/// Dispatching while the deadline lies inside the run keeps the tick
/// bound of `wf`.
proof fn lemma_tick_increment(k: int, batch: int, rps: int, duration: int, offset: int)
    requires
        rps >= 1,
        batch >= 1,
        k >= 0,
        duration >= 0,
        offset == (k * batch * 1000000) / rps,
        offset < duration,
    ensures
        (k + 1) * batch * 1000000 <= duration * rps + rps + batch * 1000000,
{
    let x = k * batch * 1000000;
    vstd::arithmetic::div_mod::lemma_fundamental_div_mod(x, rps);
    vstd::arithmetic::div_mod::lemma_mod_bound(x, rps);
    assert(x >= 0) by (nonlinear_arith)
        requires
            x == k * batch * 1000000,
            k >= 0,
            batch >= 1,
    ;
    assert(x <= rps * offset + rps - 1) by (nonlinear_arith)
        requires
            x == rps * offset + x % rps,
            0 <= x % rps < rps,
    ;
    assert(x <= duration * rps + rps - 1) by (nonlinear_arith)
        requires
            x <= rps * offset + rps - 1,
            offset < duration,
            rps >= 1,
    ;
    assert((k + 1) * batch * 1000000 == x + batch * 1000000) by (nonlinear_arith)
        requires
            x == k * batch * 1000000,
    ;
}

} // verus!
