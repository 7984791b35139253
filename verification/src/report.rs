//! Per-worker run reports and their aggregation: outcome and status-class
//! counters and a power-of-two latency histogram whose merge is exactly
//! associative, so workers can be combined in any grouping.
use vstd::prelude::*;

verus! {

/// How one request ended.
#[derive(Debug, PartialEq, Eq, Structural, Copy, Clone)]
pub enum Outcome {
    Success,
    AssertFail,
    Timeout,
    TransportError,
}

/// The broad class of a response, for per-class counters.
#[derive(Debug, PartialEq, Eq, Structural, Copy, Clone)]
pub enum StatusClass {
    Success,
    Redirect,
    ClientError,
    ServerError,
    Transport,
    Timeout,
    Other,
}

/// The class a numeric status code falls in.
pub open spec fn status_class_model(status: int) -> StatusClass {
    if 200 <= status <= 299 {
        StatusClass::Success
    } else if 300 <= status <= 399 {
        StatusClass::Redirect
    } else if 400 <= status <= 499 {
        StatusClass::ClientError
    } else if 500 <= status <= 599 {
        StatusClass::ServerError
    } else {
        StatusClass::Other
    }
}

/// Classifies a status code.
pub fn status_class_of(status: u16) -> (r: StatusClass)
    ensures
        r == status_class_model(status as int),
{
    if 200 <= status && status <= 299 {
        StatusClass::Success
    } else if 300 <= status && status <= 399 {
        StatusClass::Redirect
    } else if 400 <= status && status <= 499 {
        StatusClass::ClientError
    } else if 500 <= status && status <= 599 {
        StatusClass::ServerError
    } else {
        StatusClass::Other
    }
}

/// One row per executed request.
#[derive(Debug)]
pub struct Sample {
    pub request_name: String,
    pub status_class: StatusClass,
    pub latency_micros: u64,
    pub retries: u32,
    pub outcome: Outcome,
    pub script_error: bool,
}

/// The histogram bucket a latency falls in: the position of its highest
/// set bit, so bucket `i` spans `[2^i, 2^(i+1))` microseconds.
pub open spec fn bucket_index_model(lat: int) -> int
    decreases lat,
{
    if lat < 2 {
        0
    } else {
        1 + bucket_index_model(lat / 2)
    }
}

/// Computes the histogram bucket of a latency.
pub fn bucket_index(latency_micros: u64) -> (r: usize)
    ensures
        r as int == bucket_index_model(latency_micros as int),
        r < 64,
{
    proof {
        vstd::arithmetic::power2::lemma2_to64();
        vstd::arithmetic::power2::lemma2_to64_rest();
        lemma_bucket_index_bound(latency_micros as int, 64);
        lemma_bucket_index_nonneg(latency_micros as int);
    }
    let mut v = latency_micros;
    let mut i: usize = 0;
    #[verifier::loop_isolation(false)]
    while v >= 2
        invariant
            bucket_index_model(latency_micros as int) == i + bucket_index_model(v as int),
            i + bucket_index_model(v as int) <= 63,
            i <= 63,
            v <= latency_micros,
        decreases v,
    {
        proof {
            lemma_bucket_index_nonneg(v as int / 2);
        }
        v = v / 2;
        i = i + 1;
    }
    i
}

proof fn lemma_bucket_index_nonneg(v: int)
    ensures
        bucket_index_model(v) >= 0,
    decreases v,
{
    if v >= 2 {
        lemma_bucket_index_nonneg(v / 2);
    }
}

/// The bucket of a value below `2^b` is below `b`.
proof fn lemma_bucket_index_bound(v: int, b: int)
    requires
        0 <= v,
        1 <= b,
        v < vstd::arithmetic::power2::pow2(b as nat),
    ensures
        bucket_index_model(v) <= b - 1,
    decreases b,
{
    if v >= 2 {
        if b == 1 {
            vstd::arithmetic::power2::lemma2_to64();
            assert(false);
        } else {
            assert(vstd::arithmetic::power2::pow2(b as nat) == 2 * vstd::arithmetic::power2::pow2(
                (b - 1) as nat,
            )) by {
                vstd::arithmetic::power2::lemma_pow2_unfold(b as nat);
            }
            lemma_bucket_index_bound(v / 2, b - 1);
        }
    }
}

/// Saturating addition at the `u64` ceiling: what every counter uses, so
/// that merging can never overflow and stays exactly associative.
pub open spec fn sat_add(a: int, b: int) -> int {
    if a + b > 0xffff_ffff_ffff_ffff {
        0xffff_ffff_ffff_ffff
    } else {
        a + b
    }
}

/// Saturating `u64` addition.
pub fn sat_add_u64(a: u64, b: u64) -> (r: u64)
    ensures
        r as int == sat_add(a as int, b as int),
{
    if a > 0xffff_ffff_ffff_ffffu64 - b {
        0xffff_ffff_ffff_ffffu64
    } else {
        a + b
    }
}

/// The counters and histogram of one run, or of several runs merged.
#[derive(Debug)]
pub struct Report {
    pub ok_count: u64,
    pub assert_fail_count: u64,
    pub script_error_count: u64,
    pub timeout_count: u64,
    pub transport_error_count: u64,
    pub c2xx: u64,
    pub c3xx: u64,
    pub c4xx: u64,
    pub c5xx: u64,
    pub lag_count: u64,
    pub buckets: Vec<u64>,
}

/// The mathematical mirror of a report.
pub struct ReportModel {
    pub ok_count: int,
    pub assert_fail_count: int,
    pub script_error_count: int,
    pub timeout_count: int,
    pub transport_error_count: int,
    pub c2xx: int,
    pub c3xx: int,
    pub c4xx: int,
    pub c5xx: int,
    pub lag_count: int,
    pub buckets: Seq<int>,
}

impl Report {
    pub open spec fn model(self) -> ReportModel {
        ReportModel {
            ok_count: self.ok_count as int,
            assert_fail_count: self.assert_fail_count as int,
            script_error_count: self.script_error_count as int,
            timeout_count: self.timeout_count as int,
            transport_error_count: self.transport_error_count as int,
            c2xx: self.c2xx as int,
            c3xx: self.c3xx as int,
            c4xx: self.c4xx as int,
            c5xx: self.c5xx as int,
            lag_count: self.lag_count as int,
            buckets: self.buckets@.map_values(|c: u64| c as int),
        }
    }

    /// A report holds one counter per histogram bucket.
    pub open spec fn wf(self) -> bool {
        self.buckets@.len() == 64
    }

    /// An empty report.
    pub fn new() -> (r: Report)
        ensures
            r.wf(),
            r.model() == empty_report_model(),
    {
        let mut buckets: Vec<u64> = Vec::new();
        let mut i: usize = 0;
        while i < 64
            invariant
                i <= 64,
                buckets@.len() == i,
                forall|j: int| 0 <= j < i ==> buckets@[j] == 0u64,
            decreases 64 - i,
        {
            buckets.push(0);
            i = i + 1;
        }
        let r = Report {
            ok_count: 0,
            assert_fail_count: 0,
            script_error_count: 0,
            timeout_count: 0,
            transport_error_count: 0,
            c2xx: 0,
            c3xx: 0,
            c4xx: 0,
            c5xx: 0,
            lag_count: 0,
            buckets,
        };
        proof {
            assert(r.model().buckets =~= Seq::new(64, |i: int| 0int));
        }
        r
    }

    /// Folds one sample into the report: its outcome counter, its status
    /// class counter, and its latency bucket each go up by one.
    pub fn record(&mut self, sample: &Sample)
        requires
            old(self).wf(),
        ensures
            final(self).wf(),
            final(self).model() == record_model(old(self).model(), *sample),
    {
        match sample.outcome {
            Outcome::Success => {
                self.ok_count = sat_add_u64(self.ok_count, 1);
            },
            Outcome::AssertFail => {
                self.assert_fail_count = sat_add_u64(self.assert_fail_count, 1);
            },
            Outcome::Timeout => {
                self.timeout_count = sat_add_u64(self.timeout_count, 1);
            },
            Outcome::TransportError => {
                self.transport_error_count = sat_add_u64(self.transport_error_count, 1);
            },
        }
        if sample.script_error {
            self.script_error_count = sat_add_u64(self.script_error_count, 1);
        }
        match sample.status_class {
            StatusClass::Success => {
                self.c2xx = sat_add_u64(self.c2xx, 1);
            },
            StatusClass::Redirect => {
                self.c3xx = sat_add_u64(self.c3xx, 1);
            },
            StatusClass::ClientError => {
                self.c4xx = sat_add_u64(self.c4xx, 1);
            },
            StatusClass::ServerError => {
                self.c5xx = sat_add_u64(self.c5xx, 1);
            },
            _ => {
            },
        }
        let b = bucket_index(sample.latency_micros);
        let bumped = sat_add_u64(self.buckets[b], 1);
        self.buckets[b] = bumped;
        proof {
            broadcast use Seq::lemma_push_map_commute;

            assert(final(self).model().buckets =~= record_model(
                old(self).model(),
                *sample,
            ).buckets);
        }
    }

    /// Notes one missed tick.
    pub fn record_lag(&mut self)
        requires
            old(self).wf(),
        ensures
            final(self).wf(),
            final(self).model() == (ReportModel {
                lag_count: sat_add(old(self).model().lag_count, 1),
                ..old(self).model()
            }),
    {
        self.lag_count = sat_add_u64(self.lag_count, 1);
        proof {
            assert(final(self).model().buckets =~= old(self).model().buckets);
        }
    }

    /// Merges another report in: every counter and every bucket is the
    /// saturating sum.
    pub fn add(&mut self, other: &Report)
        requires
            old(self).wf(),
            other.wf(),
        ensures
            final(self).wf(),
            final(self).model() == merge_model(old(self).model(), other.model()),
    {
        self.ok_count = sat_add_u64(self.ok_count, other.ok_count);
        self.assert_fail_count = sat_add_u64(self.assert_fail_count, other.assert_fail_count);
        self.script_error_count = sat_add_u64(self.script_error_count, other.script_error_count);
        self.timeout_count = sat_add_u64(self.timeout_count, other.timeout_count);
        self.transport_error_count = sat_add_u64(
            self.transport_error_count,
            other.transport_error_count,
        );
        self.c2xx = sat_add_u64(self.c2xx, other.c2xx);
        self.c3xx = sat_add_u64(self.c3xx, other.c3xx);
        self.c4xx = sat_add_u64(self.c4xx, other.c4xx);
        self.c5xx = sat_add_u64(self.c5xx, other.c5xx);
        self.lag_count = sat_add_u64(self.lag_count, other.lag_count);
        let ghost mid = *self;
        let mut i: usize = 0;
        #[verifier::loop_isolation(false)]
        while i < 64
            invariant
                i <= 64,
                self.buckets@.len() == 64,
                self.ok_count == mid.ok_count,
                self.assert_fail_count == mid.assert_fail_count,
                self.script_error_count == mid.script_error_count,
                self.timeout_count == mid.timeout_count,
                self.transport_error_count == mid.transport_error_count,
                self.c2xx == mid.c2xx,
                self.c3xx == mid.c3xx,
                self.c4xx == mid.c4xx,
                self.c5xx == mid.c5xx,
                self.lag_count == mid.lag_count,
                forall|j: int| i <= j < 64 ==> self.buckets@[j] == old(self).buckets@[j],
                forall|j: int|
                    0 <= j < i ==> (#[trigger] self.buckets@[j]) as int == sat_add(
                        old(self).buckets@[j] as int,
                        other.buckets@[j] as int,
                    ),
            decreases 64 - i,
        {
            let merged = sat_add_u64(self.buckets[i], other.buckets[i]);
            self.buckets[i] = merged;
            i = i + 1;
        }
        proof {
            assert(final(self).model().buckets =~= merge_model(
                old(self).model(),
                other.model(),
            ).buckets);
        }
    }
}

/// The empty report.
pub open spec fn empty_report_model() -> ReportModel {
    ReportModel {
        ok_count: 0,
        assert_fail_count: 0,
        script_error_count: 0,
        timeout_count: 0,
        transport_error_count: 0,
        c2xx: 0,
        c3xx: 0,
        c4xx: 0,
        c5xx: 0,
        lag_count: 0,
        buckets: Seq::new(64, |i: int| 0int),
    }
}

/// One sample folded into a report model.
pub open spec fn record_model(r: ReportModel, s: Sample) -> ReportModel {
    let with_outcome = match s.outcome {
        Outcome::Success => ReportModel { ok_count: sat_add(r.ok_count, 1), ..r },
        Outcome::AssertFail => ReportModel {
            assert_fail_count: sat_add(r.assert_fail_count, 1),
            ..r
        },
        Outcome::Timeout => ReportModel { timeout_count: sat_add(r.timeout_count, 1), ..r },
        Outcome::TransportError => ReportModel {
            transport_error_count: sat_add(r.transport_error_count, 1),
            ..r
        },
    };
    let with_script = if s.script_error {
        ReportModel {
            script_error_count: sat_add(with_outcome.script_error_count, 1),
            ..with_outcome
        }
    } else {
        with_outcome
    };
    let with_class = match s.status_class {
        StatusClass::Success => ReportModel { c2xx: sat_add(with_script.c2xx, 1), ..with_script },
        StatusClass::Redirect => ReportModel { c3xx: sat_add(with_script.c3xx, 1), ..with_script },
        StatusClass::ClientError => ReportModel {
            c4xx: sat_add(with_script.c4xx, 1),
            ..with_script
        },
        StatusClass::ServerError => ReportModel {
            c5xx: sat_add(with_script.c5xx, 1),
            ..with_script
        },
        _ => with_script,
    };
    let b = bucket_index_model(s.latency_micros as int);
    ReportModel {
        buckets: with_class.buckets.update(b, sat_add(with_class.buckets[b], 1)),
        ..with_class
    }
}

/// Two report models merged: counters and buckets add, saturating.
pub open spec fn merge_model(a: ReportModel, b: ReportModel) -> ReportModel {
    ReportModel {
        ok_count: sat_add(a.ok_count, b.ok_count),
        assert_fail_count: sat_add(a.assert_fail_count, b.assert_fail_count),
        script_error_count: sat_add(a.script_error_count, b.script_error_count),
        timeout_count: sat_add(a.timeout_count, b.timeout_count),
        transport_error_count: sat_add(a.transport_error_count, b.transport_error_count),
        c2xx: sat_add(a.c2xx, b.c2xx),
        c3xx: sat_add(a.c3xx, b.c3xx),
        c4xx: sat_add(a.c4xx, b.c4xx),
        c5xx: sat_add(a.c5xx, b.c5xx),
        lag_count: sat_add(a.lag_count, b.lag_count),
        buckets: Seq::new(a.buckets.len(), |i: int| sat_add(a.buckets[i], b.buckets[i])),
    }
}

/// A model with in-range counters and a full bucket row.
pub open spec fn report_model_wf(r: ReportModel) -> bool {
    &&& 0 <= r.ok_count <= 0xffff_ffff_ffff_ffff
    &&& 0 <= r.assert_fail_count <= 0xffff_ffff_ffff_ffff
    &&& 0 <= r.script_error_count <= 0xffff_ffff_ffff_ffff
    &&& 0 <= r.timeout_count <= 0xffff_ffff_ffff_ffff
    &&& 0 <= r.transport_error_count <= 0xffff_ffff_ffff_ffff
    &&& 0 <= r.c2xx <= 0xffff_ffff_ffff_ffff
    &&& 0 <= r.c3xx <= 0xffff_ffff_ffff_ffff
    &&& 0 <= r.c4xx <= 0xffff_ffff_ffff_ffff
    &&& 0 <= r.c5xx <= 0xffff_ffff_ffff_ffff
    &&& 0 <= r.lag_count <= 0xffff_ffff_ffff_ffff
    &&& r.buckets.len() == 64
    &&& forall|i: int| 0 <= i < 64 ==> 0 <= #[trigger] r.buckets[i] <= 0xffff_ffff_ffff_ffff
}

/// Report merging is associative: aggregating `[r1, r2, r3]` equals
/// aggregating `[aggregate([r1, r2]), r3]`, counter for counter and
/// bucket for bucket.
pub proof fn lemma_merge_assoc(a: ReportModel, b: ReportModel, c: ReportModel)
    requires
        report_model_wf(a),
        report_model_wf(b),
        report_model_wf(c),
    ensures
        merge_model(merge_model(a, b), c) == merge_model(a, merge_model(b, c)),
{
    assert(merge_model(merge_model(a, b), c).buckets =~= merge_model(
        a,
        merge_model(b, c),
    ).buckets);
}

/// Report merging is commutative: worker reports may arrive in any order.
pub proof fn lemma_merge_commutes(a: ReportModel, b: ReportModel)
    requires
        report_model_wf(a),
        report_model_wf(b),
        a.buckets.len() == b.buckets.len(),
    ensures
        merge_model(a, b) == merge_model(b, a),
{
    assert(merge_model(a, b).buckets =~= merge_model(b, a).buckets);
}

/// The process-wide aggregate over worker reports.
#[derive(Debug)]
pub struct AggregatedReport {
    pub report: Report,
    pub workers: u64,
}

impl AggregatedReport {
    /// An empty aggregate.
    pub fn new() -> (r: AggregatedReport)
        ensures
            r.report.wf(),
            r.report.model() == empty_report_model(),
            r.workers == 0,
    {
        AggregatedReport { report: Report::new(), workers: 0 }
    }

    /// Folds one worker's report in.
    pub fn add(&mut self, report: Report)
        requires
            old(self).report.wf(),
            report.wf(),
        ensures
            final(self).report.wf(),
            final(self).report.model() == merge_model(old(self).report.model(), report.model()),
            final(self).workers as int == sat_add(old(self).workers as int, 1),
    {
        self.report.add(&report);
        self.workers = sat_add_u64(self.workers, 1);
    }
}

} // verus!
