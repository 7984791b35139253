use loadgen::config;
use loadgen::config::classify_override_value;
use loadgen::config::parse_override;
use loadgen::config::BatchSize;
use loadgen::config::OverrideValue;
use loadgen::config::RunnerConfig;
use loadgen::report::bucket_index;
use loadgen::report::AggregatedReport;
use loadgen::report::Outcome;
use loadgen::report::Report;
use loadgen::report::Sample;
use loadgen::report::StatusClass;
use loadgen::context::Global;
use loadgen::context::ScriptContext;
use loadgen::parser::Scripts;
use loadgen::runner::effective_batch_size;
use loadgen::runner::Runner;
use loadgen::runner::RunnerAction;

fn sample(outcome: Outcome, class: StatusClass, latency_micros: u64) -> Sample {
    Sample {
        request_name: "r".to_string(),
        status_class: class,
        latency_micros,
        retries: 0,
        outcome,
        script_error: false,
    }
}

fn runner_config(target_rps: u32, duration_millis: u64, batch_size: BatchSize) -> RunnerConfig {
    RunnerConfig {
        target_rps,
        duration_millis,
        batch_size,
        base_url: "http://localhost:8080".to_string(),
        global: config::Global {
            scripts: "def COUNTER = 0\n".to_string(),
        },
        requests: vec![config::Request {
            name: "one".to_string(),
            method: "GET".to_string(),
            path: "/x".to_string(),
            headers: None,
            body: None,
            timeout_millis: 1000,
            before: None,
            after: None,
        }],
    }
}

// batch_size: auto with target_rps = 100 gives batch 10 and a 100 ms tick.
#[test]
fn auto_batch_size_scenario() {
    let batch = effective_batch_size(&BatchSize::Auto("auto".to_string()), 100);
    assert_eq!(batch, 10);

    let mut runner = Runner::new(&runner_config(100, 10_000, BatchSize::Auto("auto".to_string())))
        .unwrap();
    assert_eq!(runner.batch_size, 10);
    runner.start(0);
    match runner.next_action(0) {
        RunnerAction::Dispatch {
            wait_until_micros,
            template_indices,
        } => {
            assert_eq!(wait_until_micros, 0);
            assert_eq!(template_indices.len(), 10);
        }
        RunnerAction::Finish => panic!("expected a dispatch"),
    }
    match runner.next_action(1) {
        RunnerAction::Dispatch {
            wait_until_micros, ..
        } => {
            assert_eq!(wait_until_micros, 100_000);
        }
        RunnerAction::Finish => panic!("expected a dispatch"),
    }
}

#[test]
fn fixed_batch_round_robin() {
    let mut cfg = runner_config(10, 1000, BatchSize::Fixed(3));
    cfg.requests.push(config::Request {
        name: "two".to_string(),
        method: "POST".to_string(),
        path: "/y".to_string(),
        headers: None,
        body: None,
        timeout_millis: 1000,
        before: None,
        after: None,
    });
    let mut runner = Runner::new(&cfg).unwrap();
    runner.start(1_000);
    match runner.next_action(1_000) {
        RunnerAction::Dispatch {
            template_indices, ..
        } => {
            assert_eq!(template_indices, vec![0, 1, 0]);
        }
        RunnerAction::Finish => panic!("expected a dispatch"),
    }
    match runner.next_action(1_000) {
        RunnerAction::Dispatch {
            template_indices, ..
        } => {
            assert_eq!(template_indices, vec![1, 0, 1]);
        }
        RunnerAction::Finish => panic!("expected a dispatch"),
    }
}

// Rate accuracy over a simulated run: 1 second at 10 rps in batches of 3
// dispatches ceil(10/3) = 4 batches, 12 requests, within one batch of 10.
#[test]
fn rate_accuracy_scenario() {
    let mut runner = Runner::new(&runner_config(10, 1000, BatchSize::Fixed(3))).unwrap();
    runner.start(0);
    let mut now: u64 = 0;
    let mut dispatched: u64 = 0;
    loop {
        match runner.next_action(now) {
            RunnerAction::Dispatch {
                wait_until_micros,
                template_indices,
            } => {
                dispatched += template_indices.len() as u64;
                now = wait_until_micros.max(now);
            }
            RunnerAction::Finish => break,
        }
        // the batch completes instantly in this simulation
        now += 1;
    }
    assert_eq!(dispatched, 12);
    assert!(dispatched >= 10 && dispatched <= 10 + 3);
}

#[test]
fn runner_finishes_at_duration() {
    let mut runner = Runner::new(&runner_config(10, 1000, BatchSize::Fixed(1))).unwrap();
    runner.start(5_000);
    match runner.next_action(5_000 + 1_000_000) {
        RunnerAction::Finish => {}
        RunnerAction::Dispatch { .. } => panic!("run should be over"),
    }
}

#[test]
fn runner_rejects_bad_config() {
    let err = Runner::new(&runner_config(0, 1000, BatchSize::Fixed(1))).unwrap_err();
    assert_eq!(err.to_string(), "Config error: target_rps must be at least 1");

    let err = Runner::new(&runner_config(10, 1000, BatchSize::Fixed(0))).unwrap_err();
    assert_eq!(err.to_string(), "Config error: batch_size must be at least 1");

    let mut cfg = runner_config(10, 1000, BatchSize::Fixed(1));
    cfg.requests.clear();
    let err = Runner::new(&cfg).unwrap_err();
    assert_eq!(err.to_string(), "Config error: no requests configured");

    let mut cfg = runner_config(10, 1000, BatchSize::Fixed(1));
    cfg.requests[0].method = "FETCH".to_string();
    let err = Runner::new(&cfg).unwrap_err();
    assert_eq!(err.to_string(), "Config error: invalid method 'FETCH'");
}

#[test]
fn report_counters_track_outcomes() {
    let mut report = Report::new();
    report.record(&sample(Outcome::Success, StatusClass::Success, 1_500));
    report.record(&sample(Outcome::Success, StatusClass::Success, 1_700));
    report.record(&sample(Outcome::AssertFail, StatusClass::ServerError, 900));
    report.record(&sample(Outcome::Timeout, StatusClass::Timeout, 100_000));
    report.record(&sample(
        Outcome::TransportError,
        StatusClass::Transport,
        10,
    ));
    assert_eq!(report.ok_count, 2);
    assert_eq!(report.assert_fail_count, 1);
    assert_eq!(report.timeout_count, 1);
    assert_eq!(report.transport_error_count, 1);
    assert_eq!(report.c2xx, 2);
    assert_eq!(report.c5xx, 1);
}

#[test]
fn bucket_index_is_floor_log2() {
    assert_eq!(bucket_index(0), 0);
    assert_eq!(bucket_index(1), 0);
    assert_eq!(bucket_index(2), 1);
    assert_eq!(bucket_index(3), 1);
    assert_eq!(bucket_index(4), 2);
    assert_eq!(bucket_index(1023), 9);
    assert_eq!(bucket_index(1024), 10);
    assert_eq!(bucket_index(u64::MAX), 63);
}

// Merge associativity on concrete reports: aggregating three reports in
// either grouping yields identical counters and buckets.
#[test]
fn report_merge_is_associative() {
    let mut r1 = Report::new();
    r1.record(&sample(Outcome::Success, StatusClass::Success, 100));
    r1.record(&sample(Outcome::Timeout, StatusClass::Timeout, 900_000));
    let mut r2 = Report::new();
    r2.record(&sample(Outcome::AssertFail, StatusClass::ClientError, 2_000));
    let mut r3 = Report::new();
    r3.record(&sample(Outcome::Success, StatusClass::Success, 140));

    // ((r1 + r2) + r3)
    let mut left = Report::new();
    left.add(&r1);
    left.add(&r2);
    let mut left_total = Report::new();
    left_total.add(&left);
    left_total.add(&r3);

    // (r1 + (r2 + r3))
    let mut right_inner = Report::new();
    right_inner.add(&r2);
    right_inner.add(&r3);
    let mut right_total = Report::new();
    right_total.add(&r1);
    right_total.add(&right_inner);

    assert_eq!(left_total.ok_count, right_total.ok_count);
    assert_eq!(left_total.assert_fail_count, right_total.assert_fail_count);
    assert_eq!(left_total.timeout_count, right_total.timeout_count);
    assert_eq!(left_total.c2xx, right_total.c2xx);
    assert_eq!(left_total.c4xx, right_total.c4xx);
    assert_eq!(left_total.buckets, right_total.buckets);
}

#[test]
fn aggregated_report_counts_workers() {
    let mut agg = AggregatedReport::new();
    let mut r1 = Report::new();
    r1.record(&sample(Outcome::Success, StatusClass::Success, 50));
    let mut r2 = Report::new();
    r2.record(&sample(Outcome::Success, StatusClass::Success, 60));
    agg.add(r1);
    agg.add(r2);
    assert_eq!(agg.workers, 2);
    assert_eq!(agg.report.ok_count, 2);
}

// Override handling: the dotted key splits at the single '=', and values
// that parse as integers coerce to numbers.
#[test]
fn override_scenario() {
    let (key, value) = parse_override("runner.target_rps=50").unwrap();
    assert_eq!(key, "runner.target_rps");
    assert_eq!(value, "50");
    match classify_override_value(&value) {
        OverrideValue::Number(n) => assert_eq!(n, 50),
        OverrideValue::Text(_) => panic!("expected a number"),
    }
    match classify_override_value("fast") {
        OverrideValue::Number(_) => panic!("expected text"),
        OverrideValue::Text(t) => assert_eq!(t, "fast"),
    }
    let err = parse_override("no_equals_here").unwrap_err();
    assert_eq!(err.to_string(), "Config error: Invalid override");
    assert!(parse_override("a=b=c").is_err());
}

// Plus propagation: a worker-style loop carrying COUNTER through the
// global store increments once per executed after-script.
#[test]
fn counter_propagation_scenario() {
    let mut global = Global::empty();
    {
        let init = Scripts::parse("def COUNTER = 0\n").unwrap();
        let mut ctx = ScriptContext::new(global);
        init.execute(&mut ctx).unwrap();
        ctx.save_variables_as_global();
        global = ctx.global;
    }

    let after = Scripts::parse("def COUNTER = COUNTER + 1\n").unwrap();
    for _ in 0..10 {
        let mut ctx = ScriptContext::new(global);
        after.execute(&mut ctx).unwrap();
        global = ctx.global;
    }
    assert_eq!(
        global
            .get_variable_value("COUNTER")
            .unwrap()
            .as_int()
            .unwrap(),
        10
    );
}
