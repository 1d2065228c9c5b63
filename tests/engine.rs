use website_status_checker::attempt::{
    advance, pause_before_next, AttemptState, TransportEvent, RETRY_DELAY_MS,
};
use website_status_checker::config::{prepare_run, ConfigError, RunConfig};
use website_status_checker::outcome::{CheckOutcome, CheckResult};
use website_status_checker::pool::{CompleteError, Dispatcher, Job};
use website_status_checker::summary::{summarize, SummaryStats};

fn result(url: &str, outcome: CheckOutcome, elapsed_ms: u64) -> CheckResult {
    CheckResult::new(url.to_string(), outcome, elapsed_ms, "2024-01-01T00:00:00+00:00".to_string())
}

/// Runs the retry loop against a scripted transport; returns the outcome, the
/// number of requests made and the total pause.
fn drive(script: &[TransportEvent], max_retries: u32) -> (CheckOutcome, usize, u64) {
    let mut state = AttemptState::start();
    let mut requests = 0;
    let mut paused = 0;
    while !state.is_done() {
        paused += pause_before_next(&state);
        let event = script[requests.min(script.len() - 1)].clone();
        requests += 1;
        state = advance(state, event, max_retries);
    }
    (state.into_outcome().unwrap(), requests, paused)
}

fn failing(n: usize) -> Vec<TransportEvent> {
    (0..n).map(|i| TransportEvent::Error(format!("connection refused #{}", i))).collect()
}

#[test]
fn retries_zero_means_one_attempt() {
    let (outcome, requests, paused) = drive(&failing(5), 0);
    assert_eq!(requests, 1);
    assert_eq!(paused, 0);
    assert_eq!(outcome, CheckOutcome::Failure("connection refused #0".to_string()));
}

#[test]
fn retries_bound_attempts_at_limit_plus_one() {
    for r in 0..6u32 {
        let (outcome, requests, paused) = drive(&failing(20), r);
        assert_eq!(requests, r as usize + 1);
        assert_eq!(paused, r as u64 * RETRY_DELAY_MS);
        assert_eq!(outcome, CheckOutcome::Failure(format!("connection refused #{}", r)));
    }
}

#[test]
fn retry_states_count_failures() {
    let s = AttemptState::start();
    assert_eq!(s, AttemptState::Attempting(0));
    assert_eq!(pause_before_next(&s), 0);
    let s = advance(s, TransportEvent::Error("timeout".to_string()), 2);
    assert_eq!(s, AttemptState::Attempting(1));
    assert_eq!(pause_before_next(&s), 100);
    let s = advance(s, TransportEvent::Error("timeout".to_string()), 2);
    assert_eq!(s, AttemptState::Attempting(2));
    let s = advance(s, TransportEvent::Error("dns".to_string()), 2);
    assert_eq!(s, AttemptState::Done(CheckOutcome::Failure("dns".to_string())));
    assert_eq!(pause_before_next(&s), 0);
}

#[test]
fn error_statuses_are_success() {
    for code in [200u16, 301, 404, 500, 503] {
        let s = advance(AttemptState::start(), TransportEvent::Response(code), 3);
        assert_eq!(s.into_outcome(), Some(CheckOutcome::Success(code)));
    }
}

#[test]
fn response_after_failures_stops_retrying() {
    let script = vec![
        TransportEvent::Error("reset".to_string()),
        TransportEvent::Response(404),
        TransportEvent::Error("never reached".to_string()),
    ];
    let (outcome, requests, paused) = drive(&script, 5);
    assert_eq!(outcome, CheckOutcome::Success(404));
    assert_eq!(requests, 2);
    assert_eq!(paused, 100);
}

#[test]
fn summary_of_three_successes() {
    let rs = vec![
        result("a", CheckOutcome::Success(200), 20),
        result("b", CheckOutcome::Failure("refused".to_string()), 5),
        result("c", CheckOutcome::Success(404), 10),
        result("d", CheckOutcome::Success(500), 30),
    ];
    let s = summarize(&rs).unwrap();
    assert_eq!(s, SummaryStats { count: 3, min_ms: 10, max_ms: 30, total_ms: 60 });
    assert_eq!(s.mean_hundredths(), 2000);
}

#[test]
fn summary_without_successes_is_empty() {
    assert_eq!(summarize(&Vec::new()), None);
    let rs = vec![
        result("a", CheckOutcome::Failure("dns".to_string()), 7),
        result("b", CheckOutcome::Failure("tls".to_string()), 9),
    ];
    assert_eq!(summarize(&rs), None);
}

#[test]
fn summary_ignores_order() {
    let mut rs = vec![
        result("a", CheckOutcome::Success(200), 30),
        result("b", CheckOutcome::Success(200), 10),
        result("c", CheckOutcome::Success(200), 20),
    ];
    let first = summarize(&rs);
    rs.reverse();
    assert_eq!(summarize(&rs), first);
}

#[test]
fn mean_rounds_to_hundredths() {
    let s = SummaryStats { count: 3, min_ms: 1, max_ms: 2, total_ms: 5 };
    assert_eq!(s.mean_hundredths(), 167);
    let s = SummaryStats { count: 8, min_ms: 0, max_ms: 1, total_ms: 1 };
    assert_eq!(s.mean_hundredths(), 13);
    let s = SummaryStats { count: 1, min_ms: u64::MAX, max_ms: u64::MAX, total_ms: u64::MAX as u128 };
    assert_eq!(s.mean_hundredths(), u64::MAX as u128 * 100);
}

/// Deterministic outcome and latency of a mocked URL.
fn mock(url: &str) -> (CheckOutcome, u64) {
    let n: u64 = url.bytes().map(|b| b as u64).sum();
    if n % 7 == 0 {
        (CheckOutcome::Failure(format!("unreachable {}", url)), n % 50)
    } else {
        (CheckOutcome::Success(200 + (n % 5) as u16 * 100), n % 90)
    }
}

/// Runs `workers` simulated workers over `urls`, interleaving their steps in
/// an order drawn from `seed`; returns the results in arrival order.
fn simulate(urls: &[String], workers: usize, seed: u64) -> Vec<CheckResult> {
    let (config, mut d) = prepare_run(urls.to_vec(), workers, 5, 0).unwrap();
    let mut held: Vec<Option<Job>> = (0..config.worker_count).map(|_| None).collect();
    let mut finished = vec![false; config.worker_count];
    let mut rng = seed;
    while finished.iter().any(|f| !f) {
        rng = rng.wrapping_mul(6364136223846793005).wrapping_add(1442695040888963407);
        let w = (rng >> 33) as usize % config.worker_count;
        if finished[w] {
            continue;
        }
        match held[w].take() {
            Some(job) => {
                let (outcome, ms) = mock(&job.url);
                assert_eq!(d.complete(job.index, outcome, ms, "t".to_string()), Ok(()));
            }
            None => match d.claim() {
                Some(job) => held[w] = Some(job),
                None => finished[w] = true,
            },
        }
    }
    assert!(d.is_drained());
    assert_eq!(d.pending(), 0);
    d.into_results()
}

fn sorted_content(rs: &[CheckResult]) -> Vec<(String, CheckOutcome, u64)> {
    let mut v: Vec<_> = rs.iter().map(|r| (r.url.clone(), r.outcome.clone(), r.elapsed_ms)).collect();
    v.sort_by(|a, b| a.0.cmp(&b.0).then(a.2.cmp(&b.2)));
    v
}

fn urls(n: usize) -> Vec<String> {
    (0..n).map(|i| format!("https://host{}.example/{}", i % 37, i)).collect()
}

#[test]
fn eight_workers_hundred_urls_lose_nothing() {
    let input = urls(100);
    let mut expected: Vec<String> = input.clone();
    expected.sort();
    for seed in 0..10 {
        let rs = simulate(&input, 8, seed);
        assert_eq!(rs.len(), 100);
        let mut got: Vec<String> = rs.iter().map(|r| r.url.clone()).collect();
        got.sort();
        assert_eq!(got, expected);
    }
}

#[test]
fn result_count_matches_for_every_worker_count() {
    for m in [1usize, 2, 5, 13] {
        let input = urls(m);
        for w in 1..=m + 10 {
            assert_eq!(simulate(&input, w, w as u64).len(), m);
        }
    }
}

#[test]
fn serial_and_parallel_runs_agree() {
    let input = urls(5);
    let serial = simulate(&input, 1, 3);
    assert_eq!(serial.iter().map(|r| r.url.clone()).collect::<Vec<_>>(), input);
    let wide = simulate(&input, 20, 11);
    assert_eq!(wide.len(), 5);
    assert_eq!(sorted_content(&serial), sorted_content(&wide));
    let eight = simulate(&urls(100), 8, 5);
    assert_eq!(sorted_content(&simulate(&urls(100), 1, 0)), sorted_content(&eight));
}

#[test]
fn duplicate_urls_give_independent_results() {
    let input = vec!["https://a.example".to_string(); 3];
    let rs = simulate(&input, 2, 9);
    assert_eq!(rs.len(), 3);
    assert!(rs.iter().all(|r| r.url == "https://a.example"));
}

#[test]
fn claim_hands_out_in_input_order() {
    let mut d = Dispatcher::new(vec!["x".to_string(), "y".to_string()]);
    let a = d.claim().unwrap();
    let b = d.claim().unwrap();
    assert_eq!((a.index, a.url.as_str()), (0, "x"));
    assert_eq!((b.index, b.url.as_str()), (1, "y"));
    assert!(d.claim().is_none());
    assert!(!d.is_drained());
    assert_eq!(d.complete(1, CheckOutcome::Success(204), 12, "t1".to_string()), Ok(()));
    assert_eq!(d.complete(0, CheckOutcome::Failure("tls".to_string()), 3, "t2".to_string()), Ok(()));
    assert!(d.is_drained());
    let rs = d.into_results();
    assert_eq!(rs[0], result_with("y", CheckOutcome::Success(204), 12, "t1"));
    assert_eq!(rs[1], result_with("x", CheckOutcome::Failure("tls".to_string()), 3, "t2"));
}

fn result_with(url: &str, outcome: CheckOutcome, ms: u64, ts: &str) -> CheckResult {
    CheckResult::new(url.to_string(), outcome, ms, ts.to_string())
}

#[test]
fn completion_errors() {
    let mut d = Dispatcher::new(vec!["x".to_string(), "y".to_string()]);
    assert_eq!(d.complete(0, CheckOutcome::Success(200), 1, "t".to_string()), Err(CompleteError::NotClaimed));
    d.claim();
    assert_eq!(d.complete(1, CheckOutcome::Success(200), 1, "t".to_string()), Err(CompleteError::NotClaimed));
    assert_eq!(d.complete(0, CheckOutcome::Success(200), 1, "t".to_string()), Ok(()));
    assert_eq!(d.complete(0, CheckOutcome::Success(200), 1, "t".to_string()), Err(CompleteError::AlreadyCompleted));
    assert_eq!(d.into_results().len(), 1);
}

#[test]
fn configuration_errors() {
    assert_eq!(prepare_run(Vec::new(), 4, 5, 0).err(), Some(ConfigError::NoUrls));
    assert_eq!(prepare_run(vec!["u".to_string()], 0, 5, 0).err(), Some(ConfigError::NoWorkers));
    assert_eq!(prepare_run(vec!["u".to_string()], 2, 0, 0).err(), Some(ConfigError::ZeroTimeout));
    assert_eq!(RunConfig::new(0, 0, 1), Err(ConfigError::NoWorkers));
    assert_eq!(
        RunConfig::new(3, 10, 0),
        Ok(RunConfig { worker_count: 3, timeout_secs: 10, max_retries: 0 })
    );
    let (_, d) = prepare_run(vec!["u".to_string(), "v".to_string()], 1, 1, 7).unwrap();
    assert_eq!(d.pending(), 2);
}

#[test]
fn summary_of_single_success_and_duplicates() {
    let rs = vec![
        result("a", CheckOutcome::Success(200), 15),
        result("a", CheckOutcome::Success(200), 15),
    ];
    let s = summarize(&rs).unwrap();
    assert_eq!((s.count, s.min_ms, s.max_ms, s.total_ms), (2, 15, 15, 30));
    assert_eq!(s.mean_hundredths(), 1500);
}
