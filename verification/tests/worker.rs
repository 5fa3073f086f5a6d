use std::cell::{Cell, RefCell};

use bombardier::cmd::{ExecConfig, InfluxDB};
use bombardier::errors::{ClientError, FatalError};
use bombardier::executor::{
    collect_results, is_execution_time_over, outcome_stat, run_worker, spawn_schedule,
    stagger_millis, update_env_map, Clock, ExtractRule, HttpClient, HttpResponse, ReportSink,
    Request,
};
use bombardier::stats::Stat;
use bombardier::varmap::VarMap;
use bombardier::FAILURE_STATUS;

fn config(thread_count: u64, iterations: u64, execution_time: u64, continue_on_error: bool) -> ExecConfig {
    ExecConfig {
        command: "bombard".to_string(),
        environment_file: String::new(),
        collection_file: "collection.json".to_string(),
        report_file: "report.csv".to_string(),
        data_file: String::new(),
        thread_count,
        iterations,
        execution_time,
        thread_delay: 0,
        rampup_time: 1,
        handle_cookies: false,
        continue_on_error,
        log_to_file: false,
        influxdb: InfluxDB::default(),
    }
}

fn request(name: &str, url: &str) -> Request {
    Request {
        name: name.to_string(),
        method: "GET".to_string(),
        url: url.to_string(),
        headers: Vec::new(),
        body: String::new(),
        extractions: Vec::new(),
    }
}

/// Succeeds on every request with a fixed body, recording each rendered URL.
struct OkClient {
    body: String,
    sent_urls: RefCell<Vec<String>>,
}

impl OkClient {
    fn new(body: &str) -> OkClient {
        OkClient { body: body.to_string(), sent_urls: RefCell::new(Vec::new()) }
    }
}

impl HttpClient for OkClient {
    fn execute(&self, request: &Request) -> Result<HttpResponse, ClientError> {
        self.sent_urls.borrow_mut().push(request.url.clone());
        Ok(HttpResponse { status: 200, latency: 7, body: self.body.clone() })
    }
}

/// Fails on every request.
struct FailClient;

impl HttpClient for FailClient {
    fn execute(&self, _request: &Request) -> Result<HttpResponse, ClientError> {
        Err(ClientError { message: "connection refused".to_string() })
    }
}

/// Records every appended record.
struct VecSink {
    lines: Vec<(String, u16, u64)>,
}

impl ReportSink for VecSink {
    fn append(&mut self, stat: &Stat) {
        self.lines.push((stat.name.clone(), stat.status, stat.latency));
    }
}

/// A clock whose reading advances by a fixed step on every look.
struct SteppingClock {
    now: Cell<u64>,
    step: u64,
}

impl Clock for SteppingClock {
    fn elapsed_secs(&self) -> u64 {
        let t = self.now.get();
        self.now.set(t + self.step);
        t
    }

    fn sleep_ms(&self, _ms: u64) {}
}

fn frozen_clock() -> SteppingClock {
    SteppingClock { now: Cell::new(0), step: 0 }
}

#[test]
fn scenario_single_worker_two_iterations_two_requests() {
    let cfg = config(1, 2, 0, false);
    let requests = vec![request("A", "http://a"), request("B", "http://b")];
    let mut env = VarMap::new();
    let client = OkClient::new("{}");
    let mut sink = VecSink { lines: Vec::new() };
    let clock = frozen_clock();
    let stats = run_worker(&cfg, &requests, &mut env, &client, &mut sink, &clock).unwrap();
    let names: Vec<&str> = stats.iter().map(|s| s.name.as_str()).collect();
    assert_eq!(names, ["A", "B", "A", "B"]);
    let sink_names: Vec<&str> = sink.lines.iter().map(|l| l.0.as_str()).collect();
    assert_eq!(sink_names, ["A", "B", "A", "B"]);
}

#[test]
fn iteration_bound_runs_exactly_that_many_passes() {
    let cfg = config(1, 5, 0, false);
    let requests = vec![request("only", "http://x")];
    let mut env = VarMap::new();
    let client = OkClient::new("{}");
    let mut sink = VecSink { lines: Vec::new() };
    let clock = frozen_clock();
    let stats = run_worker(&cfg, &requests, &mut env, &client, &mut sink, &clock).unwrap();
    assert_eq!(stats.len(), 5);
    assert!(stats.iter().all(|s| s.name == "only" && s.status == 200 && s.latency == 7));
}

#[test]
fn time_bound_stops_only_between_passes() {
    // deadline 2 s; the clock reads 0 at the first pass boundary and 3 at
    // the second, so exactly one full pass over both requests runs
    let cfg = config(1, 0, 2, false);
    let requests = vec![request("A", "http://a"), request("B", "http://b")];
    let mut env = VarMap::new();
    let client = OkClient::new("{}");
    let mut sink = VecSink { lines: Vec::new() };
    let clock = SteppingClock { now: Cell::new(0), step: 3 };
    let stats = run_worker(&cfg, &requests, &mut env, &client, &mut sink, &clock).unwrap();
    assert_eq!(stats.len() % requests.len(), 0);
    assert_eq!(stats.len(), 2);
}

#[test]
fn failure_aborts_run_when_continue_on_error_is_off() {
    let cfg = config(1, 3, 0, false);
    let requests = vec![request("fragile", "http://x")];
    let mut env = VarMap::new();
    let mut sink = VecSink { lines: Vec::new() };
    let clock = frozen_clock();
    let r = run_worker(&cfg, &requests, &mut env, &FailClient, &mut sink, &clock);
    match r {
        Err(FatalError::RequestFailed(name)) => assert_eq!(name, "fragile"),
        _ => panic!("expected a fatal request failure"),
    }
    assert!(sink.lines.is_empty());
}

#[test]
fn failure_recorded_and_run_continues_when_continue_on_error_is_on() {
    let cfg = config(1, 2, 0, true);
    let requests = vec![request("fragile", "http://x")];
    let mut env = VarMap::new();
    let mut sink = VecSink { lines: Vec::new() };
    let clock = frozen_clock();
    let stats = run_worker(&cfg, &requests, &mut env, &FailClient, &mut sink, &clock).unwrap();
    assert_eq!(stats.len(), 2);
    assert!(stats.iter().all(|s| s.status == FAILURE_STATUS && s.latency == 0));
    assert_eq!(sink.lines.len(), 2);
}

#[test]
fn unknown_placeholder_sent_verbatim() {
    let cfg = config(1, 1, 0, false);
    let requests = vec![request("probe", "http://host/{{missing}}")];
    let mut env = VarMap::new();
    let client = OkClient::new("{}");
    let mut sink = VecSink { lines: Vec::new() };
    let clock = frozen_clock();
    let stats = run_worker(&cfg, &requests, &mut env, &client, &mut sink, &clock).unwrap();
    assert_eq!(stats.len(), 1);
    assert_eq!(client.sent_urls.borrow().as_slice(), ["http://host/{{missing}}"]);
}

#[test]
fn extracted_variable_feeds_the_next_request() {
    let cfg = config(1, 1, 0, false);
    let mut login = request("login", "http://host/login");
    login.extractions.push(ExtractRule {
        var_name: "token".to_string(),
        json_path: "/auth/token".to_string(),
    });
    let fetch = request("fetch", "http://host/data?t={{token}}");
    let requests = vec![login, fetch];
    let mut env = VarMap::new();
    let client = OkClient::new("{\"auth\": {\"token\": \"abc123\"}}");
    let mut sink = VecSink { lines: Vec::new() };
    let clock = frozen_clock();
    run_worker(&cfg, &requests, &mut env, &client, &mut sink, &clock).unwrap();
    let urls = client.sent_urls.borrow();
    assert_eq!(urls[0], "http://host/login");
    assert_eq!(urls[1], "http://host/data?t=abc123");
    assert_eq!(env.get(&"token".to_string()).unwrap(), "abc123");
}

#[test]
fn extraction_skips_unparseable_and_unresolved() {
    let mut env = VarMap::new();
    env.insert("keep".to_string(), "kept".to_string());
    let rules = vec![
        ExtractRule { var_name: "a".to_string(), json_path: "/present".to_string() },
        ExtractRule { var_name: "b".to_string(), json_path: "/absent".to_string() },
        ExtractRule { var_name: "c".to_string(), json_path: "/number".to_string() },
    ];
    update_env_map("{\"present\": \"yes\", \"number\": 4}", &rules, &mut env);
    assert_eq!(env.get(&"a".to_string()).unwrap(), "yes");
    assert!(env.get(&"b".to_string()).is_none());
    assert!(env.get(&"c".to_string()).is_none());
    assert_eq!(env.get(&"keep".to_string()).unwrap(), "kept");

    update_env_map("not json at all", &rules, &mut env);
    assert_eq!(env.get(&"a".to_string()).unwrap(), "yes");
    assert_eq!(env.get(&"keep".to_string()).unwrap(), "kept");
}

#[test]
fn later_extraction_overwrites_earlier() {
    let mut env = VarMap::new();
    let rules = vec![
        ExtractRule { var_name: "d".to_string(), json_path: "/first".to_string() },
        ExtractRule { var_name: "d".to_string(), json_path: "/second".to_string() },
        ExtractRule { var_name: "d".to_string(), json_path: "/absent".to_string() },
    ];
    update_env_map("{\"first\": \"1\", \"second\": \"2\"}", &rules, &mut env);
    assert_eq!(env.get(&"d".to_string()).unwrap(), "2");
}

#[test]
fn collected_total_in_iteration_bound_mode() {
    let cfg = config(2, 2, 0, false);
    let requests = vec![request("A", "http://a"), request("B", "http://b")];
    let mut results = Vec::new();
    for _worker in 0..cfg.thread_count {
        let mut env = VarMap::new();
        let client = OkClient::new("{}");
        let mut sink = VecSink { lines: Vec::new() };
        let clock = frozen_clock();
        results.push(run_worker(&cfg, &requests, &mut env, &client, &mut sink, &clock));
    }
    let all = collect_results(results).unwrap();
    assert_eq!(all.len() as u64, cfg.thread_count * cfg.iterations * requests.len() as u64);
}

#[test]
fn join_surfaces_a_worker_failure() {
    let ok = vec![Stat::new("a".to_string(), 200, 1)];
    let results = vec![
        Ok(ok),
        Err(FatalError::RequestFailed("b".to_string())),
        Ok(vec![Stat::new("c".to_string(), 200, 1)]),
    ];
    match collect_results(results) {
        Err(FatalError::RequestFailed(name)) => assert_eq!(name, "b"),
        _ => panic!("expected the worker failure to surface"),
    }
}

#[test]
fn join_concatenates_worker_records_in_order() {
    let results = vec![
        Ok(vec![Stat::new("w1a".to_string(), 200, 1), Stat::new("w1b".to_string(), 200, 2)]),
        Ok(vec![Stat::new("w2a".to_string(), 200, 3)]),
    ];
    let all = collect_results(results).unwrap();
    let names: Vec<&str> = all.iter().map(|s| s.name.as_str()).collect();
    assert_eq!(names, ["w1a", "w1b", "w2a"]);
}

#[test]
fn stagger_spreads_the_rampup_window() {
    assert_eq!(stagger_millis(2, 2), 1000);
    let schedule = spawn_schedule(2, 2);
    assert_eq!(schedule, [0, 1000]);
    assert!(schedule[1] - schedule[0] >= 1000);
    let schedule = spawn_schedule(10, 4);
    assert_eq!(schedule, [0, 2500, 5000, 7500]);
}

#[test]
fn outcome_to_record_decision() {
    let ok: Result<HttpResponse, ClientError> =
        Ok(HttpResponse { status: 201, latency: 12, body: String::new() });
    let s = outcome_stat("a".to_string(), &ok);
    assert_eq!((s.name.as_str(), s.status, s.latency), ("a", 201, 12));
    let err: Result<HttpResponse, ClientError> =
        Err(ClientError { message: "refused".to_string() });
    let s = outcome_stat("b".to_string(), &err);
    assert_eq!((s.name.as_str(), s.status, s.latency), ("b", FAILURE_STATUS, 0));
}

#[test]
fn execution_time_check_is_strict() {
    assert!(!is_execution_time_over(2, &2));
    assert!(is_execution_time_over(3, &2));
    assert!(!is_execution_time_over(0, &0));
}
