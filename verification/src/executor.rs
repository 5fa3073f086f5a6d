//! The worker-pool execution engine: per-worker control flow, request
//! preprocessing, response-variable extraction, and the staggered start
//! schedule.
//!
//! Spawning OS threads, the HTTP transport, the report file and the clock
//! are injected by the surrounding program through the [`HttpClient`],
//! [`ReportSink`] and [`Clock`] traits; everything the worker decides and
//! records is verified here.

use vstd::prelude::*;

use vstd::arithmetic::div_mod::{
    lemma_fundamental_div_mod,
    lemma_mod_bound,
    lemma_mod_multiples_vanish,
    lemma_small_mod,
};

use crate::FAILURE_STATUS;
use crate::cmd::ExecConfig;
use crate::errors::{ClientError, FatalError};
use crate::json::{extract_value, extracted_of};
use crate::stats::{Stat, StatsCollector};
use crate::template::{find_and_replace, render};
use crate::varmap::VarMap;

verus! {

/// One extraction rule of a request: after the response arrives, the value
/// that `json_path` (a JSON Pointer) names in the response body is bound to
/// the variable `var_name`.
pub struct ExtractRule {
    pub var_name: String,
    pub json_path: String,
}

/// An immutable request template. Each of the five string-valued parts may
/// contain `{{name}}` placeholders; the extraction rules are configuration
/// and are taken as written.
pub struct Request {
    pub name: String,
    pub method: String,
    pub url: String,
    pub headers: Vec<(String, String)>,
    pub body: String,
    pub extractions: Vec<ExtractRule>,
}

/// What an HTTP client hands back for one sent request.
pub struct HttpResponse {
    pub status: u16,
    /// Elapsed latency of the request, in milliseconds.
    pub latency: u64,
    pub body: String,
}

/// The injected HTTP transport: sends one rendered request and returns its
/// status, latency and body, or a transport failure.
pub trait HttpClient {
    fn execute(&self, request: &Request) -> Result<HttpResponse, ClientError>;
}

/// The injected report destination: persists one outcome record, flushed,
/// before returning, so that an abort leaves a line-complete partial report.
pub trait ReportSink {
    fn append(&mut self, stat: &Stat);
}

/// The injected clock: elapsed wall time since the run started, and sleeping.
pub trait Clock {
    fn elapsed_secs(&self) -> u64;

    fn sleep_ms(&self, ms: u64);
}

/// The elapsed time has passed the configured deadline.
pub fn is_execution_time_over(elapsed_secs: u64, duration: &u64) -> (r: bool)
    ensures
        r == (elapsed_secs > *duration),
{
    elapsed_secs > *duration
}

/// The pause between successive worker starts, in milliseconds.
pub open spec fn spec_stagger(rampup_time: u64, thread_count: u64) -> int {
    rampup_time * 1000 / thread_count as int
}

/// Computes the pause between successive worker starts: the ramp-up window
/// spread evenly over the workers.
pub fn stagger_millis(rampup_time: u64, thread_count: u64) -> (r: u64)
    requires
        thread_count > 0,
        rampup_time * 1000 <= u64::MAX,
    ensures
        r == spec_stagger(rampup_time, thread_count),
{
    rampup_time * 1000 / thread_count
}

/// The start offset of every worker, in milliseconds from the start of the
/// run: worker `q` starts `q` stagger pauses in, so successive start
/// offsets differ by exactly the stagger pause and all starts fall within
/// the ramp-up window.
pub fn spawn_schedule(rampup_time: u64, thread_count: u64) -> (r: Vec<u64>)
    requires
        thread_count > 0,
        rampup_time * 1000 <= u64::MAX,
    ensures
        r@.len() == thread_count as nat,
        forall|q: int|
            0 <= q < thread_count ==> r@[q] == q * spec_stagger(rampup_time, thread_count),
        forall|q: int|
            0 <= q && q + 1 < thread_count ==> #[trigger] r@[q + 1] - r@[q] == spec_stagger(
                rampup_time,
                thread_count,
            ),
{
    let st = stagger_millis(rampup_time, thread_count);
    proof {
        lemma_fundamental_div_mod(rampup_time as int * 1000, thread_count as int);
        lemma_mod_bound(rampup_time as int * 1000, thread_count as int);
        assert(thread_count as int * (st as int) <= rampup_time as int * 1000);
    }
    let mut schedule: Vec<u64> = Vec::new();
    let mut i: u64 = 0;
    while i < thread_count
        invariant
            thread_count > 0,
            i <= thread_count,
            st == spec_stagger(rampup_time, thread_count),
            rampup_time * 1000 <= u64::MAX,
            thread_count as int * (st as int) <= rampup_time as int * 1000,
            schedule@.len() == i as nat,
            forall|q: int| 0 <= q < i ==> schedule@[q] == q * (st as int),
        decreases thread_count - i,
    {
        proof {
            assert((i as int) * (st as int) <= (thread_count as int) * (st as int))
                by (nonlinear_arith)
                requires
                    0 <= i as int <= thread_count as int,
                    st as int >= 0,
            ;
        }
        let offset = i * st;
        schedule.push(offset);
        i = i + 1;
    }
    proof {
        assert forall|q: int| 0 <= q && q + 1 < thread_count implies #[trigger] schedule@[q + 1]
            - schedule@[q] == spec_stagger(rampup_time, thread_count) by {
            assert((q + 1) * (st as int) - q * (st as int) == st as int) by (nonlinear_arith);
        }
    }
    schedule
}

/// Renders a request against the worker's current variable map: each of the
/// five string-valued parts is rendered; the extraction rules are carried
/// over unchanged.
pub fn preprocess(request: &Request, env_map: &VarMap) -> (r: Request)
    ensures
        r.name@ == render(request.name@, env_map@),
        r.method@ == render(request.method@, env_map@),
        r.url@ == render(request.url@, env_map@),
        r.body@ == render(request.body@, env_map@),
        r.headers@.len() == request.headers@.len(),
        forall|q: int|
            0 <= q < request.headers@.len() ==> r.headers@[q].0@ == render(
                request.headers@[q].0@,
                env_map@,
            ) && r.headers@[q].1@ == render(request.headers@[q].1@, env_map@),
        r.extractions@.len() == request.extractions@.len(),
        forall|q: int|
            0 <= q < request.extractions@.len() ==> r.extractions@[q].var_name@
                == request.extractions@[q].var_name@ && r.extractions@[q].json_path@
                == request.extractions@[q].json_path@,
{
    let mut headers: Vec<(String, String)> = Vec::new();
    let mut h: usize = 0;
    while h < request.headers.len()
        invariant
            h <= request.headers@.len(),
            headers@.len() == h as nat,
            forall|q: int|
                0 <= q < h ==> headers@[q].0@ == render(request.headers@[q].0@, env_map@)
                    && headers@[q].1@ == render(request.headers@[q].1@, env_map@),
        decreases request.headers@.len() - h,
    {
        let key = find_and_replace(request.headers[h].0.as_str(), env_map);
        let value = find_and_replace(request.headers[h].1.as_str(), env_map);
        headers.push((key, value));
        h = h + 1;
    }
    let mut extractions: Vec<ExtractRule> = Vec::new();
    let mut e: usize = 0;
    while e < request.extractions.len()
        invariant
            e <= request.extractions@.len(),
            extractions@.len() == e as nat,
            forall|q: int|
                0 <= q < e ==> extractions@[q].var_name@ == request.extractions@[q].var_name@
                    && extractions@[q].json_path@ == request.extractions@[q].json_path@,
        decreases request.extractions@.len() - e,
    {
        extractions.push(
            ExtractRule {
                var_name: request.extractions[e].var_name.clone(),
                json_path: request.extractions[e].json_path.clone(),
            },
        );
        e = e + 1;
    }
    Request {
        name: find_and_replace(request.name.as_str(), env_map),
        method: find_and_replace(request.method.as_str(), env_map),
        url: find_and_replace(request.url.as_str(), env_map),
        headers,
        body: find_and_replace(request.body.as_str(), env_map),
        extractions,
    }
}

/// `k` is the target variable name of some rule among `rules`.
pub open spec fn is_rule_name(rules: Seq<ExtractRule>, k: Seq<char>) -> bool {
    exists|i: int| 0 <= i < rules.len() && rules[i].var_name@ == k
}

/// Merges one extraction outcome into the variable map: a value that was
/// found is bound to `name`, overwriting any earlier binding; a rule whose
/// lookup found nothing leaves the map untouched.
pub fn apply_extraction(env_map: &mut VarMap, name: String, found: Option<String>)
    ensures
        found matches Some(v) ==> final(env_map)@ == old(env_map)@.insert(name@, v@),
        found is None ==> final(env_map)@ == old(env_map)@,
{
    match found {
        Some(value) => env_map.insert(name, value),
        None => (),
    }
}

/// The variable map after a request's extraction rules run in order against
/// a response body: a rule whose path extracts a string binds it to the
/// rule's variable name — later rules overwriting earlier ones — and a rule
/// that extracts nothing changes nothing.
pub open spec fn apply_rules(
    m: Map<Seq<char>, Seq<char>>,
    body: Seq<char>,
    rules: Seq<ExtractRule>,
) -> Map<Seq<char>, Seq<char>>
    decreases rules.len(),
{
    if rules.len() == 0 {
        m
    } else {
        let prev = apply_rules(m, body, rules.drop_last());
        match extracted_of(body, rules.last().json_path@) {
            Some(v) => prev.insert(rules.last().var_name@, v),
            None => prev,
        }
    }
}

/// A key no rule targets keeps its binding through `apply_rules`.
pub proof fn lemma_apply_rules_frame(
    m: Map<Seq<char>, Seq<char>>,
    body: Seq<char>,
    rules: Seq<ExtractRule>,
    k: Seq<char>,
)
    requires
        !is_rule_name(rules, k),
    ensures
        apply_rules(m, body, rules).contains_key(k) <==> m.contains_key(k),
        m.contains_key(k) ==> apply_rules(m, body, rules)[k] == m[k],
    decreases rules.len(),
{
    if rules.len() > 0 {
        let d = rules.drop_last();
        if is_rule_name(d, k) {
            let i = choose|i: int| 0 <= i < d.len() && d[i].var_name@ == k;
            assert(rules[i].var_name@ == k);
        }
        lemma_apply_rules_frame(m, body, d, k);
        assert(rules[rules.len() - 1].var_name@ != k);
    }
}

/// Applies a request's extraction rules in order to a response body:
/// afterwards the variable map is exactly [`apply_rules`] of the old map —
/// each rule whose JSON Pointer path names a string in the body binds it,
/// later rules overwriting earlier ones; a body that is not JSON, a path
/// that does not resolve, or a value that is not a string is skipped.
/// Variables no rule targets keep their bindings.
pub fn update_env_map(body: &str, rules: &Vec<ExtractRule>, env_map: &mut VarMap)
    ensures
        final(env_map)@ == apply_rules(old(env_map)@, body@, rules@),
        forall|k: Seq<char>|
            #![trigger is_rule_name(rules@, k)]
            !is_rule_name(rules@, k) ==> ((final(env_map)@.contains_key(k) <==> old(
                env_map,
            )@.contains_key(k)) && (old(env_map)@.contains_key(k) ==> final(env_map)@[k] == old(
                env_map,
            )@[k])),
{
    let ghost orig = env_map@;
    proof {
        assert(rules@.take(0) =~= Seq::<ExtractRule>::empty());
    }
    let mut i: usize = 0;
    while i < rules.len()
        invariant
            orig == old(env_map)@,
            i <= rules@.len(),
            env_map@ == apply_rules(orig, body@, rules@.take(i as int)),
        decreases rules@.len() - i,
    {
        let rule = &rules[i];
        let ghost head_env = env_map@;
        let found = extract_value(body, rule.json_path.as_str());
        let ghost gfound = found;
        apply_extraction(env_map, rule.var_name.clone(), found);
        proof {
            let ti = i as int;
            assert(rules@.take(ti + 1).drop_last() =~= rules@.take(ti));
            assert(rules@.take(ti + 1).last() == rules@[ti]);
            match gfound {
                Some(v) => {
                    assert(extracted_of(body@, rules@[ti].json_path@) == Some(v@));
                    assert(env_map@ == head_env.insert(rules@[ti].var_name@, v@));
                },
                None => {
                    assert(extracted_of(body@, rules@[ti].json_path@) is None);
                    assert(env_map@ == head_env);
                },
            }
            assert(env_map@ == apply_rules(orig, body@, rules@.take(ti + 1)));
        }
        i = i + 1;
    }
    proof {
        assert(rules@.take(rules@.len() as int) =~= rules@);
        assert forall|k: Seq<char>|
            #![trigger is_rule_name(rules@, k)]
            !is_rule_name(rules@, k) implies ((env_map@.contains_key(k) <==> orig.contains_key(k))
            && (orig.contains_key(k) ==> env_map@[k] == orig[k])) by {
            lemma_apply_rules_frame(orig, body@, rules@, k);
        }
    }
}

/// The record one request outcome yields: a success carries the response's
/// status code and latency; a transport failure is recorded with
/// [`FAILURE_STATUS`] and zero latency.
pub fn outcome_stat(name: String, outcome: &Result<HttpResponse, ClientError>) -> (r: Stat)
    ensures
        r.name@ == name@,
        match outcome {
            Ok(response) => r.status == response.status && r.latency == response.latency,
            Err(_) => r.status == FAILURE_STATUS && r.latency == 0,
        },
{
    match outcome {
        Ok(response) => Stat::new(name, response.status, response.latency),
        Err(_) => Stat::new(name, FAILURE_STATUS, 0),
    }
}

/// The recorded names follow the request definition order, pass after pass:
/// the record at position `k` carries the name of request `k mod n`.
pub open spec fn stat_names_follow(stats: Seq<Stat>, requests: Seq<Request>) -> bool {
    requests.len() > 0 ==> forall|k: int|
        0 <= k < stats.len() ==> stats[k].name@ == requests[k % requests.len() as int].name@
}

/// `k` is the target variable name of some extraction rule of some request.
pub open spec fn is_extraction_name(requests: Seq<Request>, k: Seq<char>) -> bool {
    exists|i: int|
        0 <= i < requests.len() && is_rule_name(requests[i].extractions@, k)
}

/// One worker's whole run: passes over the request sequence, in definition
/// order, until the termination mode says stop — after exactly
/// `config.iterations` passes in iteration-bound mode, and only at a pass
/// boundary in time-bound mode. Every executed request is rendered against
/// the worker's variable map, sent, recorded to the report sink and to the
/// returned sequence, and its extraction rules applied. A transport failure
/// is recorded with [`FAILURE_STATUS`] when `continue_on_error` is set and
/// aborts the run otherwise.
pub fn run_worker<C: HttpClient, S: ReportSink, K: Clock>(
    config: &ExecConfig,
    requests: &Vec<Request>,
    env_map: &mut VarMap,
    client: &C,
    sink: &mut S,
    clock: &K,
) -> (r: Result<Vec<Stat>, FatalError>)
    ensures
        r matches Ok(stats) ==> ({
            &&& config.iterations > 0 ==> stats@.len() == config.iterations as nat
                * requests@.len()
            &&& exists|p: nat| stats@.len() == #[trigger] (p * requests@.len())
            &&& stat_names_follow(stats@, requests@)
        }),
        r matches Err(e) ==> !config.continue_on_error && (e matches FatalError::RequestFailed(_)),
        requests@.len() == 0 ==> r is Ok,
        forall|k: Seq<char>|
            #![trigger is_extraction_name(requests@, k)]
            !is_extraction_name(requests@, k) ==> ((final(env_map)@.contains_key(k) <==> old(
                env_map,
            )@.contains_key(k)) && (old(env_map)@.contains_key(k) ==> final(env_map)@[k] == old(
                env_map,
            )@[k])),
{
    let ghost orig_env = env_map@;
    let mut stats: Vec<Stat> = Vec::new();
    let mut thread_iteration: u64 = 0;
    let ghost mut passes: nat = 0;
    let mut done = false;
    while !done
        invariant
            orig_env == old(env_map)@,
            stats@.len() == passes * requests@.len(),
            stat_names_follow(stats@, requests@),
            config.iterations > 0 ==> thread_iteration as nat == passes && thread_iteration
                <= config.iterations,
            done && config.iterations > 0 ==> passes == config.iterations as nat,
            forall|k: Seq<char>|
                #![trigger is_extraction_name(requests@, k)]
                !is_extraction_name(requests@, k) ==> ((env_map@.contains_key(k)
                    <==> orig_env.contains_key(k)) && (orig_env.contains_key(k) ==> env_map@[k]
                    == orig_env[k])),
        decreases u64::MAX - thread_iteration, (if done {
            0int
        } else {
            1int
        }),
    {
        let mut run_pass = false;
        if config.iterations > 0 {
            if thread_iteration >= config.iterations {
                done = true;
            } else {
                thread_iteration = thread_iteration + 1;
                run_pass = true;
            }
        } else {
            // the saturated pass counter is a termination bound far beyond
            // any reachable pass count; the effective stop is the deadline
            if is_execution_time_over(clock.elapsed_secs(), &config.execution_time)
                || thread_iteration == u64::MAX {
                done = true;
            } else {
                thread_iteration = thread_iteration + 1;
                run_pass = true;
            }
        }
        if run_pass {
            let n_requests = requests.len();
            let mut j: usize = 0;
            while j < n_requests
                invariant
                    orig_env == old(env_map)@,
                    n_requests == requests@.len(),
                    j <= n_requests,
                    stats@.len() == passes * requests@.len() + j,
                    stat_names_follow(stats@, requests@),
                    config.iterations > 0 ==> thread_iteration as nat == passes + 1
                        && thread_iteration <= config.iterations,
                    forall|k: Seq<char>|
                        #![trigger is_extraction_name(requests@, k)]
                        !is_extraction_name(requests@, k) ==> ((env_map@.contains_key(k)
                            <==> orig_env.contains_key(k)) && (orig_env.contains_key(k)
                            ==> env_map@[k] == orig_env[k])),
                decreases n_requests - j,
            {
                let request = &requests[j];
                let processed = preprocess(request, env_map);
                let result = client.execute(&processed);
                match &result {
                    Err(_failure) => {
                        if !config.continue_on_error {
                            return Err(FatalError::RequestFailed(request.name.clone()));
                        }
                    },
                    Ok(_) => (),
                }
                let stat = outcome_stat(request.name.clone(), &result);
                sink.append(&stat);
                let ghost pre = stats@;
                stats.push(stat);
                proof {
                    assert(stats@.drop_last() =~= pre);
                    lemma_new_stat_follows(stats@, requests@, passes, j as nat);
                }
                match result {
                    Ok(response) => {
                        let ghost head_env = env_map@;
                        update_env_map(response.body.as_str(), &processed.extractions, env_map);
                        proof {
                            assert forall|k: Seq<char>|
                                #![trigger is_extraction_name(requests@, k)]
                                !is_extraction_name(requests@, k) implies ((env_map@.contains_key(
                                k,
                            ) <==> orig_env.contains_key(k)) && (orig_env.contains_key(k)
                                ==> env_map@[k] == orig_env[k])) by {
                                if is_rule_name(requests@[j as int].extractions@, k) {
                                    assert(is_extraction_name(requests@, k));
                                }
                                if is_rule_name(processed.extractions@, k) {
                                    let idx = choose|q: int|
                                        0 <= q < processed.extractions@.len()
                                            && processed.extractions@[q].var_name@ == k;
                                    assert(requests@[j as int].extractions@[idx].var_name@ == k);
                                    assert(is_rule_name(requests@[j as int].extractions@, k));
                                }
                                assert(!is_rule_name(processed.extractions@, k));
                                assert(head_env.contains_key(k) <==> orig_env.contains_key(k));
                                assert(orig_env.contains_key(k) ==> head_env[k] == orig_env[k]);
                                assert(env_map@.contains_key(k) <==> head_env.contains_key(k));
                                assert(head_env.contains_key(k) ==> env_map@[k] == head_env[k]);
                            }
                        }
                    },
                    Err(_failure) => (),
                }
                clock.sleep_ms(config.thread_delay);
                j = j + 1;
            }
            proof {
                assert((passes + 1) * requests@.len() == passes * requests@.len()
                    + requests@.len()) by (nonlinear_arith);
                passes = passes + 1;
            }
        }
    }
    proof {
        assert(stats@.len() == passes * requests@.len());
    }
    Ok(stats)
}

/// The per-worker record sequences carried by a sequence of worker results;
/// a worker that failed contributes an empty sequence.
pub open spec fn ok_payloads(results: Seq<Result<Vec<Stat>, FatalError>>) -> Seq<Seq<Stat>>
    decreases results.len(),
{
    if results.len() == 0 {
        seq![]
    } else {
        ok_payloads(results.drop_last()).push(
            match results.last() {
                Ok(v) => v@,
                Err(_) => seq![],
            },
        )
    }
}

/// The records of a sequence of worker results, worker by worker, in order.
pub open spec fn concat_ok(results: Seq<Result<Vec<Stat>, FatalError>>) -> Seq<Stat>
    decreases results.len(),
{
    if results.len() == 0 {
        seq![]
    } else {
        concat_ok(results.drop_last()) + (match results.last() {
            Ok(v) => v@,
            Err(_) => seq![],
        })
    }
}

/// The concatenated records are as many as the per-worker sequences hold
/// together.
pub proof fn lemma_concat_ok_len(results: Seq<Result<Vec<Stat>, FatalError>>)
    ensures
        concat_ok(results).len() == crate::stats::total_len(ok_payloads(results)),
    decreases results.len(),
{
    if results.len() > 0 {
        lemma_concat_ok_len(results.drop_last());
        assert(ok_payloads(results).drop_last() =~= ok_payloads(results.drop_last()));
    }
}

proof fn lemma_ok_payloads_index(results: Seq<Result<Vec<Stat>, FatalError>>)
    ensures
        ok_payloads(results).len() == results.len(),
        forall|i: int|
            0 <= i < results.len() ==> ok_payloads(results)[i] == (match results[i] {
                Ok(v) => v@,
                Err(_) => seq![],
            }),
    decreases results.len(),
{
    if results.len() > 0 {
        lemma_ok_payloads_index(results.drop_last());
        assert(ok_payloads(results).drop_last() =~= ok_payloads(results.drop_last()));
        assert forall|i: int| 0 <= i < results.len() implies ok_payloads(results)[i] == (
        match results[i] {
            Ok(v) => v@,
            Err(_) => seq![],
        }) by {
            if i < results.len() - 1 {
                assert(ok_payloads(results)[i] == ok_payloads(results.drop_last())[i]);
                assert(results.drop_last()[i] == results[i]);
            }
        }
    }
}

/// In iteration-bound mode every worker that terminates normally returns
/// `iterations * n_requests` records, so when all `thread_count` workers do
/// — as they must when no request fails, and also with `continue_on_error`
/// set — the collected run total is
/// `thread_count * iterations * n_requests`.
pub proof fn lemma_iteration_bound_run_total(
    results: Seq<Result<Vec<Stat>, FatalError>>,
    thread_count: nat,
    iterations: nat,
    n_requests: nat,
)
    requires
        results.len() == thread_count,
        forall|i: int|
            0 <= i < results.len() ==> ((#[trigger] results[i]) matches Ok(v) && v@.len()
                == iterations * n_requests),
    ensures
        concat_ok(results).len() == thread_count * iterations * n_requests,
{
    lemma_concat_ok_len(results);
    lemma_ok_payloads_index(results);
    assert forall|i: int| 0 <= i < ok_payloads(results).len() implies (#[trigger] ok_payloads(
        results,
    )[i]).len() == iterations * n_requests by {
        assert(results[i] matches Ok(v) && v@.len() == iterations * n_requests);
    }
    crate::stats::lemma_iteration_bound_total(
        ok_payloads(results),
        thread_count,
        iterations,
        n_requests,
    );
}

/// The scheduler's join step: every worker's records, in worker order, or
/// the first worker failure — a failed worker surfaces a fatal error rather
/// than silently losing its contribution.
pub fn collect_results(results: Vec<Result<Vec<Stat>, FatalError>>) -> (r: Result<
    Vec<Stat>,
    FatalError,
>)
    ensures
        (r matches Ok(all)) <==> (forall|i: int| 0 <= i < results@.len() ==> results@[i] is Ok),
        r matches Ok(all) ==> all@ == concat_ok(results@),
        r matches Err(e) ==> exists|i: int|
            0 <= i < results@.len() && ((#[trigger] results@[i]) matches Err(e2) && e2 == e) && (
            forall|q: int| 0 <= q < i ==> results@[q] is Ok),
{
    let ghost orig = results@;
    let mut collector = StatsCollector::new();
    let mut remaining = results;
    while remaining.len() > 0
        invariant
            orig == results@,
            remaining@.len() <= orig.len(),
            remaining@ == orig.skip(orig.len() - remaining@.len()),
            collector@ == concat_ok(orig.take(orig.len() - remaining@.len())),
            forall|q: int| 0 <= q < orig.len() - remaining@.len() ==> orig[q] is Ok,
        decreases remaining.len(),
    {
        let ghost k = orig.len() - remaining@.len();
        let next = remaining.remove(0);
        proof {
            assert(orig.skip(k)[0] == orig[k]);
            assert(orig.skip(k).remove(0) =~= orig.skip(k + 1));
            assert(orig.take(k + 1).drop_last() =~= orig.take(k));
            assert(orig.take(k + 1).last() == orig[k]);
        }
        match next {
            Ok(worker_stats) => {
                collector.append_all(worker_stats);
            },
            Err(failure) => {
                proof {
                    assert(orig[k] matches Err(e2) && e2 == failure);
                    assert(forall|q: int| 0 <= q < k ==> orig[q] is Ok);
                }
                return Err(failure);
            },
        }
    }
    proof {
        assert(orig.take(orig.len() as int) =~= orig);
    }
    Ok(collector.into_vec())
}

/// After one record is appended at position `passes * n + j`, where `j` is
/// the index of the request it came from, the recorded names still follow
/// the definition order.
proof fn lemma_new_stat_follows(stats: Seq<Stat>, requests: Seq<Request>, passes: nat, j: nat)
    requires
        requests.len() > 0,
        j < requests.len(),
        stats.len() == passes * requests.len() + j + 1,
        stats[stats.len() - 1].name@ == requests[j as int].name@,
        stat_names_follow(stats.drop_last(), requests),
    ensures
        stat_names_follow(stats, requests),
{
    let n = requests.len() as int;
    lemma_mod_multiples_vanish(passes as int, j as int, n);
    lemma_small_mod(j, requests.len());
    assert(n * (passes as int) + j as int == stats.len() - 1);
    assert((stats.len() - 1) % n == j as int);
    assert forall|k: int| 0 <= k < stats.len() implies stats[k].name@ == requests[k % n].name@ by {
        if k < stats.len() - 1 {
            assert(stats.drop_last()[k] == stats[k]);
        }
    }
}

} // verus!
