//! Execution configuration and its validation.
//!
//! Parsing the command line and reading the configuration file are left to
//! the surrounding program; it hands the chosen subcommand and the decoded
//! settings to [`get_config`], which enforces the rules that must hold
//! before a run may start.

use vstd::prelude::*;

use crate::errors::ConfigError;

verus! {

/// The immutable settings of one run, shared read-only across workers.
#[derive(Clone, Debug)]
pub struct ExecConfig {
    pub command: String,
    pub environment_file: String,
    pub collection_file: String,
    pub report_file: String,
    pub data_file: String,
    /// Number of workers; must be non-zero.
    pub thread_count: u64,
    /// Passes per worker; zero selects time-bound execution.
    pub iterations: u64,
    /// Wall-clock deadline in seconds; consulted only when `iterations` is zero.
    pub execution_time: u64,
    /// Pause in milliseconds after each executed request.
    pub thread_delay: u64,
    /// Window in seconds over which worker starts are staggered; must be non-zero.
    pub rampup_time: u64,
    pub handle_cookies: bool,
    pub continue_on_error: bool,
    pub log_to_file: bool,
    pub influxdb: InfluxDB,
}

#[derive(Clone, Debug)]
pub struct InfluxDB {
    pub url: String,
    pub username: String,
    pub password: String,
    pub dbname: String,
}

impl Default for InfluxDB {
    /// An InfluxDB target with every field empty.
    fn default() -> (r: InfluxDB)
        ensures
            r.url@ == Seq::<char>::empty(),
            r.username@ == Seq::<char>::empty(),
            r.password@ == Seq::<char>::empty(),
            r.dbname@ == Seq::<char>::empty(),
    {
        InfluxDB { url: String::new(), username: String::new(), password: String::new(), dbname: String::new() }
    }
}

impl ExecConfig {
    /// The conditions that must hold before any worker is spawned: at least
    /// one worker, a non-empty ramp-up window, and exactly one effective
    /// termination mode (`iterations` takes precedence when both are set).
    pub open spec fn valid(&self) -> bool {
        &&& self.thread_count > 0
        &&& self.rampup_time > 0
        &&& (self.iterations > 0 || self.execution_time > 0)
    }
}

/// The report file used when the configuration names none.
pub fn default_report_file() -> (r: String)
    ensures
        r@ == "report.csv"@,
{
    String::from_str("report.csv")
}

/// The value used for numeric settings that default to one.
pub fn default_to_one() -> (r: u64)
    ensures
        r == 1,
{
    1
}

/// Accepts a numeric setting only if it is non-zero.
pub fn check_non_zero(val: u64) -> (r: Result<u64, ConfigError>)
    ensures
        val == 0 <==> r matches Err(ConfigError::ValueZero),
        val != 0 ==> (r matches Ok(v) && v == val),
{
    if val == 0 {
        Err(ConfigError::ValueZero)
    } else {
        Ok(val)
    }
}

/// `s` ends with the five characters `.json`.
pub open spec fn ends_with_json(s: Seq<char>) -> bool {
    s.len() >= 5 && s.subrange(s.len() - 5, s.len() as int) == ".json"@
}

/// Accepts a file path only if it names a `.json` file.
pub fn check_json_file(val: String) -> (r: Result<String, ConfigError>)
    ensures
        ends_with_json(val@) <==> (r matches Ok(v) && v@ == val@),
        !ends_with_json(val@) <==> r matches Err(ConfigError::NotJsonFile),
{
    proof {
        reveal_strlit(".json");
    }
    let n = val.as_str().unicode_len();
    let s = val.as_str();
    if n >= 5 && s.get_char(n - 5) == '.' && s.get_char(n - 4) == 'j' && s.get_char(n - 3) == 's'
        && s.get_char(n - 2) == 'o' && s.get_char(n - 1) == 'n' {
        proof {
            assert(val@.subrange(val@.len() - 5, val@.len() as int) =~= ".json"@);
        }
        Ok(val)
    } else {
        proof {
            if val@.len() >= 5 && val@.subrange(val@.len() - 5, val@.len() as int) == ".json"@ {
                assert(val@[val@.len() - 5] == ".json"@[0]);
                assert(val@[val@.len() - 4] == ".json"@[1]);
                assert(val@[val@.len() - 3] == ".json"@[2]);
                assert(val@[val@.len() - 2] == ".json"@[3]);
                assert(val@[val@.len() - 1] == ".json"@[4]);
            }
        }
        Err(ConfigError::NotJsonFile)
    }
}

/// Binds the chosen subcommand into the decoded settings after checking the
/// rules of [`ExecConfig::valid`]. Rejection happens here, before any worker
/// is spawned; on success the returned configuration is the input with only
/// its `command` field replaced.
pub fn get_config(subcommand: String, config: ExecConfig) -> (r: Result<ExecConfig, ConfigError>)
    ensures
        subcommand@.len() == 0 ==> r matches Err(ConfigError::NoSubcommand),
        subcommand@.len() > 0 && config.thread_count == 0 ==> r matches Err(
            ConfigError::ZeroThreadCount,
        ),
        subcommand@.len() > 0 && config.thread_count > 0 && config.rampup_time == 0
            ==> r matches Err(ConfigError::ZeroRampUp),
        subcommand@.len() > 0 && config.thread_count > 0 && config.rampup_time > 0
            && config.iterations == 0 && config.execution_time == 0 ==> r matches Err(
            ConfigError::NoTerminationMode,
        ),
        r matches Ok(c) <==> subcommand@.len() > 0 && config.valid(),
        r matches Ok(c) ==> c == (ExecConfig { command: subcommand, ..config }) && c.valid(),
{
    if subcommand.as_str().unicode_len() == 0 {
        Err(ConfigError::NoSubcommand)
    } else if config.thread_count == 0 {
        Err(ConfigError::ZeroThreadCount)
    } else if config.rampup_time == 0 {
        Err(ConfigError::ZeroRampUp)
    } else if config.iterations == 0 && config.execution_time == 0 {
        Err(ConfigError::NoTerminationMode)
    } else {
        Ok(ExecConfig { command: subcommand, ..config })
    }
}

} // verus!
