use vstd::prelude::*;
use crate::pool::Dispatcher;

verus! {

/// The settings of one run, fixed before the first URL is handed out.
#[derive(Clone, Copy, Debug, PartialEq, Eq, Structural)]
pub struct RunConfig {
    pub worker_count: usize,
    pub timeout_secs: u64,
    pub max_retries: u32,
}

/// A configuration that keeps the run from starting.
#[derive(Clone, Copy, Debug, PartialEq, Eq, Structural)]
pub enum ConfigError {
    NoUrls,
    NoWorkers,
    ZeroTimeout,
}

impl RunConfig {
    pub open spec fn wf(self) -> bool {
        self.worker_count >= 1 && self.timeout_secs > 0
    }

    /// Accepts the settings when there is at least one worker and the timeout
    /// is positive; any number of retries, zero included, is allowed.
    pub fn new(worker_count: usize, timeout_secs: u64, max_retries: u32) -> (r: Result<
        RunConfig,
        ConfigError,
    >)
        ensures
            worker_count == 0 ==> r == Err::<RunConfig, ConfigError>(ConfigError::NoWorkers),
            worker_count > 0 && timeout_secs == 0 ==> r == Err::<RunConfig, ConfigError>(
                ConfigError::ZeroTimeout,
            ),
            worker_count > 0 && timeout_secs > 0 ==> r == Ok::<RunConfig, ConfigError>(
                RunConfig { worker_count, timeout_secs, max_retries },
            ),
    {
        if worker_count == 0 {
            Err(ConfigError::NoWorkers)
        } else if timeout_secs == 0 {
            Err(ConfigError::ZeroTimeout)
        } else {
            Ok(RunConfig { worker_count, timeout_secs, max_retries })
        }
    }
}

/// Prepares a run: refuses an empty URL list, then an invalid configuration;
/// otherwise returns the configuration and a dispatcher holding the URLs in
/// input order, none handed out.
pub fn prepare_run(
    urls: Vec<String>,
    worker_count: usize,
    timeout_secs: u64,
    max_retries: u32,
) -> (r: Result<(RunConfig, Dispatcher), ConfigError>)
    ensures
        urls@.len() == 0 ==> r is Err && r->Err_0 == ConfigError::NoUrls,
        urls@.len() > 0 && worker_count == 0 ==> r is Err && r->Err_0 == ConfigError::NoWorkers,
        urls@.len() > 0 && worker_count > 0 && timeout_secs == 0 ==> r is Err && r->Err_0
            == ConfigError::ZeroTimeout,
        urls@.len() > 0 && worker_count > 0 && timeout_secs > 0 ==> {
            &&& r is Ok
            &&& r->Ok_0.0 == RunConfig { worker_count, timeout_secs, max_retries }
            &&& r->Ok_0.1.wf()
            &&& r->Ok_0.1.urls() == urls@
            &&& r->Ok_0.1.claimed() == 0
            &&& r->Ok_0.1.results().len() == 0
        },
{
    if urls.len() == 0 {
        return Err(ConfigError::NoUrls);
    }
    match RunConfig::new(worker_count, timeout_secs, max_retries) {
        Err(e) => Err(e),
        Ok(config) => Ok((config, Dispatcher::new(urls))),
    }
}

} // verus!
