//! A backend group's options.
use crate::config::{seconds_duration, BackendOptions};
use crate::errors::NetworkTargetError;
use crate::target::{parse_outcome, NetworkTarget};
use core::time::Duration;
use vstd::prelude::*;

verus! {

/// The targets of a backend group and the options that apply to all of them.
#[derive(Debug)]
pub struct Backend {
    pub targets: Vec<NetworkTarget>,
    pub health_endpoint: Option<String>,
    pub health_check_interval: Option<Duration>,
    pub health_check_timeout: Option<Duration>,
    pub request_timeout: Option<Duration>,
    pub failed_request_threshold: Option<u32>,
    pub rate_limit: Option<u64>,
}

impl Backend {
    /// A group with the single target read from `addr` and no options set.
    pub fn new(addr: &str) -> (r: Result<Backend, NetworkTargetError>)
        ensures
            match r {
                Ok(b) => {
                    &&& b.targets@.len() == 1
                    &&& parse_outcome(addr@, Ok(b.targets@[0]))
                    &&& b.health_endpoint is None
                    &&& b.health_check_interval is None
                    &&& b.health_check_timeout is None
                    &&& b.request_timeout is None
                    &&& b.failed_request_threshold is None
                    &&& b.rate_limit is None
                },
                Err(e) => parse_outcome(addr@, Err(e)),
            },
    {
        let target = NetworkTarget::parse(addr)?;
        let mut targets: Vec<NetworkTarget> = Vec::new();
        targets.push(target);
        Ok(Backend {
            targets,
            health_endpoint: None,
            health_check_interval: None,
            health_check_timeout: None,
            request_timeout: None,
            failed_request_threshold: None,
            rate_limit: None,
        })
    }

    /// The group described by `config`: the addresses of its peer entries, in
    /// order, and its options.
    pub fn from_config(config: &BackendOptions) -> (r: Self)
        ensures
            r.targets@.len() == config.peers@.len(),
            forall|i: int| 0 <= i < r.targets@.len() ==> #[trigger] r.targets@[i] == config.peers@[i].address,
            r.health_endpoint == config.health_endpoint,
            r.health_check_interval == seconds_duration(config.health_check_interval_seconds),
            r.health_check_timeout == seconds_duration(config.health_check_timeout_seconds),
            r.request_timeout == seconds_duration(config.request_timeout_seconds),
            r.failed_request_threshold == config.failed_request_threshold,
            r.rate_limit == config.rate_limit,
    {
        let mut targets: Vec<NetworkTarget> = Vec::new();
        let mut i: usize = 0;
        while i < config.peers.len()
            invariant
                i <= config.peers@.len(),
                targets@.len() == i,
                forall|j: int| 0 <= j < i ==> #[trigger] targets@[j] == config.peers@[j].address,
            decreases config.peers.len() - i,
        {
            targets.push(config.peers[i].get_addr());
            i = i + 1;
        }
        let health_endpoint = match &config.health_endpoint {
            Some(e) => Some(e.clone()),
            None => None,
        };
        Self {
            targets,
            health_endpoint,
            health_check_interval: config.get_health_check_interval(),
            health_check_timeout: config.get_health_check_timeout(),
            request_timeout: config.get_request_timeout(),
            failed_request_threshold: config.failed_request_threshold,
            rate_limit: config.rate_limit,
        }
    }

    pub fn with_health_endpoint(self, endpoint: &str) -> (r: Self)
        ensures
            r.health_endpoint matches Some(e) && e@ == endpoint@,
            r.targets == self.targets,
            r.health_check_interval == self.health_check_interval,
            r.health_check_timeout == self.health_check_timeout,
            r.request_timeout == self.request_timeout,
            r.failed_request_threshold == self.failed_request_threshold,
            r.rate_limit == self.rate_limit,
    {
        Backend { health_endpoint: Some(endpoint.to_string()), ..self }
    }

    pub fn with_health_check_interval(self, interval: Duration) -> (r: Self)
        ensures
            r.health_check_interval == Some(interval),
            r.targets == self.targets,
            r.health_endpoint == self.health_endpoint,
            r.health_check_timeout == self.health_check_timeout,
            r.request_timeout == self.request_timeout,
            r.failed_request_threshold == self.failed_request_threshold,
            r.rate_limit == self.rate_limit,
    {
        Backend { health_check_interval: Some(interval), ..self }
    }

    pub fn with_request_timeout(self, timeout: Duration) -> (r: Self)
        ensures
            r.request_timeout == Some(timeout),
            r.targets == self.targets,
            r.health_endpoint == self.health_endpoint,
            r.health_check_interval == self.health_check_interval,
            r.health_check_timeout == self.health_check_timeout,
            r.failed_request_threshold == self.failed_request_threshold,
            r.rate_limit == self.rate_limit,
    {
        Backend { request_timeout: Some(timeout), ..self }
    }

    pub fn with_failed_request_threshold(self, threshold: u32) -> (r: Self)
        ensures
            r.failed_request_threshold == Some(threshold),
            r.targets == self.targets,
            r.health_endpoint == self.health_endpoint,
            r.health_check_interval == self.health_check_interval,
            r.health_check_timeout == self.health_check_timeout,
            r.request_timeout == self.request_timeout,
            r.rate_limit == self.rate_limit,
    {
        Backend { failed_request_threshold: Some(threshold), ..self }
    }

    pub fn with_rate_limit(self, max_requests_per_second: u64) -> (r: Self)
        ensures
            r.rate_limit == Some(max_requests_per_second),
            r.targets == self.targets,
            r.health_endpoint == self.health_endpoint,
            r.health_check_interval == self.health_check_interval,
            r.health_check_timeout == self.health_check_timeout,
            r.request_timeout == self.request_timeout,
            r.failed_request_threshold == self.failed_request_threshold,
    {
        Backend { rate_limit: Some(max_requests_per_second), ..self }
    }
}

} // verus!
