//! Run configuration and the load test runner.
//!
//! The runner owns the transport client, the configuration, and the optional
//! request data. Performing the attempts is asynchronous work that lives
//! outside this crate; the runner here carries what that work reads, and the
//! configuration check that must pass before any attempt starts.

use vstd::prelude::*;
use vstd::string::StringExecFns;

use crate::data::RequestData;
use crate::error::Error;

verus! {

/// `reqwest::Client` is the pre-configured transport client, shared
/// read-only across all workers. It is opaque here: the library only
/// carries it.
#[verifier::external_type_specification]
#[verifier::external_body]
pub struct ExClient(reqwest::Client);

/// Supported HTTP methods.
#[derive(Clone, Copy, PartialEq, Eq, Structural, Debug)]
pub enum HttpMethod {
    Get,
    Post,
    Put,
    Delete,
    Patch,
    Head,
}

impl HttpMethod {
    /// Whether a request body is sent with this method.
    pub fn sends_body(&self) -> (r: bool)
        ensures
            r == (*self == HttpMethod::Post || *self == HttpMethod::Put || *self
                == HttpMethod::Patch),
    {
        match self {
            HttpMethod::Post => true,
            HttpMethod::Put => true,
            HttpMethod::Patch => true,
            _ => false,
        }
    }
}

/// Configuration for the load test runner.
pub struct Config {
    /// URL to send requests to.
    pub url: String,
    /// HTTP method to use.
    pub method: HttpMethod,
    /// HTTP headers to include.
    pub headers: Vec<(String, String)>,
    /// Number of requests to send.
    pub request_count: usize,
    /// Number of concurrently outstanding requests.
    pub concurrency: usize,
    /// Request timeout in seconds, enforced by the transport per attempt.
    pub timeout: u64,
}

impl Config {
    /// A configuration under which a run may start: a named target and at
    /// least one worker. A zero request count is allowed — that run simply
    /// collects nothing.
    pub open spec fn valid(&self) -> bool {
        &&& self.concurrency >= 1
        &&& self.url@.len() > 0
    }

    /// Check the configuration once, before any attempt starts. A
    /// concurrency of zero is rejected rather than silently treated as one;
    /// an empty URL is rejected here rather than left to the transport.
    pub fn validate(&self) -> (r: Result<(), Error>)
        ensures
            r.is_ok() <==> self.valid(),
            self.concurrency == 0 ==> (r matches Err(e) && e matches Error::Other(m) && m@
                == "concurrency must be at least 1"@),
            self.concurrency >= 1 && self.url@.len() == 0 ==> (r matches Err(e) && e matches
                Error::Other(m) && m@ == "target URL must not be empty"@),
    {
        if self.concurrency == 0 {
            Err(Error::Other("concurrency must be at least 1".to_owned()))
        } else if self.url.as_str().is_empty() {
            Err(Error::Other("target URL must not be empty".to_owned()))
        } else {
            Ok(())
        }
    }
}

/// Load test runner: the transport client, the run configuration, and the
/// optional request data, bundled for the duration of one run.
pub struct Runner {
    client: reqwest::Client,
    config: Config,
    data: Option<RequestData>,
}

impl Runner {
    /// The configuration this runner was built with.
    pub closed spec fn spec_config(&self) -> Config {
        self.config
    }

    /// The request data this runner was built with.
    pub closed spec fn spec_data(&self) -> Option<RequestData> {
        self.data
    }

    /// Create a new Runner.
    pub fn new(client: reqwest::Client, config: Config, data: Option<RequestData>) -> (r: Runner)
        ensures
            r.spec_config() == config,
            r.spec_data() == data,
    {
        Runner { client, config, data }
    }

    /// The transport client, for the code that performs the attempts.
    pub fn client(&self) -> &reqwest::Client {
        &self.client
    }

    /// The run configuration.
    pub fn config(&self) -> (r: &Config)
        ensures
            *r == self.spec_config(),
    {
        &self.config
    }

    /// The optional request data.
    pub fn data(&self) -> (r: &Option<RequestData>)
        ensures
            *r == self.spec_data(),
    {
        &self.data
    }

    /// Create a new client with the specified timeout, in seconds.
    pub fn create_client(timeout: u64) -> (r: Result<reqwest::Client, Error>)
        ensures
            r matches Err(e) ==> e matches Error::HttpClient(_),
    {
        match build_client(timeout) {
            Ok(c) => Ok(c),
            Err(msg) => Err(Error::HttpClient(msg)),
        }
    }
}

/// Relies on reqwest::ClientBuilder: builds a client whose per-request
/// timeout is the given number of seconds. Whether building succeeds depends
/// on the transport backend, so nothing is promised of the outcome; the
/// error case hands back reqwest's own description.
#[verifier::external_body]
fn build_client(timeout: u64) -> (r: Result<reqwest::Client, String>)
{
    reqwest::Client::builder()
        .timeout(core::time::Duration::from_secs(timeout))
        .build()
        .map_err(|e| format!("{}", e))
}

} // verus!
