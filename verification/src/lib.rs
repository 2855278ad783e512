//! A load-generation engine core: request templates, outcome records, a
//! bounded-error percentile engine, and the aggregation that folds a run's
//! outcomes into one immutable summary. The asynchronous dispatch itself —
//! issuing HTTP requests with bounded concurrency — is performed by the code
//! around this library; everything that can be stated and checked about a
//! run's results lives here.

pub mod data;
pub mod error;
pub mod histogram;
pub mod report;
pub mod result;
pub mod runner;
pub mod tally;
pub mod text;

pub use data::RequestData;
pub use error::{Error, GuiError};
pub use histogram::LatencyHistogram;
pub use report::{ReportFormat, ReportOptions};
pub use result::{LoadTestResults, RequestResult};
pub use runner::{Config, HttpMethod, Runner};
