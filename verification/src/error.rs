//! Error types: one terminal error value per failed run. Per-attempt
//! failures are data, not errors — they live inside outcome records.

use vstd::prelude::*;
use vstd::string::StringExecFns;

verus! {

/// Error type for a whole run: configuration and internal faults that abort
/// the run before any aggregate result is produced. Each variant carries the
/// collaborator's own description.
pub enum Error {
    /// An I/O fault while loading data or writing a report.
    Io(String),
    /// The HTTP client could not be built, or a fault of the transport that
    /// was not tied to a single attempt.
    HttpClient(String),
    /// A JSON value could not be parsed or produced.
    Json(String),
    /// A data file could not be loaded.
    DataLoad(String),
    /// Required request data was absent.
    MissingData(String),
    /// Anything else, configuration mistakes included.
    Other(String),
}

/// The description each run error renders to.
pub open spec fn spec_error_message(e: Error) -> Seq<char> {
    match e {
        Error::Io(s) => "IO error: "@ + s@,
        Error::HttpClient(s) => "HTTP client error: "@ + s@,
        Error::Json(s) => "JSON error: "@ + s@,
        Error::DataLoad(s) => "Failed to load data file: "@ + s@,
        Error::MissingData(s) => "Missing required data: "@ + s@,
        Error::Other(s) => s@,
    }
}

impl Error {
    /// The failure description: a fixed prefix naming the fault class,
    /// followed by the detail the variant carries.
    pub fn message(&self) -> (r: String)
        ensures
            r@ == spec_error_message(*self),
    {
        match self {
            Error::Io(s) => {
                let mut m = "IO error: ".to_owned();
                m.append(s.as_str());
                m
            },
            Error::HttpClient(s) => {
                let mut m = "HTTP client error: ".to_owned();
                m.append(s.as_str());
                m
            },
            Error::Json(s) => {
                let mut m = "JSON error: ".to_owned();
                m.append(s.as_str());
                m
            },
            Error::DataLoad(s) => {
                let mut m = "Failed to load data file: ".to_owned();
                m.append(s.as_str());
                m
            },
            Error::MissingData(s) => {
                let mut m = "Missing required data: ".to_owned();
                m.append(s.as_str());
                m
            },
            Error::Other(s) => s.clone(),
        }
    }
}

/// Error type of the graphical front end: a run error, or an invalid
/// parameter handed in before the run started.
pub enum GuiError {
    /// A run error from the core.
    Core(Error),
    /// The HTTP method string was not recognized.
    InvalidMethod(String),
    /// A parameter value was out of range.
    InvalidParameter(String),
    /// A header name or value could not be used.
    InvalidHeader(String),
}

/// The description each front-end error renders to.
pub open spec fn spec_gui_message(e: GuiError) -> Seq<char> {
    match e {
        GuiError::Core(c) => "Core error: "@ + spec_error_message(c),
        GuiError::InvalidMethod(s) => "Invalid HTTP method: "@ + s@,
        GuiError::InvalidParameter(s) => "Invalid parameter: "@ + s@,
        GuiError::InvalidHeader(s) => "Invalid header: "@ + s@,
    }
}

impl GuiError {
    /// The failure description, prefixed by the fault class.
    pub fn message(&self) -> (r: String)
        ensures
            r@ == spec_gui_message(*self),
    {
        match self {
            GuiError::Core(e) => {
                let mut m = "Core error: ".to_owned();
                let detail = e.message();
                m.append(detail.as_str());
                m
            },
            GuiError::InvalidMethod(s) => {
                let mut m = "Invalid HTTP method: ".to_owned();
                m.append(s.as_str());
                m
            },
            GuiError::InvalidParameter(s) => {
                let mut m = "Invalid parameter: ".to_owned();
                m.append(s.as_str());
                m
            },
            GuiError::InvalidHeader(s) => {
                let mut m = "Invalid header: ".to_owned();
                m.append(s.as_str());
                m
            },
        }
    }
}

} // verus!
