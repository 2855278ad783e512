use pressr::data::RequestData;
use pressr::error::{Error, GuiError};
use pressr::report::{percentage_tenths, ReportFormat, ReportOptions};
use pressr::runner::{Config, HttpMethod};
use pressr::text::{decimal_string, http_error_message};

#[test]
fn test_request_data_default() {
    let data = RequestData::default();
    assert!(data.body.is_none());
    assert!(data.headers.is_empty());
    assert!(data.params.is_empty());
    assert!(data.path_variables.is_empty());
    assert!(data.variables.is_empty());
}

fn sample_data() -> RequestData {
    let mut data = RequestData::default();
    data.variables = vec![
        (
            "user".to_string(),
            vec!["alice".to_string(), "bob".to_string()],
        ),
        ("empty".to_string(), Vec::new()),
    ];
    data
}

#[test]
fn random_variable_comes_from_the_named_set() {
    let data = sample_data();
    for _ in 0..32 {
        let v = data
            .get_random_variable("user")
            .expect("the set has values");
        assert!(v == "alice" || v == "bob");
    }
}

#[test]
fn random_variable_absent_or_empty_set() {
    let data = sample_data();
    assert_eq!(data.get_random_variable("missing"), None);
    assert_eq!(data.get_random_variable("empty"), None);
}

#[test]
fn validate_rejects_zero_concurrency() {
    let cfg = Config {
        url: "http://localhost:8080/".to_string(),
        method: HttpMethod::Get,
        headers: Vec::new(),
        request_count: 10,
        concurrency: 0,
        timeout: 30,
    };
    match cfg.validate() {
        Err(Error::Other(m)) => assert_eq!(m, "concurrency must be at least 1"),
        other => panic!("expected a configuration error, got {:?}", other.is_ok()),
    }
}

#[test]
fn validate_rejects_empty_url() {
    let cfg = Config {
        url: String::new(),
        method: HttpMethod::Get,
        headers: Vec::new(),
        request_count: 10,
        concurrency: 1,
        timeout: 30,
    };
    match cfg.validate() {
        Err(Error::Other(m)) => assert_eq!(m, "target URL must not be empty"),
        other => panic!("expected a configuration error, got {:?}", other.is_ok()),
    }
}

#[test]
fn validate_accepts_ordinary_config() {
    let cfg = Config {
        url: "http://localhost:8080/".to_string(),
        method: HttpMethod::Post,
        headers: vec![("content-type".to_string(), "application/json".to_string())],
        request_count: 0,
        concurrency: 1,
        timeout: 5,
    };
    assert!(cfg.validate().is_ok());
}

#[test]
fn body_is_sent_for_mutating_methods_only() {
    assert!(!HttpMethod::Get.sends_body());
    assert!(HttpMethod::Post.sends_body());
    assert!(HttpMethod::Put.sends_body());
    assert!(!HttpMethod::Delete.sends_body());
    assert!(HttpMethod::Patch.sends_body());
    assert!(!HttpMethod::Head.sends_body());
}

#[test]
fn report_options_default_shape() {
    let o = ReportOptions::default();
    assert_eq!(o.format, ReportFormat::Html);
    assert!(o.output_file.is_none());
    assert!(o.include_histograms);
    assert!(!o.include_details);
    assert!(o.output_dir.is_none());
}

#[test]
fn decimal_rendering_is_exact() {
    assert_eq!(decimal_string(0), "0");
    assert_eq!(decimal_string(7), "7");
    assert_eq!(decimal_string(10), "10");
    assert_eq!(decimal_string(204), "204");
    assert_eq!(decimal_string(18_446_744_073_709_551_615), "18446744073709551615");
}

#[test]
fn http_error_message_embeds_status_and_reason() {
    assert_eq!(
        http_error_message(404, "Not Found"),
        "HTTP Error: 404 Not Found"
    );
    assert_eq!(
        http_error_message(500, "Internal Server Error"),
        "HTTP Error: 500 Internal Server Error"
    );
}

#[test]
fn percentage_tenths_values() {
    assert_eq!(percentage_tenths(0, 0), 0);
    assert_eq!(percentage_tenths(1, 4), 250);
    assert_eq!(percentage_tenths(50, 50), 1000);
    assert_eq!(percentage_tenths(1, 3), 333);
}

#[test]
fn error_messages_name_the_fault_class() {
    assert_eq!(
        Error::Io("disk full".to_string()).message(),
        "IO error: disk full"
    );
    assert_eq!(
        Error::HttpClient("bad proxy".to_string()).message(),
        "HTTP client error: bad proxy"
    );
    assert_eq!(
        Error::Json("trailing comma".to_string()).message(),
        "JSON error: trailing comma"
    );
    assert_eq!(
        Error::DataLoad("data.json".to_string()).message(),
        "Failed to load data file: data.json"
    );
    assert_eq!(
        Error::MissingData("body".to_string()).message(),
        "Missing required data: body"
    );
    assert_eq!(Error::Other("anything".to_string()).message(), "anything");
}

#[test]
fn gui_error_messages() {
    assert_eq!(
        GuiError::InvalidMethod("FETCH".to_string()).message(),
        "Invalid HTTP method: FETCH"
    );
    assert_eq!(
        GuiError::InvalidParameter("requests".to_string()).message(),
        "Invalid parameter: requests"
    );
    assert_eq!(
        GuiError::InvalidHeader("x y".to_string()).message(),
        "Invalid header: x y"
    );
    assert_eq!(
        GuiError::Core(Error::Other("boom".to_string())).message(),
        "Core error: boom"
    );
}
