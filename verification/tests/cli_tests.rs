//! Command-line parameter pairs, CSV escaping, the banner, and the
//! certificate-failure message heuristics.

use cosq::banner::LOGO;
use cosq::cli::parse_cli_params;
use cosq::output::csv_escape;

#[test]
fn test_parse_cli_params() {
    let params = vec![
        "--days".to_string(),
        "7".to_string(),
        "--status".to_string(),
        "active".to_string(),
    ];
    let parsed = parse_cli_params(&params).unwrap();
    assert_eq!(parsed.get("days"), Some(&"7".to_string()));
    assert_eq!(parsed.get("status"), Some(&"active".to_string()));
}

#[test]
fn test_parse_cli_params_empty() {
    let parsed = parse_cli_params(&Vec::new()).unwrap();
    assert!(parsed.is_empty());
}

#[test]
fn test_parse_cli_params_missing_value() {
    let params = vec!["--days".to_string()];
    let result = parse_cli_params(&params);
    assert!(result.is_err());
}

#[test]
fn test_parse_cli_params_bad_format() {
    let params = vec!["days".to_string(), "7".to_string()];
    let result = parse_cli_params(&params);
    assert!(result.is_err());
}

#[test]
fn test_parse_cli_params_later_pair_overrides() {
    let params = vec![
        "--days".to_string(),
        "7".to_string(),
        "--days".to_string(),
        "9".to_string(),
    ];
    let parsed = parse_cli_params(&params).unwrap();
    assert_eq!(parsed.get("days"), Some(&"9".to_string()));
}

#[test]
fn test_csv_escape() {
    assert_eq!(csv_escape("hello"), "hello");
    assert_eq!(csv_escape("a,b"), "\"a,b\"");
    assert_eq!(csv_escape("say \"hi\""), "\"say \"\"hi\"\"\"");
    assert_eq!(csv_escape("line\nbreak"), "\"line\nbreak\"");
}

#[test]
fn test_logo_is_not_empty() {
    assert!(!LOGO.is_empty());
}

#[test]
fn test_logo_has_six_lines() {
    let lines: Vec<&str> = LOGO.lines().filter(|l| !l.is_empty()).collect();
    assert_eq!(lines.len(), 6, "Logo should have 6 lines of block letters");
}

#[test]
fn test_has_certificate_error_detection() {
    let check =
        |msg: &str| -> bool { msg.contains("certificate") || msg.contains("UnknownIssuer") };
    assert!(check("invalid peer certificate: UnknownIssuer"));
    assert!(check("certificate verify failed"));
    assert!(check("self signed certificate in certificate chain"));
    assert!(!check("connection refused"));
    assert!(!check("timeout"));
}

#[test]
fn test_format_request_error_cert_message() {
    // Verify the TLS diagnostic message contains key guidance
    let msg = format!(
        "TLS certificate verification failed\n\n\
         The remote server's certificate was not trusted. This typically happens on\n\
         corporate networks that use TLS inspection with a custom CA certificate."
    );
    assert!(msg.contains("TLS certificate verification failed"));
    assert!(msg.contains("corporate networks"));
}
