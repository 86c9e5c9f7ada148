//! Executor fan-out, pagination, charge accounting and error mapping.

use cosq::executor::{
    extract_message, parse_request_charge, ClientError, PageResponse, QueryExecution,
};
use cosq::values::{JsonValue, val_eq};

fn page(
    status: u16,
    docs: Vec<JsonValue>,
    charge: &str,
    continuation: Option<&str>,
) -> PageResponse {
    PageResponse {
        status,
        continuation: continuation.map(|s| s.to_string()),
        charge_header: Some(charge.to_string()),
        documents: docs,
        body: String::new(),
    }
}

fn s(v: &str) -> JsonValue {
    JsonValue::Str(v.to_string())
}

#[test]
fn test_executor_fanout_order_and_charge() {
    // Range r0 returns [A] then [B] through one continuation round; r1
    // returns [C] then [D] the same way. The result keeps range order, then
    // page order, and sums all four response charges.
    let mut exec = QueryExecution::begin(vec!["r0".to_string(), "r1".to_string()]).unwrap();

    let req = exec.next_request().unwrap();
    assert_eq!(req.range_id, "r0");
    assert!(req.continuation.is_none());
    exec.on_response(page(200, vec![s("A")], "1.5", Some("t0"))).unwrap();

    let req = exec.next_request().unwrap();
    assert_eq!(req.range_id, "r0");
    assert_eq!(req.continuation.as_deref(), Some("t0"));
    exec.on_response(page(200, vec![s("B")], "1", None)).unwrap();

    let req = exec.next_request().unwrap();
    assert_eq!(req.range_id, "r1");
    assert!(req.continuation.is_none());
    exec.on_response(page(200, vec![s("C")], "2", Some("t1"))).unwrap();

    let req = exec.next_request().unwrap();
    assert_eq!(req.range_id, "r1");
    assert_eq!(req.continuation.as_deref(), Some("t1"));
    exec.on_response(page(200, vec![s("D")], "0.5", None)).unwrap();

    assert!(exec.done());
    let result = exec.finish();
    let got: Vec<String> = result
        .documents
        .iter()
        .map(|d| match d {
            JsonValue::Str(x) => x.clone(),
            _ => panic!("unexpected document"),
        })
        .collect();
    assert_eq!(got, vec!["A", "B", "C", "D"]);
    // 1.5 + 1 + 2 + 0.5 = 5 request units, in millionths.
    assert_eq!(result.request_charge, 5_000_000);
}

#[test]
fn test_empty_range_list_is_an_error() {
    let r = QueryExecution::begin(Vec::new());
    assert!(matches!(r, Err(ClientError::NoPartitionKeyRanges)));
}

#[test]
fn test_forbidden_response_maps_to_permission_error() {
    let mut exec = QueryExecution::begin(vec!["r0".to_string()]).unwrap();
    let resp = PageResponse {
        status: 403,
        continuation: None,
        charge_header: None,
        documents: Vec::new(),
        body: "{\"message\": \"blocked\"}".to_string(),
    };
    let err = exec.on_response(resp).unwrap_err();
    match err {
        ClientError::Forbidden { message, hint } => {
            assert_eq!(message, "blocked");
            assert!(hint.contains("data plane access"));
        }
        other => panic!("unexpected error: {:?}", other),
    }
}

#[test]
fn test_api_error_carries_status_and_message() {
    let mut exec = QueryExecution::begin(vec!["r0".to_string()]).unwrap();
    let resp = PageResponse {
        status: 500,
        continuation: None,
        charge_header: None,
        documents: Vec::new(),
        body: "boom".to_string(),
    };
    let err = exec.on_response(resp).unwrap_err();
    match &err {
        ClientError::Api { status, message } => {
            assert_eq!(*status, 500);
            assert_eq!(message, "boom");
        }
        other => panic!("unexpected error: {:?}", other),
    }
    assert_eq!(err.message(), "API error (500): boom");
}

#[test]
fn test_empty_continuation_token_ends_pagination() {
    let mut exec = QueryExecution::begin(vec!["r0".to_string()]).unwrap();
    exec.on_response(page(200, vec![s("A")], "1", Some(""))).unwrap();
    assert!(exec.done());
}

#[test]
fn test_extract_message_cosmos_json() {
    let body = r#"{"code":"Forbidden","message":"Request blocked by Auth mklabcosdb : Request is blocked because principal [abc-123] does not have required RBAC permissions to perform action [Microsoft.DocumentDB/databaseAccounts/readMetadata] on any scope. Learn more: https://aka.ms/cosmos-native-rbac.\r\nActivityId: c93b2c4e-faf8-4a23-848e-1f03c0e0d8a7, Microsoft.Azure.Documents.Common/2.14.0"}"#;
    let msg = extract_message(body.to_string());
    assert!(msg.starts_with("Request blocked by Auth"));
    assert!(msg.contains("readMetadata"));
    assert!(!msg.contains("ActivityId:"));
}

#[test]
fn test_extract_message_plain_text() {
    let body = "something went wrong";
    let msg = extract_message(body.to_string());
    assert_eq!(msg, "something went wrong");
}

#[test]
fn test_extract_message_json_without_message_field() {
    let body = r#"{"error": "oops"}"#;
    let msg = extract_message(body.to_string());
    assert_eq!(msg, body);
}

#[test]
fn test_extract_message_capital_message() {
    let body = r#"{"Message": "Something failed"}"#;
    let msg = extract_message(body.to_string());
    assert_eq!(msg, "Something failed");
}

#[test]
fn test_parse_request_charge() {
    assert_eq!(parse_request_charge("2.29"), 2_290_000);
    assert_eq!(parse_request_charge("12"), 12_000_000);
    assert_eq!(parse_request_charge("0"), 0);
    assert_eq!(parse_request_charge(""), 0);
    assert_eq!(parse_request_charge("garbage"), 0);
    assert_eq!(parse_request_charge("0.0000015"), 1);
}

#[test]
fn test_documents_pass_through_unchanged() {
    let mut exec = QueryExecution::begin(vec!["r0".to_string()]).unwrap();
    let d = JsonValue::Obj(vec![(
        "id".to_string(),
        JsonValue::Str("1".to_string()),
    )]);
    exec.on_response(page(200, vec![d], "0", None)).unwrap();
    let result = exec.finish();
    assert!(val_eq(
        &result.documents[0],
        &JsonValue::Obj(vec![("id".to_string(), JsonValue::Str("1".to_string()))])
    ));
}
