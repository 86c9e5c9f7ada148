//! Stored-query resolution, the wire parameter array, front matter
//! splitting and step-body splitting.

use cosq::num::Number;
use cosq::params::{ParamDef, ParamType, StoredQueryError};
use cosq::stored_query::{
    split_front_matter, ResolvedParams, StepDef, StoredQuery, StoredQueryMetadata, StringMap,
};
use cosq::values::{JsonValue, val_eq};

fn param(name: &str, t: ParamType) -> ParamDef {
    ParamDef {
        name: name.to_string(),
        param_type: t,
        description: None,
        default: None,
        choices: None,
        required: None,
        min: None,
        max: None,
        pattern: None,
    }
}

fn metadata(params: Vec<ParamDef>, steps: Option<Vec<StepDef>>) -> StoredQueryMetadata {
    StoredQueryMetadata {
        description: "test".to_string(),
        database: None,
        container: None,
        params,
        steps,
        template: None,
        template_file: None,
        generated_by: None,
        generated_from: None,
    }
}

fn recent_users_query() -> StoredQuery {
    let mut days = param("days", ParamType::Number);
    days.default = Some(JsonValue::Num(Number::Int(30)));
    StoredQuery::new(
        "recent-users".to_string(),
        metadata(vec![days], None),
        "SELECT c.id FROM c WHERE c.createdAt >= @days",
    )
    .unwrap()
}

#[test]
fn test_resolve_params_with_defaults() {
    let query = recent_users_query();
    let provided = StringMap::new();
    let resolved = query.resolve_params(&provided).unwrap();
    // The default is used as the typed value 30, not the string "30".
    let got = resolved.get("days").unwrap();
    assert!(val_eq(got, &JsonValue::Num(Number::Int(30))));
}

#[test]
fn test_resolve_params_with_cli_values() {
    let query = recent_users_query();
    let mut provided = StringMap::new();
    provided.insert("days".to_string(), "7".to_string());
    let resolved = query.resolve_params(&provided).unwrap();
    let got = resolved.get("days").unwrap();
    assert!(val_eq(got, &JsonValue::Num(Number::Int(7))));
}

fn orders_query() -> StoredQuery {
    let mut status = param("status", ParamType::String);
    status.choices = Some(vec![
        JsonValue::Str("pending".to_string()),
        JsonValue::Str("shipped".to_string()),
        JsonValue::Str("delivered".to_string()),
    ]);
    status.default = Some(JsonValue::Str("pending".to_string()));
    let mut limit = param("limit", ParamType::Number);
    limit.default = Some(JsonValue::Num(Number::Int(50)));
    limit.min = Some(Number::Int(1));
    limit.max = Some(Number::Int(1000));
    StoredQuery::new(
        "orders".to_string(),
        metadata(vec![status, limit], None),
        "SELECT TOP @limit * FROM c WHERE c.status = @status",
    )
    .unwrap()
}

#[test]
fn test_resolve_params_validation_range() {
    let query = orders_query();
    let mut provided = StringMap::new();
    provided.insert("status".to_string(), "pending".to_string());
    provided.insert("limit".to_string(), "5000".to_string());
    let result = query.resolve_params(&provided);
    assert!(result.is_err());
    assert!(result.unwrap_err().message().contains("exceeds maximum"));
}

#[test]
fn test_resolve_params_validation_choices() {
    let query = orders_query();
    let mut provided = StringMap::new();
    provided.insert("status".to_string(), "invalid".to_string());
    provided.insert("limit".to_string(), "10".to_string());
    let result = query.resolve_params(&provided);
    assert!(result.is_err());
    assert!(result.unwrap_err().message().contains("not one of the allowed"));
}

#[test]
fn test_param_required_without_default() {
    let query = StoredQuery::new(
        "test".to_string(),
        metadata(vec![param("id", ParamType::String)], None),
        "SELECT * FROM c WHERE c.id = @id",
    )
    .unwrap();
    assert!(query.metadata.params[0].is_required());

    let result = query.resolve_params(&StringMap::new());
    assert!(matches!(result, Err(StoredQueryError::MissingParam { .. })));
}

#[test]
fn test_param_with_pattern() {
    let mut email = param("email", ParamType::String);
    email.pattern = Some("^[^@]+@[^@]+$".to_string());
    let query = StoredQuery::new(
        "test".to_string(),
        metadata(vec![email], None),
        "SELECT * FROM c WHERE c.email = @email",
    )
    .unwrap();

    let mut provided = StringMap::new();
    provided.insert("email".to_string(), "user@example.com".to_string());
    assert!(query.resolve_params(&provided).is_ok());

    let mut bad = StringMap::new();
    bad.insert("email".to_string(), "not-an-email".to_string());
    assert!(query.resolve_params(&bad).is_err());
}

#[test]
fn test_query_no_params() {
    let query = StoredQuery::new(
        "count".to_string(),
        metadata(Vec::new(), None),
        "SELECT VALUE COUNT(1) FROM c",
    )
    .unwrap();
    assert!(query.metadata.params.is_empty());
    let resolved = query.resolve_params(&StringMap::new()).unwrap();
    assert!(resolved.is_empty());
}

#[test]
fn test_resolve_single_choice_is_used() {
    let mut region = param("region", ParamType::String);
    region.choices = Some(vec![JsonValue::Str("west".to_string())]);
    let query = StoredQuery::new(
        "test".to_string(),
        metadata(vec![region], None),
        "SELECT * FROM c WHERE c.region = @region",
    )
    .unwrap();
    let resolved = query.resolve_params(&StringMap::new()).unwrap();
    let got = resolved.get("region").unwrap();
    assert!(val_eq(got, &JsonValue::Str("west".to_string())));
}

fn obj_field<'a>(obj: &'a JsonValue, key: &str) -> &'a JsonValue {
    match obj {
        JsonValue::Obj(fields) => {
            for (k, v) in fields.iter() {
                if k == key {
                    return v;
                }
            }
            panic!("field {} missing", key);
        }
        _ => panic!("not an object"),
    }
}

#[test]
fn test_build_cosmos_params() {
    let mut resolved = ResolvedParams::new();
    resolved.insert("days".to_string(), JsonValue::Num(Number::Int(7)));
    resolved.insert("status".to_string(), JsonValue::Str("active".to_string()));

    let params = StoredQuery::build_cosmos_params(&resolved);
    assert_eq!(params.len(), 2);

    let days_param = params
        .iter()
        .find(|p| val_eq(obj_field(p, "name"), &JsonValue::Str("@days".to_string())))
        .unwrap();
    assert!(val_eq(obj_field(days_param, "value"), &JsonValue::Num(Number::Int(7))));

    let status_param = params
        .iter()
        .find(|p| val_eq(obj_field(p, "name"), &JsonValue::Str("@status".to_string())))
        .unwrap();
    assert!(val_eq(
        obj_field(status_param, "value"),
        &JsonValue::Str("active".to_string())
    ));
}

#[test]
fn test_missing_front_matter() {
    let result = split_front_matter("SELECT * FROM c");
    assert!(matches!(result, Err(StoredQueryError::MissingFrontMatter)));
}

#[test]
fn test_empty_query() {
    let (_yaml, body) = split_front_matter("---\ndescription: empty\n---\n").unwrap();
    let result = StoredQuery::new("empty".to_string(), metadata(Vec::new(), None), &body);
    assert!(matches!(result, Err(StoredQueryError::EmptyQuery)));
}

#[test]
fn test_front_matter_split() {
    let contents = "---\ndescription: d\n---\nSELECT 1";
    let (yaml, body) = split_front_matter(contents).unwrap();
    assert_eq!(yaml, "\ndescription: d");
    assert_eq!(body, "\nSELECT 1");
}

#[test]
fn test_step_queries_split() {
    let steps = vec![
        StepDef { name: "customer".to_string(), container: "customers".to_string() },
        StepDef { name: "orders".to_string(), container: "orders".to_string() },
    ];
    let body = "-- step: customer\nSELECT TOP 1 * FROM c WHERE c.name = @name\n\n\
                -- step: orders\nSELECT * FROM c WHERE c.customerId = @customer.id";
    let query = StoredQuery::new("test".to_string(), metadata(Vec::new(), Some(steps)), body)
        .unwrap();
    assert_eq!(query.step_queries.len(), 2);
    assert_eq!(
        query.step_query("customer").unwrap(),
        "SELECT TOP 1 * FROM c WHERE c.name = @name"
    );
    assert_eq!(
        query.step_query("orders").unwrap(),
        "SELECT * FROM c WHERE c.customerId = @customer.id"
    );
    assert!(query.is_multi_step());
}

#[test]
fn test_front_matter_with_leading_whitespace() {
    let contents = "\n  ---\ndescription: d\n---\nSELECT 1";
    assert!(split_front_matter(contents).is_ok());
}

#[test]
fn test_optional_param_without_source_is_skipped() {
    let mut opt = param("tag", ParamType::String);
    opt.required = Some(false);
    let query = StoredQuery::new(
        "test".to_string(),
        metadata(vec![opt], None),
        "SELECT * FROM c",
    )
    .unwrap();
    let resolved = query.resolve_params(&StringMap::new()).unwrap();
    assert!(resolved.get("tag").is_none());
    assert!(resolved.is_empty());
}
