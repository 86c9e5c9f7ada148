//! Pipeline planning and cross-step parameter binding.

use cosq::executor::QueryResult;
use cosq::graph::PlanError;
use cosq::num::Number;
use cosq::pipeline::{build_step_params, Pipeline, PipelineError, StepResults};
use cosq::stored_query::{ResolvedParams, StepDef, StoredQuery, StoredQueryMetadata};
use cosq::params::{ParamDef, ParamType};
use cosq::values::{JsonValue, val_eq};

fn metadata(params: Vec<ParamDef>, steps: Vec<StepDef>) -> StoredQueryMetadata {
    StoredQueryMetadata {
        description: "test".to_string(),
        database: None,
        container: None,
        params,
        steps: Some(steps),
        template: None,
        template_file: None,
        generated_by: None,
        generated_from: None,
    }
}

fn step(name: &str, container: &str) -> StepDef {
    StepDef { name: name.to_string(), container: container.to_string() }
}

fn param(name: &str, t: ParamType) -> ParamDef {
    ParamDef {
        name: name.to_string(),
        param_type: t,
        description: None,
        default: None,
        choices: None,
        required: None,
        min: None,
        max: None,
        pattern: None,
    }
}

fn obj_field<'a>(obj: &'a JsonValue, key: &str) -> &'a JsonValue {
    match obj {
        JsonValue::Obj(fields) => {
            for (k, v) in fields.iter() {
                if k == key {
                    return v;
                }
            }
            panic!("field {} missing", key);
        }
        _ => panic!("not an object"),
    }
}

fn doc(fields: Vec<(&str, JsonValue)>) -> JsonValue {
    JsonValue::Obj(fields.into_iter().map(|(k, v)| (k.to_string(), v)).collect())
}

#[test]
fn test_build_step_params_regular_only() {
    let query = StoredQuery::new(
        "test".to_string(),
        metadata(vec![param("orderId", ParamType::String)], vec![step("header", "orders")]),
        "-- step: header\nSELECT * FROM c WHERE c.orderId = @orderId",
    )
    .unwrap();
    let mut params = ResolvedParams::new();
    params.insert("orderId".to_string(), JsonValue::Str("123".to_string()));
    let step_results = StepResults::new();

    let names: Vec<String> = vec!["header".to_string()];
    let sql = query.step_query("header").unwrap().clone();
    let cosmos_params = build_step_params(&sql, &names, &params, &step_results).unwrap();
    assert_eq!(cosmos_params.len(), 1);
    assert!(val_eq(
        obj_field(&cosmos_params[0], "name"),
        &JsonValue::Str("@orderId".to_string())
    ));
    assert!(val_eq(
        obj_field(&cosmos_params[0], "value"),
        &JsonValue::Str("123".to_string())
    ));
}

#[test]
fn test_build_step_params_with_step_ref() {
    let query = StoredQuery::new(
        "test".to_string(),
        metadata(
            vec![param("name", ParamType::String)],
            vec![step("customer", "customers"), step("orders", "orders")],
        ),
        "-- step: customer\nSELECT TOP 1 * FROM c WHERE c.name = @name\n\n\
         -- step: orders\nSELECT * FROM c WHERE c.customerId = @customer.id",
    )
    .unwrap();
    let mut params = ResolvedParams::new();
    params.insert("name".to_string(), JsonValue::Str("Alice".to_string()));

    let mut step_results = StepResults::new();
    step_results.insert(
        "customer".to_string(),
        vec![doc(vec![
            ("id", JsonValue::Str("cust-42".to_string())),
            ("name", JsonValue::Str("Alice".to_string())),
        ])],
    );

    let names: Vec<String> = vec!["customer".to_string(), "orders".to_string()];
    let sql = query.step_query("orders").unwrap().clone();
    let cosmos_params = build_step_params(&sql, &names, &params, &step_results).unwrap();

    // Both @name and @customer.id are bound.
    assert_eq!(cosmos_params.len(), 2);
    let step_param = cosmos_params
        .iter()
        .find(|p| val_eq(obj_field(p, "name"), &JsonValue::Str("@customer.id".to_string())))
        .unwrap();
    assert!(val_eq(
        obj_field(step_param, "value"),
        &JsonValue::Str("cust-42".to_string())
    ));
}

#[test]
fn test_build_step_params_empty_result_error() {
    let mut step_results = StepResults::new();
    step_results.insert("customer".to_string(), Vec::new());
    let names: Vec<String> = vec!["customer".to_string(), "orders".to_string()];
    let params = ResolvedParams::new();

    let result = build_step_params(
        "SELECT * FROM c WHERE c.customerId = @customer.id",
        &names,
        &params,
        &step_results,
    );
    match &result {
        Err(e @ PipelineError::StepHasNoRows { step, field }) => {
            assert_eq!(step, "customer");
            assert_eq!(field, "id");
            let msg = e.message();
            assert!(msg.contains("no results"));
            assert!(msg.contains("customer"));
            assert!(msg.contains("id"));
        }
        other => panic!("unexpected result: {:?}", other),
    }
}

#[test]
fn test_build_step_params_field_not_found_lists_available() {
    let mut step_results = StepResults::new();
    step_results.insert(
        "customer".to_string(),
        vec![doc(vec![
            ("id", JsonValue::Str("c1".to_string())),
            ("name", JsonValue::Str("Alice".to_string())),
        ])],
    );
    let names: Vec<String> = vec!["customer".to_string()];
    let params = ResolvedParams::new();

    let result = build_step_params(
        "SELECT * FROM c WHERE c.x = @customer.missing",
        &names,
        &params,
        &step_results,
    );
    match result {
        Err(PipelineError::FieldNotFound { step, field, available }) => {
            assert_eq!(step, "customer");
            assert_eq!(field, "missing");
            assert_eq!(available, "id, name");
        }
        other => panic!("unexpected result: {:?}", other),
    }
}

#[test]
fn test_parameter_prefix_is_not_a_step_reference() {
    // @customerName shares a prefix with the step name `customer` but is an
    // ordinary parameter, so nothing is bound for it.
    let step_results = StepResults::new();
    let names: Vec<String> = vec!["customer".to_string()];
    let params = ResolvedParams::new();
    let out = build_step_params(
        "SELECT * FROM c WHERE c.n = @customerName",
        &names,
        &params,
        &step_results,
    )
    .unwrap();
    assert!(out.is_empty());
}

fn four_step_query() -> StoredQuery {
    // B depends on A, C depends on B, D is independent.
    StoredQuery::new(
        "graph".to_string(),
        metadata(
            Vec::new(),
            vec![
                step("A", "c1"),
                step("B", "c2"),
                step("C", "c3"),
                step("D", "c4"),
            ],
        ),
        "-- step: A\nSELECT * FROM c\n\n\
         -- step: B\nSELECT * FROM c WHERE c.a = @A.id\n\n\
         -- step: C\nSELECT * FROM c WHERE c.b = @B.id\n\n\
         -- step: D\nSELECT * FROM c",
    )
    .unwrap()
}

#[test]
fn test_execution_order_layers() {
    let query = four_step_query();
    let layers = query.execution_order().unwrap();
    assert_eq!(
        layers,
        vec![
            vec!["A".to_string(), "D".to_string()],
            vec!["B".to_string()],
            vec!["C".to_string()],
        ]
    );
}

#[test]
fn test_cycle_fails_before_any_execution() {
    let query = StoredQuery::new(
        "cyclic".to_string(),
        metadata(Vec::new(), vec![step("A", "c1"), step("B", "c2")]),
        "-- step: A\nSELECT * FROM c WHERE c.b = @B.id\n\n\
         -- step: B\nSELECT * FROM c WHERE c.a = @A.id",
    )
    .unwrap();
    // Planning fails; no pipeline exists, so no step could ever run.
    let planned = Pipeline::plan(&query);
    match planned {
        Err(PipelineError::Plan(PlanError::CyclicDependency { steps })) => {
            let mut names = steps.clone();
            names.sort();
            assert_eq!(names, vec!["A".to_string(), "B".to_string()]);
        }
        other => panic!("unexpected plan result: {:?}", other),
    }
}

#[test]
fn test_pipeline_layer_walk_and_merge() {
    let query = four_step_query();
    let mut pipeline = Pipeline::plan(&query).unwrap();
    assert!(!pipeline.is_done());
    let first: Vec<String> = pipeline.current_layer().unwrap().clone();
    assert_eq!(first, vec!["A".to_string(), "D".to_string()]);

    pipeline.complete_layer(vec![
        (
            "A".to_string(),
            QueryResult {
                documents: vec![doc(vec![("id", JsonValue::Str("a1".to_string()))])],
                request_charge: 2_500_000,
            },
        ),
        (
            "D".to_string(),
            QueryResult { documents: Vec::new(), request_charge: 1_000_000 },
        ),
    ]);
    assert_eq!(pipeline.current_layer().unwrap(), &vec!["B".to_string()]);
    pipeline.complete_layer(vec![(
        "B".to_string(),
        QueryResult { documents: Vec::new(), request_charge: 500_000 },
    )]);
    pipeline.complete_layer(vec![(
        "C".to_string(),
        QueryResult { documents: Vec::new(), request_charge: 0 },
    )]);
    assert!(pipeline.is_done());
    let result = pipeline.finish();
    assert_eq!(result.total_charge, 4_000_000);
    let a_docs = result.step_results.get("A").unwrap();
    assert_eq!(a_docs.len(), 1);
}
