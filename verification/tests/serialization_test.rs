use mcai_worker_sdk::job::{ParamValue, Parameter, ParameterKind};
use mcai_worker_sdk::result::{JobResult, JobStatus};
use mcai_worker_sdk::ser::runtime_error_json;
use mcai_worker_sdk::MessageError;

#[test]
fn test_job_result_to_json_exact() {
    let job_result = JobResult::new(123).with_status(JobStatus::Completed);
    assert_eq!(
        job_result.to_json(),
        r#"{"job_id":123,"status":"completed","parameters":[]}"#
    );
}

#[test]
fn test_job_result_to_json_with_parameters() {
    let job_result = JobResult::new(7)
        .with_status(JobStatus::Error)
        .with_message("boom".to_string());
    assert_eq!(
        job_result.to_json(),
        r#"{"job_id":7,"status":"error","parameters":[{"id":"message","type":"string","value":"boom"}]}"#
    );
}

#[test]
fn test_runtime_error_json_exact() {
    assert_eq!(
        runtime_error_json("something failed"),
        r#"{"status":"error","message":"something failed"}"#
    );
}

#[test]
fn test_result_round_trip_identity() {
    let parameters = vec![
        Parameter {
            id: "message".to_string(),
            kind: ParameterKind::Str,
            required: false,
            default: None,
            value: Some(ParamValue::VStr("done".to_string())),
        },
        Parameter {
            id: "count".to_string(),
            kind: ParameterKind::Int,
            required: true,
            default: Some(ParamValue::VInt(-4)),
            value: Some(ParamValue::VInt(12)),
        },
        Parameter {
            id: "flag".to_string(),
            kind: ParameterKind::Bool,
            required: false,
            default: None,
            value: Some(ParamValue::VBool(true)),
        },
        Parameter {
            id: "outputs".to_string(),
            kind: ParameterKind::ArrayOfStrings,
            required: false,
            default: None,
            value: Some(ParamValue::VArr(vec![
                "a.mxf".to_string(),
                "b.mxf".to_string(),
            ])),
        },
        Parameter {
            id: "needs".to_string(),
            kind: ParameterKind::Requirements,
            required: false,
            default: None,
            value: Some(ParamValue::VPaths(vec!["/tmp/in".to_string()])),
        },
    ];
    let job_result = JobResult::new(99)
        .with_status(JobStatus::Completed)
        .with_parameters(parameters);

    let text = job_result.to_json();
    let parsed = JobResult::from_json(&text).unwrap();
    assert_eq!(parsed.job_id, job_result.job_id);
    assert_eq!(parsed.get_status(), job_result.get_status());
    assert_eq!(parsed.parameters, job_result.parameters);
}

#[test]
fn test_result_round_trip_empty() {
    let job_result = JobResult::new(0).with_status(JobStatus::Error);
    let parsed = JobResult::from_json(&job_result.to_json()).unwrap();
    assert_eq!(parsed, job_result);
}

#[test]
fn test_from_json_rejects_garbage() {
    assert!(matches!(
        JobResult::from_json("not json").unwrap_err(),
        MessageError::RuntimeError(_)
    ));
    assert!(matches!(
        JobResult::from_json("{}").unwrap_err(),
        MessageError::RuntimeError(_)
    ));
}

#[test]
fn test_destination_paths_derivation() {
    let parameters = vec![
        Parameter {
            id: "destination_path".to_string(),
            kind: ParameterKind::Str,
            required: false,
            default: None,
            value: Some(ParamValue::VStr("/out/one.mxf".to_string())),
        },
        Parameter {
            id: "destination_paths".to_string(),
            kind: ParameterKind::ArrayOfStrings,
            required: false,
            default: None,
            value: Some(ParamValue::VArr(vec![
                "/out/two.mxf".to_string(),
                "/out/three.mxf".to_string(),
            ])),
        },
    ];
    let job_result = JobResult::new(5)
        .with_status(JobStatus::Completed)
        .with_parameters(parameters);
    assert_eq!(
        job_result.get_destination_paths(),
        vec![
            "/out/one.mxf".to_string(),
            "/out/two.mxf".to_string(),
            "/out/three.mxf".to_string()
        ]
    );
}

#[test]
fn test_with_parameters_merges_later_wins() {
    let first = Parameter {
        id: "x".to_string(),
        kind: ParameterKind::Str,
        required: false,
        default: None,
        value: Some(ParamValue::VStr("old".to_string())),
    };
    let second = Parameter {
        id: "x".to_string(),
        kind: ParameterKind::Str,
        required: false,
        default: None,
        value: Some(ParamValue::VStr("new".to_string())),
    };
    let job_result = JobResult::new(1)
        .with_status(JobStatus::Completed)
        .with_parameters(vec![first])
        .with_parameters(vec![second.clone()]);
    assert_eq!(job_result.parameters, vec![second]);
}
