use factor_bench::emf::{
    emf_line, emf_value, run_dimensions, run_metrics, Dimension, Metric, RunValues, NAMESPACE,
};
use serde_json::Value;

fn metric(name: &str, value: Value, unit: &str) -> Metric {
    Metric { name: name.to_string(), value, unit: unit.to_string() }
}

fn dimension(name: &str, value: &str) -> Dimension {
    Dimension { name: name.to_string(), value: value.to_string() }
}

#[test]
fn line_of_one_metric() {
    let line = emf_line(
        "Space",
        &vec![dimension("FunctionName", "f\"1")],
        vec![metric("Time", Value::from(1.5f64), "Milliseconds")],
        1_700_000_000_123,
    );
    assert_eq!(
        line,
        "{\"FunctionName\":\"f\\\"1\",\"Time\":1.5,\"_aws\":{\"CloudWatchMetrics\":[{\
         \"Dimensions\":[[\"FunctionName\"]],\"Metrics\":[{\"Name\":\"Time\",\
         \"Unit\":\"Milliseconds\"}],\"Namespace\":\"Space\"}],\"Timestamp\":1700000000123}}"
    );
}

#[test]
fn value_of_a_run() {
    let values = RunValues {
        total_time_ms: Value::from(6_317.84f64),
        total_factorizations: Value::from(3_134.0f64),
        avg_factorization_us: Value::from(1.0f64),
        p95_factorization_us: Value::from(2.0f64),
        single_thread_throughput: Value::from(344.09f64),
        avg_hard_factorization_us: Value::from(2_906.22f64),
    };
    let v = emf_value(NAMESPACE, &run_dimensions("bench"), run_metrics(values), 7);
    assert_eq!(v["FunctionName"], "bench");
    assert_eq!(v["TotalTimeMs"], 6_317.84f64);
    assert_eq!(v["TotalFactorizations"], 3_134.0f64);
    assert_eq!(v["AvgFactorizationUs"], 1.0f64);
    assert_eq!(v["P95FactorizationUs"], 2.0f64);
    assert_eq!(v["SingleThreadThroughput"], 344.09f64);
    assert_eq!(v["AvgHardFactorizationUs"], 2_906.22f64);
    assert_eq!(v["_aws"]["Timestamp"], 7);
    let directive = &v["_aws"]["CloudWatchMetrics"][0];
    assert_eq!(directive["Namespace"], "CpuOptimizedBenchmark");
    assert_eq!(directive["Dimensions"][0][0], "FunctionName");
    let units: Vec<(String, String)> = directive["Metrics"]
        .as_array()
        .unwrap()
        .iter()
        .map(|m| {
            (m["Name"].as_str().unwrap().to_string(), m["Unit"].as_str().unwrap().to_string())
        })
        .collect();
    let expected = [
        ("TotalTimeMs", "Milliseconds"),
        ("TotalFactorizations", "Count"),
        ("AvgFactorizationUs", "Microseconds"),
        ("P95FactorizationUs", "Microseconds"),
        ("SingleThreadThroughput", "Count/Second"),
        ("AvgHardFactorizationUs", "Microseconds"),
    ];
    assert_eq!(units.len(), expected.len());
    for (unit, want) in units.iter().zip(expected) {
        assert_eq!((unit.0.as_str(), unit.1.as_str()), want);
    }
    assert_eq!(v.as_object().unwrap().len(), 8);
}

#[test]
fn later_members_replace_earlier_ones() {
    let v = emf_value(
        "n",
        &vec![dimension("a", "first"), dimension("a", "second"), dimension("b", "kept")],
        vec![
            metric("m", Value::from(1u64), "None"),
            metric("a", Value::from(2u64), "None"),
            metric("m", Value::from(3u64), "None"),
        ],
        0,
    );
    assert_eq!(v["a"], 2);
    assert_eq!(v["b"], "kept");
    assert_eq!(v["m"], 3);
    // The directive still lists every dimension and every metric.
    let directive = &v["_aws"]["CloudWatchMetrics"][0];
    assert_eq!(directive["Dimensions"][0].as_array().unwrap().len(), 3);
    assert_eq!(directive["Metrics"].as_array().unwrap().len(), 3);
}

#[test]
fn a_metric_can_hide_the_directive() {
    let v = emf_value("n", &vec![], vec![metric("_aws", Value::Null, "None")], 0);
    assert_eq!(v["_aws"], Value::Null);
    assert_eq!(v.as_object().unwrap().len(), 1);
}

#[test]
fn line_without_dimensions_and_metrics() {
    let line = emf_line("n", &vec![], vec![], 5);
    assert_eq!(
        line,
        "{\"_aws\":{\"CloudWatchMetrics\":[{\"Dimensions\":[[]],\"Metrics\":[],\
         \"Namespace\":\"n\"}],\"Timestamp\":5}}"
    );
}
