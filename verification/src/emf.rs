//! The embedded metric format: a JSON object that carries metric values next to
//! the directive that tells a log reader what they are.

use serde_json::{Map as JsonMap, Value};
use vstd::prelude::*;
use vstd::string::*;

verus! {

/// The data of a JSON value.
pub enum Json {
    /// A string.
    Text(Seq<char>),
    /// A natural number.
    Count(nat),
    /// An array.
    List(Seq<Json>),
    /// An object, by its keys.
    Object(Map<Seq<char>, Json>),
    /// Any other number, a boolean or null, by its text.
    Atom(Seq<char>),
}

/// `serde_json::Value`, whose data `json_of` names.
#[verifier::external_type_specification]
#[verifier::external_body]
pub struct ExValue(serde_json::Value);

/// `serde_json::Map`, whose members `members_of` names.
#[verifier::external_type_specification]
#[verifier::external_body]
#[verifier::reject_recursive_types(K)]
#[verifier::reject_recursive_types(V)]
pub struct ExJsonMap<K, V>(serde_json::Map<K, V>);

/// What a JSON value holds.
pub uninterp spec fn json_of(v: Value) -> Json;

/// What the members of a JSON object hold.
pub uninterp spec fn members_of(m: JsonMap<String, Value>) -> Map<Seq<char>, Json>;

/// The text that `serde_json::to_string` writes for a value.
pub uninterp spec fn json_text(j: Json) -> Seq<char>;

/// The members of an empty object.
pub open spec fn no_members() -> Map<Seq<char>, Json> {
    Map::empty()
}

/// An object without members: `serde_json::Map::new`.
#[verifier::external_body]
fn new_object() -> (m: JsonMap<String, Value>)
    ensures
        members_of(m) == no_members(),
{
    JsonMap::new()
}

/// `serde_json::Map::insert`: sets the member of this key, which is replaced if
/// the object has one already.
#[verifier::external_body]
fn insert_member(m: &mut JsonMap<String, Value>, key: &str, value: Value)
    ensures
        members_of(*final(m)) == members_of(*old(m)).insert(key@, json_of(value)),
{
    m.insert(key.to_string(), value);
}

/// A JSON string: `serde_json::Value::from` on a string.
#[verifier::external_body]
fn text_value(s: &str) -> (v: Value)
    ensures
        json_of(v) == Json::Text(s@),
{
    Value::from(s)
}

/// A JSON number: `serde_json::Value::from` on an integer.
#[verifier::external_body]
fn count_value(n: u64) -> (v: Value)
    ensures
        json_of(v) == Json::Count(n as nat),
{
    Value::from(n)
}

/// A JSON array: `serde_json::Value::from` on a vector, which keeps the items
/// and their order.
#[verifier::external_body]
fn list_value(items: Vec<Value>) -> (v: Value)
    ensures
        json_of(v) == Json::List(items@.map_values(|x: Value| json_of(x))),
{
    Value::from(items)
}

/// A JSON object: `serde_json::Value::from` on a map, which keeps the members.
#[verifier::external_body]
fn object_value(m: JsonMap<String, Value>) -> (v: Value)
    ensures
        json_of(v) == Json::Object(members_of(m)),
{
    Value::from(m)
}

/// `serde_json::to_string` on a value, whose text is named and which does not
/// fail: keys are strings, and writing to memory does not fail. An object is
/// written in the order of its keys, so the text depends on the data alone: the
/// map is a `BTreeMap` as long as the feature `preserve_order` is off.
#[verifier::external_body]
fn value_text(v: &Value) -> (s: Option<String>)
    ensures
        s is Some,
        s->0@ == json_text(json_of(*v)),
{
    serde_json::to_string(v).ok()
}

/// A dimension under which the metrics are filed.
pub struct Dimension {
    pub name: String,
    pub value: String,
}

/// A metric: its name, its value and the unit of the value.
pub struct Metric {
    pub name: String,
    pub value: Value,
    pub unit: String,
}

/// The names of the dimensions.
pub open spec fn dimension_names(dimensions: Seq<Dimension>) -> Json {
    Json::List(dimensions.map_values(|d: Dimension| Json::Text(d.name@)))
}

/// The definition of one metric in the directive.
pub open spec fn metric_definition(name: Seq<char>, unit: Seq<char>) -> Json {
    Json::Object(no_members().insert("Name"@, Json::Text(name)).insert("Unit"@, Json::Text(unit)))
}

/// The definitions of the metrics, in their order.
pub open spec fn metric_definitions(metrics: Seq<Metric>) -> Json {
    Json::List(metrics.map_values(|m: Metric| metric_definition(m.name@, m.unit@)))
}

/// The directive: one set of dimensions and the definitions of the metrics,
/// under a namespace and with the time in milliseconds.
pub open spec fn directive(
    namespace: Seq<char>,
    dimensions: Seq<Dimension>,
    metrics: Seq<Metric>,
    timestamp: nat,
) -> Json {
    let entry = no_members().insert("Namespace"@, Json::Text(namespace)).insert(
        "Dimensions"@,
        Json::List(seq![dimension_names(dimensions)]),
    ).insert("Metrics"@, metric_definitions(metrics));
    Json::Object(
        no_members().insert("Timestamp"@, Json::Count(timestamp)).insert(
            "CloudWatchMetrics"@,
            Json::List(seq![Json::Object(entry)]),
        ),
    )
}

/// Members with those of the dimensions added: of equal names the last one counts.
pub open spec fn with_dimensions(
    base: Map<Seq<char>, Json>,
    dimensions: Seq<Dimension>,
) -> Map<Seq<char>, Json>
    decreases dimensions.len(),
{
    if dimensions.len() == 0 {
        base
    } else {
        let d = dimensions.last();
        with_dimensions(base, dimensions.drop_last()).insert(d.name@, Json::Text(d.value@))
    }
}

/// Members with those of the metrics added: of equal names the last one counts.
pub open spec fn with_metrics(
    base: Map<Seq<char>, Json>,
    metrics: Seq<Metric>,
) -> Map<Seq<char>, Json>
    decreases metrics.len(),
{
    if metrics.len() == 0 {
        base
    } else {
        let m = metrics.last();
        with_metrics(base, metrics.drop_last()).insert(m.name@, json_of(m.value))
    }
}

/// The members of the whole object: the directive under `_aws`, then the
/// dimensions, then the metrics.
pub open spec fn emf_members(
    namespace: Seq<char>,
    dimensions: Seq<Dimension>,
    metrics: Seq<Metric>,
    timestamp: nat,
) -> Map<Seq<char>, Json> {
    let start = no_members().insert(
        "_aws"@,
        directive(namespace, dimensions, metrics, timestamp),
    );
    with_metrics(with_dimensions(start, dimensions), metrics)
}

/// The directive, made of the names and units.
fn directive_value(
    namespace: &str,
    dimensions: &Vec<Dimension>,
    metrics: &Vec<Metric>,
    timestamp: u64,
) -> (v: Value)
    ensures
        json_of(v) == directive(namespace@, dimensions@, metrics@, timestamp as nat),
{
    let mut names: Vec<Value> = Vec::new();
    let mut i: usize = 0;
    while i < dimensions.len()
        invariant
            i <= dimensions@.len(),
            names@.len() == i,
            forall|j: int|
                0 <= j < i ==> json_of(#[trigger] names@[j]) == Json::Text(dimensions@[j].name@),
        decreases dimensions@.len() - i,
    {
        names.push(text_value(dimensions[i].name.as_str()));
        i = i + 1;
    }
    assert(names@.map_values(|x: Value| json_of(x)) =~= dimensions@.map_values(
        |d: Dimension| Json::Text(d.name@),
    ));

    let mut definitions: Vec<Value> = Vec::new();
    let mut k: usize = 0;
    while k < metrics.len()
        invariant
            k <= metrics@.len(),
            definitions@.len() == k,
            forall|j: int|
                0 <= j < k ==> json_of(#[trigger] definitions@[j]) == metric_definition(
                    metrics@[j].name@,
                    metrics@[j].unit@,
                ),
        decreases metrics@.len() - k,
    {
        let mut definition = new_object();
        insert_member(&mut definition, "Name", text_value(metrics[k].name.as_str()));
        insert_member(&mut definition, "Unit", text_value(metrics[k].unit.as_str()));
        definitions.push(object_value(definition));
        k = k + 1;
    }
    assert(definitions@.map_values(|x: Value| json_of(x)) =~= metrics@.map_values(
        |m: Metric| metric_definition(m.name@, m.unit@),
    ));

    let names_value = list_value(names);
    let sets: Vec<Value> = vec![names_value];
    assert(sets@.map_values(|x: Value| json_of(x)) =~= seq![dimension_names(dimensions@)]);
    let mut entry = new_object();
    insert_member(&mut entry, "Namespace", text_value(namespace));
    insert_member(&mut entry, "Dimensions", list_value(sets));
    insert_member(&mut entry, "Metrics", list_value(definitions));
    let entry_value = object_value(entry);
    let entries: Vec<Value> = vec![entry_value];
    assert(entries@.map_values(|x: Value| json_of(x)) =~= seq![json_of(entry_value)]);
    let mut whole = new_object();
    insert_member(&mut whole, "Timestamp", count_value(timestamp));
    insert_member(&mut whole, "CloudWatchMetrics", list_value(entries));
    object_value(whole)
}

/// The object that carries the metrics: the directive, the dimensions and the
/// metric values, side by side.
pub fn emf_value(
    namespace: &str,
    dimensions: &Vec<Dimension>,
    metrics: Vec<Metric>,
    timestamp: u64,
) -> (v: Value)
    ensures
        json_of(v) == Json::Object(
            emf_members(namespace@, dimensions@, metrics@, timestamp as nat),
        ),
{
    let mut blob = new_object();
    insert_member(
        &mut blob,
        "_aws",
        directive_value(namespace, dimensions, &metrics, timestamp),
    );
    let ghost start = members_of(blob);
    let mut i: usize = 0;
    assert(dimensions@.take(0).len() == 0);
    while i < dimensions.len()
        invariant
            i <= dimensions@.len(),
            members_of(blob) == with_dimensions(start, dimensions@.take(i as int)),
        decreases dimensions@.len() - i,
    {
        assert(dimensions@.take(i + 1).drop_last() =~= dimensions@.take(i as int));
        insert_member(
            &mut blob,
            dimensions[i].name.as_str(),
            text_value(dimensions[i].value.as_str()),
        );
        i = i + 1;
    }
    assert(dimensions@.take(i as int) =~= dimensions@);
    let ghost filed = members_of(blob);
    let ghost all = metrics@;
    let mut rest: Vec<Metric> = metrics;
    let mut done: Ghost<int> = Ghost(0);
    assert(all.take(0).len() == 0);
    assert(all.skip(0) =~= all);
    while rest.len() > 0
        invariant
            0 <= done@ <= all.len(),
            rest@ == all.skip(done@),
            members_of(blob) == with_metrics(filed, all.take(done@)),
        decreases rest@.len(),
    {
        let metric = rest.remove(0);
        assert(metric == all[done@]);
        assert(all.take(done@ + 1).drop_last() =~= all.take(done@));
        assert(rest@ =~= all.skip(done@ + 1));
        insert_member(&mut blob, metric.name.as_str(), metric.value);
        done = Ghost(done@ + 1);
    }
    assert(all.take(done@) =~= all);
    object_value(blob)
}

/// The line of log that carries the metrics.
pub fn emf_line(
    namespace: &str,
    dimensions: &Vec<Dimension>,
    metrics: Vec<Metric>,
    timestamp: u64,
) -> (line: String)
    ensures
        line@ == json_text(
            Json::Object(emf_members(namespace@, dimensions@, metrics@, timestamp as nat)),
        ),
{
    let v = emf_value(namespace, dimensions, metrics, timestamp);
    match value_text(&v) {
        Some(line) => line,
        None => String::new(),
    }
}

/// The namespace of the metrics of a run.
pub const NAMESPACE: &'static str = "CpuOptimizedBenchmark";

/// The values of the metrics of a run.
pub struct RunValues {
    pub total_time_ms: Value,
    pub total_factorizations: Value,
    pub avg_factorization_us: Value,
    pub p95_factorization_us: Value,
    pub single_thread_throughput: Value,
    pub avg_hard_factorization_us: Value,
}

impl Metric {
    /// The metric has this name, this value and this unit.
    pub open spec fn equals(&self, name: Seq<char>, value: Value, unit: Seq<char>) -> bool {
        self.name@ == name && self.value == value && self.unit@ == unit
    }
}

fn metric(name: &str, value: Value, unit: &str) -> (m: Metric)
    ensures
        m.equals(name@, value, unit@),
{
    Metric { name: String::from_str(name), value, unit: String::from_str(unit) }
}

/// The metrics of a run, with their units.
pub open spec fn are_run_metrics(metrics: Seq<Metric>, values: RunValues) -> bool {
    &&& metrics.len() == 6
    &&& metrics[0].equals("TotalTimeMs"@, values.total_time_ms, "Milliseconds"@)
    &&& metrics[1].equals("TotalFactorizations"@, values.total_factorizations, "Count"@)
    &&& metrics[2].equals("AvgFactorizationUs"@, values.avg_factorization_us, "Microseconds"@)
    &&& metrics[3].equals("P95FactorizationUs"@, values.p95_factorization_us, "Microseconds"@)
    &&& metrics[4].equals(
        "SingleThreadThroughput"@,
        values.single_thread_throughput,
        "Count/Second"@,
    )
    &&& metrics[5].equals(
        "AvgHardFactorizationUs"@,
        values.avg_hard_factorization_us,
        "Microseconds"@,
    )
}

/// The metrics of a run, with their units.
pub fn run_metrics(values: RunValues) -> (metrics: Vec<Metric>)
    ensures
        are_run_metrics(metrics@, values),
{
    vec![
        metric("TotalTimeMs", values.total_time_ms, "Milliseconds"),
        metric("TotalFactorizations", values.total_factorizations, "Count"),
        metric("AvgFactorizationUs", values.avg_factorization_us, "Microseconds"),
        metric("P95FactorizationUs", values.p95_factorization_us, "Microseconds"),
        metric("SingleThreadThroughput", values.single_thread_throughput, "Count/Second"),
        metric("AvgHardFactorizationUs", values.avg_hard_factorization_us, "Microseconds"),
    ]
}

/// The dimensions of a run: the name of the function.
pub open spec fn are_run_dimensions(dimensions: Seq<Dimension>, name: Seq<char>) -> bool {
    &&& dimensions.len() == 1
    &&& dimensions[0].name@ == "FunctionName"@
    &&& dimensions[0].value@ == name
}

/// The dimensions of a run: the name of the function.
pub fn run_dimensions(function_name: &str) -> (dimensions: Vec<Dimension>)
    ensures
        are_run_dimensions(dimensions@, function_name@),
{
    vec![
        Dimension {
            name: String::from_str("FunctionName"),
            value: String::from_str(function_name),
        },
    ]
}

/// Law: the object of a run carries each of its metrics, the name of the function
/// and the directive.
pub proof fn law_run_is_complete(
    dimensions: Seq<Dimension>,
    metrics: Seq<Metric>,
    values: RunValues,
    name: Seq<char>,
    timestamp: nat,
)
    requires
        are_run_metrics(metrics, values),
        are_run_dimensions(dimensions, name),
    ensures
        ({
            let members = emf_members(NAMESPACE@, dimensions, metrics, timestamp);
            &&& members["_aws"@] == directive(NAMESPACE@, dimensions, metrics, timestamp)
            &&& members["FunctionName"@] == Json::Text(name)
            &&& members["TotalTimeMs"@] == json_of(values.total_time_ms)
            &&& members["TotalFactorizations"@] == json_of(values.total_factorizations)
            &&& members["AvgFactorizationUs"@] == json_of(values.avg_factorization_us)
            &&& members["P95FactorizationUs"@] == json_of(values.p95_factorization_us)
            &&& members["SingleThreadThroughput"@] == json_of(values.single_thread_throughput)
            &&& members["AvgHardFactorizationUs"@] == json_of(values.avg_hard_factorization_us)
        }),
{
    reveal_strlit("_aws");
    reveal_strlit("FunctionName");
    reveal_strlit("TotalTimeMs");
    reveal_strlit("TotalFactorizations");
    reveal_strlit("AvgFactorizationUs");
    reveal_strlit("P95FactorizationUs");
    reveal_strlit("SingleThreadThroughput");
    reveal_strlit("AvgHardFactorizationUs");
    assert("_aws"@.len() == 4 && "FunctionName"@.len() == 12 && "TotalTimeMs"@.len() == 11);
    assert("TotalFactorizations"@.len() == 19);
    assert("AvgFactorizationUs"@.len() == 18 && "P95FactorizationUs"@.len() == 18);
    assert("SingleThreadThroughput"@.len() == 22 && "AvgHardFactorizationUs"@.len() == 22);
    assert("AvgFactorizationUs"@[0] == 'A' && "P95FactorizationUs"@[0] == 'P');
    assert("SingleThreadThroughput"@[0] == 'S' && "AvgHardFactorizationUs"@[0] == 'A');
    law_directive_is_member(NAMESPACE@, dimensions, metrics, timestamp);
    law_dimension_is_member(NAMESPACE@, dimensions, metrics, timestamp, 0);
    law_metric_is_member(NAMESPACE@, dimensions, metrics, timestamp, 0);
    law_metric_is_member(NAMESPACE@, dimensions, metrics, timestamp, 1);
    law_metric_is_member(NAMESPACE@, dimensions, metrics, timestamp, 2);
    law_metric_is_member(NAMESPACE@, dimensions, metrics, timestamp, 3);
    law_metric_is_member(NAMESPACE@, dimensions, metrics, timestamp, 4);
    law_metric_is_member(NAMESPACE@, dimensions, metrics, timestamp, 5);
}

proof fn lemma_metric_is_member(base: Map<Seq<char>, Json>, metrics: Seq<Metric>, i: int)
    requires
        0 <= i < metrics.len(),
        forall|j: int| i < j < metrics.len() ==> #[trigger] metrics[j].name@ != metrics[i].name@,
    ensures
        with_metrics(base, metrics).contains_key(metrics[i].name@),
        with_metrics(base, metrics)[metrics[i].name@] == json_of(metrics[i].value),
    decreases metrics.len(),
{
    if i < metrics.len() - 1 {
        assert(metrics[metrics.len() - 1].name@ != metrics[i].name@);
        lemma_metric_is_member(base, metrics.drop_last(), i);
    }
}

/// Law: a metric is a member of the object under its name, with its value,
/// unless a later metric has the same name.
pub proof fn law_metric_is_member(
    namespace: Seq<char>,
    dimensions: Seq<Dimension>,
    metrics: Seq<Metric>,
    timestamp: nat,
    i: int,
)
    requires
        0 <= i < metrics.len(),
        forall|j: int| i < j < metrics.len() ==> #[trigger] metrics[j].name@ != metrics[i].name@,
    ensures
        emf_members(namespace, dimensions, metrics, timestamp).contains_key(metrics[i].name@),
        emf_members(namespace, dimensions, metrics, timestamp)[metrics[i].name@] == json_of(
            metrics[i].value,
        ),
{
    let start = no_members().insert(
        "_aws"@,
        directive(namespace, dimensions, metrics, timestamp),
    );
    lemma_metric_is_member(with_dimensions(start, dimensions), metrics, i);
}

/// A key that no metric has is left alone.
proof fn lemma_metrics_keep(base: Map<Seq<char>, Json>, metrics: Seq<Metric>, key: Seq<char>)
    requires
        forall|j: int| 0 <= j < metrics.len() ==> #[trigger] metrics[j].name@ != key,
    ensures
        with_metrics(base, metrics).contains_key(key) == base.contains_key(key),
        base.contains_key(key) ==> with_metrics(base, metrics)[key] == base[key],
    decreases metrics.len(),
{
    if metrics.len() > 0 {
        assert(metrics[metrics.len() - 1].name@ != key);
        lemma_metrics_keep(base, metrics.drop_last(), key);
    }
}

/// A key that no dimension has is left alone.
proof fn lemma_dimensions_keep(
    base: Map<Seq<char>, Json>,
    dimensions: Seq<Dimension>,
    key: Seq<char>,
)
    requires
        forall|j: int| 0 <= j < dimensions.len() ==> #[trigger] dimensions[j].name@ != key,
    ensures
        with_dimensions(base, dimensions).contains_key(key) == base.contains_key(key),
        base.contains_key(key) ==> with_dimensions(base, dimensions)[key] == base[key],
    decreases dimensions.len(),
{
    if dimensions.len() > 0 {
        assert(dimensions[dimensions.len() - 1].name@ != key);
        lemma_dimensions_keep(base, dimensions.drop_last(), key);
    }
}

proof fn lemma_dimension_is_member(
    base: Map<Seq<char>, Json>,
    dimensions: Seq<Dimension>,
    i: int,
)
    requires
        0 <= i < dimensions.len(),
        forall|j: int|
            i < j < dimensions.len() ==> #[trigger] dimensions[j].name@ != dimensions[i].name@,
    ensures
        with_dimensions(base, dimensions).contains_key(dimensions[i].name@),
        with_dimensions(base, dimensions)[dimensions[i].name@] == Json::Text(
            dimensions[i].value@,
        ),
    decreases dimensions.len(),
{
    if i < dimensions.len() - 1 {
        assert(dimensions[dimensions.len() - 1].name@ != dimensions[i].name@);
        lemma_dimension_is_member(base, dimensions.drop_last(), i);
    }
}

/// Law: a dimension is a member of the object under its name, with its value,
/// unless a later dimension or a metric has the same name.
pub proof fn law_dimension_is_member(
    namespace: Seq<char>,
    dimensions: Seq<Dimension>,
    metrics: Seq<Metric>,
    timestamp: nat,
    i: int,
)
    requires
        0 <= i < dimensions.len(),
        forall|j: int|
            i < j < dimensions.len() ==> #[trigger] dimensions[j].name@ != dimensions[i].name@,
        forall|j: int|
            0 <= j < metrics.len() ==> #[trigger] metrics[j].name@ != dimensions[i].name@,
    ensures
        emf_members(namespace, dimensions, metrics, timestamp).contains_key(dimensions[i].name@),
        emf_members(namespace, dimensions, metrics, timestamp)[dimensions[i].name@] == Json::Text(
            dimensions[i].value@,
        ),
{
    let start = no_members().insert(
        "_aws"@,
        directive(namespace, dimensions, metrics, timestamp),
    );
    lemma_dimension_is_member(start, dimensions, i);
    lemma_metrics_keep(with_dimensions(start, dimensions), metrics, dimensions[i].name@);
}

/// Law: the directive stands under `_aws`, unless a dimension or a metric has
/// that name.
pub proof fn law_directive_is_member(
    namespace: Seq<char>,
    dimensions: Seq<Dimension>,
    metrics: Seq<Metric>,
    timestamp: nat,
)
    requires
        forall|j: int| 0 <= j < dimensions.len() ==> #[trigger] dimensions[j].name@ != "_aws"@,
        forall|j: int| 0 <= j < metrics.len() ==> #[trigger] metrics[j].name@ != "_aws"@,
    ensures
        emf_members(namespace, dimensions, metrics, timestamp).contains_key("_aws"@),
        emf_members(namespace, dimensions, metrics, timestamp)["_aws"@] == directive(
            namespace,
            dimensions,
            metrics,
            timestamp,
        ),
{
    let start = no_members().insert(
        "_aws"@,
        directive(namespace, dimensions, metrics, timestamp),
    );
    lemma_dimensions_keep(start, dimensions, "_aws"@);
    lemma_metrics_keep(with_dimensions(start, dimensions), metrics, "_aws"@);
}

/// Law: every metric is declared. Under `_aws`, `CloudWatchMetrics`, the only entry has
/// as many definitions under `Metrics` as there are metrics, and each is an object of
/// the name and the unit of the metric in its place.
pub proof fn law_every_metric_is_declared(
    namespace: Seq<char>,
    dimensions: Seq<Dimension>,
    metrics: Seq<Metric>,
    timestamp: nat,
)
    requires
        forall|j: int| 0 <= j < dimensions.len() ==> #[trigger] dimensions[j].name@ != "_aws"@,
        forall|j: int| 0 <= j < metrics.len() ==> #[trigger] metrics[j].name@ != "_aws"@,
    ensures
        ({
            let members = emf_members(namespace, dimensions, metrics, timestamp);
            let aws = members["_aws"@]->Object_0;
            let entries = aws["CloudWatchMetrics"@]->List_0;
            let entry = entries[0]->Object_0;
            let definitions = entry["Metrics"@]->List_0;
            &&& members.contains_key("_aws"@)
            &&& members["_aws"@] is Object
            &&& aws.contains_key("CloudWatchMetrics"@)
            &&& aws["CloudWatchMetrics"@] is List
            &&& entries.len() == 1
            &&& entries[0] is Object
            &&& entry.contains_key("Metrics"@)
            &&& entry["Metrics"@] is List
            &&& definitions.len() == metrics.len()
            &&& forall|i: int|
                0 <= i < metrics.len() ==> {
                    let definition = (#[trigger] definitions[i])->Object_0;
                    &&& definitions[i] is Object
                    &&& definition.dom() =~= set!["Name"@, "Unit"@]
                    &&& definition["Name"@] == Json::Text(metrics[i].name@)
                    &&& definition["Unit"@] == Json::Text(metrics[i].unit@)
                }
        }),
{
    lemma_directive_keys();
    law_directive_is_member(namespace, dimensions, metrics, timestamp);
    let entry = directive(namespace, dimensions, metrics, timestamp)->Object_0[
        "CloudWatchMetrics"@
    ]->List_0[0]->Object_0;
    let definitions = entry["Metrics"@]->List_0;
    assert forall|i: int| 0 <= i < metrics.len() implies ({
        let definition = (#[trigger] definitions[i])->Object_0;
        &&& definitions[i] is Object
        &&& definition.dom() =~= set!["Name"@, "Unit"@]
        &&& definition["Name"@] == Json::Text(metrics[i].name@)
        &&& definition["Unit"@] == Json::Text(metrics[i].unit@)
    }) by {
        assert(definitions[i] == metric_definition(metrics[i].name@, metrics[i].unit@));
    }
}

/// Law: the directive holds the time and one entry. The entry holds the namespace, one
/// set of dimensions with the name of each in its place, and the definitions.
pub proof fn law_directive_contents(
    namespace: Seq<char>,
    dimensions: Seq<Dimension>,
    metrics: Seq<Metric>,
    timestamp: nat,
)
    requires
        forall|j: int| 0 <= j < dimensions.len() ==> #[trigger] dimensions[j].name@ != "_aws"@,
        forall|j: int| 0 <= j < metrics.len() ==> #[trigger] metrics[j].name@ != "_aws"@,
    ensures
        ({
            let members = emf_members(namespace, dimensions, metrics, timestamp);
            let aws = members["_aws"@]->Object_0;
            let entries = aws["CloudWatchMetrics"@]->List_0;
            let entry = entries[0]->Object_0;
            let sets = entry["Dimensions"@]->List_0;
            let names = sets[0]->List_0;
            &&& aws.dom() =~= set!["Timestamp"@, "CloudWatchMetrics"@]
            &&& aws["Timestamp"@] == Json::Count(timestamp)
            &&& entry.dom() =~= set!["Namespace"@, "Dimensions"@, "Metrics"@]
            &&& entry["Namespace"@] == Json::Text(namespace)
            &&& entry["Dimensions"@] is List
            &&& sets.len() == 1
            &&& sets[0] is List
            &&& names.len() == dimensions.len()
            &&& forall|i: int|
                0 <= i < dimensions.len() ==> #[trigger] names[i] == Json::Text(
                    dimensions[i].name@,
                )
        }),
{
    lemma_directive_keys();
    law_directive_is_member(namespace, dimensions, metrics, timestamp);
}

proof fn lemma_directive_keys()
    ensures
        "Timestamp"@ != "CloudWatchMetrics"@,
        "Namespace"@ != "Dimensions"@,
        "Namespace"@ != "Metrics"@,
        "Dimensions"@ != "Metrics"@,
        "Name"@ != "Unit"@,
{
    reveal_strlit("Timestamp");
    reveal_strlit("CloudWatchMetrics");
    reveal_strlit("Namespace");
    reveal_strlit("Dimensions");
    reveal_strlit("Metrics");
    reveal_strlit("Name");
    reveal_strlit("Unit");
    assert("Timestamp"@.len() == 9 && "CloudWatchMetrics"@.len() == 17);
    assert("Namespace"@.len() == 9 && "Dimensions"@.len() == 10 && "Metrics"@.len() == 7);
    assert("Name"@[0] == 'N' && "Unit"@[0] == 'U');
}

/// Law: the object has a member for the directive, one for each dimension and one for
/// each metric, and no other.
pub proof fn law_emf_keys(
    namespace: Seq<char>,
    dimensions: Seq<Dimension>,
    metrics: Seq<Metric>,
    timestamp: nat,
    key: Seq<char>,
)
    ensures
        emf_members(namespace, dimensions, metrics, timestamp).contains_key(key) <==> {
            ||| key == "_aws"@
            ||| exists|i: int| 0 <= i < dimensions.len() && #[trigger] dimensions[i].name@ == key
            ||| exists|i: int| 0 <= i < metrics.len() && #[trigger] metrics[i].name@ == key
        },
{
    let start = no_members().insert(
        "_aws"@,
        directive(namespace, dimensions, metrics, timestamp),
    );
    lemma_dimension_keys(start, dimensions, key);
    lemma_metric_keys(with_dimensions(start, dimensions), metrics, key);
}

proof fn lemma_dimension_keys(
    base: Map<Seq<char>, Json>,
    dimensions: Seq<Dimension>,
    key: Seq<char>,
)
    ensures
        with_dimensions(base, dimensions).contains_key(key) <==> base.contains_key(key)
            || exists|i: int| 0 <= i < dimensions.len() && #[trigger] dimensions[i].name@ == key,
    decreases dimensions.len(),
{
    if dimensions.len() > 0 {
        let d = dimensions.drop_last();
        lemma_dimension_keys(base, d, key);
        assert(dimensions[dimensions.len() - 1] == dimensions.last());
        assert forall|i: int| 0 <= i < d.len() implies d[i] == #[trigger] dimensions[i] by {}
        if exists|i: int| 0 <= i < d.len() && #[trigger] d[i].name@ == key {
            let i = choose|i: int| 0 <= i < d.len() && #[trigger] d[i].name@ == key;
            assert(dimensions[i].name@ == key);
        }
        if exists|i: int| 0 <= i < dimensions.len() && #[trigger] dimensions[i].name@ == key {
            let i = choose|i: int| 0 <= i < dimensions.len() && #[trigger] dimensions[i].name@ == key;
            assert(i < d.len() ==> d[i].name@ == key);
        }
    }
}

proof fn lemma_metric_keys(base: Map<Seq<char>, Json>, metrics: Seq<Metric>, key: Seq<char>)
    ensures
        with_metrics(base, metrics).contains_key(key) <==> base.contains_key(key) || exists|i: int|
            0 <= i < metrics.len() && #[trigger] metrics[i].name@ == key,
    decreases metrics.len(),
{
    if metrics.len() > 0 {
        let d = metrics.drop_last();
        lemma_metric_keys(base, d, key);
        assert(metrics[metrics.len() - 1] == metrics.last());
        if exists|i: int| 0 <= i < d.len() && #[trigger] d[i].name@ == key {
            let i = choose|i: int| 0 <= i < d.len() && #[trigger] d[i].name@ == key;
            assert(metrics[i].name@ == key);
        }
        if exists|i: int| 0 <= i < metrics.len() && #[trigger] metrics[i].name@ == key {
            let i = choose|i: int| 0 <= i < metrics.len() && #[trigger] metrics[i].name@ == key;
            assert(i < d.len() ==> d[i].name@ == key);
        }
    }
}

/// Law: the unit of a metric of a run goes with its name. A name that ends in `Ms` is of
/// milliseconds, one in `Us` of microseconds, one in `Throughput` of counts per second,
/// and one in `Factorizations` of counts; and every name ends in one of these.
pub proof fn law_run_units(metrics: Seq<Metric>, values: RunValues, i: int)
    requires
        are_run_metrics(metrics, values),
        0 <= i < metrics.len(),
    ensures
        ({
            let name = metrics[i].name@;
            let unit = metrics[i].unit@;
            &&& "Ms"@.is_suffix_of(name) <==> unit == "Milliseconds"@
            &&& "Us"@.is_suffix_of(name) <==> unit == "Microseconds"@
            &&& "Throughput"@.is_suffix_of(name) <==> unit == "Count/Second"@
            &&& "Factorizations"@.is_suffix_of(name) <==> unit == "Count"@
            &&& unit == "Milliseconds"@ || unit == "Microseconds"@ || unit == "Count/Second"@
                || unit == "Count"@
        }),
{
    reveal_strlit("Ms");
    reveal_strlit("Us");
    reveal_strlit("Throughput");
    reveal_strlit("Factorizations");
    reveal_strlit("Milliseconds");
    reveal_strlit("Microseconds");
    reveal_strlit("Count/Second");
    reveal_strlit("Count");
    reveal_strlit("TotalTimeMs");
    reveal_strlit("TotalFactorizations");
    reveal_strlit("AvgFactorizationUs");
    reveal_strlit("P95FactorizationUs");
    reveal_strlit("SingleThreadThroughput");
    reveal_strlit("AvgHardFactorizationUs");
    let name = metrics[i].name@;
    let unit = metrics[i].unit@;
    let n = name.len() as int;
    assert("Count"@.len() == 5 && "Count/Second"@.len() == 12);
    assert("Milliseconds"@[1] == 'i' && "Milliseconds"@[2] == 'l');
    assert("Microseconds"@[1] == 'i' && "Microseconds"@[2] == 'c');
    assert("Count/Second"@[1] == 'o');
    lemma_suffix_end("Ms"@, name);
    lemma_suffix_end("Us"@, name);
    lemma_suffix_end("Throughput"@, name);
    lemma_suffix_end("Factorizations"@, name);
    if i == 0 {
        assert("Ms"@ =~= name.subrange(n - 2, n));
    } else if i == 1 {
        assert("Factorizations"@ =~= name.subrange(n - 14, n));
    } else if i == 4 {
        assert("Throughput"@ =~= name.subrange(n - 10, n));
    } else {
        assert("Us"@ =~= name.subrange(n - 2, n));
    }
}

proof fn lemma_suffix_end(p: Seq<char>, text: Seq<char>)
    requires
        p.len() >= 2,
    ensures
        p.is_suffix_of(text) ==> text.len() >= p.len() && p[p.len() - 1] == text[text.len() - 1]
            && p[p.len() - 2] == text[text.len() - 2],
{
    if p.is_suffix_of(text) {
        let t = text.subrange((text.len() - p.len()) as int, text.len() as int);
        assert(p[p.len() - 1] == t[p.len() - 1]);
        assert(p[p.len() - 2] == t[p.len() - 2]);
    }
}

/// Law: the metrics of a run are filed under the namespace of the benchmark and by the
/// name of the function, and their names differ.
pub proof fn law_run_directive(
    dimensions: Seq<Dimension>,
    metrics: Seq<Metric>,
    values: RunValues,
    name: Seq<char>,
    timestamp: nat,
)
    requires
        are_run_metrics(metrics, values),
        are_run_dimensions(dimensions, name),
    ensures
        ({
            let members = emf_members(NAMESPACE@, dimensions, metrics, timestamp);
            let aws = members["_aws"@]->Object_0;
            let entry = aws["CloudWatchMetrics"@]->List_0[0]->Object_0;
            &&& entry["Namespace"@] == Json::Text("CpuOptimizedBenchmark"@)
            &&& entry["Dimensions"@] == Json::List(
                seq![Json::List(seq![Json::Text("FunctionName"@)])],
            )
            &&& aws["Timestamp"@] == Json::Count(timestamp)
        }),
        forall|i: int, j: int|
            0 <= i < j < metrics.len() ==> #[trigger] metrics[i].name@ != #[trigger] metrics[j].name@,
{
    reveal_strlit("_aws");
    reveal_strlit("FunctionName");
    reveal_strlit("TotalTimeMs");
    reveal_strlit("TotalFactorizations");
    reveal_strlit("AvgFactorizationUs");
    reveal_strlit("P95FactorizationUs");
    reveal_strlit("SingleThreadThroughput");
    reveal_strlit("AvgHardFactorizationUs");
    assert("_aws"@.len() == 4 && "FunctionName"@.len() == 12 && "TotalTimeMs"@.len() == 11);
    assert("TotalFactorizations"@.len() == 19);
    assert("AvgFactorizationUs"@.len() == 18 && "P95FactorizationUs"@.len() == 18);
    assert("SingleThreadThroughput"@.len() == 22 && "AvgHardFactorizationUs"@.len() == 22);
    assert("AvgFactorizationUs"@[0] == 'A' && "P95FactorizationUs"@[0] == 'P');
    assert("SingleThreadThroughput"@[0] == 'S' && "AvgHardFactorizationUs"@[0] == 'A');
    law_directive_contents(NAMESPACE@, dimensions, metrics, timestamp);
    let entry = emf_members(NAMESPACE@, dimensions, metrics, timestamp)["_aws"@]->Object_0[
        "CloudWatchMetrics"@
    ]->List_0[0]->Object_0;
    let sets = entry["Dimensions"@]->List_0;
    assert(sets[0]->List_0 =~= seq![Json::Text("FunctionName"@)]);
    assert(sets =~= seq![Json::List(seq![Json::Text("FunctionName"@)])]);
}

} // verus!
