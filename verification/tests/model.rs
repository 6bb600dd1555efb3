use growthbook_sdk::model::{
    BucketRange, Context, Experiment, ExperimentResult, Feature, FeatureMap, FeatureResult,
    FeatureRule, Filter, ForcedVariationsMap, Namespace, Source, TrackData, VariationMeta, ONE,
};
use growthbook_sdk::number::Number;
use growthbook_sdk::value::Value;

fn share(x: f64) -> i64 {
    (x * 1e12).round() as i64
}

fn text(s: &str) -> Value {
    Value::String(s.to_string())
}

fn whole(n: u64) -> Value {
    Value::Number(Number::PosInt(n))
}

#[test]
fn test_bucket_range() {
    let bucket_range = BucketRange { range_start: share(4.5), range_end: share(6.5) };
    assert_eq!(bucket_range.range_start, share(4.5));
    assert_eq!(bucket_range.range_end, share(6.5));

    let bucket_range = BucketRange { range_start: share(4.5), ..Default::default() };
    assert_eq!(bucket_range.range_start, share(4.5));
    assert_eq!(bucket_range.range_end, share(0.0));

    let bucket_range = BucketRange { ..Default::default() };
    assert_eq!(bucket_range.range_start, share(0.0));
    assert_eq!(bucket_range.range_end, share(0.0));
}

#[test]
fn bucket_ranges_are_equal_within_the_tolerances() {
    let range = BucketRange { range_start: share(0.25), range_end: share(0.5) };
    assert_eq!(range, BucketRange { range_start: share(0.2505), range_end: share(0.5) });
    assert_eq!(range, BucketRange { range_start: share(0.2495), range_end: share(0.5005) });
    assert_eq!(range, BucketRange { range_start: share(0.25), range_end: share(0.501) - 1 });
    assert_eq!(range, BucketRange { range_start: share(0.251) - 1, range_end: share(0.499) + 1 });
    assert_ne!(range, BucketRange { range_start: share(0.251), range_end: share(0.5) });
    assert_ne!(range, BucketRange { range_start: share(0.249), range_end: share(0.5) });
    assert_ne!(range, BucketRange { range_start: share(0.25), range_end: share(0.501) });
    assert_ne!(range, BucketRange { range_start: share(0.25), range_end: share(0.499) });
    assert_ne!(
        BucketRange { range_start: i64::MIN, range_end: 0 },
        BucketRange { range_start: i64::MAX, range_end: 0 }
    );
    assert_eq!(ONE, 1_000_000_000_000);
}

#[test]
fn test_variation_meta() {
    let variation_meta = VariationMeta {
        key: Some("key".to_string()),
        name: Some("name".to_string()),
        passthrough: Some(true),
    };
    assert_eq!(variation_meta.key, Some("key".to_string()));
    assert_eq!(variation_meta.name, Some("name".to_string()));
    assert_eq!(variation_meta.passthrough, Some(true));

    let variation_meta = VariationMeta { key: Some("key".to_string()), ..Default::default() };
    assert_eq!(variation_meta.key, Some("key".to_string()));
    assert_eq!(variation_meta.name, None);
    assert_eq!(variation_meta.passthrough, None);

    let variation_meta = VariationMeta { ..Default::default() };
    assert_eq!(variation_meta.key, None);
    assert_eq!(variation_meta.name, None);
    assert_eq!(variation_meta.passthrough, None);
}

#[test]
fn test_namespace() {
    let namespace =
        Namespace { id: "id".to_string(), range_start: share(4.5), range_end: share(6.67) };
    assert_eq!(namespace.id, "id".to_string());
    assert_eq!(namespace.range_start, share(4.5));
    assert_eq!(namespace.range_end, share(6.67));

    let namespace = Namespace { id: "id".to_string(), ..Default::default() };
    assert_eq!(namespace.id, "id".to_string());
    assert_eq!(namespace.range_start, share(0.0));
    assert_eq!(namespace.range_end, share(0.0));

    let namespace = Namespace { ..Default::default() };
    assert_eq!(namespace.id, "".to_string());
    assert_eq!(namespace.range_start, share(0.0));
    assert_eq!(namespace.range_end, share(0.0));
}

#[test]
fn test_filter() {
    let filter =
        Filter { seed: "".to_string(), ranges: vec![], hash_version: 0, attribute: "".to_string() };
    assert_eq!(filter.seed, "".to_string());
    assert_eq!(filter.ranges, vec![]);
    assert_eq!(filter.hash_version, 0);
    assert_eq!(filter.attribute, "".to_string());

    let filter = Filter { ..Default::default() };
    assert_eq!(filter.seed, "".to_string());
    assert_eq!(filter.ranges, vec![]);
    assert_eq!(filter.hash_version, 2);
    assert_eq!(filter.attribute, "id".to_string());

    let filter = Filter {
        ranges: vec![BucketRange { range_start: share(567.892), range_end: share(345.67) }],
        ..Default::default()
    };
    assert_eq!(filter.seed, "".to_string());
    assert_eq!(
        filter.ranges,
        vec![BucketRange { range_start: share(567.892), range_end: share(345.67) }]
    );
    assert_eq!(filter.hash_version, 2);
    assert_eq!(filter.attribute, "id".to_string());
}

#[test]
fn test_experiment() {
    let experiment = Experiment {
        key: "".to_string(),
        variations: vec![],
        weights: vec![],
        active: None,
        coverage: None,
        ranges: vec![],
        condition: None,
        namespace: None,
        force: None,
        hash_attribute: None,
        hash_version: None,
        meta: vec![],
        filters: vec![],
        seed: None,
        name: None,
        phase: None,
    };
    assert_eq!(experiment.key, "".to_string());
    assert_eq!(experiment.variations, Vec::<Value>::new());
    assert_eq!(experiment.weights, Vec::<i64>::new());
    assert_eq!(experiment.active, None);
    assert_eq!(experiment.coverage, None);
    assert_eq!(experiment.ranges, vec![]);
    assert_eq!(experiment.condition, None);
    assert_eq!(experiment.namespace, None);
    assert_eq!(experiment.force, None);
    assert_eq!(experiment.hash_attribute, None);
    assert_eq!(experiment.hash_version, None);
    assert_eq!(experiment.meta, vec![]);
    assert_eq!(experiment.filters, vec![]);
    assert_eq!(experiment.seed, None);
    assert_eq!(experiment.name, None);
    assert_eq!(experiment.phase, None);

    let experiment = Experiment {
        key: "something".to_string(),
        meta: vec![VariationMeta {
            key: Some("key".to_string()),
            name: Some("name".to_string()),
            passthrough: Some(true),
        }],
        force: Some(2),
        filters: vec![Filter {
            seed: "seed".to_string(),
            ranges: vec![BucketRange { range_start: share(567.892), range_end: share(345.67) }],
            hash_version: 2,
            attribute: "id".to_string(),
        }],
        variations: vec![text("a"), text("b"), text("c")],
        ..Default::default()
    };
    assert_eq!(experiment.key, "something".to_string());
    assert_eq!(experiment.variations, vec![text("a"), text("b"), text("c")]);
    assert_eq!(experiment.weights, Vec::<i64>::new());
    assert_eq!(experiment.active, None);
    assert_eq!(experiment.coverage, None);
    assert_eq!(experiment.ranges, vec![]);
    assert_eq!(experiment.condition, None);
    assert_eq!(experiment.namespace, None);
    assert_eq!(experiment.force, Some(2));
    assert_eq!(experiment.hash_attribute, None);
    assert_eq!(experiment.hash_version, None);
    assert_eq!(
        experiment.meta,
        vec![VariationMeta {
            key: Some("key".to_string()),
            name: Some("name".to_string()),
            passthrough: Some(true),
        }]
    );
    assert_eq!(
        experiment.filters,
        vec![Filter {
            seed: "seed".to_string(),
            ranges: vec![BucketRange { range_start: share(567.892), range_end: share(345.67) }],
            hash_version: 2,
            attribute: "id".to_string(),
        }]
    );
    assert_eq!(experiment.seed, None);
    assert_eq!(experiment.name, None);
    assert_eq!(experiment.phase, None);
}

#[test]
fn test_experiment_result() {
    let experiment_result = ExperimentResult {
        in_experiment: true,
        variation_id: 0,
        value: Value::Null,
        hash_used: false,
        hash_attribute: "gg".to_string(),
        hash_value: Value::String("something".to_string()),
        feature_id: None,
        key: "bb".to_string(),
        bucket: share(0.0),
        name: None,
        passthrough: true,
    };
    assert_eq!(experiment_result.in_experiment, true);
    assert_eq!(experiment_result.variation_id, 0);
    assert_eq!(experiment_result.value, Value::Null);
    assert_eq!(experiment_result.hash_used, false);
    assert_eq!(experiment_result.hash_attribute, "gg".to_string());
    assert_eq!(experiment_result.hash_value, Value::String("something".to_string()));
    assert_eq!(experiment_result.feature_id, None);
    assert_eq!(experiment_result.key, "bb".to_string());
    assert_eq!(experiment_result.bucket, share(0.0));
    assert_eq!(experiment_result.name, None);
    assert_eq!(experiment_result.passthrough, true);

    let experiment_result = ExperimentResult { ..Default::default() };
    assert_eq!(experiment_result.in_experiment, false);
    assert_eq!(experiment_result.variation_id, 0);
    assert_eq!(experiment_result.value, Value::Null);
    assert_eq!(experiment_result.hash_used, false);
    assert_eq!(experiment_result.hash_attribute, "".to_string());
    assert_eq!(experiment_result.hash_value, Value::Null);
    assert_eq!(experiment_result.feature_id, None);
    assert_eq!(experiment_result.key, "".to_string());
    assert_eq!(experiment_result.bucket, share(0.0));
    assert_eq!(experiment_result.name, None);
    assert_eq!(experiment_result.passthrough, false);
}

#[test]
fn test_track_data() {
    let track_data = TrackData {
        experiment: Experiment {
            key: "something".to_string(),
            filters: vec![Filter {
                seed: "seed".to_string(),
                ranges: vec![BucketRange { range_start: share(567.892), range_end: share(345.67) }],
                hash_version: 2,
                attribute: "id".to_string(),
            }],
            variations: vec![text("a"), text("b"), text("c")],
            ..Default::default()
        },
        result: ExperimentResult {
            in_experiment: true,
            variation_id: 0,
            bucket: share(0.0),
            name: None,
            passthrough: true,
            ..Default::default()
        },
    };
    assert_eq!(
        track_data.experiment,
        Experiment {
            key: "something".to_string(),
            variations: vec![text("a"), text("b"), text("c")],
            weights: Vec::<i64>::new(),
            active: None,
            coverage: None,
            ranges: vec![],
            condition: None,
            namespace: None,
            force: None,
            hash_attribute: None,
            hash_version: None,
            meta: vec![],
            filters: vec![Filter {
                seed: "seed".to_string(),
                ranges: vec![BucketRange { range_start: share(567.892), range_end: share(345.67) }],
                hash_version: 2,
                attribute: "id".to_string(),
            }],
            seed: None,
            name: None,
            phase: None,
        }
    );

    assert_eq!(
        track_data.result,
        ExperimentResult {
            in_experiment: true,
            variation_id: 0,
            value: Value::Null,
            hash_used: false,
            hash_attribute: "".to_string(),
            hash_value: Value::Null,
            feature_id: None,
            key: "".to_string(),
            bucket: share(0.0),
            name: None,
            passthrough: true,
        }
    );
}

fn rule_condition() -> Value {
    Value::Object(vec![
        ("op".to_string(), text("in")),
        ("values".to_string(), Value::Array(vec![text("a"), text("b"), text("c")])),
    ])
}

#[test]
fn test_feature_rule() {
    let feature_rule = FeatureRule {
        condition: Some(rule_condition()),
        key: Some("this-key".to_string()),
        hash_version: Some(2),
        phase: Some("this-phase".to_string()),
        tracks: vec![TrackData { ..Default::default() }],
        ..Default::default()
    };
    assert_eq!(feature_rule.condition, Some(rule_condition()));
    assert_eq!(feature_rule.key, Some("this-key".to_string()));
    assert_eq!(feature_rule.hash_version, Some(2));
    assert_eq!(feature_rule.phase, Some("this-phase".to_string()));
    assert_eq!(feature_rule.tracks, vec![TrackData { ..Default::default() }]);
    assert_eq!(feature_rule.variations, Vec::<Value>::new());
    assert_eq!(feature_rule.name, None);
}

#[test]
fn test_feature_result() {
    let feature_result =
        FeatureResult { value: whole(43), on: false, off: true, ..Default::default() };
    assert_eq!(feature_result.value, whole(43));
    assert_eq!(feature_result.on, false);
    assert_eq!(feature_result.off, true);
    assert_eq!(feature_result.experiment_result, None);
    assert_eq!(feature_result.experiment, None);
    assert_eq!(feature_result.source, Source::DefaultValue);
}

#[test]
fn test_feature() {
    let feature = Feature {
        default_value: Some(whole(43)),
        rules: vec![FeatureRule { ..Default::default() }],
    };
    assert_eq!(feature.default_value, Some(whole(43)));
    assert_eq!(feature.rules, vec![FeatureRule { ..Default::default() }]);
}

#[test]
fn test_context() {
    let context = Context {
        client_key: None,
        decryption_key: None,
        forced_variations: Default::default(),
        qa_mode: false,
        ..Default::default()
    };
    assert_eq!(context.client_key, None);
    assert_eq!(context.decryption_key, None);
    assert_eq!(context.attributes, Value::Null);
    assert_eq!(context.features, FeatureMap::default());
    assert_eq!(context.forced_variations, ForcedVariationsMap::default());
    assert_eq!(context.qa_mode, false);
    assert_eq!(context.enabled, true);
    assert_eq!(context.api_host, None);
    assert_eq!(context.url, "".to_string());
}

#[test]
fn feature_map_holds_one_feature_under_a_key() {
    let mut map = FeatureMap::new();
    assert_eq!(map.len(), 0);
    assert!(!map.contains_key("a"));
    assert!(map.get("a").is_none());
    map.insert("a".to_string(), Feature { default_value: Some(whole(1)), rules: vec![] });
    map.insert("b".to_string(), Feature { default_value: Some(whole(2)), rules: vec![] });
    assert_eq!(map.len(), 2);
    assert_eq!(map.get("a").unwrap().default_value, Some(whole(1)));
    map.insert("a".to_string(), Feature { default_value: Some(whole(3)), rules: vec![] });
    assert_eq!(map.len(), 2);
    assert_eq!(map.get("a").unwrap().default_value, Some(whole(3)));
    assert_eq!(map.get("b").unwrap().default_value, Some(whole(2)));
    assert!(map.contains_key("b"));
    assert!(!map.contains_key("c"));
    let copy = map.clone();
    assert_eq!(copy, map);
}

#[test]
fn forced_variations_hold_one_variation_under_a_key() {
    let mut forced = ForcedVariationsMap::new();
    assert_eq!(forced.get("exp"), None);
    forced.insert("exp".to_string(), 1);
    forced.insert("other".to_string(), 0);
    forced.insert("exp".to_string(), 2);
    assert_eq!(forced.len(), 2);
    assert_eq!(forced.get("exp"), Some(2));
    assert_eq!(forced.get("other"), Some(0));
    assert!(forced.contains_key("other"));
    assert!(!forced.contains_key("ex"));
    assert_eq!(forced.clone(), forced);
}

#[test]
fn copies_are_equal_to_what_they_copy() {
    let experiment = Experiment {
        key: "exp".to_string(),
        variations: vec![text("a"), Value::Array(vec![whole(1), Value::Null])],
        weights: vec![share(0.5), share(0.5)],
        coverage: Some(share(0.3)),
        condition: Some(rule_condition()),
        namespace: Some(Namespace { id: "n".to_string(), range_start: 0, range_end: ONE }),
        meta: vec![VariationMeta { key: Some("k".to_string()), ..Default::default() }],
        filters: vec![Filter::default()],
        seed: Some("seed".to_string()),
        ..Default::default()
    };
    assert_eq!(experiment.clone(), experiment);
    let result = ExperimentResult { value: text("a"), key: "0".to_string(), ..Default::default() };
    assert_eq!(result.clone(), result);
    let track = TrackData { experiment, result };
    assert_eq!(track.clone(), track);
    let rule = FeatureRule { tracks: vec![track], force: Some(whole(1)), ..Default::default() };
    assert_eq!(rule.clone(), rule);
    let feature = Feature { default_value: Some(Value::Bool(true)), rules: vec![rule] };
    assert_eq!(feature.clone(), feature);
}
