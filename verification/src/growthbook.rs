//! The evaluation engine: which value a feature takes for a user, and which
//! variation of an experiment the user gets.
//!
//! The engine decides and calls nothing back. A result says which exposures
//! are to be reported, and the host that holds the callbacks reports them.

use crate::condition::{eval_condition, holds};
use crate::lookup::lookup;
use crate::model::{
    clone_filters, clone_metas, clone_namespace_option, clone_ranges, clone_shares,
    clone_text_option, clone_values, id_text, BucketRange, Context, ContextView, Experiment,
    ExperimentResult, ExperimentResultView, ExperimentView, FeatureResult, FeatureResultView,
    FeatureRule, FeatureRuleView, Filter, FilterView, Source, TrackData, TrackDataView, ONE,
};
use crate::text::{ascii_text, decimal_numeral, decimal_of_i64, decimal_string};
use crate::util::{
    bucket_ranges, choose_variation, chosen_variation, get_bucket_ranges,
    get_query_string_override, hash_bytes, hash_of, in_namespace_bytes, in_namespace_spec,
    in_range, in_range_spec, query_string_override,
};
use crate::value::{Json, Value};
use vstd::prelude::*;
use vstd::string::*;
use vstd::utf8::encode_utf8;

verus! {

/// The attribute that is hashed: the one named, or `id`.
pub open spec fn attribute_or_id(name: Option<Seq<char>>) -> Seq<char> {
    match name {
        Some(n) => n,
        None => "id"@,
    }
}

/// The version of the hash: the one named, or 1.
pub open spec fn version_or_one(version: Option<i32>) -> i32 {
    match version {
        Some(v) => v,
        None => 1,
    }
}

/// The text of the attribute `name`, where it is a string; the empty text
/// where it is missing or anything else.
pub open spec fn attribute_text(attributes: Json, name: Seq<char>) -> Seq<char> {
    match attributes.field(name) {
        Some(Json::String(s)) => s,
        _ => Seq::empty(),
    }
}

/// The share lies in one of the ranges.
pub open spec fn in_some_range(n: i64, ranges: Seq<BucketRange>) -> bool {
    exists|i: int| 0 <= i < ranges.len() && in_range_spec(n, #[trigger] ranges[i])
}

/// The filter keeps the user out: the user's hash under the filter's seed
/// lies in none of its ranges. A filter whose version does not hash keeps
/// everybody out, as nobody can be placed.
pub open spec fn filter_excludes(attributes: Json, filter: FilterView) -> bool {
    match hash_of(
        encode_utf8(filter.seed),
        encode_utf8(attribute_text(attributes, filter.attribute)),
        filter.hash_version,
    ) {
        Some(n) => !in_some_range(n, filter.ranges),
        None => true,
    }
}

/// One of the filters keeps the user out.
pub open spec fn filtered_out(attributes: Json, filters: Seq<FilterView>) -> bool {
    exists|i: int| 0 <= i < filters.len() && filter_excludes(attributes, #[trigger] filters[i])
}

/// Whether a forced value is rolled out to the user. A rule with neither a
/// range nor a coverage is rolled out to everyone. Any other rule hashes the
/// user, and is rolled out where the hash lies in the range or, without a
/// range, is at most the coverage; a user without the hashed attribute is
/// left out.
pub open spec fn included_in_rollout(
    attributes: Json,
    seed: Seq<char>,
    hash_attribute: Option<Seq<char>>,
    range: Option<BucketRange>,
    coverage: Option<i64>,
    hash_version: Option<i32>,
) -> bool {
    if range is None && coverage is None {
        true
    } else {
        let text = attribute_text(attributes, attribute_or_id(hash_attribute));
        if text.len() == 0 {
            false
        } else {
            match hash_of(encode_utf8(seed), encode_utf8(text), version_or_one(hash_version)) {
                Some(n) => match range {
                    Some(r) => in_range_spec(n, r),
                    None => n <= coverage->0,
                },
                None => false,
            }
        }
    }
}

/// What running an experiment decided: the variation, if one was found;
/// whether it was found by hashing; and where the hash put the user.
#[derive(Clone, Copy, Debug)]
pub struct Decision {
    pub variation: Option<i32>,
    pub hash_used: bool,
    pub bucket: i64,
}

/// The decision that leaves the user out.
pub open spec fn excluded() -> Decision {
    Decision { variation: None, hash_used: false, bucket: 0 }
}

/// The decision for a variation that was not found by hashing.
pub open spec fn without_hash(variation: Option<i32>) -> Decision {
    Decision { variation, hash_used: false, bucket: 0 }
}

/// The variation is one that the experiment has.
pub open spec fn variation_in_bounds(experiment: ExperimentView, variation: Option<i32>) -> bool {
    variation is Some && 0 <= variation->0 < experiment.variations.len()
}

/// The result of an experiment, given what was decided. A variation that
/// the experiment has not leaves the user out, with the first variation.
pub open spec fn experiment_result(
    attributes: Json,
    experiment: ExperimentView,
    decision: Decision,
    feature_id: Option<Seq<char>>,
) -> ExperimentResultView {
    let inside = variation_in_bounds(experiment, decision.variation);
    let index: i32 = if inside {
        decision.variation->0
    } else {
        0
    };
    let attribute = attribute_or_id(experiment.hash_attribute);
    ExperimentResultView {
        in_experiment: inside,
        variation_id: index,
        value: if index < experiment.variations.len() {
            experiment.variations[index as int]
        } else {
            Json::Null
        },
        hash_used: decision.hash_used,
        hash_attribute: attribute,
        hash_value: match attributes.field(attribute) {
            Some(v) => v,
            None => Json::String(Seq::empty()),
        },
        feature_id,
        key: if index < experiment.meta.len() && experiment.meta[index as int].key is Some {
            experiment.meta[index as int].key->0
        } else {
            ascii_text(decimal_numeral(index as int))
        },
        bucket: decision.bucket,
        name: if index < experiment.meta.len() {
            experiment.meta[index as int].name
        } else {
            None
        },
        passthrough: index < experiment.meta.len() && experiment.meta[index as int].passthrough
            == Some(true),
    }
}

/// The number of variations, held to what 32 bits can say.
pub open spec fn variation_count(experiment: ExperimentView) -> i32 {
    if experiment.variations.len() > i32::MAX {
        i32::MAX
    } else {
        experiment.variations.len() as i32
    }
}

/// The bytes that are hashed for an attribute: the decimal numeral of an
/// integer, the bytes of a string, and nothing for anything else.
pub open spec fn hash_input(value: Json) -> Seq<u8> {
    match value {
        Json::Number(n) => match n.as_i64_spec() {
            Some(i) => decimal_numeral(i as int),
            None => Seq::empty(),
        },
        Json::String(s) => encode_utf8(s),
        _ => Seq::empty(),
    }
}

/// The bytes that are hashed for the user of an experiment.
pub open spec fn user_hash_input(attributes: Json, experiment: ExperimentView) -> Seq<u8> {
    match attributes.field(attribute_or_id(experiment.hash_attribute)) {
        Some(v) => hash_input(v),
        None => Seq::empty(),
    }
}

/// The experiment has a namespace with a name, and the user is outside it.
pub open spec fn outside_namespace(input: Seq<u8>, experiment: ExperimentView) -> bool {
    match experiment.namespace {
        Some(ns) => ns.id.len() > 0 && !in_namespace_spec(
            input,
            encode_utf8(ns.id),
            ns.range_start,
            ns.range_end,
        ),
        None => false,
    }
}

/// The ranges of the variations: those given, or those made from the
/// coverage and the weights.
pub open spec fn experiment_ranges(experiment: ExperimentView) -> Seq<BucketRange> {
    if experiment.ranges.len() > 0 {
        experiment.ranges
    } else {
        bucket_ranges(
            variation_count(experiment) as int,
            match experiment.coverage {
                Some(c) => c,
                None => ONE,
            },
            Some(experiment.weights),
        )
    }
}

/// The seed of the experiment's hash: its own, or its key.
pub open spec fn experiment_seed(experiment: ExperimentView) -> Seq<char> {
    match experiment.seed {
        Some(s) => s,
        None => experiment.key,
    }
}

/// Where the experiment's hash puts the user.
pub open spec fn user_bucket(attributes: Json, experiment: ExperimentView) -> Option<i64> {
    hash_of(
        encode_utf8(experiment_seed(experiment)),
        user_hash_input(attributes, experiment),
        version_or_one(experiment.hash_version),
    )
}

/// The user is kept out by the filters or, where there are none, by the
/// namespace.
pub open spec fn gated_out(attributes: Json, experiment: ExperimentView) -> bool {
    if experiment.filters.len() > 0 {
        filtered_out(attributes, experiment.filters)
    } else {
        outside_namespace(user_hash_input(attributes, experiment), experiment)
    }
}

/// What running the experiment decides. In this order: an experiment with
/// fewer than two variations, or a context that is switched off, leaves the
/// user out; an override in the URL's query string is taken; a forced
/// variation is taken; an experiment that is not active, a user without the
/// hashed attribute, a user kept out by filters or namespace, and a user who
/// does not meet the condition are left out; then the user is hashed, and
/// left out where the version does not hash or the hash falls in no range;
/// the experiment's own forced variation is taken; in QA mode the user is
/// left out; and otherwise the user gets the variation of the range.
pub open spec fn decision(context: ContextView, experiment: ExperimentView) -> Decision {
    let forced = lookup(context.forced_variations, experiment.key);
    let asked = query_string_override(experiment.key, context.url, variation_count(experiment));
    if experiment.variations.len() < 2 || !context.enabled {
        excluded()
    } else if context.url.len() > 0 && asked is Some {
        without_hash(asked)
    } else if forced is Some {
        without_hash(forced)
    } else if experiment.active == Some(false) {
        excluded()
    } else if user_hash_input(context.attributes, experiment).len() == 0 {
        excluded()
    } else if gated_out(context.attributes, experiment) {
        excluded()
    } else if experiment.condition is Some && !holds(context.attributes, experiment.condition->0) {
        excluded()
    } else {
        match user_bucket(context.attributes, experiment) {
            Some(bucket) => {
                let assigned = chosen_variation(bucket, experiment_ranges(experiment));
                if assigned == -1 {
                    excluded()
                } else if experiment.force is Some {
                    without_hash(experiment.force)
                } else if context.qa_mode {
                    excluded()
                } else {
                    Decision { variation: Some(assigned as i32), hash_used: true, bucket }
                }
            },
            None => excluded(),
        }
    }
}

/// The result of running the experiment in the context.
pub open spec fn run_result(
    context: ContextView,
    experiment: ExperimentView,
    feature_id: Option<Seq<char>>,
) -> ExperimentResultView {
    experiment_result(context.attributes, experiment, decision(context, experiment), feature_id)
}

/// The result of a feature that has the value `value`.
pub open spec fn feature_result(
    value: Json,
    source: Source,
    experiment: Option<ExperimentView>,
    result: Option<ExperimentResultView>,
) -> FeatureResultView {
    FeatureResultView {
        value,
        on: value.truthy(),
        off: !value.truthy(),
        source,
        experiment,
        experiment_result: result,
    }
}

/// The experiment that a rule of the feature `key` stands for.
pub open spec fn rule_experiment(key: Seq<char>, rule: FeatureRuleView) -> ExperimentView {
    ExperimentView {
        key: match rule.key {
            Some(k) => k,
            None => key,
        },
        variations: rule.variations,
        weights: rule.weights,
        active: None,
        coverage: rule.coverage,
        ranges: rule.ranges,
        condition: None,
        namespace: rule.namespace,
        force: None,
        hash_attribute: rule.hash_attribute,
        hash_version: rule.hash_version,
        meta: rule.meta,
        filters: rule.filters,
        seed: rule.seed,
        name: rule.name,
        phase: rule.phase,
    }
}

/// The rule does not apply to the user: its condition is not met, or its
/// filters keep the user out.
pub open spec fn rule_passed_over(attributes: Json, rule: FeatureRuleView) -> bool {
    (rule.condition is Some && !holds(attributes, rule.condition->0)) || filtered_out(
        attributes,
        rule.filters,
    )
}

/// The seed of a rule's hash: its own, or the key of the feature.
pub open spec fn rule_seed(key: Seq<char>, rule: FeatureRuleView) -> Seq<char> {
    match rule.seed {
        Some(s) => s,
        None => key,
    }
}

/// The rule forces its value on the user.
pub open spec fn rule_forces(context: ContextView, key: Seq<char>, rule: FeatureRuleView) -> bool {
    !rule_passed_over(context.attributes, rule) && rule.force is Some && included_in_rollout(
        context.attributes,
        rule_seed(key, rule),
        rule.hash_attribute,
        rule.range,
        rule.coverage,
        rule.hash_version,
    )
}

/// The rule's experiment is run for the user.
pub open spec fn rule_runs(context: ContextView, rule: FeatureRuleView) -> bool {
    !rule_passed_over(context.attributes, rule) && rule.force is None
}

/// The result of the rule's experiment.
pub open spec fn rule_result(context: ContextView, key: Seq<char>, rule: FeatureRuleView)
    -> ExperimentResultView {
    run_result(context, rule_experiment(key, rule), Some(key))
}

/// The rule gives the feature its value: it forces one, or its experiment
/// takes the user in with a variation that does not pass the user on.
pub open spec fn rule_decides(context: ContextView, key: Seq<char>, rule: FeatureRuleView) -> bool {
    rule_forces(context, key, rule) || (rule_runs(context, rule) && rule_result(
        context,
        key,
        rule,
    ).in_experiment && !rule_result(context, key, rule).passthrough)
}

/// The index of the first rule that gives the feature its value; the number
/// of rules if none does.
pub open spec fn first_deciding(
    context: ContextView,
    key: Seq<char>,
    rules: Seq<FeatureRuleView>,
) -> int
    decreases rules.len(),
{
    if rules.len() == 0 {
        0
    } else if rule_decides(context, key, rules[0]) {
        0
    } else {
        1 + first_deciding(context, key, rules.drop_first())
    }
}

/// The result that the rule gives the feature, where it decides.
pub open spec fn decided_result(context: ContextView, key: Seq<char>, rule: FeatureRuleView)
    -> FeatureResultView {
    if rule.force is Some {
        feature_result(rule.force->0, Source::Force, None, None)
    } else {
        feature_result(
            rule_result(context, key, rule).value,
            Source::Experiment,
            Some(rule_experiment(key, rule)),
            Some(rule_result(context, key, rule)),
        )
    }
}

/// The result of a feature that is defined: that of its first rule that
/// decides, or its default value.
pub open spec fn defined_feature_result(
    context: ContextView,
    key: Seq<char>,
    default_value: Option<Json>,
    rules: Seq<FeatureRuleView>,
) -> FeatureResultView {
    let at = first_deciding(context, key, rules);
    if 0 <= at < rules.len() {
        decided_result(context, key, rules[at])
    } else {
        feature_result(
            match default_value {
                Some(v) => v,
                None => Json::Null,
            },
            Source::DefaultValue,
            None,
            None,
        )
    }
}

/// The result of evaluating the feature `key`: that of an unknown feature
/// where none is defined under the key.
pub open spec fn feature_outcome(context: ContextView, key: Seq<char>) -> FeatureResultView {
    match lookup(context.features, key) {
        Some(feature) => defined_feature_result(context, key, feature.default_value, feature.rules),
        None => feature_result(Json::Null, Source::UnknownFeature, None, None),
    }
}

/// The exposures that trying one rule gives rise to: the rule's own where
/// it forces its value, and that of its experiment where the experiment was
/// run and chose by hashing.
pub open spec fn rule_exposures(context: ContextView, key: Seq<char>, rule: FeatureRuleView)
    -> Seq<TrackDataView> {
    if rule_forces(context, key, rule) {
        rule.tracks
    } else if rule_runs(context, rule) && rule_result(context, key, rule).hash_used {
        seq![
            TrackDataView {
                experiment: rule_experiment(key, rule),
                result: rule_result(context, key, rule),
            },
        ]
    } else {
        Seq::empty()
    }
}

/// The exposures that trying the first `count` rules gives rise to.
pub open spec fn exposures_of_first(
    context: ContextView,
    key: Seq<char>,
    rules: Seq<FeatureRuleView>,
    count: int,
) -> Seq<TrackDataView>
    decreases count,
{
    if count <= 0 || count > rules.len() {
        Seq::empty()
    } else {
        exposures_of_first(context, key, rules, count - 1) + rule_exposures(
            context,
            key,
            rules[count - 1],
        )
    }
}

/// The number of rules that are tried: those up to the first that decides.
pub open spec fn rules_tried(context: ContextView, key: Seq<char>, rules: Seq<FeatureRuleView>)
    -> int {
    let at = first_deciding(context, key, rules);
    if 0 <= at < rules.len() {
        at + 1
    } else {
        rules.len() as int
    }
}

/// The exposures that evaluating the feature `key` gives rise to, in order.
pub open spec fn feature_exposures(context: ContextView, key: Seq<char>) -> Seq<TrackDataView> {
    match lookup(context.features, key) {
        Some(feature) => exposures_of_first(
            context,
            key,
            feature.rules,
            rules_tried(context, key, feature.rules),
        ),
        None => Seq::empty(),
    }
}

/// The engine: a context, and the subscriptions to the results of runs.
#[derive(Debug)]
pub struct GrowthBook {
    /// What evaluations read.
    pub context: Context,
    /// The subscriptions, oldest first, each by its identifier.
    pub subscriptions: Vec<i64>,
}

/// What a run gives: the result, the exposure that is to be reported to the
/// tracking callback, and the subscriptions that are to be told of the
/// result, oldest first.
#[derive(Debug)]
pub struct RunOutcome {
    pub result: ExperimentResult,
    pub exposure: Option<TrackData>,
    pub subscribers: Vec<i64>,
}

/// What evaluating a feature gives: the result, and the exposures that are
/// to be reported to the tracking callback, in order.
#[derive(Debug)]
pub struct Evaluation {
    pub result: FeatureResult,
    pub exposures: Vec<TrackData>,
}

impl Default for GrowthBook {
    fn default() -> (engine: GrowthBook)
        ensures
            engine.context@ == Context::default_view(),
            engine.subscriptions@ == Seq::<i64>::empty(),
    {
        GrowthBook { context: Context::default(), subscriptions: Vec::new() }
    }
}

/// The text of the attribute `name`, where it is a string.
fn text_attribute<'a>(attributes: &'a Value, name: &str) -> (text: &'a str)
    ensures
        text@ == attribute_text(attributes@, name@),
{
    match attributes.get(name) {
        Some(Value::String(s)) => s.as_str(),
        _ => {
            proof {
                reveal_strlit("");
            }
            assert(""@ =~= Seq::<char>::empty());
            ""
        },
    }
}

/// Whether the share lies in one of the ranges.
fn in_any_range(n: i64, ranges: &Vec<BucketRange>) -> (inside: bool)
    ensures
        inside == in_some_range(n, ranges@),
{
    let mut i: usize = 0;
    while i < ranges.len()
        invariant
            i <= ranges.len(),
            forall|j: int| 0 <= j < i ==> !in_range_spec(n, #[trigger] ranges@[j]),
        decreases ranges.len() - i,
    {
        if in_range(n, &ranges[i]) {
            return true;
        }
        i += 1;
    }
    false
}

/// The bytes that are hashed for an attribute.
fn hash_input_bytes(value: Option<&Value>) -> (bytes: Vec<u8>)
    ensures
        bytes@ == match value {
            Some(v) => hash_input(v@),
            None => Seq::<u8>::empty(),
        },
{
    match value {
        Some(Value::Number(n)) => match n.as_i64() {
            Some(i) => decimal_of_i64(i),
            None => Vec::new(),
        },
        Some(Value::String(s)) => s.as_str().as_bytes_vec(),
        _ => Vec::new(),
    }
}

/// The name of the attribute that is hashed.
fn hashed_attribute(name: &Option<String>) -> (attribute: String)
    ensures
        attribute@ == attribute_or_id(name.deep_view()),
{
    match name {
        Some(n) => n.clone(),
        None => id_text(),
    }
}

impl GrowthBook {
    /// The result of a feature that has the value `value`.
    fn get_feature_result(
        value: Value,
        source: Source,
        experiment: Option<Experiment>,
        experiment_result: Option<ExperimentResult>,
    ) -> (result: FeatureResult)
        ensures
            result@ == feature_result(
                value@,
                source,
                experiment.deep_view(),
                experiment_result.deep_view(),
            ),
    {
        let on = value.is_truthy();
        FeatureResult { value, on, off: !on, source, experiment, experiment_result }
    }

    /// Whether one of the filters keeps the user out.
    fn is_filtered_out(&self, filters: &Vec<Filter>) -> (out: bool)
        ensures
            out == filtered_out(self.context@.attributes, filters.deep_view()),
    {
        let ghost attributes = self.context@.attributes;
        let ghost model = filters.deep_view();
        let mut i: usize = 0;
        while i < filters.len()
            invariant
                i <= filters.len(),
                attributes == self.context@.attributes,
                model == filters.deep_view(),
                forall|j: int| 0 <= j < i ==> !filter_excludes(attributes, #[trigger] model[j]),
            decreases filters.len() - i,
        {
            let filter = &filters[i];
            assert(model[i as int] == filter@);
            assert(filter@.ranges =~= filter.ranges@);
            let text = text_attribute(&self.context.attributes, filter.attribute.as_str());
            let nothing: Vec<u8> = Vec::new();
            assert(encode_utf8(filter.seed@) + nothing@ =~= encode_utf8(filter.seed@));
            match hash_bytes(
                filter.seed.as_str().as_bytes(),
                nothing.as_slice(),
                text.as_bytes(),
                filter.hash_version,
            ) {
                Some(n) => {
                    if !in_any_range(n, &filter.ranges) {
                        assert(filter_excludes(attributes, model[i as int]));
                        return true;
                    }
                },
                None => {
                    assert(filter_excludes(attributes, model[i as int]));
                    return true;
                },
            }
            i += 1;
        }
        false
    }

    /// Whether a forced value is rolled out to the user.
    fn is_included_in_rollout(
        &self,
        seed: &str,
        hash_attribute: &Option<String>,
        range: &Option<BucketRange>,
        coverage: &Option<i64>,
        hash_version: &Option<i32>,
    ) -> (included: bool)
        ensures
            included == included_in_rollout(
                self.context@.attributes,
                seed@,
                hash_attribute.deep_view(),
                *range,
                *coverage,
                *hash_version,
            ),
    {
        if range.is_none() && coverage.is_none() {
            return true;
        }
        let attribute = hashed_attribute(hash_attribute);
        let version = match hash_version {
            Some(v) => *v,
            None => 1,
        };
        let text = text_attribute(&self.context.attributes, attribute.as_str());
        if text.is_empty() {
            return false;
        }
        let nothing: Vec<u8> = Vec::new();
        assert(encode_utf8(seed@) + nothing@ =~= encode_utf8(seed@));
        match hash_bytes(seed.as_bytes(), nothing.as_slice(), text.as_bytes(), version) {
            Some(n) => match range {
                Some(r) => in_range(n, r),
                None => match coverage {
                    Some(c) => n <= *c,
                    None => true,
                },
            },
            None => false,
        }
    }

    /// The result of an experiment, given what was decided.
    fn get_experiment_result(
        &self,
        experiment: &Experiment,
        decision: Decision,
        feature_id: Option<&str>,
    ) -> (result: ExperimentResult)
        ensures
            result@ == experiment_result(
                self.context@.attributes,
                experiment@,
                decision,
                feature_id.deep_view(),
            ),
    {
        let count = experiment.variations.len();
        let inside = match decision.variation {
            Some(v) => v >= 0 && (v as usize) < count,
            None => false,
        };
        let index: i32 = match decision.variation {
            Some(v) => if inside {
                v
            } else {
                0
            },
            None => 0,
        };
        let at = index as usize;
        let attribute = hashed_attribute(&experiment.hash_attribute);
        let hash_value = match self.context.attributes.get(attribute.as_str()) {
            Some(v) => v.clone(),
            None => Value::String(String::new()),
        };
        let value = if at < count {
            experiment.variations[at].clone()
        } else {
            Value::Null
        };
        let key = if at < experiment.meta.len() {
            match &experiment.meta[at].key {
                Some(k) => k.clone(),
                None => decimal_string(index as i64),
            }
        } else {
            decimal_string(index as i64)
        };
        let name = if at < experiment.meta.len() {
            clone_text_option(&experiment.meta[at].name)
        } else {
            None
        };
        let passthrough = if at < experiment.meta.len() {
            match experiment.meta[at].passthrough {
                Some(p) => p,
                None => false,
            }
        } else {
            false
        };
        let feature = match feature_id {
            Some(f) => Some(String::from_str(f)),
            None => None,
        };
        proof {
            if at < count {
                assert(experiment@.variations[at as int] == experiment.variations@[at as int]@);
            }
            if at < experiment.meta.len() {
                assert(experiment@.meta[at as int] == experiment.meta@[at as int]@);
            }
        }
        let result = ExperimentResult {
            in_experiment: inside,
            variation_id: index,
            value,
            hash_used: decision.hash_used,
            hash_attribute: attribute,
            hash_value,
            feature_id: feature,
            key,
            bucket: decision.bucket,
            name,
            passthrough,
        };
        assert(result@ =~~= experiment_result(
            self.context@.attributes,
            experiment@,
            decision,
            feature_id.deep_view(),
        ));
        result
    }

    /// What running the experiment decides.
    fn decide(&self, experiment: &Experiment) -> (decided: Decision)
        ensures
            decided == decision(self.context@, experiment@),
    {
        let out = Decision { variation: None, hash_used: false, bucket: 0 };
        let count = experiment.variations.len();
        if count < 2 || !self.context.enabled {
            return out;
        }
        let capped: i32 = if count > 0x7fff_ffff {
            i32::MAX
        } else {
            count as i32
        };
        if !self.context.url.as_str().is_empty() {
            match get_query_string_override(
                experiment.key.as_str(),
                self.context.url.as_str(),
                capped,
            ) {
                Some(asked) => {
                    return Decision { variation: Some(asked), hash_used: false, bucket: 0 };
                },
                None => {},
            }
        }
        match self.context.forced_variations.get(experiment.key.as_str()) {
            Some(forced) => {
                return Decision { variation: Some(forced), hash_used: false, bucket: 0 };
            },
            None => {},
        }
        match experiment.active {
            Some(active) => {
                if !active {
                    return out;
                }
            },
            None => {},
        }
        let attribute = hashed_attribute(&experiment.hash_attribute);
        let input = hash_input_bytes(self.context.attributes.get(attribute.as_str()));
        if input.len() == 0 {
            return out;
        }
        if experiment.filters.len() > 0 {
            if self.is_filtered_out(&experiment.filters) {
                return out;
            }
        } else {
            match &experiment.namespace {
                Some(ns) => {
                    if !ns.id.as_str().is_empty() && !in_namespace_bytes(input.as_slice(), ns) {
                        return out;
                    }
                },
                None => {},
            }
        }
        match &experiment.condition {
            Some(c) => {
                if !eval_condition(&self.context.attributes, c) {
                    return out;
                }
            },
            None => {},
        }
        let seed: &str = match &experiment.seed {
            Some(s) => s.as_str(),
            None => experiment.key.as_str(),
        };
        let version = match experiment.hash_version {
            Some(v) => v,
            None => 1,
        };
        let nothing: Vec<u8> = Vec::new();
        assert(encode_utf8(seed@) + nothing@ =~= encode_utf8(seed@));
        let bucket = match hash_bytes(
            seed.as_bytes(),
            nothing.as_slice(),
            input.as_slice(),
            version,
        ) {
            Some(n) => n,
            None => {
                assert(user_bucket(self.context@.attributes, experiment@) is None);
                return out;
            },
        };
        assert(user_bucket(self.context@.attributes, experiment@) == Some(bucket));
        assert(experiment@.ranges =~= experiment.ranges@);
        assert(experiment@.weights =~= experiment.weights@);
        let ranges: Vec<BucketRange> = if experiment.ranges.len() > 0 {
            clone_ranges(&experiment.ranges)
        } else {
            let coverage = match experiment.coverage {
                Some(c) => c,
                None => ONE,
            };
            get_bucket_ranges(capped, coverage, Some(clone_shares(&experiment.weights)))
        };
        assert(ranges@ == experiment_ranges(experiment@));
        let assigned = choose_variation(bucket, ranges.as_slice());
        if assigned == -1 {
            return out;
        }
        match experiment.force {
            Some(forced) => {
                return Decision { variation: Some(forced), hash_used: false, bucket: 0 };
            },
            None => {},
        }
        if self.context.qa_mode {
            return out;
        }
        Decision { variation: Some(assigned), hash_used: true, bucket }
    }

    /// Runs the experiment on behalf of the feature `id`, if any.
    fn run_internal(&self, experiment: &Experiment, id: Option<&str>) -> (result: ExperimentResult)
        ensures
            result@ == run_result(self.context@, experiment@, id.deep_view()),
    {
        let decided = self.decide(experiment);
        self.get_experiment_result(experiment, decided, id)
    }

    /// Runs the experiment for the user of the context.
    pub fn run(&self, experiment: &Experiment) -> (result: ExperimentResult)
        ensures
            result@ == run_result(self.context@, experiment@, None),
    {
        self.run_internal(experiment, None)
    }

    /// Runs the experiment, and says what the host is to report: the
    /// exposure, where the variation was chosen by hashing, and the result
    /// to every subscription.
    pub fn run_tracked(&self, experiment: &Experiment) -> (outcome: RunOutcome)
        ensures
            outcome.result@ == run_result(self.context@, experiment@, None),
            outcome.exposure.deep_view() == if outcome.result.hash_used {
                Some(TrackDataView { experiment: experiment@, result: outcome.result@ })
            } else {
                None
            },
            outcome.subscribers@ == self.subscriptions@,
    {
        let result = self.run_internal(experiment, None);
        let exposure = if result.hash_used {
            Some(TrackData { experiment: experiment.clone(), result: result.clone() })
        } else {
            None
        };
        RunOutcome { result, exposure, subscribers: clone_ids(&self.subscriptions) }
    }
}

/// A copy of a list of identifiers.
fn clone_ids(ids: &Vec<i64>) -> (copy: Vec<i64>)
    ensures
        copy@ == ids@,
{
    clone_shares(ids)
}

/// The first rule that decides is at `at`.
proof fn lemma_first_deciding(
    context: ContextView,
    key: Seq<char>,
    rules: Seq<FeatureRuleView>,
    at: int,
)
    requires
        0 <= at <= rules.len(),
        forall|j: int| 0 <= j < at ==> !rule_decides(context, key, #[trigger] rules[j]),
        at < rules.len() ==> rule_decides(context, key, rules[at]),
    ensures
        first_deciding(context, key, rules) == at,
    decreases rules.len(),
{
    if rules.len() > 0 && at > 0 {
        assert(!rule_decides(context, key, rules[0]));
        let rest = rules.drop_first();
        assert forall|j: int| 0 <= j < at - 1 implies !rule_decides(
            context,
            key,
            #[trigger] rest[j],
        ) by {
            assert(rest[j] == rules[j + 1]);
        }
        lemma_first_deciding(context, key, rest, at - 1);
    }
}

/// The experiment that a rule of the feature `key` stands for.
fn experiment_of_rule(key: &str, rule: &FeatureRule) -> (experiment: Experiment)
    ensures
        experiment@ == rule_experiment(key@, rule@),
{
    let experiment = Experiment {
        key: match &rule.key {
            Some(k) => k.clone(),
            None => String::from_str(key),
        },
        variations: clone_values(&rule.variations),
        weights: clone_shares(&rule.weights),
        active: None,
        coverage: rule.coverage,
        ranges: clone_ranges(&rule.ranges),
        condition: None,
        namespace: clone_namespace_option(&rule.namespace),
        force: None,
        hash_attribute: clone_text_option(&rule.hash_attribute),
        hash_version: rule.hash_version,
        meta: clone_metas(&rule.meta),
        filters: clone_filters(&rule.filters),
        seed: clone_text_option(&rule.seed),
        name: clone_text_option(&rule.name),
        phase: clone_text_option(&rule.phase),
    };
    assert(experiment.weights.deep_view() =~= rule.weights.deep_view());
    assert(experiment.ranges.deep_view() =~= rule.ranges.deep_view());
    assert(experiment@ =~~= rule_experiment(key@, rule@));
    experiment
}

/// Appends copies of the exposures of a rule.
fn append_tracks(exposures: &mut Vec<TrackData>, tracks: &Vec<TrackData>)
    ensures
        final(exposures).deep_view() == old(exposures).deep_view() + tracks.deep_view(),
{
    let ghost before = exposures.deep_view();
    let mut i: usize = 0;
    while i < tracks.len()
        invariant
            i <= tracks.len(),
            exposures.deep_view() =~= before + tracks.deep_view().take(i as int),
        decreases tracks.len() - i,
    {
        let ghost current = exposures.deep_view();
        let copy = tracks[i].clone();
        exposures.push(copy);
        assert(exposures.deep_view() =~= current.push(tracks@[i as int]@));
        i += 1;
    }
    assert(tracks.deep_view().take(tracks.len() as int) =~= tracks.deep_view());
}

impl GrowthBook {
    /// Whether the rule does not apply to the user.
    fn passes_over(&self, rule: &FeatureRule) -> (over: bool)
        ensures
            over == rule_passed_over(self.context@.attributes, rule@),
    {
        let unmet = match &rule.condition {
            Some(c) => !eval_condition(&self.context.attributes, c),
            None => false,
        };
        unmet || self.is_filtered_out(&rule.filters)
    }

    /// Evaluates the feature `key` for the user of the context, and says
    /// which exposures the host is to report. The rules of the feature are
    /// tried in order, up to the first that gives the feature its value.
    pub fn eval_feature_tracked(&self, key: &str) -> (evaluation: Evaluation)
        ensures
            evaluation.result@ == feature_outcome(self.context@, key@),
            evaluation.exposures.deep_view() == feature_exposures(self.context@, key@),
    {
        let ghost context = self.context@;
        let mut exposures: Vec<TrackData> = Vec::new();
        assert(exposures.deep_view() =~= Seq::<TrackDataView>::empty());
        let feature = match self.context.features.get(key) {
            Some(f) => f,
            None => {
                return Evaluation {
                    result: GrowthBook::get_feature_result(
                        Value::Null,
                        Source::UnknownFeature,
                        None,
                        None,
                    ),
                    exposures,
                };
            },
        };
        let ghost rules = feature@.rules;
        assert(lookup(context.features, key@) == Some(feature@));
        let mut i: usize = 0;
        while i < feature.rules.len()
            invariant
                i <= feature.rules.len(),
                context == self.context@,
                rules == feature@.rules,
                rules.len() == feature.rules.len(),
                lookup(context.features, key@) == Some(feature@),
                forall|j: int| 0 <= j < i ==> !rule_decides(context, key@, #[trigger] rules[j]),
                exposures.deep_view() == exposures_of_first(context, key@, rules, i as int),
            decreases feature.rules.len() - i,
        {
            let rule = &feature.rules[i];
            assert(rules[i as int] == rule@);
            let ghost before = exposures.deep_view();
            assert(exposures_of_first(context, key@, rules, i + 1) == before + rule_exposures(
                context,
                key@,
                rule@,
            ));
            if !self.passes_over(rule) {
                match &rule.force {
                    Some(force) => {
                        let seed: &str = match &rule.seed {
                            Some(s) => s.as_str(),
                            None => key,
                        };
                        if self.is_included_in_rollout(
                            seed,
                            &rule.hash_attribute,
                            &rule.range,
                            &rule.coverage,
                            &rule.hash_version,
                        ) {
                            assert(rule_forces(context, key@, rule@));
                            append_tracks(&mut exposures, &rule.tracks);
                            proof {
                                lemma_first_deciding(context, key@, rules, i as int);
                            }
                            return Evaluation {
                                result: GrowthBook::get_feature_result(
                                    force.clone(),
                                    Source::Force,
                                    None,
                                    None,
                                ),
                                exposures,
                            };
                        }
                        assert(!rule_decides(context, key@, rule@));
                        assert(exposures.deep_view() =~= before + rule_exposures(
                            context,
                            key@,
                            rule@,
                        ));
                    },
                    None => {
                        let experiment = experiment_of_rule(key, rule);
                        let result = self.run_internal(&experiment, Some(key));
                        assert(result@ == rule_result(context, key@, rule@));
                        if result.hash_used {
                            let exposure = TrackData {
                                experiment: experiment.clone(),
                                result: result.clone(),
                            };
                            exposures.push(exposure);
                            assert(exposures.deep_view() =~= before.push(
                                TrackDataView {
                                    experiment: rule_experiment(key@, rule@),
                                    result: rule_result(context, key@, rule@),
                                },
                            ));
                        }
                        assert(exposures.deep_view() =~= before + rule_exposures(
                            context,
                            key@,
                            rule@,
                        ));
                        if result.in_experiment && !result.passthrough {
                            proof {
                                lemma_first_deciding(context, key@, rules, i as int);
                            }
                            let value = result.value.clone();
                            return Evaluation {
                                result: GrowthBook::get_feature_result(
                                    value,
                                    Source::Experiment,
                                    Some(experiment),
                                    Some(result),
                                ),
                                exposures,
                            };
                        }
                    },
                }
            } else {
                assert(exposures.deep_view() =~= before + rule_exposures(context, key@, rule@));
            }
            i += 1;
        }
        proof {
            lemma_first_deciding(context, key@, rules, i as int);
        }
        let value = match &feature.default_value {
            Some(v) => v.clone(),
            None => Value::Null,
        };
        Evaluation {
            result: GrowthBook::get_feature_result(value, Source::DefaultValue, None, None),
            exposures,
        }
    }

    /// Evaluates the feature `key` for the user of the context. A key under
    /// which nothing is defined gives null, from an unknown feature.
    pub fn eval_feature(&self, key: &str) -> (result: FeatureResult)
        ensures
            result@ == feature_outcome(self.context@, key@),
            lookup(self.context@.features, key@) is None ==> result@.source
                == Source::UnknownFeature && result@.value == Json::Null && !result@.on,
    {
        self.eval_feature_tracked(key).result
    }

    /// Whether the feature is on: whether its value is truthy.
    pub fn is_on(&self, key: &str) -> (on: bool)
        ensures
            on == feature_outcome(self.context@, key@).value.truthy(),
    {
        self.eval_feature(key).on
    }

    /// Whether the feature is off.
    pub fn is_off(&self, key: &str) -> (off: bool)
        ensures
            off == !feature_outcome(self.context@, key@).value.truthy(),
    {
        self.eval_feature(key).off
    }

    /// The value of the feature; `fallback` where the value is null.
    pub fn get_feature_value(&self, key: &str, fallback: &Value) -> (value: Value)
        ensures
            value@ == value_or_spec(feature_outcome(self.context@, key@).value, fallback@),
    {
        value_or(self.eval_feature(key).value, fallback)
    }

    /// The value of the feature where it is a string; `fallback` where it is
    /// anything else.
    pub fn get_feature_value_as_str(&self, key: &str, fallback: &str) -> (text: String)
        ensures
            text@ == text_or_spec(feature_outcome(self.context@, key@).value, fallback@),
    {
        text_or(self.eval_feature(key).value, fallback)
    }

    /// The value of the feature where it is an integer that 64 bits hold;
    /// `fallback` where it is anything else.
    pub fn get_feature_value_as_int(&self, key: &str, fallback: i64) -> (number: i64)
        ensures
            number == integer_or_spec(feature_outcome(self.context@, key@).value, fallback),
    {
        integer_or(&self.eval_feature(key).value, fallback)
    }

    /// The value of the feature where it is `true` or `false`; `fallback`
    /// where it is anything else.
    pub fn get_feature_value_as_bool(&self, key: &str, fallback: bool) -> (truth: bool)
        ensures
            truth == truth_or_spec(feature_outcome(self.context@, key@).value, fallback),
    {
        truth_or(&self.eval_feature(key).value, fallback)
    }
}

/// A value, or the fallback where the value is null.
pub open spec fn value_or_spec(value: Json, fallback: Json) -> Json {
    match value {
        Json::Null => fallback,
        other => other,
    }
}

/// The text of a value that is a string, or the fallback.
pub open spec fn text_or_spec(value: Json, fallback: Seq<char>) -> Seq<char> {
    match value {
        Json::String(s) => s,
        _ => fallback,
    }
}

/// The integer of a value that is one that 64 bits hold, or the fallback.
pub open spec fn integer_or_spec(value: Json, fallback: i64) -> i64 {
    match value {
        Json::Number(n) => match n.as_i64_spec() {
            Some(i) => i,
            None => fallback,
        },
        _ => fallback,
    }
}

/// The truth of a value that is `true` or `false`, or the fallback.
pub open spec fn truth_or_spec(value: Json, fallback: bool) -> bool {
    match value {
        Json::Bool(b) => b,
        _ => fallback,
    }
}

/// The value, or a copy of the fallback where the value is null.
pub fn value_or(value: Value, fallback: &Value) -> (chosen: Value)
    ensures
        chosen@ == value_or_spec(value@, fallback@),
{
    if value.is_null() {
        fallback.clone()
    } else {
        value
    }
}

/// The text of a value that is a string, or the fallback.
pub fn text_or(value: Value, fallback: &str) -> (text: String)
    ensures
        text@ == text_or_spec(value@, fallback@),
{
    match value {
        Value::String(s) => s,
        _ => String::from_str(fallback),
    }
}

/// The integer of a value that is one that 64 bits hold, or the fallback.
pub fn integer_or(value: &Value, fallback: i64) -> (number: i64)
    ensures
        number == integer_or_spec(value@, fallback),
{
    match value.as_i64() {
        Some(i) => i,
        None => fallback,
    }
}

/// The truth of a value that is `true` or `false`, or the fallback.
pub fn truth_or(value: &Value, fallback: bool) -> (truth: bool)
    ensures
        truth == truth_or_spec(value@, fallback),
{
    match value.as_bool() {
        Some(b) => b,
        None => fallback,
    }
}

/// A feature that is not defined is null, comes from an unknown feature,
/// and is off.
pub proof fn lemma_unknown_feature(context: ContextView, key: Seq<char>)
    requires
        lookup(context.features, key) is None,
    ensures
        feature_outcome(context, key).source == Source::UnknownFeature,
        feature_outcome(context, key).value == Json::Null,
        !feature_outcome(context, key).on,
        feature_outcome(context, key).off,
        feature_exposures(context, key).len() == 0,
{
}

/// An experiment with fewer than two variations takes nobody in, whatever
/// the context.
pub proof fn lemma_single_variation_excludes(
    context: ContextView,
    experiment: ExperimentView,
    feature_id: Option<Seq<char>>,
)
    requires
        experiment.variations.len() < 2,
    ensures
        !run_result(context, experiment, feature_id).in_experiment,
        !run_result(context, experiment, feature_id).hash_used,
        run_result(context, experiment, feature_id).variation_id == 0,
{
}

/// A forced variation wins over the hash. Where the context is switched on,
/// the experiment has two variations or more, and the URL asks for nothing,
/// a variation forced on the experiment's key is the one that the user gets,
/// whatever the user's hash: the user is in the experiment with it where
/// the experiment has it, and no hash was used.
pub proof fn lemma_forced_variation_wins(
    context: ContextView,
    experiment: ExperimentView,
    feature_id: Option<Seq<char>>,
    variation: i32,
)
    requires
        context.enabled,
        experiment.variations.len() >= 2,
        context.url.len() == 0 || query_string_override(
            experiment.key,
            context.url,
            variation_count(experiment),
        ) is None,
        lookup(context.forced_variations, experiment.key) == Some(variation),
    ensures
        decision(context, experiment) == without_hash(Some(variation)),
        !run_result(context, experiment, feature_id).hash_used,
        0 <= variation < experiment.variations.len() ==> {
            &&& run_result(context, experiment, feature_id).in_experiment
            &&& run_result(context, experiment, feature_id).variation_id == variation
            &&& run_result(context, experiment, feature_id).value
                == experiment.variations[variation as int]
        },
        !(0 <= variation < experiment.variations.len()) ==> !run_result(
            context,
            experiment,
            feature_id,
        ).in_experiment,
{
}

/// The exposure of a run is due exactly when the variation was chosen by
/// hashing, and then the user was hashed into a range: neither an override,
/// nor a forced variation, nor an exclusion is reported.
pub proof fn lemma_exposure_only_after_hashing(context: ContextView, experiment: ExperimentView)
    ensures
        decision(context, experiment).hash_used ==> {
            &&& context.enabled
            &&& !context.qa_mode
            &&& experiment.variations.len() >= 2
            &&& experiment.force is None
            &&& lookup(context.forced_variations, experiment.key) is None
            &&& user_bucket(context.attributes, experiment) is Some
            &&& decision(context, experiment).bucket == user_bucket(
                context.attributes,
                experiment,
            )->0
            &&& decision(context, experiment).variation == Some(
                chosen_variation(
                    user_bucket(context.attributes, experiment)->0,
                    experiment_ranges(experiment),
                ) as i32,
            )
        },
{
}

/// A user who cannot be hashed is left out. Where the version of an
/// experiment's hash is neither 1 nor 2, and neither the URL nor a forced
/// variation names a variation, the user is not in the experiment, no hash
/// was used, and the variation is the first, whatever the ranges, the
/// weights and the experiment's own forced variation.
pub proof fn lemma_unknown_version_excludes(
    context: ContextView,
    experiment: ExperimentView,
    feature_id: Option<Seq<char>>,
)
    requires
        version_or_one(experiment.hash_version) != 1,
        version_or_one(experiment.hash_version) != 2,
        context.url.len() == 0 || query_string_override(
            experiment.key,
            context.url,
            variation_count(experiment),
        ) is None,
        lookup(context.forced_variations, experiment.key) is None,
    ensures
        decision(context, experiment) == excluded(),
        !run_result(context, experiment, feature_id).in_experiment,
        !run_result(context, experiment, feature_id).hash_used,
        run_result(context, experiment, feature_id).variation_id == 0,
{
}

/// A filter whose version is neither 1 nor 2 keeps everybody out, whatever
/// its ranges.
pub proof fn lemma_unknown_version_filters_out(
    attributes: Json,
    filters: Seq<FilterView>,
    at: int,
)
    requires
        0 <= at < filters.len(),
        filters[at].hash_version != 1,
        filters[at].hash_version != 2,
    ensures
        filtered_out(attributes, filters),
{
    assert(filter_excludes(attributes, filters[at]));
}

/// `SystemTime::now` of the standard library, chrono's conversion of a
/// system time to a `DateTime<Utc>`, and `DateTime::timestamp_nanos_opt`:
/// the nanoseconds from the start of 1970 to now, negative before it, or
/// `None` where 64 bits do not hold them. Nothing is known of the number.
#[verifier::external_body]
fn clock_nanos() -> (now: Option<i64>) {
    chrono::DateTime::<chrono::Utc>::from(std::time::SystemTime::now()).timestamp_nanos_opt()
}

/// The subscriptions with `id` among them: as they are where it is among
/// them already, else with `id` at the end.
pub open spec fn with_subscription(ids: Seq<i64>, id: i64) -> Seq<i64> {
    if ids.contains(id) {
        ids
    } else {
        ids.push(id)
    }
}

/// The subscriptions without `id`, the others in their order.
pub open spec fn without_subscription(ids: Seq<i64>, id: i64) -> Seq<i64>
    decreases ids.len(),
{
    if ids.len() == 0 {
        Seq::empty()
    } else if ids.last() == id {
        without_subscription(ids.drop_last(), id)
    } else {
        without_subscription(ids.drop_last(), id).push(ids.last())
    }
}

/// What is left after a removal was there before, and the identifier that
/// was removed is not.
pub proof fn lemma_without_subscription(ids: Seq<i64>, id: i64)
    ensures
        !without_subscription(ids, id).contains(id),
        forall|other: i64|
            other != id ==> (without_subscription(ids, id).contains(other) <==> ids.contains(
                other,
            )),
        ids.no_duplicates() ==> without_subscription(ids, id).no_duplicates(),
    decreases ids.len(),
{
    if ids.len() > 0 {
        let rest = ids.drop_last();
        let last = ids.last();
        lemma_without_subscription(rest, id);
        let kept = without_subscription(rest, id);
        assert forall|other: i64| other != id implies (without_subscription(ids, id).contains(
            other,
        ) <==> ids.contains(other)) by {
            if ids.contains(other) {
                let k = choose|k: int| 0 <= k < ids.len() && ids[k] == other;
                if k < rest.len() {
                    assert(rest[k] == other);
                    assert(rest.contains(other));
                    assert(kept.contains(other));
                    let j = choose|j: int| 0 <= j < kept.len() && kept[j] == other;
                    if last != id {
                        assert(kept.push(last)[j] == other);
                    }
                } else {
                    assert(last == other);
                    assert(kept.push(last)[kept.len() as int] == other);
                }
            }
            if without_subscription(ids, id).contains(other) {
                let now = without_subscription(ids, id);
                let j = choose|j: int| 0 <= j < now.len() && now[j] == other;
                if last != id && j == kept.len() {
                    assert(ids[ids.len() - 1] == other);
                } else {
                    assert(kept[j] == other);
                    assert(kept.contains(other));
                    assert(rest.contains(other));
                    let k = choose|k: int| 0 <= k < rest.len() && rest[k] == other;
                    assert(ids[k] == other);
                }
            }
        }
        if last != id {
            let now = kept.push(last);
            assert(!now.contains(id)) by {
                if now.contains(id) {
                    let j = choose|j: int| 0 <= j < now.len() && now[j] == id;
                    assert(kept[j] == id);
                }
            }
            if ids.no_duplicates() {
                assert(rest.no_duplicates());
                assert(!rest.contains(last)) by {
                    if rest.contains(last) {
                        let k = choose|k: int| 0 <= k < rest.len() && rest[k] == last;
                        assert(ids[k] == ids[ids.len() - 1]);
                    }
                }
                assert(!kept.contains(last));
                assert(now.no_duplicates());
            }
        } else {
            if ids.no_duplicates() {
                assert(rest.no_duplicates());
            }
        }
    }
}

impl GrowthBook {
    /// Adds the subscription `id`, unless it is there.
    pub fn subscribe_as(&mut self, id: i64)
        ensures
            final(self).subscriptions@ == with_subscription(old(self).subscriptions@, id),
            final(self).context == old(self).context,
            old(self).subscriptions@.no_duplicates() ==> final(self).subscriptions@.no_duplicates(),
    {
        let mut i: usize = 0;
        while i < self.subscriptions.len()
            invariant
                i <= self.subscriptions.len(),
                *self == *old(self),
                forall|j: int| 0 <= j < i ==> self.subscriptions@[j] != id,
            decreases self.subscriptions.len() - i,
        {
            if self.subscriptions[i] == id {
                return ;
            }
            i += 1;
        }
        self.subscriptions.push(id);
    }

    /// Adds a subscription under an identifier taken from the clock, and
    /// gives the identifier.
    pub fn subscribe(&mut self) -> (id: i64)
        ensures
            final(self).subscriptions@ == with_subscription(old(self).subscriptions@, id),
            final(self).context == old(self).context,
            old(self).subscriptions@.no_duplicates() ==> final(self).subscriptions@.no_duplicates(),
    {
        let id = match clock_nanos() {
            Some(now) => now,
            None => i64::MAX,
        };
        self.subscribe_as(id);
        id
    }

    /// Removes the subscription `id`.
    pub fn unsubscribe(&mut self, subscription_id: i64)
        ensures
            final(self).subscriptions@ == without_subscription(
                old(self).subscriptions@,
                subscription_id,
            ),
            final(self).context == old(self).context,
            old(self).subscriptions@.no_duplicates() ==> final(self).subscriptions@.no_duplicates(),
    {
        proof {
            lemma_without_subscription(self.subscriptions@, subscription_id);
        }
        let mut kept: Vec<i64> = Vec::new();
        let mut i: usize = 0;
        while i < self.subscriptions.len()
            invariant
                i <= self.subscriptions.len(),
                *self == *old(self),
                kept@ == without_subscription(self.subscriptions@.take(i as int), subscription_id),
            decreases self.subscriptions.len() - i,
        {
            proof {
                assert(self.subscriptions@.take(i + 1).drop_last() =~= self.subscriptions@.take(
                    i as int,
                ));
            }
            if self.subscriptions[i] != subscription_id {
                kept.push(self.subscriptions[i]);
            }
            i += 1;
        }
        assert(self.subscriptions@.take(self.subscriptions.len() as int) =~= self.subscriptions@);
        self.subscriptions = kept;
    }

    /// Removes every subscription.
    pub fn clear_subscriptions(&mut self)
        ensures
            final(self).subscriptions@ == Seq::<i64>::empty(),
            final(self).context == old(self).context,
    {
        self.subscriptions = Vec::new();
    }
}

} // verus!
