//! The data model: experiments, features, and the results of evaluating them.
//!
//! A share of the hash space (a weight, a coverage, the bound of a range, the
//! place of a user's hash) is a whole number of parts of which `ONE` make the
//! whole space. Every type has a view that holds its texts as sequences of
//! characters and its JSON values as trees; contracts speak of the views.

use crate::lookup::{
    distinct_keys, lemma_key_position_is, lemma_push_keeps_others, lemma_update_keeps_others, lookup,
};
use crate::text::str_eq;
use crate::value::{Json, Value};
use vstd::prelude::*;
use vstd::string::*;
use vstd::std_specs::cmp::PartialEqSpecImpl;

verus! {

/// The whole hash space, in parts: a share `s` stands for the fraction
/// `s / ONE`.
pub const ONE: i64 = 1_000_000_000_000;

/// How far apart the starts, and the ends, of two ranges may be that count
/// as equal: a thousandth of the space.
pub const TOLERANCE: i64 = 1_000_000_000;

/// A half-open interval of the hash space: from `range_start` up to, not
/// including, `range_end`.
#[derive(Clone, Copy, Debug)]
pub struct BucketRange {
    pub range_start: i64,
    pub range_end: i64,
}

impl DeepView for BucketRange {
    type V = BucketRange;

    open spec fn deep_view(&self) -> BucketRange {
        *self
    }
}

impl View for BucketRange {
    type V = BucketRange;

    open spec fn view(&self) -> BucketRange {
        *self
    }
}

impl Default for BucketRange {
    /// The empty range at 0.
    fn default() -> (range: BucketRange)
        ensures
            range == (BucketRange { range_start: 0, range_end: 0 }),
    {
        BucketRange { range_start: 0, range_end: 0 }
    }
}

impl BucketRange {
    /// Whether two ranges are the same to within the tolerance: their starts
    /// are less than it apart, and so are their ends.
    pub open spec fn close_to(self, other: BucketRange) -> bool {
        &&& -TOLERANCE < self.range_start - other.range_start < TOLERANCE
        &&& -TOLERANCE < self.range_end - other.range_end < TOLERANCE
    }
}

impl PartialEq for BucketRange {
    fn eq(&self, other: &BucketRange) -> (equal: bool) {
        let start_gap: i128 = self.range_start as i128 - other.range_start as i128;
        let end_gap: i128 = self.range_end as i128 - other.range_end as i128;
        -(TOLERANCE as i128) < start_gap && start_gap < TOLERANCE as i128 && -(TOLERANCE as i128)
            < end_gap && end_gap < TOLERANCE as i128
    }
}

impl PartialEqSpecImpl for BucketRange {
    open spec fn obeys_eq_spec() -> bool {
        true
    }

    open spec fn eq_spec(&self, other: &BucketRange) -> bool {
        self.close_to(*other)
    }
}

/// Where the value of a feature came from.
#[derive(Clone, Copy, Debug, PartialEq, Eq, Structural)]
pub enum Source {
    /// No feature has the key.
    UnknownFeature,
    /// No rule applied: the value is the feature's default.
    DefaultValue,
    /// A rule forced the value.
    Force,
    /// An experiment chose the value.
    Experiment,
}

impl Default for Source {
    fn default() -> (source: Source)
        ensures
            source == Source::DefaultValue,
    {
        Source::DefaultValue
    }
}

/// The text `id`: the attribute that is hashed unless another is named.
pub fn id_text() -> (text: String)
    ensures
        text@ == "id"@,
{
    String::from_str("id")
}

/// The version of the hash of a filter that names none.
pub fn filter_hash_version() -> (version: i32)
    ensures
        version == 2,
{
    2
}

/// The attribute that a filter hashes where it names none.
pub fn filter_attribute() -> (attribute: String)
    ensures
        attribute@ == "id"@,
{
    id_text()
}

/// Whether a context lets experiments run where it does not say.
pub fn context_enabled() -> (enabled: bool)
    ensures
        enabled,
{
    true
}

/// What is known of one variation of an experiment, beside its value.
#[derive(Debug, PartialEq)]
pub struct VariationMeta {
    /// The key under which the variation is reported, in place of its index.
    pub key: Option<String>,
    /// A name for people to read.
    pub name: Option<String>,
    /// Whether a user who gets this variation passes through to the next rule.
    pub passthrough: Option<bool>,
}

/// A `VariationMeta` as contracts see it.
pub struct VariationMetaView {
    pub key: Option<Seq<char>>,
    pub name: Option<Seq<char>>,
    pub passthrough: Option<bool>,
}

impl DeepView for VariationMeta {
    type V = VariationMetaView;

    open spec fn deep_view(&self) -> VariationMetaView {
        VariationMetaView {
            key: self.key.deep_view(),
            name: self.name.deep_view(),
            passthrough: self.passthrough,
        }
    }
}

impl View for VariationMeta {
    type V = VariationMetaView;

    open spec fn view(&self) -> VariationMetaView {
        self.deep_view()
    }
}

impl VariationMeta {
    /// The view of the default value.
    pub open spec fn default_view() -> VariationMetaView {
        VariationMetaView {
            key: None,
            name: None,
            passthrough: None,
        }
    }
}

impl Default for VariationMeta {
    fn default() -> (value: VariationMeta)
        ensures
            value@ == VariationMeta::default_view(),
    {
        let value = VariationMeta {
            key: None,
            name: None,
            passthrough: None,
        };
        assert(value@ =~~= VariationMeta::default_view());
        value
    }
}

impl Clone for VariationMeta {
    fn clone(&self) -> (copy: VariationMeta)
        ensures
            copy@ == self@,
    {
        VariationMeta {
            key: clone_text_option(&self.key),
            name: clone_text_option(&self.name),
            passthrough: self.passthrough,
        }
    }
}

/// A share of the hash space that experiments of one family divide among
/// themselves, so that no user is in two of them.
#[derive(Debug, PartialEq)]
pub struct Namespace {
    /// The name of the family.
    pub id: String,
    /// Where the share starts.
    pub range_start: i64,
    /// Where the share ends; the end itself is outside.
    pub range_end: i64,
}

/// A `Namespace` as contracts see it.
pub struct NamespaceView {
    pub id: Seq<char>,
    pub range_start: i64,
    pub range_end: i64,
}

impl DeepView for Namespace {
    type V = NamespaceView;

    open spec fn deep_view(&self) -> NamespaceView {
        NamespaceView {
            id: self.id.deep_view(),
            range_start: self.range_start,
            range_end: self.range_end,
        }
    }
}

impl View for Namespace {
    type V = NamespaceView;

    open spec fn view(&self) -> NamespaceView {
        self.deep_view()
    }
}

impl Namespace {
    /// The view of the default value.
    pub open spec fn default_view() -> NamespaceView {
        NamespaceView {
            id: Seq::empty(),
            range_start: 0,
            range_end: 0,
        }
    }
}

impl Default for Namespace {
    fn default() -> (value: Namespace)
        ensures
            value@ == Namespace::default_view(),
    {
        let value = Namespace {
            id: String::new(),
            range_start: 0,
            range_end: 0,
        };
        assert(value@ =~~= Namespace::default_view());
        value
    }
}

impl Clone for Namespace {
    fn clone(&self) -> (copy: Namespace)
        ensures
            copy@ == self@,
    {
        Namespace {
            id: self.id.clone(),
            range_start: self.range_start,
            range_end: self.range_end,
        }
    }
}

/// A gate on the users of a rule or an experiment: the user's hash under the
/// filter's own seed has to fall in one of its ranges.
#[derive(Debug, PartialEq)]
pub struct Filter {
    /// The seed of the hash.
    pub seed: String,
    /// The ranges that let a user through.
    pub ranges: Vec<BucketRange>,
    /// The version of the hash; 2 unless stated.
    pub hash_version: i32,
    /// The attribute that is hashed; `id` unless stated.
    pub attribute: String,
}

/// A `Filter` as contracts see it.
pub struct FilterView {
    pub seed: Seq<char>,
    pub ranges: Seq<BucketRange>,
    pub hash_version: i32,
    pub attribute: Seq<char>,
}

impl DeepView for Filter {
    type V = FilterView;

    open spec fn deep_view(&self) -> FilterView {
        FilterView {
            seed: self.seed.deep_view(),
            ranges: self.ranges.deep_view(),
            hash_version: self.hash_version,
            attribute: self.attribute.deep_view(),
        }
    }
}

impl View for Filter {
    type V = FilterView;

    open spec fn view(&self) -> FilterView {
        self.deep_view()
    }
}

impl Filter {
    /// The view of the default value.
    pub open spec fn default_view() -> FilterView {
        FilterView {
            seed: Seq::empty(),
            ranges: Seq::empty(),
            hash_version: 2,
            attribute: "id"@,
        }
    }
}

impl Default for Filter {
    fn default() -> (value: Filter)
        ensures
            value@ == Filter::default_view(),
    {
        let value = Filter {
            seed: String::new(),
            ranges: Vec::new(),
            hash_version: filter_hash_version(),
            attribute: filter_attribute(),
        };
        assert(value.ranges.deep_view() =~= Seq::<BucketRange>::empty());
        assert(value@ =~~= Filter::default_view());
        value
    }
}

impl Clone for Filter {
    fn clone(&self) -> (copy: Filter)
        ensures
            copy@ == self@,
    {
        Filter {
            seed: self.seed.clone(),
            ranges: clone_ranges(&self.ranges),
            hash_version: self.hash_version,
            attribute: self.attribute.clone(),
        }
    }
}

/// An experiment: variations, and the rules by which users are assigned to
/// them.
#[derive(Debug, PartialEq)]
pub struct Experiment {
    /// The name of the experiment, and the seed of its hash unless it has one.
    pub key: String,
    /// The values among which the experiment chooses.
    pub variations: Vec<Value>,
    /// The share of the traffic that each variation gets.
    pub weights: Vec<i64>,
    /// Whether the experiment runs; it does unless this is `false`.
    pub active: Option<bool>,
    /// The share of the users that take part; all of them unless stated.
    pub coverage: Option<i64>,
    /// The range of each variation, where given in place of weights.
    pub ranges: Vec<BucketRange>,
    /// A condition that the user's attributes have to meet.
    pub condition: Option<Value>,
    /// The namespace that the experiment shares with others.
    pub namespace: Option<Namespace>,
    /// A variation that every user gets who would have been assigned one.
    pub force: Option<i32>,
    /// The attribute that is hashed; `id` unless stated.
    pub hash_attribute: Option<String>,
    /// The version of the hash; 1 unless stated.
    pub hash_version: Option<i32>,
    /// What is known of each variation, in the order of the variations.
    pub meta: Vec<VariationMeta>,
    /// Gates that take the place of the namespace.
    pub filters: Vec<Filter>,
    /// The seed of the hash, where it is not the key.
    pub seed: Option<String>,
    /// A name for people to read.
    pub name: Option<String>,
    /// The phase of the experiment.
    pub phase: Option<String>,
}

/// A `Experiment` as contracts see it.
pub struct ExperimentView {
    pub key: Seq<char>,
    pub variations: Seq<Json>,
    pub weights: Seq<i64>,
    pub active: Option<bool>,
    pub coverage: Option<i64>,
    pub ranges: Seq<BucketRange>,
    pub condition: Option<Json>,
    pub namespace: Option<NamespaceView>,
    pub force: Option<i32>,
    pub hash_attribute: Option<Seq<char>>,
    pub hash_version: Option<i32>,
    pub meta: Seq<VariationMetaView>,
    pub filters: Seq<FilterView>,
    pub seed: Option<Seq<char>>,
    pub name: Option<Seq<char>>,
    pub phase: Option<Seq<char>>,
}

impl DeepView for Experiment {
    type V = ExperimentView;

    open spec fn deep_view(&self) -> ExperimentView {
        ExperimentView {
            key: self.key.deep_view(),
            variations: self.variations.deep_view(),
            weights: self.weights.deep_view(),
            active: self.active,
            coverage: self.coverage,
            ranges: self.ranges.deep_view(),
            condition: self.condition.deep_view(),
            namespace: self.namespace.deep_view(),
            force: self.force,
            hash_attribute: self.hash_attribute.deep_view(),
            hash_version: self.hash_version,
            meta: self.meta.deep_view(),
            filters: self.filters.deep_view(),
            seed: self.seed.deep_view(),
            name: self.name.deep_view(),
            phase: self.phase.deep_view(),
        }
    }
}

impl View for Experiment {
    type V = ExperimentView;

    open spec fn view(&self) -> ExperimentView {
        self.deep_view()
    }
}

impl Experiment {
    /// The view of the default value.
    pub open spec fn default_view() -> ExperimentView {
        ExperimentView {
            key: Seq::empty(),
            variations: Seq::empty(),
            weights: Seq::empty(),
            active: None,
            coverage: None,
            ranges: Seq::empty(),
            condition: None,
            namespace: None,
            force: None,
            hash_attribute: None,
            hash_version: None,
            meta: Seq::empty(),
            filters: Seq::empty(),
            seed: None,
            name: None,
            phase: None,
        }
    }
}

impl Default for Experiment {
    fn default() -> (value: Experiment)
        ensures
            value@ == Experiment::default_view(),
    {
        let value = Experiment {
            key: String::new(),
            variations: Vec::new(),
            weights: Vec::new(),
            active: None,
            coverage: None,
            ranges: Vec::new(),
            condition: None,
            namespace: None,
            force: None,
            hash_attribute: None,
            hash_version: None,
            meta: Vec::new(),
            filters: Vec::new(),
            seed: None,
            name: None,
            phase: None,
        };
        assert(value.variations.deep_view() =~= Seq::<Json>::empty());
        assert(value.weights.deep_view() =~= Seq::<i64>::empty());
        assert(value.ranges.deep_view() =~= Seq::<BucketRange>::empty());
        assert(value.meta.deep_view() =~= Seq::<VariationMetaView>::empty());
        assert(value.filters.deep_view() =~= Seq::<FilterView>::empty());
        assert(value@ =~~= Experiment::default_view());
        value
    }
}

impl Clone for Experiment {
    fn clone(&self) -> (copy: Experiment)
        ensures
            copy@ == self@,
    {
        Experiment {
            key: self.key.clone(),
            variations: clone_values(&self.variations),
            weights: clone_shares(&self.weights),
            active: self.active,
            coverage: self.coverage,
            ranges: clone_ranges(&self.ranges),
            condition: clone_value_option(&self.condition),
            namespace: clone_namespace_option(&self.namespace),
            force: self.force,
            hash_attribute: clone_text_option(&self.hash_attribute),
            hash_version: self.hash_version,
            meta: clone_metas(&self.meta),
            filters: clone_filters(&self.filters),
            seed: clone_text_option(&self.seed),
            name: clone_text_option(&self.name),
            phase: clone_text_option(&self.phase),
        }
    }
}

/// What running an experiment for a user gave.
#[derive(Debug, PartialEq)]
pub struct ExperimentResult {
    /// Whether the user takes part.
    pub in_experiment: bool,
    /// The index of the variation that the user gets.
    pub variation_id: i32,
    /// The value of that variation.
    pub value: Value,
    /// Whether the variation was chosen by hashing.
    pub hash_used: bool,
    /// The attribute that was hashed.
    pub hash_attribute: String,
    /// The value of that attribute.
    pub hash_value: Value,
    /// The feature on whose behalf the experiment ran.
    pub feature_id: Option<String>,
    /// The key of the variation: that of its metadata, or its index in decimal.
    pub key: String,
    /// Where the hash put the user.
    pub bucket: i64,
    /// The name of the variation.
    pub name: Option<String>,
    /// Whether the variation passes the user on to the next rule.
    pub passthrough: bool,
}

/// A `ExperimentResult` as contracts see it.
pub struct ExperimentResultView {
    pub in_experiment: bool,
    pub variation_id: i32,
    pub value: Json,
    pub hash_used: bool,
    pub hash_attribute: Seq<char>,
    pub hash_value: Json,
    pub feature_id: Option<Seq<char>>,
    pub key: Seq<char>,
    pub bucket: i64,
    pub name: Option<Seq<char>>,
    pub passthrough: bool,
}

impl DeepView for ExperimentResult {
    type V = ExperimentResultView;

    open spec fn deep_view(&self) -> ExperimentResultView {
        ExperimentResultView {
            in_experiment: self.in_experiment,
            variation_id: self.variation_id,
            value: self.value.deep_view(),
            hash_used: self.hash_used,
            hash_attribute: self.hash_attribute.deep_view(),
            hash_value: self.hash_value.deep_view(),
            feature_id: self.feature_id.deep_view(),
            key: self.key.deep_view(),
            bucket: self.bucket,
            name: self.name.deep_view(),
            passthrough: self.passthrough,
        }
    }
}

impl View for ExperimentResult {
    type V = ExperimentResultView;

    open spec fn view(&self) -> ExperimentResultView {
        self.deep_view()
    }
}

impl ExperimentResult {
    /// The view of the default value.
    pub open spec fn default_view() -> ExperimentResultView {
        ExperimentResultView {
            in_experiment: false,
            variation_id: 0,
            value: Json::Null,
            hash_used: false,
            hash_attribute: Seq::empty(),
            hash_value: Json::Null,
            feature_id: None,
            key: Seq::empty(),
            bucket: 0,
            name: None,
            passthrough: false,
        }
    }
}

impl Default for ExperimentResult {
    fn default() -> (value: ExperimentResult)
        ensures
            value@ == ExperimentResult::default_view(),
    {
        let value = ExperimentResult {
            in_experiment: false,
            variation_id: 0,
            value: Value::Null,
            hash_used: false,
            hash_attribute: String::new(),
            hash_value: Value::Null,
            feature_id: None,
            key: String::new(),
            bucket: 0,
            name: None,
            passthrough: false,
        };
        assert(value@ =~~= ExperimentResult::default_view());
        value
    }
}

impl Clone for ExperimentResult {
    fn clone(&self) -> (copy: ExperimentResult)
        ensures
            copy@ == self@,
    {
        ExperimentResult {
            in_experiment: self.in_experiment,
            variation_id: self.variation_id,
            value: self.value.clone(),
            hash_used: self.hash_used,
            hash_attribute: self.hash_attribute.clone(),
            hash_value: self.hash_value.clone(),
            feature_id: clone_text_option(&self.feature_id),
            key: self.key.clone(),
            bucket: self.bucket,
            name: clone_text_option(&self.name),
            passthrough: self.passthrough,
        }
    }
}

/// An experiment with a result, to be reported as an exposure.
#[derive(Debug, PartialEq)]
pub struct TrackData {
    /// The experiment.
    pub experiment: Experiment,
    /// Its result.
    pub result: ExperimentResult,
}

/// A `TrackData` as contracts see it.
pub struct TrackDataView {
    pub experiment: ExperimentView,
    pub result: ExperimentResultView,
}

impl DeepView for TrackData {
    type V = TrackDataView;

    open spec fn deep_view(&self) -> TrackDataView {
        TrackDataView {
            experiment: self.experiment.deep_view(),
            result: self.result.deep_view(),
        }
    }
}

impl View for TrackData {
    type V = TrackDataView;

    open spec fn view(&self) -> TrackDataView {
        self.deep_view()
    }
}

impl TrackData {
    /// The view of the default value.
    pub open spec fn default_view() -> TrackDataView {
        TrackDataView {
            experiment: Experiment::default_view(),
            result: ExperimentResult::default_view(),
        }
    }
}

impl Default for TrackData {
    fn default() -> (value: TrackData)
        ensures
            value@ == TrackData::default_view(),
    {
        let value = TrackData {
            experiment: Experiment::default(),
            result: ExperimentResult::default(),
        };
        assert(value@ =~~= TrackData::default_view());
        value
    }
}

impl Clone for TrackData {
    fn clone(&self) -> (copy: TrackData)
        ensures
            copy@ == self@,
    {
        TrackData {
            experiment: self.experiment.clone(),
            result: self.result.clone(),
        }
    }
}

/// One rule of a feature. A rule with `force` gives that value to the users it
/// covers; any other rule is an experiment.
#[derive(Debug, PartialEq)]
pub struct FeatureRule {
    /// A condition that the user's attributes have to meet.
    pub condition: Option<Value>,
    /// The share of the users that the rule covers.
    pub coverage: Option<i64>,
    /// The value that the rule forces.
    pub force: Option<Value>,
    /// The variations of the rule's experiment.
    pub variations: Vec<Value>,
    /// The key of the rule's experiment; the feature's key unless stated.
    pub key: Option<String>,
    /// The share of the traffic that each variation gets.
    pub weights: Vec<i64>,
    /// The namespace of the rule's experiment.
    pub namespace: Option<Namespace>,
    /// The attribute that is hashed; `id` unless stated.
    pub hash_attribute: Option<String>,
    /// The version of the hash; 1 unless stated.
    pub hash_version: Option<i32>,
    /// The range of hashes that a forced value is rolled out to.
    pub range: Option<BucketRange>,
    /// The range of each variation.
    pub ranges: Vec<BucketRange>,
    /// What is known of each variation.
    pub meta: Vec<VariationMeta>,
    /// Gates on the users of the rule.
    pub filters: Vec<Filter>,
    /// The seed of the hash, where it is not the key.
    pub seed: Option<String>,
    /// A name for people to read.
    pub name: Option<String>,
    /// The phase of the rule's experiment.
    pub phase: Option<String>,
    /// Exposures to report when the rule forces its value.
    pub tracks: Vec<TrackData>,
}

/// A `FeatureRule` as contracts see it.
pub struct FeatureRuleView {
    pub condition: Option<Json>,
    pub coverage: Option<i64>,
    pub force: Option<Json>,
    pub variations: Seq<Json>,
    pub key: Option<Seq<char>>,
    pub weights: Seq<i64>,
    pub namespace: Option<NamespaceView>,
    pub hash_attribute: Option<Seq<char>>,
    pub hash_version: Option<i32>,
    pub range: Option<BucketRange>,
    pub ranges: Seq<BucketRange>,
    pub meta: Seq<VariationMetaView>,
    pub filters: Seq<FilterView>,
    pub seed: Option<Seq<char>>,
    pub name: Option<Seq<char>>,
    pub phase: Option<Seq<char>>,
    pub tracks: Seq<TrackDataView>,
}

impl DeepView for FeatureRule {
    type V = FeatureRuleView;

    open spec fn deep_view(&self) -> FeatureRuleView {
        FeatureRuleView {
            condition: self.condition.deep_view(),
            coverage: self.coverage,
            force: self.force.deep_view(),
            variations: self.variations.deep_view(),
            key: self.key.deep_view(),
            weights: self.weights.deep_view(),
            namespace: self.namespace.deep_view(),
            hash_attribute: self.hash_attribute.deep_view(),
            hash_version: self.hash_version,
            range: self.range,
            ranges: self.ranges.deep_view(),
            meta: self.meta.deep_view(),
            filters: self.filters.deep_view(),
            seed: self.seed.deep_view(),
            name: self.name.deep_view(),
            phase: self.phase.deep_view(),
            tracks: self.tracks.deep_view(),
        }
    }
}

impl View for FeatureRule {
    type V = FeatureRuleView;

    open spec fn view(&self) -> FeatureRuleView {
        self.deep_view()
    }
}

impl FeatureRule {
    /// The view of the default value.
    pub open spec fn default_view() -> FeatureRuleView {
        FeatureRuleView {
            condition: None,
            coverage: None,
            force: None,
            variations: Seq::empty(),
            key: None,
            weights: Seq::empty(),
            namespace: None,
            hash_attribute: None,
            hash_version: None,
            range: None,
            ranges: Seq::empty(),
            meta: Seq::empty(),
            filters: Seq::empty(),
            seed: None,
            name: None,
            phase: None,
            tracks: Seq::empty(),
        }
    }
}

impl Default for FeatureRule {
    fn default() -> (value: FeatureRule)
        ensures
            value@ == FeatureRule::default_view(),
    {
        let value = FeatureRule {
            condition: None,
            coverage: None,
            force: None,
            variations: Vec::new(),
            key: None,
            weights: Vec::new(),
            namespace: None,
            hash_attribute: None,
            hash_version: None,
            range: None,
            ranges: Vec::new(),
            meta: Vec::new(),
            filters: Vec::new(),
            seed: None,
            name: None,
            phase: None,
            tracks: Vec::new(),
        };
        assert(value.variations.deep_view() =~= Seq::<Json>::empty());
        assert(value.weights.deep_view() =~= Seq::<i64>::empty());
        assert(value.ranges.deep_view() =~= Seq::<BucketRange>::empty());
        assert(value.meta.deep_view() =~= Seq::<VariationMetaView>::empty());
        assert(value.filters.deep_view() =~= Seq::<FilterView>::empty());
        assert(value.tracks.deep_view() =~= Seq::<TrackDataView>::empty());
        assert(value@ =~~= FeatureRule::default_view());
        value
    }
}

impl Clone for FeatureRule {
    fn clone(&self) -> (copy: FeatureRule)
        ensures
            copy@ == self@,
    {
        FeatureRule {
            condition: clone_value_option(&self.condition),
            coverage: self.coverage,
            force: clone_value_option(&self.force),
            variations: clone_values(&self.variations),
            key: clone_text_option(&self.key),
            weights: clone_shares(&self.weights),
            namespace: clone_namespace_option(&self.namespace),
            hash_attribute: clone_text_option(&self.hash_attribute),
            hash_version: self.hash_version,
            range: self.range,
            ranges: clone_ranges(&self.ranges),
            meta: clone_metas(&self.meta),
            filters: clone_filters(&self.filters),
            seed: clone_text_option(&self.seed),
            name: clone_text_option(&self.name),
            phase: clone_text_option(&self.phase),
            tracks: clone_tracks(&self.tracks),
        }
    }
}

/// What evaluating a feature for a user gave.
#[derive(Debug, PartialEq)]
pub struct FeatureResult {
    /// The value of the feature.
    pub value: Value,
    /// Whether the value is truthy.
    pub on: bool,
    /// Whether it is not.
    pub off: bool,
    /// Where the value came from.
    pub source: Source,
    /// The experiment that chose the value, if one did.
    pub experiment: Option<Experiment>,
    /// The result of that experiment.
    pub experiment_result: Option<ExperimentResult>,
}

/// A `FeatureResult` as contracts see it.
pub struct FeatureResultView {
    pub value: Json,
    pub on: bool,
    pub off: bool,
    pub source: Source,
    pub experiment: Option<ExperimentView>,
    pub experiment_result: Option<ExperimentResultView>,
}

impl DeepView for FeatureResult {
    type V = FeatureResultView;

    open spec fn deep_view(&self) -> FeatureResultView {
        FeatureResultView {
            value: self.value.deep_view(),
            on: self.on,
            off: self.off,
            source: self.source,
            experiment: self.experiment.deep_view(),
            experiment_result: self.experiment_result.deep_view(),
        }
    }
}

impl View for FeatureResult {
    type V = FeatureResultView;

    open spec fn view(&self) -> FeatureResultView {
        self.deep_view()
    }
}

impl FeatureResult {
    /// The view of the default value.
    pub open spec fn default_view() -> FeatureResultView {
        FeatureResultView {
            value: Json::Null,
            on: false,
            off: false,
            source: Source::DefaultValue,
            experiment: None,
            experiment_result: None,
        }
    }
}

impl Default for FeatureResult {
    fn default() -> (value: FeatureResult)
        ensures
            value@ == FeatureResult::default_view(),
    {
        let value = FeatureResult {
            value: Value::Null,
            on: false,
            off: false,
            source: Source::DefaultValue,
            experiment: None,
            experiment_result: None,
        };
        assert(value@ =~~= FeatureResult::default_view());
        value
    }
}

impl Clone for FeatureResult {
    fn clone(&self) -> (copy: FeatureResult)
        ensures
            copy@ == self@,
    {
        FeatureResult {
            value: self.value.clone(),
            on: self.on,
            off: self.off,
            source: self.source,
            experiment: clone_experiment_option(&self.experiment),
            experiment_result: clone_result_option(&self.experiment_result),
        }
    }
}

/// A feature: a value by default, and rules that are tried in order.
#[derive(Debug, PartialEq)]
pub struct Feature {
    /// The value where no rule applies.
    pub default_value: Option<Value>,
    /// The rules, in the order in which they are tried.
    pub rules: Vec<FeatureRule>,
}

/// A `Feature` as contracts see it.
pub struct FeatureView {
    pub default_value: Option<Json>,
    pub rules: Seq<FeatureRuleView>,
}

impl DeepView for Feature {
    type V = FeatureView;

    open spec fn deep_view(&self) -> FeatureView {
        FeatureView {
            default_value: self.default_value.deep_view(),
            rules: self.rules.deep_view(),
        }
    }
}

impl View for Feature {
    type V = FeatureView;

    open spec fn view(&self) -> FeatureView {
        self.deep_view()
    }
}

impl Feature {
    /// The view of the default value.
    pub open spec fn default_view() -> FeatureView {
        FeatureView {
            default_value: None,
            rules: Seq::empty(),
        }
    }
}

impl Default for Feature {
    fn default() -> (value: Feature)
        ensures
            value@ == Feature::default_view(),
    {
        let value = Feature {
            default_value: None,
            rules: Vec::new(),
        };
        assert(value.rules.deep_view() =~= Seq::<FeatureRuleView>::empty());
        assert(value@ =~~= Feature::default_view());
        value
    }
}

impl Clone for Feature {
    fn clone(&self) -> (copy: Feature)
        ensures
            copy@ == self@,
    {
        Feature {
            default_value: clone_value_option(&self.default_value),
            rules: clone_rules(&self.rules),
        }
    }
}

/// All that an evaluation reads: who the user is, and what is defined.
#[derive(Debug)]
pub struct Context {
    /// Whether experiments run at all.
    pub enabled: bool,
    /// The host that serves the definitions.
    pub api_host: Option<String>,
    /// The key that names this client to the host.
    pub client_key: Option<String>,
    /// The key that decrypts the definitions.
    pub decryption_key: Option<String>,
    /// The attributes of the user.
    pub attributes: Value,
    /// The URL of the page, for overrides in its query string.
    pub url: String,
    /// The features that are defined.
    pub features: FeatureMap,
    /// Variations forced by experiment key.
    pub forced_variations: ForcedVariationsMap,
    /// Whether assignment by hashing is switched off.
    pub qa_mode: bool,
}

/// A `Context` as contracts see it.
pub struct ContextView {
    pub enabled: bool,
    pub api_host: Option<Seq<char>>,
    pub client_key: Option<Seq<char>>,
    pub decryption_key: Option<Seq<char>>,
    pub attributes: Json,
    pub url: Seq<char>,
    pub features: Seq<(Seq<char>, FeatureView)>,
    pub forced_variations: Seq<(Seq<char>, i32)>,
    pub qa_mode: bool,
}

impl DeepView for Context {
    type V = ContextView;

    open spec fn deep_view(&self) -> ContextView {
        ContextView {
            enabled: self.enabled,
            api_host: self.api_host.deep_view(),
            client_key: self.client_key.deep_view(),
            decryption_key: self.decryption_key.deep_view(),
            attributes: self.attributes.deep_view(),
            url: self.url.deep_view(),
            features: self.features.deep_view(),
            forced_variations: self.forced_variations.deep_view(),
            qa_mode: self.qa_mode,
        }
    }
}

impl View for Context {
    type V = ContextView;

    open spec fn view(&self) -> ContextView {
        self.deep_view()
    }
}

impl Context {
    /// The view of the default value.
    pub open spec fn default_view() -> ContextView {
        ContextView {
            enabled: true,
            api_host: None,
            client_key: None,
            decryption_key: None,
            attributes: Json::Null,
            url: Seq::empty(),
            features: Seq::empty(),
            forced_variations: Seq::empty(),
            qa_mode: false,
        }
    }
}

impl Default for Context {
    fn default() -> (value: Context)
        ensures
            value@ == Context::default_view(),
    {
        let value = Context {
            enabled: context_enabled(),
            api_host: None,
            client_key: None,
            decryption_key: None,
            attributes: Value::Null,
            url: String::new(),
            features: FeatureMap::new(),
            forced_variations: ForcedVariationsMap::new(),
            qa_mode: false,
        };
        assert(value@ =~~= Context::default_view());
        value
    }
}

impl Clone for Context {
    fn clone(&self) -> (copy: Context)
        ensures
            copy@ == self@,
    {
        Context {
            enabled: self.enabled,
            api_host: clone_text_option(&self.api_host),
            client_key: clone_text_option(&self.client_key),
            decryption_key: clone_text_option(&self.decryption_key),
            attributes: self.attributes.clone(),
            url: self.url.clone(),
            features: self.features.clone(),
            forced_variations: self.forced_variations.clone(),
            qa_mode: self.qa_mode,
        }
    }
}

/// The features that are defined, each under its key. A lookup finds the
/// first entry with the key. A map made by `new` is well formed, and
/// `insert` and `clone` keep it so.
#[derive(Debug, PartialEq)]
pub struct FeatureMap {
    pub entries: Vec<(String, Feature)>,
}

impl DeepView for FeatureMap {
    type V = Seq<(Seq<char>, FeatureView)>;

    open spec fn deep_view(&self) -> Seq<(Seq<char>, FeatureView)> {
        Seq::new(self.entries@.len(), |i: int| (self.entries@[i].0@, self.entries@[i].1@))
    }
}

impl View for FeatureMap {
    type V = Seq<(Seq<char>, FeatureView)>;

    open spec fn view(&self) -> Seq<(Seq<char>, FeatureView)> {
        self.deep_view()
    }
}

impl FeatureMap {
    /// The map is well formed: no key occurs twice, so that an entry is
    /// found under its key whichever entry it is.
    pub open spec fn wf(&self) -> bool {
        distinct_keys(self@)
    }

    /// No features.
    pub fn new() -> (map: FeatureMap)
        ensures
            map@ == Seq::<(Seq<char>, FeatureView)>::empty(),
            map.wf(),
    {
        let map = FeatureMap { entries: Vec::new() };
        assert(map@ =~= Seq::<(Seq<char>, FeatureView)>::empty());
        map
    }

    /// The number of entries.
    pub fn len(&self) -> (n: usize)
        ensures
            n == self@.len(),
    {
        self.entries.len()
    }

    /// The feature under `key`.
    pub fn get(&self, key: &str) -> (found: Option<&Feature>)
        ensures
            found.deep_view() == lookup(self@, key@),
    {
        let ghost model = self@;
        let mut i: usize = 0;
        while i < self.entries.len()
            invariant
                i <= self.entries.len(),
                model == self@,
                forall|j: int| 0 <= j < i ==> (#[trigger] model[j]).0 != key@,
            decreases self.entries.len() - i,
        {
            if str_eq(self.entries[i].0.as_str(), key) {
                proof {
                    lemma_key_position_is(model, key@, i as int);
                }
                return Some(&self.entries[i].1);
            }
            i += 1;
        }
        proof {
            lemma_key_position_is(model, key@, i as int);
        }
        None
    }

    /// Whether a feature is defined under `key`.
    pub fn contains_key(&self, key: &str) -> (found: bool)
        ensures
            found == lookup(self@, key@).is_some(),
    {
        self.get(key).is_some()
    }

    /// Defines `feature` under `key`, in place of what was defined under it.
    pub fn insert(&mut self, key: String, feature: Feature)
        ensures
            lookup(final(self)@, key@) == Some(feature@),
            forall|other: Seq<char>|
                other != key@ ==> lookup(final(self)@, other) == lookup(old(self)@, other),
            old(self).wf() ==> final(self).wf(),
            final(self)@.len() == if lookup(old(self)@, key@).is_some() {
                old(self)@.len()
            } else {
                old(self)@.len() + 1
            },
    {
        let ghost before = self@;
        let mut i: usize = 0;
        while i < self.entries.len()
            invariant
                i <= self.entries.len(),
                before == self@,
                *self == *old(self),
                forall|j: int| 0 <= j < i ==> (#[trigger] before[j]).0 != key@,
            decreases self.entries.len() - i,
        {
            if str_eq(self.entries[i].0.as_str(), key.as_str()) {
                proof {
                    lemma_key_position_is(before, key@, i as int);
                }
                let ghost feature_view = feature@;
                self.entries[i] = (key, feature);
                proof {
                    let after = self@;
                    assert(after =~= before.update(i as int, (key@, feature_view)));
                    lemma_key_position_is(after, key@, i as int);
                    assert forall|other: Seq<char>| other != key@ implies lookup(after, other)
                        == lookup(before, other) by {
                        lemma_update_keeps_others(before, i as int, feature_view, other);
                    }
                    assert(distinct_keys(before) ==> distinct_keys(after)) by {
                        if distinct_keys(before) {
                            assert forall|a: int, b: int| 0 <= a < b < after.len() implies (
                            #[trigger] after[a]).0 != (#[trigger] after[b]).0 by {
                                assert(after[a].0 == before[a].0);
                                assert(after[b].0 == before[b].0);
                            }
                        }
                    }
                }
                return ;
            }
            i += 1;
        }
        proof {
            lemma_key_position_is(before, key@, i as int);
        }
        let ghost feature_view = feature@;
        self.entries.push((key, feature));
        proof {
            let after = self@;
            assert(after =~= before.push((key@, feature_view)));
            lemma_key_position_is(after, key@, before.len() as int);
            assert forall|other: Seq<char>| other != key@ implies lookup(after, other) == lookup(
                before,
                other,
            ) by {
                lemma_push_keeps_others(before, key@, feature_view, other);
            }
            assert(distinct_keys(before) ==> distinct_keys(after)) by {
                if distinct_keys(before) {
                    assert forall|a: int, b: int| 0 <= a < b < after.len() implies (
                    #[trigger] after[a]).0 != (#[trigger] after[b]).0 by {
                        if b < before.len() {
                            assert(after[a].0 == before[a].0);
                            assert(after[b].0 == before[b].0);
                        } else {
                            assert(after[a] == before[a]);
                        }
                    }
                }
            }
        }
    }
}

impl Default for FeatureMap {
    fn default() -> (map: FeatureMap)
        ensures
            map@ == Seq::<(Seq<char>, FeatureView)>::empty(),
            map.wf(),
    {
        FeatureMap::new()
    }
}

impl Clone for FeatureMap {
    fn clone(&self) -> (copy: FeatureMap)
        ensures
            copy@ == self@,
            copy.wf() == self.wf(),
    {
        let mut entries: Vec<(String, Feature)> = Vec::new();
        let mut i: usize = 0;
        while i < self.entries.len()
            invariant
                i <= self.entries.len(),
                entries.len() == i,
                forall|j: int|
                    0 <= j < i ==> (#[trigger] entries@[j]).0@ == self.entries@[j].0@ && entries@[j].1@
                        == self.entries@[j].1@,
            decreases self.entries.len() - i,
        {
            let key = self.entries[i].0.clone();
            let feature = self.entries[i].1.clone();
            entries.push((key, feature));
            i += 1;
        }
        let copy = FeatureMap { entries };
        assert(copy@ =~= self@);
        copy
    }
}

/// Variations forced on experiments, each under the key of its experiment.
#[derive(Debug, PartialEq)]
pub struct ForcedVariationsMap {
    pub entries: Vec<(String, i32)>,
}

impl DeepView for ForcedVariationsMap {
    type V = Seq<(Seq<char>, i32)>;

    open spec fn deep_view(&self) -> Seq<(Seq<char>, i32)> {
        Seq::new(self.entries@.len(), |i: int| (self.entries@[i].0@, self.entries@[i].1))
    }
}

impl View for ForcedVariationsMap {
    type V = Seq<(Seq<char>, i32)>;

    open spec fn view(&self) -> Seq<(Seq<char>, i32)> {
        self.deep_view()
    }
}

impl ForcedVariationsMap {
    /// The map is well formed: no key occurs twice, so that an entry is
    /// found under its key whichever entry it is.
    pub open spec fn wf(&self) -> bool {
        distinct_keys(self@)
    }

    /// No forced variations.
    pub fn new() -> (map: ForcedVariationsMap)
        ensures
            map@ == Seq::<(Seq<char>, i32)>::empty(),
            map.wf(),
    {
        let map = ForcedVariationsMap { entries: Vec::new() };
        assert(map@ =~= Seq::<(Seq<char>, i32)>::empty());
        map
    }

    /// The number of entries.
    pub fn len(&self) -> (n: usize)
        ensures
            n == self@.len(),
    {
        self.entries.len()
    }

    /// The variation forced on the experiment `key`.
    pub fn get(&self, key: &str) -> (found: Option<i32>)
        ensures
            found == lookup(self@, key@),
    {
        let ghost model = self@;
        let mut i: usize = 0;
        while i < self.entries.len()
            invariant
                i <= self.entries.len(),
                model == self@,
                forall|j: int| 0 <= j < i ==> (#[trigger] model[j]).0 != key@,
            decreases self.entries.len() - i,
        {
            if str_eq(self.entries[i].0.as_str(), key) {
                proof {
                    lemma_key_position_is(model, key@, i as int);
                }
                return Some(self.entries[i].1);
            }
            i += 1;
        }
        proof {
            lemma_key_position_is(model, key@, i as int);
        }
        None
    }

    /// Whether a variation is forced on the experiment `key`.
    pub fn contains_key(&self, key: &str) -> (found: bool)
        ensures
            found == lookup(self@, key@).is_some(),
    {
        self.get(key).is_some()
    }

    /// Forces `variation` on the experiment `key`, in place of what was
    /// forced on it.
    pub fn insert(&mut self, key: String, variation: i32)
        ensures
            lookup(final(self)@, key@) == Some(variation),
            forall|other: Seq<char>|
                other != key@ ==> lookup(final(self)@, other) == lookup(old(self)@, other),
            old(self).wf() ==> final(self).wf(),
    {
        let ghost before = self@;
        let mut i: usize = 0;
        while i < self.entries.len()
            invariant
                i <= self.entries.len(),
                before == self@,
                *self == *old(self),
                forall|j: int| 0 <= j < i ==> (#[trigger] before[j]).0 != key@,
            decreases self.entries.len() - i,
        {
            if str_eq(self.entries[i].0.as_str(), key.as_str()) {
                proof {
                    lemma_key_position_is(before, key@, i as int);
                }
                self.entries[i] = (key, variation);
                proof {
                    let after = self@;
                    assert(after =~= before.update(i as int, (key@, variation)));
                    lemma_key_position_is(after, key@, i as int);
                    assert forall|other: Seq<char>| other != key@ implies lookup(after, other)
                        == lookup(before, other) by {
                        lemma_update_keeps_others(before, i as int, variation, other);
                    }
                    assert(distinct_keys(before) ==> distinct_keys(after)) by {
                        if distinct_keys(before) {
                            assert forall|a: int, b: int| 0 <= a < b < after.len() implies (
                            #[trigger] after[a]).0 != (#[trigger] after[b]).0 by {
                                assert(after[a].0 == before[a].0);
                                assert(after[b].0 == before[b].0);
                            }
                        }
                    }
                }
                return ;
            }
            i += 1;
        }
        proof {
            lemma_key_position_is(before, key@, i as int);
        }
        self.entries.push((key, variation));
        proof {
            let after = self@;
            assert(after =~= before.push((key@, variation)));
            lemma_key_position_is(after, key@, before.len() as int);
            assert forall|other: Seq<char>| other != key@ implies lookup(after, other) == lookup(
                before,
                other,
            ) by {
                lemma_push_keeps_others(before, key@, variation, other);
            }
            assert(distinct_keys(before) ==> distinct_keys(after)) by {
                if distinct_keys(before) {
                    assert forall|a: int, b: int| 0 <= a < b < after.len() implies (
                    #[trigger] after[a]).0 != (#[trigger] after[b]).0 by {
                        if b < before.len() {
                            assert(after[a].0 == before[a].0);
                            assert(after[b].0 == before[b].0);
                        } else {
                            assert(after[a] == before[a]);
                        }
                    }
                }
            }
        }
    }
}

impl Default for ForcedVariationsMap {
    fn default() -> (map: ForcedVariationsMap)
        ensures
            map@ == Seq::<(Seq<char>, i32)>::empty(),
            map.wf(),
    {
        ForcedVariationsMap::new()
    }
}

impl Clone for ForcedVariationsMap {
    fn clone(&self) -> (copy: ForcedVariationsMap)
        ensures
            copy@ == self@,
            copy.wf() == self.wf(),
    {
        let mut entries: Vec<(String, i32)> = Vec::new();
        let mut i: usize = 0;
        while i < self.entries.len()
            invariant
                i <= self.entries.len(),
                entries.len() == i,
                forall|j: int|
                    0 <= j < i ==> (#[trigger] entries@[j]).0@ == self.entries@[j].0@ && entries@[j].1
                        == self.entries@[j].1,
            decreases self.entries.len() - i,
        {
            let key = self.entries[i].0.clone();
            entries.push((key, self.entries[i].1));
            i += 1;
        }
        let copy = ForcedVariationsMap { entries };
        assert(copy@ =~= self@);
        copy
    }
}

/// A copy of an optional text.
pub fn clone_text_option(text: &Option<String>) -> (copy: Option<String>)
    ensures
        copy.deep_view() == text.deep_view(),
{
    match text {
        Some(s) => Some(s.clone()),
        None => None,
    }
}

/// A copy of an optional value.
pub fn clone_value_option(value: &Option<Value>) -> (copy: Option<Value>)
    ensures
        copy.deep_view() == value.deep_view(),
{
    match value {
        Some(v) => Some(v.clone()),
        None => None,
    }
}

/// A copy of an optional namespace.
pub fn clone_namespace_option(namespace: &Option<Namespace>) -> (copy: Option<Namespace>)
    ensures
        copy.deep_view() == namespace.deep_view(),
{
    match namespace {
        Some(n) => Some(n.clone()),
        None => None,
    }
}

/// A copy of an optional experiment.
pub fn clone_experiment_option(experiment: &Option<Experiment>) -> (copy: Option<Experiment>)
    ensures
        copy.deep_view() == experiment.deep_view(),
{
    match experiment {
        Some(e) => Some(e.clone()),
        None => None,
    }
}

/// A copy of an optional result.
pub fn clone_result_option(result: &Option<ExperimentResult>) -> (copy: Option<ExperimentResult>)
    ensures
        copy.deep_view() == result.deep_view(),
{
    match result {
        Some(r) => Some(r.clone()),
        None => None,
    }
}

/// A copy of a list of values.
pub fn clone_values(values: &Vec<Value>) -> (copy: Vec<Value>)
    ensures
        copy.deep_view() == values.deep_view(),
{
    let mut copy: Vec<Value> = Vec::new();
    let mut i: usize = 0;
    while i < values.len()
        invariant
            i <= values.len(),
            copy.len() == i,
            forall|j: int| 0 <= j < i ==> (#[trigger] copy@[j])@ == values@[j]@,
        decreases values.len() - i,
    {
        copy.push(values[i].clone());
        i += 1;
    }
    assert(copy.deep_view() =~= values.deep_view());
    copy
}

/// A copy of the metadata of variations.
pub fn clone_metas(metas: &Vec<VariationMeta>) -> (copy: Vec<VariationMeta>)
    ensures
        copy.deep_view() == metas.deep_view(),
{
    let mut copy: Vec<VariationMeta> = Vec::new();
    let mut i: usize = 0;
    while i < metas.len()
        invariant
            i <= metas.len(),
            copy.len() == i,
            forall|j: int| 0 <= j < i ==> (#[trigger] copy@[j])@ == metas@[j]@,
        decreases metas.len() - i,
    {
        copy.push(metas[i].clone());
        i += 1;
    }
    assert(copy.deep_view() =~= metas.deep_view());
    copy
}

/// A copy of a list of filters.
pub fn clone_filters(filters: &Vec<Filter>) -> (copy: Vec<Filter>)
    ensures
        copy.deep_view() == filters.deep_view(),
{
    let mut copy: Vec<Filter> = Vec::new();
    let mut i: usize = 0;
    while i < filters.len()
        invariant
            i <= filters.len(),
            copy.len() == i,
            forall|j: int| 0 <= j < i ==> (#[trigger] copy@[j])@ == filters@[j]@,
        decreases filters.len() - i,
    {
        copy.push(filters[i].clone());
        i += 1;
    }
    assert(copy.deep_view() =~= filters.deep_view());
    copy
}

/// A copy of a list of exposures.
pub fn clone_tracks(tracks: &Vec<TrackData>) -> (copy: Vec<TrackData>)
    ensures
        copy.deep_view() == tracks.deep_view(),
{
    let mut copy: Vec<TrackData> = Vec::new();
    let mut i: usize = 0;
    while i < tracks.len()
        invariant
            i <= tracks.len(),
            copy.len() == i,
            forall|j: int| 0 <= j < i ==> (#[trigger] copy@[j])@ == tracks@[j]@,
        decreases tracks.len() - i,
    {
        copy.push(tracks[i].clone());
        i += 1;
    }
    assert(copy.deep_view() =~= tracks.deep_view());
    copy
}

/// A copy of a list of rules.
pub fn clone_rules(rules: &Vec<FeatureRule>) -> (copy: Vec<FeatureRule>)
    ensures
        copy.deep_view() == rules.deep_view(),
{
    let mut copy: Vec<FeatureRule> = Vec::new();
    let mut i: usize = 0;
    while i < rules.len()
        invariant
            i <= rules.len(),
            copy.len() == i,
            forall|j: int| 0 <= j < i ==> (#[trigger] copy@[j])@ == rules@[j]@,
        decreases rules.len() - i,
    {
        copy.push(rules[i].clone());
        i += 1;
    }
    assert(copy.deep_view() =~= rules.deep_view());
    copy
}

/// A copy of a list of shares.
pub fn clone_shares(shares: &Vec<i64>) -> (copy: Vec<i64>)
    ensures
        copy@ == shares@,
{
    let mut copy: Vec<i64> = Vec::new();
    let mut i: usize = 0;
    while i < shares.len()
        invariant
            i <= shares.len(),
            copy@ == shares@.take(i as int),
        decreases shares.len() - i,
    {
        copy.push(shares[i]);
        assert(copy@ =~= shares@.take(i + 1));
        i += 1;
    }
    assert(shares@.take(shares.len() as int) =~= shares@);
    copy
}

/// A copy of a list of ranges.
pub fn clone_ranges(ranges: &Vec<BucketRange>) -> (copy: Vec<BucketRange>)
    ensures
        copy@ == ranges@,
{
    let mut copy: Vec<BucketRange> = Vec::new();
    let mut i: usize = 0;
    while i < ranges.len()
        invariant
            i <= ranges.len(),
            copy@ == ranges@.take(i as int),
        decreases ranges.len() - i,
    {
        copy.push(ranges[i]);
        assert(copy@ =~= ranges@.take(i + 1));
        i += 1;
    }
    assert(ranges@.take(ranges.len() as int) =~= ranges@);
    copy
}

} // verus!
