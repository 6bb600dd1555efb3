//! Conditions: a small query language over attribute trees.
//!
//! A condition is a JSON value. An object names attribute paths and what is
//! expected at each; keys that start with `$` are operators. Whatever is
//! malformed does not hold: the evaluator never fails.

use crate::number::{double_eq, double_equal, double_less, double_lt, Number};
use crate::text::{chars_eq, chars_less, chars_of, str_eq, text_less};
use crate::value::{
    entries_view, items_view, json_eq, lemma_entries_view, lemma_items_view, option_view, value_eq,
    Json, Value,
};
use crate::version::{first_from, lemma_first_item, padded_version_chars, padded_version_of};
use vstd::prelude::*;
use vstd::string::*;

verus! {

/// What a search for the regular expression `pattern` in `text` finds:
/// `None` where the pattern is no valid expression, else whether some part
/// of the text matches it.
pub uninterp spec fn regex_search(pattern: Seq<char>, text: Seq<char>) -> Option<bool>;

/// `Regex::new` and, on the expression it gives, `Regex::is_match` of the
/// regex crate: the pattern is compiled and the text searched. A pattern
/// that does not compile gives `None`.
#[verifier::external_body]
fn regex_is_match(pattern: &str, text: &str) -> (found: Option<bool>)
    ensures
        found == regex_search(pattern@, text@),
{
    match regex::Regex::new(pattern) {
        Ok(expression) => Some(expression.is_match(text)),
        Err(_) => None,
    }
}

/// The parts of a path between its dots.
pub open spec fn split_path(path: Seq<char>) -> Seq<Seq<char>>
    decreases path.len(),
{
    let dot = first_from(path, '.', 0);
    if 0 <= dot < path.len() {
        seq![path.take(dot)] + split_path(path.skip(dot + 1))
    } else {
        seq![path]
    }
}

/// The value reached from `from` by descending through the keys in turn.
pub open spec fn descend(from: Json, keys: Seq<Seq<char>>) -> Option<Json>
    decreases keys.len(),
{
    if keys.len() == 0 {
        Some(from)
    } else {
        match from.field(keys[0]) {
            Some(next) => descend(next, keys.drop_first()),
            None => None,
        }
    }
}

/// The attribute at a dotted path, if every part of the path is there.
pub open spec fn path_value(attributes: Json, path: Seq<char>) -> Option<Json> {
    descend(attributes, split_path(path))
}

/// The name of the type of an attribute; `unknown` for a missing one.
pub open spec fn kind_name(actual: Option<Json>) -> Seq<char> {
    match actual {
        Some(Json::Array(_)) => "array"@,
        Some(Json::Bool(_)) => "boolean"@,
        Some(Json::Number(_)) => "number"@,
        Some(Json::Null) => "null"@,
        Some(Json::Object(_)) => "object"@,
        Some(Json::String(_)) => "string"@,
        None => "unknown"@,
    }
}

/// A relation, named by its sign, between two doubles.
pub open spec fn doubles_related(sign: Seq<char>, a: u64, b: u64) -> bool {
    if sign == ">="@ {
        double_lt(b, a) || double_eq(a, b)
    } else if sign == "<="@ {
        double_lt(a, b) || double_eq(a, b)
    } else if sign == ">"@ {
        double_lt(b, a)
    } else if sign == "<"@ {
        double_lt(a, b)
    } else if sign == "=="@ {
        double_eq(a, b)
    } else if sign == "!="@ {
        !double_eq(a, b)
    } else {
        false
    }
}

/// A relation, named by its sign, between two texts.
pub open spec fn texts_related(sign: Seq<char>, a: Seq<char>, b: Seq<char>) -> bool {
    if sign == ">="@ {
        !text_less(a, b)
    } else if sign == "<="@ {
        !text_less(b, a)
    } else if sign == ">"@ {
        text_less(b, a)
    } else if sign == "<"@ {
        text_less(a, b)
    } else if sign == "=="@ {
        a == b
    } else if sign == "!="@ {
        a != b
    } else {
        false
    }
}

/// A typed comparison: two numbers compare as doubles, two strings as
/// texts, and any other pair is unrelated.
pub open spec fn related(actual: Option<Json>, operand: Json, sign: Seq<char>) -> bool {
    match (actual, operand) {
        (Some(Json::Number(a)), Json::Number(b)) => doubles_related(
            sign,
            a.double_bits() as u64,
            b.double_bits() as u64,
        ),
        (Some(Json::String(a)), Json::String(b)) => texts_related(sign, a, b),
        _ => false,
    }
}

/// The text of an attribute that is a string.
pub open spec fn text_of(actual: Option<Json>) -> Option<Seq<char>> {
    match actual {
        Some(v) => v.text(),
        None => None,
    }
}

/// A relation between the attribute and the operand, both read as versions.
pub open spec fn versions_related(sign: Seq<char>, actual: Option<Json>, operand: Json) -> bool {
    texts_related(sign, padded_version_of(text_of(actual)), padded_version_of(operand.text()))
}

/// Some item equals `value`.
pub open spec fn contains_json(items: Seq<Json>, value: Json) -> bool {
    exists|i: int| 0 <= i < items.len() && json_eq(#[trigger] items[i], value)
}

/// The items of an array; none for any other value.
pub open spec fn items_or_none(value: Json) -> Seq<Json> {
    match value {
        Json::Array(items) => items,
        _ => Seq::empty(),
    }
}

/// One of the values is among the items.
pub open spec fn some_contained(items: Seq<Json>, values: Seq<Json>) -> bool {
    exists|i: int| 0 <= i < values.len() && contains_json(items, #[trigger] values[i])
}

/// The attribute is among the items of the operand or, where it is an array,
/// one of its items is.
pub open spec fn is_among(operand: Json, actual: Option<Json>) -> bool {
    match actual {
        Some(Json::Array(own)) => some_contained(items_or_none(operand), own),
        Some(value) => contains_json(items_or_none(operand), value),
        None => false,
    }
}

/// The key names an operator.
pub open spec fn is_operator_key(key: Seq<char>) -> bool {
    key.len() > 0 && key[0] == '$'
}

/// Every key names an operator.
pub open spec fn all_operator_keys(entries: Seq<(Seq<char>, Json)>) -> bool {
    forall|i: int| 0 <= i < entries.len() ==> is_operator_key((#[trigger] entries[i]).0)
}

/// An object all of whose keys name operators.
pub open spec fn is_operator_object_spec(value: Json) -> bool {
    match value {
        Json::Object(entries) => all_operator_keys(entries),
        _ => false,
    }
}

/// The attribute is there and is not null.
pub open spec fn is_present(actual: Option<Json>) -> bool {
    match actual {
        Some(Json::Null) => false,
        Some(_) => true,
        None => false,
    }
}

/// Whether the attributes meet the condition.
pub open spec fn holds(attributes: Json, condition: Json) -> bool
    decreases condition, 1int,
{
    if condition.field("$or"@) is Some {
        any_holds(attributes, condition.field("$or"@)->0)
    } else if condition.field("$nor"@) is Some {
        !any_holds(attributes, condition.field("$nor"@)->0)
    } else if condition.field("$and"@) is Some {
        all_hold(attributes, condition.field("$and"@)->0)
    } else if condition.field("$not"@) is Some {
        !holds(attributes, condition.field("$not"@)->0)
    } else {
        match condition {
            Json::Object(entries) => entries_hold(attributes, entries),
            _ => true,
        }
    }
}

/// Whether each attribute that an entry names is what the entry expects.
pub open spec fn entries_hold(attributes: Json, entries: Seq<(Seq<char>, Json)>) -> bool
    decreases entries, 0int,
{
    forall|i: int|
        0 <= i < entries.len() ==> value_matches(
            (#[trigger] entries[i]).1,
            path_value(attributes, entries[i].0),
        )
}

/// Whether the attributes meet one of the conditions. No conditions are met
/// by everything, and so is what is no list.
pub open spec fn any_holds(attributes: Json, conditions: Json) -> bool
    decreases conditions, 1int,
{
    match conditions {
        Json::Array(items) => items.len() == 0 || some_holds(attributes, items),
        _ => true,
    }
}

/// Whether the attributes meet one of the conditions.
pub open spec fn some_holds(attributes: Json, conditions: Seq<Json>) -> bool
    decreases conditions, 0int,
{
    exists|i: int| 0 <= i < conditions.len() && holds(attributes, #[trigger] conditions[i])
}

/// Whether the attributes meet every one of the conditions. What is no list
/// is met by nothing.
pub open spec fn all_hold(attributes: Json, conditions: Json) -> bool
    decreases conditions, 1int,
{
    match conditions {
        Json::Array(items) => every_holds(attributes, items),
        _ => false,
    }
}

/// Whether the attributes meet every one of the conditions.
pub open spec fn every_holds(attributes: Json, conditions: Seq<Json>) -> bool
    decreases conditions, 0int,
{
    forall|i: int| 0 <= i < conditions.len() ==> holds(attributes, #[trigger] conditions[i])
}

/// Whether an attribute is what is expected of it. An object of operators
/// asks that every operator hold; anything else asks for an equal value, and
/// a missing attribute equals null only.
pub open spec fn value_matches(expected: Json, actual: Option<Json>) -> bool
    decreases expected, 1int,
{
    if is_operator_object_spec(expected) {
        match expected {
            Json::Object(entries) => operators_hold(entries, actual),
            _ => true,
        }
    } else {
        match actual {
            Some(value) => json_eq(value, expected),
            None => expected is Null,
        }
    }
}

/// Whether every operator holds of the attribute.
pub open spec fn operators_hold(entries: Seq<(Seq<char>, Json)>, actual: Option<Json>) -> bool
    decreases entries, 0int,
{
    forall|i: int|
        0 <= i < entries.len() ==> operator_holds((#[trigger] entries[i]).0, actual, entries[i].1)
}

/// Whether one of the items is what is expected.
pub open spec fn some_item_matches(expected: Json, items: Seq<Json>) -> bool
    decreases expected, 2int,
{
    exists|j: int| 0 <= j < items.len() && value_matches(expected, Some(#[trigger] items[j]))
}

/// Whether each of the wanted values is matched by one of the items.
pub open spec fn every_wanted_matches(wanted: Seq<Json>, items: Seq<Json>) -> bool
    decreases wanted, 0int,
{
    forall|i: int| 0 <= i < wanted.len() ==> some_item_matches(#[trigger] wanted[i], items)
}

/// Whether an item of an array meets the nested condition: an object of
/// operators is applied to the item itself, any other condition to the item
/// as attributes.
pub open spec fn item_meets(operand: Json, item: Json) -> bool
    decreases operand, 2int,
{
    if is_operator_object_spec(operand) {
        value_matches(operand, Some(item))
    } else {
        holds(item, operand)
    }
}

/// Whether one of the items meets the nested condition.
pub open spec fn some_item_meets(operand: Json, items: Seq<Json>) -> bool
    decreases operand, 3int,
{
    exists|j: int| 0 <= j < items.len() && item_meets(operand, #[trigger] items[j])
}

/// Whether the operator holds of the attribute, given its operand.
pub open spec fn operator_holds(operator: Seq<char>, actual: Option<Json>, operand: Json) -> bool
    decreases operand, 4int,
{
    if operator == "$eq"@ {
        related(actual, operand, "=="@)
    } else if operator == "$ne"@ {
        related(actual, operand, "!="@)
    } else if operator == "$gt"@ {
        related(actual, operand, ">"@)
    } else if operator == "$gte"@ {
        related(actual, operand, ">="@)
    } else if operator == "$lt"@ {
        related(actual, operand, "<"@)
    } else if operator == "$lte"@ {
        related(actual, operand, "<="@)
    } else if operator == "$regex"@ {
        match text_of(actual) {
            Some(text) => regex_search(pattern_of(operand), text) == Some(true),
            None => false,
        }
    } else if operator == "$in"@ {
        operand is Array && is_among(operand, actual)
    } else if operator == "$nin"@ {
        operand is Array && !is_among(operand, actual)
    } else if operator == "$all"@ {
        match (actual, operand) {
            (Some(Json::Array(own)), Json::Array(wanted)) => every_wanted_matches(wanted, own),
            _ => false,
        }
    } else if operator == "$elemMatch"@ {
        match actual {
            Some(Json::Array(own)) => some_item_meets(operand, own),
            _ => false,
        }
    } else if operator == "$size"@ {
        match actual {
            Some(Json::Array(own)) => value_matches(
                operand,
                Some(Json::Number(Number::PosInt(own.len() as u64))),
            ),
            _ => false,
        }
    } else if operator == "$exists"@ {
        is_present(actual) == (operand == Json::Bool(true))
    } else if operator == "$type"@ {
        kind_name(actual) == pattern_of(operand)
    } else if operator == "$not"@ {
        !value_matches(operand, actual)
    } else if operator == "$veq"@ {
        versions_related("=="@, actual, operand)
    } else if operator == "$vne"@ {
        versions_related("!="@, actual, operand)
    } else if operator == "$vgt"@ {
        versions_related(">"@, actual, operand)
    } else if operator == "$vgte"@ {
        versions_related(">="@, actual, operand)
    } else if operator == "$vlt"@ {
        versions_related("<"@, actual, operand)
    } else if operator == "$vlte"@ {
        versions_related("<="@, actual, operand)
    } else {
        false
    }
}

/// The text of an operand that is a string; the empty text for any other.
pub open spec fn pattern_of(operand: Json) -> Seq<char> {
    match operand {
        Json::String(s) => s,
        _ => Seq::empty(),
    }
}

/// Whether a condition is met depends on nothing but the trees of the
/// attributes and of the condition: values that stand for the same trees are
/// judged alike, whenever and wherever they were made.
pub proof fn lemma_same_trees_same_answer(
    attributes: Value,
    condition: Value,
    other_attributes: Value,
    other_condition: Value,
)
    requires
        attributes@ == other_attributes@,
        condition@ == other_condition@,
    ensures
        holds(attributes@, condition@) == holds(other_attributes@, other_condition@),
{
}

/// Whether the attributes meet the condition.
pub fn eval_condition(attributes: &Value, condition: &Value) -> (met: bool)
    ensures
        met == holds(attributes@, condition@),
    decreases condition@, 1int,
{
    if let Some(alternatives) = condition.get("$or") {
        return eval_or(attributes, alternatives);
    }
    if let Some(alternatives) = condition.get("$nor") {
        return !eval_or(attributes, alternatives);
    }
    if let Some(parts) = condition.get("$and") {
        return eval_and(attributes, parts);
    }
    if let Some(negated) = condition.get("$not") {
        return !eval_condition(attributes, negated);
    }
    match condition {
        Value::Object(entries) => {
            assert(condition@ == Json::Object(entries_view(entries@)));
            assert(condition@->Object_0 == entries_view(entries@));
            all_entries_hold(attributes, entries)
        },
        _ => true,
    }
}

#[verifier::loop_isolation(false)]
fn all_entries_hold(attributes: &Value, entries: &Vec<(String, Value)>) -> (met: bool)
    ensures
        met == entries_hold(attributes@, entries_view(entries@)),
    decreases entries_view(entries@), 0int,
{
    let ghost model = entries_view(entries@);
    proof {
        lemma_entries_view(entries@);
    }
    let mut i: usize = 0;
    while i < entries.len()
        invariant
            i <= entries.len(),
            forall|j: int|
                0 <= j < i ==> value_matches(
                    (#[trigger] model[j]).1,
                    path_value(attributes@, model[j].0),
                ),
        decreases entries.len() - i,
    {
        assert(model[i as int] == (entries@[i as int].0@, entries@[i as int].1@));
        assert(decreases_to!(model => model[i as int]));
        assert(decreases_to!(model[i as int] => model[i as int].1));
        let actual = get_path(attributes, entries[i].0.as_str());
        if !eval_condition_value(&entries[i].1, actual) {
            assert(!value_matches(model[i as int].1, path_value(attributes@, model[i as int].0)));
            return false;
        }
        i += 1;
    }
    true
}

fn eval_or(attributes: &Value, conditions: &Value) -> (met: bool)
    ensures
        met == any_holds(attributes@, conditions@),
    decreases conditions@, 1int,
{
    match conditions {
        Value::Array(items) => {
            assert(conditions@ == Json::Array(items_view(items@)));
            assert(conditions@->Array_0 == items_view(items@));
            proof {
                lemma_items_view(items@);
            }
            items.len() == 0 || any_condition_holds(attributes, items)
        },
        _ => true,
    }
}

#[verifier::loop_isolation(false)]
fn any_condition_holds(attributes: &Value, items: &Vec<Value>) -> (met: bool)
    ensures
        met == some_holds(attributes@, items_view(items@)),
    decreases items_view(items@), 0int,
{
    let ghost model = items_view(items@);
    proof {
        lemma_items_view(items@);
    }
    let mut i: usize = 0;
    while i < items.len()
        invariant
            i <= items.len(),
            forall|j: int| 0 <= j < i ==> !holds(attributes@, #[trigger] model[j]),
        decreases items.len() - i,
    {
        assert(model[i as int] == items@[i as int]@);
        if eval_condition(attributes, &items[i]) {
            assert(holds(attributes@, model[i as int]));
            return true;
        }
        i += 1;
    }
    false
}

fn eval_and(attributes: &Value, conditions: &Value) -> (met: bool)
    ensures
        met == all_hold(attributes@, conditions@),
    decreases conditions@, 1int,
{
    match conditions {
        Value::Array(items) => {
            assert(conditions@ == Json::Array(items_view(items@)));
            assert(conditions@->Array_0 == items_view(items@));
            every_condition_holds(attributes, items)
        },
        _ => false,
    }
}

#[verifier::loop_isolation(false)]
fn every_condition_holds(attributes: &Value, items: &Vec<Value>) -> (met: bool)
    ensures
        met == every_holds(attributes@, items_view(items@)),
    decreases items_view(items@), 0int,
{
    let ghost model = items_view(items@);
    proof {
        lemma_items_view(items@);
    }
    let mut i: usize = 0;
    while i < items.len()
        invariant
            i <= items.len(),
            forall|j: int| 0 <= j < i ==> holds(attributes@, #[trigger] model[j]),
        decreases items.len() - i,
    {
        assert(model[i as int] == items@[i as int]@);
        if !eval_condition(attributes, &items[i]) {
            assert(!holds(attributes@, model[i as int]));
            return false;
        }
        i += 1;
    }
    true
}

fn eval_condition_value(expected: &Value, actual: Option<&Value>) -> (met: bool)
    ensures
        met == value_matches(expected@, option_view(actual)),
    decreases expected@, 1int,
{
    if is_operator_object(expected) {
        match expected {
            Value::Object(entries) => {
                assert(expected@ == Json::Object(entries_view(entries@)));
                assert(expected@->Object_0 == entries_view(entries@));
                all_operators_hold(entries, actual)
            },
            _ => true,
        }
    } else {
        match actual {
            Some(value) => value_eq(value, expected),
            None => expected.is_null(),
        }
    }
}

#[verifier::loop_isolation(false)]
fn all_operators_hold(entries: &Vec<(String, Value)>, actual: Option<&Value>) -> (met: bool)
    ensures
        met == operators_hold(entries_view(entries@), option_view(actual)),
    decreases entries_view(entries@), 0int,
{
    let ghost model = entries_view(entries@);
    proof {
        lemma_entries_view(entries@);
    }
    let mut i: usize = 0;
    while i < entries.len()
        invariant
            i <= entries.len(),
            forall|j: int|
                0 <= j < i ==> operator_holds((#[trigger] model[j]).0, option_view(actual), model[j].1),
        decreases entries.len() - i,
    {
        assert(model[i as int] == (entries@[i as int].0@, entries@[i as int].1@));
        assert(decreases_to!(model => model[i as int]));
        assert(decreases_to!(model[i as int] => model[i as int].1));
        if !eval_operator_condition(entries[i].0.as_str(), actual, &entries[i].1) {
            assert(!operator_holds(model[i as int].0, option_view(actual), model[i as int].1));
            return false;
        }
        i += 1;
    }
    true
}

#[verifier::loop_isolation(false)]
fn is_operator_object(value: &Value) -> (all: bool)
    ensures
        all == is_operator_object_spec(value@),
{
    match value {
        Value::Object(entries) => {
            let ghost model = entries_view(entries@);
            assert(value@ == Json::Object(model));
            proof {
                lemma_entries_view(entries@);
            }
            let mut i: usize = 0;
            while i < entries.len()
                invariant
                    i <= entries.len(),
                    forall|j: int| 0 <= j < i ==> is_operator_key((#[trigger] model[j]).0),
                decreases entries.len() - i,
            {
                assert(model[i as int] == (entries@[i as int].0@, entries@[i as int].1@));
                let key = entries[i].0.as_str();
                if key.is_empty() || key.get_char(0) != '$' {
                    assert(!is_operator_key(model[i as int].0));
                    return false;
                }
                i += 1;
            }
            true
        },
        _ => false,
    }
}

fn get_type(actual: Option<&Value>) -> (name: &'static str)
    ensures
        name@ == kind_name(option_view(actual)),
{
    match actual {
        Some(Value::Array(_)) => "array",
        Some(Value::Bool(_)) => "boolean",
        Some(Value::Number(_)) => "number",
        Some(Value::Null) => "null",
        Some(Value::Object(_)) => "object",
        Some(Value::String(_)) => "string",
        None => "unknown",
    }
}

/// The attribute at a dotted path.
#[verifier::loop_isolation(false)]
fn get_path<'a>(attributes: &'a Value, path: &str) -> (found: Option<&'a Value>)
    ensures
        option_view(found) == path_value(attributes@, path@),
{
    let chars = chars_of(path);
    let n = chars.len();
    let mut current: &Value = attributes;
    let mut i: usize = 0;
    assert(chars@.skip(0) =~= chars@);
    loop
        invariant
            i <= n,
            path_value(attributes@, path@) == descend(current@, split_path(chars@.skip(i as int))),
        decreases n - i,
    {
        let ghost tail = chars@.skip(i as int);
        let mut key: Vec<char> = Vec::new();
        let mut j: usize = i;
        while j < n && chars[j] != '.'
            invariant
                i <= j <= n,
                key@ == chars@.subrange(i as int, j as int),
                forall|k: int| i <= k < j ==> chars@[k] != '.',
            decreases n - j,
        {
            key.push(chars[j]);
            assert(key@ =~= chars@.subrange(i as int, j + 1));
            j += 1;
        }
        proof {
            lemma_first_item(tail, '.', 0, j - i);
            assert(tail.take(j - i) =~= key@);
            if j < n {
                let rest = split_path(tail.skip(j - i + 1));
                assert(tail.skip(j - i + 1) =~= chars@.skip(j + 1));
                assert((seq![tail.take(j - i)] + rest).drop_first() =~= rest);
            } else {
                assert(tail.take(j - i) =~= tail);
                assert(seq![tail].drop_first() =~= Seq::<Seq<char>>::empty());
            }
        }
        let ghost before = current@;
        match current.get_chars(&key) {
            Some(next) => {
                current = next;
            },
            None => {
                return None;
            },
        }
        if j == n {
            assert(descend(current@, Seq::empty()) == Some(current@));
            assert(descend(before, seq![tail]) == Some(current@));
            return Some(current);
        }
        i = j + 1;
    }
}

/// Whether a relation, named by its sign, holds between two doubles.
fn doubles_compare(sign: &str, a: u64, b: u64) -> (holds: bool)
    ensures
        holds == doubles_related(sign@, a, b),
{
    if str_eq(sign, ">=") {
        double_less(b, a) || double_equal(a, b)
    } else if str_eq(sign, "<=") {
        double_less(a, b) || double_equal(a, b)
    } else if str_eq(sign, ">") {
        double_less(b, a)
    } else if str_eq(sign, "<") {
        double_less(a, b)
    } else if str_eq(sign, "==") {
        double_equal(a, b)
    } else if str_eq(sign, "!=") {
        !double_equal(a, b)
    } else {
        false
    }
}

/// Whether a relation, named by its sign, holds between two texts.
fn texts_compare(sign: &str, a: &Vec<char>, b: &Vec<char>) -> (holds: bool)
    ensures
        holds == texts_related(sign@, a@, b@),
{
    if str_eq(sign, ">=") {
        !chars_less(a, b)
    } else if str_eq(sign, "<=") {
        !chars_less(b, a)
    } else if str_eq(sign, ">") {
        chars_less(b, a)
    } else if str_eq(sign, "<") {
        chars_less(a, b)
    } else if str_eq(sign, "==") {
        chars_eq(a, b)
    } else if str_eq(sign, "!=") {
        !chars_eq(a, b)
    } else {
        false
    }
}

/// A typed comparison of an attribute with an operand. The sign is one of
/// `>=`, `<=`, `>`, `<`, `==` and `!=`; two numbers compare as doubles, two
/// strings as texts, and nothing else is related.
pub fn compare_values(attribute_value: Option<&Value>, condition_value: &Value, operator: &str) -> (holds: bool)
    ensures
        holds == related(option_view(attribute_value), condition_value@, operator@),
{
    match (attribute_value, condition_value) {
        (Some(Value::Number(a)), Value::Number(b)) => doubles_compare(
            operator,
            a.to_double(),
            b.to_double(),
        ),
        (Some(Value::String(a)), Value::String(b)) => {
            let left = chars_of(a.as_str());
            let right = chars_of(b.as_str());
            texts_compare(operator, &left, &right)
        },
        _ => false,
    }
}

/// The comparable form of an attribute that is a version.
fn version_text(value: Option<&Value>) -> (padded: Vec<char>)
    ensures
        padded@ == padded_version_of(text_of(option_view(value))),
{
    match value {
        Some(Value::String(s)) => padded_version_chars(s.as_str()),
        _ => Vec::new(),
    }
}

fn versions_compare(sign: &str, actual: Option<&Value>, operand: &Value) -> (holds: bool)
    ensures
        holds == versions_related(sign@, option_view(actual), operand@),
{
    let left = version_text(actual);
    let right = version_text(Some(operand));
    texts_compare(sign, &left, &right)
}

#[verifier::loop_isolation(false)]
fn contains_value(items: &Vec<Value>, value: &Value) -> (found: bool)
    ensures
        found == contains_json(items_view(items@), value@),
{
    let ghost model = items_view(items@);
    proof {
        lemma_items_view(items@);
    }
    let mut i: usize = 0;
    while i < items.len()
        invariant
            i <= items.len(),
            forall|j: int| 0 <= j < i ==> !json_eq(#[trigger] model[j], value@),
        decreases items.len() - i,
    {
        assert(model[i as int] == items@[i as int]@);
        if value_eq(&items[i], value) {
            assert(json_eq(model[i as int], value@));
            return true;
        }
        i += 1;
    }
    false
}

#[verifier::loop_isolation(false)]
fn any_contained(candidates: &Vec<Value>, own: &Vec<Value>) -> (found: bool)
    ensures
        found == some_contained(items_view(candidates@), items_view(own@)),
{
    let ghost model = items_view(own@);
    proof {
        lemma_items_view(own@);
    }
    let mut i: usize = 0;
    while i < own.len()
        invariant
            i <= own.len(),
            forall|j: int| 0 <= j < i ==> !contains_json(items_view(candidates@), #[trigger] model[j]),
        decreases own.len() - i,
    {
        assert(model[i as int] == own@[i as int]@);
        if contains_value(candidates, &own[i]) {
            assert(contains_json(items_view(candidates@), model[i as int]));
            return true;
        }
        i += 1;
    }
    false
}

fn is_in(operand: &Value, actual: Option<&Value>) -> (found: bool)
    requires
        operand@ is Array,
    ensures
        found == is_among(operand@, option_view(actual)),
{
    match operand {
        Value::Array(candidates) => {
            assert(operand@ == Json::Array(items_view(candidates@)));
            match actual {
                Some(Value::Array(own)) => {
                    assert(actual->0@ == Json::Array(items_view(own@)));
                    any_contained(candidates, own)
                },
                Some(value) => contains_value(candidates, value),
                None => false,
            }
        },
        _ => false,
    }
}

#[verifier::loop_isolation(false)]
fn any_item_matches(expected: &Value, items: &Vec<Value>) -> (found: bool)
    ensures
        found == some_item_matches(expected@, items_view(items@)),
    decreases expected@, 2int,
{
    let ghost model = items_view(items@);
    proof {
        lemma_items_view(items@);
    }
    let mut j: usize = 0;
    while j < items.len()
        invariant
            j <= items.len(),
            forall|k: int| 0 <= k < j ==> !value_matches(expected@, Some(#[trigger] model[k])),
        decreases items.len() - j,
    {
        assert(model[j as int] == items@[j as int]@);
        if eval_condition_value(expected, Some(&items[j])) {
            assert(value_matches(expected@, Some(model[j as int])));
            return true;
        }
        j += 1;
    }
    false
}

#[verifier::loop_isolation(false)]
fn every_wanted_is_matched(wanted: &Vec<Value>, own: &Vec<Value>) -> (met: bool)
    ensures
        met == every_wanted_matches(items_view(wanted@), items_view(own@)),
    decreases items_view(wanted@), 0int,
{
    let ghost model = items_view(wanted@);
    proof {
        lemma_items_view(wanted@);
    }
    let mut i: usize = 0;
    while i < wanted.len()
        invariant
            i <= wanted.len(),
            forall|k: int| 0 <= k < i ==> some_item_matches(#[trigger] model[k], items_view(own@)),
        decreases wanted.len() - i,
    {
        assert(model[i as int] == wanted@[i as int]@);
        if !any_item_matches(&wanted[i], own) {
            assert(!some_item_matches(model[i as int], items_view(own@)));
            return false;
        }
        i += 1;
    }
    true
}

/// Whether each item of the operand, where it is a list, is matched by one of
/// the attribute's items.
fn holds_all(operand: &Value, own: &Vec<Value>) -> (met: bool)
    ensures
        met == match operand@ {
            Json::Array(wanted) => every_wanted_matches(wanted, items_view(own@)),
            _ => false,
        },
    decreases operand@, 3int,
{
    match operand {
        Value::Array(wanted) => {
            assert(operand@ == Json::Array(items_view(wanted@)));
            assert(operand@->Array_0 == items_view(wanted@));
            every_wanted_is_matched(wanted, own)
        },
        _ => false,
    }
}

#[verifier::loop_isolation(false)]
fn elem_match(operand: &Value, own: &Vec<Value>) -> (found: bool)
    ensures
        found == some_item_meets(operand@, items_view(own@)),
    decreases operand@, 3int,
{
    let ghost model = items_view(own@);
    proof {
        lemma_items_view(own@);
    }
    let by_operators = is_operator_object(operand);
    let mut j: usize = 0;
    while j < own.len()
        invariant
            j <= own.len(),
            forall|k: int| 0 <= k < j ==> !item_meets(operand@, #[trigger] model[k]),
        decreases own.len() - j,
    {
        assert(model[j as int] == own@[j as int]@);
        let met = if by_operators {
            eval_condition_value(operand, Some(&own[j]))
        } else {
            eval_condition(&own[j], operand)
        };
        assert(met == item_meets(operand@, model[j as int]));
        if met {
            return true;
        }
        j += 1;
    }
    false
}

/// Whether the operator holds of the attribute, given its operand. An
/// operator that the language does not have holds of nothing.
pub fn eval_operator_condition(operator: &str, attribute_value: Option<&Value>, condition_value: &Value) -> (met: bool)
    ensures
        met == operator_holds(operator@, option_view(attribute_value), condition_value@),
    decreases condition_value@, 4int,
{
    if str_eq(operator, "$eq") {
        compare_values(attribute_value, condition_value, "==")
    } else if str_eq(operator, "$ne") {
        compare_values(attribute_value, condition_value, "!=")
    } else if str_eq(operator, "$gt") {
        compare_values(attribute_value, condition_value, ">")
    } else if str_eq(operator, "$gte") {
        compare_values(attribute_value, condition_value, ">=")
    } else if str_eq(operator, "$lt") {
        compare_values(attribute_value, condition_value, "<")
    } else if str_eq(operator, "$lte") {
        compare_values(attribute_value, condition_value, "<=")
    } else if str_eq(operator, "$regex") {
        let pattern = operand_text(condition_value);
        match attribute_value {
            Some(Value::String(text)) => match regex_is_match(pattern, text.as_str()) {
                Some(found) => found,
                None => false,
            },
            _ => false,
        }
    } else if str_eq(operator, "$in") {
        match condition_value {
            Value::Array(_) => is_in(condition_value, attribute_value),
            _ => false,
        }
    } else if str_eq(operator, "$nin") {
        match condition_value {
            Value::Array(_) => !is_in(condition_value, attribute_value),
            _ => false,
        }
    } else if str_eq(operator, "$all") {
        match attribute_value {
            Some(Value::Array(own)) => {
                assert(attribute_value->0@ == Json::Array(items_view(own@)));
                holds_all(condition_value, own)
            },
            _ => false,
        }
    } else if str_eq(operator, "$elemMatch") {
        match attribute_value {
            Some(Value::Array(own)) => {
                assert(attribute_value->0@ == Json::Array(items_view(own@)));
                elem_match(condition_value, own)
            },
            _ => false,
        }
    } else if str_eq(operator, "$size") {
        match attribute_value {
            Some(Value::Array(own)) => {
                assert(attribute_value->0@ == Json::Array(items_view(own@)));
                proof {
                    lemma_items_view(own@);
                }
                let size = Value::Number(Number::PosInt(own.len() as u64));
                eval_condition_value(condition_value, Some(&size))
            },
            _ => false,
        }
    } else if str_eq(operator, "$exists") {
        let present = match attribute_value {
            Some(value) => !value.is_null(),
            None => false,
        };
        let wanted = match condition_value {
            Value::Bool(b) => *b,
            _ => false,
        };
        present == wanted
    } else if str_eq(operator, "$type") {
        str_eq(get_type(attribute_value), operand_text(condition_value))
    } else if str_eq(operator, "$not") {
        !eval_condition_value(condition_value, attribute_value)
    } else if str_eq(operator, "$veq") {
        versions_compare("==", attribute_value, condition_value)
    } else if str_eq(operator, "$vne") {
        versions_compare("!=", attribute_value, condition_value)
    } else if str_eq(operator, "$vgt") {
        versions_compare(">", attribute_value, condition_value)
    } else if str_eq(operator, "$vgte") {
        versions_compare(">=", attribute_value, condition_value)
    } else if str_eq(operator, "$vlt") {
        versions_compare("<", attribute_value, condition_value)
    } else if str_eq(operator, "$vlte") {
        versions_compare("<=", attribute_value, condition_value)
    } else {
        false
    }
}

/// The text of an operand that is a string; the empty text for any other.
fn operand_text(operand: &Value) -> (text: &str)
    ensures
        text@ == pattern_of(operand@),
{
    match operand {
        Value::String(s) => s.as_str(),
        _ => {
            proof {
                reveal_strlit("");
            }
            assert(""@ =~= Seq::<char>::empty());
            ""
        },
    }
}

} // verus!
