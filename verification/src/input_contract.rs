//! Declared-input contracts: defaults, required inputs, artifact projection
//! and declared JSON types, enforced before a runner or tool starts.
use vstd::prelude::*;

use crate::contracts::{accepts_spec, InputDefinition};
use crate::json::{clone_value, entry_map, has_key, lookup, JsonModel, JsonNumber, JsonObject, JsonValue};
use crate::text::concat;

verus! {

/// Declared inputs, by name, in declaration (name) order.
pub type DeclaredInputs = Vec<(String, InputDefinition)>;

pub open spec fn default_model(input: InputDefinition) -> Option<JsonModel> {
    match input.default {
        Some(d) => Some(d@),
        None => None,
    }
}

/// `inputs` after adding each declared default that is not supplied.
pub open spec fn with_defaults(m: Map<Seq<char>, JsonModel>, declared: Seq<(String, InputDefinition)>) -> Map<
    Seq<char>,
    JsonModel,
>
    decreases declared.len(),
{
    if declared.len() == 0 {
        m
    } else {
        let prior = with_defaults(m, declared.drop_last());
        let (name, input) = declared.last();
        if !prior.contains_key(name@) && input.default is Some {
            prior.insert(name@, input.default->0@)
        } else {
            prior
        }
    }
}

/// Applies manifest defaults without overwriting a supplied value.
pub fn apply_defaults(declared: &DeclaredInputs, inputs: &mut JsonObject)
    ensures
        final(inputs).map() == with_defaults(old(inputs).map(), declared@),
{
    let mut i: usize = 0;
    while i < declared.len()
        invariant
            i <= declared@.len(),
            inputs.map() == with_defaults(old(inputs).map(), declared@.subrange(0, i as int)),
        decreases declared.len() - i,
    {
        assert(declared@.subrange(0, i + 1).drop_last() =~= declared@.subrange(0, i as int));
        let (name, input) = &declared[i];
        if !inputs.contains_key(name.as_str()) {
            match &input.default {
                Some(default) => {
                    inputs.insert(name.clone(), clone_value(default));
                },
                None => {},
            }
        }
        i = i + 1;
    }
    assert(declared@.subrange(0, declared@.len() as int) =~= declared@);
}

/// Defaults fill gaps and nothing else: a supplied value is kept as it is;
/// a name has a value afterwards exactly when it was supplied or a declared
/// input of that name has a default; and a value that was not supplied is
/// the default of a declared input of that name.
pub proof fn lemma_defaults_law(m: Map<Seq<char>, JsonModel>, declared: Seq<(String, InputDefinition)>)
    ensures
        forall|k: Seq<char>| m.contains_key(k) ==> #[trigger] with_defaults(m, declared).contains_key(k)
            && with_defaults(m, declared)[k] == m[k],
        forall|k: Seq<char>|
            #[trigger] with_defaults(m, declared).contains_key(k) <==> m.contains_key(k) || exists|j: int|
                0 <= j < declared.len() && (#[trigger] declared[j]).0@ == k && declared[j].1.default is Some,
        forall|k: Seq<char>|
            #[trigger] with_defaults(m, declared).contains_key(k) && !m.contains_key(k) ==> exists|j: int|
                0 <= j < declared.len() && (#[trigger] declared[j]).0@ == k && default_model(declared[j].1)
                    == Some(with_defaults(m, declared)[k]),
    decreases declared.len(),
{
    if declared.len() > 0 {
        let d = declared.drop_last();
        let n = declared.len() - 1;
        lemma_defaults_law(m, d);
        assert(declared[n] == declared.last());
        assert forall|j: int| 0 <= j < n implies #[trigger] declared[j] == d[j] by {}
        let w = with_defaults(m, declared);
        let p = with_defaults(m, d);
        assert forall|k: Seq<char>| #[trigger] w.contains_key(k) <==> m.contains_key(k) || exists|j: int|
            0 <= j < declared.len() && (#[trigger] declared[j]).0@ == k && declared[j].1.default is Some by {
            if exists|j: int| 0 <= j < declared.len() && (#[trigger] declared[j]).0@ == k && declared[j].1.default is Some {
                let j = choose|j: int| 0 <= j < declared.len() && (#[trigger] declared[j]).0@ == k && declared[j].1.default is Some;
                if j < n {
                    assert(d[j].0@ == k && d[j].1.default is Some);
                }
            }
            if p.contains_key(k) && !m.contains_key(k) {
                let j = choose|j: int| 0 <= j < d.len() && (#[trigger] d[j]).0@ == k && d[j].1.default is Some;
                assert(declared[j].0@ == k);
            }
        }
        assert forall|k: Seq<char>| #[trigger] w.contains_key(k) && !m.contains_key(k) implies exists|j: int|
            0 <= j < declared.len() && (#[trigger] declared[j]).0@ == k && default_model(declared[j].1)
                == Some(w[k]) by {
            if p.contains_key(k) {
                let j = choose|j: int|
                    0 <= j < d.len() && (#[trigger] d[j]).0@ == k && default_model(d[j].1) == Some(p[k]);
                assert(declared[j].0@ == k);
            } else {
                assert(declared[n].0@ == k && default_model(declared[n].1) == Some(w[k]));
            }
        }
    }
}

/// Absent or explicitly null.
pub open spec fn missing_spec(value: Option<JsonModel>) -> bool {
    match value {
        None => true,
        Some(v) => v is Null,
    }
}

/// Whether a value is absent or explicitly null.
pub fn is_missing(value: Option<&JsonValue>) -> (r: bool)
    ensures
        r == missing_spec(match value {
            Some(v) => Some(v@),
            None => None,
        }),
{
    match value {
        None => true,
        Some(JsonValue::Null) => true,
        Some(_) => false,
    }
}

/// The required inputs without a default that are missing, in order.
pub open spec fn missing_required_spec(
    declared: Seq<(String, InputDefinition)>,
    inputs: Seq<(Seq<char>, JsonModel)>,
) -> Seq<Seq<char>>
    decreases declared.len(),
{
    if declared.len() == 0 {
        Seq::empty()
    } else {
        let prior = missing_required_spec(declared.drop_last(), inputs);
        let (name, input) = declared.last();
        if input.required && input.default is None && missing_spec(lookup(inputs, name@)) {
            prior.push(name@)
        } else {
            prior
        }
    }
}

/// A name is reported missing exactly when a declared input of that name
/// is required, has no default, and is absent or null among the inputs.
pub proof fn lemma_missing_required_law(
    declared: Seq<(String, InputDefinition)>,
    inputs: Seq<(Seq<char>, JsonModel)>,
)
    ensures
        forall|x: Seq<char>|
            #[trigger] missing_required_spec(declared, inputs).contains(x) <==> exists|j: int|
                0 <= j < declared.len() && (#[trigger] declared[j]).0@ == x && declared[j].1.required
                    && declared[j].1.default is None && missing_spec(lookup(inputs, x)),
    decreases declared.len(),
{
    if declared.len() > 0 {
        let d = declared.drop_last();
        let n = declared.len() - 1;
        lemma_missing_required_law(d, inputs);
        assert(declared[n] == declared.last());
        let p = missing_required_spec(d, inputs);
        let r = missing_required_spec(declared, inputs);
        assert forall|x: Seq<char>| #[trigger] r.contains(x) <==> exists|j: int|
            0 <= j < declared.len() && (#[trigger] declared[j]).0@ == x && declared[j].1.required
                && declared[j].1.default is None && missing_spec(lookup(inputs, x)) by {
            if r.contains(x) {
                let i = choose|i: int| 0 <= i < r.len() && r[i] == x;
                if i < p.len() {
                    assert(p[i] == x);
                    assert(p.contains(x));
                    let j = choose|j: int|
                        0 <= j < d.len() && (#[trigger] d[j]).0@ == x && d[j].1.required && d[j].1.default
                            is None && missing_spec(lookup(inputs, x));
                    assert(declared[j] == d[j]);
                } else {
                    assert(declared[n].0@ == x);
                }
            }
            if exists|j: int|
                0 <= j < declared.len() && (#[trigger] declared[j]).0@ == x && declared[j].1.required
                    && declared[j].1.default is None && missing_spec(lookup(inputs, x)) {
                let j = choose|j: int|
                    0 <= j < declared.len() && (#[trigger] declared[j]).0@ == x && declared[j].1.required
                        && declared[j].1.default is None && missing_spec(lookup(inputs, x));
                if j < n {
                    assert(d[j] == declared[j]);
                    assert(p.contains(x));
                    let i = choose|i: int| 0 <= i < p.len() && p[i] == x;
                    assert(r[i] == x);
                } else {
                    assert(r[p.len() as int] == x);
                }
            }
        }
    }
}

/// The required manifest inputs that are absent or explicitly null.
pub fn missing_required(declared: &DeclaredInputs, inputs: &JsonObject) -> (r: Vec<String>)
    ensures
        r@.map_values(|s: String| s@) == missing_required_spec(declared@, inputs@),
{
    let mut r: Vec<String> = Vec::new();
    let mut i: usize = 0;
    while i < declared.len()
        invariant
            i <= declared@.len(),
            r@.map_values(|s: String| s@) == missing_required_spec(
                declared@.subrange(0, i as int),
                inputs@,
            ),
        decreases declared.len() - i,
    {
        assert(declared@.subrange(0, i + 1).drop_last() =~= declared@.subrange(0, i as int));
        let (name, input) = &declared[i];
        if input.required && input.default.is_none() && is_missing(inputs.get(name.as_str())) {
            let ghost before = r@;
            r.push(name.clone());
            assert(r@.map_values(|s: String| s@) =~= before.map_values(|s: String| s@).push(
                name@,
            ));
        }
        i = i + 1;
    }
    assert(declared@.subrange(0, declared@.len() as int) =~= declared@);
    r
}

/// The JSON type name of a value.
pub open spec fn json_type_spec(v: JsonModel) -> Seq<char> {
    match v {
        JsonModel::Null => "null"@,
        JsonModel::Bool(_) => "boolean"@,
        JsonModel::Int(_) => "integer"@,
        JsonModel::Float(_) => "number"@,
        JsonModel::Str(_) => "string"@,
        JsonModel::Array(_) => "array"@,
        JsonModel::Object(_) => "object"@,
    }
}

/// The JSON type name of a value.
pub fn json_type(value: &JsonValue) -> (r: &'static str)
    ensures
        r@ == json_type_spec(value@),
{
    match value {
        JsonValue::Null => "null",
        JsonValue::Bool(_) => "boolean",
        JsonValue::Number(JsonNumber::F64(_)) => "number",
        JsonValue::Number(_) => "integer",
        JsonValue::String(_) => "string",
        JsonValue::Array(_) => "array",
        JsonValue::Object(_) => "object",
    }
}

/// The object stored under `key` of an object's entries, if it is one.
pub open spec fn nested_object(e: Seq<(Seq<char>, JsonModel)>, key: Seq<char>) -> Option<
    Seq<(Seq<char>, JsonModel)>,
> {
    match lookup(e, key) {
        Some(JsonModel::Object(n)) => Some(n),
        _ => None,
    }
}

/// The message of an artifact envelope without data.
pub open spec fn envelope_message(name: Seq<char>) -> Seq<char> {
    "tool input '"@ + name + "' is an artifact envelope without data"@
}

/// The data an artifact value carries: its `data` field, or that of its
/// `artifact` or `output` envelope; an envelope (`schema` or `meta`)
/// without data is rejected, and any other value stands for itself.
pub open spec fn unwrap_artifact_spec(v: JsonModel, name: Seq<char>) -> Result<JsonModel, Seq<char>> {
    match v {
        JsonModel::Object(e) => if has_key(e, "data"@) {
            Ok(lookup(e, "data"@)->0)
        } else if nested_object(e, "artifact"@) matches Some(n) && has_key(n, "data"@) {
            Ok(lookup(nested_object(e, "artifact"@)->0, "data"@)->0)
        } else if nested_object(e, "output"@) matches Some(n) && has_key(n, "data"@) {
            Ok(lookup(nested_object(e, "output"@)->0, "data"@)->0)
        } else if has_key(e, "schema"@) || has_key(e, "meta"@) {
            Err(envelope_message(name))
        } else {
            Ok(v)
        },
        _ => Ok(v),
    }
}

fn envelope_data(object: &JsonObject, envelope: &str) -> (r: Option<JsonValue>)
    ensures
        match nested_object(object@, envelope@) {
            Some(n) => if has_key(n, "data"@) {
                r matches Some(d) && d@ == lookup(n, "data"@)->0
            } else {
                r is None
            },
            None => r is None,
        },
{
    match object.get(envelope) {
        Some(JsonValue::Object(nested)) => match nested.get("data") {
            Some(data) => Some(clone_value(data)),
            None => None,
        },
        _ => None,
    }
}

/// The data an artifact input carries.
pub fn unwrap_artifact(value: &JsonValue, name: &str) -> (r: Result<JsonValue, String>)
    ensures
        match unwrap_artifact_spec(value@, name@) {
            Ok(v) => r matches Ok(x) && x@ == v,
            Err(m) => r matches Err(x) && x@ == m,
        },
{
    let object = match value {
        JsonValue::Object(object) => object,
        _ => {
            return Ok(clone_value(value));
        },
    };
    match object.get("data") {
        Some(data) => {
            return Ok(clone_value(data));
        },
        None => {},
    }
    match envelope_data(object, "artifact") {
        Some(data) => {
            return Ok(data);
        },
        None => {},
    }
    match envelope_data(object, "output") {
        Some(data) => {
            return Ok(data);
        },
        None => {},
    }
    if object.contains_key("schema") || object.contains_key("meta") {
        let head = concat("tool input '", name);
        return Err(concat(head.as_str(), "' is an artifact envelope without data"));
    }
    Ok(clone_value(value))
}

/// A declared input that could not be materialized.
#[derive(Clone, Debug, PartialEq, Eq)]
pub struct InputContractError {
    input: String,
    message: String,
}

impl InputContractError {
    pub closed spec fn input_view(self) -> Seq<char> {
        self.input@
    }

    pub closed spec fn message_view(self) -> Seq<char> {
        self.message@
    }

    fn new(input: &str, message: String) -> (r: Self)
        ensures
            r.input_view() == input@,
            r.message_view() == message@,
    {
        InputContractError { input: input.to_owned(), message }
    }

    /// The input at fault.
    pub fn input(&self) -> (r: &str)
        ensures
            r@ == self.input_view(),
    {
        self.input.as_str()
    }

    /// The explanation (what the error displays).
    pub fn message(&self) -> (r: &str)
        ensures
            r@ == self.message_view(),
    {
        self.message.as_str()
    }
}

pub open spec fn required_message(owner: Seq<char>, name: Seq<char>) -> Seq<char> {
    owner + " input '"@ + name + "' is required"@
}

pub open spec fn type_message(owner: Seq<char>, name: Seq<char>, input_type: Seq<char>, v: JsonModel) -> Seq<char> {
    owner + " input '"@ + name + "' must be "@ + input_type + ", received "@ + json_type_spec(v)
}

/// One declared input: its supplied value, else its default; a missing or
/// null value fails when required and is left out otherwise; an artifact
/// input is unwrapped to its data; the value must have the declared type.
pub open spec fn materialize_spec(
    owner: Seq<char>,
    name: Seq<char>,
    input: InputDefinition,
    supplied: Option<JsonModel>,
) -> Result<Option<JsonModel>, Seq<char>> {
    let value = match supplied {
        Some(v) => Some(v),
        None => default_model(input),
    };
    let absent = if input.required {
        Err(required_message(owner, name))
    } else {
        Ok(None)
    };
    match value {
        None => absent,
        Some(v) => if v is Null {
            absent
        } else {
            let unwrapped = if input.artifact == Some(true) {
                unwrap_artifact_spec(v, name)
            } else {
                Ok(v)
            };
            match unwrapped {
                Err(m) => Err(m),
                Ok(u) => if u is Null {
                    absent
                } else if !accepts_spec(input.input_type@, u) {
                    Err(type_message(owner, name, input.input_type@, u))
                } else {
                    Ok(Some(u))
                },
            }
        },
    }
}

fn absent_input(owner: &str, name: &str, input: &InputDefinition) -> (r: Result<
    Option<(String, JsonValue)>,
    InputContractError,
>)
    ensures
        input.required ==> (r matches Err(e) && e.input_view() == name@ && e.message_view()
            == required_message(owner@, name@)),
        !input.required ==> r matches Ok(None),
{
    if input.required {
        let head = concat(owner, " input '");
        let middle = concat(head.as_str(), name);
        Err(InputContractError::new(name, concat(middle.as_str(), "' is required")))
    } else {
        Ok(None)
    }
}

/// Materializes one declared input from its supplied value.
pub fn materialize_input(
    owner: &str,
    name: &str,
    input: &InputDefinition,
    supplied: Option<&JsonValue>,
) -> (r: Result<Option<(String, JsonValue)>, InputContractError>)
    ensures
        match materialize_spec(
            owner@,
            name@,
            *input,
            match supplied {
                Some(v) => Some(v@),
                None => None,
            },
        ) {
            Ok(None) => r matches Ok(None),
            Ok(Some(v)) => r matches Ok(Some(p)) && p.0@ == name@ && p.1@ == v,
            Err(m) => r matches Err(e) && e.input_view() == name@ && e.message_view() == m,
        },
{
    let value = match supplied {
        Some(v) => v,
        None => match &input.default {
            Some(d) => d,
            None => {
                return absent_input(owner, name, input);
            },
        },
    };
    if value.is_null() {
        return absent_input(owner, name, input);
    }
    let value = if input.artifact == Some(true) {
        match unwrap_artifact(value, name) {
            Ok(v) => v,
            Err(message) => {
                return Err(InputContractError::new(name, message));
            },
        }
    } else {
        clone_value(value)
    };
    if value.is_null() {
        return absent_input(owner, name, input);
    }
    if !input.accepts_value(&value) {
        let head = concat(owner, " input '");
        let a = concat(head.as_str(), name);
        let b = concat(a.as_str(), "' must be ");
        let c = concat(b.as_str(), input.input_type.as_str());
        let d = concat(c.as_str(), ", received ");
        let message = concat(d.as_str(), json_type(&value));
        return Err(InputContractError::new(name, message));
    }
    Ok(Some((name.to_owned(), value)))
}

/// The invocation map of the declared inputs, in order; the first input that
/// fails is reported.
pub open spec fn materialize_all(
    owner: Seq<char>,
    declared: Seq<(String, InputDefinition)>,
    supplied: Map<Seq<char>, JsonModel>,
) -> Result<Map<Seq<char>, JsonModel>, (Seq<char>, Seq<char>)>
    decreases declared.len(),
{
    if declared.len() == 0 {
        Ok(Map::empty())
    } else {
        match materialize_all(owner, declared.drop_last(), supplied) {
            Err(e) => Err(e),
            Ok(m) => {
                let (name, input) = declared.last();
                let given = if supplied.contains_key(name@) {
                    Some(supplied[name@])
                } else {
                    None
                };
                match materialize_spec(owner, name@, input, given) {
                    Err(msg) => Err((name@, msg)),
                    Ok(None) => Ok(m),
                    Ok(Some(v)) => Ok(m.insert(name@, v)),
                }
            },
        }
    }
}

/// What a materialization promises for the model's result.
pub open spec fn materialized(
    r: Result<JsonObject, InputContractError>,
    expected: Result<Map<Seq<char>, JsonModel>, (Seq<char>, Seq<char>)>,
) -> bool {
    match (r, expected) {
        (Ok(o), Ok(m)) => o.map() == m,
        (Err(e), Err((name, msg))) => e.input_view() == name && e.message_view() == msg,
        _ => false,
    }
}

fn materialize_declared_inputs(
    declared: &DeclaredInputs,
    static_inputs: &JsonObject,
    resolved_inputs: &JsonObject,
    owner: &str,
) -> (r: Result<JsonObject, InputContractError>)
    ensures
        materialized(
            r,
            materialize_all(
                owner@,
                declared@,
                static_inputs.map().union_prefer_right(resolved_inputs.map()),
            ),
        ),
{
    let mut supplied = static_inputs.clone();
    let n = resolved_inputs.len();
    let mut k: usize = 0;
    let ghost re = resolved_inputs@;
    assert(supplied.map() =~= static_inputs.map().union_prefer_right(entry_map(re.subrange(0, 0))));
    while k < n
        invariant
            k <= n == re.len(),
            re == resolved_inputs@,
            crate::json::sorted_keys(re),
            supplied.map() == static_inputs.map().union_prefer_right(
                entry_map(re.subrange(0, k as int)),
            ),
        decreases n - k,
    {
        let (key, value) = resolved_inputs.entry(k);
        proof {
            crate::json::lemma_entry_map_prefix(re, k as int);
        }
        supplied.insert(key.clone(), clone_value(value));
        assert(supplied.map() =~= static_inputs.map().union_prefer_right(
            entry_map(re.subrange(0, k + 1)),
        ));
        k = k + 1;
    }
    assert(re.subrange(0, n as int) =~= re);
    let ghost all = supplied.map();
    assert(all == static_inputs.map().union_prefer_right(resolved_inputs.map()));
    let mut out = JsonObject::new();
    let mut i: usize = 0;
    assert(out.map() =~= Map::<Seq<char>, JsonModel>::empty());
    while i < declared.len()
        invariant
            i <= declared@.len(),
            all == supplied.map(),
            all == static_inputs.map().union_prefer_right(resolved_inputs.map()),
            materialize_all(owner@, declared@.subrange(0, i as int), all) == Ok::<
                Map<Seq<char>, JsonModel>,
                (Seq<char>, Seq<char>),
            >(out.map()),
        decreases declared.len() - i,
    {
        assert(declared@.subrange(0, i + 1).drop_last() =~= declared@.subrange(0, i as int));
        let (name, input) = &declared[i];
        let given = supplied.get(name.as_str());
        proof {
            let g = match given {
                Some(v) => Some(v@),
                None => None,
            };
            assert(g == if all.contains_key(name@) {
                Some(all[name@])
            } else {
                None
            });
            assert(declared@.subrange(0, i + 1).last() == declared@[i as int]);
        }
        match materialize_input(owner, name.as_str(), input, given) {
            Err(e) => {
                proof {
                    let sub = declared@.subrange(0, i + 1);
                    assert(sub.drop_last() == declared@.subrange(0, i as int));
                    assert(materialize_all(owner@, sub.drop_last(), all) is Ok);
                    assert(materialize_all(owner@, sub, all) is Err);
                    lemma_materialize_all_err(owner@, declared@, i as int, all);
                    assert(materialize_all(owner@, sub, all) == Err::<
                        Map<Seq<char>, JsonModel>,
                        (Seq<char>, Seq<char>),
                    >((e.input_view(), e.message_view())));
                }
                return Err(e);
            },
            Ok(None) => {},
            Ok(Some((key, value))) => {
                out.insert(key, value);
            },
        }
        i = i + 1;
    }
    assert(declared@.subrange(0, declared@.len() as int) =~= declared@);
    Ok(out)
}

/// An error at position `i` is the error of the whole declaration list.
proof fn lemma_materialize_all_err(
    owner: Seq<char>,
    declared: Seq<(String, InputDefinition)>,
    i: int,
    supplied: Map<Seq<char>, JsonModel>,
)
    requires
        0 <= i < declared.len(),
        materialize_all(owner, declared.subrange(0, i + 1), supplied) is Err,
    ensures
        materialize_all(owner, declared, supplied) == materialize_all(
            owner,
            declared.subrange(0, i + 1),
            supplied,
        ),
    decreases declared.len() - i,
{
    if i + 1 < declared.len() {
        assert(declared.subrange(0, i + 2).drop_last() =~= declared.subrange(0, i + 1));
        lemma_materialize_all_err(owner, declared, i + 1, supplied);
    } else {
        assert(declared.subrange(0, i + 1) =~= declared);
    }
}

/// The invocation map a runner receives from its supplied inputs.
pub fn materialize_runner_inputs(declared: &DeclaredInputs, supplied: &JsonObject) -> (r: Result<
    JsonObject,
    InputContractError,
>)
    ensures
        materialized(r, materialize_all("runner"@, declared@, supplied.map())),
{
    let none = JsonObject::new();
    let r = materialize_declared_inputs(declared, supplied, &none, "runner");
    assert(supplied.map().union_prefer_right(none.map()) =~= supplied.map());
    r
}

/// The invocation map a declared local tool receives: resolved values take
/// precedence over static ones, and undeclared values are dropped.
pub fn materialize_tool_inputs(
    declared: &DeclaredInputs,
    static_inputs: &JsonObject,
    resolved_inputs: &JsonObject,
) -> (r: Result<JsonObject, InputContractError>)
    ensures
        materialized(
            r,
            materialize_all(
                "tool"@,
                declared@,
                static_inputs.map().union_prefer_right(resolved_inputs.map()),
            ),
        ),
{
    materialize_declared_inputs(declared, static_inputs, resolved_inputs, "tool")
}

} // verus!
