//! What the managed agent is shown: each allowed tool's input schema, and
//! each current-context artifact as it enters the prompt.
use vstd::prelude::*;

use crate::json::{clone_object, clone_value, has_key, lookup, JsonModel, JsonObject, JsonValue};
use crate::text::str_eq;

verus! {

/// An input a catalog tool declares.
#[derive(Debug)]
pub struct ToolInput {
    pub input_type: String,
    pub required: bool,
    pub description: Option<String>,
    pub default: Option<JsonValue>,
}

/// A JSON Schema type name the property may carry.
pub open spec fn schema_type(t: Seq<char>) -> bool {
    t == "string"@ || t == "number"@ || t == "integer"@ || t == "boolean"@ || t == "object"@ || t == "array"@
}

/// The schema of one tool input: its type when it is a JSON Schema type,
/// its description and its default.
pub open spec fn property_map(input: ToolInput) -> Map<Seq<char>, JsonModel> {
    let with_type = if schema_type(input.input_type@) {
        Map::empty().insert("type"@, JsonModel::Str(input.input_type@))
    } else {
        Map::empty()
    };
    let with_description = match input.description {
        Some(d) => with_type.insert("description"@, JsonModel::Str(d@)),
        None => with_type,
    };
    match input.default {
        Some(v) => with_description.insert("default"@, v@),
        None => with_description,
    }
}

/// The schema of one tool input.
pub fn tool_input_property(input: &ToolInput) -> (r: JsonObject)
    ensures
        r.map() == property_map(*input),
{
    let mut schema = JsonObject::new();
    let t = input.input_type.as_str();
    if str_eq(t, "string") || str_eq(t, "number") || str_eq(t, "integer") || str_eq(t, "boolean") || str_eq(
        t,
        "object",
    ) || str_eq(t, "array") {
        schema.insert("type".to_owned(), JsonValue::String(input.input_type.clone()));
    }
    match &input.description {
        Some(d) => {
            schema.insert("description".to_owned(), JsonValue::String(d.clone()));
        },
        None => {},
    }
    match &input.default {
        Some(v) => {
            schema.insert("default".to_owned(), clone_value(v));
        },
        None => {},
    }
    assert(schema.map() =~= property_map(*input));
    schema
}

/// The names of the required inputs, in order.
pub open spec fn required_names(inputs: Seq<(String, ToolInput)>) -> Seq<JsonModel>
    decreases inputs.len(),
{
    if inputs.len() == 0 {
        Seq::empty()
    } else if inputs.last().1.required {
        required_names(inputs.drop_last()).push(JsonModel::Str(inputs.last().0@))
    } else {
        required_names(inputs.drop_last())
    }
}

/// The property schema of every input, by name (a later input wins a name).
pub open spec fn properties_spec(inputs: Seq<(String, ToolInput)>) -> Map<Seq<char>, Map<Seq<char>, JsonModel>>
    decreases inputs.len(),
{
    if inputs.len() == 0 {
        Map::empty()
    } else {
        properties_spec(inputs.drop_last()).insert(inputs.last().0@, property_map(inputs.last().1))
    }
}

/// The `properties` object holds, under each input's name, that input's
/// property schema.
pub open spec fn properties_match(p: Map<Seq<char>, JsonModel>, spec: Map<Seq<char>, Map<Seq<char>, JsonModel>>) -> bool {
    &&& forall|k: Seq<char>| #[trigger] p.contains_key(k) <==> spec.contains_key(k)
    &&& forall|k: Seq<char>|
        #[trigger] p.contains_key(k) ==> (p[k] matches JsonModel::Object(e) && crate::json::entry_map(e) == spec[k])
}

/// The object schema of a tool's inputs: every input a property, the
/// required ones listed, nothing else allowed.
pub fn tool_input_schema(inputs: &Vec<(String, ToolInput)>) -> (r: JsonValue)
    ensures
        r matches JsonValue::Object(o) && o.map().dom() == set!["type"@, "properties"@, "required"@, "additionalProperties"@]
            && o.map()["type"@] == JsonModel::Str("object"@) && o.map()["required"@] == JsonModel::Array(
            required_names(inputs@),
        ) && o.map()["additionalProperties"@] == JsonModel::Bool(false) && (o.map()["properties"@] matches JsonModel::Object(
            p,
        ) && properties_match(crate::json::entry_map(p), properties_spec(inputs@))),
{
    let mut properties = JsonObject::new();
    let mut required: Vec<JsonValue> = Vec::new();
    let mut i: usize = 0;
    assert(inputs@.subrange(0, 0) =~= Seq::<(String, ToolInput)>::empty());
    while i < inputs.len()
        invariant
            i <= inputs@.len(),
            properties_match(properties.map(), properties_spec(inputs@.subrange(0, i as int))),
            required@.len() == required_names(inputs@.subrange(0, i as int)).len(),
            forall|j: int|
                0 <= j < required@.len() ==> crate::json::json_model(#[trigger] required@[j]) == required_names(
                    inputs@.subrange(0, i as int),
                )[j],
        decreases inputs.len() - i,
    {
        let ghost prefix = inputs@.subrange(0, i + 1);
        assert(prefix.drop_last() =~= inputs@.subrange(0, i as int));
        assert(prefix.last() == inputs@[i as int]);
        let (name, input) = &inputs[i];
        let property = tool_input_property(input);
        let ghost before = properties.map();
        let ghost pm = property@;
        properties.insert(name.clone(), JsonValue::Object(property));
        proof {
            let spec = properties_spec(prefix);
            assert forall|k: Seq<char>| #[trigger] properties.map().contains_key(k) <==> spec.contains_key(k) by {}
            assert forall|k: Seq<char>| #[trigger] properties.map().contains_key(k) implies (properties.map()[k] matches JsonModel::Object(
                e,
            ) && crate::json::entry_map(e) == spec[k]) by {
                if k == name@ {
                    assert(properties.map()[k] == JsonModel::Object(pm));
                }
            }
        }
        if input.required {
            let ghost old_required = required@;
            required.push(JsonValue::String(name.clone()));
            assert forall|j: int| 0 <= j < required@.len() implies crate::json::json_model(#[trigger] required@[j])
                == required_names(prefix)[j] by {
                if j < old_required.len() {
                    assert(required@[j] == old_required[j]);
                }
            }
        }
        i = i + 1;
    }
    assert(inputs@.subrange(0, inputs@.len() as int) =~= inputs@);
    let mut schema = JsonObject::new();
    schema.insert("type".to_owned(), JsonValue::String("object".to_owned()));
    let ghost props = properties@;
    let ghost props_map = properties.map();
    schema.insert("properties".to_owned(), JsonValue::Object(properties));
    proof {
        crate::json::lemma_array_model(required);
        assert(crate::json::json_model(JsonValue::Array(required))->Array_0 =~= required_names(inputs@));
    }
    schema.insert("required".to_owned(), JsonValue::Array(required));
    schema.insert("additionalProperties".to_owned(), JsonValue::Bool(false));
    proof {
        reveal_strlit("type");
        reveal_strlit("properties");
        reveal_strlit("required");
        reveal_strlit("additionalProperties");
        assert("properties"@ != "required"@) by {
            assert("properties"@.len() != "required"@.len());
        }
        assert("properties"@ != "additionalProperties"@) by {
            assert("properties"@.len() != "additionalProperties"@.len());
        }
        assert("type"@ != "properties"@) by {
            assert("type"@.len() != "properties"@.len());
        }
        assert("type"@ != "required"@) by {
            assert("type"@.len() != "required"@.len());
        }
        assert("type"@ != "additionalProperties"@) by {
            assert("type"@.len() != "additionalProperties"@.len());
        }
        assert("required"@ != "additionalProperties"@) by {
            assert("required"@.len() != "additionalProperties"@.len());
        }
    }
    assert(schema.map().dom() =~= set!["type"@, "properties"@, "required"@, "additionalProperties"@]);
    assert(schema.map()["properties"@] == JsonModel::Object(props));
    assert(crate::json::entry_map(props) == props_map);
    JsonValue::Object(schema)
}

/// A current-context artifact, as the prompt shows it.
#[derive(Debug)]
pub struct ContextEntry {
    pub entry_type: Option<String>,
    pub artifact_id: String,
    pub hash: String,
    pub data: JsonObject,
}

/// What the prompt shows of a context artifact: its type when it has one,
/// its id and hash, and its data.
pub fn context_artifact_for_prompt(entry: &ContextEntry) -> (r: JsonObject)
    ensures
        r.map() == ({
            let base = Map::<Seq<char>, JsonModel>::empty().insert("artifact_id"@, JsonModel::Str(entry.artifact_id@)).insert(
                "hash"@,
                JsonModel::Str(entry.hash@),
            ).insert("data"@, JsonModel::Object(entry.data@));
            match entry.entry_type {
                Some(t) => base.insert("type"@, JsonModel::Str(t@)),
                None => base,
            }
        }),
{
    let mut artifact = JsonObject::new();
    match &entry.entry_type {
        Some(t) => {
            artifact.insert("type".to_owned(), JsonValue::String(t.clone()));
        },
        None => {},
    }
    artifact.insert("artifact_id".to_owned(), JsonValue::String(entry.artifact_id.clone()));
    artifact.insert("hash".to_owned(), JsonValue::String(entry.hash.clone()));
    let data = clone_object(&entry.data);
    artifact.insert("data".to_owned(), JsonValue::Object(data));
    proof {
        let base = Map::<Seq<char>, JsonModel>::empty().insert("artifact_id"@, JsonModel::Str(entry.artifact_id@)).insert(
            "hash"@,
            JsonModel::Str(entry.hash@),
        ).insert("data"@, JsonModel::Object(entry.data@));
        reveal_strlit("type");
        reveal_strlit("artifact_id");
        reveal_strlit("hash");
        reveal_strlit("data");
        assert("hash"@ != "data"@) by {
            assert("hash"@[0] != "data"@[0]);
        }
        assert("type"@ != "data"@) by {
            assert("type"@[0] != "data"@[0]);
        }
        assert("type"@ != "hash"@) by {
            assert("type"@[0] != "hash"@[0]);
        }
        assert("artifact_id"@ != "data"@) by {
            assert("artifact_id"@.len() != "data"@.len());
        }
        assert("artifact_id"@ != "hash"@) by {
            assert("artifact_id"@.len() != "hash"@.len());
        }
        assert("artifact_id"@ != "type"@) by {
            assert("artifact_id"@.len() != "type"@.len());
        }
        assert(artifact.map().contains_key("data"@));
        assert(artifact.map()["data"@] == JsonModel::Object(entry.data@));
        assert(artifact.map()["hash"@] == JsonModel::Str(entry.hash@));
        if entry.entry_type is Some {
            assert(artifact.map() =~= base.insert("type"@, JsonModel::Str((entry.entry_type->0)@)));
        } else {
            assert(artifact.map() =~= base);
        }
    }
    artifact
}

} // verus!
