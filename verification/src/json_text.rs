//! JSON values as compact text, as a JSON writer prints them by default.
use vstd::prelude::*;

use crate::export_shim::{json_quote, json_string_literal};
use crate::json::{lemma_array_decreases, lemma_array_model, JsonModel, JsonNumber, JsonValue};
use crate::text::{decimal_digits, decimal_u64};

verus! {

/// The decimal text of an integer, with a leading `-` when negative.
pub open spec fn int_text(i: int) -> Seq<char> {
    if i < 0 {
        "-"@ + decimal_digits((-i) as nat)
    } else {
        decimal_digits(i as nat)
    }
}

/// Compact JSON text of a value: no whitespace, object keys in order.
/// Floats have none here: their digits are the JSON writer's own.
pub open spec fn json_text(m: JsonModel) -> Option<Seq<char>>
    decreases m,
{
    match m {
        JsonModel::Null => Some("null"@),
        JsonModel::Bool(b) => Some(
            if b {
                "true"@
            } else {
                "false"@
            },
        ),
        JsonModel::Int(i) => Some(int_text(i)),
        JsonModel::Float(_) => None,
        JsonModel::Str(s) => Some(json_string_literal(s)),
        JsonModel::Array(items) => match items_text(items) {
            Some(t) => Some("["@ + t + "]"@),
            None => None,
        },
        JsonModel::Object(entries) => match entries_text(entries) {
            Some(t) => Some("{"@ + t + "}"@),
            None => None,
        },
    }
}

/// The texts of `items` separated by commas.
pub open spec fn items_text(items: Seq<JsonModel>) -> Option<Seq<char>>
    decreases items,
{
    if items.len() == 0 {
        Some(Seq::empty())
    } else {
        let n = items.len() - 1;
        match (items_text(items.subrange(0, n)), json_text(items[n])) {
            (Some(a), Some(b)) => Some(
                if n == 0 {
                    b
                } else {
                    a + ","@ + b
                },
            ),
            _ => None,
        }
    }
}

/// The `"key":value` texts of `entries` separated by commas.
pub open spec fn entries_text(entries: Seq<(Seq<char>, JsonModel)>) -> Option<Seq<char>>
    decreases entries,
{
    if entries.len() == 0 {
        Some(Seq::empty())
    } else {
        let n = entries.len() - 1;
        match (entries_text(entries.subrange(0, n)), json_text(entries[n].1)) {
            (Some(a), Some(b)) => {
                let e = json_string_literal(entries[n].0) + ":"@ + b;
                Some(
                    if n == 0 {
                        e
                    } else {
                        a + ","@ + e
                    },
                )
            },
            _ => None,
        }
    }
}

/// An optional string by its view.
pub open spec fn opt_view(o: Option<String>) -> Option<Seq<char>> {
    match o {
        Some(s) => Some(s@),
        None => None,
    }
}

fn number_text(n: JsonNumber) -> (r: Option<String>)
    ensures
        opt_view(r) == json_text(crate::json::number_model(n)),
{
    match n {
        JsonNumber::I64(i) => {
            if i < 0 {
                let m: u64 = (0i128 - (i as i128)) as u64;
                let mut s = String::new();
                s.append("-");
                let d = decimal_u64(m);
                s.append(d.as_str());
                proof {
                    reveal_strlit("-");
                }
                Some(s)
            } else {
                Some(decimal_u64(i as u64))
            }
        },
        JsonNumber::U64(u) => Some(decimal_u64(u)),
        JsonNumber::F64(_) => None,
    }
}

/// Items have text exactly when every one of them has.
proof fn lemma_items_text_none(items: Seq<JsonModel>, k: int)
    requires
        0 <= k <= items.len(),
        items_text(items.subrange(0, k)) is None,
    ensures
        items_text(items) is None,
    decreases items.len() - k,
{
    if k < items.len() {
        let s = items.subrange(0, k + 1);
        assert(s.subrange(0, k) =~= items.subrange(0, k));
        lemma_items_text_none(items, k + 1);
    } else {
        assert(items.subrange(0, k) =~= items);
    }
}

proof fn lemma_entries_text_none(entries: Seq<(Seq<char>, JsonModel)>, k: int)
    requires
        0 <= k <= entries.len(),
        entries_text(entries.subrange(0, k)) is None,
    ensures
        entries_text(entries) is None,
    decreases entries.len() - k,
{
    if k < entries.len() {
        let s = entries.subrange(0, k + 1);
        assert(s.subrange(0, k) =~= entries.subrange(0, k));
        lemma_entries_text_none(entries, k + 1);
    } else {
        assert(entries.subrange(0, k) =~= entries);
    }
}

/// The compact JSON text of a value, unless it holds a float.
pub fn json_text_of(v: &JsonValue) -> (r: Option<String>)
    ensures
        opt_view(r) == json_text(v@),
    decreases v,
{
    match v {
        JsonValue::Null => {
            proof {
                reveal_strlit("null");
            }
            Some("null".to_owned())
        },
        JsonValue::Bool(b) => Some(
            if *b {
                "true".to_owned()
            } else {
                "false".to_owned()
            },
        ),
        JsonValue::Number(n) => number_text(*n),
        JsonValue::String(s) => Some(json_quote(s.as_str())),
        JsonValue::Array(items) => {
            let ghost model = v@->Array_0;
            proof {
                lemma_array_model(*items);
                assert(model.subrange(0, 0) =~= Seq::<JsonModel>::empty());
            }
            let mut out = String::new();
            let mut i: usize = 0;
            while i < items.len()
                invariant
                    *v == JsonValue::Array(*items),
                    model == v@->Array_0,
                    model.len() == items@.len(),
                    forall|j: int| 0 <= j < items@.len() ==> #[trigger] model[j] == items@[j]@,
                    i <= items@.len(),
                    items_text(model.subrange(0, i as int)) == Some(out@),
                decreases items.len() - i,
            {
                proof {
                    lemma_array_decreases(*v, i as int);
                    assert(model.subrange(0, i + 1).subrange(0, i as int) =~= model.subrange(0, i as int));
                    assert(model.subrange(0, i + 1)[i as int] == model[i as int]);
                }
                match json_text_of(&items[i]) {
                    None => {
                        proof {
                            lemma_items_text_none(model, i + 1);
                        }
                        return None;
                    },
                    Some(t) => {
                        if i > 0 {
                            out.append(",");
                        }
                        out.append(t.as_str());
                        proof {
                            reveal_strlit(",");
                        }
                    },
                }
                i = i + 1;
            }
            proof {
                assert(model.subrange(0, items@.len() as int) =~= model);
                reveal_strlit("[");
                reveal_strlit("]");
            }
            let mut r = "[".to_owned();
            r.append(out.as_str());
            r.append("]");
            Some(r)
        },
        JsonValue::Object(o) => {
            let ghost model = o@;
            let n = o.len();
            proof {
                assert(model.subrange(0, 0) =~= Seq::<(Seq<char>, JsonModel)>::empty());
            }
            let mut out = String::new();
            let mut i: usize = 0;
            while i < n
                invariant
                    *v == JsonValue::Object(*o),
                    model == o@,
                    v@ == JsonModel::Object(model),
                    n == model.len(),
                    i <= n,
                    entries_text(model.subrange(0, i as int)) == Some(out@),
                decreases n - i,
            {
                let (key, value) = o.entry(i);
                proof {
                    assert(model.subrange(0, i + 1).subrange(0, i as int) =~= model.subrange(0, i as int));
                    assert(model.subrange(0, i + 1)[i as int] == model[i as int]);
                }
                match json_text_of(value) {
                    None => {
                        proof {
                            lemma_entries_text_none(model, i + 1);
                        }
                        return None;
                    },
                    Some(t) => {
                        if i > 0 {
                            out.append(",");
                        }
                        out.append(json_quote(key.as_str()).as_str());
                        out.append(":");
                        out.append(t.as_str());
                        proof {
                            reveal_strlit(",");
                            reveal_strlit(":");
                        }
                    },
                }
                i = i + 1;
            }
            proof {
                assert(model.subrange(0, n as int) =~= model);
                reveal_strlit("{");
                reveal_strlit("}");
            }
            let mut r = "{".to_owned();
            r.append(out.as_str());
            r.append("}");
            Some(r)
        },
    }
}

/// One more item extends the comma-separated text.
pub proof fn lemma_items_text_push(s: Seq<JsonModel>, m: JsonModel)
    ensures
        items_text(s.push(m)) == match (items_text(s), json_text(m)) {
            (Some(a), Some(b)) => Some(
                if s.len() == 0 {
                    b
                } else {
                    a + ","@ + b
                },
            ),
            _ => None::<Seq<char>>,
        },
{
    assert(s.push(m).subrange(0, s.len() as int) =~= s);
}

/// One more entry extends the comma-separated text.
pub proof fn lemma_entries_text_push(s: Seq<(Seq<char>, JsonModel)>, k: Seq<char>, m: JsonModel)
    ensures
        entries_text(s.push((k, m))) == match (entries_text(s), json_text(m)) {
            (Some(a), Some(b)) => Some(
                if s.len() == 0 {
                    json_string_literal(k) + ":"@ + b
                } else {
                    a + ","@ + json_string_literal(k) + ":"@ + b
                },
            ),
            _ => None::<Seq<char>>,
        },
{
    assert(s.push((k, m)).subrange(0, s.len() as int) =~= s);
}

} // verus!
