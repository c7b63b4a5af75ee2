//! A mathematical model of JSON documents, and the trusted boundary to the
//! `serde_json` parser.
//!
//! A parsed document is modelled by `JsonData`; an object is a sequence of
//! key/value entries in the order the parser's map iterates them. What
//! `serde_json` returns for a given text is named, not restated: `json_doc_of`
//! names the parse result, `json_view` names the model of a concrete parsed
//! value, and `json_parse_diag_of` names the parser's diagnostic on failure.

use vstd::prelude::*;

verus! {

/// Model of one JSON value. Object entries appear in the order the
/// underlying map iterates them; numbers are collapsed to a single
/// constructor because nothing in this crate reads one.
pub enum JsonData {
    Null,
    Bool(bool),
    Num,
    Text(Seq<char>),
    Arr(Seq<JsonData>),
    Obj(Seq<(Seq<char>, JsonData)>),
}

/// The value of the first entry of `es` whose key is `k`, if any.
pub open spec fn obj_get(es: Seq<(Seq<char>, JsonData)>, k: Seq<char>) -> Option<JsonData>
    decreases es.len(),
{
    if es.len() == 0 {
        None
    } else if es[0].0 == k {
        Some(es[0].1)
    } else {
        obj_get(es.drop_first(), k)
    }
}

/// A termination measure for walks over a document: nesting is only
/// followed through objects, so array elements do not add to it.
pub open spec fn json_height(j: JsonData) -> nat
    decreases j,
{
    match j {
        JsonData::Obj(es) => 1 + entries_height(es),
        _ => 1,
    }
}

pub open spec fn entries_height(es: Seq<(Seq<char>, JsonData)>) -> nat
    decreases es,
{
    if es.len() == 0 {
        0
    } else {
        1 + json_height(es[0].1) + entries_height(es.drop_first())
    }
}

pub proof fn lemma_entry_height(es: Seq<(Seq<char>, JsonData)>, i: int)
    requires
        0 <= i < es.len(),
    ensures
        json_height(es[i].1) < entries_height(es),
    decreases es.len(),
{
    if i == 0 {
    } else {
        lemma_entry_height(es.drop_first(), i - 1);
    }
}

/// If `k` first occurs at position `i`, the lookup yields that entry's value.
pub proof fn lemma_obj_get_at(es: Seq<(Seq<char>, JsonData)>, k: Seq<char>, i: int)
    requires
        0 <= i < es.len(),
        es[i].0 == k,
        forall|m: int| 0 <= m < i ==> (#[trigger] es[m]).0 != k,
    ensures
        obj_get(es, k) == Some(es[i].1),
    decreases es.len(),
{
    if i > 0 {
        lemma_obj_get_at(es.drop_first(), k, i - 1);
    }
}

/// If no entry carries `k`, the lookup yields nothing.
pub proof fn lemma_obj_get_none(es: Seq<(Seq<char>, JsonData)>, k: Seq<char>)
    requires
        forall|m: int| 0 <= m < es.len() ==> (#[trigger] es[m]).0 != k,
    ensures
        obj_get(es, k) is None,
    decreases es.len(),
{
    if es.len() > 0 {
        lemma_obj_get_none(es.drop_first(), k);
    }
}

/// What `serde_json::from_str::<Value>` yields on the text: the parsed
/// document, or nothing when the text is not valid JSON.
pub uninterp spec fn json_doc_of(s: Seq<char>) -> Option<JsonData>;

/// The parser's diagnostic message for a text it rejects.
pub uninterp spec fn json_parse_diag_of(s: Seq<char>) -> Seq<char>;

/// The model of a concrete `serde_json::Value`.
pub uninterp spec fn json_view(v: serde_json::Value) -> JsonData;

#[verifier::external_type_specification]
#[verifier::external_body]
pub struct ExValue(serde_json::Value);

/// Relies on `serde_json::from_str::<Value>`: parses the whole text as one
/// JSON document, and on failure reports a diagnostic determined by the
/// text alone. The error is handed on as its display text.
#[verifier::external_body]
pub fn json_parse(s: &str) -> (r: Result<serde_json::Value, String>)
    ensures
        r is Ok <==> json_doc_of(s@) is Some,
        r matches Ok(v) ==> json_doc_of(s@) == Some(json_view(v)),
        r matches Err(e) ==> e@ == json_parse_diag_of(s@),
{
    serde_json::from_str::<serde_json::Value>(s).map_err(|e| e.to_string())
}

/// Relies on `serde_json::Value::as_object` (yields the map exactly when the
/// value is an object) and `serde_json::Map::iter` (every entry, in the
/// map's iteration order); cloning an entry keeps its model.
#[verifier::external_body]
pub fn json_object_entries(v: &serde_json::Value) -> (r: Option<
    Vec<(String, serde_json::Value)>,
>)
    ensures
        r is Some <==> json_view(*v) is Obj,
        r matches Some(es) ==> {
            &&& es@.len() == (json_view(*v)->Obj_0).len()
            &&& forall|i: int|
                0 <= i < es@.len() ==> (#[trigger] es@[i]).0@ == (json_view(*v)->Obj_0)[i].0
                    && json_view(es@[i].1) == (json_view(*v)->Obj_0)[i].1
        },
{
    v.as_object().map(|m| m.iter().map(|(k, val)| (k.clone(), val.clone())).collect())
}

/// Relies on `serde_json::Value::as_str`: yields the text exactly when the
/// value is a JSON string.
#[verifier::external_body]
pub fn json_as_str(v: &serde_json::Value) -> (r: Option<String>)
    ensures
        r is Some <==> json_view(*v) is Text,
        r matches Some(s) ==> s@ == json_view(*v)->Text_0,
{
    v.as_str().map(|s| s.to_string())
}

} // verus!
