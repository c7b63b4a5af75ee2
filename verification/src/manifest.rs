//! Parsing of the two document shapes: the root lockfile document and the
//! per-package installed descriptor.
//!
//! `serde_json` turns the text into a document; everything after that —
//! which fields are required, what shape the nesting must have — is this
//! crate's own logic, verified against spec predicates over the document
//! model. Unknown fields are ignored; a missing `version`, a `version`
//! that is not a string, or an ill-shaped `dependencies` map is a
//! `ParseError`.

use vstd::prelude::*;

use crate::json::JsonData;
use crate::json::entries_height;
use crate::json::json_as_str;
use crate::json::json_doc_of;
use crate::json::json_height;
use crate::json::json_object_entries;
use crate::json::json_parse;
use crate::json::json_parse_diag_of;
use crate::json::json_view;
use crate::json::lemma_entry_height;
use crate::json::lemma_obj_get_at;
use crate::json::lemma_obj_get_none;
use crate::json::obj_get;
use crate::npm_types::PackageJSONRoot;
use crate::npm_types::PackageLockDependency;
use crate::npm_types::PackageLockJSONRoot;

verus! {

/// Why a document was rejected: the text is not JSON at all (with the
/// parser's diagnostic), or it is JSON of the wrong shape.
#[derive(Debug)]
pub enum ParseError {
    Syntax(String),
    Structure,
}

/// The mathematical image of a `ParseError`.
pub enum ParseErrorModel {
    Syntax(Seq<char>),
    Structure,
}

pub open spec fn parse_error_view(e: ParseError) -> ParseErrorModel {
    match e {
        ParseError::Syntax(t) => ParseErrorModel::Syntax(t@),
        ParseError::Structure => ParseErrorModel::Structure,
    }
}

/// The diagnostic text a `ParseError` carries.
pub open spec fn parse_error_text(e: ParseErrorModel) -> Seq<char> {
    match e {
        ParseErrorModel::Syntax(t) => t,
        ParseErrorModel::Structure => "invalid manifest structure"@,
    }
}

impl ParseError {
    /// The diagnostic text of this error.
    pub fn message(&self) -> (r: String)
        ensures
            r@ == parse_error_text(parse_error_view(*self)),
    {
        match self {
            ParseError::Syntax(t) => t.clone(),
            ParseError::Structure => "invalid manifest structure".to_owned(),
        }
    }
}

/// The `version` string of a descriptor document, if the document is an
/// object whose first `version` entry holds a string.
pub open spec fn descriptor_version_of_doc(j: JsonData) -> Option<Seq<char>> {
    match j {
        JsonData::Obj(es) => match obj_get(es, "version"@) {
            Some(JsonData::Text(v)) => Some(v),
            _ => None,
        },
        _ => None,
    }
}

/// What parsing an installed descriptor text must yield: its `version`
/// string, or the exact error.
pub open spec fn installed_version_of(s: Seq<char>) -> Result<Seq<char>, ParseErrorModel> {
    match json_doc_of(s) {
        None => Err(ParseErrorModel::Syntax(json_parse_diag_of(s))),
        Some(j) => match descriptor_version_of_doc(j) {
            Some(v) => Ok(v),
            None => Err(ParseErrorModel::Structure),
        },
    }
}

/// The declared node `d` is exactly what the document `j` describes: the
/// same version string, and children matching the `dependencies` object
/// entry for entry, in its order.
pub open spec fn dep_matches(d: PackageLockDependency, j: JsonData) -> bool
    decreases d,
{
    match j {
        JsonData::Obj(es) => {
            &&& obj_get(es, "version"@) == Some(JsonData::Text(d.version@))
            &&& match obj_get(es, "dependencies"@) {
                None => d.dependencies is None,
                Some(JsonData::Obj(ces)) => match d.dependencies {
                    Some(list) => deps_list_matches(list@, ces),
                    None => false,
                },
                Some(_) => false,
            }
        },
        _ => false,
    }
}

/// The declared list matches the object entries pairwise, in order.
pub open spec fn deps_list_matches(
    list: Seq<(String, PackageLockDependency)>,
    ces: Seq<(Seq<char>, JsonData)>,
) -> bool
    decreases list,
{
    &&& list.len() == ces.len()
    &&& forall|i: int|
        0 <= i < ces.len() ==> (#[trigger] list[i]).0@ == ces[i].0 && dep_matches(
            list[i].1,
            ces[i].1,
        )
}

/// The document `j` has the shape of one declared dependency node.
pub open spec fn node_ok(j: JsonData) -> bool
    decreases j,
{
    match j {
        JsonData::Obj(es) => {
            &&& obj_get(es, "version"@) matches Some(JsonData::Text(_))
            &&& deps_shape_ok(es)
        },
        _ => false,
    }
}

/// The first `dependencies` entry of `es`, if there is one, holds an
/// object of well-shaped dependency nodes. Stated over the entry list
/// itself so that the recursion is structural.
pub open spec fn deps_shape_ok(es: Seq<(Seq<char>, JsonData)>) -> bool
    decreases es,
{
    if es.len() == 0 {
        true
    } else if es[0].0 == "dependencies"@ {
        match es[0].1 {
            JsonData::Obj(ces) => children_ok(ces),
            _ => false,
        }
    } else {
        deps_shape_ok(es.drop_first())
    }
}

/// Every value of the entry list is a well-shaped dependency node.
pub open spec fn children_ok(ces: Seq<(Seq<char>, JsonData)>) -> bool
    decreases ces,
{
    if ces.len() == 0 {
        true
    } else {
        node_ok(ces[0].1) && children_ok(ces.drop_first())
    }
}

/// The document `j` has the shape of the root lockfile document: an
/// object whose `dependencies` entry holds an object of well-shaped
/// dependency nodes.
pub open spec fn root_ok(j: JsonData) -> bool {
    match j {
        JsonData::Obj(es) => match obj_get(es, "dependencies"@) {
            Some(JsonData::Obj(ces)) => children_ok(ces),
            _ => false,
        },
        _ => false,
    }
}

/// The parsed root `root` is exactly what the document `j` describes.
pub open spec fn root_matches(root: PackageLockJSONRoot, j: JsonData) -> bool {
    match j {
        JsonData::Obj(es) => match obj_get(es, "dependencies"@) {
            Some(JsonData::Obj(ces)) => deps_list_matches(root.dependencies@, ces),
            _ => false,
        },
        _ => false,
    }
}

/// `deps_shape_ok` checks by walking the entries what `root_ok` and
/// `dep_matches` read off through the lookup.
pub proof fn lemma_deps_shape_get(es: Seq<(Seq<char>, JsonData)>)
    ensures
        deps_shape_ok(es) <==> match obj_get(es, "dependencies"@) {
            None => true,
            Some(JsonData::Obj(ces)) => children_ok(ces),
            Some(_) => false,
        },
    decreases es.len(),
{
    if es.len() > 0 && es[0].0 != "dependencies"@ {
        lemma_deps_shape_get(es.drop_first());
    }
}

/// A well-shaped entry list is well-shaped at each position.
pub proof fn lemma_children_ok_index(ces: Seq<(Seq<char>, JsonData)>, k: int)
    requires
        children_ok(ces),
        0 <= k < ces.len(),
    ensures
        node_ok(ces[k].1),
    decreases ces.len(),
{
    if k > 0 {
        lemma_children_ok_index(ces.drop_first(), k - 1);
    }
}

/// An entry list well-shaped at every position is well-shaped.
pub proof fn lemma_children_ok_build(ces: Seq<(Seq<char>, JsonData)>)
    requires
        forall|k: int| 0 <= k < ces.len() ==> node_ok((#[trigger] ces[k]).1),
    ensures
        children_ok(ces),
    decreases ces.len(),
{
    if ces.len() > 0 {
        assert(forall|k: int|
            0 <= k < ces.drop_first().len() ==> (#[trigger] ces.drop_first()[k]) == ces[k + 1]);
        lemma_children_ok_build(ces.drop_first());
    }
}

/// The position of the first entry of `es` whose key is `key`, if any.
fn find_key(es: &Vec<(String, serde_json::Value)>, key: &str) -> (r: Option<usize>)
    ensures
        r matches Some(i) ==> i < es@.len() && es@[i as int].0@ == key@ && (forall|m: int|
            0 <= m < i ==> (#[trigger] es@[m]).0@ != key@),
        r is None ==> forall|m: int| 0 <= m < es@.len() ==> (#[trigger] es@[m]).0@ != key@,
{
    let key_string: String = key.to_owned();
    let n = es.len();
    let mut i: usize = 0;
    while i < n
        invariant
            i <= n,
            n == es@.len(),
            key_string@ == key@,
            forall|m: int| 0 <= m < i ==> (#[trigger] es@[m]).0@ != key@,
        decreases n - i,
    {
        if es[i].0 == key_string {
            return Some(i);
        }
        i = i + 1;
    }
    None
}

/// Parse the text of an installed package's descriptor file.
pub fn parse_installed_descriptor(s: &str) -> (r: Result<PackageJSONRoot, ParseError>)
    ensures
        r is Ok <==> installed_version_of(s@) is Ok,
        r matches Ok(p) ==> installed_version_of(s@) == Ok::<Seq<char>, ParseErrorModel>(
            p.version@,
        ),
        r matches Err(e) ==> installed_version_of(s@) == Err::<Seq<char>, ParseErrorModel>(
            parse_error_view(e),
        ),
{
    let doc = match json_parse(s) {
        Ok(v) => v,
        Err(t) => {
            return Err(ParseError::Syntax(t));
        },
    };
    let entries = match json_object_entries(&doc) {
        Some(es) => es,
        None => {
            return Err(ParseError::Structure);
        },
    };
    let ghost model = json_view(doc)->Obj_0;
    let ghost es_view = entries@;
    match find_key(&entries, "version") {
        None => {
            proof {
                assert forall|m: int| 0 <= m < model.len() implies (#[trigger] model[m]).0
                    != "version"@ by {
                    assert(es_view[m].0@ != "version"@);
                }
                lemma_obj_get_none(model, "version"@);
            }
            Err(ParseError::Structure)
        },
        Some(i) => {
            proof {
                assert forall|m: int| 0 <= m < i implies (#[trigger] model[m]).0 != "version"@ by {
                    assert(es_view[m].0@ != "version"@);
                }
                lemma_obj_get_at(model, "version"@, i as int);
            }
            match json_as_str(&entries[i].1) {
                Some(version) => Ok(PackageJSONRoot { version }),
                None => Err(ParseError::Structure),
            }
        },
    }
}

/// Build the declared children list from the entries of a `dependencies`
/// object. `centries` are the entries of an object whose model is `cmodel`.
fn extract_children(
    centries: &Vec<(String, serde_json::Value)>,
    Ghost(cmodel): Ghost<Seq<(Seq<char>, JsonData)>>,
) -> (r: Result<Vec<(String, PackageLockDependency)>, ParseError>)
    requires
        centries@.len() == cmodel.len(),
        forall|m: int|
            0 <= m < cmodel.len() ==> (#[trigger] centries@[m]).0@ == cmodel[m].0 && json_view(
                centries@[m].1,
            ) == cmodel[m].1,
    ensures
        r is Ok <==> children_ok(cmodel),
        r matches Ok(list) ==> deps_list_matches(list@, cmodel),
    decreases entries_height(cmodel),
{
    let n = centries.len();
    let mut children: Vec<(String, PackageLockDependency)> = Vec::new();
    let mut k: usize = 0;
    while k < n
        invariant
            k <= n,
            n == centries@.len(),
            centries@.len() == cmodel.len(),
            forall|m: int|
                0 <= m < cmodel.len() ==> (#[trigger] centries@[m]).0@ == cmodel[m].0 && json_view(
                    centries@[m].1,
                ) == cmodel[m].1,
            children@.len() == k,
            forall|m: int|
                0 <= m < k ==> (#[trigger] children@[m]).0@ == cmodel[m].0 && dep_matches(
                    children@[m].1,
                    cmodel[m].1,
                ) && node_ok(cmodel[m].1),
        decreases n - k,
    {
        proof {
            lemma_entry_height(cmodel, k as int);
        }
        let child = match extract_dependency(&centries[k].1) {
            Ok(c) => c,
            Err(e) => {
                proof {
                    if children_ok(cmodel) {
                        lemma_children_ok_index(cmodel, k as int);
                    }
                }
                return Err(e);
            },
        };
        children.push((centries[k].0.clone(), child));
        k = k + 1;
    }
    proof {
        assert forall|m: int| 0 <= m < cmodel.len() implies node_ok((#[trigger] cmodel[m]).1) by {
            assert(children@[m].0@ == cmodel[m].0);
        }
        lemma_children_ok_build(cmodel);
    }
    Ok(children)
}

/// Build one declared dependency node from its document value.
fn extract_dependency(v: &serde_json::Value) -> (r: Result<PackageLockDependency, ParseError>)
    ensures
        r is Ok <==> node_ok(json_view(*v)),
        r matches Ok(d) ==> dep_matches(d, json_view(*v)),
    decreases json_height(json_view(*v)),
{
    let entries = match json_object_entries(v) {
        Some(es) => es,
        None => {
            return Err(ParseError::Structure);
        },
    };
    let ghost model = json_view(*v)->Obj_0;
    let ghost es_view = entries@;
    let vi = match find_key(&entries, "version") {
        Some(i) => i,
        None => {
            proof {
                assert forall|m: int| 0 <= m < model.len() implies (#[trigger] model[m]).0
                    != "version"@ by {
                    assert(es_view[m].0@ != "version"@);
                }
                lemma_obj_get_none(model, "version"@);
            }
            return Err(ParseError::Structure);
        },
    };
    proof {
        assert forall|m: int| 0 <= m < vi implies (#[trigger] model[m]).0 != "version"@ by {
            assert(es_view[m].0@ != "version"@);
        }
        lemma_obj_get_at(model, "version"@, vi as int);
    }
    let version = match json_as_str(&entries[vi].1) {
        Some(t) => t,
        None => {
            return Err(ParseError::Structure);
        },
    };
    match find_key(&entries, "dependencies") {
        None => {
            proof {
                assert forall|m: int| 0 <= m < model.len() implies (#[trigger] model[m]).0
                    != "dependencies"@ by {
                    assert(es_view[m].0@ != "dependencies"@);
                }
                lemma_obj_get_none(model, "dependencies"@);
                lemma_deps_shape_get(model);
            }
            Ok(PackageLockDependency { version, dependencies: None })
        },
        Some(di) => {
            proof {
                assert forall|m: int| 0 <= m < di implies (#[trigger] model[m]).0
                    != "dependencies"@ by {
                    assert(es_view[m].0@ != "dependencies"@);
                }
                lemma_obj_get_at(model, "dependencies"@, di as int);
                lemma_deps_shape_get(model);
            }
            let centries = match json_object_entries(&entries[di].1) {
                Some(ces) => ces,
                None => {
                    return Err(ParseError::Structure);
                },
            };
            let ghost cmodel = json_view(es_view[di as int].1)->Obj_0;
            proof {
                lemma_entry_height(model, di as int);
            }
            match extract_children(&centries, Ghost(cmodel)) {
                Ok(list) => Ok(
                    PackageLockDependency { version, dependencies: Some(list) },
                ),
                Err(e) => Err(e),
            }
        },
    }
}

/// Parse the text of the root lockfile document into the declared tree.
///
/// The result is `Ok` exactly when the text is valid JSON of the required
/// shape; a text that the JSON parser rejects yields `Syntax` with the
/// parser's diagnostic, a well-formed document of the wrong shape yields
/// `Structure`.
pub fn parse_declared_tree(s: &str) -> (r: Result<PackageLockJSONRoot, ParseError>)
    ensures
        r is Ok <==> (json_doc_of(s@) matches Some(j) && root_ok(j)),
        r matches Ok(root) ==> root_matches(root, json_doc_of(s@)->0),
        r matches Err(e) ==> (e is Syntax <==> json_doc_of(s@) is None),
        r matches Err(ParseError::Syntax(t)) ==> t@ == json_parse_diag_of(s@),
{
    let doc = match json_parse(s) {
        Ok(v) => v,
        Err(t) => {
            return Err(ParseError::Syntax(t));
        },
    };
    let entries = match json_object_entries(&doc) {
        Some(es) => es,
        None => {
            return Err(ParseError::Structure);
        },
    };
    let ghost model = json_view(doc)->Obj_0;
    let ghost es_view = entries@;
    let di = match find_key(&entries, "dependencies") {
        Some(i) => i,
        None => {
            proof {
                assert forall|m: int| 0 <= m < model.len() implies (#[trigger] model[m]).0
                    != "dependencies"@ by {
                    assert(es_view[m].0@ != "dependencies"@);
                }
                lemma_obj_get_none(model, "dependencies"@);
            }
            return Err(ParseError::Structure);
        },
    };
    proof {
        assert forall|m: int| 0 <= m < di implies (#[trigger] model[m]).0 != "dependencies"@ by {
            assert(es_view[m].0@ != "dependencies"@);
        }
        lemma_obj_get_at(model, "dependencies"@, di as int);
    }
    let centries = match json_object_entries(&entries[di].1) {
        Some(ces) => ces,
        None => {
            return Err(ParseError::Structure);
        },
    };
    let ghost cmodel = json_view(es_view[di as int].1)->Obj_0;
    match extract_children(&centries, Ghost(cmodel)) {
        Ok(list) => Ok(PackageLockJSONRoot { dependencies: list }),
        Err(_) => Err(ParseError::Structure),
    }
}

} // verus!
