//! The conversation graph as a subsystem: when a `dag` module is loaded,
//! each operation goes to it as a JSON payload and its reply is read back;
//! otherwise the host's own graph does the work. Calling the module is the
//! host's; the payloads, the reading of replies and the errors are here.
use vstd::prelude::*;
use crate::error::UnifiedError;
use crate::json::{Json, JsonV, json_text, lemma_view_object, to_json_text, view_object};
use crate::order::views;
use crate::text::owned;

verus! {

pub open spec fn str_member(k: Seq<char>, v: Seq<char>) -> (Seq<char>, JsonV) {
    (k, JsonV::Str(v))
}

fn member(k: &str, v: &str) -> (r: (String, Json))
    ensures
        r.0@ == k@,
        r.1@ == JsonV::Str(v@),
{
    (owned(k), Json::Str(owned(v)))
}

/// The payload of `dag.create_node`: `{"node_type": .., "parent_id": ..}`,
/// its keys in the sorted order the JSON library writes them.
pub fn create_node_payload(parent_id: &str, node_type: &str) -> (r: String)
    ensures
        r@ == json_text(
            JsonV::Object(seq![str_member("node_type"@, node_type@), str_member("parent_id"@, parent_id@)]),
        ),
{
    let mut m: Vec<(String, Json)> = Vec::new();
    m.push(member("node_type", node_type));
    m.push(member("parent_id", parent_id));
    proof {
        lemma_view_object(m@);
        assert(view_object(m@) =~= seq![str_member("node_type"@, node_type@), str_member("parent_id"@, parent_id@)]);
    }
    to_json_text(&Json::Object(m))
}

/// The payload of `dag.set_node_text`: `{"node_id": .., "text": ..}`.
pub fn set_node_text_payload(node_id: &str, text: &str) -> (r: String)
    ensures
        r@ == json_text(JsonV::Object(seq![str_member("node_id"@, node_id@), str_member("text"@, text@)])),
{
    let mut m: Vec<(String, Json)> = Vec::new();
    m.push(member("node_id", node_id));
    m.push(member("text", text));
    proof {
        lemma_view_object(m@);
        assert(view_object(m@) =~= seq![str_member("node_id"@, node_id@), str_member("text"@, text@)]);
    }
    to_json_text(&Json::Object(m))
}

/// The payload of `dag.delete_node`: `{"node_id": ..}`.
pub fn delete_node_payload(node_id: &str) -> (r: String)
    ensures
        r@ == json_text(JsonV::Object(seq![str_member("node_id"@, node_id@)])),
{
    let mut m: Vec<(String, Json)> = Vec::new();
    m.push(member("node_id", node_id));
    proof {
        lemma_view_object(m@);
        assert(view_object(m@) =~= seq![str_member("node_id"@, node_id@)]);
    }
    to_json_text(&Json::Object(m))
}

/// The payload of `dag.merge_nodes`: `{"node_ids": [..], "summary_text": ..}`.
pub fn merge_nodes_payload(node_ids: &Vec<String>, summary_text: &str) -> (r: String)
    ensures
        r@ == json_text(
            JsonV::Object(
                seq![
                    ("node_ids"@, JsonV::Array(views(node_ids@).map_values(|s: Seq<char>| JsonV::Str(s)))),
                    str_member("summary_text"@, summary_text@),
                ],
            ),
        ),
{
    let mut items: Vec<Json> = Vec::new();
    let mut i: usize = 0;
    while i < node_ids.len()
        invariant
            i <= node_ids@.len(),
            items@.len() == i,
            forall|j: int| 0 <= j < i ==> (#[trigger] items@[j])@ == JsonV::Str(node_ids@[j]@),
        decreases node_ids@.len() - i,
    {
        items.push(Json::Str(node_ids[i].clone()));
        i = i + 1;
    }
    proof {
        crate::json::lemma_view_array(items@);
        assert(crate::json::view_array(items@) =~= views(node_ids@).map_values(|s: Seq<char>| JsonV::Str(s)));
    }
    let mut m: Vec<(String, Json)> = Vec::new();
    m.push((owned("node_ids"), Json::Array(items)));
    m.push(member("summary_text", summary_text));
    proof {
        lemma_view_object(m@);
    }
    let j = Json::Object(m);
    proof {
        assert(view_object(m@) =~= seq![
            ("node_ids"@, JsonV::Array(views(node_ids@).map_values(|s: Seq<char>| JsonV::Str(s)))),
            str_member("summary_text"@, summary_text@),
        ]);
    }
    to_json_text(&j)
}

/// The `id` a module's reply names: the text of its member `id`, or empty
/// where there is none.
pub open spec fn reply_id_spec(v: JsonV) -> Seq<char> {
    match crate::command::context_length::get_member(Some(v), "id"@) {
        Some(JsonV::Str(s)) => s,
        _ => Seq::empty(),
    }
}

/// The id a module's reply names, as [`reply_id_spec`] says.
pub fn reply_id(v: &Json) -> (r: String)
    ensures
        r@ == reply_id_spec(v@),
{
    match v {
        Json::Object(m) => match crate::json::obj_get_ref(m, "id") {
            Some(Json::Str(s)) => s.clone(),
            _ => String::new(),
        },
        _ => String::new(),
    }
}

/// A failed graph operation: an L1 error of category `Dag`.
pub fn dag_error(e: &str) -> (r: UnifiedError)
    ensures
        r matches UnifiedError::L1 { message, category } && message@ == e@ && category@ == "Dag"@,
{
    UnifiedError::l1(e, "Dag")
}

} // verus!
