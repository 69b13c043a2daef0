//! JSON text read into the library's JSON value: strict JSON by `serde_json`
//! (module replies, tool lists), and configuration text, JSON with comments
//! and trailing commas, by the `jsonc_parser` crate.
use vstd::prelude::*;
use crate::error::{ErrorV, UnifiedError};
use crate::json::{Json, JsonNumber, JsonV, json_alike, json_text, merge, merge_json_value, plain_json, view_json};
use crate::text::{push_str, string_of};

verus! {

#[verifier::external_type_specification]
#[verifier::external_body]
pub struct ExSerdeValue(serde_json::Value);

/// What `jsonc_parser::parse_to_serde_value` makes of a text: the value it
/// holds (`None` for a text holding only whitespace and comments, or
/// `null`), or the text of the parse error as `{:?}` shows it.
pub uninterp spec fn jsonc_parse(text: Seq<char>) -> Result<Option<JsonV>, Seq<char>>;

/// A value of `serde_json` as the library's JSON value, variant by variant;
/// a number as `serde_json` holds it: a `u64`, else an `i64`, else its text.
#[verifier::external_body]
fn from_serde(v: serde_json::Value) -> Json {
    match v {
        serde_json::Value::Null => Json::Null,
        serde_json::Value::Bool(b) => Json::Bool(b),
        serde_json::Value::Number(n) => Json::Number(match (n.as_u64(), n.as_i64()) {
            (Some(u), _) => JsonNumber::PosInt(u),
            (None, Some(i)) => JsonNumber::NegInt(i),
            (None, None) => JsonNumber::Float(n.to_string()),
        }),
        serde_json::Value::String(s) => Json::Str(s),
        serde_json::Value::Array(a) => Json::Array(a.into_iter().map(from_serde).collect()),
        serde_json::Value::Object(m) => Json::Object(m.into_iter().map(|(k, x)| (k, from_serde(x))).collect()),
    }
}

/// What `serde_json::from_str::<serde_json::Value>` makes of a text: the
/// value, or `None` where the text is not one JSON value.
pub uninterp spec fn json_parse(text: Seq<char>) -> Option<JsonV>;

/// Calls `serde_json::from_str::<serde_json::Value>`; the error is dropped.
/// The contract says that the result is [`json_parse`] of the text, whose
/// JSON grammar is not written out here, and one fact of it: the compact
/// JSON text [`json_text`] writes of a [`plain_json`] value (nested at most
/// 100 deep, within serde_json's recursion limit of 128) is read back as a
/// value holding the same, as [`json_alike`] says. serde_json reads each
/// escape `json_text` writes back to its character, a non-negative integer
/// as a `u64`, a negative one as an `i64`, and keeps an object's members in
/// a map, where each key is found again.
#[verifier::external_body]
pub(crate) fn parse_json(text: &str) -> (r: Option<Json>)
    ensures
        match r {
            Some(j) => json_parse(text@) == Some(view_json(j)),
            None => json_parse(text@) is None,
        },
        match r {
            Some(j) => forall|v: JsonV|
                plain_json(v, 100) && text@ == #[trigger] json_text(v) ==> json_alike(v, j@),
            None => forall|v: JsonV| plain_json(v, 100) ==> text@ != #[trigger] json_text(v),
        },
{
    serde_json::from_str::<serde_json::Value>(text).ok().map(from_serde)
}

/// Calls `jsonc_parser::parse_to_serde_value` with the default options
/// (comments, trailing commas and the other loose forms allowed). The
/// contract says only that the result is [`jsonc_parse`] of the text; what
/// the parser accepts is not written out here.
#[verifier::external_body]
fn parse_to_value(text: &str) -> (r: Result<Option<Json>, String>)
    ensures
        match r {
            Ok(Some(j)) => jsonc_parse(text@) == Ok::<Option<JsonV>, Seq<char>>(Some(view_json(j))),
            Ok(None) => jsonc_parse(text@) == Ok::<Option<JsonV>, Seq<char>>(None),
            Err(e) => jsonc_parse(text@) == Err::<Option<JsonV>, Seq<char>>(e@),
        },
{
    match jsonc_parser::parse_to_serde_value::<Option<serde_json::Value>>(text, &Default::default()) {
        Ok(v) => Ok(v.map(from_serde)),
        Err(e) => Err(format!("{e:?}")),
    }
}

/// Parses configuration text. A parse error, and a text that holds no value,
/// are errors of the `Config` category.
pub fn parse_jsonc(content: &str) -> (r: Result<Json, UnifiedError>)
    ensures
        match jsonc_parse(content@) {
            Ok(Some(v)) => r matches Ok(j) && view_json(j) == v,
            Ok(None) => r matches Err(UnifiedError::L1 { message, category }) && message@
                == "JSONC parsed to empty value"@ && category@ == "Config"@,
            Err(e) => r matches Err(UnifiedError::L1 { message, category }) && message@ == "JSONC parse error: "@
                + e && category@ == "Config"@,
        },
{
    match parse_to_value(content) {
        Ok(Some(j)) => Ok(j),
        Ok(None) => Err(UnifiedError::l1("JSONC parsed to empty value", "Config")),
        Err(e) => {
            let mut b: Vec<char> = Vec::new();
            push_str(&mut b, "JSONC parse error: ");
            push_str(&mut b, e.as_str());
            let message = string_of(b.as_slice());
            Err(UnifiedError::l1(message.as_str(), "Config"))
        }
    }
}

/// The error [`parse_jsonc`] gives for a text that does not parse or holds
/// no value; `None` for one that gives a value.
pub open spec fn jsonc_error(text: Seq<char>) -> Option<ErrorV> {
    match jsonc_parse(text) {
        Ok(Some(_)) => None,
        Ok(None) => Some(ErrorV::L1 { message: "JSONC parsed to empty value"@, category: "Config"@ }),
        Err(e) => Some(ErrorV::L1 { message: "JSONC parse error: "@ + e, category: "Config"@ }),
    }
}

/// The global configuration as the base: its value merged over an empty
/// object when its text parses, else the empty object (a broken global file
/// is passed over).
pub open spec fn base_layer(global: Option<Seq<char>>) -> JsonV {
    match global {
        Some(t) => match jsonc_parse(t) {
            Ok(Some(v)) => merge(JsonV::Object(Seq::empty()), v),
            _ => JsonV::Object(Seq::empty()),
        },
        None => JsonV::Object(Seq::empty()),
    }
}

/// One more file layered over `acc`: merged over it when it parses; its
/// parse error otherwise; nothing changes without a file.
pub open spec fn strict_layer(acc: Result<JsonV, ErrorV>, text: Option<Seq<char>>) -> Result<JsonV, ErrorV> {
    match acc {
        Err(e) => Err(e),
        Ok(a) => match text {
            None => Ok(a),
            Some(t) => match jsonc_parse(t) {
                Ok(Some(v)) => Ok(merge(a, v)),
                _ => Err(jsonc_error(t)->0),
            },
        },
    }
}

/// The layered configuration: the global file as the base, then the
/// project's (or the explicit) file unless it is the global one, then its
/// local override.
pub open spec fn layered_spec(
    global: Option<Seq<char>>,
    project: Option<Seq<char>>,
    project_is_global: bool,
    local: Option<Seq<char>>,
) -> Result<JsonV, ErrorV> {
    strict_layer(
        strict_layer(Ok(base_layer(global)), if project_is_global { None } else { project }),
        local,
    )
}

pub open spec fn opt_text(o: Option<&str>) -> Option<Seq<char>> {
    match o {
        Some(t) => Some(t@),
        None => None,
    }
}

fn strict_step(acc: Json, text: Option<&str>) -> (r: Result<Json, UnifiedError>)
    ensures
        match r {
            Ok(j) => strict_layer(Ok(acc@), opt_text(text)) == Ok::<JsonV, ErrorV>(j@),
            Err(e) => strict_layer(Ok(acc@), opt_text(text)) == Err::<JsonV, ErrorV>(e@),
        },
{
    match text {
        None => Ok(acc),
        Some(t) => match parse_jsonc(t) {
            Ok(v) => {
                let mut a = acc;
                merge_json_value(&mut a, v);
                Ok(a)
            },
            Err(e) => Err(e),
        },
    }
}

/// The configuration the files give together, as [`layered_spec`] says:
/// the texts of the global file, of the project's (or the explicit) file
/// and of its local override, each when there is one.
pub fn layered_config(
    global: Option<&str>,
    project: Option<&str>,
    project_is_global: bool,
    local: Option<&str>,
) -> (r: Result<Json, UnifiedError>)
    ensures
        match r {
            Ok(j) => layered_spec(opt_text(global), opt_text(project), project_is_global, opt_text(local))
                == Ok::<JsonV, ErrorV>(j@),
            Err(e) => layered_spec(opt_text(global), opt_text(project), project_is_global, opt_text(local))
                == Err::<JsonV, ErrorV>(e@),
        },
{
    let mut base = Json::Object(Vec::new());
    proof {
        crate::json::lemma_view_object(Seq::<(String, Json)>::empty());
        assert(base@ == JsonV::Object(Seq::empty()));
    }
    match global {
        Some(t) => match parse_jsonc(t) {
            Ok(v) => merge_json_value(&mut base, v),
            Err(_) => {},
        },
        None => {},
    }
    let p = if project_is_global {
        None
    } else {
        project
    };
    let mid = strict_step(base, p);
    match mid {
        Ok(m) => strict_step(m, local),
        Err(e) => Err(e),
    }
}

} // verus!
