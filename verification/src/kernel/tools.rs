//! The host's tool path over kernel modules.
//!
//! A method is routed to exactly one module, so each tool-providing module
//! namespaces its own `<module>.tools.list` and `<module>.tools.call`, and
//! the host walks the modules to build the aggregate.
use vstd::prelude::*;
use crate::json::{Json, JsonV, json_text, obj_get, obj_get_ref, to_json_text, view_array, view_object};
use crate::jsonc::{json_parse, parse_json};
use crate::kernel::registry::Registry;
use crate::text::{owned, push_str, str_eq, string_of};

verus! {

/// `<module>.tools.list`: takes no payload, answers `{"tools": [...]}`.
pub fn list_method(module: &str) -> (r: String)
    ensures
        r@ == module@ + ".tools.list"@,
{
    let mut b: Vec<char> = Vec::new();
    push_str(&mut b, module);
    push_str(&mut b, ".tools.list");
    string_of(b.as_slice())
}

/// `<module>.tools.call`: takes `{"name": ..., "arguments": ...}`, answers
/// `{"content": ...}`.
pub fn call_method(module: &str) -> (r: String)
    ensures
        r@ == module@ + ".tools.call"@,
{
    let mut b: Vec<char> = Vec::new();
    push_str(&mut b, module);
    push_str(&mut b, ".tools.call");
    string_of(b.as_slice())
}

/// Whether `module` itself routes its tool list. A module name resolving to
/// itself is not enough: only the route of the method says so.
pub fn offers_tools(registry: &Registry, module: &str) -> (r: bool)
    ensures
        r == (registry@.routes.contains_key(module@ + ".tools.list"@) && registry@.routes[module@
            + ".tools.list"@] == module@),
{
    let m = list_method(module);
    match registry.route(m.as_str()) {
        Some(p) => str_eq(p, module),
        None => false,
    }
}

pub open spec fn tools_key() -> Seq<char> {
    seq!['t', 'o', 'o', 'l', 's']
}

/// The tools in a `tools.list` reply: the `"tools"` array of an object, and
/// no tools for anything else, including a reply that did not parse.
pub open spec fn reply_tools(reply: Option<JsonV>) -> Seq<JsonV> {
    match reply {
        Some(JsonV::Object(m)) => match obj_get(m, tools_key()) {
            Some(JsonV::Array(a)) => a,
            _ => Seq::empty(),
        },
        _ => Seq::empty(),
    }
}

/// The tools of a parsed `tools.list` reply (`None` when it did not parse).
pub fn tools_in_reply(reply: Option<Json>) -> (r: Vec<Json>)
    ensures
        view_array(r@) == reply_tools(
            match reply {
                Some(j) => Some(j@),
                None => None,
            },
        ),
{
    proof {
        reveal_strlit("tools");
        assert("tools"@ =~= tools_key());
    }
    match reply {
        Some(Json::Object(m)) => match obj_get_ref(&m, "tools") {
            Some(Json::Array(a)) => crate::json::clone_array(a),
            _ => {
                let v: Vec<Json> = Vec::new();
                assert(view_array(v@) =~= Seq::empty());
                v
            },
        },
        _ => {
            let v: Vec<Json> = Vec::new();
            assert(view_array(v@) =~= Seq::empty());
            v
        },
    }
}

/// The tools a module's `tools.list` call brought back: its reply read as
/// JSON and the `"tools"` array taken from it; a failed call offers none.
pub fn tools_of_reply(reply: &Result<String, String>) -> (r: Vec<Json>)
    ensures
        view_array(r@) == match reply {
            Ok(t) => reply_tools(json_parse(t@)),
            Err(_) => Seq::<JsonV>::empty(),
        },
{
    match reply {
        Ok(t) => tools_in_reply(parse_json(t.as_str())),
        Err(_) => {
            let v: Vec<Json> = Vec::new();
            assert(view_array(v@) =~= Seq::empty());
            v
        },
    }
}

pub open spec fn function_key() -> Seq<char> {
    seq!['f', 'u', 'n', 'c', 't', 'i', 'o', 'n']
}

pub open spec fn name_key() -> Seq<char> {
    seq!['n', 'a', 'm', 'e']
}

/// The `function.name` of a tool in the function-tool shape.
pub open spec fn tool_name(t: JsonV) -> Option<Seq<char>> {
    match t {
        JsonV::Object(m) => match obj_get(m, function_key()) {
            Some(JsonV::Object(f)) => match obj_get(f, name_key()) {
                Some(JsonV::Str(s)) => Some(s),
                _ => None,
            },
            _ => None,
        },
        _ => None,
    }
}

/// The `function.name` of a tool, when it has one.
pub fn tool_name_of(t: &Json) -> (r: Option<&String>)
    ensures
        match r {
            Some(s) => tool_name(t@) == Some(s@),
            None => tool_name(t@) is None,
        },
{
    proof {
        reveal_strlit("function");
        reveal_strlit("name");
        assert("function"@ =~= function_key());
        assert("name"@ =~= name_key());
    }
    match t {
        Json::Object(m) => match obj_get_ref(m, "function") {
            Some(Json::Object(f)) => match obj_get_ref(f, "name") {
                Some(Json::Str(s)) => Some(s),
                _ => None,
            },
            _ => None,
        },
        _ => None,
    }
}

/// Whether one of `tools` is named `name`.
pub fn offers_tool(tools: &Vec<Json>, name: &str) -> (r: bool)
    ensures
        r == exists|i: int| 0 <= i < tools@.len() && tool_name(#[trigger] view_array(tools@)[i]) == Some(name@),
{
    proof {
        crate::json::lemma_view_array(tools@);
    }
    let mut i: usize = 0;
    while i < tools.len()
        invariant
            i <= tools@.len(),
            view_array(tools@).len() == tools@.len(),
            forall|j: int| 0 <= j < tools@.len() ==> #[trigger] view_array(tools@)[j] == tools@[j]@,
            forall|j: int| 0 <= j < i ==> tool_name(#[trigger] view_array(tools@)[j]) != Some(name@),
        decreases tools.len() - i,
    {
        let hit = match tool_name_of(&tools[i]) {
            Some(s) => str_eq(s.as_str(), name),
            None => false,
        };
        if hit {
            assert(tool_name(view_array(tools@)[i as int]) == Some(name@));
            return true;
        }
        i = i + 1;
    }
    false
}

/// The payload of `<module>.tools.call`: `{"arguments": ..., "name": ...}`,
/// members in the order `serde_json` writes an object built by `json!`.
pub fn call_payload(name: &str, arguments: &str) -> (r: String)
    ensures
        r@ == json_text(
            JsonV::Object(
                seq![("arguments"@, JsonV::Str(arguments@)), ("name"@, JsonV::Str(name@))],
            ),
        ),
{
    let mut m: Vec<(String, Json)> = Vec::new();
    m.push((owned("arguments"), Json::Str(owned(arguments))));
    m.push((owned("name"), Json::Str(owned(name))));
    let v = Json::Object(m);
    proof {
        crate::json::lemma_view_object(m@);
        assert(view_object(m@) =~= seq![
            ("arguments"@, JsonV::Str(arguments@)),
            ("name"@, JsonV::Str(name@)),
        ]);
    }
    to_json_text(&v)
}

pub open spec fn content_key() -> Seq<char> {
    seq!['c', 'o', 'n', 't', 'e', 'n', 't']
}

/// What a tool call answers: the `"content"` string of the module's reply,
/// or the raw reply when it has none, so that the model sees what happened.
pub open spec fn tool_answer(reply: Seq<char>, parsed: Option<JsonV>) -> Seq<char> {
    match parsed {
        Some(JsonV::Object(m)) => match obj_get(m, content_key()) {
            Some(JsonV::Str(c)) => c,
            _ => reply,
        },
        _ => reply,
    }
}

/// The answer of a tool call from the module's raw reply and its parse
/// (`None` when it did not parse).
pub fn tool_reply(reply: String, parsed: Option<Json>) -> (r: String)
    ensures
        r@ == tool_answer(
            reply@,
            match parsed {
                Some(j) => Some(j@),
                None => None,
            },
        ),
{
    proof {
        reveal_strlit("content");
        assert("content"@ =~= content_key());
    }
    match parsed {
        Some(Json::Object(m)) => match obj_get_ref(&m, "content") {
            Some(Json::Str(c)) => c.clone(),
            _ => reply,
        },
        _ => reply,
    }
}

/// What a `tools.call` brings back: the answer read from the module's
/// reply, as [`tool_answer`] says of the reply read as JSON, or the call's
/// own error.
pub fn tool_call_answer(reply: Result<String, String>) -> (r: Result<String, String>)
    ensures
        match reply {
            Ok(t) => r matches Ok(a) && a@ == tool_answer(t@, json_parse(t@)),
            Err(e) => r matches Err(f) && f@ == e@,
        },
{
    match reply {
        Ok(t) => {
            let parsed = parse_json(t.as_str());
            Ok(tool_reply(t, parsed))
        },
        Err(e) => Err(e),
    }
}

proof fn lemma_view_array_add(a: Seq<Json>, b: Seq<Json>)
    ensures
        view_array(a + b) == view_array(a) + view_array(b),
{
    crate::json::lemma_view_array(a);
    crate::json::lemma_view_array(b);
    crate::json::lemma_view_array(a + b);
    assert(view_array(a + b) =~= view_array(a) + view_array(b));
}

/// The tools one module offers: none when it does not route its own tool
/// list (`None`) or its call failed, else those of its reply.
pub open spec fn module_tools(reply: Option<Result<String, String>>) -> Seq<JsonV> {
    match reply {
        Some(Ok(t)) => reply_tools(json_parse(t@)),
        _ => Seq::empty(),
    }
}

/// Every tool offered, module after module.
pub open spec fn all_tools(replies: Seq<Option<Result<String, String>>>) -> Seq<JsonV>
    decreases replies.len(),
{
    if replies.len() == 0 {
        Seq::empty()
    } else {
        all_tools(replies.drop_last()) + module_tools(replies.last())
    }
}

/// Every tool offered by every loaded module, in module-registration order:
/// `replies` holds each module's `tools.list` outcome in that order, `None`
/// for a module that does not offer tools.
pub fn list_tools(replies: &Vec<Option<Result<String, String>>>) -> (r: Vec<Json>)
    ensures
        view_array(r@) == all_tools(replies@),
{
    let mut out: Vec<Json> = Vec::new();
    let mut i: usize = 0;
    assert(replies@.take(0) =~= Seq::<Option<Result<String, String>>>::empty());
    while i < replies.len()
        invariant
            i <= replies@.len(),
            view_array(out@) == all_tools(replies@.take(i as int)),
        decreases replies.len() - i,
    {
        proof {
            assert(replies@.take(i + 1).drop_last() =~= replies@.take(i as int));
            assert(replies@.take(i + 1).last() == replies@[i as int]);
        }
        match &replies[i] {
            Some(rep) => {
                let mut t = tools_of_reply(rep);
                let ghost before = out@;
                let ghost tv = t@;
                out.append(&mut t);
                proof {
                    lemma_view_array_add(before, tv);
                }
            },
            None => {
                assert(module_tools(replies@[i as int]) =~= Seq::<JsonV>::empty());
                assert(view_array(out@) =~= view_array(out@) + Seq::<JsonV>::empty());
            },
        }
        i = i + 1;
    }
    assert(replies@.take(replies@.len() as int) =~= replies@);
    out
}

/// Whether a module's tools include one named `name`.
pub open spec fn offers_named(reply: Option<Result<String, String>>, name: Seq<char>) -> bool {
    exists|i: int| 0 <= i < module_tools(reply).len() && tool_name(#[trigger] module_tools(reply)[i]) == Some(name)
}

/// The module offering the tool `name`: the first, in module-registration
/// order, whose tools include one of that name. `modules` holds each
/// module's name with its `tools.list` outcome, as for [`list_tools`].
pub fn tool_owner(modules: &Vec<(String, Option<Result<String, String>>)>, name: &str) -> (r: Option<String>)
    ensures
        match r {
            Some(m) => exists|k: int|
                0 <= k < modules@.len() && modules@[k].0@ == m@ && offers_named(modules@[k].1, name@) && forall|
                    j: int,
                | 0 <= j < k ==> !offers_named(#[trigger] modules@[j].1, name@),
            None => forall|k: int| 0 <= k < modules@.len() ==> !offers_named(#[trigger] modules@[k].1, name@),
        },
{
    let mut k: usize = 0;
    while k < modules.len()
        invariant
            k <= modules@.len(),
            forall|j: int| 0 <= j < k ==> !offers_named(#[trigger] modules@[j].1, name@),
        decreases modules.len() - k,
    {
        let hit = match &modules[k].1 {
            Some(rep) => {
                let tools = tools_of_reply(rep);
                let ghost mt = module_tools(modules@[k as int].1);
                assert(mt == view_array(tools@));
                let b = offers_tool(&tools, name);
                proof {
                    crate::json::lemma_view_array(tools@);
                    if b {
                        let i = choose|i: int| 0 <= i < tools@.len() && tool_name(#[trigger] view_array(tools@)[i]) == Some(name@);
                        assert(tool_name(mt[i]) == Some(name@));
                    }
                    if offers_named(modules@[k as int].1, name@) {
                        let i = choose|i: int| 0 <= i < mt.len() && tool_name(#[trigger] mt[i]) == Some(name@);
                        assert(tool_name(view_array(tools@)[i]) == Some(name@));
                    }
                }
                b
            },
            None => {
                assert(module_tools(modules@[k as int].1) =~= Seq::<JsonV>::empty());
                false
            },
        };
        assert(hit == offers_named(modules@[k as int].1, name@));
        if hit {
            let m = modules[k].0.clone();
            assert(modules@[k as int].0@ == m@);
            return Some(m);
        }
        k = k + 1;
    }
    None
}

} // verus!
