//! Reading a local server's context window out of what its metadata
//! endpoints answer: llama.cpp's `/props` and Ollama's `/api/show`.
use vstd::prelude::*;
use crate::json::{Json, JsonNumber, JsonV, NumberV, obj_get, obj_get_ref, view_object};
use crate::command::llm::EndpointStatus;
use crate::jsonc::{json_parse, parse_json};
use crate::text::{chars_of, owned, push_str, slice_chars, string_of};

verus! {

/// `Value::get` on a value: a member of an object, nothing otherwise.
pub open spec fn get_member(v: Option<JsonV>, k: Seq<char>) -> Option<JsonV> {
    match v {
        Some(JsonV::Object(m)) => obj_get(m, k),
        _ => None,
    }
}

/// A number that fits in a `u32`.
pub open spec fn as_u32(v: Option<JsonV>) -> Option<u32> {
    match v {
        Some(JsonV::Number(NumberV::PosInt(u))) => if u <= u32::MAX {
            Some(u as u32)
        } else {
            None
        },
        _ => None,
    }
}

/// llama.cpp's `/props`: `default_generation_settings.n_ctx`, else a
/// top-level `n_ctx`, as a `u32`.
pub open spec fn props_context(body: Option<JsonV>) -> Option<u32> {
    let nested = get_member(get_member(body, "default_generation_settings"@), "n_ctx"@);
    as_u32(if nested is Some { nested } else { get_member(body, "n_ctx"@) })
}

fn member<'a>(v: Option<&'a Json>, k: &str) -> (r: Option<&'a Json>)
    ensures
        match r {
            Some(x) => get_member(match v { Some(j) => Some(j@), None => None }, k@) == Some(x@),
            None => get_member(match v { Some(j) => Some(j@), None => None }, k@) is None,
        },
{
    match v {
        Some(Json::Object(m)) => obj_get_ref(m, k),
        _ => None,
    }
}

fn to_u32(v: Option<&Json>) -> (r: Option<u32>)
    ensures
        r == as_u32(match v { Some(j) => Some(j@), None => None }),
{
    match v {
        Some(Json::Number(JsonNumber::PosInt(u))) => if *u <= u32::MAX as u64 {
            Some(*u as u32)
        } else {
            None
        },
        _ => None,
    }
}

/// The context window in a `/props` answer (`None` when it did not parse).
pub fn props_context_length(body: Option<&Json>) -> (r: Option<u32>)
    ensures
        r == props_context(match body { Some(j) => Some(j@), None => None }),
{
    let nested = member(member(body, "default_generation_settings"), "n_ctx");
    match nested {
        Some(_) => to_u32(nested),
        None => to_u32(member(body, "n_ctx")),
    }
}

/// Whether `k` ends with `.context_length`.
pub open spec fn is_context_key(k: Seq<char>) -> bool {
    ".context_length"@.len() <= k.len() && k.subrange(k.len() - ".context_length"@.len(), k.len() as int)
        == ".context_length"@
}

/// Index of the first member whose key ends with `.context_length`, or -1.
pub open spec fn context_key_index(m: Seq<(Seq<char>, JsonV)>) -> int
    decreases m.len(),
{
    if m.len() == 0 {
        -1
    } else if is_context_key(m[0].0) {
        0
    } else {
        let r = context_key_index(m.drop_first());
        if r < 0 {
            -1
        } else {
            r + 1
        }
    }
}

/// Ollama's `/api/show`: the first member of `model_info` whose key ends
/// with `.context_length` (the prefix names the model's architecture), as a
/// `u32`.
pub open spec fn show_context(body: Option<JsonV>) -> Option<u32> {
    match get_member(body, "model_info"@) {
        Some(JsonV::Object(m)) => {
            let i = context_key_index(m);
            if i < 0 {
                None
            } else {
                as_u32(Some(m[i].1))
            }
        },
        _ => None,
    }
}

fn ends_with_context(k: &str) -> (r: bool)
    ensures
        r == is_context_key(k@),
{
    let s = chars_of(k);
    let suffix = chars_of(".context_length");
    if suffix.len() > s.len() {
        return false;
    }
    let tail = slice_chars(s.as_slice(), s.len() - suffix.len(), s.len());
    crate::text::chars_eq(tail.as_slice(), suffix.as_slice())
}

proof fn lemma_context_key_index(m: Seq<(Seq<char>, JsonV)>, i: int)
    requires
        -1 <= i <= m.len(),
        i < 0 ==> forall|j: int| 0 <= j < m.len() ==> !is_context_key(#[trigger] m[j].0),
        i >= 0 ==> i < m.len() && is_context_key(m[i].0) && forall|j: int| 0 <= j < i ==> !is_context_key(#[trigger] m[j].0),
    ensures
        context_key_index(m) == i,
    decreases m.len(),
{
    if m.len() > 0 && !is_context_key(m[0].0) {
        let t = m.drop_first();
        if i < 0 {
            assert forall|j: int| 0 <= j < t.len() implies !is_context_key(#[trigger] t[j].0) by {
                assert(t[j] == m[j + 1]);
            }
            lemma_context_key_index(t, -1);
        } else {
            assert(i > 0);
            assert forall|j: int| 0 <= j < i - 1 implies !is_context_key(#[trigger] t[j].0) by {
                assert(t[j] == m[j + 1]);
            }
            assert(t[i - 1] == m[i]);
            lemma_context_key_index(t, i - 1);
        }
    } else if m.len() > 0 {
        if i > 0 {
            assert(!is_context_key(m[0].0));
        }
    }
}

/// The context window in an `/api/show` answer (`None` when it did not
/// parse).
pub fn show_context_length(body: Option<&Json>) -> (r: Option<u32>)
    ensures
        r == show_context(match body { Some(j) => Some(j@), None => None }),
{
    match member(body, "model_info") {
        Some(Json::Object(m)) => {
            proof {
                crate::json::lemma_view_object(m@);
            }
            let ghost mv = view_object(m@);
            let mut i: usize = 0;
            while i < m.len()
                invariant
                    i <= m@.len(),
                    mv == view_object(m@),
                    get_member(match body { Some(j) => Some(j@), None => None }, "model_info"@) == Some(JsonV::Object(mv)),
                    mv.len() == m@.len(),
                    forall|j: int| 0 <= j < m@.len() ==> #[trigger] mv[j] == (m@[j].0@, m@[j].1@),
                    forall|j: int| 0 <= j < i ==> !is_context_key(#[trigger] mv[j].0),
                decreases m.len() - i,
            {
                if ends_with_context(m[i].0.as_str()) {
                    proof {
                        assert(mv[i as int].0 == m@[i as int].0@);
                        lemma_context_key_index(mv, i as int);
                    }
                    return to_u32(Some(&m[i].1));
                }
                proof {
                    assert(mv[i as int].0 == m@[i as int].0@);
                }
                i = i + 1;
            }
            proof {
                lemma_context_key_index(mv, -1);
            }
            None
        },
        _ => None,
    }
}

/// The server root a base URL stands for: trailing slashes and a trailing
/// `/v1` removed.
pub open spec fn root_of(url: Seq<char>) -> Seq<char> {
    let t = trim_slashes(url);
    if "/v1"@.len() <= t.len() && t.subrange(t.len() - 3, t.len() as int) == "/v1"@ {
        t.subrange(0, t.len() - 3)
    } else {
        t
    }
}

pub open spec fn trim_slashes(s: Seq<char>) -> Seq<char>
    decreases s.len(),
{
    if s.len() > 0 && s.last() == '/' {
        trim_slashes(s.drop_last())
    } else {
        s
    }
}

/// The server root a base URL stands for, as [`root_of`] says.
pub fn normalize_base_url(url: &str) -> (r: String)
    ensures
        r@ == root_of(url@),
{
    proof {
        reveal_strlit("/v1");
    }
    let s = chars_of(url);
    let mut n = s.len();
    assert(s@.subrange(0, n as int) =~= s@);
    while n > 0 && s[n - 1] == '/'
        invariant
            n <= s@.len(),
            trim_slashes(s@) == trim_slashes(s@.subrange(0, n as int)),
        decreases n,
    {
        assert(s@.subrange(0, n as int).drop_last() =~= s@.subrange(0, n - 1));
        n = n - 1;
    }
    let t = slice_chars(s.as_slice(), 0, n);
    proof {
        if n > 0 {
            assert(t@.last() != '/');
        }
        assert(trim_slashes(t@) == t@);
    }
    if n >= 3 && t[n - 3] == '/' && t[n - 2] == 'v' && t[n - 1] == '1' {
        let u = slice_chars(t.as_slice(), 0, n - 3);
        assert(t@.subrange(n - 3, n as int) =~= "/v1"@);
        string_of(u.as_slice())
    } else {
        proof {
            if n >= 3 && t@.subrange(n - 3, n as int) == "/v1"@ {
                assert(t@.subrange(n - 3, n as int)[0] == t@[n - 3]);
                assert(t@.subrange(n - 3, n as int)[1] == t@[n - 2]);
                assert(t@.subrange(n - 3, n as int)[2] == t@[n - 1]);
            }
        }
        string_of(t.as_slice())
    }
}

/// The URL of an endpoint's model list, which answers any request when the
/// server is alive.
pub fn models_url(base_url: &str) -> (r: String)
    ensures
        r@ == root_of(base_url@) + "/v1/models"@,
{
    let root = normalize_base_url(base_url);
    let mut b: Vec<char> = Vec::new();
    push_str(&mut b, root.as_str());
    push_str(&mut b, "/v1/models");
    string_of(b.as_slice())
}

/// The next thing checking an endpoint needs from the network.
pub enum EndpointStep {
    /// GET this URL: any answer at all shows the server is up; a failed
    /// connection or a timeout comes back as the error's text.
    Probe(String),
    /// GET this URL; its body comes back as text, `None` when the request
    /// failed.
    Props(String),
    /// POST this JSON to this URL; its body comes back as for `Props`.
    Show(String, Json),
    /// The check is over.
    Done(EndpointStatus),
}

/// What the requests asked for so far brought back; `None` for one not
/// made yet.
pub struct EndpointReplies {
    pub probe: Option<Result<(), String>>,
    pub props: Option<Option<String>>,
    pub show: Option<Option<String>>,
}

/// A body read as JSON; nothing for a failed request or a body that is not
/// JSON.
pub open spec fn body_view(b: Option<String>) -> Option<JsonV> {
    match b {
        Some(t) => json_parse(t@),
        None => None,
    }
}

pub open spec fn done_with(r: EndpointStep, ctx: Option<u32>) -> bool {
    r matches EndpointStep::Done(s) && s.reachable is Ok && s.context_length == ctx
}

fn body_json(b: &Option<String>) -> (r: Option<Json>)
    ensures
        match r {
            Some(j) => body_view(*b) == Some(j@),
            None => body_view(*b) is None,
        },
{
    match b {
        Some(t) => parse_json(t.as_str()),
        None => None,
    }
}

fn root_with(base_url: &str, tail: &str) -> (r: String)
    ensures
        r@ == root_of(base_url@) + tail@,
{
    let root = normalize_base_url(base_url);
    let mut b: Vec<char> = Vec::new();
    push_str(&mut b, root.as_str());
    push_str(&mut b, tail);
    string_of(b.as_slice())
}

/// Checks an endpoint: first whether it answers at all, then, only when it
/// does, its context window, from llama.cpp's `/props` and else, when a
/// model is named, from Ollama's `/api/show`. `replies` holds what the
/// requests made so far brought back; the result is the next request, or
/// the status.
pub fn check_endpoint(base_url: &str, model: Option<&str>, replies: &EndpointReplies) -> (r: EndpointStep)
    ensures
        ({
            let root = root_of(base_url@);
            match replies.probe {
                None => r matches EndpointStep::Probe(u) && u@ == root + "/v1/models"@,
                Some(Err(e)) => r matches EndpointStep::Done(s) && s.reachable matches Err(x) && x@ == e@
                    && s.context_length is None,
                Some(Ok(())) => match replies.props {
                    None => r matches EndpointStep::Props(u) && u@ == root + "/props"@,
                    Some(b) => if props_context(body_view(b)) is Some {
                        done_with(r, props_context(body_view(b)))
                    } else {
                        match model {
                            None => done_with(r, None),
                            Some(m) => match replies.show {
                                None => r matches EndpointStep::Show(u, j) && u@ == root + "/api/show"@ && j@
                                    == JsonV::Object(seq![("model"@, JsonV::Str(m@))]),
                                Some(c) => done_with(r, show_context(body_view(c))),
                            },
                        }
                    },
                },
            }
        }),
{
    match &replies.probe {
        None => {
            return EndpointStep::Probe(root_with(base_url, "/v1/models"));
        },
        Some(Err(e)) => {
            return EndpointStep::Done(EndpointStatus { reachable: Err(e.clone()), context_length: None });
        },
        Some(Ok(())) => {},
    }
    let props = match &replies.props {
        None => {
            return EndpointStep::Props(root_with(base_url, "/props"));
        },
        Some(b) => b,
    };
    let pj = body_json(props);
    let found = match &pj {
        Some(j) => props_context_length(Some(j)),
        None => props_context_length(None),
    };
    if found.is_some() {
        return EndpointStep::Done(EndpointStatus { reachable: Ok(()), context_length: found });
    }
    let m = match model {
        None => {
            return EndpointStep::Done(EndpointStatus { reachable: Ok(()), context_length: None });
        },
        Some(m) => m,
    };
    match &replies.show {
        None => {
            let mut members: Vec<(String, Json)> = Vec::new();
            members.push((owned("model"), Json::Str(owned(m))));
            proof {
                crate::json::lemma_view_object(members@);
                assert(view_object(members@) =~= seq![("model"@, JsonV::Str(m@))]);
            }
            EndpointStep::Show(root_with(base_url, "/api/show"), Json::Object(members))
        },
        Some(b) => {
            let sj = body_json(b);
            let ctx = match &sj {
                Some(j) => show_context_length(Some(j)),
                None => show_context_length(None),
            };
            EndpointStep::Done(EndpointStatus { reachable: Ok(()), context_length: ctx })
        },
    }
}

/// The number a `/props` member gives as a context window: a
/// non-negative integer that fits in a `u32`, else none.
pub open spec fn window_of(v: JsonV) -> Option<u32> {
    match v {
        JsonV::Number(NumberV::PosInt(k)) => if k <= u32::MAX {
            Some(k as u32)
        } else {
            None
        },
        _ => None,
    }
}

/// The context window read from llama.cpp's `/props` body: the
/// `default_generation_settings.n_ctx` member when the body has one,
/// otherwise the top-level `n_ctx` member, otherwise none; the member
/// counts when it is a non-negative integer that fits in a `u32`.
pub proof fn law_props_context_window(body: JsonV)
    ensures
        ({
            let nested = get_member(get_member(Some(body), "default_generation_settings"@), "n_ctx"@);
            let top = get_member(Some(body), "n_ctx"@);
            &&& nested matches Some(v) ==> props_context(Some(body)) == window_of(v)
            &&& nested is None ==> (top matches Some(v) ==> props_context(Some(body)) == window_of(v))
            &&& nested is None && top is None ==> props_context(Some(body)) is None
        }),
        forall|k: u64|
            k <= u32::MAX && get_member(get_member(Some(body), "default_generation_settings"@), "n_ctx"@) is None
                && #[trigger] get_member(Some(body), "n_ctx"@) == Some(JsonV::Number(NumberV::PosInt(k)))
                ==> props_context(Some(body)) == Some(k as u32),
        props_context(None) is None,
{
}

} // verus!
