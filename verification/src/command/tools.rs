//! `/tools`: the permissions each enabled extension was configured with,
//! and the tools the tool providers offer.
use vstd::prelude::*;
use crate::command::context_length::get_member;
use crate::config::{Config, ExtensionConfig, PermissionConfig};
use crate::json::{Json, JsonV, lemma_view_array};
use crate::jsonc::{json_parse, parse_json};
use crate::order::views;
use crate::text::{chars_of, join, owned, push_str, string_of};

verus! {

/// What `{:?}` writes for a string: std's `Debug` for `str`, the text
/// quoted with its special characters escaped.
pub uninterp spec fn debug_str(s: Seq<char>) -> Seq<char>;

/// What `{:?}` writes for a list of strings: each as [`debug_str`] writes
/// it, between brackets, separated by `, `.
pub open spec fn debug_list(items: Seq<Seq<char>>) -> Seq<char> {
    "["@ + join(items.map_values(|s: Seq<char>| debug_str(s)), ", "@) + "]"@
}

/// `format!("{:?}", v)` for a `Vec<String>`. Claimed, from std's `Debug`
/// for slices: the items' own `Debug` texts, in order, between `[` and `]`
/// and separated by `, `. What the `Debug` of one string escapes is left to
/// std and only named.
#[verifier::external_body]
fn debug_strings(v: &Vec<String>) -> (r: String)
    ensures
        r@ == "["@ + join(views(v@).map_values(|s: Seq<char>| debug_str(s)), ", "@) + "]"@,
{
    format!("{:?}", v)
}

/// `true` or `false`, as `{}` writes a `bool`.
pub open spec fn bool_text(b: bool) -> Seq<char> {
    if b {
        "true"@
    } else {
        "false"@
    }
}

fn push_bool(out: &mut Vec<char>, b: bool)
    ensures
        final(out)@ == old(out)@ + bool_text(b),
{
    if b {
        push_str(out, "true");
    } else {
        push_str(out, "false");
    }
}

fn push_debug(out: &mut Vec<char>, v: &Vec<String>)
    ensures
        final(out)@ == old(out)@ + debug_list(views(v@)),
{
    let d = debug_strings(v);
    push_str(out, d.as_str());
}

/// The lines of the execution and network permissions, each only where it
/// is configured.
pub open spec fn sub_permissions_text(p: &PermissionConfig) -> Seq<char> {
    (match &p.execution {
        Some(e) => "    Execution: Bash allowed: "@ + bool_text(e.allow_bash) + ", Allowed commands: "@
            + debug_list(views(e.allow_commands@)) + ", Blocked: "@ + debug_list(views(e.block_commands@))
            + "\n"@,
        None => Seq::empty(),
    }) + (match &p.network {
        Some(n) => "    Network: Allowed: "@ + bool_text(n.allow_network) + ", Domains: "@ + debug_list(
            views(n.allow_domains@),
        ) + "\n"@,
        None => Seq::empty(),
    })
}

/// Appends the lines of the execution and network permissions, as
/// [`sub_permissions_text`] says.
pub fn render_sub_permissions(output: &mut String, perm: &PermissionConfig)
    ensures
        final(output)@ == old(output)@ + sub_permissions_text(perm),
{
    let mut b = chars_of(output.as_str());
    let ghost start = b@;
    if let Some(exec) = &perm.execution {
        push_str(&mut b, "    Execution: Bash allowed: ");
        push_bool(&mut b, exec.allow_bash);
        push_str(&mut b, ", Allowed commands: ");
        push_debug(&mut b, &exec.allow_commands);
        push_str(&mut b, ", Blocked: ");
        push_debug(&mut b, &exec.block_commands);
        push_str(&mut b, "\n");
    }
    let ghost mid = b@;
    if let Some(net) = &perm.network {
        push_str(&mut b, "    Network: Allowed: ");
        push_bool(&mut b, net.allow_network);
        push_str(&mut b, ", Domains: ");
        push_debug(&mut b, &net.allow_domains);
        push_str(&mut b, "\n");
    }
    proof {
        let e_part = match &perm.execution {
            Some(e) => "    Execution: Bash allowed: "@ + bool_text(e.allow_bash) + ", Allowed commands: "@
                + debug_list(views(e.allow_commands@)) + ", Blocked: "@ + debug_list(
                views(e.block_commands@),
            ) + "\n"@,
            None => Seq::<char>::empty(),
        };
        assert(mid =~= start + e_part);
        assert(b@ =~= start + sub_permissions_text(perm));
    }
    *output = string_of(b.as_slice());
}

/// What one extension contributes: nothing when it is disabled, else its
/// name and role, then its path lists and the other permissions, or
/// `Default` when it has none configured.
pub open spec fn extension_permissions(e: ExtensionConfig) -> Seq<char> {
    if !e.enabled {
        Seq::empty()
    } else {
        "  Extension: "@ + e.name@ + " (Role: "@ + e.role@ + ")\n"@ + match &e.permissions {
            Some(p) => "    Read Allowed Paths: "@ + debug_list(views(p.fs_read_allow@)) + "\n"@
                + "    Write Allowed Paths: "@ + debug_list(views(p.fs_write_allow@)) + "\n"@
                + sub_permissions_text(p),
            None => "    Permissions: Default\n"@,
        }
    }
}

pub open spec fn permissions_lines(exts: Seq<ExtensionConfig>) -> Seq<char>
    decreases exts.len(),
{
    if exts.len() == 0 {
        Seq::empty()
    } else {
        permissions_lines(exts.drop_last()) + extension_permissions(exts.last())
    }
}

fn push_extension(out: &mut String, ext: &ExtensionConfig)
    ensures
        final(out)@ == old(out)@ + extension_permissions(*ext),
{
    let ghost before = out@;
    if ext.enabled {
        let mut b = chars_of(out.as_str());
        push_str(&mut b, "  Extension: ");
        push_str(&mut b, ext.name.as_str());
        push_str(&mut b, " (Role: ");
        push_str(&mut b, ext.role.as_str());
        push_str(&mut b, ")\n");
        match &ext.permissions {
            Some(perm) => {
                push_str(&mut b, "    Read Allowed Paths: ");
                push_debug(&mut b, &perm.fs_read_allow);
                push_str(&mut b, "\n");
                push_str(&mut b, "    Write Allowed Paths: ");
                push_debug(&mut b, &perm.fs_write_allow);
                push_str(&mut b, "\n");
                *out = string_of(b.as_slice());
                render_sub_permissions(out, perm);
                assert(out@ =~= before + extension_permissions(*ext));
            },
            None => {
                push_str(&mut b, "    Permissions: Default\n");
                *out = string_of(b.as_slice());
                assert(out@ =~= before + extension_permissions(*ext));
            },
        }
    } else {
        assert(out@ =~= before + extension_permissions(*ext));
    }
}

/// The permissions of every enabled extension, in configuration order.
pub fn render_config_permissions(config: &Config) -> (r: String)
    ensures
        r@ == "Active Permissions:\n"@ + permissions_lines(config.extensions@),
{
    let exts = &config.extensions;
    let mut out = owned("Active Permissions:\n");
    let mut i: usize = 0;
    assert(exts@.take(0) =~= Seq::<ExtensionConfig>::empty());
    while i < exts.len()
        invariant
            i <= exts@.len(),
            exts == &config.extensions,
            out@ == "Active Permissions:\n"@ + permissions_lines(exts@.take(i as int)),
        decreases exts.len() - i,
    {
        let ext = &exts[i];
        proof {
            let t = exts@.take(i + 1);
            assert(t.drop_last() =~= exts@.take(i as int));
            assert(t.last() == *ext);
        }
        push_extension(&mut out, ext);
        i = i + 1;
    }
    assert(exts@.take(exts@.len() as int) =~= exts@);
    out
}

/// `Value::as_str` on what `get` found.
pub open spec fn as_text(v: Option<JsonV>) -> Option<Seq<char>> {
    match v {
        Some(JsonV::Str(s)) => Some(s),
        _ => None,
    }
}

/// A tool's field `k`: `function.k`, else a top-level `k`, as text; else
/// `fallback`.
pub open spec fn tool_field(t: JsonV, k: Seq<char>, fallback: Seq<char>) -> Seq<char> {
    match as_text(get_member(get_member(Some(t), "function"@), k)) {
        Some(s) => s,
        None => match as_text(get_member(Some(t), k)) {
            Some(s) => s,
            None => fallback,
        },
    }
}

pub open spec fn tool_line(t: JsonV) -> Seq<char> {
    "  - "@ + tool_field(t, "name"@, "unknown"@) + ": "@ + tool_field(t, "description"@, ""@) + "\n"@
}

pub open spec fn tool_lines(ts: Seq<JsonV>) -> Seq<char>
    decreases ts.len(),
{
    if ts.len() == 0 {
        Seq::empty()
    } else {
        tool_lines(ts.drop_last()) + tool_line(ts.last())
    }
}

/// A provider's tool list: a line per tool when `raw` parsed to an array,
/// else `raw` itself on one line.
pub open spec fn tools_list_text(raw: Seq<char>, parsed: Option<JsonV>) -> Seq<char> {
    match parsed {
        Some(JsonV::Array(ts)) => tool_lines(ts),
        _ => "  "@ + raw + "\n"@,
    }
}

fn member<'a>(v: Option<&'a Json>, k: &str) -> (r: Option<&'a Json>)
    ensures
        match r {
            Some(x) => get_member(match v { Some(j) => Some(j@), None => None }, k@) == Some(x@),
            None => get_member(match v { Some(j) => Some(j@), None => None }, k@) is None,
        },
{
    match v {
        Some(Json::Object(m)) => crate::json::obj_get_ref(m, k),
        _ => None,
    }
}

fn text_of<'a>(v: Option<&'a Json>) -> (r: Option<&'a str>)
    ensures
        match r {
            Some(s) => as_text(match v { Some(j) => Some(j@), None => None }) == Some(s@),
            None => as_text(match v { Some(j) => Some(j@), None => None }) is None,
        },
{
    match v {
        Some(Json::Str(s)) => Some(s.as_str()),
        _ => None,
    }
}

fn push_tool_field(out: &mut Vec<char>, t: &Json, k: &str, fallback: &str)
    ensures
        final(out)@ == old(out)@ + tool_field(t@, k@, fallback@),
{
    match text_of(member(member(Some(t), "function"), k)) {
        Some(s) => push_str(out, s),
        None => match text_of(member(Some(t), k)) {
            Some(s) => push_str(out, s),
            None => push_str(out, fallback),
        },
    }
}

/// Appends a provider's tool list, as [`tools_list_text`] says; `parsed`
/// is `tools_json` parsed as JSON, `None` where it did not parse.
pub fn render_parsed_tools(output: &mut String, tools_json: &str, parsed: Option<&Json>)
    ensures
        final(output)@ == old(output)@ + tools_list_text(
            tools_json@,
            match parsed {
                Some(j) => Some(j@),
                None => None,
            },
        ),
{
    let mut b = chars_of(output.as_str());
    let ghost start = b@;
    match parsed {
        Some(Json::Array(tools)) => {
            proof {
                lemma_view_array(tools@);
            }
            let ghost tv = crate::json::view_array(tools@);
            let mut i: usize = 0;
            assert(tv.take(0) =~= Seq::<JsonV>::empty());
            while i < tools.len()
                invariant
                    i <= tools@.len(),
                    tv == crate::json::view_array(tools@),
                    tv.len() == tools@.len(),
                    forall|q: int| 0 <= q < tools@.len() ==> #[trigger] tv[q] == tools@[q]@,
                    b@ == start + tool_lines(tv.take(i as int)),
                decreases tools.len() - i,
            {
                let ghost before = b@;
                push_str(&mut b, "  - ");
                push_tool_field(&mut b, &tools[i], "name", "unknown");
                push_str(&mut b, ": ");
                push_tool_field(&mut b, &tools[i], "description", "");
                push_str(&mut b, "\n");
                proof {
                    let t = tv.take(i + 1);
                    assert(t.drop_last() =~= tv.take(i as int));
                    assert(t.last() == tools@[i as int]@);
                    assert(b@ =~= before + tool_line(tools@[i as int]@));
                }
                i = i + 1;
            }
            assert(tv.take(tv.len() as int) =~= tv);
        },
        _ => {
            push_str(&mut b, "  ");
            push_str(&mut b, tools_json);
            push_str(&mut b, "\n");
        },
    }
    *output = string_of(b.as_slice());
}

/// Appends a provider's tool list: `tools_json` is read as JSON, and what
/// is written is as [`tools_list_text`] says of that reading.
pub fn render_tools_list(output: &mut String, tools_json: &str)
    ensures
        final(output)@ == old(output)@ + tools_list_text(tools_json@, json_parse(tools_json@)),
{
    let parsed = parse_json(tools_json);
    match &parsed {
        Some(j) => render_parsed_tools(output, tools_json, Some(j)),
        None => render_parsed_tools(output, tools_json, None),
    }
}

/// What a tool provider answered when asked for its tools: the list as
/// JSON text, or the error's text.
pub struct ProviderTools {
    pub name: String,
    pub tools: Result<String, String>,
}

pub open spec fn provider_text(p: ProviderTools) -> Seq<char> {
    "  Extension ["@ + p.name@ + "]:\n"@ + match &p.tools {
        Ok(raw) => tools_list_text(raw@, json_parse(raw@)),
        Err(e) => "    Error fetching tools: "@ + e@ + "\n"@,
    }
}

pub open spec fn providers_text(ps: Seq<ProviderTools>) -> Seq<char>
    decreases ps.len(),
{
    if ps.len() == 0 {
        Seq::empty()
    } else {
        providers_text(ps.drop_last()) + provider_text(ps.last())
    }
}

/// The tools of every running tool provider, in the order given, or a note
/// that there is none.
pub fn render_wasm_tools(providers: &Vec<ProviderTools>) -> (r: String)
    ensures
        r@ == "Available Tools (from Wasm tool providers):\n"@ + (if providers@.len() == 0 {
            "  No active tool provider extension found.\n"@
        } else {
            providers_text(providers@)
        }),
{
    let mut out = owned("Available Tools (from Wasm tool providers):\n");
    let ghost head = out@;
    let mut i: usize = 0;
    assert(providers@.take(0) =~= Seq::<ProviderTools>::empty());
    while i < providers.len()
        invariant
            i <= providers@.len(),
            out@ == head + providers_text(providers@.take(i as int)),
        decreases providers.len() - i,
    {
        let p = &providers[i];
        let ghost before = out@;
        proof {
            let t = providers@.take(i + 1);
            assert(t.drop_last() =~= providers@.take(i as int));
            assert(t.last() == *p);
        }
        let mut b = chars_of(out.as_str());
        push_str(&mut b, "  Extension [");
        push_str(&mut b, p.name.as_str());
        push_str(&mut b, "]:\n");
        match &p.tools {
            Ok(raw) => {
                out = string_of(b.as_slice());
                render_tools_list(&mut out, raw.as_str());
            },
            Err(e) => {
                push_str(&mut b, "    Error fetching tools: ");
                push_str(&mut b, e.as_str());
                push_str(&mut b, "\n");
                out = string_of(b.as_slice());
            },
        }
        assert(out@ =~= before + provider_text(*p));
        i = i + 1;
    }
    assert(providers@.take(providers@.len() as int) =~= providers@);
    if providers.len() == 0 {
        let mut b = chars_of(out.as_str());
        push_str(&mut b, "  No active tool provider extension found.\n");
        out = string_of(b.as_slice());
    }
    out
}

/// `/tools`: the configured permissions, a blank line, then the tools.
pub fn render_tools_and_permissions(config: &Config, providers: &Vec<ProviderTools>) -> (r: String)
    ensures
        r@ == "Active Permissions:\n"@ + permissions_lines(config.extensions@) + "\n"@
            + "Available Tools (from Wasm tool providers):\n"@ + (if providers@.len() == 0 {
            "  No active tool provider extension found.\n"@
        } else {
            providers_text(providers@)
        }),
{
    let a = render_config_permissions(config);
    let t = render_wasm_tools(providers);
    let mut b = chars_of(a.as_str());
    push_str(&mut b, "\n");
    push_str(&mut b, t.as_str());
    string_of(b.as_slice())
}

} // verus!
