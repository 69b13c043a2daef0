//! `/llm`: listing, switching, adding, testing and editing the configured
//! LLM endpoints. Probing an endpoint and saving the configuration are the
//! host's work; everything else is decided here.
use vstd::prelude::*;
use crate::config::{Endpoints, LlmConfig, LlmEndpointProfile, ProfileV, opt_str};
use crate::order::views;
use crate::text::{
    decimal, decimal_text, owned, parse_unsigned, parse_unsigned_text, push_str, split_whitespace,
    str_eq, string_of, trim, trim_str, words,
};
use crate::command::registry::{ws_pos, lemma_ws_pos};

verus! {

/// One `/llm` subcommand: its name and its one-line usage.
pub struct LlmSubcommandSpec {
    pub name: String,
    pub usage: String,
}

pub open spec fn subcmd(name: Seq<char>, usage: Seq<char>) -> (Seq<char>, Seq<char>) {
    (name, usage)
}

/// The `/llm` subcommands, in the order help lists them.
pub open spec fn llm_table() -> Seq<(Seq<char>, Seq<char>)> {
    seq![
        subcmd("list"@, "/llm list"@),
        subcmd("switch"@, "/llm switch <name|index>"@),
        subcmd("test"@, "/llm test [name]"@),
        subcmd("add"@, "/llm add <name> <url> [--model <model>] [--api-key <key>]"@),
        subcmd("model"@, "/llm model <model>"@),
        subcmd("delete"@, "/llm delete <name>"@),
        subcmd("context"@, "/llm context <n>   manually set context window (tokens) when auto-detection can't reach it"@),
    ]
}

pub open spec fn sub_views(s: Seq<LlmSubcommandSpec>) -> Seq<(Seq<char>, Seq<char>)> {
    s.map_values(|x: LlmSubcommandSpec| (x.name@, x.usage@))
}

fn sub_spec(name: &str, usage: &str) -> (r: LlmSubcommandSpec)
    ensures
        r.name@ == name@,
        r.usage@ == usage@,
{
    LlmSubcommandSpec { name: owned(name), usage: owned(usage) }
}

/// The `/llm` subcommands, as [`llm_table`] lists them.
pub fn llm_subcommand_specs() -> (r: Vec<LlmSubcommandSpec>)
    ensures
        sub_views(r@) == llm_table(),
{
    let mut v: Vec<LlmSubcommandSpec> = Vec::new();
    v.push(sub_spec("list", "/llm list"));
    v.push(sub_spec("switch", "/llm switch <name|index>"));
    v.push(sub_spec("test", "/llm test [name]"));
    v.push(sub_spec("add", "/llm add <name> <url> [--model <model>] [--api-key <key>]"));
    v.push(sub_spec("model", "/llm model <model>"));
    v.push(sub_spec("delete", "/llm delete <name>"));
    v.push(
        sub_spec(
            "context",
            "/llm context <n>   manually set context window (tokens) when auto-detection can't reach it",
        ),
    );
    assert(sub_views(v@) =~= llm_table());
    v
}

/// What a `/llm` invocation asks for.
pub enum LlmRoute {
    /// List the profiles.
    List,
    /// Switch to the profile named or numbered so.
    Switch(String),
    /// Run the subcommand `name` on the rest of the input.
    Sub { name: String, rest: String },
}

/// Whether `word` names a subcommand.
pub open spec fn is_sub(word: Seq<char>) -> bool {
    exists|k: int| 0 <= k < llm_table().len() && #[trigger] llm_table()[k].0 == word
}

/// How `/llm <args>` is read: nothing lists; a word naming a profile, or a
/// number, switches (profile names win over subcommand names); a
/// subcommand runs on the trimmed rest; anything else is a switch, which
/// then reports the profile missing.
pub open spec fn route_spec(args: Seq<char>, profiles: Set<Seq<char>>) -> (Seq<char>, Seq<char>, bool, bool) {
    let t = trim(args);
    let p = ws_pos(t);
    let word = if p < 0 { t } else { t.subrange(0, p) };
    let rest = if p < 0 { Seq::<char>::empty() } else { t.subrange(p + 1, t.len() as int) };
    let switch = profiles.contains(word) || parse_unsigned(word, usize::MAX as nat) is Some || !is_sub(word);
    (word, trim(rest), t.len() == 0, switch)
}

/// Reads `/llm <args>` against the configured profile names.
pub fn route_llm(args: &str, endpoints: &Endpoints) -> (r: LlmRoute)
    ensures
        ({
            let (word, rest, list, switch) = route_spec(args@, endpoints@.dom());
            if list {
                r is List
            } else if switch {
                r matches LlmRoute::Switch(w) && w@ == word
            } else {
                r matches LlmRoute::Sub { name, rest: x } && name@ == word && x@ == rest
            }
        }),
{
    let t = trim_str(args);
    let cs = crate::text::chars_of(t.as_str());
    if cs.len() == 0 {
        return LlmRoute::List;
    }
    let (word, rest) = match crate::text::find_ws(cs.as_slice()) {
        Some(p) => {
            proof {
                lemma_ws_pos(cs@, p as int);
            }
            (
                string_of(crate::text::slice_chars(cs.as_slice(), 0, p).as_slice()),
                string_of(crate::text::slice_chars(cs.as_slice(), p + 1, cs.len()).as_slice()),
            )
        },
        None => {
            proof {
                lemma_ws_pos(cs@, -1);
                assert(cs@.subrange(0, cs@.len() as int) =~= cs@);
            }
            (string_of(cs.as_slice()), String::new())
        },
    };
    let rest_t = trim_str(rest.as_str());
    if endpoints.contains_key(word.as_str()) || parse_unsigned_text(word.as_str(), usize::MAX as u64).is_some() {
        return LlmRoute::Switch(word);
    }
    let ghost rs = route_spec(args@, endpoints@.dom());
    proof {
        assert(rs.0 == word@ && rs.1 == rest_t@ && !rs.2);
        assert(rs.3 <==> !is_sub(word@));
    }
    let specs = llm_subcommand_specs();
    let mut k: usize = 0;
    while k < specs.len()
        invariant
            k <= specs@.len(),
            rs == route_spec(args@, endpoints@.dom()),
            rs.0 == word@ && rs.1 == rest_t@ && !rs.2,
            rs.3 <==> !is_sub(word@),
            sub_views(specs@) == llm_table(),
            forall|j: int| 0 <= j < k ==> llm_table()[j].0 != word@,
        decreases specs.len() - k,
    {
        if str_eq(specs[k].name.as_str(), word.as_str()) {
            proof {
                assert(sub_views(specs@)[k as int].0 == word@);
                assert(is_sub(word@));
            }
            return LlmRoute::Sub { name: word, rest: rest_t };
        }
        proof {
            assert(sub_views(specs@)[k as int].0 == specs@[k as int].name@);
        }
        k = k + 1;
    }
    proof {
        assert(!is_sub(word@)) by {
            if is_sub(word@) {
                let j = choose|j: int| 0 <= j < llm_table().len() && #[trigger] llm_table()[j].0 == word@;
                assert(llm_table()[j].0 != word@);
            }
        }
    }
    LlmRoute::Switch(word)
}

pub open spec fn add_usage() -> Seq<char> {
    "\u{1b}[1;31mUsage: /llm add <name> <url> [--model <model>] [--api-key <key>]\u{1b}[0m"@
}

/// The parts of `/llm add <name> <url> [--model <m>] [--api-key <k>]`.
pub struct AddArgs {
    pub name: String,
    pub url: String,
    pub model: Option<String>,
    pub api_key: Option<String>,
}

/// How the flags of `/llm add` are read, from the word at `i` on: each flag
/// takes the next word, a later flag overriding an earlier one; `Err`
/// carries the first word that is not a flag with a value.
pub open spec fn read_flags(w: Seq<Seq<char>>, i: int, model: Option<Seq<char>>, key: Option<Seq<char>>) -> Result<
    (Option<Seq<char>>, Option<Seq<char>>),
    Seq<char>,
>
    decreases w.len() - i,
{
    if i >= w.len() || i < 0 {
        Ok((model, key))
    } else if w[i] == "--model"@ && i + 1 < w.len() {
        read_flags(w, i + 2, Some(w[i + 1]), key)
    } else if w[i] == "--api-key"@ && i + 1 < w.len() {
        read_flags(w, i + 2, model, Some(w[i + 1]))
    } else {
        Err(w[i])
    }
}

/// Reads the arguments of `/llm add`: fewer than two words give the usage;
/// an unrecognised word gives a message naming it followed by the usage.
pub fn parse_add_args(args: &str) -> (r: Result<AddArgs, String>)
    ensures
        ({
            let w = words(args@);
            if w.len() < 2 {
                r matches Err(e) && e@ == add_usage()
            } else {
                match read_flags(w, 2, None, None) {
                    Ok((m, k)) => r matches Ok(a) && a.name@ == w[0] && a.url@ == w[1] && opt_str(a.model)
                        == m && opt_str(a.api_key) == k,
                    Err(x) => r matches Err(e) && e@ == "\u{1b}[1;31mUnrecognized argument '"@ + x
                        + "'.\u{1b}[0m\n"@ + add_usage(),
                }
            }
        }),
{
    let tokens = split_whitespace(args);
    let ghost w = views(tokens@);
    if tokens.len() < 2 {
        return Err(owned("\u{1b}[1;31mUsage: /llm add <name> <url> [--model <model>] [--api-key <key>]\u{1b}[0m"));
    }
    let mut model: Option<String> = None;
    let mut api_key: Option<String> = None;
    let mut i: usize = 2;
    while i < tokens.len()
        invariant
            2 <= i,
            tokens@.len() >= 2,
            w == views(tokens@),
            w == words(args@),
            read_flags(w, i as int, opt_str(model), opt_str(api_key)) == read_flags(w, 2, None, None),
        decreases tokens.len() - i,
    {
        if str_eq(tokens[i].as_str(), "--model") && i + 1 < tokens.len() {
            model = Some(tokens[i + 1].clone());
            i = i + 2;
        } else if str_eq(tokens[i].as_str(), "--api-key") && i + 1 < tokens.len() {
            api_key = Some(tokens[i + 1].clone());
            i = i + 2;
        } else {
            proof {
                assert(w[i as int] == tokens@[i as int]@);
                assert(read_flags(w, i as int, opt_str(model), opt_str(api_key)) == Err::<
                    (Option<Seq<char>>, Option<Seq<char>>),
                    Seq<char>,
                >(w[i as int]));
            }
            let mut b: Vec<char> = Vec::new();
            push_str(&mut b, "\u{1b}[1;31mUnrecognized argument '");
            push_str(&mut b, tokens[i].as_str());
            push_str(&mut b, "'.\u{1b}[0m\n");
            push_str(&mut b, "\u{1b}[1;31mUsage: /llm add <name> <url> [--model <model>] [--api-key <key>]\u{1b}[0m");
            return Err(string_of(b.as_slice()));
        }
    }
    Ok(AddArgs { name: tokens[0].clone(), url: tokens[1].clone(), model, api_key })
}

/// What probing an endpoint found: whether it answered, and its context
/// window when it did and one could be read.
pub struct EndpointStatus {
    pub reachable: Result<(), String>,
    pub context_length: Option<u32>,
}

/// A message, and whether the configuration changed and is to be saved.
pub struct Outcome {
    pub message: String,
    pub changed: bool,
}

fn outcome(b: &Vec<char>, changed: bool) -> (r: Outcome)
    ensures
        r.message@ == b@,
        r.changed == changed,
{
    Outcome { message: string_of(b.as_slice()), changed }
}

/// `/llm delete <name>`: removes the profile; when it was the active one,
/// another remaining profile (if any) becomes active.
pub fn delete_llm_profile(llm: &mut LlmConfig, name: &str) -> (r: Outcome)
    ensures
        !old(llm).endpoints@.contains_key(name@) ==> (!r.changed && r.message@
            == "\u{1b}[1;31mError: LLM profile '"@ + name@ + "' not found.\u{1b}[0m"@
            && final(llm).endpoints@ == old(llm).endpoints@ && opt_str(final(llm).active) == opt_str(old(llm).active)),
        old(llm).endpoints@.contains_key(name@) ==> (r.changed && r.message@
            == "\u{1b}[32mRemoved LLM profile '"@ + name@ + "'.\u{1b}[0m"@
            && final(llm).endpoints@ == old(llm).endpoints@.remove(name@)
            && (opt_str(old(llm).active) != Some(name@) ==> opt_str(final(llm).active) == opt_str(old(llm).active))
            && (opt_str(old(llm).active) == Some(name@) ==> match final(llm).active {
                Some(a) => final(llm).endpoints@.contains_key(a@),
                None => final(llm).endpoints@.dom() == Set::<Seq<char>>::empty(),
            })),
{
    let mut b: Vec<char> = Vec::new();
    if !llm.endpoints.remove(name) {
        push_str(&mut b, "\u{1b}[1;31mError: LLM profile '");
        push_str(&mut b, name);
        push_str(&mut b, "' not found.\u{1b}[0m");
        return outcome(&b, false);
    }
    let was_active = match &llm.active {
        Some(a) => str_eq(a.as_str(), name),
        None => false,
    };
    if was_active {
        llm.active = llm.endpoints.any_name();
    }
    push_str(&mut b, "\u{1b}[32mRemoved LLM profile '");
    push_str(&mut b, name);
    push_str(&mut b, "'.\u{1b}[0m");
    outcome(&b, true)
}

/// `/llm context <n>`: sets the active profile's context window by hand.
pub fn set_manual_context_length(llm: &mut LlmConfig, arg: &str) -> (r: Outcome)
    ensures
        ({
            let n = parse_unsigned(trim(arg@), u32::MAX as nat);
            match n {
                None => !r.changed && r.message@ == "\u{1b}[1;31mUsage: /llm context <n>\u{1b}[0m"@
                    && final(llm).endpoints@ == old(llm).endpoints@,
                Some(v) => match opt_str(old(llm).active) {
                    None => !r.changed && r.message@
                        == "\u{1b}[1;31mError: No active LLM profile selected.\u{1b}[0m"@
                        && final(llm).endpoints@ == old(llm).endpoints@,
                    Some(a) => if !old(llm).endpoints@.contains_key(a) {
                        !r.changed && r.message@ == "\u{1b}[1;31mError: Active profile '"@ + a
                            + "' not found.\u{1b}[0m"@ && final(llm).endpoints@ == old(llm).endpoints@
                    } else {
                        r.changed && final(llm).endpoints@ == old(llm).endpoints@.insert(
                            a,
                            ProfileV { context_length: Some(v as u32), ..old(llm).endpoints@[a] },
                        ) && r.message@ == "\u{1b}[32mSet context window for '\u{1b}[1m"@ + a
                            + "\u{1b}[0;32m' to "@ + decimal(v) + " tokens (manual override).\u{1b}[0m"@
                    },
                },
            }
        }),
        opt_str(final(llm).active) == opt_str(old(llm).active),
{
    let mut b: Vec<char> = Vec::new();
    let t = trim_str(arg);
    let n = match parse_unsigned_text(t.as_str(), u32::MAX as u64) {
        Some(v) => v as u32,
        None => {
            push_str(&mut b, "\u{1b}[1;31mUsage: /llm context <n>\u{1b}[0m");
            return outcome(&b, false);
        },
    };
    let active = match &llm.active {
        Some(a) => a.clone(),
        None => {
            push_str(&mut b, "\u{1b}[1;31mError: No active LLM profile selected.\u{1b}[0m");
            return outcome(&b, false);
        },
    };
    let mut profile = match llm.endpoints.get(active.as_str()) {
        Some(p) => p.duplicate(),
        None => {
            push_str(&mut b, "\u{1b}[1;31mError: Active profile '");
            push_str(&mut b, active.as_str());
            push_str(&mut b, "' not found.\u{1b}[0m");
            return outcome(&b, false);
        },
    };
    profile.context_length = Some(n);
    llm.endpoints.insert(active.as_str(), profile);
    push_str(&mut b, "\u{1b}[32mSet context window for '\u{1b}[1m");
    push_str(&mut b, active.as_str());
    push_str(&mut b, "\u{1b}[0;32m' to ");
    let d = decimal_text(n as u128);
    push_str(&mut b, d.as_str());
    push_str(&mut b, " tokens (manual override).\u{1b}[0m");
    outcome(&b, true)
}

/// The profile a `/llm switch` target names: a number counts from one in
/// name order; anything else is a name.
pub open spec fn switch_target(target: Seq<char>, names: Seq<Seq<char>>, profiles: Set<Seq<char>>) -> Option<Seq<char>> {
    match parse_unsigned(target, usize::MAX as nat) {
        Some(n) => if 0 < n <= names.len() {
            Some(names[n - 1])
        } else {
            None
        },
        None => if profiles.contains(target) {
            Some(target)
        } else {
            None
        },
    }
}

/// `/llm switch <name|index>`: makes the named or numbered profile active.
pub fn switch_llm_profile(llm: &mut LlmConfig, target: &str) -> (r: Outcome)
    ensures
        exists|names: Seq<Seq<char>>|
            #![auto]
            vstd::relations::sorted_by(names, crate::order::lex_leq()) && names.no_duplicates() && (forall|k: Seq<char>|
                #[trigger] names.contains(k) <==> old(llm).endpoints@.contains_key(k)) && match switch_target(
                target@,
                names,
                old(llm).endpoints@.dom(),
            ) {
                None => !r.changed && opt_str(final(llm).active) == opt_str(old(llm).active) && r.message@
                    == "\u{1b}[1;31mError: LLM profile '"@ + target@
                    + "' not found.\u{1b}[0m\nUse `/llm` to list available profiles."@,
                Some(p) => r.changed && opt_str(final(llm).active) == Some(p) && r.message@
                    == "\u{1b}[32mSwitched active LLM server profile to '\u{1b}[1m"@ + p
                    + "\u{1b}[0;32m'.\u{1b}[0m"@,
            },
        final(llm).endpoints@ == old(llm).endpoints@,
{
    let names = llm.endpoints.sorted_names();
    let ghost nv = views(names@);
    let mut b: Vec<char> = Vec::new();
    let matched: Option<String> = match parse_unsigned_text(target, usize::MAX as u64) {
        Some(n) => {
            if n > 0 && n <= names.len() as u64 {
                Some(names[(n - 1) as usize].clone())
            } else {
                None
            }
        },
        None => {
            if llm.endpoints.contains_key(target) {
                Some(owned(target))
            } else {
                None
            }
        },
    };
    match matched {
        None => {
            push_str(&mut b, "\u{1b}[1;31mError: LLM profile '");
            push_str(&mut b, target);
            push_str(&mut b, "' not found.\u{1b}[0m\nUse `/llm` to list available profiles.");
            let r = outcome(&b, false);
            proof {
                assert(switch_target(target@, nv, llm.endpoints@.dom()) is None);
            }
            r
        },
        Some(p) => {
            push_str(&mut b, "\u{1b}[32mSwitched active LLM server profile to '\u{1b}[1m");
            push_str(&mut b, p.as_str());
            push_str(&mut b, "\u{1b}[0;32m'.\u{1b}[0m");
            let ghost pv = p@;
            llm.active = Some(p);
            let r = outcome(&b, true);
            proof {
                assert(switch_target(target@, nv, old(llm).endpoints@.dom()) == Some(pv));
            }
            r
        },
    }
}


/// What the add and model messages say of the context window.
pub open spec fn ctx_note(reachable: Result<(), String>, ctx: Option<u32>, unknown: Seq<char>) -> Seq<char> {
    match reachable {
        Err(e) => " (server unreachable: "@ + e@ + ")"@,
        Ok(_) => match ctx {
            Some(n) => " (context window: "@ + decimal(n as nat) + " tokens)"@,
            None => unknown,
        },
    }
}

fn push_ctx_note(b: &mut Vec<char>, reachable: &Result<(), String>, ctx: Option<u32>, unknown: &str)
    ensures
        final(b)@ == old(b)@ + ctx_note(*reachable, ctx, unknown@),
{
    match reachable {
        Err(e) => {
            push_str(b, " (server unreachable: ");
            push_str(b, e.as_str());
            push_str(b, ")");
        },
        Ok(_) => match ctx {
            Some(n) => {
                push_str(b, " (context window: ");
                let d = decimal_text(n as u128);
                push_str(b, d.as_str());
                push_str(b, " tokens)");
            },
            None => {
                push_str(b, unknown);
            },
        },
    }
}

fn opt_owned(o: Option<&str>) -> (r: Option<String>)
    ensures
        opt_str(r) == match o {
            Some(s) => Some(s@),
            None => None,
        },
{
    match o {
        Some(s) => Some(owned(s)),
        None => None,
    }
}

/// `/llm add`, after the endpoint was probed: stores the profile (keeping
/// the context window a profile of that name already had when none was
/// detected now), makes it active when none is, and says what was found.
pub fn add_llm_profile(
    llm: &mut LlmConfig,
    name: &str,
    url: &str,
    model: Option<&str>,
    api_key: Option<&str>,
    status: &EndpointStatus,
) -> (r: Outcome)
    ensures
        ({
            let ctx = match status.context_length {
                Some(n) => Some(n),
                None => if old(llm).endpoints@.contains_key(name@) {
                    old(llm).endpoints@[name@].context_length
                } else {
                    None
                },
            };
            &&& final(llm).endpoints@ == old(llm).endpoints@.insert(
                name@,
                ProfileV {
                    base_url: url@,
                    api_key: match api_key {
                        Some(k) => Some(k@),
                        None => None,
                    },
                    model: match model {
                        Some(m) => Some(m@),
                        None => None,
                    },
                    context_length: ctx,
                    dialect: None,
                },
            )
            &&& opt_str(final(llm).active) == match opt_str(old(llm).active) {
                Some(a) => Some(a),
                None => Some(name@),
            }
            &&& r.changed
            &&& r.message@ == "\u{1b}[32mAdded LLM profile '\u{1b}[1m"@ + name@ + "\u{1b}[0;32m' ("@ + url@
                + ")"@ + ctx_note(
                status.reachable,
                ctx,
                " (context window: unknown \u{2014} falling back to a conservative default)"@,
            ) + " and saved to config.json.\u{1b}[0m"@
        }),
{
    let ctx = match status.context_length {
        Some(n) => Some(n),
        None => match llm.endpoints.get(name) {
            Some(p) => p.context_length,
            None => None,
        },
    };
    let profile = LlmEndpointProfile {
        base_url: owned(url),
        api_key: opt_owned(api_key),
        model: opt_owned(model),
        context_length: ctx,
        dialect: None,
    };
    llm.endpoints.insert(name, profile);
    if llm.active.is_none() {
        llm.active = Some(owned(name));
    }
    let mut b: Vec<char> = Vec::new();
    push_str(&mut b, "\u{1b}[32mAdded LLM profile '\u{1b}[1m");
    push_str(&mut b, name);
    push_str(&mut b, "\u{1b}[0;32m' (");
    push_str(&mut b, url);
    push_str(&mut b, ")");
    push_ctx_note(&mut b, &status.reachable, ctx, " (context window: unknown \u{2014} falling back to a conservative default)");
    push_str(&mut b, " and saved to config.json.\u{1b}[0m");
    outcome(&b, true)
}

/// The first step of `/llm model`: the active profile's name and base URL,
/// or why there is none.
pub fn model_target(llm: &LlmConfig) -> (r: Result<(String, String), String>)
    ensures
        match opt_str(llm.active) {
            None => r matches Err(e) && e@ == "\u{1b}[1;31mError: No active LLM profile selected to change model.\u{1b}[0m"@,
            Some(a) => if llm.endpoints@.contains_key(a) {
                r matches Ok((n, u)) && n@ == a && u@ == llm.endpoints@[a].base_url
            } else {
                r matches Err(e) && e@ == "\u{1b}[1;31mError: Active profile '"@ + a + "' not found.\u{1b}[0m"@
            },
        },
{
    let active = match &llm.active {
        Some(a) => a.clone(),
        None => {
            return Err(owned("\u{1b}[1;31mError: No active LLM profile selected to change model.\u{1b}[0m"));
        },
    };
    match llm.endpoints.get(active.as_str()) {
        Some(p) => Ok((active.clone(), p.base_url.clone())),
        None => {
            let mut b: Vec<char> = Vec::new();
            push_str(&mut b, "\u{1b}[1;31mError: Active profile '");
            push_str(&mut b, active.as_str());
            push_str(&mut b, "' not found.\u{1b}[0m");
            Err(string_of(b.as_slice()))
        },
    }
}

/// The second step of `/llm model`, after probing the endpoint with the new
/// model: sets the model and the freshly detected context window (unknown
/// when detection failed: the old window belonged to the old model).
pub fn apply_model(llm: &mut LlmConfig, active: &str, new_model: &str, status: &EndpointStatus) -> (r: Outcome)
    ensures
        !old(llm).endpoints@.contains_key(active@) ==> (!r.changed && r.message@
            == "\u{1b}[1;31mError: Active profile '"@ + active@ + "' not found.\u{1b}[0m"@
            && final(llm).endpoints@ == old(llm).endpoints@),
        old(llm).endpoints@.contains_key(active@) ==> (r.changed && final(llm).endpoints@
            == old(llm).endpoints@.insert(
            active@,
            ProfileV {
                model: Some(new_model@),
                context_length: status.context_length,
                ..old(llm).endpoints@[active@]
            },
        ) && r.message@ == "\u{1b}[32mUpdated model for profile '"@ + active@ + "' to '\u{1b}[1m"@
            + new_model@ + "\u{1b}[0;32m'"@ + ctx_note(status.reachable, status.context_length, " (context window: unknown)"@)
            + ".\u{1b}[0m"@),
        opt_str(final(llm).active) == opt_str(old(llm).active),
{
    let mut b: Vec<char> = Vec::new();
    let mut profile = match llm.endpoints.get(active) {
        Some(p) => p.duplicate(),
        None => {
            push_str(&mut b, "\u{1b}[1;31mError: Active profile '");
            push_str(&mut b, active);
            push_str(&mut b, "' not found.\u{1b}[0m");
            return outcome(&b, false);
        },
    };
    profile.model = Some(owned(new_model));
    profile.context_length = status.context_length;
    llm.endpoints.insert(active, profile);
    push_str(&mut b, "\u{1b}[32mUpdated model for profile '");
    push_str(&mut b, active);
    push_str(&mut b, "' to '\u{1b}[1m");
    push_str(&mut b, new_model);
    push_str(&mut b, "\u{1b}[0;32m'");
    push_ctx_note(&mut b, &status.reachable, status.context_length, " (context window: unknown)");
    push_str(&mut b, ".\u{1b}[0m");
    outcome(&b, true)
}

/// The profiles `/llm test` probes: the one named, or all of them in name
/// order; or why there are none.
pub fn test_targets(llm: &LlmConfig, target: Option<&str>) -> (r: Result<Vec<(String, LlmEndpointProfile)>, String>)
    ensures
        llm.endpoints@.dom() == Set::<Seq<char>>::empty() ==> (r matches Err(e) && e@
            == "\u{1b}[33mNo LLM endpoints configured to test.\u{1b}[0m"@),
        llm.endpoints@.dom() != Set::<Seq<char>>::empty() ==> match target {
            Some(t) => if llm.endpoints@.contains_key(t@) {
                r matches Ok(v) && v@.len() == 1 && v@[0].0@ == t@ && v@[0].1@ == llm.endpoints@[t@]
            } else {
                r matches Err(e) && e@ == "\u{1b}[1;31mError: Profile '"@ + t@ + "' not found.\u{1b}[0m"@
            },
            None => r matches Ok(v) && vstd::relations::sorted_by(
                pair_names(v@),
                crate::order::lex_leq(),
            ) && pair_names(v@).no_duplicates() && (forall|k: Seq<char>|
                #[trigger] pair_names(v@).contains(k)
                    <==> llm.endpoints@.contains_key(k)) && (forall|i: int|
                0 <= i < v@.len() ==> (#[trigger] v@[i]).1@ == llm.endpoints@[v@[i].0@]),
        },
{
    if llm.endpoints.is_empty() {
        return Err(owned("\u{1b}[33mNo LLM endpoints configured to test.\u{1b}[0m"));
    }
    match target {
        Some(t) => match llm.endpoints.get(t) {
            Some(p) => {
                let mut v: Vec<(String, LlmEndpointProfile)> = Vec::new();
                v.push((owned(t), p.duplicate()));
                Ok(v)
            },
            None => {
                let mut b: Vec<char> = Vec::new();
                push_str(&mut b, "\u{1b}[1;31mError: Profile '");
                push_str(&mut b, t);
                push_str(&mut b, "' not found.\u{1b}[0m");
                Err(string_of(b.as_slice()))
            },
        },
        None => {
            let names = llm.endpoints.sorted_names();
            let ghost nv = views(names@);
            let mut v: Vec<(String, LlmEndpointProfile)> = Vec::new();
            let mut i: usize = 0;
            while i < names.len()
                invariant
                    i <= names@.len(),
                    nv == views(names@),
                    forall|k: Seq<char>| #[trigger] nv.contains(k) <==> llm.endpoints@.contains_key(k),
                    v@.len() == i,
                    forall|j: int| 0 <= j < i ==> (#[trigger] v@[j]).0@ == nv[j] && v@[j].1@ == llm.endpoints@[nv[j]],
                decreases names.len() - i,
            {
                proof {
                    assert(nv.contains(nv[i as int]));
                }
                match llm.endpoints.get(names[i].as_str()) {
                    Some(p) => {
                        v.push((names[i].clone(), p.duplicate()));
                    },
                    None => {
                        proof {
                            assert(false);
                        }
                    },
                }
                i = i + 1;
            }
            proof {
                assert(pair_names(v@) =~= nv);
            }
            Ok(v)
        },
    }
}

pub open spec fn pair_names(v: Seq<(String, LlmEndpointProfile)>) -> Seq<Seq<char>> {
    v.map_values(|p: (String, LlmEndpointProfile)| p.0@)
}

/// The first line of `/llm test`.
pub fn health_check_header() -> (r: String)
    ensures
        r@ == "Running LLM Server Health Checks...\n"@,
{
    owned("Running LLM Server Health Checks...\n")
}

/// The lines `/llm test` writes for one profile after probing it, taking
/// `elapsed_ms`; a detected context window is stored in the profile.
pub fn test_report(llm: &mut LlmConfig, name: &str, profile: &LlmEndpointProfile, status: &EndpointStatus, elapsed_ms: u64) -> (r: Outcome)
    ensures
        match status.reachable {
            Err(e) => !r.changed && final(llm).endpoints@ == old(llm).endpoints@ && r.message@
                == "  - "@ + name@ + " ("@ + profile.base_url@ + ") -> \u{1b}[31mFAILED ("@ + e@ + ")\u{1b}[0m\n"@,
            Ok(_) => {
                let head = "  - "@ + name@ + " ("@ + profile.base_url@ + ") -> \u{1b}[32mOK\u{1b}[0m ("@ + decimal(
                    elapsed_ms as nat,
                ) + "ms)\n"@;
                match status.context_length {
                    Some(n) => r.changed && (old(llm).endpoints@.contains_key(name@) ==> final(llm).endpoints@
                        == old(llm).endpoints@.insert(
                        name@,
                        ProfileV { context_length: Some(n), ..old(llm).endpoints@[name@] },
                    )) && (!old(llm).endpoints@.contains_key(name@) ==> final(llm).endpoints@
                        == old(llm).endpoints@) && r.message@ == head + "      context window: "@ + decimal(
                        n as nat,
                    ) + " tokens\n"@,
                    None => !r.changed && final(llm).endpoints@ == old(llm).endpoints@ && match profile.context_length {
                        Some(n) => r.message@ == head + "      context window: "@ + decimal(n as nat)
                            + " tokens (kept previous value \u{2014} neither /props nor /api/show responded this time)\n"@,
                        None => r.message@ == head
                            + "      context window: unknown (neither /props nor /api/show responded)\n"@,
                    },
                }
            },
        },
        opt_str(final(llm).active) == opt_str(old(llm).active),
{
    let mut b: Vec<char> = Vec::new();
    push_str(&mut b, "  - ");
    push_str(&mut b, name);
    push_str(&mut b, " (");
    push_str(&mut b, profile.base_url.as_str());
    match &status.reachable {
        Err(e) => {
            push_str(&mut b, ") -> \u{1b}[31mFAILED (");
            push_str(&mut b, e.as_str());
            push_str(&mut b, ")\u{1b}[0m\n");
            outcome(&b, false)
        },
        Ok(_) => {
            push_str(&mut b, ") -> \u{1b}[32mOK\u{1b}[0m (");
            let d = decimal_text(elapsed_ms as u128);
            push_str(&mut b, d.as_str());
            push_str(&mut b, "ms)\n");
            match status.context_length {
                Some(n) => {
                    match llm.endpoints.get(name) {
                        Some(p) => {
                            let mut q = p.duplicate();
                            q.context_length = Some(n);
                            llm.endpoints.insert(name, q);
                        },
                        None => {},
                    }
                    push_str(&mut b, "      context window: ");
                    let d = decimal_text(n as u128);
                    push_str(&mut b, d.as_str());
                    push_str(&mut b, " tokens\n");
                    outcome(&b, true)
                },
                None => {
                    match profile.context_length {
                        Some(n) => {
                            push_str(&mut b, "      context window: ");
                            let d = decimal_text(n as u128);
                            push_str(&mut b, d.as_str());
                            push_str(&mut b, " tokens (kept previous value \u{2014} neither /props nor /api/show responded this time)\n");
                        },
                        None => {
                            push_str(&mut b, "      context window: unknown (neither /props nor /api/show responded)\n");
                        },
                    }
                    outcome(&b, false)
                },
            }
        },
    }
}


pub open spec fn line_head(i: nat, name: Seq<char>, active: Option<Seq<char>>) -> Seq<char> {
    "  ["@ + decimal(i + 1) + "] "@ + name + (if active == Some(name) {
        " \u{1b}[1;32m(active)\u{1b}[0m"@
    } else {
        Seq::empty()
    })
}

pub open spec fn model_part(p: ProfileV) -> Seq<char> {
    match p.model {
        Some(m) => " [model: "@ + m + "]"@,
        None => Seq::empty(),
    }
}

pub open spec fn auth_part(p: ProfileV) -> Seq<char> {
    if p.api_key is Some {
        " [auth: yes]"@
    } else {
        Seq::empty()
    }
}

pub open spec fn ctx_part(p: ProfileV) -> Seq<char> {
    match p.context_length {
        Some(n) => " [ctx: "@ + decimal(n as nat) + " tok]"@,
        None => Seq::empty(),
    }
}

/// One profile of `/llm list`:
/// `  [<i+1>] <name>[ (active)]: <url>[ [model: m]][ [auth: yes]][ [ctx: n tok]]`.
pub open spec fn profile_line(i: nat, name: Seq<char>, p: ProfileV, active: Option<Seq<char>>) -> Seq<char> {
    line_head(i, name, active) + ": "@ + p.base_url + model_part(p) + auth_part(p) + ctx_part(p) + "\n"@
}

pub open spec fn profile_lines(names: Seq<Seq<char>>, eps: Map<Seq<char>, ProfileV>, active: Option<Seq<char>>) -> Seq<char>
    decreases names.len(),
{
    if names.len() == 0 {
        Seq::empty()
    } else {
        profile_lines(names.drop_last(), eps, active) + profile_line(
            (names.len() - 1) as nat,
            names.last(),
            eps[names.last()],
            active,
        )
    }
}

pub open spec fn usage_lines(t: Seq<(Seq<char>, Seq<char>)>) -> Seq<char>
    decreases t.len(),
{
    if t.len() == 0 {
        Seq::empty()
    } else {
        usage_lines(t.drop_last()) + "  "@ + t.last().1 + "\n"@
    }
}

/// The text of `/llm list` for the profiles in name order `names`.
pub open spec fn profiles_text(names: Seq<Seq<char>>, eps: Map<Seq<char>, ProfileV>, active: Option<Seq<char>>) -> Seq<char> {
    "Configured LLM Server Endpoints:\n"@ + (if names.len() == 0 {
        "  (No LLM endpoints configured in config.json)\n"@
    } else {
        profile_lines(names, eps, active)
    }) + "\nSubcommands:\n"@ + usage_lines(llm_table())
        + "  /llm <name_or_index>   switch directly by name or list position\n"@
}

fn push_line_head(b: &mut Vec<char>, i: usize, name: &str, active: &Option<String>)
    requires
        i < usize::MAX,
    ensures
        final(b)@ == old(b)@ + line_head(i as nat, name@, opt_str(*active)),
{
    let ghost o = b@;
    push_str(b, "  [");
    let d = decimal_text(i as u128 + 1);
    push_str(b, d.as_str());
    push_str(b, "] ");
    push_str(b, name);
    let is_active = match active {
        Some(a) => str_eq(a.as_str(), name),
        None => false,
    };
    if is_active {
        push_str(b, " \u{1b}[1;32m(active)\u{1b}[0m");
    }
    assert(b@ =~= o + line_head(i as nat, name@, opt_str(*active)));
}

fn push_model_part(b: &mut Vec<char>, p: &LlmEndpointProfile)
    ensures
        final(b)@ == old(b)@ + model_part(p@),
{
    let ghost o = b@;
    match &p.model {
        Some(m) => {
            push_str(b, " [model: ");
            push_str(b, m.as_str());
            push_str(b, "]");
        },
        None => {},
    }
    assert(b@ =~= o + model_part(p@));
}

fn push_ctx_part(b: &mut Vec<char>, p: &LlmEndpointProfile)
    ensures
        final(b)@ == old(b)@ + ctx_part(p@),
{
    let ghost o = b@;
    match p.context_length {
        Some(n) => {
            push_str(b, " [ctx: ");
            let d = decimal_text(n as u128);
            push_str(b, d.as_str());
            push_str(b, " tok]");
        },
        None => {},
    }
    assert(b@ =~= o + ctx_part(p@));
}

fn push_profile_line(b: &mut Vec<char>, i: usize, name: &str, p: &LlmEndpointProfile, active: &Option<String>)
    requires
        i < usize::MAX,
    ensures
        final(b)@ == old(b)@ + profile_line(i as nat, name@, p@, opt_str(*active)),
{
    let ghost o = b@;
    push_line_head(b, i, name, active);
    push_str(b, ": ");
    push_str(b, p.base_url.as_str());
    push_model_part(b, p);
    let ghost x = b@;
    if p.api_key.is_some() {
        push_str(b, " [auth: yes]");
    }
    assert(b@ =~= x + auth_part(p@));
    push_ctx_part(b, p);
    push_str(b, "\n");
    assert(b@ =~= o + profile_line(i as nat, name@, p@, opt_str(*active)));
}

/// The text of `/llm list`: the profiles in name order, numbered from one,
/// then the subcommands.
pub fn render_llm_profiles(llm: &LlmConfig) -> (r: String)
    ensures
        exists|names: Seq<Seq<char>>|
            #![auto]
            vstd::relations::sorted_by(names, crate::order::lex_leq()) && names.no_duplicates() && (forall|k: Seq<char>|
                #[trigger] names.contains(k) <==> llm.endpoints@.contains_key(k)) && r@ == profiles_text(
                names,
                llm.endpoints@,
                opt_str(llm.active),
            ),
{
    let names = llm.endpoints.sorted_names();
    let ghost nv = views(names@);
    let ghost act = opt_str(llm.active);
    let mut b: Vec<char> = Vec::new();
    push_str(&mut b, "Configured LLM Server Endpoints:\n");
    let ghost head = b@;
    if names.len() == 0 {
        push_str(&mut b, "  (No LLM endpoints configured in config.json)\n");
    } else {
        let mut i: usize = 0;
        assert(nv.subrange(0, 0) =~= Seq::<Seq<char>>::empty());
        while i < names.len()
            invariant
                i <= names@.len(),
                nv == views(names@),
                act == opt_str(llm.active),
                forall|k: Seq<char>| #[trigger] nv.contains(k) <==> llm.endpoints@.contains_key(k),
                b@ == head + profile_lines(nv.subrange(0, i as int), llm.endpoints@, act),
            decreases names.len() - i,
        {
            let ghost before = b@;
            let name = &names[i];
            proof {
                assert(nv.contains(nv[i as int]));
            }
            match llm.endpoints.get(name.as_str()) {
                Some(p) => {
                    push_profile_line(&mut b, i, name.as_str(), p, &llm.active);
                },
                None => {
                    proof {
                        assert(false);
                    }
                },
            }
            proof {
                let t = nv.subrange(0, i + 1);
                assert(t.drop_last() =~= nv.subrange(0, i as int));
                assert(t.last() == name@);
                assert(b@ =~= before + profile_line(i as nat, name@, llm.endpoints@[name@], act));
            }
            i = i + 1;
        }
        assert(nv.subrange(0, names@.len() as int) =~= nv);
    }
    let ghost mid = b@;
    push_str(&mut b, "\nSubcommands:\n");
    let ghost mid2 = b@;
    let specs = llm_subcommand_specs();
    let ghost t = sub_views(specs@);
    let mut k: usize = 0;
    assert(t.subrange(0, 0) =~= Seq::<(Seq<char>, Seq<char>)>::empty());
    while k < specs.len()
        invariant
            k <= specs@.len(),
            t == sub_views(specs@),
            b@ == mid2 + usage_lines(t.subrange(0, k as int)),
        decreases specs.len() - k,
    {
        let ghost before = b@;
        push_str(&mut b, "  ");
        push_str(&mut b, specs[k].usage.as_str());
        push_str(&mut b, "\n");
        proof {
            let s = t.subrange(0, k + 1);
            assert(s.drop_last() =~= t.subrange(0, k as int));
            assert(s.last() == (specs@[k as int].name@, specs@[k as int].usage@));
            assert(b@ =~= before + "  "@ + s.last().1 + "\n"@);
        }
        k = k + 1;
    }
    assert(t.subrange(0, specs@.len() as int) =~= t);
    push_str(&mut b, "  /llm <name_or_index>   switch directly by name or list position\n");
    assert(b@ =~= profiles_text(nv, llm.endpoints@, act));
    string_of(b.as_slice())
}

/// `/llm delete <name>`: the profile to delete, or, without one, the usage.
pub fn delete_target(args: &str) -> (r: Result<String, String>)
    ensures
        trim(args@).len() > 0 ==> (r matches Ok(n) && n@ == trim(args@)),
        trim(args@).len() == 0 ==> (r matches Err(m) && m@ == "\u{1b}[1;31mUsage: /llm delete <name>\u{1b}[0m"@),
{
    let t = trim_str(args);
    if t.unicode_len() == 0 {
        Err(owned("\u{1b}[1;31mUsage: /llm delete <name>\u{1b}[0m"))
    } else {
        Ok(t)
    }
}

/// `/llm test [name]`: the profile to test, none for all of them.
pub fn test_target(args: &str) -> (r: Option<String>)
    ensures
        trim(args@).len() > 0 ==> (r matches Some(n) && n@ == trim(args@)),
        trim(args@).len() == 0 ==> r is None,
{
    let t = trim_str(args);
    if t.unicode_len() == 0 {
        None
    } else {
        Some(t)
    }
}

proof fn lemma_digit_value(d: nat)
    requires
        d < 10,
    ensures
        '0' <= crate::text::digit_char(d) <= '9',
        (crate::text::digit_char(d) as nat - '0' as nat) as nat == d,
{
}

proof fn lemma_decimal_parses(n: nat)
    ensures
        decimal(n).len() > 0,
        crate::text::all_digits(decimal(n)),
        crate::text::digits_value(decimal(n)) == n,
    decreases n,
{
    let s = decimal(n);
    if n < 10 {
        lemma_digit_value(n);
        assert(s == seq![crate::text::digit_char(n)]);
        assert(s.drop_last() =~= Seq::<char>::empty());
        assert(crate::text::digits_value(s) == crate::text::digits_value(s.drop_last()) * 10 + (s.last() as nat
            - '0' as nat) as nat);
    } else {
        lemma_decimal_parses(n / 10);
        lemma_digit_value(n % 10);
        assert(s == decimal(n / 10).push(crate::text::digit_char(n % 10)));
        assert(s.drop_last() =~= decimal(n / 10));
        assert(s.last() == crate::text::digit_char(n % 10));
        assert(crate::text::digits_value(s) == crate::text::digits_value(s.drop_last()) * 10 + (s.last() as nat
            - '0' as nat) as nat);
        assert(n == (n / 10) * 10 + n % 10);
        assert forall|i: int| 0 <= i < s.len() implies '0' <= #[trigger] s[i] && s[i] <= '9' by {
            if i < s.len() - 1 {
                assert(s[i] == decimal(n / 10)[i]);
            }
        }
    }
}

/// Two name lists, each sorted and holding every name once, of the same
/// names, are the same list.
proof fn lemma_same_names(a: Seq<Seq<char>>, b: Seq<Seq<char>>)
    requires
        vstd::relations::sorted_by(a, crate::order::lex_leq()),
        vstd::relations::sorted_by(b, crate::order::lex_leq()),
        a.no_duplicates(),
        b.no_duplicates(),
        forall|k: Seq<char>| #[trigger] a.contains(k) <==> b.contains(k),
    ensures
        a == b,
{
    broadcast use vstd::seq_lib::group_to_multiset_ensures;
    a.lemma_multiset_has_no_duplicates();
    b.lemma_multiset_has_no_duplicates();
    assert forall|x: Seq<char>| a.to_multiset().count(x) == b.to_multiset().count(x) by {
        if a.contains(x) {
            assert(b.contains(x));
            assert(a.to_multiset().contains(x));
            assert(b.to_multiset().contains(x));
        } else {
            assert(!b.contains(x));
        }
    }
    assert(a.to_multiset() =~= b.to_multiset());
    crate::order::lemma_lex_total_ordering();
    vstd::seq_lib::lemma_sorted_unique(a, b, crate::order::lex_leq());
}

proof fn lemma_profile_lines_prefix(
    names: Seq<Seq<char>>,
    eps: Map<Seq<char>, ProfileV>,
    active: Option<Seq<char>>,
    j: int,
)
    requires
        0 <= j <= names.len(),
    ensures
        profile_lines(names.take(j), eps, active).is_prefix_of(profile_lines(names, eps, active)),
    decreases names.len() - j,
{
    if j < names.len() {
        lemma_profile_lines_prefix(names, eps, active, j + 1);
        let t = names.take(j + 1);
        assert(t.drop_last() =~= names.take(j));
        let a = profile_lines(names.take(j), eps, active);
        let b = profile_lines(t, eps, active);
        assert(a.is_prefix_of(b)) by {
            assert(b.subrange(0, a.len() as int) =~= a);
        }
    } else {
        assert(names.take(j) =~= names);
    }
}

/// The number `/llm` lists a profile under is the number `/llm switch`
/// takes for it: listing and switching order the profile names alike (a
/// sorted list holding each name once is the only one of its kind), the
/// listing's line for the name at position `i` is numbered `i + 1`, and
/// switching to `i + 1` selects that same name.
pub proof fn law_listed_number_switches(
    listed: Seq<Seq<char>>,
    switched: Seq<Seq<char>>,
    eps: Map<Seq<char>, ProfileV>,
    active: Option<Seq<char>>,
    i: int,
)
    requires
        vstd::relations::sorted_by(listed, crate::order::lex_leq()),
        listed.no_duplicates(),
        forall|k: Seq<char>| #[trigger] listed.contains(k) <==> eps.contains_key(k),
        vstd::relations::sorted_by(switched, crate::order::lex_leq()),
        switched.no_duplicates(),
        forall|k: Seq<char>| #[trigger] switched.contains(k) <==> eps.contains_key(k),
        0 <= i < listed.len(),
        listed.len() <= usize::MAX,
    ensures
        listed == switched,
        eps.contains_key(listed[i]),
        profile_lines(listed.take(i + 1), eps, active).is_prefix_of(profile_lines(listed, eps, active)),
        profile_lines(listed.take(i + 1), eps, active) == profile_lines(listed.take(i), eps, active)
            + profile_line(i as nat, listed[i], eps[listed[i]], active),
        line_head(i as nat, listed[i], active).subrange(0, 3 + decimal((i + 1) as nat).len() as int) == "  ["@
            + decimal((i + 1) as nat),
        switch_target(decimal((i + 1) as nat), switched, eps.dom()) == Some(listed[i]),
{
    lemma_same_names(listed, switched);
    assert(listed.contains(listed[i]));
    lemma_profile_lines_prefix(listed, eps, active, i + 1);
    let t = listed.take(i + 1);
    assert(t.drop_last() =~= listed.take(i));
    lemma_decimal_parses((i + 1) as nat);
    let d = decimal((i + 1) as nat);
    assert(d[0] != '+');
    assert(parse_unsigned(d, usize::MAX as nat) == Some((i + 1) as nat));
    let h = line_head(i as nat, listed[i], active);
    reveal_strlit("  [");
    assert(h.subrange(0, 3 + d.len() as int) =~= "  ["@ + d);
}

/// A flag of `/llm add` takes exactly the next word as its value, whatever
/// that word is, and reading goes on with the word after it: after `<name>
/// <url>`, `--model m` gives model `m`, `--api-key k` gives key `k`, and
/// both together give both.
pub proof fn law_add_flag_takes_next_word(n: Seq<char>, u: Seq<char>, m: Seq<char>, k: Seq<char>)
    ensures
        read_flags(seq![n, u, "--model"@, m], 2, None, None) == Ok::<
            (Option<Seq<char>>, Option<Seq<char>>),
            Seq<char>,
        >((Some(m), None)),
        read_flags(seq![n, u, "--api-key"@, k], 2, None, None) == Ok::<
            (Option<Seq<char>>, Option<Seq<char>>),
            Seq<char>,
        >((None, Some(k))),
        read_flags(seq![n, u, "--model"@, m, "--api-key"@, k], 2, None, None) == Ok::<
            (Option<Seq<char>>, Option<Seq<char>>),
            Seq<char>,
        >((Some(m), Some(k))),
        read_flags(seq![n, u, "--api-key"@, k, "--model"@, m], 2, None, None) == Ok::<
            (Option<Seq<char>>, Option<Seq<char>>),
            Seq<char>,
        >((Some(m), Some(k))),
        read_flags(seq![n, u, m], 2, None, None) == Err::<(Option<Seq<char>>, Option<Seq<char>>), Seq<char>>(m),
        read_flags(seq![n, u], 2, None, None) == Ok::<(Option<Seq<char>>, Option<Seq<char>>), Seq<char>>(
            (None, None),
        ),
{
    reveal_strlit("--model");
    reveal_strlit("--api-key");
    assert("--api-key"@.len() == 9 && "--model"@.len() == 7);
    let w1 = seq![n, u, "--model"@, m];
    assert(read_flags(w1, 4, Some(m), None) == Ok::<(Option<Seq<char>>, Option<Seq<char>>), Seq<char>>(
        (Some(m), None),
    ));
    let w2 = seq![n, u, "--api-key"@, k];
    assert(w2[2] != "--model"@);
    assert(read_flags(w2, 4, None, Some(k)) == Ok::<(Option<Seq<char>>, Option<Seq<char>>), Seq<char>>(
        (None, Some(k)),
    ));
    let w3 = seq![n, u, "--model"@, m, "--api-key"@, k];
    assert(w3[4] != "--model"@);
    assert(read_flags(w3, 6, Some(m), Some(k)) == Ok::<(Option<Seq<char>>, Option<Seq<char>>), Seq<char>>(
        (Some(m), Some(k)),
    ));
    assert(read_flags(w3, 4, Some(m), None) == read_flags(w3, 6, Some(m), Some(k)));
    let w4 = seq![n, u, "--api-key"@, k, "--model"@, m];
    assert(w4[2] != "--model"@);
    assert(read_flags(w4, 6, Some(m), Some(k)) == Ok::<(Option<Seq<char>>, Option<Seq<char>>), Seq<char>>(
        (Some(m), Some(k)),
    ));
    assert(read_flags(w4, 4, None, Some(k)) == read_flags(w4, 6, Some(m), Some(k)));
}

/// In `/llm list`, the line of the profile the active setting names is
/// its unmarked line with ` (active)` (in green) right after the name; the
/// line of any other profile is the unmarked line.
pub proof fn law_active_profile_marked(i: nat, name: Seq<char>, p: ProfileV, other: Seq<char>)
    requires
        other != name,
    ensures
        ({
            let head = "  ["@ + decimal(i + 1) + "] "@ + name;
            let plain = profile_line(i, name, p, None);
            &&& plain.subrange(0, head.len() as int) == head
            &&& profile_line(i, name, p, Some(name)) == head + " \u{1b}[1;32m(active)\u{1b}[0m"@ + plain.subrange(
                head.len() as int,
                plain.len() as int,
            )
            &&& profile_line(i, name, p, Some(other)) == plain
        }),
{
    let head = "  ["@ + decimal(i + 1) + "] "@ + name;
    let plain = profile_line(i, name, p, None);
    let tail = ": "@ + p.base_url + model_part(p) + auth_part(p) + ctx_part(p) + "\n"@;
    assert(line_head(i, name, None) =~= head);
    assert(plain =~= head + tail);
    assert(plain.subrange(0, head.len() as int) =~= head);
    assert(plain.subrange(head.len() as int, plain.len() as int) =~= tail);
    assert(profile_line(i, name, p, Some(name)) =~= head + " \u{1b}[1;32m(active)\u{1b}[0m"@ + tail);
    assert(line_head(i, name, Some(other)) =~= head);
}

} // verus!
