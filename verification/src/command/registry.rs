//! The built-in slash commands: names, aliases and help text declared
//! together, and the parsing of `/name args` against them.
use vstd::prelude::*;
use crate::order::views;
use crate::text::{chars_of, find_ws, is_ws, owned, push_str, slice_chars, str_eq, string_of, trim, trim_chars};

verus! {

/// One built-in command.
pub struct CommandSpec {
    pub name: String,
    pub aliases: Vec<String>,
    pub description: String,
}

pub struct SpecV {
    pub name: Seq<char>,
    pub aliases: Seq<Seq<char>>,
    pub description: Seq<char>,
}

impl View for CommandSpec {
    type V = SpecV;

    open spec fn view(&self) -> SpecV {
        SpecV { name: self.name@, aliases: views(self.aliases@), description: self.description@ }
    }
}

pub open spec fn spec_views(s: Seq<CommandSpec>) -> Seq<SpecV> {
    s.map_values(|c: CommandSpec| c@)
}

pub open spec fn entry(name: Seq<char>, description: Seq<char>) -> SpecV {
    SpecV { name, aliases: Seq::empty(), description }
}

/// The built-in commands, in the order help lists them.
pub open spec fn table() -> Seq<SpecV> {
    seq![
        entry("help"@, "Show this help message"@),
        entry("quit"@, "Exit the session"@),
        entry("session"@, "Show session ID, DAG info, and token usage"@),
        entry("rollback"@, "Roll back session to a specific DAG node (usage: /rollback <node_id>)"@),
        entry("reload"@, "Reload configuration file dynamically"@),
        entry("new"@, "Save current session and start a new clean session"@),
        entry("tree"@, "Show history DAG visually as a tree"@),
        entry("tools"@, "List permissions and registered tools"@),
        SpecV {
            name: "llm"@,
            aliases: seq!["models"@],
            description: "Manage LLM endpoints (list, switch, test, add, model, context)"@,
        },
        entry("compact"@, "Manually compact and persist session history now"@),
    ]
}

fn plain(name: &str, description: &str) -> (r: CommandSpec)
    ensures
        r@ == entry(name@, description@),
{
    let r = CommandSpec { name: owned(name), aliases: Vec::new(), description: owned(description) };
    assert(views(r.aliases@) =~= Seq::<Seq<char>>::empty());
    r
}

/// The built-in commands, as [`table`] lists them.
pub fn command_specs() -> (r: Vec<CommandSpec>)
    ensures
        spec_views(r@) == table(),
{
    let mut v: Vec<CommandSpec> = Vec::new();
    v.push(plain("help", "Show this help message"));
    v.push(plain("quit", "Exit the session"));
    v.push(plain("session", "Show session ID, DAG info, and token usage"));
    v.push(plain("rollback", "Roll back session to a specific DAG node (usage: /rollback <node_id>)"));
    v.push(plain("reload", "Reload configuration file dynamically"));
    v.push(plain("new", "Save current session and start a new clean session"));
    v.push(plain("tree", "Show history DAG visually as a tree"));
    v.push(plain("tools", "List permissions and registered tools"));
    let mut aliases: Vec<String> = Vec::new();
    aliases.push(owned("models"));
    assert(views(aliases@) =~= seq!["models"@]);
    v.push(
        CommandSpec {
            name: owned("llm"),
            aliases,
            description: owned("Manage LLM endpoints (list, switch, test, add, model, context)"),
        },
    );
    v.push(plain("compact", "Manually compact and persist session history now"));
    assert(spec_views(v@) =~= table());
    v
}

/// Index of the first whitespace character of `s`, or -1.
pub open spec fn ws_pos(s: Seq<char>) -> int
    decreases s.len(),
{
    if s.len() == 0 {
        -1
    } else if is_ws(s[0]) {
        0
    } else {
        let r = ws_pos(s.drop_first());
        if r < 0 {
            -1
        } else {
            r + 1
        }
    }
}

pub proof fn lemma_ws_pos(s: Seq<char>, i: int)
    requires
        -1 <= i <= s.len(),
        i < 0 ==> forall|j: int| 0 <= j < s.len() ==> !is_ws(#[trigger] s[j]),
        i >= 0 ==> i < s.len() && is_ws(s[i]) && forall|j: int| 0 <= j < i ==> !is_ws(#[trigger] s[j]),
    ensures
        ws_pos(s) == i,
    decreases s.len(),
{
    if s.len() > 0 && !is_ws(s[0]) {
        let t = s.drop_first();
        assert forall|j: int| 0 <= j < t.len() implies t[j] == s[j + 1] by {}
        if i < 0 {
            assert forall|j: int| 0 <= j < t.len() implies !is_ws(#[trigger] t[j]) by {
                assert(t[j] == s[j + 1]);
            }
            lemma_ws_pos(t, -1);
        } else {
            assert(i > 0);
            assert forall|j: int| 0 <= j < i - 1 implies !is_ws(#[trigger] t[j]) by {
                assert(t[j] == s[j + 1]);
            }
            assert(t[i - 1] == s[i]);
            lemma_ws_pos(t, i - 1);
        }
    } else if s.len() > 0 {
        if i > 0 {
            assert(!is_ws(s[0]));
        }
    }
}

/// `/name rest` split into `name` and `rest` trimmed, as `split_slash`
/// reads it: the input is trimmed, must start with `/`, and the name runs
/// to the first whitespace character; `None` when there is no `/` or the
/// name is empty.
pub open spec fn split_slash_spec(input: Seq<char>) -> Option<(Seq<char>, Seq<char>)> {
    let t = trim(input);
    if t.len() == 0 || t[0] != '/' {
        None
    } else {
        let rest = t.drop_first();
        let p = ws_pos(rest);
        let name = if p < 0 {
            rest
        } else {
            rest.subrange(0, p)
        };
        let args = if p < 0 {
            Seq::empty()
        } else {
            rest.subrange(p + 1, rest.len() as int)
        };
        if name.len() == 0 {
            None
        } else {
            Some((name, trim(args)))
        }
    }
}

/// Splits `/name rest` into the name and the trimmed rest; `None` when the
/// input does not start with `/` (after trimming) or the name is empty.
pub fn split_slash(input: &str) -> (r: Option<(String, String)>)
    ensures
        match r {
            Some((n, a)) => split_slash_spec(input@) == Some((n@, a@)),
            None => split_slash_spec(input@) is None,
        },
{
    let cs = chars_of(input);
    let t = trim_chars(cs.as_slice());
    if t.len() == 0 || t[0] != '/' {
        return None;
    }
    let rest = slice_chars(t.as_slice(), 1, t.len());
    assert(rest@ =~= t@.drop_first());
    let (name, args) = match find_ws(rest.as_slice()) {
        Some(p) => {
            proof {
                lemma_ws_pos(rest@, p as int);
            }
            (slice_chars(rest.as_slice(), 0, p), slice_chars(rest.as_slice(), p + 1, rest.len()))
        },
        None => {
            proof {
                lemma_ws_pos(rest@, -1);
            }
            (rest, Vec::new())
        },
    };
    if name.len() == 0 {
        return None;
    }
    let a = trim_chars(args.as_slice());
    Some((string_of(name.as_slice()), string_of(a.as_slice())))
}

/// A slash command matched against the built-in commands, with the text
/// that followed its name. `name` is the command's own name even when an
/// alias was typed.
pub struct ParsedCommand {
    pub name: String,
    pub args: String,
}

/// Index of the first command answering to `n`, by name or alias, or -1.
pub open spec fn find_command(t: Seq<SpecV>, n: Seq<char>) -> int
    decreases t.len(),
{
    if t.len() == 0 {
        -1
    } else if t[0].name == n || t[0].aliases.contains(n) {
        0
    } else {
        let r = find_command(t.drop_first(), n);
        if r < 0 {
            -1
        } else {
            r + 1
        }
    }
}

proof fn lemma_find_command(t: Seq<SpecV>, n: Seq<char>, i: int)
    requires
        -1 <= i <= t.len(),
        i < 0 ==> forall|j: int| 0 <= j < t.len() ==> !((#[trigger] t[j]).name == n || t[j].aliases.contains(n)),
        i >= 0 ==> i < t.len() && (t[i].name == n || t[i].aliases.contains(n)) && forall|j: int| 0 <= j < i ==> !((#[trigger] t[j]).name == n || t[j].aliases.contains(n)),
    ensures
        find_command(t, n) == i,
    decreases t.len(),
{
    if t.len() > 0 && !(t[0].name == n || t[0].aliases.contains(n)) {
        let s = t.drop_first();
        if i < 0 {
            assert forall|j: int| 0 <= j < s.len() implies !((#[trigger] s[j]).name == n || s[j].aliases.contains(n)) by {
                assert(s[j] == t[j + 1]);
            }
            lemma_find_command(s, n, -1);
        } else {
            assert(i > 0);
            assert forall|j: int| 0 <= j < i - 1 implies !((#[trigger] s[j]).name == n || s[j].aliases.contains(n)) by {
                assert(s[j] == t[j + 1]);
            }
            assert(s[i - 1] == t[i]);
            lemma_find_command(s, n, i - 1);
        }
    } else if t.len() > 0 {
        if i > 0 {
            assert(!(t[0].name == n || t[0].aliases.contains(n)));
        }
    }
}

/// What `parse` gives for `input`: the command answering to the name, by
/// name or alias, with the trimmed rest; `None` for anything else.
pub open spec fn parse_spec(input: Seq<char>) -> Option<(Seq<char>, Seq<char>)> {
    match split_slash_spec(input) {
        Some((n, a)) => {
            let k = find_command(table(), n);
            if k < 0 {
                None
            } else {
                Some((table()[k].name, a))
            }
        },
        None => None,
    }
}

fn answers_to(spec: &CommandSpec, n: &str) -> (r: bool)
    ensures
        r == (spec@.name == n@ || spec@.aliases.contains(n@)),
{
    if str_eq(spec.name.as_str(), n) {
        return true;
    }
    crate::dag::contains_string(&spec.aliases, n)
}

/// Parser for slash commands.
pub struct CommandParser;

impl CommandParser {
    /// The built-in command `input` names, if any: `None` for a task, a
    /// template command, or an unknown `/name`.
    pub fn parse(input: &str) -> (r: Option<ParsedCommand>)
        ensures
            match r {
                Some(c) => parse_spec(input@) == Some((c.name@, c.args@)),
                None => parse_spec(input@) is None,
            },
    {
        let (name, args) = match split_slash(input) {
            Some(p) => p,
            None => {
                return None;
            },
        };
        let specs = command_specs();
        let ghost t = spec_views(specs@);
        let mut k: usize = 0;
        while k < specs.len()
            invariant
                k <= specs@.len(),
                t == spec_views(specs@),
                t == table(),
                split_slash_spec(input@) == Some((name@, args@)),
                forall|j: int| 0 <= j < k ==> !((#[trigger] t[j]).name == name@ || t[j].aliases.contains(name@)),
            decreases specs.len() - k,
        {
            if answers_to(&specs[k], name.as_str()) {
                proof {
                    assert(t[k as int] == specs@[k as int]@);
                    lemma_find_command(t, name@, k as int);
                }
                return Some(ParsedCommand { name: specs[k].name.clone(), args });
            }
            proof {
                assert(t[k as int] == specs@[k as int]@);
            }
            k = k + 1;
        }
        proof {
            lemma_find_command(t, name@, -1);
        }
        None
    }
}

/// What a command leaves the shell to do.
pub enum CommandResult {
    /// Go on reading input.
    Continue,
    /// End the session.
    Quit,
    /// Print this.
    StatusInfo(String),
    /// Run this text as a task.
    RunTask(String),
}

/// `s` padded with spaces on the right to `width` characters, as `{:<width}`
/// writes it.
pub open spec fn pad_right(s: Seq<char>, width: nat) -> Seq<char> {
    if s.len() >= width {
        s
    } else {
        s + Seq::new((width - s.len()) as nat, |i: int| ' ')
    }
}

fn push_padded(out: &mut Vec<char>, s: &str, width: usize)
    ensures
        final(out)@ == old(out)@ + pad_right(s@, width as nat),
{
    let ghost o = out@;
    push_str(out, s);
    let n = s.unicode_len();
    let mut i = n;
    while i < width
        invariant
            n == s@.len(),
            i <= (if n < width { width } else { n }),
            i >= n,
            out@ == o + s@ + Seq::new((i - n) as nat, |j: int| ' '),
        decreases width - i,
    {
        out.push(' ');
        assert(Seq::new((i + 1 - n) as nat, |j: int| ' ') =~= Seq::new((i - n) as nat, |j: int| ' ').push(' '));
        i = i + 1;
    }
    proof {
        if n >= width {
            assert(Seq::new((i - n) as nat, |j: int| ' ') =~= Seq::<char>::empty());
            assert(out@ =~= o + pad_right(s@, width as nat));
        } else {
            assert(out@ =~= o + pad_right(s@, width as nat));
        }
    }
}

/// One line of help: `  /<name padded to 10> - <description>`.
pub open spec fn help_line(c: SpecV) -> Seq<char> {
    "  /"@ + pad_right(c.name, 10) + " - "@ + c.description + "\n"@
}

pub open spec fn help_lines(t: Seq<SpecV>) -> Seq<char>
    decreases t.len(),
{
    if t.len() == 0 {
        Seq::empty()
    } else {
        help_lines(t.drop_last()) + help_line(t.last())
    }
}

pub open spec fn template_lines(names: Seq<Seq<char>>) -> Seq<char>
    decreases names.len(),
{
    if names.len() == 0 {
        Seq::empty()
    } else {
        template_lines(names.drop_last()) + "  /"@ + names.last() + "\n"@
    }
}

/// The text of `/help`: every built-in command, then the template commands
/// when there are any.
pub open spec fn help_text(templates: Seq<Seq<char>>) -> Seq<char> {
    "Available Slash Commands:\n"@ + help_lines(table()) + if templates.len() == 0 {
        Seq::empty()
    } else {
        "\nCustom commands (.agents/commands/, ~/.rad/commands/):\n"@ + template_lines(templates)
    }
}

/// The text of `/help`, given the names of the template commands.
pub fn help(templates: &Vec<String>) -> (r: String)
    ensures
        r@ == help_text(views(templates@)),
{
    let specs = command_specs();
    let ghost t = spec_views(specs@);
    let mut out: Vec<char> = Vec::new();
    push_str(&mut out, "Available Slash Commands:\n");
    let ghost head = out@;
    let mut k: usize = 0;
    assert(t.subrange(0, 0) =~= Seq::<SpecV>::empty());
    while k < specs.len()
        invariant
            k <= specs@.len(),
            t == spec_views(specs@),
            out@ == head + help_lines(t.subrange(0, k as int)),
        decreases specs.len() - k,
    {
        let ghost before = out@;
        push_str(&mut out, "  /");
        push_padded(&mut out, specs[k].name.as_str(), 10);
        push_str(&mut out, " - ");
        push_str(&mut out, specs[k].description.as_str());
        push_str(&mut out, "\n");
        proof {
            let s = t.subrange(0, k + 1);
            assert(s.drop_last() =~= t.subrange(0, k as int));
            assert(s.last() == specs@[k as int]@);
            assert(out@ =~= before + help_line(s.last()));
        }
        k = k + 1;
    }
    assert(t.subrange(0, specs@.len() as int) =~= t);
    let ghost mid = out@;
    let ghost tv = views(templates@);
    if templates.len() > 0 {
        push_str(&mut out, "\nCustom commands (.agents/commands/, ~/.rad/commands/):\n");
        let ghost head2 = out@;
        let mut i: usize = 0;
        assert(tv.subrange(0, 0) =~= Seq::<Seq<char>>::empty());
        while i < templates.len()
            invariant
                i <= templates@.len(),
                tv == views(templates@),
                out@ == head2 + template_lines(tv.subrange(0, i as int)),
            decreases templates.len() - i,
        {
            let ghost before = out@;
            push_str(&mut out, "  /");
            push_str(&mut out, templates[i].as_str());
            push_str(&mut out, "\n");
            proof {
                let s = tv.subrange(0, i + 1);
                assert(s.drop_last() =~= tv.subrange(0, i as int));
                assert(s.last() == templates@[i as int]@);
                assert(out@ =~= before + "  /"@ + s.last() + "\n"@);
            }
            i = i + 1;
        }
        assert(tv.subrange(0, templates@.len() as int) =~= tv);
    }
    assert(out@ =~= help_text(tv));
    string_of(out.as_slice())
}

/// The status line for a command name nothing answers to.
pub fn unknown_command(name: &str) -> (r: String)
    ensures
        r@ == "Unknown command: /"@ + name@,
{
    let mut b: Vec<char> = Vec::new();
    push_str(&mut b, "Unknown command: /");
    push_str(&mut b, name);
    string_of(b.as_slice())
}

/// What a built-in command runs, one per entry of [`table`], in order.
#[derive(Clone, Copy, PartialEq, Eq, Structural, Debug)]
pub enum Handler {
    Help,
    Quit,
    Session,
    Rollback,
    Reload,
    New,
    Tree,
    Tools,
    Llm,
    Compact,
}

/// The handler of the `i`-th entry of [`table`].
pub open spec fn handler_at(i: int) -> Handler {
    if i == 0 {
        Handler::Help
    } else if i == 1 {
        Handler::Quit
    } else if i == 2 {
        Handler::Session
    } else if i == 3 {
        Handler::Rollback
    } else if i == 4 {
        Handler::Reload
    } else if i == 5 {
        Handler::New
    } else if i == 6 {
        Handler::Tree
    } else if i == 7 {
        Handler::Tools
    } else if i == 8 {
        Handler::Llm
    } else {
        Handler::Compact
    }
}

/// Index of the first entry of `t` named `n` (aliases not counted), or -1.
pub open spec fn find_by_name(t: Seq<SpecV>, n: Seq<char>) -> int
    decreases t.len(),
{
    if t.len() == 0 {
        -1
    } else if t[0].name == n {
        0
    } else {
        let r = find_by_name(t.drop_first(), n);
        if r < 0 {
            -1
        } else {
            r + 1
        }
    }
}

/// Runs parsed commands.
pub struct CommandManager;

impl CommandManager {
    /// The handler of the command named `command.name`, or, for a name no
    /// entry has, the answer `Unknown command: /<name>`.
    pub fn execute(command: &ParsedCommand) -> (r: Result<Handler, CommandResult>)
        ensures
            ({
                let k = find_by_name(table(), command.name@);
                &&& k >= 0 ==> r == Ok::<Handler, CommandResult>(handler_at(k))
                &&& k < 0 ==> (r matches Err(CommandResult::StatusInfo(m)) && m@ == "Unknown command: /"@
                    + command.name@)
            }),
    {
        let specs = command_specs();
        let ghost t = spec_views(specs@);
        let mut i: usize = 0;
        assert(t.skip(0) =~= t);
        while i < specs.len()
            invariant
                i <= specs@.len(),
                t == spec_views(specs@),
                t == table(),
                find_by_name(t, command.name@) == (if find_by_name(t.skip(i as int), command.name@) < 0 {
                    -1
                } else {
                    find_by_name(t.skip(i as int), command.name@) + i
                }),
            decreases specs@.len() - i,
        {
            assert(t.skip(i as int)[0] == specs@[i as int]@);
            assert(t.skip(i as int).drop_first() =~= t.skip(i + 1));
            if str_eq(specs[i].name.as_str(), command.name.as_str()) {
                let h = if i == 0 {
                    Handler::Help
                } else if i == 1 {
                    Handler::Quit
                } else if i == 2 {
                    Handler::Session
                } else if i == 3 {
                    Handler::Rollback
                } else if i == 4 {
                    Handler::Reload
                } else if i == 5 {
                    Handler::New
                } else if i == 6 {
                    Handler::Tree
                } else if i == 7 {
                    Handler::Tools
                } else if i == 8 {
                    Handler::Llm
                } else {
                    Handler::Compact
                };
                return Ok(h);
            }
            i = i + 1;
        }
        assert(t.skip(i as int) =~= Seq::<SpecV>::empty());
        Err(CommandResult::StatusInfo(unknown_command(command.name.as_str())))
    }
}

} // verus!
