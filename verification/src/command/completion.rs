//! Tab completion in the prompt: the registered slash commands, executables on
//! the search path after a `!`, and file names otherwise.
use vstd::prelude::*;
use crate::command::registry::{CommandSpec, SpecV, command_specs, spec_views, table};
use crate::order::{lex_le, lex_leq, sort_strings, views};
use crate::repo_map::{byte_range, byte_slice};
use crate::text::{byte_len, chars_of, push_str, slice_chars, split_whitespace, string_of, words, words_acc};

verus! {

/// A command's name and then each of its aliases, each after a `/`.
pub open spec fn spec_slashes(c: SpecV) -> Seq<Seq<char>> {
    seq!["/"@ + c.name] + c.aliases.map_values(|a: Seq<char>| "/"@ + a)
}

/// The slash forms of the commands of `t`, command after command.
pub open spec fn slash_names(t: Seq<SpecV>) -> Seq<Seq<char>>
    decreases t.len(),
{
    if t.len() == 0 {
        Seq::empty()
    } else {
        slash_names(t.drop_last()) + spec_slashes(t.last())
    }
}

/// The slash commands completion offers, in the order offered: those of the
/// command registry, in its order.
pub open spec fn slash_commands() -> Seq<Seq<char>> {
    slash_names(table())
}

fn slash_of(x: &str) -> (r: String)
    ensures
        r@ == "/"@ + x@,
{
    let mut b: Vec<char> = Vec::new();
    push_str(&mut b, "/");
    push_str(&mut b, x);
    string_of(b.as_slice())
}

fn slashes_of(c: &CommandSpec) -> (r: Vec<String>)
    ensures
        views(r@) == spec_slashes(c@),
{
    let mut out: Vec<String> = Vec::new();
    out.push(slash_of(c.name.as_str()));
    let ghost av = views(c.aliases@);
    let mut j: usize = 0;
    assert(views(out@) =~= seq!["/"@ + c.name@] + av.take(0).map_values(|a: Seq<char>| "/"@ + a));
    while j < c.aliases.len()
        invariant
            j <= c.aliases@.len(),
            av == views(c.aliases@),
            views(out@) == seq!["/"@ + c.name@] + av.take(j as int).map_values(|a: Seq<char>| "/"@ + a),
        decreases c.aliases.len() - j,
    {
        let ghost before = views(out@);
        out.push(slash_of(c.aliases[j].as_str()));
        assert(av.take(j + 1) =~= av.take(j as int).push(c.aliases@[j as int]@));
        assert(views(out@) =~= before.push("/"@ + c.aliases@[j as int]@));
        assert(views(out@) =~= seq!["/"@ + c.name@] + av.take(j + 1).map_values(|a: Seq<char>| "/"@ + a));
        j = j + 1;
    }
    assert(av.take(av.len() as int) =~= av);
    out
}

/// The slash forms of every registered command, in registry order.
fn all_slashes() -> (r: Vec<String>)
    ensures
        views(r@) == slash_commands(),
{
    let specs = command_specs();
    let ghost t = spec_views(specs@);
    let mut out: Vec<String> = Vec::new();
    let mut i: usize = 0;
    assert(t.take(0) =~= Seq::<SpecV>::empty());
    while i < specs.len()
        invariant
            i <= specs@.len(),
            t == spec_views(specs@),
            t == table(),
            views(out@) == slash_names(t.take(i as int)),
        decreases specs.len() - i,
    {
        let mut more = slashes_of(&specs[i]);
        let ghost before = out@;
        let ghost mv = more@;
        out.append(&mut more);
        proof {
            assert(t.take(i + 1).drop_last() =~= t.take(i as int));
            assert(t.take(i + 1).last() == specs@[i as int]@);
            assert(views(before + mv) =~= views(before) + views(mv));
        }
        i = i + 1;
    }
    assert(t.take(t.len() as int) =~= t);
    out
}

/// The items of `cands` that start with `line`, in order.
pub open spec fn prefixed(cands: Seq<Seq<char>>, line: Seq<char>) -> Seq<Seq<char>>
    decreases cands.len(),
{
    if cands.len() == 0 {
        Seq::empty()
    } else {
        prefixed(cands.drop_last(), line) + if line.is_prefix_of(cands.last()) {
            seq![cands.last()]
        } else {
            Seq::empty()
        }
    }
}

/// What completing a line at a cursor comes to.
pub enum CompletionPlan {
    /// These built-in commands, replacing from byte `start`.
    Slash { start: usize, candidates: Vec<String> },
    /// The executables on the search path whose names start with `prefix`,
    /// each after a `!`, replacing from byte `start`.
    Commands { start: usize, prefix: String },
    /// No candidates, at the cursor.
    Nothing,
    /// File names, as the line editor's file completer finds them.
    Files,
}

proof fn lemma_byte_len_push(s: Seq<char>, c: char)
    ensures
        byte_len(s.push(c)) == byte_len(s) + crate::text::utf8_len(c),
{
    assert(s.push(c).drop_last() =~= s);
}

proof fn lemma_words_acc_bytes(s: Seq<char>)
    ensures
        byte_len(words_acc(s).1) <= byte_len(s),
        forall|k: int| 0 <= k < words_acc(s).0.len() ==> byte_len(#[trigger] words_acc(s).0[k]) <= byte_len(s),
    decreases s.len(),
{
    if s.len() > 0 {
        let p = s.drop_last();
        lemma_words_acc_bytes(p);
        assert(p.push(s.last()) =~= s);
        lemma_byte_len_push(p, s.last());
        lemma_byte_len_push(words_acc(p).1, s.last());
    }
}

/// No word of `s` takes more bytes than `s`.
proof fn lemma_words_bytes(s: Seq<char>)
    ensures
        forall|k: int| 0 <= k < words(s).len() ==> byte_len(#[trigger] words(s)[k]) <= byte_len(s),
{
    lemma_words_acc_bytes(s);
}

/// Whether completing after a `!` is completing the command's name: the
/// text before the cursor has no space, or is one word not followed by a
/// space.
pub open spec fn completing_name(cur: Seq<char>) -> bool {
    !cur.contains(' ') || (words(cur).len() == 1 && !(cur.len() > 0 && cur.last() == ' '))
}

fn contains_char(s: &[char], c: char) -> (r: bool)
    ensures
        r == s@.contains(c),
{
    let mut i: usize = 0;
    while i < s.len()
        invariant
            i <= s@.len(),
            forall|j: int| 0 <= j < i ==> s@[j] != c,
        decreases s@.len() - i,
    {
        if s[i] == c {
            assert(s@[i as int] == c);
            return true;
        }
        i = i + 1;
    }
    false
}

fn starts_with(s: &str, p: &str) -> (r: bool)
    ensures
        r == p@.is_prefix_of(s@),
{
    crate::text::has_prefix(s, p)
}

/// What completing `line` with the cursor at byte `pos` offers: after a
/// leading `/`, the built-in commands the line starts; after a leading
/// `!`, while the command's name is being typed, the executables whose
/// names start with what follows the `!`, else file names; otherwise file
/// names.
pub fn plan_completion(line: &str, pos: usize) -> (r: CompletionPlan)
    requires
        line@.len() > 0 && line@[0] == '/' ==> byte_len(line@) <= pos,
        line@.len() > 0 && line@[0] == '!' ==> byte_range(line@, 0, pos as int) is Some,
    ensures
        line@.len() > 0 && line@[0] == '/' ==> (r matches CompletionPlan::Slash { start, candidates } && start
            == pos - byte_len(line@) && views(candidates@) == prefixed(slash_commands(), line@)),
        line@.len() > 0 && line@[0] == '!' ==> ({
            let cur = byte_range(line@, 0, pos as int)->0;
            let ws = words(cur);
            let w = if ws.len() > 0 { ws[0] } else { Seq::empty() };
            if !completing_name(cur) {
                r is Files
            } else if w.len() > 0 && w[0] == '!' {
                r matches CompletionPlan::Commands { start, prefix } && start == pos - byte_len(w) && prefix@
                    == w.drop_first()
            } else {
                r is Nothing
            }
        }),
        !(line@.len() > 0 && (line@[0] == '/' || line@[0] == '!')) ==> r is Files,
{
    let cs = chars_of(line);
    if cs.len() > 0 && cs[0] == '/' {
        let mut cands: Vec<String> = Vec::new();
        let names = all_slashes();
        let ghost all = views(names@);
        let mut i: usize = 0;
        assert(all.take(0) =~= Seq::<Seq<char>>::empty());
        while i < names.len()
            invariant
                i <= names@.len(),
                all == views(names@),
                all == slash_commands(),
                views(cands@) == prefixed(all.take(i as int), line@),
            decreases names.len() - i,
        {
            let ghost before = views(cands@);
            proof {
                assert(all.take(i + 1).drop_last() =~= all.take(i as int));
                assert(all.take(i + 1).last() == names@[i as int]@);
            }
            if starts_with(names[i].as_str(), line) {
                cands.push(names[i].clone());
                assert(views(cands@) =~= before + seq![names@[i as int]@]);
            } else {
                assert(views(cands@) =~= before + Seq::<Seq<char>>::empty());
            }
            i = i + 1;
        }
        proof {
            assert(all.take(all.len() as int) =~= all);
        }
        let n = crate::text::byte_count(line);
        return CompletionPlan::Slash { start: pos - n, candidates: cands };
    }
    if cs.len() > 0 && cs[0] == '!' {
        let cur_chars = match byte_slice(cs.as_slice(), 0, pos) {
            Some(c) => c,
            None => {
                return CompletionPlan::Nothing;
            },
        };
        let cur = string_of(cur_chars.as_slice());
        let ws = split_whitespace(cur.as_str());
        let n = cur_chars.len();
        let is_name = !contains_char(cur_chars.as_slice(), ' ') || (ws.len() == 1 && !(n > 0 && cur_chars[n
            - 1] == ' '));
        if !is_name {
            return CompletionPlan::Files;
        }
        if ws.len() == 0 {
            return CompletionPlan::Nothing;
        }
        let w = chars_of(ws[0].as_str());
        if w.len() > 0 && w[0] == '!' {
            proof {
                lemma_words_bytes(cur@);
                assert(views(ws@)[0] == ws@[0]@);
                let (i, j) = choose|i: int, j: int|
                    #![trigger byte_len(cs@.take(i)), byte_len(cs@.take(j))]
                    0 <= i <= j <= cs@.len() && byte_len(cs@.take(i)) == 0 && byte_len(cs@.take(j)) == pos;
                assert(cs@.take(0) =~= Seq::<char>::empty());
                crate::text::lemma_byte_len_take_mono(cs@, 0, i);
                assert(i == 0);
                assert(cs@.subrange(0, j) =~= cs@.take(j));
                assert(byte_len(cur@) == pos);
            }
            let m = crate::text::byte_count(ws[0].as_str());
            let rest = slice_chars(w.as_slice(), 1, w.len());
            assert(rest@ =~= w@.drop_first());
            return CompletionPlan::Commands { start: pos - m, prefix: string_of(rest.as_slice()) };
        }
        return CompletionPlan::Nothing;
    }
    CompletionPlan::Files
}

/// The names of `entries` (a file name, and whether it is an executable
/// file) that are executables starting with `prefix`, in order.
pub open spec fn executables(entries: Seq<(String, bool)>, prefix: Seq<char>) -> Seq<Seq<char>>
    decreases entries.len(),
{
    if entries.len() == 0 {
        Seq::empty()
    } else {
        executables(entries.drop_last(), prefix) + if entries.last().1 && prefix.is_prefix_of(
            entries.last().0@,
        ) {
            seq![entries.last().0@]
        } else {
            Seq::empty()
        }
    }
}

/// `Vec::dedup`: each run of equal neighbours kept once.
pub open spec fn dedup(s: Seq<Seq<char>>) -> Seq<Seq<char>>
    decreases s.len(),
{
    if s.len() == 0 {
        s
    } else {
        let d = dedup(s.drop_last());
        if d.len() > 0 && d.last() == s.last() {
            d
        } else {
            d.push(s.last())
        }
    }
}

/// At most the first `n` items of `s`.
pub open spec fn at_most(s: Seq<Seq<char>>, n: nat) -> Seq<Seq<char>> {
    if s.len() <= n {
        s
    } else {
        s.take(n as int)
    }
}

/// The commands offered after `!<prefix>`: the executables found on the
/// search path whose names start with `prefix`, sorted, each name once, at
/// most 20. `entries` are the files of the search path's directories, each
/// with whether it is an executable file.
pub fn complete_system_commands(prefix: &str, entries: &Vec<(String, bool)>) -> (r: Vec<String>)
    ensures
        views(r@) == at_most(dedup(executables(entries@, prefix@).sort_by(lex_leq())), 20),
{
    let mut found: Vec<String> = Vec::new();
    let mut i: usize = 0;
    assert(entries@.take(0) =~= Seq::<(String, bool)>::empty());
    while i < entries.len()
        invariant
            i <= entries@.len(),
            views(found@) == executables(entries@.take(i as int), prefix@),
        decreases entries@.len() - i,
    {
        let ghost before = views(found@);
        proof {
            assert(entries@.take(i + 1).drop_last() =~= entries@.take(i as int));
        }
        if entries[i].1 && starts_with(entries[i].0.as_str(), prefix) {
            found.push(entries[i].0.clone());
            assert(views(found@) =~= before + seq![entries@[i as int].0@]);
        } else {
            assert(views(found@) =~= before + Seq::<Seq<char>>::empty());
        }
        i = i + 1;
    }
    assert(entries@.take(entries@.len() as int) =~= entries@);
    let sorted = sort_strings(found);
    let ghost sv = views(sorted@);
    let mut out: Vec<String> = Vec::new();
    let mut k: usize = 0;
    assert(sv.take(0) =~= Seq::<Seq<char>>::empty());
    while k < sorted.len()
        invariant
            k <= sorted@.len(),
            sv == views(sorted@),
            views(out@) == dedup(sv.take(k as int)),
        decreases sorted@.len() - k,
    {
        let ghost before = views(out@);
        proof {
            assert(sv.take(k + 1).drop_last() =~= sv.take(k as int));
            assert(sv.take(k + 1).last() == sorted@[k as int]@);
        }
        let n = out.len();
        if n > 0 && crate::text::str_eq(out[n - 1].as_str(), sorted[k].as_str()) {
            assert(before.last() == out@[n - 1]@);
        } else {
            out.push(sorted[k].clone());
            proof {
                if n > 0 {
                    assert(before.last() == out@[n - 1]@);
                }
                assert(views(out@) =~= before.push(sorted@[k as int]@));
            }
        }
        k = k + 1;
    }
    assert(sv.take(sv.len() as int) =~= sv);
    if out.len() > 20 {
        out.truncate(20);
        assert(views(out@) =~= views(out@).take(20));
    }
    proof {
        let d = dedup(sv);
        if d.len() > 20 {
            assert(views(out@) =~= d.take(20));
        }
    }
    out
}

/// The candidates shown: each command after a `!`.
pub fn bang_candidates(commands: &Vec<String>) -> (r: Vec<String>)
    ensures
        views(r@) == views(commands@).map_values(|c: Seq<char>| "!"@ + c),
{
    let mut out: Vec<String> = Vec::new();
    let mut i: usize = 0;
    while i < commands.len()
        invariant
            i <= commands@.len(),
            views(out@) =~= views(commands@.take(i as int)).map_values(|c: Seq<char>| "!"@ + c),
        decreases commands@.len() - i,
    {
        let mut b: Vec<char> = Vec::new();
        push_str(&mut b, "!");
        push_str(&mut b, commands[i].as_str());
        let ghost before = views(out@);
        out.push(string_of(b.as_slice()));
        assert(views(out@) =~= before.push("!"@ + commands@[i as int]@));
        assert(views(commands@.take(i + 1)) =~= views(commands@.take(i as int)).push(commands@[i as int]@));
        i = i + 1;
    }
    assert(commands@.take(commands@.len() as int) =~= commands@);
    out
}

proof fn lemma_dedup_sorted(s: Seq<Seq<char>>)
    requires
        forall|i: int, j: int| 0 <= i < j < s.len() ==> lex_le(#[trigger] s[i], #[trigger] s[j]),
    ensures
        dedup(s).len() <= s.len(),
        forall|i: int| 0 <= i < dedup(s).len() ==> exists|k: int| 0 <= k < s.len() && #[trigger] dedup(s)[i] == s[k],
        forall|i: int, j: int| 0 <= i < j < dedup(s).len() ==> lex_le(#[trigger] dedup(s)[i], #[trigger] dedup(s)[j]),
        forall|i: int, j: int| 0 <= i < j < dedup(s).len() ==> #[trigger] dedup(s)[i] != #[trigger] dedup(s)[j],
    decreases s.len(),
{
    if s.len() > 0 {
        let p = s.drop_last();
        let x = s.last();
        assert forall|i: int, j: int| 0 <= i < j < p.len() implies lex_le(#[trigger] p[i], #[trigger] p[j]) by {
            assert(p[i] == s[i] && p[j] == s[j]);
        }
        lemma_dedup_sorted(p);
        let d = dedup(p);
        assert forall|i: int| 0 <= i < d.len() implies lex_le(#[trigger] d[i], x) by {
            let k = choose|k: int| 0 <= k < p.len() && d[i] == p[k];
            assert(p[k] == s[k]);
            crate::order::lemma_lex_reflexive(x);
        }
        if !(d.len() > 0 && d.last() == x) {
            let e = d.push(x);
            assert forall|i: int| 0 <= i < e.len() implies exists|k: int| 0 <= k < s.len() && #[trigger] e[i] == s[k] by {
                if i < d.len() {
                    let k = choose|k: int| 0 <= k < p.len() && d[i] == p[k];
                    assert(e[i] == s[k]);
                } else {
                    assert(e[i] == s[s.len() - 1]);
                }
            }
            assert forall|i: int, j: int| 0 <= i < j < e.len() implies lex_le(#[trigger] e[i], #[trigger] e[j]) by {
                if j == d.len() {
                    assert(lex_le(d[i], x));
                } else {
                    assert(e[i] == d[i] && e[j] == d[j]);
                }
            }
            assert forall|i: int, j: int| 0 <= i < j < e.len() implies #[trigger] e[i] != #[trigger] e[j] by {
                if j == d.len() {
                    if d[i] == x {
                        let l = d.len() - 1;
                        if i < l {
                            assert(lex_le(d[i], d[l]));
                        } else {
                            crate::order::lemma_lex_reflexive(d[l]);
                        }
                        assert(lex_le(d[l], x));
                        crate::order::lemma_lex_antisymmetric(d[l], x);
                    }
                } else {
                    assert(e[i] == d[i] && e[j] == d[j]);
                }
            }
        }
    }
}

/// What `!<prefix>` offers is sorted, names each command once, and holds
/// at most twenty commands.
pub proof fn law_command_completions_sorted_unique(entries: Seq<(String, bool)>, prefix: Seq<char>)
    ensures
        ({
            let r = at_most(dedup(executables(entries, prefix).sort_by(lex_leq())), 20);
            &&& r.len() <= 20
            &&& forall|i: int, j: int| 0 <= i < j < r.len() ==> lex_le(#[trigger] r[i], #[trigger] r[j])
            &&& forall|i: int, j: int| 0 <= i < j < r.len() ==> #[trigger] r[i] != #[trigger] r[j]
        }),
{
    let s = executables(entries, prefix).sort_by(lex_leq());
    crate::order::lemma_lex_total_ordering();
    executables(entries, prefix).lemma_sort_by_ensures(lex_leq());
    assert forall|i: int, j: int| 0 <= i < j < s.len() implies lex_le(#[trigger] s[i], #[trigger] s[j]) by {
        assert(lex_leq()(s[i], s[j]));
    }
    lemma_dedup_sorted(s);
    let d = dedup(s);
    let r = at_most(d, 20);
    if d.len() > 20 {
        assert forall|i: int, j: int| 0 <= i < j < r.len() implies lex_le(#[trigger] r[i], #[trigger] r[j]) by {
            assert(r[i] == d[i] && r[j] == d[j]);
        }
        assert forall|i: int, j: int| 0 <= i < j < r.len() implies #[trigger] r[i] != #[trigger] r[j] by {
            assert(r[i] == d[i] && r[j] == d[j]);
        }
    }
}

} // verus!
