//! Markdown-template commands: `<name>.md` files in the template
//! directories expand into a task. Reading the directories is the host's
//! work; which files count and how a template expands is decided here.
use vstd::prelude::*;
use vstd::relations::sorted_by;
use crate::order::{lex_leq, sort_strings, views};
use crate::text::{chars_of, push_all, push_str, slice_chars, string_of};

verus! {

pub open spec fn placeholder() -> Seq<char> {
    seq!['$', 'A', 'R', 'G', 'U', 'M', 'E', 'N', 'T', 'S']
}

/// Whether `pat` occurs in `s`.
pub open spec fn occurs(s: Seq<char>, pat: Seq<char>) -> bool {
    exists|i: int| 0 <= i && i + pat.len() <= s.len() && #[trigger] s.subrange(i, i + pat.len()) == pat
}

/// `s` with every occurrence of `pat` replaced by `rep`, scanning left to
/// right without overlap, as `str::replace` does.
pub open spec fn replace_all(s: Seq<char>, pat: Seq<char>, rep: Seq<char>) -> Seq<char>
    recommends
        pat.len() > 0,
    decreases s.len(),
{
    if s.len() == 0 || pat.len() == 0 {
        s
    } else if pat.is_prefix_of(s) {
        rep + replace_all(s.subrange(pat.len() as int, s.len() as int), pat, rep)
    } else {
        seq![s[0]] + replace_all(s.drop_first(), pat, rep)
    }
}

/// What a template expands to with `args`: every `$ARGUMENTS` replaced by
/// them; without the placeholder, the arguments appended after a blank
/// line, or the template unchanged when there are none.
pub open spec fn expansion(content: Seq<char>, args: Seq<char>) -> Seq<char> {
    if occurs(content, placeholder()) {
        replace_all(content, placeholder(), args)
    } else if args.len() == 0 {
        content
    } else {
        content + "\n\n"@ + args
    }
}

fn matches_at(s: &Vec<char>, i: usize, pat: &Vec<char>) -> (r: bool)
    requires
        i <= s@.len(),
    ensures
        r == (i + pat@.len() <= s@.len() && s@.subrange(i as int, i + pat@.len()) == pat@),
{
    if pat.len() > s.len() - i {
        return false;
    }
    let sl = s.len();
    let mut k: usize = 0;
    while k < pat.len()
        invariant
            sl == s@.len(),
            i + pat@.len() <= s@.len(),
            k <= pat@.len(),
            forall|j: int| 0 <= j < k ==> s@[i + j] == pat@[j],
        decreases pat.len() - k,
    {
        if s[i + k] != pat[k] {
            assert(s@.subrange(i as int, i + pat@.len())[k as int] != pat@[k as int]);
            return false;
        }
        k = k + 1;
    }
    assert(s@.subrange(i as int, i + pat@.len()) =~= pat@);
    true
}

proof fn lemma_replace_step(s: Seq<char>, i: int, pat: Seq<char>, rep: Seq<char>)
    requires
        pat.len() > 0,
        0 <= i < s.len(),
    ensures
        replace_all(s.subrange(i, s.len() as int), pat, rep) == if i + pat.len() <= s.len()
            && s.subrange(i, i + pat.len()) == pat {
            rep + replace_all(s.subrange(i + pat.len(), s.len() as int), pat, rep)
        } else {
            seq![s[i]] + replace_all(s.subrange(i + 1, s.len() as int), pat, rep)
        },
{
    let t = s.subrange(i, s.len() as int);
    if i + pat.len() <= s.len() && s.subrange(i, i + pat.len()) == pat {
        assert(t.subrange(0, pat.len() as int) =~= pat);
        assert(t.subrange(pat.len() as int, t.len() as int) =~= s.subrange(i + pat.len(), s.len() as int));
    } else {
        if pat.is_prefix_of(t) {
            assert(s.subrange(i, i + pat.len()) =~= t.subrange(0, pat.len() as int));
        }
        assert(t.drop_first() =~= s.subrange(i + 1, s.len() as int));
    }
}

/// Expands a template with `args`, as [`expansion`] says.
pub fn expand_template(content: &str, args: &str) -> (r: String)
    ensures
        r@ == expansion(content@, args@),
{
    proof {
        reveal_strlit("$ARGUMENTS");
        assert("$ARGUMENTS"@ =~= placeholder());
    }
    let s = chars_of(content);
    let pat = chars_of("$ARGUMENTS");
    let a = chars_of(args);
    let n = s.len();
    let mut found = false;
    let mut i: usize = 0;
    while i < n
        invariant
            n == s@.len(),
            i <= n,
            pat@ == placeholder(),
            !found ==> forall|j: int| 0 <= j < i ==> !(j + pat@.len() <= s@.len() && #[trigger] s@.subrange(j, j + pat@.len()) == pat@),
            found ==> occurs(s@, pat@),
        decreases n - i,
    {
        if matches_at(&s, i, &pat) {
            found = true;
        }
        i = i + 1;
    }
    proof {
        if !found {
            assert forall|j: int| 0 <= j && j + pat@.len() <= s@.len() implies #[trigger] s@.subrange(j, j + pat@.len()) != pat@ by {
                assert(j < n);
            }
        }
    }
    if found {
        let mut out: Vec<char> = Vec::new();
        let mut i: usize = 0;
        assert(s@.subrange(0, n as int) =~= s@);
        while i < n
            invariant
                n == s@.len(),
                i <= n,
                pat@ == placeholder(),
                pat@.len() == 10,
                out@ + replace_all(s@.subrange(i as int, n as int), pat@, a@) == replace_all(s@, pat@, a@),
            decreases n - i,
        {
            let ghost before = out@;
            proof {
                lemma_replace_step(s@, i as int, pat@, a@);
            }
            if matches_at(&s, i, &pat) {
                push_all(&mut out, a.as_slice());
                assert(out@ == before + a@);
                i = i + pat.len();
            } else {
                out.push(s[i]);
                assert(out@ =~= before + seq![s@[i as int]]);
                i = i + 1;
            }
        }
        proof {
            assert(s@.subrange(n as int, n as int) =~= Seq::<char>::empty());
            assert(out@ =~= replace_all(s@, pat@, a@));
        }
        string_of(out.as_slice())
    } else if a.len() == 0 {
        string_of(s.as_slice())
    } else {
        let mut out = s;
        push_str(&mut out, "\n\n");
        push_all(&mut out, a.as_slice());
        string_of(out.as_slice())
    }
}

/// Index of the last `.` in `s`, or -1.
pub open spec fn last_dot(s: Seq<char>) -> int
    decreases s.len(),
{
    if s.len() == 0 {
        -1
    } else if s.last() == '.' {
        s.len() - 1
    } else {
        last_dot(s.drop_last())
    }
}

/// The command a directory entry named `file` stands for: its stem when its
/// extension is `md`. As for a path, a leading dot alone starts no
/// extension.
pub open spec fn template_name(file: Seq<char>) -> Option<Seq<char>> {
    let p = last_dot(file);
    if p > 0 && file.subrange(p + 1, file.len() as int) == "md"@ {
        Some(file.subrange(0, p))
    } else {
        None
    }
}

/// The command a directory entry named `file` stands for, if any.
pub fn template_name_of(file: &str) -> (r: Option<String>)
    ensures
        match r {
            Some(n) => template_name(file@) == Some(n@),
            None => template_name(file@) is None,
        },
{
    proof {
        reveal_strlit("md");
    }
    let s = chars_of(file);
    let mut i = s.len();
    assert(s@.subrange(0, i as int) =~= s@);
    while i > 0 && s[i - 1] != '.'
        invariant
            i <= s@.len(),
            last_dot(s@) == last_dot(s@.subrange(0, i as int)),
        decreases i,
    {
        proof {
            let t = s@.subrange(0, i as int);
            assert(t.drop_last() =~= s@.subrange(0, i - 1));
        }
        i = i - 1;
    }
    proof {
        if i == 0 {
            assert(s@.subrange(0, 0) =~= Seq::<char>::empty());
        } else {
            assert(s@.subrange(0, i as int).last() == '.');
        }
    }
    if i <= 1 {
        return None;
    }
    let p = i - 1;
    let ext = slice_chars(s.as_slice(), p + 1, s.len());
    let md = chars_of("md");
    if crate::text::chars_eq(ext.as_slice(), md.as_slice()) {
        let stem = slice_chars(s.as_slice(), 0, p);
        Some(string_of(stem.as_slice()))
    } else {
        None
    }
}

/// The names of the template commands found among the entries of the
/// template directories (project directory first), each once, sorted.
pub fn list_names(dirs: &Vec<Vec<String>>) -> (r: Vec<String>)
    ensures
        sorted_by(views(r@), lex_leq()),
        views(r@).no_duplicates(),
        forall|k: Seq<char>| #[trigger] views(r@).contains(k) <==> exists|d: int, e: int|
            0 <= d < dirs@.len() && 0 <= e < dirs@[d]@.len() && template_name(#[trigger] dirs@[d]@[e]@)
                == Some(k),
{
    let mut names: Vec<String> = Vec::new();
    let mut d: usize = 0;
    while d < dirs.len()
        invariant
            d <= dirs@.len(),
            views(names@).no_duplicates(),
            forall|k: Seq<char>| #[trigger] views(names@).contains(k) <==> exists|a: int, e: int|
                0 <= a < d && 0 <= e < dirs@[a]@.len() && template_name(#[trigger] dirs@[a]@[e]@) == Some(k),
        decreases dirs.len() - d,
    {
        let entries = &dirs[d];
        let mut e: usize = 0;
        while e < entries.len()
            invariant
                d < dirs@.len(),
                entries == &dirs@[d as int],
                e <= entries@.len(),
                views(names@).no_duplicates(),
                forall|k: Seq<char>| #[trigger] views(names@).contains(k) <==> (exists|a: int, x: int|
                    0 <= a < d && 0 <= x < dirs@[a]@.len() && template_name(#[trigger] dirs@[a]@[x]@) == Some(k))
                    || (exists|x: int| 0 <= x < e && template_name(#[trigger] entries@[x]@) == Some(k)),
            decreases entries.len() - e,
        {
            match template_name_of(entries[e].as_str()) {
                Some(n) => {
                    if !crate::dag::contains_string(&names, n.as_str()) {
                        let ghost before = views(names@);
                        names.push(n);
                        proof {
                            assert(views(names@) =~= before.push(n@));
                            assert forall|k: Seq<char>| #[trigger] views(names@).contains(k) <==> (before.contains(k) || k == n@) by {
                                if views(names@).contains(k) {
                                    let j = choose|j: int| 0 <= j < views(names@).len() && views(names@)[j] == k;
                                    if j < before.len() {
                                        assert(before[j] == k);
                                    }
                                }
                                if before.contains(k) {
                                    let j = choose|j: int| 0 <= j < before.len() && before[j] == k;
                                    assert(views(names@)[j] == k);
                                }
                                if k == n@ {
                                    assert(views(names@)[before.len() as int] == k);
                                }
                            }
                            assert forall|a: int, b: int| 0 <= a < b < views(names@).len() implies views(names@)[a] != views(names@)[b] by {
                                if b == before.len() {
                                    assert(before.contains(before[a]));
                                }
                            }
                        }
                    }
                    proof {
                        assert forall|k: Seq<char>| #[trigger] views(names@).contains(k) <==> (exists|a: int, x: int|
                            0 <= a < d && 0 <= x < dirs@[a]@.len() && template_name(#[trigger] dirs@[a]@[x]@) == Some(k))
                            || (exists|x: int| 0 <= x < e + 1 && template_name(#[trigger] entries@[x]@) == Some(k)) by {
                            if exists|x: int| 0 <= x < e + 1 && template_name(#[trigger] entries@[x]@) == Some(k) {
                                let x = choose|x: int| 0 <= x < e + 1 && template_name(#[trigger] entries@[x]@) == Some(k);
                                if x == e {
                                    assert(k == n@);
                                }
                            }
                            if k == n@ {
                                assert(template_name(entries@[e as int]@) == Some(k));
                            }
                        }
                    }
                },
                None => {
                    proof {
                        assert forall|k: Seq<char>| #[trigger] views(names@).contains(k) <==> (exists|a: int, x: int|
                            0 <= a < d && 0 <= x < dirs@[a]@.len() && template_name(#[trigger] dirs@[a]@[x]@) == Some(k))
                            || (exists|x: int| 0 <= x < e + 1 && template_name(#[trigger] entries@[x]@) == Some(k)) by {
                            if exists|x: int| 0 <= x < e + 1 && template_name(#[trigger] entries@[x]@) == Some(k) {
                                let x = choose|x: int| 0 <= x < e + 1 && template_name(#[trigger] entries@[x]@) == Some(k);
                                assert(x != e);
                            }
                        }
                    }
                },
            }
            e = e + 1;
        }
        proof {
            assert forall|k: Seq<char>| #[trigger] views(names@).contains(k) <==> exists|a: int, x: int|
                0 <= a < d + 1 && 0 <= x < dirs@[a]@.len() && template_name(#[trigger] dirs@[a]@[x]@) == Some(k) by {
                if exists|a: int, x: int| 0 <= a < d + 1 && 0 <= x < dirs@[a]@.len() && template_name(#[trigger] dirs@[a]@[x]@) == Some(k) {
                    let (a, x) = choose|a: int, x: int| 0 <= a < d + 1 && 0 <= x < dirs@[a]@.len() && template_name(#[trigger] dirs@[a]@[x]@) == Some(k);
                    if a == d {
                        assert(template_name(entries@[x]@) == Some(k));
                    }
                }
                if exists|x: int| 0 <= x < entries@.len() && template_name(#[trigger] entries@[x]@) == Some(k) {
                    let x = choose|x: int| 0 <= x < entries@.len() && template_name(#[trigger] entries@[x]@) == Some(k);
                    assert(template_name(dirs@[d as int]@[x]@) == Some(k));
                }
            }
        }
        d = d + 1;
    }
    let ghost nv = views(names@);
    let r = sort_strings(names);
    proof {
        let rv = views(r@);
        broadcast use vstd::seq_lib::group_to_multiset_ensures;
        assert forall|k: Seq<char>| #[trigger] rv.contains(k) <==> nv.contains(k) by {
            assert(rv.to_multiset().count(k) == nv.to_multiset().count(k));
        }
        nv.lemma_multiset_has_no_duplicates();
        assert forall|k: Seq<char>| rv.to_multiset().contains(k) implies rv.to_multiset().count(k) == 1 by {
            assert(nv.to_multiset().count(k) == 1);
        }
        rv.lemma_multiset_has_no_duplicates_conv();
    }
    r
}

} // verus!
