//! The repository map: for each Rust file, the signatures of its top-level
//! structs, impls, functions and traits, as tree-sitter's Rust grammar
//! finds them.
use vstd::prelude::*;
use crate::order::views;
use crate::text::{
    byte_len, char_bytes, chars_of, join, join_strings, lemma_byte_len_take_mono, push_str,
    slice_chars, string_of, trim, trim_chars,
};

verus! {

/// A top-level node of a parsed Rust file: its kind and the bytes it spans.
pub struct TopItem {
    pub kind: String,
    pub start: usize,
    pub end: usize,
}

pub open spec fn items_view(v: Seq<TopItem>) -> Seq<(Seq<char>, int, int)> {
    v.map_values(|t: TopItem| (t.kind@, t.start as int, t.end as int))
}

/// The root's children when tree-sitter's Rust grammar parses `code`, each
/// as its kind and byte range; `None` where the parser gives no tree.
pub uninterp spec fn rust_top_items(code: Seq<char>) -> Option<Seq<(Seq<char>, int, int)>>;

/// Parses `code` with tree-sitter's Rust grammar and lists the root's
/// children (`Parser::set_language`, `Parser::parse`, `Node::children`,
/// `Node::kind`, `Node::start_byte`, `Node::end_byte`). Claimed: loading
/// the grammar succeeds (`set_language` refuses only a grammar outside the
/// ABI versions 13 to 15 or one that cannot be parsed, and the bundled Rust
/// grammar is of ABI 15), and what the parse gives is the function
/// [`rust_top_items`] of `code`.
#[verifier::external_body]
fn parse_top_level(code: &str) -> (r: Result<Option<Vec<TopItem>>, String>)
    ensures
        r is Ok,
        r matches Ok(o) ==> match o {
            Some(v) => rust_top_items(code@) == Some(items_view(v@)),
            None => rust_top_items(code@) is None,
        },
{
    let mut parser = tree_sitter::Parser::new();
    parser.set_language(&tree_sitter_rust::LANGUAGE.into()).map_err(|e| e.to_string())?;
    let tree = match parser.parse(code, None) {
        Some(t) => t,
        None => return Ok(None),
    };
    let root = tree.root_node();
    let mut cursor = root.walk();
    let items = root.children(&mut cursor).map(
        |n| TopItem { kind: n.kind().to_string(), start: n.start_byte(), end: n.end_byte() },
    ).collect();
    Ok(Some(items))
}

/// The characters of `s` between byte `start` and byte `end`, as
/// `str::get(start..end)` gives them: `None` unless both fall on character
/// boundaries with `start <= end`.
pub open spec fn byte_range(s: Seq<char>, start: int, end: int) -> Option<Seq<char>> {
    if exists|i: int, j: int|
        #![trigger byte_len(s.take(i)), byte_len(s.take(j))]
        0 <= i <= j <= s.len() && byte_len(s.take(i)) == start && byte_len(s.take(j)) == end {
        let (i, j) = choose|i: int, j: int|
            #![trigger byte_len(s.take(i)), byte_len(s.take(j))]
            0 <= i <= j <= s.len() && byte_len(s.take(i)) == start && byte_len(s.take(j)) == end;
        Some(s.subrange(i, j))
    } else {
        None
    }
}

proof fn lemma_byte_len_unique(s: Seq<char>, a: int, b: int)
    requires
        0 <= a <= s.len(),
        0 <= b <= s.len(),
        byte_len(s.take(a)) == byte_len(s.take(b)),
    ensures
        a == b,
{
    if a < b {
        lemma_byte_len_take_mono(s, a, b);
    } else if b < a {
        lemma_byte_len_take_mono(s, b, a);
    }
}

/// Walks from `from` to the first prefix of `s` that takes at least
/// `target` bytes, or to the end.
fn advance(s: &[char], from: usize, bytes_from: u128, target: usize) -> (r: (usize, u128))
    requires
        from <= s@.len(),
        bytes_from == byte_len(s@.take(from as int)),
    ensures
        from <= r.0 <= s@.len(),
        r.1 == byte_len(s@.take(r.0 as int)),
        r.0 == s@.len() || r.1 >= target,
        r.0 > from ==> byte_len(s@.take(r.0 - 1)) < target,
{
    let mut k = from;
    let mut bytes = bytes_from;
    while k < s.len() && bytes < target as u128
        invariant
            from <= k <= s@.len(),
            bytes == byte_len(s@.take(k as int)),
            k > from ==> byte_len(s@.take(k - 1)) < target,
        decreases s@.len() - k,
    {
        assert(s@.take(k + 1).drop_last() =~= s@.take(k as int));
        let c = char_bytes(s[k]);
        bytes = bytes + c as u128;
        k = k + 1;
    }
    (k, bytes)
}

proof fn lemma_no_boundary(s: Seq<char>, k: int, target: int)
    requires
        0 <= k <= s.len(),
        byte_len(s.take(k)) != target,
        k == s.len() || byte_len(s.take(k)) >= target,
        k > 0 ==> byte_len(s.take(k - 1)) < target,
        byte_len(s.take(0)) <= target,
    ensures
        forall|i: int| 0 <= i <= s.len() ==> #[trigger] byte_len(s.take(i)) != target,
{
    assert forall|i: int| 0 <= i <= s.len() implies #[trigger] byte_len(s.take(i)) != target by {
        if i < k {
            lemma_byte_len_take_mono(s, i, k - 1);
        } else if i > k {
            lemma_byte_len_take_mono(s, k, i);
        }
    }
}

/// `str::get(start..end)`, as [`byte_range`] says.
pub fn byte_slice(s: &[char], start: usize, end: usize) -> (r: Option<Vec<char>>)
    ensures
        match r {
            Some(v) => byte_range(s@, start as int, end as int) == Some(v@),
            None => byte_range(s@, start as int, end as int) is None,
        },
{
    assert(s@.take(0) =~= Seq::<char>::empty());
    let (i, bi) = advance(s, 0, 0, start);
    if bi != start as u128 {
        proof {
            lemma_no_boundary(s@, i as int, start as int);
        }
        return None;
    }
    let (j, bj) = advance(s, i, bi, end);
    if bj != end as u128 {
        proof {
            assert forall|a: int, b: int|
                0 <= a <= b <= s@.len() && #[trigger] byte_len(s@.take(a)) == start implies #[trigger] byte_len(
                s@.take(b),
            ) != end by {
                lemma_byte_len_unique(s@, a, i as int);
                if b < j {
                    lemma_byte_len_take_mono(s@, b, j - 1);
                } else if b > j {
                    lemma_byte_len_take_mono(s@, j as int, b);
                }
            }
        }
        return None;
    }
    proof {
        let (a, b) = choose|a: int, b: int|
            #![trigger byte_len(s@.take(a)), byte_len(s@.take(b))]
            0 <= a <= b <= s@.len() && byte_len(s@.take(a)) == start && byte_len(s@.take(b)) == end;
        assert(byte_len(s@.take(i as int)) == start && byte_len(s@.take(j as int)) == end);
        lemma_byte_len_unique(s@, a, i as int);
        lemma_byte_len_unique(s@, b, j as int);
    }
    Some(slice_chars(s, i, j))
}

/// Index of the first `c` in `s`, or -1.
pub open spec fn first_index(s: Seq<char>, c: char) -> int
    decreases s.len(),
{
    if s.len() == 0 {
        -1
    } else if s[0] == c {
        0
    } else {
        let r = first_index(s.drop_first(), c);
        if r < 0 {
            -1
        } else {
            r + 1
        }
    }
}

pub proof fn lemma_first_index(s: Seq<char>, c: char)
    ensures
        -1 <= first_index(s, c) < s.len(),
        first_index(s, c) >= 0 ==> s[first_index(s, c)] == c,
        forall|j: int| 0 <= j < s.len() && (first_index(s, c) < 0 || j < first_index(s, c)) ==> #[trigger] s[j] != c,
    decreases s.len(),
{
    if s.len() > 0 {
        lemma_first_index(s.drop_first(), c);
        assert forall|j: int| 0 <= j < s.len() && (first_index(s, c) < 0 || j < first_index(s, c)) implies #[trigger] s[j]
            != c by {
            if j > 0 {
                assert(s.drop_first()[j - 1] == s[j]);
            }
        }
    }
}

/// A line without the `\r` before its `\n`.
pub open spec fn strip_cr(l: Seq<char>) -> Seq<char> {
    if l.len() > 0 && l.last() == '\r' {
        l.drop_last()
    } else {
        l
    }
}

/// `str::lines`: the pieces between `\n`s, each without a `\r` before its
/// `\n`, and no empty piece after a final `\n`.
pub open spec fn lines(s: Seq<char>) -> Seq<Seq<char>>
    decreases s.len(),
{
    if s.len() == 0 {
        Seq::empty()
    } else {
        let k = first_index(s, '\n');
        if k < 0 {
            seq![s]
        } else {
            proof {
                lemma_first_index(s, '\n');
            }
            seq![strip_cr(s.take(k))] + lines(s.skip(k + 1))
        }
    }
}

pub open spec fn vviews(v: Seq<Vec<char>>) -> Seq<Seq<char>> {
    v.map_values(|x: Vec<char>| x@)
}

fn find_char(s: &[char], from: usize, c: char) -> (r: Option<usize>)
    requires
        from <= s@.len(),
    ensures
        match r {
            Some(p) => from <= p < s@.len() && p - from == first_index(s@.skip(from as int), c),
            None => first_index(s@.skip(from as int), c) < 0,
        },
{
    let ghost t = s@.skip(from as int);
    proof {
        lemma_first_index(t, c);
    }
    let mut p = from;
    while p < s.len()
        invariant
            from <= p <= s@.len(),
            t == s@.skip(from as int),
            forall|j: int| from <= j < p ==> #[trigger] s@[j] != c,
        decreases s@.len() - p,
    {
        if s[p] == c {
            proof {
                lemma_first_index(t, c);
                let f = first_index(t, c);
                assert(t[p - from] == s@[p as int]);
                assert(t[p - from] == c);
                if f >= 0 && f < p - from {
                    assert(t[f] == s@[from + f]);
                    assert(s@[from + f] != c);
                }
            }
            return Some(p);
        }
        p = p + 1;
    }
    proof {
        let f = first_index(t, c);
        if f >= 0 {
            assert(t[f] == s@[from + f]);
        }
    }
    None
}

/// `str::lines`, as [`lines`] says.
pub fn split_lines(s: &[char]) -> (r: Vec<Vec<char>>)
    ensures
        vviews(r@) == lines(s@),
{
    let mut out: Vec<Vec<char>> = Vec::new();
    let mut pos: usize = 0;
    assert(s@.skip(0) =~= s@);
    assert(vviews(out@) =~= Seq::<Seq<char>>::empty());
    while pos < s.len()
        invariant
            pos <= s@.len(),
            lines(s@) == vviews(out@) + lines(s@.skip(pos as int)),
        decreases s@.len() - pos,
    {
        let ghost rest = s@.skip(pos as int);
        let ghost before = vviews(out@);
        match find_char(s, pos, '\n') {
            None => {
                let piece = slice_chars(s, pos, s.len());
                out.push(piece);
                proof {
                    assert(rest.subrange(0, rest.len() as int) =~= rest);
                    assert(lines(rest) == seq![rest]);
                    assert(vviews(out@) =~= before.push(rest));
                    assert(s@.skip(s@.len() as int) =~= Seq::<char>::empty());
                    assert(before + seq![rest] =~= before.push(rest));
                }
                pos = s.len();
            },
            Some(p) => {
                let mut piece = slice_chars(s, pos, p);
                if piece.len() > 0 && piece[piece.len() - 1] == '\r' {
                    piece.pop();
                }
                out.push(piece);
                proof {
                    let k = p - pos;
                    lemma_first_index(rest, '\n');
                    assert(rest.take(k) =~= s@.subrange(pos as int, p as int));
                    assert(rest.skip(k + 1) =~= s@.skip(p + 1));
                    assert(vviews(out@) =~= before.push(strip_cr(rest.take(k))));
                    assert(lines(rest) == seq![strip_cr(rest.take(k))] + lines(rest.skip(k + 1)));
                }
                pos = p + 1;
            },
        }
    }
    assert(s@.skip(s@.len() as int) =~= Seq::<char>::empty());
    assert(vviews(out@) + Seq::<Seq<char>>::empty() =~= vviews(out@));
    out
}

/// The kinds of item a signature is taken of.
pub open spec fn is_item_kind(k: Seq<char>) -> bool {
    k == "struct_item"@ || k == "impl_item"@ || k == "function_item"@ || k == "trait_item"@
}

/// The signature in an item's text: what stands before its first `{`, each
/// line trimmed and the lines joined by spaces; with no `{`, the first
/// line, trimmed.
pub open spec fn signature_text(t: Seq<char>) -> Seq<char> {
    let p = first_index(t, '{');
    if p >= 0 {
        join(lines(trim(t.take(p))).map_values(|l: Seq<char>| trim(l)), " "@)
    } else {
        let ls = lines(t);
        trim(if ls.len() > 0 { ls[0] } else { t })
    }
}

/// The signature of an item of `code`: `None` unless the item is a struct,
/// impl, function or trait whose byte range can be cut out of `code`.
pub open spec fn signature_of(item: (Seq<char>, int, int), code: Seq<char>) -> Option<Seq<char>> {
    if !is_item_kind(item.0) {
        None
    } else {
        match byte_range(code, item.1, item.2) {
            Some(t) => Some(signature_text(t)),
            None => None,
        }
    }
}

fn trimmed_lines(ls: &Vec<Vec<char>>) -> (r: Vec<String>)
    ensures
        views(r@) == vviews(ls@).map_values(|l: Seq<char>| trim(l)),
{
    let mut out: Vec<String> = Vec::new();
    let mut i: usize = 0;
    while i < ls.len()
        invariant
            i <= ls@.len(),
            views(out@) =~= vviews(ls@.take(i as int)).map_values(|l: Seq<char>| trim(l)),
        decreases ls@.len() - i,
    {
        let t = trim_chars(ls[i].as_slice());
        let ghost prev = views(out@);
        out.push(string_of(t.as_slice()));
        assert(views(out@) =~= prev.push(trim(ls@[i as int]@)));
        assert(vviews(ls@.take(i + 1)) =~= vviews(ls@.take(i as int)).push(ls@[i as int]@));
        assert(vviews(ls@.take(i + 1)).map_values(|l: Seq<char>| trim(l)) =~= vviews(ls@.take(i as int)).map_values(
            |l: Seq<char>| trim(l),
        ).push(trim(ls@[i as int]@)));
        i = i + 1;
    }
    assert(ls@.take(ls@.len() as int) =~= ls@);
    out
}

fn is_item_kind_exec(k: &str) -> (r: bool)
    ensures
        r == is_item_kind(k@),
{
    crate::text::str_eq(k, "struct_item") || crate::text::str_eq(k, "impl_item") || crate::text::str_eq(
        k,
        "function_item",
    ) || crate::text::str_eq(k, "trait_item")
}

/// The signature of `item`, as [`signature_of`] says.
pub fn get_signature(item: &TopItem, code: &[char]) -> (r: Option<String>)
    ensures
        match r {
            Some(s) => signature_of((item.kind@, item.start as int, item.end as int), code@) == Some(s@),
            None => signature_of((item.kind@, item.start as int, item.end as int), code@) is None,
        },
{
    if !is_item_kind_exec(item.kind.as_str()) {
        return None;
    }
    let text = match byte_slice(code, item.start, item.end) {
        Some(t) => t,
        None => {
            return None;
        },
    };
    match find_char(text.as_slice(), 0, '{') {
        Some(p) => {
            assert(text@.skip(0) =~= text@);
            let head = slice_chars(text.as_slice(), 0, p);
            let sig = trim_chars(head.as_slice());
            let ls = split_lines(sig.as_slice());
            let parts = trimmed_lines(&ls);
            assert(head@ =~= text@.take(p as int));
            Some(join_strings(&parts, " "))
        },
        None => {
            assert(text@.skip(0) =~= text@);
            let ls = split_lines(text.as_slice());
            if ls.len() > 0 {
                let t = trim_chars(ls[0].as_slice());
                assert(vviews(ls@)[0] == ls@[0]@);
                Some(string_of(t.as_slice()))
            } else {
                let t = trim_chars(text.as_slice());
                Some(string_of(t.as_slice()))
            }
        },
    }
}

/// The indented signatures of `items`, in order, skipping items without
/// one.
pub open spec fn item_signatures(items: Seq<(Seq<char>, int, int)>, code: Seq<char>) -> Seq<Seq<char>>
    decreases items.len(),
{
    if items.len() == 0 {
        Seq::empty()
    } else {
        item_signatures(items.drop_last(), code) + match signature_of(items.last(), code) {
            Some(s) => seq!["  "@ + s],
            None => Seq::empty(),
        }
    }
}

/// A file's entry in the map: `File: <path>` and its signatures, one per
/// line; nothing for a file without any.
pub open spec fn file_summary(rel_path: Seq<char>, code: Seq<char>, items: Seq<(Seq<char>, int, int)>) -> Seq<char> {
    let sigs = item_signatures(items, code);
    if sigs.len() == 0 {
        Seq::empty()
    } else {
        "File: "@ + rel_path + "\n"@ + join(sigs, "\n"@)
    }
}

/// A file's entry in the map from its parsed top-level items, as
/// [`file_summary`] says.
pub fn summarize_items(rel_path: &str, code: &str, items: &Vec<TopItem>) -> (r: String)
    ensures
        r@ == file_summary(rel_path@, code@, items_view(items@)),
{
    let cs = chars_of(code);
    let ghost iv = items_view(items@);
    let mut sigs: Vec<String> = Vec::new();
    let mut i: usize = 0;
    assert(iv.take(0) =~= Seq::<(Seq<char>, int, int)>::empty());
    while i < items.len()
        invariant
            i <= items@.len(),
            iv == items_view(items@),
            cs@ == code@,
            views(sigs@) == item_signatures(iv.take(i as int), code@),
        decreases items@.len() - i,
    {
        let ghost before = views(sigs@);
        proof {
            let t = iv.take(i + 1);
            assert(t.drop_last() =~= iv.take(i as int));
            assert(t.last() == (items@[i as int].kind@, items@[i as int].start as int, items@[i as int].end as int));
        }
        match get_signature(&items[i], cs.as_slice()) {
            Some(s) => {
                let mut b: Vec<char> = Vec::new();
                push_str(&mut b, "  ");
                push_str(&mut b, s.as_str());
                sigs.push(string_of(b.as_slice()));
                assert(views(sigs@) =~= before + seq!["  "@ + s@]);
            },
            None => {
                assert(views(sigs@) =~= before + Seq::<Seq<char>>::empty());
            },
        }
        i = i + 1;
    }
    assert(iv.take(iv.len() as int) =~= iv);
    if sigs.len() == 0 {
        return String::new();
    }
    let body = join_strings(&sigs, "\n");
    let mut b: Vec<char> = Vec::new();
    push_str(&mut b, "File: ");
    push_str(&mut b, rel_path);
    push_str(&mut b, "\n");
    push_str(&mut b, body.as_str());
    string_of(b.as_slice())
}

/// A Rust file's entry in the map: `code` is the text of the file at
/// `path`, shown as `rel_path`. Fails where the parser gives no tree.
pub fn process_rust_file(path: &str, rel_path: &str, code: &str) -> (r: Result<String, String>)
    ensures
        match rust_top_items(code@) {
            Some(items) => r matches Ok(s) && s@ == file_summary(rel_path@, code@, items),
            None => r matches Err(e) && e@ == "Failed to parse code in "@ + path@,
        },
{
    match parse_top_level(code) {
        Err(e) => {
            let mut b: Vec<char> = Vec::new();
            push_str(&mut b, "Failed to set language: ");
            push_str(&mut b, e.as_str());
            Err(string_of(b.as_slice()))
        },
        Ok(None) => {
            let mut b: Vec<char> = Vec::new();
            push_str(&mut b, "Failed to parse code in ");
            push_str(&mut b, path);
            Err(string_of(b.as_slice()))
        },
        Ok(Some(items)) => Ok(summarize_items(rel_path, code, &items)),
    }
}

/// What the map does with a directory entry.
pub enum EntryAction {
    Skip,
    Descend,
    Summarize,
}

/// Hidden entries, `target` and `node_modules` are skipped; other
/// directories are walked; files named `*.rs` are summarized.
pub open spec fn entry_action_spec(name: Seq<char>, is_dir: bool) -> EntryAction {
    if (name.len() > 0 && name[0] == '.') || name == "target"@ || name == "node_modules"@ {
        EntryAction::Skip
    } else if is_dir {
        EntryAction::Descend
    } else if name.len() >= 3 && name.subrange(name.len() - 3, name.len() as int) == ".rs"@ {
        EntryAction::Summarize
    } else {
        EntryAction::Skip
    }
}

/// What to do with the entry `name` of a directory, as
/// [`entry_action_spec`] says.
pub fn entry_action(name: &str, is_dir: bool) -> (r: EntryAction)
    ensures
        r == entry_action_spec(name@, is_dir),
{
    proof {
        reveal_strlit(".rs");
    }
    let cs = chars_of(name);
    let n = cs.len();
    if (n > 0 && cs[0] == '.') || crate::text::str_eq(name, "target") || crate::text::str_eq(name, "node_modules") {
        return EntryAction::Skip;
    }
    if is_dir {
        return EntryAction::Descend;
    }
    if n >= 3 && cs[n - 3] == '.' && cs[n - 2] == 'r' && cs[n - 1] == 's' {
        assert(cs@.subrange(n - 3, n as int) =~= ".rs"@);
        EntryAction::Summarize
    } else {
        proof {
            if n >= 3 && cs@.subrange(n - 3, n as int) == ".rs"@ {
                assert(cs@.subrange(n - 3, n as int)[0] == cs@[n - 3]);
                assert(cs@.subrange(n - 3, n as int)[1] == cs@[n - 2]);
                assert(cs@.subrange(n - 3, n as int)[2] == cs@[n - 1]);
            }
        }
        EntryAction::Skip
    }
}

/// The map: the entries of the files, in the order the walk met them,
/// empty ones left out, separated by blank lines.
pub fn join_summaries(summaries: &Vec<String>) -> (r: String)
    ensures
        r@ == join(views(summaries@).filter(|s: Seq<char>| s.len() > 0), "\n\n"@),
{
    let mut kept: Vec<String> = Vec::new();
    let mut i: usize = 0;
    while i < summaries.len()
        invariant
            i <= summaries@.len(),
            views(kept@) == views(summaries@.take(i as int)).filter(|s: Seq<char>| s.len() > 0),
        decreases summaries@.len() - i,
    {
        proof {
            let t = views(summaries@.take(i + 1));
            assert(t.drop_last() =~= views(summaries@.take(i as int)));
            reveal(Seq::filter);
        }
        if summaries[i].unicode_len() > 0 {
            kept.push(summaries[i].clone());
        }
        proof {
            let t = views(summaries@.take(i + 1));
            assert(views(kept@) =~= t.filter(|s: Seq<char>| s.len() > 0));
        }
        i = i + 1;
    }
    assert(summaries@.take(summaries@.len() as int) =~= summaries@);
    join_strings(&kept, "\n\n")
}

} // verus!
