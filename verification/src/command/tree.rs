//! `/tree`: the conversation graph drawn as an ASCII tree, roots and
//! children in name order, the current tip marked with `*`.
use vstd::prelude::*;
use crate::dag::{Dag, NodeV, has_id, index_of_id, nodes_view};
use crate::order::{lex_leq, sort_strings, views};
use crate::text::{byte_len, char_bytes, chars_of, lemma_byte_len_take_mono, owned, push_all, push_str, str_eq, string_of};

verus! {

/// `s` with each newline replaced by a space.
pub open spec fn one_line(s: Seq<char>) -> Seq<char> {
    s.map_values(|c: char| if c == '\n' { ' ' } else { c })
}

/// The text a node is shown with: on one line, and past 40 bytes cut to
/// its first 40 bytes and `...`. `None` when byte 40 falls inside a
/// character, where the cut cannot be made.
pub open spec fn short_text(t: Seq<char>) -> Option<Seq<char>> {
    let c = one_line(t);
    if byte_len(c) <= 40 {
        Some(c)
    } else if exists|k: int| 0 <= k <= c.len() && #[trigger] byte_len(c.take(k)) == 40 {
        let k = choose|k: int| 0 <= k <= c.len() && #[trigger] byte_len(c.take(k)) == 40;
        Some(c.take(k) + "..."@)
    } else {
        None
    }
}

/// The text a node is shown with, as [`short_text`] says.
pub fn format_node_text(text: &str) -> (r: Option<String>)
    ensures
        match r {
            Some(s) => short_text(text@) == Some(s@),
            None => short_text(text@) is None,
        },
{
    let cs = chars_of(text);
    let mut c: Vec<char> = Vec::new();
    let mut i: usize = 0;
    while i < cs.len()
        invariant
            i <= cs@.len(),
            cs@ == text@,
            c@ == one_line(cs@.take(i as int)),
        decreases cs.len() - i,
    {
        let x = if cs[i] == '\n' { ' ' } else { cs[i] };
        c.push(x);
        assert(one_line(cs@.take(i + 1)) =~= one_line(cs@.take(i as int)).push(x));
        i = i + 1;
    }
    assert(cs@.take(cs@.len() as int) =~= cs@);
    let ghost cv = c@;
    let mut k: usize = 0;
    let mut bytes: usize = 0;
    assert(cv.take(0) =~= Seq::<char>::empty());
    while k < c.len() && bytes < 40
        invariant
            k <= cv.len(),
            cv == c@,
            bytes == byte_len(cv.take(k as int)),
            bytes <= 43,
            k > 0 ==> byte_len(cv.take(k - 1)) < 40,
        decreases cv.len() - k,
    {
        assert(cv.take(k + 1).drop_last() =~= cv.take(k as int));
        let ghost prev = bytes;
        bytes = bytes + char_bytes(c[k]);
        assert(byte_len(cv.take(k as int)) == prev);
        k = k + 1;
    }
    if bytes < 40 || (bytes == 40 && k == c.len()) {
        proof {
            assert(cv.take(k as int) =~= cv);
        }
        return Some(string_of(c.as_slice()));
    }
    if bytes > 40 {
        proof {
            assert(cv.take(0) =~= Seq::<char>::empty());
            assert(k >= 1);
            assert forall|j: int| 0 <= j <= cv.len() implies #[trigger] byte_len(cv.take(j)) != 40 by {
                if j <= k - 1 {
                    lemma_byte_len_take_mono(cv, j, k - 1);
                } else {
                    lemma_byte_len_take_mono(cv, k as int, j);
                }
            }
            lemma_byte_len_take_mono(cv, k as int, cv.len() as int);
            assert(cv.take(cv.len() as int) =~= cv);
        }
        return None;
    }
    // bytes == 40 and there is more text: cut here.
    proof {
        lemma_byte_len_take_mono(cv, k as int, cv.len() as int);
        assert(cv.take(cv.len() as int) =~= cv);
        let j = choose|j: int| 0 <= j <= cv.len() && #[trigger] byte_len(cv.take(j)) == 40;
        if j < k {
            lemma_byte_len_take_mono(cv, j, k as int);
        }
        if j > k {
            lemma_byte_len_take_mono(cv, k as int, j);
        }
        assert(j == k);
    }
    let mut out = crate::text::slice_chars(c.as_slice(), 0, k);
    assert(out@ =~= cv.take(k as int));
    push_str(&mut out, "...");
    Some(string_of(out.as_slice()))
}

/// The marker of a node (`*` for the current tip) and the connector drawn
/// before it (none at the top level).
pub fn get_node_symbols(node_id: &str, current_id: Option<&str>, prefix: &str, is_last: bool) -> (r: (String, String))
    ensures
        r.0@ == (if current_id is Some && current_id->0@ == node_id@ { "*"@ } else { " "@ }),
        r.1@ == (if prefix@.len() == 0 { ""@ } else if is_last { "\u{2514}\u{2500}\u{2500} "@ } else { "\u{251c}\u{2500}\u{2500} "@ }),
{
    let marker = match current_id {
        Some(c) => if str_eq(c, node_id) { owned("*") } else { owned(" ") },
        None => owned(" "),
    };
    let connector = if prefix.unicode_len() == 0 {
        owned("")
    } else if is_last {
        owned("\u{2514}\u{2500}\u{2500} ")
    } else {
        owned("\u{251c}\u{2500}\u{2500} ")
    };
    (marker, connector)
}

/// How often `id` occurs in `ps`.
pub open spec fn count_in(ps: Seq<Seq<char>>, id: Seq<char>) -> nat
    decreases ps.len(),
{
    if ps.len() == 0 {
        0
    } else {
        count_in(ps.drop_last(), id) + if ps.last() == id { 1nat } else { 0nat }
    }
}

/// The children of `id`, each node once per time it lists `id` as a parent.
pub open spec fn kids(ns: Seq<NodeV>, id: Seq<char>) -> Seq<Seq<char>>
    decreases ns.len(),
{
    if ns.len() == 0 {
        Seq::empty()
    } else {
        kids(ns.drop_last(), id) + Seq::new(count_in(ns.last().parents, id), |i: int| ns.last().id)
    }
}

/// The nodes without parents.
pub open spec fn root_ids(ns: Seq<NodeV>) -> Seq<Seq<char>>
    decreases ns.len(),
{
    if ns.len() == 0 {
        Seq::empty()
    } else {
        root_ids(ns.drop_last()) + if ns.last().parents.len() == 0 { seq![ns.last().id] } else { Seq::empty() }
    }
}

pub open spec fn connector_text(prefix: Seq<char>, is_last: bool) -> Seq<char> {
    if prefix.len() == 0 {
        ""@
    } else if is_last {
        "\u{2514}\u{2500}\u{2500} "@
    } else {
        "\u{251c}\u{2500}\u{2500} "@
    }
}

pub open spec fn marker_text(id: Seq<char>, cur: Option<Seq<char>>) -> Seq<char> {
    if cur == Some(id) { "*"@ } else { " "@ }
}

pub open spec fn child_prefix(prefix: Seq<char>, is_last: bool) -> Seq<char> {
    if prefix.len() == 0 {
        Seq::empty()
    } else if is_last {
        prefix + "    "@
    } else {
        prefix + "\u{2502}   "@
    }
}

/// The line of a node: `<prefix><connector><id> <marker> [<type>] - <text>`.
pub open spec fn node_line(prefix: Seq<char>, is_last: bool, n: NodeV, cur: Option<Seq<char>>, short: Seq<char>) -> Seq<char> {
    prefix + connector_text(prefix, is_last) + n.id + " "@ + marker_text(n.id, cur) + " ["@ + n.node_type
        + "] - "@ + short + "\n"@
}

/// Drawing the node `id` and, below it, its children, each node once:
/// the text drawn, the nodes drawn so far, and whether every text could be
/// cut. At most `fuel` levels are drawn.
pub open spec fn draw_node(
    ns: Seq<NodeV>,
    cur: Option<Seq<char>>,
    id: Seq<char>,
    prefix: Seq<char>,
    is_last: bool,
    seen: Seq<Seq<char>>,
    fuel: nat,
) -> (Seq<char>, Seq<Seq<char>>, bool)
    decreases fuel, 0nat, 0nat,
{
    if fuel == 0 || seen.contains(id) || !has_id(ns, id) {
        (Seq::empty(), seen, true)
    } else {
        let n = ns[index_of_id(ns, id)];
        match short_text(n.text) {
            None => (Seq::empty(), seen, false),
            Some(short) => {
                let cs = kids(ns, id).sort_by(lex_leq());
                let (body, seen2, ok) = draw_list(
                    ns,
                    cur,
                    cs,
                    cs.len() as nat,
                    child_prefix(prefix, is_last),
                    seen.push(id),
                    (fuel - 1) as nat,
                );
                (node_line(prefix, is_last, n, cur, short) + body, seen2, ok)
            },
        }
    }
}

/// Drawing the first `k` of the nodes `cs`, the last of `cs` closing the
/// level.
pub open spec fn draw_list(
    ns: Seq<NodeV>,
    cur: Option<Seq<char>>,
    cs: Seq<Seq<char>>,
    k: nat,
    prefix: Seq<char>,
    seen: Seq<Seq<char>>,
    fuel: nat,
) -> (Seq<char>, Seq<Seq<char>>, bool)
    decreases fuel, 1nat, k,
{
    if k == 0 || k > cs.len() {
        (Seq::empty(), seen, true)
    } else {
        let (a, seen1, ok1) = draw_list(ns, cur, cs, (k - 1) as nat, prefix, seen, fuel);
        if !ok1 {
            (a, seen1, false)
        } else {
            let (b, seen2, ok2) = draw_node(ns, cur, cs[k - 1], prefix, k - 1 == cs.len() - 1, seen1, fuel);
            (a + b, seen2, ok2)
        }
    }
}

/// The whole tree: every root in name order, each subtree below it.
/// `None` when a node's text cannot be cut at 40 bytes.
pub open spec fn tree_text(ns: Seq<NodeV>, cur: Option<Seq<char>>) -> Option<Seq<char>> {
    let roots = root_ids(ns).sort_by(lex_leq());
    let (out, _, ok) = draw_list(ns, cur, roots, roots.len() as nat, Seq::empty(), Seq::empty(), ns.len() + 1);
    if ok { Some(out) } else { None }
}

/// What the drawn-nodes list keeps: no id twice, and only ids of nodes.
pub open spec fn drawn_ok(ns: Seq<NodeV>, seen: Seq<Seq<char>>) -> bool {
    &&& seen.no_duplicates()
    &&& forall|i: int| 0 <= i < seen.len() ==> has_id(ns, #[trigger] seen[i])
}

proof fn lemma_draw_node_once(
    ns: Seq<NodeV>,
    cur: Option<Seq<char>>,
    id: Seq<char>,
    prefix: Seq<char>,
    is_last: bool,
    seen: Seq<Seq<char>>,
    fuel: nat,
)
    requires
        drawn_ok(ns, seen),
    ensures
        drawn_ok(ns, draw_node(ns, cur, id, prefix, is_last, seen, fuel).1),
    decreases fuel, 0nat, 0nat,
{
    if !(fuel == 0 || seen.contains(id) || !has_id(ns, id)) {
        let n = ns[index_of_id(ns, id)];
        if let Some(short) = short_text(n.text) {
            let cs = kids(ns, id).sort_by(lex_leq());
            let s2 = seen.push(id);
            assert(drawn_ok(ns, s2)) by {
                assert forall|a: int, b: int| 0 <= a < s2.len() && 0 <= b < s2.len() && a != b implies s2[a]
                    != s2[b] by {
                    if a < seen.len() && b < seen.len() {
                        assert(s2[a] == seen[a] && s2[b] == seen[b]);
                    } else if a < seen.len() {
                        assert(s2[a] == seen[a]);
                        assert(seen.contains(seen[a]));
                    } else if b < seen.len() {
                        assert(s2[b] == seen[b]);
                        assert(seen.contains(seen[b]));
                    }
                }
                assert forall|i: int| 0 <= i < s2.len() implies has_id(ns, #[trigger] s2[i]) by {
                    if i < seen.len() {
                        assert(s2[i] == seen[i]);
                    }
                }
            }
            lemma_draw_list_once(ns, cur, cs, cs.len() as nat, child_prefix(prefix, is_last), s2, (fuel - 1) as nat);
        }
    }
}

proof fn lemma_draw_list_once(
    ns: Seq<NodeV>,
    cur: Option<Seq<char>>,
    cs: Seq<Seq<char>>,
    k: nat,
    prefix: Seq<char>,
    seen: Seq<Seq<char>>,
    fuel: nat,
)
    requires
        drawn_ok(ns, seen),
    ensures
        drawn_ok(ns, draw_list(ns, cur, cs, k, prefix, seen, fuel).1),
    decreases fuel, 1nat, k,
{
    if !(k == 0 || k > cs.len()) {
        lemma_draw_list_once(ns, cur, cs, (k - 1) as nat, prefix, seen, fuel);
        let (a, seen1, ok1) = draw_list(ns, cur, cs, (k - 1) as nat, prefix, seen, fuel);
        if ok1 {
            lemma_draw_node_once(ns, cur, cs[k - 1], prefix, k - 1 == cs.len() - 1, seen1, fuel);
        }
    }
}

/// `/tree` draws every node at most once, and only nodes of the graph: the
/// nodes drawn, in drawing order, hold no id twice.
pub proof fn law_tree_draws_each_node_once(ns: Seq<NodeV>, cur: Option<Seq<char>>)
    ensures
        ({
            let roots = root_ids(ns).sort_by(lex_leq());
            drawn_ok(ns, draw_list(ns, cur, roots, roots.len() as nat, Seq::empty(), Seq::empty(), ns.len() + 1).1)
        }),
{
    let roots = root_ids(ns).sort_by(lex_leq());
    lemma_draw_list_once(ns, cur, roots, roots.len() as nat, Seq::empty(), Seq::empty(), ns.len() + 1);
}

fn kids_of(dag: &Dag, id: &str) -> (r: Vec<String>)
    ensures
        views(r@) == kids(dag@.nodes, id@).sort_by(lex_leq()),
{
    let nodes = dag.nodes();
    let ghost ns = nodes_view(nodes@);
    let mut out: Vec<String> = Vec::new();
    let mut i: usize = 0;
    assert(ns.take(0) =~= Seq::<NodeV>::empty());
    while i < nodes.len()
        invariant
            i <= nodes@.len(),
            ns == nodes_view(nodes@),
            ns == dag@.nodes,
            views(out@) == kids(ns.take(i as int), id@),
        decreases nodes.len() - i,
    {
        let n = &nodes[i];
        let ghost base = views(out@);
        let ghost pv = views(n.parent_ids@);
        let mut j: usize = 0;
        assert(pv.take(0) =~= Seq::<Seq<char>>::empty());
        assert(Seq::new(count_in(pv.take(0), id@), |q: int| n.id@) =~= Seq::<Seq<char>>::empty());
        while j < n.parent_ids.len()
            invariant
                j <= n.parent_ids@.len(),
                pv == views(n.parent_ids@),
                views(out@) == base + Seq::new(count_in(pv.take(j as int), id@), |q: int| n.id@),
            decreases n.parent_ids.len() - j,
        {
            let ghost before = views(out@);
            assert(pv.take(j + 1).drop_last() =~= pv.take(j as int));
            assert(pv.take(j + 1).last() == n.parent_ids@[j as int]@);
            if str_eq(n.parent_ids[j].as_str(), id) {
                out.push(n.id.clone());
                assert(views(out@) =~= before.push(n.id@));
                assert(Seq::new(count_in(pv.take(j + 1), id@), |q: int| n.id@) =~= Seq::new(
                    count_in(pv.take(j as int), id@),
                    |q: int| n.id@,
                ).push(n.id@));
                assert(views(out@) =~= base + Seq::new(count_in(pv.take(j + 1), id@), |q: int| n.id@));
            } else {
                assert(views(out@) =~= base + Seq::new(count_in(pv.take(j + 1), id@), |q: int| n.id@));
            }
            j = j + 1;
        }
        proof {
            assert(pv.take(pv.len() as int) =~= pv);
            let t = ns.take(i + 1);
            assert(t.drop_last() =~= ns.take(i as int));
            assert(t.last() == n@);
        }
        i = i + 1;
    }
    assert(ns.take(nodes@.len() as int) =~= ns);
    sort_strings(out)
}

fn roots_of(dag: &Dag) -> (r: Vec<String>)
    ensures
        views(r@) == root_ids(dag@.nodes).sort_by(lex_leq()),
{
    let nodes = dag.nodes();
    let ghost ns = nodes_view(nodes@);
    let mut out: Vec<String> = Vec::new();
    let mut i: usize = 0;
    assert(ns.take(0) =~= Seq::<NodeV>::empty());
    while i < nodes.len()
        invariant
            i <= nodes@.len(),
            ns == nodes_view(nodes@),
            views(out@) == root_ids(ns.take(i as int)),
        decreases nodes.len() - i,
    {
        let ghost before = views(out@);
        proof {
            let t = ns.take(i + 1);
            assert(t.drop_last() =~= ns.take(i as int));
            assert(t.last() == nodes@[i as int]@);
        }
        if nodes[i].parent_ids.len() == 0 {
            out.push(nodes[i].id.clone());
            assert(views(out@) =~= before.push(nodes@[i as int].id@));
        } else {
            assert(views(out@) =~= before + Seq::<Seq<char>>::empty());
        }
        i = i + 1;
    }
    assert(ns.take(nodes@.len() as int) =~= ns);
    sort_strings(out)
}

fn seen_contains(seen: &Vec<String>, id: &str) -> (r: bool)
    ensures
        r == views(seen@).contains(id@),
{
    crate::dag::contains_string(seen, id)
}

fn draw_node_exec(
    dag: &Dag,
    id: &str,
    prefix: &str,
    is_last: bool,
    seen: &mut Vec<String>,
    out: &mut Vec<char>,
    fuel: usize,
) -> (ok: bool)
    ensures
        ({
            let (text, seen2, good) = draw_node(dag@.nodes, dag@.current, id@, prefix@, is_last, views(old(seen)@), fuel as nat);
            final(out)@ == old(out)@ + text && views(final(seen)@) == seen2 && ok == good
        }),
    decreases fuel, 0nat, 0nat,
{
    if fuel == 0 || seen_contains(seen, id) {
        return true;
    }
    let node = match dag.node(id) {
        Some(n) => n,
        None => {
            return true;
        },
    };
    let short = match format_node_text(node.text.as_str()) {
        Some(s) => s,
        None => {
            return false;
        },
    };
    let ghost before_seen = views(seen@);
    seen.push(owned(id));
    assert(views(seen@) =~= before_seen.push(id@));
    let cur = dag.current_node_id();
    let (marker, connector) = get_node_symbols(id, match cur { Some(c) => Some(c.as_str()), None => None }, prefix, is_last);
    let ghost o = out@;
    proof {
        assert(node@.id == id@);
        assert(connector@ == connector_text(prefix@, is_last));
        assert(marker@ == marker_text(node@.id, dag@.current));
    }
    let mut line: Vec<char> = Vec::new();
    push_str(&mut line, prefix);
    push_str(&mut line, connector.as_str());
    push_str(&mut line, node.id.as_str());
    push_str(&mut line, " ");
    push_str(&mut line, marker.as_str());
    push_str(&mut line, " [");
    push_str(&mut line, node.node_type.as_str());
    push_str(&mut line, "] - ");
    push_str(&mut line, short.as_str());
    push_str(&mut line, "\n");
    proof {
        assert(line@ =~= node_line(prefix@, is_last, node@, dag@.current, short@));
    }
    push_all(out, line.as_slice());
    let cs = kids_of(dag, id);
    let child = if prefix.unicode_len() == 0 {
        String::new()
    } else if is_last {
        let mut b = chars_of(prefix);
        push_str(&mut b, "    ");
        string_of(b.as_slice())
    } else {
        let mut b = chars_of(prefix);
        push_str(&mut b, "\u{2502}   ");
        string_of(b.as_slice())
    };
    proof {
        assert(child@ == child_prefix(prefix@, is_last));
    }
    draw_list_exec(dag, &cs, cs.len(), child.as_str(), seen, out, fuel - 1)
}

fn draw_list_exec(
    dag: &Dag,
    cs: &Vec<String>,
    k: usize,
    prefix: &str,
    seen: &mut Vec<String>,
    out: &mut Vec<char>,
    fuel: usize,
) -> (ok: bool)
    requires
        k <= cs@.len(),
    ensures
        ({
            let (text, seen2, good) = draw_list(dag@.nodes, dag@.current, views(cs@), k as nat, prefix@, views(old(seen)@), fuel as nat);
            final(out)@ == old(out)@ + text && views(final(seen)@) == seen2 && ok == good
        }),
    decreases fuel, 1nat, k,
{
    if k == 0 {
        assert(old(out)@ + Seq::<char>::empty() =~= out@);
        return true;
    }
    let ghost o = out@;
    let ok1 = draw_list_exec(dag, cs, k - 1, prefix, seen, out, fuel);
    if !ok1 {
        return false;
    }
    let ghost mid = out@;
    let ok2 = draw_node_exec(dag, cs[k - 1].as_str(), prefix, k - 1 == cs.len() - 1, seen, out, fuel);
    proof {
        assert(views(cs@)[k - 1] == cs@[k - 1]@);
    }
    ok2
}

/// `/tree`: the graph as an ASCII tree; `None` where a node's text cannot
/// be cut at 40 bytes.
pub fn render_dag_tree(dag: &Dag) -> (r: Option<String>)
    requires
        dag@.nodes.len() < usize::MAX,
    ensures
        match r {
            Some(s) => tree_text(dag@.nodes, dag@.current) == Some(s@),
            None => tree_text(dag@.nodes, dag@.current) is None,
        },
{
    let roots = roots_of(dag);
    let mut seen: Vec<String> = Vec::new();
    let mut out: Vec<char> = Vec::new();
    let fuel = dag.len() + 1;
    assert(views(seen@) =~= Seq::<Seq<char>>::empty());
    let ok = draw_list_exec(dag, &roots, roots.len(), "", &mut seen, &mut out, fuel);
    proof {
        reveal_strlit("");
        assert(""@ =~= Seq::<char>::empty());
        assert(out@ =~= draw_list(dag@.nodes, dag@.current, views(roots@), roots@.len() as nat, Seq::empty(), Seq::empty(), fuel as nat).0);
    }
    if ok {
        Some(string_of(out.as_slice()))
    } else {
        None
    }
}

} // verus!
