//! `/compact`: picks the conversation's messages, asks the context tools
//! which survive, and merges each run of dropped messages into a summary
//! node.
use vstd::prelude::*;
use crate::dag::{Dag, DagV, NodeV, has_id, index_of_id, law_merge_keeps_others, law_merge_shrinks, merge_error, merge_ok, merged_dag};
use crate::json::{Json, JsonNumber, JsonV, NumberV, json_text, to_json_text, view_array, view_object};
use crate::order::views;
use crate::text::{decimal, decimal_text, owned, push_str, str_eq, string_of};

verus! {

/// How many messages the context tools keep by default.
pub const DEFAULT_MAX_HISTORY: u32 = 30;

/// The role a node of type `t` plays in the conversation: the four message
/// types stand for themselves, a merge node is a system message, anything
/// else is no message.
pub open spec fn role_of(t: Seq<char>) -> Option<Seq<char>> {
    if t == "user"@ || t == "assistant"@ || t == "tool"@ || t == "system"@ {
        Some(t)
    } else if t == "merge"@ {
        Some("system"@)
    } else {
        None
    }
}

pub open spec fn first_parent(n: NodeV) -> Option<Seq<char>> {
    if n.parents.len() > 0 {
        Some(n.parents[0])
    } else {
        None
    }
}

/// The messages met walking from `cur` to the root by first parents, tip
/// first, for at most `fuel` nodes: each node with a role and a non-empty
/// text, as (id, role, text).
pub open spec fn walk(ns: Seq<NodeV>, cur: Option<Seq<char>>, fuel: nat) -> Seq<(Seq<char>, Seq<char>, Seq<char>)>
    decreases fuel,
{
    match cur {
        Some(id) => if fuel == 0 || !has_id(ns, id) {
            Seq::empty()
        } else {
            let n = ns[index_of_id(ns, id)];
            let here = match role_of(n.node_type) {
                Some(r) => if n.text.len() > 0 {
                    seq![(id, r, n.text)]
                } else {
                    Seq::empty()
                },
                None => Seq::empty(),
            };
            here + walk(ns, first_parent(n), (fuel - 1) as nat)
        },
        None => Seq::empty(),
    }
}

pub open spec fn triple_views(s: Seq<(String, String, String)>) -> Seq<(Seq<char>, Seq<char>, Seq<char>)> {
    s.map_values(|t: (String, String, String)| (t.0@, t.1@, t.2@))
}

fn role_for(t: &str) -> (r: Option<String>)
    ensures
        match r {
            Some(s) => role_of(t@) == Some(s@),
            None => role_of(t@) is None,
        },
{
    if str_eq(t, "user") || str_eq(t, "assistant") || str_eq(t, "tool") || str_eq(t, "system") {
        Some(owned(t))
    } else if str_eq(t, "merge") {
        Some(owned("system"))
    } else {
        None
    }
}

/// The conversation's messages, root first: walking from the tip to the
/// root by first parents, every node with a role and a non-empty text. The
/// walk visits at most as many nodes as the graph holds, so a chain of
/// parents that loops ends there.
pub fn collect_candidates(dag: &Dag) -> (r: Vec<(String, String, String)>)
    ensures
        triple_views(r@) == walk(dag@.nodes, dag@.current, dag@.nodes.len()).reverse(),
{
    let ghost ns = dag@.nodes;
    let ghost total = walk(ns, dag@.current, ns.len());
    let mut acc: Vec<(String, String, String)> = Vec::new();
    let mut cur: Option<String> = match dag.current_node_id() {
        Some(c) => Some(c.clone()),
        None => None,
    };
    let mut fuel: usize = dag.len();
    proof {
        assert(triple_views(acc@) =~= Seq::empty());
        assert(total =~= triple_views(acc@) + walk(ns, crate::dag::opt_view(cur), fuel as nat));
    }
    while fuel > 0
        invariant
            ns == dag@.nodes,
            total == walk(ns, dag@.current, ns.len()),
            total == triple_views(acc@) + walk(ns, crate::dag::opt_view(cur), fuel as nat),
        ensures
            total == triple_views(acc@) + walk(ns, crate::dag::opt_view(cur), fuel as nat),
            walk(ns, crate::dag::opt_view(cur), fuel as nat) == Seq::<(Seq<char>, Seq<char>, Seq<char>)>::empty(),
        decreases fuel,
    {
        let id = match &cur {
            Some(c) => c.clone(),
            None => {
                assert(walk(ns, crate::dag::opt_view(cur), fuel as nat) =~= Seq::empty());
                break;
            },
        };
        let node = match dag.node(id.as_str()) {
            Some(n) => n,
            None => {
                assert(walk(ns, crate::dag::opt_view(cur), fuel as nat) =~= Seq::empty());
                break;
            },
        };
        let ghost before = triple_views(acc@);
        let ghost nv = node@;
        match role_for(node.node_type.as_str()) {
            Some(role) => {
                if node.text.unicode_len() > 0 {
                    acc.push((id.clone(), role, node.text.clone()));
                    assert(triple_views(acc@) =~= before + seq![(id@, role_of(nv.node_type)->0, nv.text)]);
                } else {
                    assert(triple_views(acc@) =~= before + Seq::empty());
                }
            },
            None => {
                assert(triple_views(acc@) =~= before + Seq::empty());
            },
        }
        cur = if node.parent_ids.len() > 0 {
            Some(node.parent_ids[0].clone())
        } else {
            None
        };
        proof {
            if nv.parents.len() > 0 {
                assert(nv.parents[0] == node.parent_ids@[0]@);
            }
            assert(crate::dag::opt_view(cur) == first_parent(nv));
        }
        fuel = fuel - 1;
    }
    proof {
        assert(total =~= triple_views(acc@));
    }
    let mut out: Vec<(String, String, String)> = Vec::new();
    let mut i: usize = acc.len();
    while i > 0
        invariant
            i <= acc@.len(),
            out@.len() == acc@.len() - i,
            forall|j: int| 0 <= j < out@.len() ==> (#[trigger] out@[j]).0@ == acc@[acc@.len() - 1 - j].0@
                && out@[j].1@ == acc@[acc@.len() - 1 - j].1@ && out@[j].2@ == acc@[acc@.len() - 1 - j].2@,
        decreases i,
    {
        i = i - 1;
        let t = (acc[i].0.clone(), acc[i].1.clone(), acc[i].2.clone());
        out.push(t);
    }
    proof {
        assert(triple_views(out@) =~= triple_views(acc@).reverse());
    }
    out
}


/// The runs of consecutive dropped ids so far and the run still open.
pub open spec fn runs_acc(ids: Seq<Seq<char>>, surviving: Seq<Seq<char>>) -> (Seq<Seq<Seq<char>>>, Seq<Seq<char>>)
    decreases ids.len(),
{
    if ids.len() == 0 {
        (Seq::empty(), Seq::empty())
    } else {
        let (rs, cur) = runs_acc(ids.drop_last(), surviving);
        let x = ids.last();
        if surviving.contains(x) {
            if cur.len() > 0 {
                (rs.push(cur), Seq::empty())
            } else {
                (rs, Seq::empty())
            }
        } else {
            (rs, cur.push(x))
        }
    }
}

/// The maximal runs of consecutive ids (in conversation order) that did not
/// survive.
pub open spec fn dropped_runs(ids: Seq<Seq<char>>, surviving: Seq<Seq<char>>) -> Seq<Seq<Seq<char>>> {
    let (rs, cur) = runs_acc(ids, surviving);
    if cur.len() > 0 {
        rs.push(cur)
    } else {
        rs
    }
}

/// The runs worth merging: those of two nodes or more.
pub open spec fn mergeable(runs: Seq<Seq<Seq<char>>>) -> Seq<Seq<Seq<char>>> {
    runs.filter(|r: Seq<Seq<char>>| r.len() >= 2)
}

pub open spec fn total_len(runs: Seq<Seq<Seq<char>>>) -> nat
    decreases runs.len(),
{
    if runs.len() == 0 {
        0
    } else {
        total_len(runs.drop_last()) + runs.last().len()
    }
}

/// The graph after merging each run in turn, or `None` if one of the
/// merges is refused.
pub open spec fn apply_merges(d: DagV, runs: Seq<Seq<Seq<char>>>, summary: Seq<char>) -> Option<DagV>
    decreases runs.len(),
{
    if runs.len() == 0 {
        Some(d)
    } else {
        match apply_merges(d, runs.drop_last(), summary) {
            Some(d1) => if merge_ok(d1.nodes, runs.last()) {
                Some(merged_dag(d1, runs.last(), summary))
            } else {
                None
            },
            None => None,
        }
    }
}

pub open spec fn first_of(c: Seq<(Seq<char>, Seq<char>, Seq<char>)>) -> Seq<Seq<char>> {
    c.map_values(|t: (Seq<char>, Seq<char>, Seq<char>)| t.0)
}

pub open spec fn nested_views(s: Seq<Vec<String>>) -> Seq<Seq<Seq<char>>> {
    s.map_values(|v: Vec<String>| views(v@))
}

fn contains_id(s: &Vec<String>, x: &str) -> (r: bool)
    ensures
        r == views(s@).contains(x@),
{
    crate::dag::contains_string(s, x)
}

/// The runs of dropped candidates worth merging, as [`mergeable`] says,
/// with their number bounded by the number of candidates.
fn mergeable_runs(candidates: &[(String, String, String)], surviving: &Vec<String>) -> (r: Vec<Vec<String>>)
    ensures
        nested_views(r@) == mergeable(dropped_runs(first_of(triple_views(candidates@)), views(surviving@))),
        r@.len() <= candidates@.len(),
        total_len(nested_views(r@)) <= candidates@.len(),
{
    let ghost ids = first_of(triple_views(candidates@));
    let ghost sv = views(surviving@);
    let mut runs: Vec<Vec<String>> = Vec::new();
    let mut cur: Vec<String> = Vec::new();
    let mut i: usize = 0;
    proof {
        assert(ids.subrange(0, 0) =~= Seq::<Seq<char>>::empty());
        assert(nested_views(runs@) =~= Seq::<Seq<Seq<char>>>::empty());
        assert(views(cur@) =~= Seq::<Seq<char>>::empty());
    }
    while i < candidates.len()
        invariant
            i <= candidates@.len(),
            ids == first_of(triple_views(candidates@)),
            sv == views(surviving@),
            (nested_views(runs@), views(cur@)) == runs_acc(ids.subrange(0, i as int), sv),
            runs@.len() + (if cur@.len() > 0 { 1int } else { 0int }) <= i,
            total_len(nested_views(runs@)) + cur@.len() <= i,
        decreases candidates.len() - i,
    {
        let ghost t = ids.subrange(0, i + 1);
        proof {
            assert(t.drop_last() =~= ids.subrange(0, i as int));
            assert(t.last() == candidates@[i as int].0@);
        }
        let id = &candidates[i].0;
        if contains_id(surviving, id.as_str()) {
            if cur.len() > 0 {
                let mut done: Vec<String> = Vec::new();
                std::mem::swap(&mut done, &mut cur);
                let ghost before = nested_views(runs@);
                runs.push(done);
                proof {
                    assert(nested_views(runs@) =~= before.push(views(runs@.last()@)));
                    assert(nested_views(runs@).drop_last() =~= before);
                    assert(views(cur@) =~= Seq::<Seq<char>>::empty());
                }
            } else {
                assert(views(cur@) =~= Seq::<Seq<char>>::empty());
            }
        } else {
            let ghost before = views(cur@);
            cur.push(id.clone());
            assert(views(cur@) =~= before.push(id@));
        }
        i = i + 1;
    }
    proof {
        assert(ids.subrange(0, candidates@.len() as int) =~= ids);
    }
    if cur.len() > 0 {
        let ghost before = nested_views(runs@);
        runs.push(cur);
        proof {
            assert(nested_views(runs@) =~= before.push(views(runs@.last()@)));
            assert(nested_views(runs@).drop_last() =~= before);
        }
    }
    let ghost all = nested_views(runs@);
    let mut out: Vec<Vec<String>> = Vec::new();
    let mut k: usize = 0;
    proof {
        reveal(Seq::filter);
        assert(all.subrange(0, 0) =~= Seq::<Seq<Seq<char>>>::empty());
        assert(nested_views(out@) =~= Seq::<Seq<Seq<char>>>::empty());
    }
    while k < runs.len()
        invariant
            k <= runs@.len(),
            all == nested_views(runs@),
            nested_views(out@) == mergeable(all.subrange(0, k as int)),
            out@.len() <= k,
            total_len(nested_views(out@)) <= total_len(all.subrange(0, k as int)),
        decreases runs.len() - k,
    {
        let ghost t = all.subrange(0, k + 1);
        let ghost before = nested_views(out@);
        proof {
            reveal(Seq::filter);
            assert(t.drop_last() =~= all.subrange(0, k as int));
            assert(t.last() == views(runs@[k as int]@));
        }
        if runs[k].len() >= 2 {
            out.push(crate::dag::copy_strings(&runs[k]));
            proof {
                assert(nested_views(out@) =~= before.push(views(runs@[k as int]@)));
                assert(nested_views(out@).drop_last() =~= before);
            }
        }
        k = k + 1;
    }
    proof {
        assert(all.subrange(0, runs@.len() as int) =~= all);
    }
    out
}

/// The first run whose merge is refused.
pub open spec fn refused_at(d: DagV, runs: Seq<Seq<Seq<char>>>, text: Seq<char>) -> int {
    choose|k: int|
        0 <= k < runs.len() && (#[trigger] apply_merges(d, runs.subrange(0, k), text)) is Some && apply_merges(
            d,
            runs.subrange(0, k + 1),
            text,
        ) is None
}

/// The graph when a merge is refused: every run before it merged.
pub open spec fn refused_state(d: DagV, runs: Seq<Seq<Seq<char>>>, text: Seq<char>) -> DagV {
    apply_merges(d, runs.subrange(0, refused_at(d, runs, text)), text)->0
}

/// What a refused merge is answered: the merge's own error.
pub open spec fn refused_message(d: DagV, runs: Seq<Seq<Seq<char>>>, text: Seq<char>) -> Seq<char> {
    "\u{1b}[1;31mFailed to persist compaction: "@ + merge_error(
        refused_state(d, runs, text).nodes,
        runs[refused_at(d, runs, text)],
    ) + "\u{1b}[0m"@
}

proof fn lemma_refused_at(d: DagV, runs: Seq<Seq<Seq<char>>>, text: Seq<char>, k: int)
    requires
        0 <= k < runs.len(),
        apply_merges(d, runs.subrange(0, k), text) is Some,
        apply_merges(d, runs.subrange(0, k + 1), text) is None,
    ensures
        refused_at(d, runs, text) == k,
{
    let k2 = refused_at(d, runs, text);
    assert(0 <= k2 < runs.len() && apply_merges(d, runs.subrange(0, k2), text) is Some && apply_merges(
        d,
        runs.subrange(0, k2 + 1),
        text,
    ) is None);
    if k2 < k {
        let rs = runs.subrange(0, k);
        assert(rs.subrange(0, k2 + 1) =~= runs.subrange(0, k2 + 1));
        lemma_apply_merges_fails(d, rs, text, k2 + 1);
    }
    if k2 > k {
        let rs = runs.subrange(0, k2);
        assert(rs.subrange(0, k + 1) =~= runs.subrange(0, k + 1));
        lemma_apply_merges_fails(d, rs, text, k + 1);
    }
}

/// Merges each run of dropped candidates worth merging (two nodes or more)
/// into a node holding `[Compacted summary] <summary>`, in conversation
/// order, and says what was done.
pub fn persist_compaction(
    dag: &mut Dag,
    candidates: &[(String, String, String)],
    surviving: &Vec<String>,
    summary: &str,
) -> (r: String)
    requires
        old(dag)@.next_id + candidates@.len() < u64::MAX,
    ensures
        ({
            let runs = mergeable(dropped_runs(first_of(triple_views(candidates@)), views(surviving@)));
            let text = "[Compacted summary] "@ + summary@;
            if runs.len() == 0 {
                r@ == "\u{1b}[33mNothing worth compacting: "@ + summary@ + "\u{1b}[0m"@ && final(dag)@
                    == old(dag)@
            } else {
                match apply_merges(old(dag)@, runs, text) {
                    Some(d) => final(dag)@ == d && r@ == "\u{1b}[32mCompacted "@ + decimal(total_len(runs))
                        + " message(s) into "@ + decimal(runs.len()) + " summary node(s). "@ + summary@
                        + "\u{1b}[0m"@,
                    None => final(dag)@ == refused_state(old(dag)@, runs, text) && r@ == refused_message(
                        old(dag)@,
                        runs,
                        text,
                    ),
                }
            }
        }),
{
    let runs = mergeable_runs(candidates, surviving);
    let ghost rv = nested_views(runs@);
    if runs.len() == 0 {
        let mut b: Vec<char> = Vec::new();
        push_str(&mut b, "\u{1b}[33mNothing worth compacting: ");
        push_str(&mut b, summary);
        push_str(&mut b, "\u{1b}[0m");
        return string_of(b.as_slice());
    }
    let mut tb: Vec<char> = Vec::new();
    push_str(&mut tb, "[Compacted summary] ");
    push_str(&mut tb, summary);
    let text = string_of(tb.as_slice());
    let ghost d0 = dag@;
    let cand_len = candidates.len();
    let mut merged: usize = 0;
    let mut k: usize = 0;
    while k < runs.len()
        invariant
            k <= runs@.len(),
            rv == nested_views(runs@),
            runs@.len() <= candidates@.len(),
            total_len(rv) <= candidates@.len(),
            d0.next_id + candidates@.len() < u64::MAX,
            d0 == old(dag)@,
            runs@.len() > 0,
            rv == mergeable(dropped_runs(first_of(triple_views(candidates@)), views(surviving@))),
            cand_len == candidates@.len(),
            text@ == "[Compacted summary] "@ + summary@,
            apply_merges(d0, rv.subrange(0, k as int), text@) == Some(dag@),
            dag@.next_id == d0.next_id + k,
            merged == total_len(rv.subrange(0, k as int)),
            total_len(rv.subrange(0, k as int)) <= total_len(rv),
        decreases runs.len() - k,
    {
        let ghost before = dag@;
        proof {
            let t = rv.subrange(0, k + 1);
            assert(t.drop_last() =~= rv.subrange(0, k as int));
            assert(t.last() == views(runs@[k as int]@));
            assert(rv.subrange(0, k + 1) =~= rv.subrange(0, k as int).push(rv[k as int]));
            lemma_total_len_prefix(rv, k as int + 1);
        }
        match dag.merge_nodes(runs[k].as_slice(), text.as_str()) {
            Ok(_) => {
                proof {
                    assert(apply_merges(d0, rv.subrange(0, k + 1), text@) == Some(dag@));
                    assert(total_len(rv.subrange(0, k + 1)) == total_len(rv.subrange(0, k as int)) + runs@[k as int]@.len());
                }
                merged = merged + runs[k].len();
            },
            Err(e) => {
                let mut b: Vec<char> = Vec::new();
                push_str(&mut b, "\u{1b}[1;31mFailed to persist compaction: ");
                push_str(&mut b, e.as_str());
                push_str(&mut b, "\u{1b}[0m");
                proof {
                    assert(apply_merges(d0, rv.subrange(0, k + 1), text@) is None);
                    lemma_apply_merges_fails(d0, rv, text@, k as int + 1);
                    lemma_refused_at(d0, rv, text@, k as int);
                    assert(rv[k as int] == views(runs@[k as int]@));
                }
                let r = string_of(b.as_slice());
                return r;
            },
        }
        k = k + 1;
    }
    proof {
        assert(rv.subrange(0, runs@.len() as int) =~= rv);
    }
    let mut b: Vec<char> = Vec::new();
    push_str(&mut b, "\u{1b}[32mCompacted ");
    let c = decimal_text(merged as u128);
    push_str(&mut b, c.as_str());
    push_str(&mut b, " message(s) into ");
    let n = decimal_text(runs.len() as u128);
    push_str(&mut b, n.as_str());
    push_str(&mut b, " summary node(s). ");
    push_str(&mut b, summary);
    push_str(&mut b, "\u{1b}[0m");
    string_of(b.as_slice())
}

proof fn lemma_total_len_prefix(rs: Seq<Seq<Seq<char>>>, k: int)
    requires
        0 <= k <= rs.len(),
    ensures
        total_len(rs.subrange(0, k)) <= total_len(rs),
    decreases rs.len() - k,
{
    if k < rs.len() {
        lemma_total_len_prefix(rs, k + 1);
        assert(rs.subrange(0, k + 1).drop_last() =~= rs.subrange(0, k));
    } else {
        assert(rs.subrange(0, k) =~= rs);
    }
}

proof fn lemma_apply_merges_fails(d: DagV, rs: Seq<Seq<Seq<char>>>, s: Seq<char>, k: int)
    requires
        0 <= k <= rs.len(),
        apply_merges(d, rs.subrange(0, k), s) is None,
    ensures
        apply_merges(d, rs, s) is None,
    decreases rs.len() - k,
{
    if k < rs.len() {
        assert(rs.subrange(0, k + 1).drop_last() =~= rs.subrange(0, k));
        lemma_apply_merges_fails(d, rs, s, k + 1);
    } else {
        assert(rs.subrange(0, k) =~= rs);
    }
}


/// What every run holds: ids of `ids` that did not survive, each once when
/// `ids` has no repeats.
pub open spec fn run_ok(r: Seq<Seq<char>>, ids: Seq<Seq<char>>, surviving: Seq<Seq<char>>) -> bool {
    &&& forall|i: int| 0 <= i < r.len() ==> !surviving.contains(#[trigger] r[i]) && ids.contains(r[i])
    &&& ids.no_duplicates() ==> r.no_duplicates()
}

proof fn lemma_runs_acc(ids: Seq<Seq<char>>, surviving: Seq<Seq<char>>)
    ensures
        forall|k: int| 0 <= k < runs_acc(ids, surviving).0.len() ==> run_ok(
            #[trigger] runs_acc(ids, surviving).0[k],
            ids,
            surviving,
        ),
        run_ok(runs_acc(ids, surviving).1, ids, surviving),
    decreases ids.len(),
{
    if ids.len() > 0 {
        let pre = ids.drop_last();
        let x = ids.last();
        lemma_runs_acc(pre, surviving);
        let (rs, cur) = runs_acc(pre, surviving);
        assert forall|r: Seq<Seq<char>>| run_ok(r, pre, surviving) implies run_ok(r, ids, surviving) by {
            assert forall|i: int| 0 <= i < r.len() implies !surviving.contains(#[trigger] r[i]) && ids.contains(
                r[i],
            ) by {
                let j = choose|j: int| 0 <= j < pre.len() && pre[j] == r[i];
                assert(ids[j] == r[i]);
            }
            if ids.no_duplicates() {
                assert(pre.no_duplicates()) by {
                    assert forall|a: int, b: int| 0 <= a < pre.len() && 0 <= b < pre.len() && a != b implies pre[a]
                        != pre[b] by {
                        assert(pre[a] == ids[a] && pre[b] == ids[b]);
                    }
                }
            }
        }
        if !surviving.contains(x) {
            let c2 = cur.push(x);
            assert forall|i: int| 0 <= i < c2.len() implies !surviving.contains(#[trigger] c2[i]) && ids.contains(
                c2[i],
            ) by {
                if i < cur.len() {
                    assert(c2[i] == cur[i]);
                    let j = choose|j: int| 0 <= j < pre.len() && pre[j] == cur[i];
                    assert(ids[j] == cur[i]);
                } else {
                    assert(ids[ids.len() - 1] == x);
                }
            }
            if ids.no_duplicates() {
                assert(pre.no_duplicates()) by {
                    assert forall|a: int, b: int| 0 <= a < pre.len() && 0 <= b < pre.len() && a != b implies pre[a]
                        != pre[b] by {
                        assert(pre[a] == ids[a] && pre[b] == ids[b]);
                    }
                }
                assert forall|a: int, b: int| 0 <= a < c2.len() && 0 <= b < c2.len() && a != b implies c2[a]
                    != c2[b] by {
                    if a < cur.len() && b < cur.len() {
                        assert(c2[a] == cur[a] && c2[b] == cur[b]);
                    } else if a < cur.len() {
                        assert(c2[a] == cur[a]);
                        let j = choose|j: int| 0 <= j < pre.len() && pre[j] == cur[a];
                        assert(ids[j] == pre[j]);
                        assert(j != ids.len() - 1);
                    } else if b < cur.len() {
                        assert(c2[b] == cur[b]);
                        let j = choose|j: int| 0 <= j < pre.len() && pre[j] == cur[b];
                        assert(ids[j] == pre[j]);
                        assert(j != ids.len() - 1);
                    }
                }
            }
        } else if cur.len() > 0 {
            let r2 = rs.push(cur);
            assert forall|k: int| 0 <= k < r2.len() implies run_ok(#[trigger] r2[k], ids, surviving) by {
                if k < rs.len() {
                    assert(r2[k] == rs[k]);
                }
            }
            assert(run_ok(Seq::<Seq<char>>::empty(), ids, surviving));
        } else {
            assert(run_ok(Seq::<Seq<char>>::empty(), ids, surviving));
        }
    }
}

proof fn lemma_mergeable_runs(ids: Seq<Seq<char>>, surviving: Seq<Seq<char>>)
    ensures
        forall|k: int| 0 <= k < mergeable(dropped_runs(ids, surviving)).len() ==> run_ok(
            #[trigger] mergeable(dropped_runs(ids, surviving))[k],
            ids,
            surviving,
        ) && mergeable(dropped_runs(ids, surviving))[k].len() >= 2,
{
    lemma_runs_acc(ids, surviving);
    let (rs, cur) = runs_acc(ids, surviving);
    let d = dropped_runs(ids, surviving);
    assert forall|k: int| 0 <= k < d.len() implies run_ok(#[trigger] d[k], ids, surviving) by {
        if cur.len() > 0 && k == rs.len() {
            assert(d[k] == cur);
        } else {
            assert(d[k] == rs[k]);
        }
    }
    let pred = |r: Seq<Seq<char>>| r.len() >= 2;
    let m = mergeable(d);
    assert forall|k: int| 0 <= k < m.len() implies run_ok(#[trigger] m[k], ids, surviving) && m[k].len() >= 2 by {
        d.lemma_filter_pred(pred, k);
        assert(m.contains(m[k]));
        d.lemma_filter_contains_rev(pred, m[k]);
        let j = choose|j: int| 0 <= j < d.len() && d[j] == m[k];
        assert(run_ok(d[j], ids, surviving));
    }
}

proof fn lemma_apply_merges_shrinks(d: DagV, runs: Seq<Seq<Seq<char>>>, summary: Seq<char>)
    requires
        forall|k: int| 0 <= k < runs.len() ==> (#[trigger] runs[k]).len() >= 2 && runs[k].no_duplicates(),
    ensures
        apply_merges(d, runs, summary) matches Some(d2) ==> d2.nodes.len() + runs.len() <= d.nodes.len(),
    decreases runs.len(),
{
    if runs.len() > 0 {
        let pre = runs.drop_last();
        assert forall|k: int| 0 <= k < pre.len() implies (#[trigger] pre[k]).len() >= 2 && pre[k].no_duplicates() by {
            assert(pre[k] == runs[k]);
        }
        lemma_apply_merges_shrinks(d, pre, summary);
        if let Some(d1) = apply_merges(d, pre, summary) {
            if merge_ok(d1.nodes, runs.last()) {
                assert(runs[runs.len() - 1] == runs.last());
                law_merge_shrinks(d1, runs.last(), summary);
            }
        }
    }
}

proof fn lemma_apply_merges_keeps(d: DagV, runs: Seq<Seq<Seq<char>>>, summary: Seq<char>, x: Seq<char>)
    requires
        has_id(d.nodes, x),
        forall|k: int| 0 <= k < runs.len() ==> !(#[trigger] runs[k]).contains(x),
    ensures
        apply_merges(d, runs, summary) matches Some(d2) ==> has_id(d2.nodes, x),
    decreases runs.len(),
{
    if runs.len() > 0 {
        let pre = runs.drop_last();
        assert forall|k: int| 0 <= k < pre.len() implies !(#[trigger] pre[k]).contains(x) by {
            assert(pre[k] == runs[k]);
        }
        lemma_apply_merges_keeps(d, pre, summary, x);
        if let Some(d1) = apply_merges(d, pre, summary) {
            if merge_ok(d1.nodes, runs.last()) {
                assert(runs[runs.len() - 1] == runs.last());
                law_merge_keeps_others(d1, runs.last(), summary, x);
            }
        }
    }
}

/// Persisting a compaction leaves fewer nodes: when the candidates' ids are
/// distinct, each dropped run of two or more is merged into one node, so
/// the graph loses at least one node per run.
pub proof fn law_compaction_shrinks(d: DagV, ids: Seq<Seq<char>>, surviving: Seq<Seq<char>>, summary: Seq<char>)
    requires
        ids.no_duplicates(),
    ensures
        apply_merges(d, mergeable(dropped_runs(ids, surviving)), summary) matches Some(d2) ==> d2.nodes.len()
            + mergeable(dropped_runs(ids, surviving)).len() <= d.nodes.len(),
{
    let m = mergeable(dropped_runs(ids, surviving));
    lemma_mergeable_runs(ids, surviving);
    assert forall|k: int| 0 <= k < m.len() implies (#[trigger] m[k]).len() >= 2 && m[k].no_duplicates() by {
        assert(run_ok(m[k], ids, surviving));
    }
    lemma_apply_merges_shrinks(d, m, summary);
}

/// Persisting a compaction keeps every node the context tools kept, and
/// every node that was not a candidate.
pub proof fn law_compaction_keeps_survivors(
    d: DagV,
    ids: Seq<Seq<char>>,
    surviving: Seq<Seq<char>>,
    summary: Seq<char>,
    x: Seq<char>,
)
    requires
        has_id(d.nodes, x),
        surviving.contains(x) || !ids.contains(x),
    ensures
        apply_merges(d, mergeable(dropped_runs(ids, surviving)), summary) matches Some(d2) ==> has_id(d2.nodes, x),
{
    let m = mergeable(dropped_runs(ids, surviving));
    lemma_mergeable_runs(ids, surviving);
    assert forall|k: int| 0 <= k < m.len() implies !(#[trigger] m[k]).contains(x) by {
        assert(run_ok(m[k], ids, surviving));
        if m[k].contains(x) {
            let i = choose|i: int| 0 <= i < m[k].len() && m[k][i] == x;
            assert(!surviving.contains(m[k][i]) && ids.contains(m[k][i]));
        }
    }
    lemma_apply_merges_keeps(d, m, summary, x);
}


/// One message of a compaction request, as the context tools read it.
pub open spec fn message_json(t: (Seq<char>, Seq<char>, Seq<char>)) -> JsonV {
    JsonV::Object(
        seq![
            ("node_id"@, JsonV::Str(t.0)),
            ("role"@, JsonV::Str(t.1)),
            ("content"@, JsonV::Str(t.2)),
        ],
    )
}

/// The compaction request: the messages, the history bound, and the
/// character budget when one is known.
pub open spec fn request_json(c: Seq<(Seq<char>, Seq<char>, Seq<char>)>, budget: Option<u32>) -> JsonV {
    JsonV::Object(
        seq![
            ("messages"@, JsonV::Array(c.map_values(|t: (Seq<char>, Seq<char>, Seq<char>)| message_json(t)))),
            ("max_history"@, JsonV::Number(NumberV::PosInt(DEFAULT_MAX_HISTORY as u64))),
            ("max_content_chars"@, match budget {
                Some(n) => JsonV::Number(NumberV::PosInt(n as u64)),
                None => JsonV::Null,
            }),
        ],
    )
}

/// The JSON text of the compaction request for `candidates`.
pub fn compaction_request(candidates: &[(String, String, String)], max_content_chars: Option<u32>) -> (r: String)
    ensures
        r@ == json_text(request_json(triple_views(candidates@), max_content_chars)),
{
    let mut items: Vec<Json> = Vec::new();
    let mut i: usize = 0;
    while i < candidates.len()
        invariant
            i <= candidates@.len(),
            items@.len() == i,
            forall|j: int| 0 <= j < i ==> (#[trigger] items@[j])@ == message_json(triple_views(candidates@)[j]),
        decreases candidates.len() - i,
    {
        let mut m: Vec<(String, Json)> = Vec::new();
        m.push((owned("node_id"), Json::Str(candidates[i].0.clone())));
        m.push((owned("role"), Json::Str(candidates[i].1.clone())));
        m.push((owned("content"), Json::Str(candidates[i].2.clone())));
        proof {
            crate::json::lemma_view_object(m@);
            assert(view_object(m@) =~= seq![
                ("node_id"@, JsonV::Str(candidates@[i as int].0@)),
                ("role"@, JsonV::Str(candidates@[i as int].1@)),
                ("content"@, JsonV::Str(candidates@[i as int].2@)),
            ]);
        }
        items.push(Json::Object(m));
        i = i + 1;
    }
    proof {
        crate::json::lemma_view_array(items@);
        assert(view_array(items@) =~= triple_views(candidates@).map_values(
            |t: (Seq<char>, Seq<char>, Seq<char>)| message_json(t),
        ));
    }
    let budget = match max_content_chars {
        Some(n) => Json::Number(JsonNumber::PosInt(n as u64)),
        None => Json::Null,
    };
    let mut top: Vec<(String, Json)> = Vec::new();
    top.push((owned("messages"), Json::Array(items)));
    top.push((owned("max_history"), Json::Number(JsonNumber::PosInt(DEFAULT_MAX_HISTORY as u64))));
    top.push((owned("max_content_chars"), budget));
    proof {
        crate::json::lemma_view_object(top@);
    }
    let v = Json::Object(top);
    proof {
        assert(view_object(top@) =~= request_json(triple_views(candidates@), max_content_chars)->Object_0);
    }
    to_json_text(&v)
}

proof fn lemma_walk_len(ns: Seq<NodeV>, cur: Option<Seq<char>>, fuel: nat)
    ensures
        walk(ns, cur, fuel).len() <= fuel,
    decreases fuel,
{
    if let Some(id) = cur {
        if fuel > 0 && has_id(ns, id) {
            let n = ns[index_of_id(ns, id)];
            lemma_walk_len(ns, first_parent(n), (fuel - 1) as nat);
        }
    }
}

/// What the context tools answered a compaction request.
pub enum CompactReply {
    /// They were busy with another call.
    Busy,
    /// The call failed with this message.
    Failed(String),
    /// The answer did not parse.
    Unparsable,
    /// The node ids of the messages kept (each message may lack one), and
    /// the summary of the rest.
    Parsed { node_ids: Vec<Option<String>>, summary: String },
}

/// What `/compact` does next.
pub enum CompactStep {
    /// Send this request to the context tools' `optimize`.
    Call(String),
    /// Answer this; the command is over.
    Say(String),
}

/// The ids among `ids`, in order.
pub open spec fn present(ids: Seq<Option<String>>) -> Seq<Seq<char>>
    decreases ids.len(),
{
    if ids.len() == 0 {
        Seq::empty()
    } else {
        present(ids.drop_last()) + match ids.last() {
            Some(s) => seq![s@],
            None => Seq::empty(),
        }
    }
}

fn present_ids(ids: &Vec<Option<String>>) -> (r: Vec<String>)
    ensures
        views(r@) == present(ids@),
{
    let mut out: Vec<String> = Vec::new();
    let mut i: usize = 0;
    assert(ids@.take(0) =~= Seq::<Option<String>>::empty());
    while i < ids.len()
        invariant
            i <= ids@.len(),
            views(out@) == present(ids@.take(i as int)),
        decreases ids@.len() - i,
    {
        let ghost before = views(out@);
        proof {
            assert(ids@.take(i + 1).drop_last() =~= ids@.take(i as int));
            assert(ids@.take(i + 1).last() == ids@[i as int]);
        }
        match &ids[i] {
            Some(s) => {
                out.push(s.clone());
                assert(views(out@) =~= before + seq![s@]);
            },
            None => {
                assert(views(out@) =~= before + Seq::<Seq<char>>::empty());
            },
        }
        i = i + 1;
    }
    assert(ids@.take(ids@.len() as int) =~= ids@);
    out
}

/// `/compact`: with two messages or more in the conversation and context
/// tools loaded, asks them to compact the conversation (the request goes
/// out when `reply` is none), then merges what they dropped into summary
/// nodes as [`persist_compaction`] does. Every other outcome is answered
/// with a message and leaves the graph as it was.
pub fn run_compact(dag: &mut Dag, have_context_tools: bool, max_content_chars: Option<u32>, reply: Option<CompactReply>) -> (r: CompactStep)
    requires
        old(dag)@.next_id + old(dag)@.nodes.len() < u64::MAX,
    ensures
        ({
            let c = walk(old(dag)@.nodes, old(dag)@.current, old(dag)@.nodes.len()).reverse();
            if c.len() < 2 {
                r matches CompactStep::Say(m) && m@ == "\u{1b}[33mNothing to compact yet.\u{1b}[0m"@ && final(dag)@
                    == old(dag)@
            } else if !have_context_tools {
                r matches CompactStep::Say(m) && m@
                    == "\u{1b}[1;31mNo extension registered for role \"context-tools\" \u{2014} nothing to compact against.\u{1b}[0m"@
                    && final(dag)@ == old(dag)@
            } else {
                match reply {
                    None => r matches CompactStep::Call(q) && q@ == json_text(request_json(c, max_content_chars))
                        && final(dag)@ == old(dag)@,
                    Some(CompactReply::Busy) => r matches CompactStep::Say(m) && m@
                        == "\u{1b}[1;31mcontext-tools is busy handling another call \u{2014} try again shortly.\u{1b}[0m"@
                        && final(dag)@ == old(dag)@,
                    Some(CompactReply::Failed(e)) => r matches CompactStep::Say(m) && m@
                        == "\u{1b}[1;31mCompaction failed: "@ + e@ + "\u{1b}[0m"@ && final(dag)@ == old(dag)@,
                    Some(CompactReply::Unparsable) => r matches CompactStep::Say(m) && m@
                        == "\u{1b}[1;31mCompaction failed: could not parse context-tools' response.\u{1b}[0m"@
                        && final(dag)@ == old(dag)@,
                    Some(CompactReply::Parsed { node_ids, summary }) => r matches CompactStep::Say(m) && ({
                        let runs = mergeable(dropped_runs(first_of(c), present(node_ids@)));
                        if runs.len() == 0 {
                            m@ == "\u{1b}[33mNothing worth compacting: "@ + summary@ + "\u{1b}[0m"@ && final(dag)@
                                == old(dag)@
                        } else {
                            match apply_merges(old(dag)@, runs, "[Compacted summary] "@ + summary@) {
                                Some(d) => final(dag)@ == d && m@ == "\u{1b}[32mCompacted "@ + decimal(
                                    total_len(runs),
                                ) + " message(s) into "@ + decimal(runs.len()) + " summary node(s). "@ + summary@
                                    + "\u{1b}[0m"@,
                                None => final(dag)@ == refused_state(
                                    old(dag)@,
                                    runs,
                                    "[Compacted summary] "@ + summary@,
                                ) && m@ == refused_message(old(dag)@, runs, "[Compacted summary] "@ + summary@),
                            }
                        }
                    }),
                }
            }
        }),
{
    let candidates = collect_candidates(dag);
    proof {
        lemma_walk_len(dag@.nodes, dag@.current, dag@.nodes.len());
    }
    if candidates.len() < 2 {
        return CompactStep::Say(owned("\u{1b}[33mNothing to compact yet.\u{1b}[0m"));
    }
    if !have_context_tools {
        return CompactStep::Say(
            owned(
                "\u{1b}[1;31mNo extension registered for role \"context-tools\" \u{2014} nothing to compact against.\u{1b}[0m",
            ),
        );
    }
    match reply {
        None => CompactStep::Call(compaction_request(candidates.as_slice(), max_content_chars)),
        Some(CompactReply::Busy) => CompactStep::Say(
            owned("\u{1b}[1;31mcontext-tools is busy handling another call \u{2014} try again shortly.\u{1b}[0m"),
        ),
        Some(CompactReply::Failed(e)) => {
            let mut b: Vec<char> = Vec::new();
            push_str(&mut b, "\u{1b}[1;31mCompaction failed: ");
            push_str(&mut b, e.as_str());
            push_str(&mut b, "\u{1b}[0m");
            CompactStep::Say(string_of(b.as_slice()))
        },
        Some(CompactReply::Unparsable) => CompactStep::Say(
            owned("\u{1b}[1;31mCompaction failed: could not parse context-tools' response.\u{1b}[0m"),
        ),
        Some(CompactReply::Parsed { node_ids, summary }) => {
            let surviving = present_ids(&node_ids);
            let m = persist_compaction(dag, candidates.as_slice(), &surviving, summary.as_str());
            CompactStep::Say(m)
        },
    }
}

/// A merge node left by an earlier `/compact` is part of the conversation:
/// met with a non-empty text on the walk from the tip, it is the message
/// `(id, "system", text)`, and a node of one of the four message types is a
/// message of its own type.
pub proof fn law_merge_node_is_system_message(ns: Seq<NodeV>, id: Seq<char>, fuel: nat)
    requires
        fuel > 0,
        has_id(ns, id),
        ns[index_of_id(ns, id)].text.len() > 0,
    ensures
        ({
            let n = ns[index_of_id(ns, id)];
            let w = walk(ns, Some(id), fuel);
            &&& n.node_type == "merge"@ ==> w.len() > 0 && w[0] == (id, "system"@, n.text)
            &&& (n.node_type == "user"@ || n.node_type == "assistant"@ || n.node_type == "tool"@ || n.node_type
                == "system"@) ==> w.len() > 0 && w[0] == (id, n.node_type, n.text)
            &&& !(n.node_type == "merge"@ || n.node_type == "user"@ || n.node_type == "assistant"@ || n.node_type
                == "tool"@ || n.node_type == "system"@) ==> w == walk(ns, first_parent(n), (fuel - 1) as nat)
        }),
{
    reveal_strlit("merge");
    reveal_strlit("user");
    reveal_strlit("assistant");
    reveal_strlit("tool");
    reveal_strlit("system");
    let n = ns[index_of_id(ns, id)];
    let rest = walk(ns, first_parent(n), (fuel - 1) as nat);
    if n.node_type == "merge"@ {
        assert("merge"@.len() == 5 && "user"@.len() == 4 && "assistant"@.len() == 9 && "tool"@.len() == 4
            && "system"@.len() == 6);
        assert(n.node_type != "user"@ && n.node_type != "assistant"@ && n.node_type != "tool"@
            && n.node_type != "system"@);
        assert(role_of(n.node_type) == Some("system"@));
        assert(walk(ns, Some(id), fuel) == seq![(id, "system"@, n.text)] + rest);
    }
    if n.node_type == "user"@ || n.node_type == "assistant"@ || n.node_type == "tool"@ || n.node_type
        == "system"@ {
        assert(role_of(n.node_type) == Some(n.node_type));
        assert(walk(ns, Some(id), fuel) == seq![(id, n.node_type, n.text)] + rest);
    }
}

} // verus!
