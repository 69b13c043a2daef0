//! The conversation as a graph of nodes: each node has a type, a text and
//! the ids of its parents; one node is the current tip.
use vstd::prelude::*;
use crate::order::views;
use crate::text::{decimal, decimal_text, owned, push_str, str_eq, string_of};

verus! {

pub struct DagNode {
    pub id: String,
    pub node_type: String,
    pub text: String,
    pub parent_ids: Vec<String>,
}

pub struct NodeV {
    pub id: Seq<char>,
    pub node_type: Seq<char>,
    pub text: Seq<char>,
    pub parents: Seq<Seq<char>>,
}

impl View for DagNode {
    type V = NodeV;

    open spec fn view(&self) -> NodeV {
        NodeV {
            id: self.id@,
            node_type: self.node_type@,
            text: self.text@,
            parents: views(self.parent_ids@),
        }
    }
}

pub open spec fn nodes_view(s: Seq<DagNode>) -> Seq<NodeV> {
    s.map_values(|n: DagNode| n@)
}

pub open spec fn has_id(ns: Seq<NodeV>, id: Seq<char>) -> bool {
    exists|i: int| 0 <= i < ns.len() && (#[trigger] ns[i]).id == id
}

/// The index of the node with `id` (ids are unique).
pub open spec fn index_of_id(ns: Seq<NodeV>, id: Seq<char>) -> int {
    choose|i: int| 0 <= i < ns.len() && (#[trigger] ns[i]).id == id
}

pub open spec fn ids_unique(ns: Seq<NodeV>) -> bool {
    forall|i: int, j: int| 0 <= i < j < ns.len() ==> (#[trigger] ns[i]).id != (#[trigger] ns[j]).id
}

/// `ns` with `n` in place of the node of the same id, or with `n` added.
pub open spec fn upsert(ns: Seq<NodeV>, n: NodeV) -> Seq<NodeV> {
    if has_id(ns, n.id) {
        ns.update(index_of_id(ns, n.id), n)
    } else {
        ns.push(n)
    }
}

/// The id of the node made from counter value `n`.
pub open spec fn node_id_text(n: nat) -> Seq<char> {
    "node_"@ + decimal(n)
}

/// The graph: its nodes, the current tip, and the counter new ids are made
/// from.
pub struct DagV {
    pub nodes: Seq<NodeV>,
    pub current: Option<Seq<char>>,
    pub next_id: nat,
}

pub struct Dag {
    nodes: Vec<DagNode>,
    current_node_id: Option<String>,
    next_id: u64,
}

pub open spec fn opt_view(o: Option<String>) -> Option<Seq<char>> {
    match o {
        Some(s) => Some(s@),
        None => None,
    }
}

impl View for Dag {
    type V = DagV;

    closed spec fn view(&self) -> DagV {
        DagV {
            nodes: nodes_view(self.nodes@),
            current: opt_view(self.current_node_id),
            next_id: self.next_id as nat,
        }
    }
}

/// Index of the first node with `id`.
fn find_node(nodes: &Vec<DagNode>, id: &str) -> (r: Option<usize>)
    ensures
        match r {
            Some(i) => i < nodes@.len() && nodes@[i as int].id@ == id@,
            None => forall|j: int| 0 <= j < nodes@.len() ==> (#[trigger] nodes@[j]).id@ != id@,
        },
{
    let mut i: usize = 0;
    while i < nodes.len()
        invariant
            i <= nodes@.len(),
            forall|j: int| 0 <= j < i ==> (#[trigger] nodes@[j]).id@ != id@,
        decreases nodes.len() - i,
    {
        if str_eq(nodes[i].id.as_str(), id) {
            return Some(i);
        }
        i = i + 1;
    }
    None
}

proof fn lemma_find(nodes: Seq<DagNode>, id: Seq<char>, r: Option<usize>)
    requires
        ids_unique(nodes_view(nodes)),
        match r {
            Some(i) => i < nodes.len() && nodes[i as int].id@ == id,
            None => forall|j: int| 0 <= j < nodes.len() ==> (#[trigger] nodes[j]).id@ != id,
        },
    ensures
        match r {
            Some(i) => has_id(nodes_view(nodes), id) && index_of_id(nodes_view(nodes), id) == i
                && nodes_view(nodes)[i as int] == nodes[i as int]@,
            None => !has_id(nodes_view(nodes), id),
        },
{
    let ns = nodes_view(nodes);
    match r {
        Some(i) => {
            assert(ns[i as int] == nodes[i as int]@);
            assert(ns[i as int].id == id);
            let c = index_of_id(ns, id);
            assert(ns[c].id == id);
        },
        None => {
            if has_id(ns, id) {
                let c = choose|c: int| 0 <= c < ns.len() && (#[trigger] ns[c]).id == id;
                assert(ns[c] == nodes[c]@);
            }
        },
    }
}

pub(crate) fn copy_strings(v: &Vec<String>) -> (r: Vec<String>)
    ensures
        views(r@) == views(v@),
{
    let mut out: Vec<String> = Vec::new();
    let mut i: usize = 0;
    while i < v.len()
        invariant
            i <= v@.len(),
            out@.len() == i,
            forall|j: int| 0 <= j < i ==> (#[trigger] out@[j])@ == v@[j]@,
        decreases v.len() - i,
    {
        out.push(v[i].clone());
        i = i + 1;
    }
    assert(views(out@) =~= views(v@));
    out
}

impl DagNode {
    /// A copy with the same contents.
    pub fn duplicate(&self) -> (r: DagNode)
        ensures
            r@ == self@,
    {
        DagNode {
            id: self.id.clone(),
            node_type: self.node_type.clone(),
            text: self.text.clone(),
            parent_ids: copy_strings(&self.parent_ids),
        }
    }
}

/// Whether `s` contains `x`.
pub fn contains_string(s: &Vec<String>, x: &str) -> (r: bool)
    ensures
        r == views(s@).contains(x@),
{
    let mut i: usize = 0;
    while i < s.len()
        invariant
            i <= s@.len(),
            forall|j: int| 0 <= j < i ==> (#[trigger] s@[j])@ != x@,
        decreases s.len() - i,
    {
        if str_eq(s[i].as_str(), x) {
            assert(views(s@)[i as int] == x@);
            return true;
        }
        i = i + 1;
    }
    proof {
        if views(s@).contains(x@) {
            let j = choose|j: int| 0 <= j < views(s@).len() && views(s@)[j] == x@;
            assert(s@[j]@ == x@);
        }
    }
    false
}

/// The parents of a node once the node `id` is gone.
pub open spec fn without(ps: Seq<Seq<char>>, id: Seq<char>) -> Seq<Seq<char>> {
    ps.filter(|p: Seq<char>| p != id)
}

/// The parents of a node once the nodes `ids` are merged into `m`: the
/// parents outside `ids` in their order, then `m` once if any parent was
/// merged.
pub open spec fn relink(ps: Seq<Seq<char>>, ids: Seq<Seq<char>>, m: Seq<char>) -> Seq<Seq<char>> {
    ps.filter(|p: Seq<char>| !ids.contains(p)) + if exists|k: int|
        0 <= k < ps.len() && ids.contains(#[trigger] ps[k]) {
        seq![m]
    } else {
        Seq::empty()
    }
}

/// `acc` extended by the members of `ps` outside `ids` not already in it,
/// in order.
pub open spec fn add_parents(acc: Seq<Seq<char>>, ps: Seq<Seq<char>>, ids: Seq<Seq<char>>) -> Seq<
    Seq<char>,
>
    decreases ps.len(),
{
    if ps.len() == 0 {
        acc
    } else {
        let a = add_parents(acc, ps.drop_last(), ids);
        let p = ps.last();
        if !ids.contains(p) && !a.contains(p) {
            a.push(p)
        } else {
            a
        }
    }
}

/// The parents of a merge node: every parent of the merged nodes that is
/// not itself merged, once, in order of first appearance.
pub open spec fn gather(groups: Seq<Seq<Seq<char>>>, ids: Seq<Seq<char>>) -> Seq<Seq<char>>
    decreases groups.len(),
{
    if groups.len() == 0 {
        Seq::empty()
    } else {
        add_parents(gather(groups.drop_last(), ids), groups.last(), ids)
    }
}

/// The parent lists of the nodes `ids`, in the order of `ids`.
pub open spec fn parent_groups(ns: Seq<NodeV>, ids: Seq<Seq<char>>) -> Seq<Seq<Seq<char>>> {
    ids.map_values(|id: Seq<char>| ns[index_of_id(ns, id)].parents)
}

pub open spec fn merge_type() -> Seq<char> {
    seq!['m', 'e', 'r', 'g', 'e']
}

/// The graph once the nodes `ids` are merged into the node `m` holding
/// `summary`: the merged nodes are gone, every other node's parents are
/// relinked, and the merge node is added last.
pub open spec fn merged_nodes(ns: Seq<NodeV>, ids: Seq<Seq<char>>, m: Seq<char>, summary: Seq<char>) -> Seq<
    NodeV,
> {
    ns.filter(|n: NodeV| !ids.contains(n.id)).map_values(
        |n: NodeV| NodeV { parents: relink(n.parents, ids, m), ..n },
    ).push(
        NodeV {
            id: m,
            node_type: merge_type(),
            text: summary,
            parents: gather(parent_groups(ns, ids), ids),
        },
    )
}

/// The graph once the node `id` is deleted: it is gone, and no other node
/// keeps it as a parent.
pub open spec fn deleted_nodes(ns: Seq<NodeV>, id: Seq<char>) -> Seq<NodeV> {
    ns.filter(|n: NodeV| n.id != id).map_values(
        |n: NodeV| NodeV { parents: without(n.parents, id), ..n },
    )
}

fn filter_parent(ps: &Vec<String>, id: &str) -> (r: Vec<String>)
    ensures
        views(r@) == without(views(ps@), id@),
{
    let ghost pv = views(ps@);
    let mut out: Vec<String> = Vec::new();
    let mut i: usize = 0;
    proof {
        reveal(Seq::filter);
        assert(pv.subrange(0, 0).filter(|p: Seq<char>| p != id@) =~= Seq::<Seq<char>>::empty());
    }
    while i < ps.len()
        invariant
            i <= ps@.len(),
            pv == views(ps@),
            views(out@) == pv.subrange(0, i as int).filter(|p: Seq<char>| p != id@),
        decreases ps.len() - i,
    {
        let ghost before = views(out@);
        proof {
            reveal(Seq::filter);
            let t = pv.subrange(0, i + 1);
            assert(t.drop_last() =~= pv.subrange(0, i as int));
            assert(t.last() == ps@[i as int]@);
        }
        if !str_eq(ps[i].as_str(), id) {
            out.push(ps[i].clone());
            assert(views(out@) =~= before.push(ps@[i as int]@));
        }
        i = i + 1;
    }
    assert(pv.subrange(0, ps@.len() as int) =~= pv);
    out
}

fn relink_parents(ps: &Vec<String>, ids: &Vec<String>, m: &str) -> (r: Vec<String>)
    ensures
        views(r@) == relink(views(ps@), views(ids@), m@),
{
    let ghost pv = views(ps@);
    let ghost iv = views(ids@);
    let mut out: Vec<String> = Vec::new();
    let mut any = false;
    let mut i: usize = 0;
    proof {
        reveal(Seq::filter);
        assert(pv.subrange(0, 0).filter(|p: Seq<char>| !iv.contains(p)) =~= Seq::<Seq<char>>::empty());
    }
    while i < ps.len()
        invariant
            i <= ps@.len(),
            pv == views(ps@),
            iv == views(ids@),
            views(out@) == pv.subrange(0, i as int).filter(|p: Seq<char>| !iv.contains(p)),
            any == exists|k: int| 0 <= k < i && iv.contains(#[trigger] pv[k]),
        decreases ps.len() - i,
    {
        let ghost before = views(out@);
        proof {
            reveal(Seq::filter);
            let t = pv.subrange(0, i + 1);
            assert(t.drop_last() =~= pv.subrange(0, i as int));
            assert(t.last() == ps@[i as int]@);
            assert(pv[i as int] == ps@[i as int]@);
        }
        if contains_string(ids, ps[i].as_str()) {
            any = true;
        } else {
            out.push(ps[i].clone());
            assert(views(out@) =~= before.push(ps@[i as int]@));
        }
        i = i + 1;
    }
    assert(pv.subrange(0, ps@.len() as int) =~= pv);
    if any {
        out.push(owned(m));
    }
    proof {
        let kept = pv.filter(|p: Seq<char>| !iv.contains(p));
        if any {
            assert(views(out@) =~= kept + seq![m@]);
        } else {
            assert(views(out@) =~= kept + Seq::<Seq<char>>::empty());
        }
    }
    out
}

fn add_parents_exec(acc: &mut Vec<String>, ps: &Vec<String>, ids: &Vec<String>)
    ensures
        views(final(acc)@) == add_parents(views(old(acc)@), views(ps@), views(ids@)),
{
    let ghost a0 = views(acc@);
    let ghost pv = views(ps@);
    let mut i: usize = 0;
    assert(pv.subrange(0, 0) =~= Seq::<Seq<char>>::empty());
    while i < ps.len()
        invariant
            i <= ps@.len(),
            pv == views(ps@),
            views(acc@) == add_parents(a0, pv.subrange(0, i as int), views(ids@)),
        decreases ps.len() - i,
    {
        let ghost before = views(acc@);
        proof {
            let t = pv.subrange(0, i + 1);
            assert(t.drop_last() =~= pv.subrange(0, i as int));
            assert(t.last() == ps@[i as int]@);
        }
        if !contains_string(ids, ps[i].as_str()) && !contains_string(acc, ps[i].as_str()) {
            acc.push(ps[i].clone());
            assert(views(acc@) =~= before.push(ps@[i as int]@));
        }
        i = i + 1;
    }
    assert(pv.subrange(0, ps@.len() as int) =~= pv);
}


/// The nodes left once the nodes `ids` are merged into `m`, each with its
/// parents relinked.
pub open spec fn relinked_rest(ns: Seq<NodeV>, ids: Seq<Seq<char>>, m: Seq<char>) -> Seq<NodeV> {
    ns.filter(|n: NodeV| !ids.contains(n.id)).map_values(
        |n: NodeV| NodeV { parents: relink(n.parents, ids, m), ..n },
    )
}

/// The node a merge adds.
pub open spec fn merge_node(ns: Seq<NodeV>, ids: Seq<Seq<char>>, m: Seq<char>, summary: Seq<char>) -> NodeV {
    NodeV {
        id: m,
        node_type: merge_type(),
        text: summary,
        parents: gather(parent_groups(ns, ids), ids),
    }
}

/// The tip after the node `id` with parents `ps` is deleted: its first
/// parent when it was the tip, else unchanged.
pub open spec fn tip_after_delete(cur: Option<Seq<char>>, id: Seq<char>, ps: Seq<Seq<char>>) -> Option<
    Seq<char>,
> {
    if cur == Some(id) {
        if ps.len() > 0 {
            Some(ps[0])
        } else {
            None
        }
    } else {
        cur
    }
}

proof fn lemma_filter_map_push(
    pre: Seq<NodeV>,
    x: NodeV,
    keep: spec_fn(NodeV) -> bool,
    f: spec_fn(NodeV) -> NodeV,
)
    ensures
        pre.push(x).filter(keep).map_values(f) == if keep(x) {
            pre.filter(keep).map_values(f).push(f(x))
        } else {
            pre.filter(keep).map_values(f)
        },
{
    reveal(Seq::filter);
    assert(pre.push(x).drop_last() =~= pre);
    if keep(x) {
        assert(pre.push(x).filter(keep) =~= pre.filter(keep).push(x));
        assert(pre.push(x).filter(keep).map_values(f) =~= pre.filter(keep).map_values(f).push(f(x)));
    } else {
        assert(pre.push(x).filter(keep) =~= pre.filter(keep));
    }
}

proof fn lemma_unique_filter_map(ns: Seq<NodeV>, keep: spec_fn(NodeV) -> bool, f: spec_fn(NodeV) -> NodeV)
    requires
        ids_unique(ns),
        forall|n: NodeV| #[trigger] f(n).id == n.id,
    ensures
        ids_unique(ns.filter(keep).map_values(f)),
        forall|a: int|
            0 <= a < ns.filter(keep).map_values(f).len() ==> has_id(
                ns,
                #[trigger] ns.filter(keep).map_values(f)[a].id,
            ),
    decreases ns.len(),
{
    if ns.len() > 0 {
        let pre = ns.drop_last();
        let x = ns.last();
        assert(pre.push(x) =~= ns);
        assert(ids_unique(pre)) by {
            assert forall|i: int, j: int| 0 <= i < j < pre.len() implies (#[trigger] pre[i]).id != (
            #[trigger] pre[j]).id by {
                assert(pre[i] == ns[i] && pre[j] == ns[j]);
            }
        }
        lemma_unique_filter_map(pre, keep, f);
        lemma_filter_map_push(pre, x, keep, f);
        let rp = pre.filter(keep).map_values(f);
        let r = ns.filter(keep).map_values(f);
        assert forall|a: int| 0 <= a < r.len() implies has_id(ns, #[trigger] r[a].id) by {
            if a < rp.len() {
                assert(r[a] == rp[a]);
                assert(has_id(pre, rp[a].id));
                let j = choose|j: int| 0 <= j < pre.len() && (#[trigger] pre[j]).id == rp[a].id;
                assert(ns[j] == pre[j]);
            } else {
                assert(r[a] == f(x));
                assert(ns[ns.len() - 1].id == r[a].id);
            }
        }
        if keep(x) {
            assert forall|i: int, j: int| 0 <= i < j < r.len() implies (#[trigger] r[i]).id != (
            #[trigger] r[j]).id by {
                if j < rp.len() {
                    assert(r[i] == rp[i] && r[j] == rp[j]);
                } else {
                    assert(r[i] == rp[i]);
                    assert(has_id(pre, rp[i].id));
                    let k = choose|k: int| 0 <= k < pre.len() && (#[trigger] pre[k]).id == rp[i].id;
                    assert(ns[k] == pre[k]);
                    assert(ns[k].id != ns[ns.len() - 1].id);
                }
            }
        }
    } else {
        reveal(Seq::filter);
    }
}

impl Dag {
    #[verifier::type_invariant]
    closed spec fn inv(self) -> bool {
        ids_unique(nodes_view(self.nodes@))
    }

    /// An empty graph.
    pub fn new() -> (r: Dag)
        ensures
            r@.nodes == Seq::<NodeV>::empty(),
            r@.current is None,
            r@.next_id == 0,
    {
        let d = Dag { nodes: Vec::new(), current_node_id: None, next_id: 0 };
        assert(nodes_view(d.nodes@) =~= Seq::<NodeV>::empty());
        d
    }

    /// A graph from its parts, as a saved session holds them; refused when
    /// two nodes share an id.
    pub fn from_parts(nodes: Vec<DagNode>, current_node_id: Option<String>, next_id: u64) -> (r:
        Result<Dag, String>)
        ensures
            match r {
                Ok(d) => ids_unique(nodes_view(nodes@)) && d@ == (DagV {
                    nodes: nodes_view(nodes@),
                    current: opt_view(current_node_id),
                    next_id: next_id as nat,
                }),
                Err(_) => !ids_unique(nodes_view(nodes@)),
            },
    {
        let ghost nv = nodes_view(nodes@);
        let mut i: usize = 0;
        while i < nodes.len()
            invariant
                i <= nodes@.len(),
                nv == nodes_view(nodes@),
                forall|a: int, b: int| 0 <= a < b < i ==> (#[trigger] nv[a]).id != (#[trigger] nv[b]).id,
            decreases nodes.len() - i,
        {
            let mut j: usize = 0;
            while j < i
                invariant
                    j <= i < nodes@.len(),
                    nv == nodes_view(nodes@),
                    forall|a: int| 0 <= a < j ==> (#[trigger] nv[a]).id != nv[i as int].id,
                decreases i - j,
            {
                if str_eq(nodes[j].id.as_str(), nodes[i].id.as_str()) {
                    proof {
                        assert(nv[j as int].id == nv[i as int].id);
                    }
                    return Err(owned("two nodes share an id"));
                }
                j = j + 1;
            }
            i = i + 1;
        }
        assert(ids_unique(nodes_view(nodes@)));
        Ok(Dag { nodes, current_node_id, next_id })
    }

    /// The nodes, in the order they are kept.
    pub fn nodes(&self) -> (r: &Vec<DagNode>)
        ensures
            nodes_view(r@) == self@.nodes,
    {
        &self.nodes
    }

    /// The current tip.
    pub fn current_node_id(&self) -> (r: Option<&String>)
        ensures
            match r {
                Some(s) => self@.current == Some(s@),
                None => self@.current is None,
            },
    {
        match &self.current_node_id {
            Some(s) => Some(s),
            None => None,
        }
    }

    /// The counter new ids are made from.
    pub fn next_id(&self) -> (r: u64)
        ensures
            r == self@.next_id,
    {
        self.next_id
    }

    /// Moves the current tip.
    pub fn set_current(&mut self, id: Option<String>)
        ensures
            final(self)@ == (DagV { current: opt_view(id), ..old(self)@ }),
    {
        proof {
            use_type_invariant(&*self);
        }
        self.current_node_id = id;
    }

    /// The node with `id`, if there is one.
    pub fn node(&self, id: &str) -> (r: Option<&DagNode>)
        ensures
            match r {
                Some(n) => has_id(self@.nodes, id@) && n@ == self@.nodes[index_of_id(self@.nodes, id@)],
                None => !has_id(self@.nodes, id@),
            },
    {
        proof {
            use_type_invariant(self);
        }
        let r = find_node(&self.nodes, id);
        proof {
            lemma_find(self.nodes@, id@, r);
        }
        match r {
            Some(i) => Some(&self.nodes[i]),
            None => None,
        }
    }

    /// Whether a node has `id`.
    pub fn contains(&self, id: &str) -> (r: bool)
        ensures
            r == has_id(self@.nodes, id@),
    {
        self.node(id).is_some()
    }

    /// How many nodes there are.
    pub fn len(&self) -> (r: usize)
        ensures
            r == self@.nodes.len(),
    {
        self.nodes.len()
    }

    /// Puts `n` in place of the node with its id, or adds it.
    fn upsert_node(&mut self, n: DagNode)
        ensures
            final(self)@ == (DagV { nodes: upsert(old(self)@.nodes, n@), ..old(self)@ }),
    {
        proof {
            use_type_invariant(&*self);
        }
        let found = find_node(&self.nodes, n.id.as_str());
        proof {
            lemma_find(self.nodes@, n.id@, found);
        }
        let ghost before = nodes_view(self.nodes@);
        let ghost nv = n@;
        let mut nodes: Vec<DagNode> = Vec::new();
        std::mem::swap(&mut nodes, &mut self.nodes);
        match found {
            Some(i) => {
                nodes.set(i, n);
                proof {
                    assert(nodes_view(nodes@) =~= before.update(i as int, nv));
                    assert forall|a: int, b: int| 0 <= a < b < nodes_view(nodes@).len() implies (
                    #[trigger] nodes_view(nodes@)[a]).id != (#[trigger] nodes_view(nodes@)[b]).id by {
                        if a != i && b != i {
                            assert(nodes_view(nodes@)[a] == before[a]);
                            assert(nodes_view(nodes@)[b] == before[b]);
                        } else if a == i {
                            assert(nodes_view(nodes@)[b] == before[b]);
                            assert(before[i as int].id == nv.id);
                        } else {
                            assert(nodes_view(nodes@)[a] == before[a]);
                            assert(before[i as int].id == nv.id);
                        }
                    }
                }
            },
            None => {
                nodes.push(n);
                proof {
                    assert(nodes_view(nodes@) =~= before.push(nv));
                    assert forall|a: int, b: int| 0 <= a < b < nodes_view(nodes@).len() implies (
                    #[trigger] nodes_view(nodes@)[a]).id != (#[trigger] nodes_view(nodes@)[b]).id by {
                        assert(nodes_view(nodes@)[a] == before[a]);
                        if b < before.len() {
                            assert(nodes_view(nodes@)[b] == before[b]);
                        } else {
                            assert(before[a].id != nv.id);
                        }
                    }
                }
            },
        }
        self.nodes = nodes;
    }

    /// The id the next new node gets.
    fn fresh_id(&self) -> (r: String)
        ensures
            r@ == node_id_text(self@.next_id),
    {
        let mut b: Vec<char> = Vec::new();
        push_str(&mut b, "node_");
        let t = decimal_text(self.next_id as u128);
        push_str(&mut b, t.as_str());
        string_of(b.as_slice())
    }

    /// Adds a node of type `node_type` under `parent_id` (no parent when
    /// `parent_id` is empty) and makes it the current tip. Its id is
    /// `node_<n>` for the counter's value `n`, which then advances. Refused
    /// when `parent_id` names no node, leaving the graph as it was.
    pub fn create_node(&mut self, parent_id: &str, node_type: &str) -> (r: Result<String, String>)
        requires
            old(self)@.next_id < u64::MAX,
        ensures
            parent_id@.len() > 0 && !has_id(old(self)@.nodes, parent_id@) ==> (r matches Err(e) && e@
                == "Parent node '"@ + parent_id@ + "' not found"@ && final(self)@ == old(self)@),
            parent_id@.len() == 0 || has_id(old(self)@.nodes, parent_id@) ==> (r matches Ok(id)
                && id@ == node_id_text(old(self)@.next_id) && final(self)@ == (DagV {
                nodes: upsert(
                    old(self)@.nodes,
                    NodeV {
                        id: id@,
                        node_type: node_type@,
                        text: Seq::empty(),
                        parents: if parent_id@.len() == 0 {
                            Seq::empty()
                        } else {
                            seq![parent_id@]
                        },
                    },
                ),
                current: Some(id@),
                next_id: old(self)@.next_id + 1,
            })),
    {
        let is_root = parent_id.unicode_len() == 0;
        if !is_root && !self.contains(parent_id) {
            let mut b: Vec<char> = Vec::new();
            push_str(&mut b, "Parent node '");
            push_str(&mut b, parent_id);
            push_str(&mut b, "' not found");
            return Err(string_of(b.as_slice()));
        }
        let id = self.fresh_id();
        let mut parents: Vec<String> = Vec::new();
        if !is_root {
            parents.push(owned(parent_id));
        }
        let node = DagNode {
            id: id.clone(),
            node_type: owned(node_type),
            text: String::new(),
            parent_ids: parents,
        };
        proof {
            if is_root {
                assert(views(node.parent_ids@) =~= Seq::<Seq<char>>::empty());
            } else {
                assert(views(node.parent_ids@) =~= seq![parent_id@]);
            }
        }
        self.upsert_node(node);
        proof {
            use_type_invariant(&*self);
        }
        self.next_id = self.next_id + 1;
        self.current_node_id = Some(id.clone());
        Ok(id)
    }

    /// Sets the text of the node `node_id`; refused, with the graph
    /// unchanged, when there is no such node.
    pub fn set_node_text(&mut self, node_id: &str, text: &str) -> (r: Result<(), String>)
        ensures
            !has_id(old(self)@.nodes, node_id@) ==> (r matches Err(e) && e@ == not_found(node_id@) && final(self)@ == old(self)@),
            has_id(old(self)@.nodes, node_id@) ==> (r is Ok && final(self)@ == (DagV {
                nodes: old(self)@.nodes.update(
                    index_of_id(old(self)@.nodes, node_id@),
                    (NodeV { text: text@, ..old(self)@.nodes[index_of_id(old(self)@.nodes, node_id@)] }),
                ),
                ..old(self)@
            })),
    {
        proof {
            use_type_invariant(&*self);
        }
        let found = find_node(&self.nodes, node_id);
        proof {
            lemma_find(self.nodes@, node_id@, found);
        }
        match found {
            Some(i) => {
                let mut n = self.nodes[i].duplicate();
                n.text = owned(text);
                self.upsert_node(n);
                Ok(())
            },
            None => {
                let mut b: Vec<char> = Vec::new();
                push_str(&mut b, "Node '");
                push_str(&mut b, node_id);
                push_str(&mut b, "' not found");
                Err(string_of(b.as_slice()))
            },
        }
    }
}


impl Dag {
    /// Deletes the node `node_id`: it is gone and no other node keeps it as
    /// a parent; when it was the tip, its first parent (if any) becomes the
    /// tip. Refused, with the graph unchanged, when there is no such node.
    pub fn delete_node(&mut self, node_id: &str) -> (r: Result<(), String>)
        ensures
            !has_id(old(self)@.nodes, node_id@) ==> (r matches Err(e) && e@ == not_found(node_id@) && final(self)@ == old(self)@),
            has_id(old(self)@.nodes, node_id@) ==> (r is Ok && final(self)@ == (DagV {
                nodes: deleted_nodes(old(self)@.nodes, node_id@),
                current: tip_after_delete(
                    old(self)@.current,
                    node_id@,
                    old(self)@.nodes[index_of_id(old(self)@.nodes, node_id@)].parents,
                ),
                next_id: old(self)@.next_id,
            })),
    {
        proof {
            use_type_invariant(&*self);
        }
        let found = find_node(&self.nodes, node_id);
        proof {
            lemma_find(self.nodes@, node_id@, found);
        }
        let idx = match found {
            Some(i) => i,
            None => {
                let mut b: Vec<char> = Vec::new();
                push_str(&mut b, "Node '");
                push_str(&mut b, node_id);
                push_str(&mut b, "' not found");
                return Err(string_of(b.as_slice()));
            },
        };
        let ghost ns = nodes_view(self.nodes@);
        let ghost keep = |n: NodeV| n.id != node_id@;
        let ghost f = |n: NodeV| NodeV { parents: without(n.parents, node_id@), ..n };
        let new_tip: Option<String> = match &self.current_node_id {
            Some(c) => if str_eq(c.as_str(), node_id) {
                if self.nodes[idx].parent_ids.len() > 0 {
                    Some(self.nodes[idx].parent_ids[0].clone())
                } else {
                    None
                }
            } else {
                Some(c.clone())
            },
            None => None,
        };
        let mut out: Vec<DagNode> = Vec::new();
        let mut k: usize = 0;
        proof {
            reveal(Seq::filter);
            assert(ns.subrange(0, 0) =~= Seq::<NodeV>::empty());
            assert(nodes_view(out@) =~= ns.subrange(0, 0).filter(keep).map_values(f));
        }
        while k < self.nodes.len()
            invariant
                k <= self.nodes@.len(),
                ns == nodes_view(self.nodes@),
                keep == (|n: NodeV| n.id != node_id@),
                f == (|n: NodeV| NodeV { parents: without(n.parents, node_id@), ..n }),
                nodes_view(out@) == ns.subrange(0, k as int).filter(keep).map_values(f),
            decreases self.nodes.len() - k,
        {
            proof {
                let t = ns.subrange(0, k + 1);
                assert(t =~= ns.subrange(0, k as int).push(ns[k as int]));
                lemma_filter_map_push(ns.subrange(0, k as int), ns[k as int], keep, f);
                assert(ns[k as int] == self.nodes@[k as int]@);
            }
            if !str_eq(self.nodes[k].id.as_str(), node_id) {
                let n = &self.nodes[k];
                let nn = DagNode {
                    id: n.id.clone(),
                    node_type: n.node_type.clone(),
                    text: n.text.clone(),
                    parent_ids: filter_parent(&n.parent_ids, node_id),
                };
                let ghost before = nodes_view(out@);
                out.push(nn);
                proof {
                    assert(nodes_view(out@) =~= before.push(f(ns[k as int])));
                }
            }
            k = k + 1;
        }
        proof {
            assert(ns.subrange(0, ns.len() as int) =~= ns);
            lemma_unique_filter_map(ns, keep, f);
            assert(deleted_nodes(ns, node_id@) =~= ns.filter(keep).map_values(f));
        }
        self.nodes = out;
        self.current_node_id = new_tip;
        Ok(())
    }
}


/// Whether the nodes `ids` can be merged: there is at least one and each
/// exists.
pub open spec fn merge_ok(ns: Seq<NodeV>, ids: Seq<Seq<char>>) -> bool {
    ids.len() > 0 && forall|k: int| 0 <= k < ids.len() ==> has_id(ns, #[trigger] ids[k])
}

/// The text of a refusal naming a node that does not exist.
pub open spec fn not_found(id: Seq<char>) -> Seq<char> {
    "Node '"@ + id + "' not found"@
}

/// The first of `ids` naming no node.
pub open spec fn first_missing(ns: Seq<NodeV>, ids: Seq<Seq<char>>) -> int {
    choose|k: int| 0 <= k < ids.len() && !has_id(ns, ids[k]) && forall|j: int| 0 <= j < k ==> has_id(ns, #[trigger] ids[j])
}

/// Why merging `ids` is refused: there are none, or the first of them that
/// names no node.
pub open spec fn merge_error(ns: Seq<NodeV>, ids: Seq<Seq<char>>) -> Seq<char> {
    if ids.len() == 0 {
        "No nodes to merge"@
    } else {
        not_found(ids[first_missing(ns, ids)])
    }
}

/// The graph after the nodes `ids` are merged into a new node holding
/// `summary`, as [`Dag::merge_nodes`] describes.
pub open spec fn merged_dag(d: DagV, ids: Seq<Seq<char>>, summary: Seq<char>) -> DagV {
    let m = node_id_text(d.next_id);
    DagV {
        nodes: upsert(relinked_rest(d.nodes, ids, m), merge_node(d.nodes, ids, m, summary)),
        current: match d.current {
            Some(c) => if ids.contains(c) {
                Some(m)
            } else {
                Some(c)
            },
            None => None,
        },
        next_id: d.next_id + 1,
    }
}

spec fn present(nodes: Seq<DagNode>, id: Seq<char>) -> bool {
    exists|j: int| 0 <= j < nodes.len() && (#[trigger] nodes[j]).id@ == id
}

fn all_present(nodes: &Vec<DagNode>, ids: &[String]) -> (r: Option<usize>)
    ensures
        match r {
            Some(k) => k < ids@.len() && (forall|j: int| 0 <= j < nodes@.len() ==> (#[trigger] nodes@[j]).id@ != ids@[k as int]@)
                && forall|a: int| 0 <= a < k ==> present(nodes@, #[trigger] ids@[a]@),
            None => forall|k: int| 0 <= k < ids@.len() ==> present(nodes@, #[trigger] ids@[k]@),
        },
{
    let mut k: usize = 0;
    while k < ids.len()
        invariant
            k <= ids@.len(),
            forall|a: int| 0 <= a < k ==> present(nodes@, #[trigger] ids@[a]@),
        decreases ids.len() - k,
    {
        match find_node(nodes, ids[k].as_str()) {
            Some(j) => {
                assert(nodes@[j as int].id@ == ids@[k as int]@);
            },
            None => {
                return Some(k);
            },
        }
        k = k + 1;
    }
    None
}

fn strings_of(ids: &[String]) -> (r: Vec<String>)
    ensures
        views(r@) == views(ids@),
{
    let mut out: Vec<String> = Vec::new();
    let mut i: usize = 0;
    while i < ids.len()
        invariant
            i <= ids@.len(),
            out@.len() == i,
            forall|j: int| 0 <= j < i ==> (#[trigger] out@[j])@ == ids@[j]@,
        decreases ids.len() - i,
    {
        out.push(ids[i].clone());
        i = i + 1;
    }
    assert(views(out@) =~= views(ids@));
    out
}

impl Dag {
    /// Merges the nodes `node_ids` into one new node of type `merge` holding
    /// `summary_text`, with id `node_<n>` for the counter's value `n`.
    ///
    /// The new node's parents are the parents of the merged nodes that are
    /// not merged themselves, each once, in order of first appearance. The
    /// merged nodes are gone; every other node that had one of them as a
    /// parent has the new node as a parent instead (once). When the tip was
    /// merged, the new node is the tip. Refused, with the graph unchanged,
    /// when `node_ids` is empty or names a node that does not exist.
    pub fn merge_nodes(&mut self, node_ids: &[String], summary_text: &str) -> (r: Result<String, String>)
        requires
            old(self)@.next_id < u64::MAX,
        ensures
            !merge_ok(old(self)@.nodes, views(node_ids@)) ==> (r matches Err(e) && e@ == merge_error(
                old(self)@.nodes,
                views(node_ids@),
            ) && final(self)@ == old(self)@),
            merge_ok(old(self)@.nodes, views(node_ids@)) ==> (r matches Ok(m) && m@ == node_id_text(
                old(self)@.next_id,
            ) && final(self)@ == merged_dag(old(self)@, views(node_ids@), summary_text@)),
    {
        proof {
            use_type_invariant(&*self);
        }
        let ghost iv = views(node_ids@);
        if node_ids.len() == 0 {
            return Err(owned("No nodes to merge"));
        }
        assert(iv.len() > 0);
        match all_present(&self.nodes, node_ids) {
            Some(k) => {
                proof {
                    assert(iv[k as int] == node_ids@[k as int]@);
                    assert(!has_id(nodes_view(self.nodes@), iv[k as int]) ==> !merge_ok(nodes_view(self.nodes@), iv));
                    if has_id(nodes_view(self.nodes@), iv[k as int]) {
                        let j = choose|j: int| 0 <= j < nodes_view(self.nodes@).len() && (#[trigger] nodes_view(self.nodes@)[j]).id == iv[k as int];
                        assert(nodes_view(self.nodes@)[j] == self.nodes@[j]@);
                    }
                }
                proof {
                    let ns0 = nodes_view(self.nodes@);
                    assert(!has_id(ns0, iv[k as int]));
                    assert forall|a: int| 0 <= a < k implies has_id(ns0, #[trigger] iv[a]) by {
                        assert(present(self.nodes@, node_ids@[a]@));
                        let j = choose|j: int| 0 <= j < self.nodes@.len() && (#[trigger] self.nodes@[j]).id@ == node_ids@[a]@;
                        assert(ns0[j] == self.nodes@[j]@);
                    }
                    let k2 = first_missing(ns0, iv);
                    assert(0 <= k2 < iv.len() && !has_id(ns0, iv[k2]) && forall|j: int| 0 <= j < k2 ==> has_id(ns0, #[trigger] iv[j]));
                    if k2 < k {
                        assert(has_id(ns0, iv[k2]));
                    }
                    if k2 > k {
                        assert(has_id(ns0, iv[k as int]));
                    }
                    assert(k2 == k);
                }
                let mut b: Vec<char> = Vec::new();
                push_str(&mut b, "Node '");
                push_str(&mut b, node_ids[k].as_str());
                push_str(&mut b, "' not found");
                return Err(string_of(b.as_slice()));
            },
            None => {},
        }
        let ghost ns = nodes_view(self.nodes@);
        proof {
            assert forall|k: int| 0 <= k < node_ids@.len() implies has_id(ns, #[trigger] iv[k]) by {
                assert(present(self.nodes@, node_ids@[k]@));
                let j = choose|j: int| 0 <= j < self.nodes@.len() && (#[trigger] self.nodes@[j]).id@ == node_ids@[k]@;
                assert(ns[j] == self.nodes@[j]@);
            }
        }
        let ids = strings_of(node_ids);
        let m = self.fresh_id();
        // The merge node's parents.
        let mut parents: Vec<String> = Vec::new();
        let mut i: usize = 0;
        proof {
            assert(parent_groups(ns, iv).subrange(0, 0) =~= Seq::<Seq<Seq<char>>>::empty());
            assert(views(parents@) =~= Seq::<Seq<char>>::empty());
        }
        while i < ids.len()
            invariant
                i <= ids@.len(),
                views(ids@) == iv,
                iv.len() == node_ids@.len(),
                ns == nodes_view(self.nodes@),
                ids_unique(ns),
                forall|k: int| 0 <= k < iv.len() ==> has_id(ns, #[trigger] iv[k]),
                views(parents@) == gather(parent_groups(ns, iv).subrange(0, i as int), iv),
            decreases ids.len() - i,
        {
            let found = find_node(&self.nodes, ids[i].as_str());
            proof {
                lemma_find(self.nodes@, ids@[i as int]@, found);
                assert(iv[i as int] == ids@[i as int]@);
                let g = parent_groups(ns, iv).subrange(0, i + 1);
                assert(g.drop_last() =~= parent_groups(ns, iv).subrange(0, i as int));
            }
            match found {
                Some(j) => {
                    add_parents_exec(&mut parents, &self.nodes[j].parent_ids, &ids);
                },
                None => {},
            }
            i = i + 1;
        }
        proof {
            assert(parent_groups(ns, iv).subrange(0, iv.len() as int) =~= parent_groups(ns, iv));
        }
        // The other nodes, relinked.
        let ghost keep = |n: NodeV| !iv.contains(n.id);
        let ghost f = |n: NodeV| NodeV { parents: relink(n.parents, iv, m@), ..n };
        let mut out: Vec<DagNode> = Vec::new();
        let mut k: usize = 0;
        proof {
            reveal(Seq::filter);
            assert(ns.subrange(0, 0) =~= Seq::<NodeV>::empty());
            assert(nodes_view(out@) =~= ns.subrange(0, 0).filter(keep).map_values(f));
        }
        while k < self.nodes.len()
            invariant
                k <= self.nodes@.len(),
                ns == nodes_view(self.nodes@),
                views(ids@) == iv,
                keep == (|n: NodeV| !iv.contains(n.id)),
                f == (|n: NodeV| NodeV { parents: relink(n.parents, iv, m@), ..n }),
                nodes_view(out@) == ns.subrange(0, k as int).filter(keep).map_values(f),
            decreases self.nodes.len() - k,
        {
            proof {
                let t = ns.subrange(0, k + 1);
                assert(t =~= ns.subrange(0, k as int).push(ns[k as int]));
                lemma_filter_map_push(ns.subrange(0, k as int), ns[k as int], keep, f);
                assert(ns[k as int] == self.nodes@[k as int]@);
            }
            if !contains_string(&ids, self.nodes[k].id.as_str()) {
                let n = &self.nodes[k];
                let nn = DagNode {
                    id: n.id.clone(),
                    node_type: n.node_type.clone(),
                    text: n.text.clone(),
                    parent_ids: relink_parents(&n.parent_ids, &ids, m.as_str()),
                };
                let ghost before = nodes_view(out@);
                out.push(nn);
                proof {
                    assert(nodes_view(out@) =~= before.push(f(ns[k as int])));
                }
            }
            k = k + 1;
        }
        proof {
            assert(ns.subrange(0, ns.len() as int) =~= ns);
            lemma_unique_filter_map(ns, keep, f);
            assert(relinked_rest(ns, iv, m@) =~= ns.filter(keep).map_values(f));
        }
        let new_tip: Option<String> = match &self.current_node_id {
            Some(c) => if contains_string(&ids, c.as_str()) {
                Some(m.clone())
            } else {
                Some(c.clone())
            },
            None => None,
        };
        self.nodes = out;
        let node = DagNode {
            id: m.clone(),
            node_type: owned("merge"),
            text: owned(summary_text),
            parent_ids: parents,
        };
        proof {
            reveal_strlit("merge");
            assert("merge"@ =~= merge_type());
            assert(node@ == merge_node(ns, iv, m@, summary_text@));
        }
        self.upsert_node(node);
        proof {
            use_type_invariant(&*self);
        }
        self.next_id = self.next_id + 1;
        self.current_node_id = new_tip;
        Ok(m)
    }

    /// Adds `parent` to the parents of the node `id`; refused, with the
    /// graph unchanged, when there is no such node.
    pub fn add_parent(&mut self, id: &str, parent: &str) -> (r: Result<(), String>)
        ensures
            !has_id(old(self)@.nodes, id@) ==> (r matches Err(e) && e@ == not_found(id@) && final(self)@ == old(self)@),
            has_id(old(self)@.nodes, id@) ==> (r is Ok && final(self)@ == (DagV {
                nodes: old(self)@.nodes.update(
                    index_of_id(old(self)@.nodes, id@),
                    (NodeV {
                        parents: old(self)@.nodes[index_of_id(old(self)@.nodes, id@)].parents.push(parent@),
                        ..old(self)@.nodes[index_of_id(old(self)@.nodes, id@)]
                    }),
                ),
                ..old(self)@
            })),
    {
        proof {
            use_type_invariant(&*self);
        }
        let found = find_node(&self.nodes, id);
        proof {
            lemma_find(self.nodes@, id@, found);
        }
        match found {
            Some(i) => {
                let mut n = self.nodes[i].duplicate();
                let ghost pv = views(n.parent_ids@);
                n.parent_ids.push(owned(parent));
                assert(views(n.parent_ids@) =~= pv.push(parent@));
                self.upsert_node(n);
                Ok(())
            },
            None => {
                let mut b: Vec<char> = Vec::new();
                push_str(&mut b, "Node '");
                push_str(&mut b, id);
                push_str(&mut b, "' not found");
                Err(string_of(b.as_slice()))
            },
        }
    }
}

/// Deleting a node leaves no node of that id, and no node keeping it as a
/// parent.
pub proof fn law_delete_leaves_no_reference(ns: Seq<NodeV>, id: Seq<char>)
    ensures
        forall|i: int|
            0 <= i < deleted_nodes(ns, id).len() ==> (#[trigger] deleted_nodes(ns, id)[i]).id != id
                && !deleted_nodes(ns, id)[i].parents.contains(id),
{
    reveal(Seq::filter);
    let kept = ns.filter(|n: NodeV| n.id != id);
    assert forall|i: int| 0 <= i < kept.len() implies (#[trigger] kept[i]).id != id by {
        ns.lemma_filter_pred(|n: NodeV| n.id != id, i);
    }
    assert forall|i: int| 0 <= i < deleted_nodes(ns, id).len() implies !(#[trigger] deleted_nodes(
        ns,
        id,
    )[i]).parents.contains(id) by {
        let ps = kept[i].parents;
        let w = without(ps, id);
        assert(deleted_nodes(ns, id)[i].parents == w);
        if w.contains(id) {
            let q = choose|q: int| 0 <= q < w.len() && w[q] == id;
            ps.lemma_filter_pred(|p: Seq<char>| p != id, q);
        }
    }
}

proof fn lemma_filter_drops_one<A>(s: Seq<A>, p: spec_fn(A) -> bool, i: int)
    requires
        0 <= i < s.len(),
        !p(s[i]),
    ensures
        s.filter(p).len() < s.len(),
    decreases s.len(),
{
    reveal(Seq::filter);
    s.drop_last().lemma_filter_len(p);
    if i < s.len() - 1 {
        assert(s.drop_last()[i] == s[i]);
        lemma_filter_drops_one(s.drop_last(), p, i);
    }
}

proof fn lemma_filter_filter<A>(s: Seq<A>, p: spec_fn(A) -> bool, q: spec_fn(A) -> bool, pq: spec_fn(A) -> bool)
    requires
        forall|x: A| #[trigger] pq(x) == (p(x) && q(x)),
    ensures
        s.filter(p).filter(q) == s.filter(pq),
    decreases s.len(),
{
    reveal(Seq::filter);
    if s.len() > 0 {
        lemma_filter_filter(s.drop_last(), p, q, pq);
        let t = s.drop_last().filter(p);
        if p(s.last()) {
            assert(t.push(s.last()).drop_last() =~= t);
        }
    }
}

/// Dropping the nodes of `ids` (distinct, each present) takes away at least
/// as many nodes as there are ids.
proof fn lemma_drop_ids_len(ns: Seq<NodeV>, ids: Seq<Seq<char>>, keep: spec_fn(NodeV) -> bool)
    requires
        ids.no_duplicates(),
        forall|k: int| 0 <= k < ids.len() ==> has_id(ns, #[trigger] ids[k]),
        forall|n: NodeV| #[trigger] keep(n) == !ids.contains(n.id),
    ensures
        ns.filter(keep).len() + ids.len() <= ns.len(),
    decreases ids.len(),
{
    if ids.len() == 0 {
        ns.lemma_filter_len(keep);
    } else {
        let pre = ids.drop_last();
        let x = ids.last();
        let kp = |n: NodeV| !pre.contains(n.id);
        let kx = |n: NodeV| n.id != x;
        assert forall|k: int| 0 <= k < pre.len() implies has_id(ns, #[trigger] pre[k]) by {
            assert(pre[k] == ids[k]);
        }
        assert(pre.no_duplicates()) by {
            assert forall|a: int, b: int| 0 <= a < pre.len() && 0 <= b < pre.len() && a != b implies pre[a]
                != pre[b] by {
                assert(pre[a] == ids[a] && pre[b] == ids[b]);
            }
        }
        lemma_drop_ids_len(ns, pre, kp);
        assert forall|n: NodeV| #[trigger] keep(n) == (kp(n) && kx(n)) by {
            assert(ids =~= pre.push(x));
            if pre.contains(n.id) {
                let k = choose|k: int| 0 <= k < pre.len() && pre[k] == n.id;
                assert(ids[k] == n.id);
            }
            if ids.contains(n.id) && n.id != x {
                let k = choose|k: int| 0 <= k < ids.len() && ids[k] == n.id;
                assert(k != ids.len() - 1);
                assert(pre[k] == n.id);
            }
        }
        lemma_filter_filter(ns, kp, kx, keep);
        let t = ns.filter(kp);
        let j = choose|j: int| 0 <= j < ns.len() && (#[trigger] ns[j]).id == x;
        assert(!pre.contains(x)) by {
            if pre.contains(x) {
                let k = choose|k: int| 0 <= k < pre.len() && pre[k] == x;
                assert(ids[k] == ids[ids.len() - 1]);
            }
        }
        ns.lemma_filter_contains(kp, j);
        let q = choose|q: int| 0 <= q < t.len() && t[q] == ns[j];
        lemma_filter_drops_one(t, kx, q);
    }
}

/// Merging two or more distinct nodes leaves the graph with fewer nodes.
pub proof fn law_merge_shrinks(d: DagV, ids: Seq<Seq<char>>, summary: Seq<char>)
    requires
        merge_ok(d.nodes, ids),
        ids.no_duplicates(),
        ids.len() >= 2,
    ensures
        merged_dag(d, ids, summary).nodes.len() + ids.len() <= d.nodes.len() + 1,
        merged_dag(d, ids, summary).nodes.len() < d.nodes.len(),
{
    let m = node_id_text(d.next_id);
    let keep = |n: NodeV| !ids.contains(n.id);
    lemma_drop_ids_len(d.nodes, ids, keep);
    let rest = relinked_rest(d.nodes, ids, m);
    assert(rest.len() == d.nodes.filter(keep).len());
}

/// Merging keeps every node it does not merge: a node whose id is not
/// among the merged ones is still in the graph.
pub proof fn law_merge_keeps_others(d: DagV, ids: Seq<Seq<char>>, summary: Seq<char>, x: Seq<char>)
    requires
        has_id(d.nodes, x),
        !ids.contains(x),
    ensures
        has_id(merged_dag(d, ids, summary).nodes, x),
{
    let m = node_id_text(d.next_id);
    let keep = |n: NodeV| !ids.contains(n.id);
    let f = |n: NodeV| NodeV { parents: relink(n.parents, ids, m), ..n };
    let j = choose|j: int| 0 <= j < d.nodes.len() && (#[trigger] d.nodes[j]).id == x;
    d.nodes.lemma_filter_contains(keep, j);
    let kept = d.nodes.filter(keep);
    let q = choose|q: int| 0 <= q < kept.len() && kept[q] == d.nodes[j];
    let rest = relinked_rest(d.nodes, ids, m);
    assert(rest[q].id == x);
    let n = merge_node(d.nodes, ids, m, summary);
    if has_id(rest, n.id) {
        let i = index_of_id(rest, n.id);
        if i == q {
            assert(rest.update(i, n)[q].id == x);
        } else {
            assert(rest.update(i, n)[q] == rest[q]);
        }
    } else {
        assert(rest.push(n)[q] == rest[q]);
    }
}

proof fn lemma_add_parents_excludes(acc: Seq<Seq<char>>, ps: Seq<Seq<char>>, ids: Seq<Seq<char>>)
    requires
        forall|q: int| 0 <= q < acc.len() ==> !ids.contains(#[trigger] acc[q]),
    ensures
        forall|q: int| 0 <= q < add_parents(acc, ps, ids).len() ==> !ids.contains(#[trigger] add_parents(acc, ps, ids)[q]),
    decreases ps.len(),
{
    if ps.len() > 0 {
        lemma_add_parents_excludes(acc, ps.drop_last(), ids);
        let a = add_parents(acc, ps.drop_last(), ids);
        let p = ps.last();
        if !ids.contains(p) && !a.contains(p) {
            assert forall|q: int| 0 <= q < a.push(p).len() implies !ids.contains(#[trigger] a.push(p)[q]) by {
                if q < a.len() {
                    assert(a.push(p)[q] == a[q]);
                }
            }
        }
    }
}

proof fn lemma_gather_excludes(groups: Seq<Seq<Seq<char>>>, ids: Seq<Seq<char>>)
    ensures
        forall|q: int| 0 <= q < gather(groups, ids).len() ==> !ids.contains(#[trigger] gather(groups, ids)[q]),
    decreases groups.len(),
{
    if groups.len() > 0 {
        lemma_gather_excludes(groups.drop_last(), ids);
        lemma_add_parents_excludes(gather(groups.drop_last(), ids), groups.last(), ids);
    }
}

/// Merging nodes into a fresh node leaves no merged node behind, and no
/// node keeping a merged node as a parent: their children now point at the
/// merge node.
pub proof fn law_merge_leaves_no_reference(ns: Seq<NodeV>, ids: Seq<Seq<char>>, m: Seq<char>, summary: Seq<char>)
    requires
        !ids.contains(m),
    ensures
        forall|i: int|
            0 <= i < merged_nodes(ns, ids, m, summary).len() ==> !ids.contains(
                (#[trigger] merged_nodes(ns, ids, m, summary)[i]).id,
            ),
        forall|i: int, q: int|
            0 <= i < merged_nodes(ns, ids, m, summary).len() && 0 <= q < merged_nodes(
                ns,
                ids,
                m,
                summary,
            )[i].parents.len() ==> !ids.contains(#[trigger] merged_nodes(ns, ids, m, summary)[i].parents[q]),
{
    reveal(Seq::filter);
    let kept = ns.filter(|n: NodeV| !ids.contains(n.id));
    let r = merged_nodes(ns, ids, m, summary);
    assert(r.len() == kept.len() + 1);
    lemma_gather_excludes(parent_groups(ns, ids), ids);
    assert forall|i: int| 0 <= i < kept.len() implies !ids.contains((#[trigger] kept[i]).id) by {
        ns.lemma_filter_pred(|n: NodeV| !ids.contains(n.id), i);
    }
    assert forall|i: int| 0 <= i < r.len() implies !ids.contains((#[trigger] r[i]).id) by {
        if i < kept.len() {
            assert(r[i].id == kept[i].id);
        }
    }
    assert forall|i: int, q: int| 0 <= i < r.len() && 0 <= q < r[i].parents.len() implies !ids.contains(
        #[trigger] r[i].parents[q],
    ) by {
        if i < kept.len() {
            let ps = kept[i].parents;
            let f = ps.filter(|p: Seq<char>| !ids.contains(p));
            assert(r[i].parents == relink(ps, ids, m));
            if q < f.len() {
                ps.lemma_filter_pred(|p: Seq<char>| !ids.contains(p), q);
            } else {
                assert(r[i].parents[q] == m);
            }
        }
    }
}

} // verus!
