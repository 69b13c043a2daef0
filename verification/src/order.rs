//! The order of strings that `str`'s `Ord` gives (code point by code point,
//! a prefix first), and sorting by it.
use vstd::prelude::*;
use vstd::relations::{sorted_by, total_ordering};

verus! {

/// `a <= b` in the order of `str`: compare code points left to right; a
/// proper prefix comes first.
pub open spec fn lex_le(a: Seq<char>, b: Seq<char>) -> bool
    decreases a.len(),
{
    if a.len() == 0 {
        true
    } else if b.len() == 0 {
        false
    } else if a[0] != b[0] {
        a[0] < b[0]
    } else {
        lex_le(a.drop_first(), b.drop_first())
    }
}

pub open spec fn lex_leq() -> spec_fn(Seq<char>, Seq<char>) -> bool {
    |a: Seq<char>, b: Seq<char>| lex_le(a, b)
}

/// The views of a sequence of strings.
pub open spec fn views(s: Seq<String>) -> Seq<Seq<char>> {
    s.map_values(|x: String| x@)
}

pub proof fn lemma_lex_reflexive(a: Seq<char>)
    ensures
        lex_le(a, a),
    decreases a.len(),
{
    if a.len() > 0 {
        lemma_lex_reflexive(a.drop_first());
    }
}

pub proof fn lemma_lex_total(a: Seq<char>, b: Seq<char>)
    ensures
        lex_le(a, b) || lex_le(b, a),
    decreases a.len(),
{
    if a.len() > 0 && b.len() > 0 && a[0] == b[0] {
        lemma_lex_total(a.drop_first(), b.drop_first());
    }
}

pub proof fn lemma_lex_antisymmetric(a: Seq<char>, b: Seq<char>)
    requires
        lex_le(a, b),
        lex_le(b, a),
    ensures
        a == b,
    decreases a.len(),
{
    if a.len() > 0 && b.len() > 0 {
        if a[0] == b[0] {
            lemma_lex_antisymmetric(a.drop_first(), b.drop_first());
            assert(a =~= seq![a[0]] + a.drop_first());
            assert(b =~= seq![b[0]] + b.drop_first());
        } else {
            assert(a[0] < b[0]);
            assert(b[0] < a[0]);
        }
    }
}

pub proof fn lemma_lex_transitive(a: Seq<char>, b: Seq<char>, c: Seq<char>)
    requires
        lex_le(a, b),
        lex_le(b, c),
    ensures
        lex_le(a, c),
    decreases a.len(),
{
    if a.len() > 0 && b.len() > 0 && c.len() > 0 && a[0] == b[0] && b[0] == c[0] {
        lemma_lex_transitive(a.drop_first(), b.drop_first(), c.drop_first());
    }
}

pub proof fn lemma_lex_total_ordering()
    ensures
        total_ordering(lex_leq()),
{
    assert forall|a: Seq<char>| #[trigger] lex_leq()(a, a) by {
        lemma_lex_reflexive(a);
    }
    assert forall|a: Seq<char>, b: Seq<char>|
        #[trigger] lex_leq()(a, b) && #[trigger] lex_leq()(b, a) implies a == b by {
        lemma_lex_antisymmetric(a, b);
    }
    assert forall|a: Seq<char>, b: Seq<char>, c: Seq<char>|
        #[trigger] lex_leq()(a, b) && #[trigger] lex_leq()(b, c) implies lex_leq()(a, c) by {
        lemma_lex_transitive(a, b, c);
    }
    assert forall|a: Seq<char>, b: Seq<char>|
        #[trigger] lex_leq()(a, b) || #[trigger] lex_leq()(b, a) by {
        lemma_lex_total(a, b);
    }
}

/// `a <= b` in the order of `str`.
pub fn str_le(a: &str, b: &str) -> (r: bool)
    ensures
        r == lex_le(a@, b@),
{
    let n = a.unicode_len();
    let m = b.unicode_len();
    let mut i: usize = 0;
    assert(a@.subrange(0, n as int) =~= a@);
    assert(b@.subrange(0, m as int) =~= b@);
    while i < n && i < m
        invariant
            n == a@.len(),
            m == b@.len(),
            i <= n,
            i <= m,
            lex_le(a@, b@) == lex_le(a@.subrange(i as int, n as int), b@.subrange(i as int, m as int)),
        decreases n - i,
    {
        let x = a.get_char(i);
        let y = b.get_char(i);
        let ghost sa = a@.subrange(i as int, n as int);
        let ghost sb = b@.subrange(i as int, m as int);
        assert(sa[0] == x && sb[0] == y);
        if x != y {
            return x < y;
        }
        assert(sa.drop_first() =~= a@.subrange(i + 1, n as int));
        assert(sb.drop_first() =~= b@.subrange(i + 1, m as int));
        i = i + 1;
    }
    i == n
}

proof fn lemma_insert_multiset(s: Seq<Seq<char>>, pos: int, x: Seq<char>)
    requires
        0 <= pos <= s.len(),
    ensures
        s.insert(pos, x).to_multiset() =~= s.to_multiset().insert(x),
{
    let l = s.subrange(0, pos);
    let r = s.subrange(pos, s.len() as int);
    assert(s =~= l + r);
    assert(s.insert(pos, x) =~= l.push(x) + r);
    vstd::seq_lib::lemma_multiset_commutative(l.push(x), r);
    vstd::seq_lib::lemma_multiset_commutative(l, r);
    broadcast use vstd::seq_lib::group_to_multiset_ensures;
    assert(l.push(x).to_multiset() =~= l.to_multiset().insert(x));
}

/// `v` sorted in the order of `str`, as `sort` leaves a vector of strings.
pub fn sort_strings(v: Vec<String>) -> (r: Vec<String>)
    ensures
        sorted_by(views(r@), lex_leq()),
        views(r@).to_multiset() == views(v@).to_multiset(),
        views(r@) == views(v@).sort_by(lex_leq()),
{
    let mut r: Vec<String> = Vec::new();
    let mut i: usize = 0;
    let ghost input = views(v@);
    assert(views(r@) =~= Seq::<Seq<char>>::empty());
    assert(input.subrange(0, 0) =~= Seq::<Seq<char>>::empty());
    while i < v.len()
        invariant
            i <= v@.len(),
            input == views(v@),
            sorted_by(views(r@), lex_leq()),
            views(r@).to_multiset() == input.subrange(0, i as int).to_multiset(),
        decreases v.len() - i,
    {
        let x = v[i].clone();
        let mut pos: usize = 0;
        while pos < r.len() && str_le(r[pos].as_str(), x.as_str())
            invariant
                pos <= r@.len(),
                forall|j: int| 0 <= j < pos ==> lex_le(#[trigger] views(r@)[j], x@),
            decreases r.len() - pos,
        {
            pos = pos + 1;
        }
        let ghost before = views(r@);
        proof {
            if pos < r@.len() {
                lemma_lex_total(before[pos as int], x@);
            }
        }
        r.insert(pos, x);
        proof {
            assert(views(r@) =~= before.insert(pos as int, x@));
            lemma_insert_multiset(before, pos as int, x@);
            assert(input.subrange(0, i + 1) =~= input.subrange(0, i as int).push(x@));
            broadcast use vstd::seq_lib::group_to_multiset_ensures;
            let s = views(r@);
            assert forall|a: int, b: int| 0 <= a < b < s.len() implies #[trigger] lex_leq()(
                s[a],
                s[b],
            ) by {
                if b < pos {
                    assert(s[a] == before[a] && s[b] == before[b]);
                } else if b == pos {
                    assert(s[a] == before[a]);
                } else if a == pos {
                    assert(s[b] == before[b - 1]);
                    if b - 1 > pos {
                        assert(lex_leq()(before[pos as int], before[b - 1]));
                        lemma_lex_transitive(x@, before[pos as int], before[b - 1]);
                    }
                } else if a < pos {
                    assert(s[a] == before[a] && s[b] == before[b - 1]);
                    assert(lex_leq()(before[a], before[b - 1]));
                } else {
                    assert(s[a] == before[a - 1] && s[b] == before[b - 1]);
                    assert(lex_leq()(before[a - 1], before[b - 1]));
                }
            }
        }
        i = i + 1;
    }
    proof {
        assert(input.subrange(0, v@.len() as int) =~= input);
        lemma_sorted_is_sort(views(r@), input);
    }
    r
}

/// A sorted rearrangement of `s` is what `sort_by` gives.
pub proof fn lemma_sorted_is_sort(x: Seq<Seq<char>>, s: Seq<Seq<char>>)
    requires
        sorted_by(x, lex_leq()),
        x.to_multiset() == s.to_multiset(),
    ensures
        x == s.sort_by(lex_leq()),
{
    lemma_lex_total_ordering();
    s.lemma_sort_by_ensures(lex_leq());
    vstd::seq_lib::lemma_sorted_unique(x, s.sort_by(lex_leq()), lex_leq());
}

} // verus!
