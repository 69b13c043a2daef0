//! Paths as text, the way `std::path` reads them on Unix: splitting into
//! components, joining, lexical normalisation, and component-wise prefixes.
//! What the filesystem says of a path (whether it exists, its canonical
//! form) is the host's to ask.
use vstd::prelude::*;
use crate::text::{chars_of, owned, push_all, string_of};

verus! {

/// A path component.
pub enum Comp {
    Root,
    Cur,
    Parent,
    Normal(Seq<char>),
}

/// `s` split at every `c`.
pub open spec fn split_on(s: Seq<char>, c: char) -> Seq<Seq<char>>
    decreases s.len(),
{
    if s.len() == 0 {
        seq![Seq::empty()]
    } else {
        let parts = split_on(s.drop_last(), c);
        if s.last() == c {
            parts.push(Seq::empty())
        } else {
            parts.update(parts.len() - 1, parts.last().push(s.last()))
        }
    }
}

pub proof fn lemma_split_on_len(s: Seq<char>, c: char)
    ensures
        split_on(s, c).len() >= 1,
    decreases s.len(),
{
    if s.len() > 0 {
        lemma_split_on_len(s.drop_last(), c);
    }
}

pub open spec fn dot() -> Seq<char> {
    seq!['.']
}

pub open spec fn dotdot() -> Seq<char> {
    seq!['.', '.']
}

/// The component a segment after the first stands for: none for an empty
/// segment or `.`.
pub open spec fn seg_comp(s: Seq<char>) -> Seq<Comp> {
    if s.len() == 0 || s == dot() {
        Seq::empty()
    } else if s == dotdot() {
        seq![Comp::Parent]
    } else {
        seq![Comp::Normal(s)]
    }
}

pub open spec fn rest_comps(segs: Seq<Seq<char>>) -> Seq<Comp>
    decreases segs.len(),
{
    if segs.len() == 0 {
        Seq::empty()
    } else {
        rest_comps(segs.drop_last()) + seg_comp(segs.last())
    }
}

pub open spec fn is_absolute(p: Seq<char>) -> bool {
    p.len() > 0 && p[0] == '/'
}

/// The components of a path, as `Path::components` gives them on Unix: the
/// root for a leading `/`, a leading `.` kept as the current directory,
/// `..` as the parent, empty segments and other `.` segments dropped.
pub open spec fn comps(p: Seq<char>) -> Seq<Comp> {
    let segs = split_on(p, '/');
    let first = segs[0];
    let head = if is_absolute(p) {
        seq![Comp::Root]
    } else if first == dot() {
        seq![Comp::Cur]
    } else {
        seg_comp(first)
    };
    head + rest_comps(segs.drop_first())
}

/// `base` joined with `p`, as `Path::join` does: an absolute `p` replaces
/// `base`; otherwise a separator goes between them unless `base` is empty
/// or already ends in one.
pub open spec fn join_spec(base: Seq<char>, p: Seq<char>) -> Seq<char> {
    if is_absolute(p) {
        p
    } else if base.len() == 0 {
        p
    } else if base.last() == '/' {
        base + p
    } else {
        base + seq!['/'] + p
    }
}

/// Joins `base` and `p`, as [`join_spec`] says.
pub fn join(base: &str, p: &str) -> (r: String)
    ensures
        r@ == join_spec(base@, p@),
{
    let b = chars_of(base);
    let q = chars_of(p);
    if q.len() > 0 && q[0] == '/' {
        return owned(p);
    }
    if b.len() == 0 {
        return owned(p);
    }
    let mut out = b;
    if out[out.len() - 1] != '/' {
        out.push('/');
    }
    push_all(&mut out, q.as_slice());
    string_of(out.as_slice())
}

pub open spec fn comp_text(c: Comp) -> Seq<char> {
    match c {
        Comp::Root => seq!['/'],
        Comp::Cur => dot(),
        Comp::Parent => dotdot(),
        Comp::Normal(s) => s,
    }
}

/// The path made of the given components, as collecting them into a
/// `PathBuf` writes it.
pub open spec fn render(cs: Seq<Comp>) -> Seq<char>
    decreases cs.len(),
{
    if cs.len() == 0 {
        Seq::empty()
    } else {
        join_spec(render(cs.drop_last()), comp_text(cs.last()))
    }
}

/// Lexical normalisation: `.` dropped, `..` removing the component before
/// it unless that is the root (at the root, or with nothing before it,
/// `..` is dropped), and a root starting over.
pub open spec fn clean_comps(cs: Seq<Comp>) -> Seq<Comp>
    decreases cs.len(),
{
    if cs.len() == 0 {
        Seq::empty()
    } else {
        let st = clean_comps(cs.drop_last());
        match cs.last() {
            Comp::Parent => if st.len() > 0 && st.last() != Comp::Root {
                st.drop_last()
            } else {
                st
            },
            Comp::Normal(s) => st.push(Comp::Normal(s)),
            Comp::Cur => st,
            Comp::Root => seq![Comp::Root],
        }
    }
}

/// A path normalised without touching the filesystem.
pub open spec fn lexical_clean_spec(p: Seq<char>) -> Seq<char> {
    render(clean_comps(comps(p)))
}

/// An executable path component.
pub enum Component {
    Root,
    Cur,
    Parent,
    Normal(Vec<char>),
}

impl View for Component {
    type V = Comp;

    open spec fn view(&self) -> Comp {
        match self {
            Component::Root => Comp::Root,
            Component::Cur => Comp::Cur,
            Component::Parent => Comp::Parent,
            Component::Normal(s) => Comp::Normal(s@),
        }
    }
}

pub open spec fn comp_views(s: Seq<Component>) -> Seq<Comp> {
    s.map_values(|c: Component| c@)
}

pub open spec fn seg_views(s: Seq<Vec<char>>) -> Seq<Seq<char>> {
    s.map_values(|v: Vec<char>| v@)
}

fn split_slashes(s: &Vec<char>) -> (r: Vec<Vec<char>>)
    ensures
        seg_views(r@) == split_on(s@, '/'),
{
    let mut parts: Vec<Vec<char>> = Vec::new();
    parts.push(Vec::new());
    let mut i: usize = 0;
    assert(s@.subrange(0, 0) =~= Seq::<char>::empty());
    assert(seg_views(parts@) =~= split_on(Seq::<char>::empty(), '/'));
    while i < s.len()
        invariant
            i <= s@.len(),
            parts@.len() >= 1,
            seg_views(parts@) == split_on(s@.subrange(0, i as int), '/'),
        decreases s.len() - i,
    {
        let ghost t = s@.subrange(0, i + 1);
        let ghost before = seg_views(parts@);
        assert(t.drop_last() =~= s@.subrange(0, i as int));
        assert(t.last() == s@[i as int]);
        if s[i] == '/' {
            parts.push(Vec::new());
            assert(seg_views(parts@) =~= before.push(Seq::empty()));
        } else {
            let last = parts.len() - 1;
            let mut seg = parts.pop().unwrap();
            seg.push(s[i]);
            parts.push(seg);
            assert(seg_views(parts@) =~= before.update(last as int, before.last().push(s@[i as int])));
        }
        i = i + 1;
    }
    assert(s@.subrange(0, s@.len() as int) =~= s@);
    parts
}

fn is_dot(s: &Vec<char>) -> (r: bool)
    ensures
        r == (s@ == dot()),
{
    if s.len() == 1 && s[0] == '.' {
        assert(s@ =~= dot());
        true
    } else {
        false
    }
}

fn is_dotdot(s: &Vec<char>) -> (r: bool)
    ensures
        r == (s@ == dotdot()),
{
    if s.len() == 2 && s[0] == '.' && s[1] == '.' {
        assert(s@ =~= dotdot());
        true
    } else {
        false
    }
}

fn push_seg_comp(out: &mut Vec<Component>, s: &Vec<char>)
    ensures
        comp_views(final(out)@) == comp_views(old(out)@) + seg_comp(s@),
{
    let ghost o = comp_views(out@);
    if s.len() == 0 || is_dot(s) {
        assert(comp_views(out@) =~= o + seg_comp(s@));
    } else if is_dotdot(s) {
        out.push(Component::Parent);
        assert(comp_views(out@) =~= o + seg_comp(s@));
    } else {
        let mut c: Vec<char> = Vec::new();
        push_all(&mut c, s.as_slice());
        assert(c@ =~= s@);
        out.push(Component::Normal(c));
        assert(comp_views(out@) =~= o + seg_comp(s@));
    }
}

/// The components of `p`, as [`comps`] says.
pub fn components(p: &str) -> (r: Vec<Component>)
    ensures
        comp_views(r@) == comps(p@),
{
    let s = chars_of(p);
    let segs = split_slashes(&s);
    proof {
        lemma_split_on_len(s@, '/');
    }
    let ghost sv = seg_views(segs@);
    let mut out: Vec<Component> = Vec::new();
    let absolute = s.len() > 0 && s[0] == '/';
    if absolute {
        out.push(Component::Root);
    } else if is_dot(&segs[0]) {
        out.push(Component::Cur);
    } else {
        push_seg_comp(&mut out, &segs[0]);
    }
    proof {
        assert(sv[0] == segs@[0]@);
        if absolute {
            assert(comp_views(out@) =~= seq![Comp::Root]);
        } else if sv[0] == dot() {
            assert(comp_views(out@) =~= seq![Comp::Cur]);
        } else {
            assert(comp_views(out@) =~= Seq::<Comp>::empty() + seg_comp(sv[0]));
        }
    }
    let ghost head = comp_views(out@);
    let ghost tail = sv.drop_first();
    let mut i: usize = 1;
    assert(tail.subrange(0, 0) =~= Seq::<Seq<char>>::empty());
    assert(comp_views(out@) =~= head + rest_comps(tail.subrange(0, 0)));
    while i < segs.len()
        invariant
            1 <= i <= segs@.len(),
            sv == seg_views(segs@),
            tail == sv.drop_first(),
            comp_views(out@) == head + rest_comps(tail.subrange(0, i - 1)),
        decreases segs.len() - i,
    {
        let ghost t = tail.subrange(0, i as int);
        assert(t.drop_last() =~= tail.subrange(0, i - 1));
        assert(t.last() == segs@[i as int]@);
        push_seg_comp(&mut out, &segs[i]);
        assert(comp_views(out@) =~= head + rest_comps(t));
        i = i + 1;
    }
    assert(tail.subrange(0, tail.len() as int) =~= tail);
    out
}

fn clone_comp(c: &Component) -> (r: Component)
    ensures
        r@ == c@,
{
    match c {
        Component::Root => Component::Root,
        Component::Cur => Component::Cur,
        Component::Parent => Component::Parent,
        Component::Normal(s) => {
            let mut v: Vec<char> = Vec::new();
            push_all(&mut v, s.as_slice());
            assert(v@ =~= s@);
            Component::Normal(v)
        },
    }
}

/// Normalises components lexically, as [`clean_comps`] says.
pub fn clean_components(cs: &Vec<Component>) -> (r: Vec<Component>)
    ensures
        comp_views(r@) == clean_comps(comp_views(cs@)),
{
    let ghost cv = comp_views(cs@);
    let mut st: Vec<Component> = Vec::new();
    let mut i: usize = 0;
    assert(cv.subrange(0, 0) =~= Seq::<Comp>::empty());
    assert(comp_views(st@) =~= Seq::<Comp>::empty());
    while i < cs.len()
        invariant
            i <= cs@.len(),
            cv == comp_views(cs@),
            comp_views(st@) == clean_comps(cv.subrange(0, i as int)),
        decreases cs.len() - i,
    {
        let ghost t = cv.subrange(0, i + 1);
        let ghost before = comp_views(st@);
        assert(t.drop_last() =~= cv.subrange(0, i as int));
        assert(t.last() == cs@[i as int]@);
        match &cs[i] {
            Component::Parent => {
                if st.len() > 0 {
                    let is_root = match &st[st.len() - 1] {
                        Component::Root => true,
                        _ => false,
                    };
                    if !is_root {
                        let _ = st.pop();
                        assert(comp_views(st@) =~= before.drop_last());
                    }
                }
            },
            Component::Normal(s) => {
                let c = clone_comp(&cs[i]);
                st.push(c);
                assert(comp_views(st@) =~= before.push(cs@[i as int]@));
            },
            Component::Cur => {},
            Component::Root => {
                st = Vec::new();
                st.push(Component::Root);
                assert(comp_views(st@) =~= seq![Comp::Root]);
            },
        }
        i = i + 1;
    }
    assert(cv.subrange(0, cs@.len() as int) =~= cv);
    st
}

/// The path made of the given components, as [`render`] says.
pub fn render_components(cs: &Vec<Component>) -> (r: String)
    ensures
        r@ == render(comp_views(cs@)),
{
    let ghost cv = comp_views(cs@);
    let mut out = String::new();
    let mut i: usize = 0;
    assert(cv.subrange(0, 0) =~= Seq::<Comp>::empty());
    while i < cs.len()
        invariant
            i <= cs@.len(),
            cv == comp_views(cs@),
            out@ == render(cv.subrange(0, i as int)),
        decreases cs.len() - i,
    {
        let ghost t = cv.subrange(0, i + 1);
        assert(t.drop_last() =~= cv.subrange(0, i as int));
        assert(t.last() == cs@[i as int]@);
        let piece = match &cs[i] {
            Component::Root => owned("/"),
            Component::Cur => owned("."),
            Component::Parent => owned(".."),
            Component::Normal(s) => string_of(s.as_slice()),
        };
        proof {
            reveal_strlit("/");
            reveal_strlit(".");
            reveal_strlit("..");
            assert(piece@ =~= comp_text(cs@[i as int]@));
        }
        out = join(out.as_str(), piece.as_str());
        i = i + 1;
    }
    assert(cv.subrange(0, cs@.len() as int) =~= cv);
    out
}

/// `p` normalised without touching the filesystem: `.` dropped, `..`
/// resolved against what precedes it (never above the root), repeated
/// separators collapsed.
pub fn lexical_clean(p: &str) -> (r: String)
    ensures
        r@ == lexical_clean_spec(p@),
{
    let cs = components(p);
    let cleaned = clean_components(&cs);
    render_components(&cleaned)
}

proof fn lemma_clean_comps_plain(cs: Seq<Comp>)
    ensures
        forall|i: int|
            0 <= i < clean_comps(cs).len() ==> (#[trigger] clean_comps(cs)[i] is Normal || (i == 0
                && clean_comps(cs)[i] is Root)),
    decreases cs.len(),
{
    if cs.len() > 0 {
        lemma_clean_comps_plain(cs.drop_last());
    }
}

/// Lexical normalisation resolves every `.` and `..`: what it leaves is a
/// root, first if at all, and plain names.
pub proof fn law_clean_resolves_dots(p: Seq<char>)
    ensures
        forall|i: int|
            0 <= i < clean_comps(comps(p)).len() ==> (#[trigger] clean_comps(comps(p))[i] is Normal || (i
                == 0 && clean_comps(comps(p))[i] is Root)),
{
    lemma_clean_comps_plain(comps(p));
}

/// Whether `base` is a component-wise prefix of `p`, as `Path::starts_with`
/// decides.
pub open spec fn starts_with_spec(p: Seq<char>, base: Seq<char>) -> bool {
    comps(base).len() <= comps(p).len() && comps(p).subrange(0, comps(base).len() as int) == comps(base)
}

fn comp_eq(a: &Component, b: &Component) -> (r: bool)
    ensures
        r == (a@ == b@),
{
    match (a, b) {
        (Component::Root, Component::Root) => true,
        (Component::Cur, Component::Cur) => true,
        (Component::Parent, Component::Parent) => true,
        (Component::Normal(x), Component::Normal(y)) => crate::text::chars_eq(x.as_slice(), y.as_slice()),
        _ => false,
    }
}

/// Whether `base` is a component-wise prefix of `p`.
pub fn starts_with(p: &str, base: &str) -> (r: bool)
    ensures
        r == starts_with_spec(p@, base@),
{
    let pc = components(p);
    let bc = components(base);
    if bc.len() > pc.len() {
        return false;
    }
    let mut i: usize = 0;
    while i < bc.len()
        invariant
            bc@.len() <= pc@.len(),
            comp_views(pc@) == comps(p@),
            comp_views(bc@) == comps(base@),
            i <= bc@.len(),
            forall|j: int| 0 <= j < i ==> comp_views(pc@)[j] == comp_views(bc@)[j],
        decreases bc.len() - i,
    {
        if !comp_eq(&pc[i], &bc[i]) {
            assert(comp_views(pc@).subrange(0, bc@.len() as int)[i as int] != comp_views(bc@)[i as int]);
            return false;
        }
        i = i + 1;
    }
    assert(comp_views(pc@).subrange(0, bc@.len() as int) =~= comp_views(bc@));
    true
}

} // verus!
