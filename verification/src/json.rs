//! JSON values as the configuration and module replies carry them, with the
//! recursive merge that layers one configuration file over another.
use vstd::prelude::*;
use crate::text::{chars_of, decimal, decimal_text, push_str, str_eq, string_of};

verus! {

/// A JSON number: a non-negative integer, a negative integer, or any other
/// number kept as its text.
pub enum JsonNumber {
    PosInt(u64),
    NegInt(i64),
    Float(String),
}

pub enum NumberV {
    PosInt(u64),
    NegInt(i64),
    Float(Seq<char>),
}

impl View for JsonNumber {
    type V = NumberV;

    open spec fn view(&self) -> NumberV {
        match self {
            JsonNumber::PosInt(u) => NumberV::PosInt(*u),
            JsonNumber::NegInt(i) => NumberV::NegInt(*i),
            JsonNumber::Float(s) => NumberV::Float(s@),
        }
    }
}

/// A JSON value. An object keeps its members in order, each key once.
pub enum Json {
    Null,
    Bool(bool),
    Number(JsonNumber),
    Str(String),
    Array(Vec<Json>),
    Object(Vec<(String, Json)>),
}

/// The mathematical value of a [`Json`].
pub enum JsonV {
    Null,
    Bool(bool),
    Number(NumberV),
    Str(Seq<char>),
    Array(Seq<JsonV>),
    Object(Seq<(Seq<char>, JsonV)>),
}

pub open spec fn view_json(j: Json) -> JsonV
    decreases j, 0nat,
{
    match j {
        Json::Null => JsonV::Null,
        Json::Bool(b) => JsonV::Bool(b),
        Json::Number(n) => JsonV::Number(n@),
        Json::Str(s) => JsonV::Str(s@),
        Json::Array(v) => JsonV::Array(view_array(v@)),
        Json::Object(m) => JsonV::Object(view_object(m@)),
    }
}

pub open spec fn view_array(s: Seq<Json>) -> Seq<JsonV>
    decreases s, 1nat,
{
    if s.len() == 0 {
        Seq::empty()
    } else {
        view_array(s.drop_last()).push(view_json(s.last()))
    }
}

pub open spec fn view_object(s: Seq<(String, Json)>) -> Seq<(Seq<char>, JsonV)>
    decreases s, 1nat,
{
    if s.len() == 0 {
        Seq::empty()
    } else {
        view_object(s.drop_last()).push((s.last().0@, view_json(s.last().1)))
    }
}


/// The key every extension entry is merged by.
pub open spec fn name_key() -> Seq<char> {
    seq!['n', 'a', 'm', 'e']
}

/// The member whose array is merged entry by entry rather than replaced.
pub open spec fn extensions_key() -> Seq<char> {
    seq!['e', 'x', 't', 'e', 'n', 's', 'i', 'o', 'n', 's']
}

/// Index of the first member named `k`, or -1.
pub open spec fn key_index(m: Seq<(Seq<char>, JsonV)>, k: Seq<char>) -> int
    decreases m.len(),
{
    if m.len() == 0 {
        -1
    } else if m[0].0 == k {
        0
    } else {
        let r = key_index(m.drop_first(), k);
        if r < 0 {
            -1
        } else {
            r + 1
        }
    }
}

/// The value of member `k`, as `Value::get` reads it.
pub open spec fn obj_get(m: Seq<(Seq<char>, JsonV)>, k: Seq<char>) -> Option<JsonV> {
    let i = key_index(m, k);
    if i >= 0 {
        Some(m[i].1)
    } else {
        None
    }
}

/// `m` with member `k` set to `v`: replaced where it is, appended otherwise.
pub open spec fn obj_insert(m: Seq<(Seq<char>, JsonV)>, k: Seq<char>, v: JsonV) -> Seq<
    (Seq<char>, JsonV),
> {
    let i = key_index(m, k);
    if i >= 0 {
        m.update(i, (k, v))
    } else {
        m.push((k, v))
    }
}

/// The `"name"` of an extension entry, when it is an object with a string
/// `name`.
pub open spec fn ext_name(e: JsonV) -> Option<Seq<char>> {
    match e {
        JsonV::Object(m) => match obj_get(m, name_key()) {
            Some(JsonV::Str(s)) => Some(s),
            _ => None,
        },
        _ => None,
    }
}

/// Index of the first entry of `a` named `n`, or -1.
pub open spec fn ext_index(a: Seq<JsonV>, n: Seq<char>) -> int
    decreases a.len(),
{
    if a.len() == 0 {
        -1
    } else if ext_name(a[0]) == Some(n) {
        0
    } else {
        let r = ext_index(a.drop_first(), n);
        if r < 0 {
            -1
        } else {
            r + 1
        }
    }
}

/// Merging `b` into `a`: two objects merge member by member, anything else
/// is replaced by `b`.
pub open spec fn merge(a: JsonV, b: JsonV) -> JsonV
    decreases b,
{
    match b {
        JsonV::Object(bm) => match a {
            JsonV::Object(am) => JsonV::Object(merge_members(am, bm)),
            _ => b,
        },
        _ => b,
    }
}

/// Folds the members of `bm`, in order, into `am`.
pub open spec fn merge_members(am: Seq<(Seq<char>, JsonV)>, bm: Seq<(Seq<char>, JsonV)>) -> Seq<
    (Seq<char>, JsonV),
>
    decreases bm,
{
    if bm.len() == 0 {
        am
    } else {
        let k = bm[0].0;
        let v = bm[0].1;
        let next = if k == extensions_key() {
            match obj_get(am, k) {
                Some(JsonV::Array(ax)) => match v {
                    JsonV::Array(bx) => obj_insert(am, k, JsonV::Array(merge_exts(ax, bx))),
                    _ => am,
                },
                _ => obj_insert(am, k, v),
            }
        } else {
            let cur = match obj_get(am, k) {
                Some(x) => x,
                None => JsonV::Null,
            };
            obj_insert(am, k, merge(cur, v))
        };
        merge_members(next, bm.drop_first())
    }
}

/// Folds the extension entries of `bx`, in order, into `ax`: an entry with a
/// string `name` merges into the first entry of that name, every other entry
/// is appended.
pub open spec fn merge_exts(ax: Seq<JsonV>, bx: Seq<JsonV>) -> Seq<JsonV>
    decreases bx,
{
    if bx.len() == 0 {
        ax
    } else {
        let e = bx[0];
        let next = match ext_name(e) {
            Some(n) => {
                let i = ext_index(ax, n);
                if i >= 0 {
                    ax.update(i, merge(ax[i], e))
                } else {
                    ax.push(e)
                }
            },
            None => ax.push(e),
        };
        merge_exts(next, bx.drop_first())
    }
}

impl View for Json {
    type V = JsonV;

    open spec fn view(&self) -> JsonV {
        view_json(*self)
    }
}


pub proof fn lemma_view_array(s: Seq<Json>)
    ensures
        view_array(s).len() == s.len(),
        forall|i: int| 0 <= i < s.len() ==> #[trigger] view_array(s)[i] == view_json(s[i]),
    decreases s.len(),
{
    if s.len() > 0 {
        lemma_view_array(s.drop_last());
        assert forall|i: int| 0 <= i < s.len() implies #[trigger] view_array(s)[i] == view_json(
            s[i],
        ) by {
            if i < s.len() - 1 {
                assert(s.drop_last()[i] == s[i]);
            }
        }
    }
}

pub proof fn lemma_view_object(s: Seq<(String, Json)>)
    ensures
        view_object(s).len() == s.len(),
        forall|i: int|
            0 <= i < s.len() ==> #[trigger] view_object(s)[i] == (s[i].0@, view_json(s[i].1)),
    decreases s.len(),
{
    if s.len() > 0 {
        lemma_view_object(s.drop_last());
        assert forall|i: int| 0 <= i < s.len() implies #[trigger] view_object(s)[i] == (
            s[i].0@,
            view_json(s[i].1),
        ) by {
            if i < s.len() - 1 {
                assert(s.drop_last()[i] == s[i]);
            }
        }
    }
}

pub proof fn lemma_key_index(m: Seq<(Seq<char>, JsonV)>, k: Seq<char>)
    ensures
        -1 <= key_index(m, k) < m.len(),
        key_index(m, k) >= 0 ==> m[key_index(m, k)].0 == k,
        forall|j: int| 0 <= j < key_index(m, k) ==> #[trigger] m[j].0 != k,
        key_index(m, k) == -1 ==> forall|j: int| 0 <= j < m.len() ==> #[trigger] m[j].0 != k,
    decreases m.len(),
{
    if m.len() > 0 && m[0].0 != k {
        lemma_key_index(m.drop_first(), k);
        assert forall|j: int| 1 <= j < m.len() implies m[j].0 == m.drop_first()[j - 1].0 by {}
    }
}

pub proof fn lemma_ext_index(a: Seq<JsonV>, n: Seq<char>)
    ensures
        -1 <= ext_index(a, n) < a.len(),
        ext_index(a, n) >= 0 ==> ext_name(a[ext_index(a, n)]) == Some(n),
        forall|j: int| 0 <= j < ext_index(a, n) ==> ext_name(#[trigger] a[j]) != Some(n),
        ext_index(a, n) == -1 ==> forall|j: int|
            0 <= j < a.len() ==> ext_name(#[trigger] a[j]) != Some(n),
    decreases a.len(),
{
    if a.len() > 0 && ext_name(a[0]) != Some(n) {
        lemma_ext_index(a.drop_first(), n);
        assert forall|j: int| 1 <= j < a.len() implies a[j] == a.drop_first()[j - 1] by {}
    }
}

impl JsonNumber {
    pub fn clone_number(&self) -> (r: JsonNumber)
        ensures
            r@ == self@,
    {
        match self {
            JsonNumber::PosInt(u) => JsonNumber::PosInt(*u),
            JsonNumber::NegInt(i) => JsonNumber::NegInt(*i),
            JsonNumber::Float(s) => JsonNumber::Float(s.clone()),
        }
    }
}

impl Json {
    /// A deep copy.
    #[verifier::loop_isolation(false)]
    pub fn clone_json(&self) -> (r: Json)
        ensures
            r@ == self@,
        decreases self,
    {
        match self {
            Json::Null => Json::Null,
            Json::Bool(b) => Json::Bool(*b),
            Json::Number(n) => Json::Number(n.clone_number()),
            Json::Str(s) => Json::Str(s.clone()),
            Json::Array(v) => {
                let mut out: Vec<Json> = Vec::new();
                let mut i: usize = 0;
                while i < v.len()
                    invariant
                        i <= v@.len(),
                        out@.len() == i,
                        forall|j: int| 0 <= j < i ==> view_json(#[trigger] out@[j]) == view_json(v@[j]),
                    decreases v.len() - i,
                {
                    proof {
                        let ghost j: Json = *self;
                        assert(decreases_to!(j => j->Array_0));
                        assert(decreases_to!(*v => v@));
                        assert(decreases_to!(v@ => v@[i as int]));
                    }
                    let c = v[i].clone_json();
                    out.push(c);
                    i = i + 1;
                }
                proof {
                    lemma_view_array(out@);
                    lemma_view_array(v@);
                    assert(view_array(out@) =~= view_array(v@));
                }
                Json::Array(out)
            },
            Json::Object(m) => {
                let mut out: Vec<(String, Json)> = Vec::new();
                let mut i: usize = 0;
                while i < m.len()
                    invariant
                        i <= m@.len(),
                        out@.len() == i,
                        forall|j: int|
                            0 <= j < i ==> (#[trigger] out@[j]).0@ == m@[j].0@ && view_json(
                                out@[j].1,
                            ) == view_json(m@[j].1),
                    decreases m.len() - i,
                {
                    proof {
                        let ghost j: Json = *self;
                        assert(decreases_to!(j => j->Object_0));
                        assert(decreases_to!(*m => m@));
                        assert(decreases_to!(m@ => m@[i as int]));
                        assert(decreases_to!(m@[i as int] => m@[i as int].1));
                    }
                    let k = m[i].0.clone();
                    let c = m[i].1.clone_json();
                    out.push((k, c));
                    i = i + 1;
                }
                proof {
                    lemma_view_object(out@);
                    lemma_view_object(m@);
                    assert(view_object(out@) =~= view_object(m@));
                }
                Json::Object(out)
            },
        }
    }
}


proof fn lemma_key_found(m: Seq<(String, Json)>, k: Seq<char>, i: int)
    requires
        0 <= i < m.len(),
        m[i].0@ == k,
        forall|j: int| 0 <= j < i ==> (#[trigger] m[j]).0@ != k,
    ensures
        key_index(view_object(m), k) == i,
{
    lemma_view_object(m);
    let vm = view_object(m);
    lemma_key_index(vm, k);
    let ki = key_index(vm, k);
    assert(vm[i] == (m[i].0@, view_json(m[i].1)));
    assert(vm[i].0 == k);
    if 0 <= ki < i {
        assert(vm[ki] == (m[ki].0@, view_json(m[ki].1)));
        assert(m[ki].0@ != k);
    }
}

proof fn lemma_key_absent(m: Seq<(String, Json)>, k: Seq<char>)
    requires
        forall|j: int| 0 <= j < m.len() ==> (#[trigger] m[j]).0@ != k,
    ensures
        key_index(view_object(m), k) == -1,
{
    lemma_view_object(m);
    let vm = view_object(m);
    lemma_key_index(vm, k);
    let ki = key_index(vm, k);
    if ki >= 0 {
        assert(vm[ki] == (m[ki].0@, view_json(m[ki].1)));
        assert(m[ki].0@ != k);
    }
}

/// Position of the first member named `k`.
pub fn key_position(m: &Vec<(String, Json)>, k: &str) -> (r: Option<usize>)
    ensures
        match r {
            Some(i) => key_index(view_object(m@), k@) == i as int && i < m@.len(),
            None => key_index(view_object(m@), k@) == -1,
        },
{
    let mut i: usize = 0;
    while i < m.len()
        invariant
            i <= m@.len(),
            forall|j: int| 0 <= j < i ==> (#[trigger] m@[j]).0@ != k@,
        decreases m.len() - i,
    {
        if str_eq(m[i].0.as_str(), k) {
            proof {
                lemma_key_found(m@, k@, i as int);
            }
            return Some(i);
        }
        i = i + 1;
    }
    proof {
        lemma_key_absent(m@, k@);
    }
    None
}

/// The value of member `k`, as `Value::get` reads it on an object.
pub fn obj_get_ref<'a>(m: &'a Vec<(String, Json)>, k: &str) -> (r: Option<&'a Json>)
    ensures
        match r {
            Some(x) => obj_get(view_object(m@), k@) == Some(x@),
            None => obj_get(view_object(m@), k@) is None,
        },
{
    proof {
        lemma_view_object(m@);
    }
    match key_position(m, k) {
        Some(i) => Some(&m[i].1),
        None => None,
    }
}

/// Sets member `k` of `m` to `v`, in place when it exists and at the end
/// otherwise.
pub fn obj_set(m: &mut Vec<(String, Json)>, k: String, v: Json)
    ensures
        view_object(final(m)@) == obj_insert(view_object(old(m)@), k@, v@),
{
    proof {
        lemma_view_object(m@);
    }
    let ghost old_m = m@;
    match key_position(m, k.as_str()) {
        Some(i) => {
            m.set(i, (k, v));
            proof {
                lemma_view_object(m@);
                assert(view_object(m@) =~= view_object(old_m).update(i as int, (k@, v@)));
            }
        },
        None => {
            m.push((k, v));
            proof {
                lemma_view_object(m@);
                assert(view_object(m@) =~= view_object(old_m).push((k@, v@)));
            }
        },
    }
}

/// The string `"name"` of an extension entry, when it has one.
pub fn ext_name_of(e: &Json) -> (r: Option<&String>)
    ensures
        match r {
            Some(s) => ext_name(e@) == Some(s@),
            None => ext_name(e@) is None,
        },
{
    proof {
        reveal_strlit("name");
        assert("name"@ =~= name_key());
    }
    match e {
        Json::Object(m) => match obj_get_ref(m, "name") {
            Some(Json::Str(s)) => Some(s),
            _ => None,
        },
        _ => None,
    }
}

proof fn lemma_ext_found(a: Seq<Json>, n: Seq<char>, i: int)
    requires
        0 <= i < a.len(),
        ext_name(view_json(a[i])) == Some(n),
        forall|j: int| 0 <= j < i ==> ext_name(view_json(#[trigger] a[j])) != Some(n),
    ensures
        ext_index(view_array(a), n) == i,
{
    lemma_view_array(a);
    let va = view_array(a);
    lemma_ext_index(va, n);
    let ei = ext_index(va, n);
    assert(va[i] == view_json(a[i]));
    if 0 <= ei < i {
        assert(va[ei] == view_json(a[ei]));
    }
}

proof fn lemma_ext_absent(a: Seq<Json>, n: Seq<char>)
    requires
        forall|j: int| 0 <= j < a.len() ==> ext_name(view_json(#[trigger] a[j])) != Some(n),
    ensures
        ext_index(view_array(a), n) == -1,
{
    lemma_view_array(a);
    let va = view_array(a);
    lemma_ext_index(va, n);
    let ei = ext_index(va, n);
    if ei >= 0 {
        assert(va[ei] == view_json(a[ei]));
    }
}

/// Position of the first entry of `a` named `n`.
pub fn ext_position(a: &Vec<Json>, n: &String) -> (r: Option<usize>)
    ensures
        match r {
            Some(i) => ext_index(view_array(a@), n@) == i as int && i < a@.len(),
            None => ext_index(view_array(a@), n@) == -1,
        },
{
    let mut i: usize = 0;
    while i < a.len()
        invariant
            i <= a@.len(),
            forall|j: int| 0 <= j < i ==> ext_name(view_json(#[trigger] a@[j])) != Some(n@),
        decreases a.len() - i,
    {
        let hit = match ext_name_of(&a[i]) {
            Some(s) => str_eq(s.as_str(), n.as_str()),
            None => false,
        };
        if hit {
            proof {
                lemma_ext_found(a@, n@, i as int);
            }
            return Some(i);
        }
        i = i + 1;
    }
    proof {
        lemma_ext_absent(a@, n@);
    }
    None
}

/// Folds the extension entries of `bx` into `ax`, as [`merge_exts`] says.
#[verifier::loop_isolation(false)]
pub fn merge_exts_exec(ax: Vec<Json>, bx: &Vec<Json>) -> (r: Vec<Json>)
    ensures
        view_array(r@) == merge_exts(view_array(ax@), view_array(bx@)),
    decreases view_array(bx@),
{
    proof {
        lemma_view_array(bx@);
        lemma_view_array(ax@);
        assert(view_array(bx@).subrange(0, bx@.len() as int) =~= view_array(bx@));
    }
    let mut cur = ax;
    let n = bx.len();
    let mut i: usize = 0;
    while i < n
        invariant
            i <= n,
            n == bx@.len(),
            view_array(bx@).len() == n,
            merge_exts(view_array(cur@), view_array(bx@).subrange(i as int, n as int))
                == merge_exts(view_array(ax@), view_array(bx@)),
        decreases n - i,
    {
        let ghost t = view_array(bx@).subrange(i as int, n as int);
        let ghost before = view_array(cur@);
        proof {
            lemma_view_array(cur@);
            assert(t[0] == view_json(bx@[i as int]));
            assert(t.drop_first() =~= view_array(bx@).subrange(i + 1, n as int));
        }
        let e = bx[i].clone_json();
        let name = match ext_name_of(&e) {
            Some(s) => Some(s.clone()),
            None => None,
        };
        match name {
            Some(nm) => match ext_position(&cur, &nm) {
                Some(p) => {
                    let old = cur[p].clone_json();
                    proof {
                        assert(decreases_to!(view_array(bx@) => view_array(bx@)[i as int]));
                    }
                    let merged = merge_value(old, e);
                    cur.set(p, merged);
                    proof {
                        lemma_view_array(cur@);
                        assert(view_array(cur@) =~= before.update(
                            p as int,
                            merge(before[p as int], t[0]),
                        ));
                    }
                },
                None => {
                    cur.push(e);
                    proof {
                        lemma_view_array(cur@);
                        assert(view_array(cur@) =~= before.push(t[0]));
                    }
                },
            },
            None => {
                cur.push(e);
                proof {
                    lemma_view_array(cur@);
                    assert(view_array(cur@) =~= before.push(t[0]));
                }
            },
        }
        i = i + 1;
    }
    proof {
        assert(view_array(bx@).subrange(n as int, n as int) =~= Seq::<JsonV>::empty());
    }
    cur
}

/// A deep copy of a vector of values.
pub fn clone_array(v: &Vec<Json>) -> (r: Vec<Json>)
    ensures
        view_array(r@) == view_array(v@),
{
    let mut out: Vec<Json> = Vec::new();
    let mut i: usize = 0;
    while i < v.len()
        invariant
            i <= v@.len(),
            out@.len() == i,
            forall|j: int| 0 <= j < i ==> view_json(#[trigger] out@[j]) == view_json(v@[j]),
        decreases v.len() - i,
    {
        out.push(v[i].clone_json());
        i = i + 1;
    }
    proof {
        lemma_view_array(out@);
        lemma_view_array(v@);
        assert(view_array(out@) =~= view_array(v@));
    }
    out
}

/// Folds the members of `bm` into `am`, as [`merge_members`] says.
#[verifier::loop_isolation(false)]
pub fn merge_members_exec(am: Vec<(String, Json)>, bm: &Vec<(String, Json)>) -> (r: Vec<
    (String, Json),
>)
    ensures
        view_object(r@) == merge_members(view_object(am@), view_object(bm@)),
    decreases view_object(bm@),
{
    proof {
        lemma_view_object(bm@);
        assert(view_object(bm@).subrange(0, bm@.len() as int) =~= view_object(bm@));
        reveal_strlit("extensions");
        assert("extensions"@ =~= extensions_key());
    }
    let mut cur = am;
    let n = bm.len();
    let mut i: usize = 0;
    while i < n
        invariant
            i <= n,
            n == bm@.len(),
            view_object(bm@).len() == n,
            "extensions"@ == extensions_key(),
            merge_members(view_object(cur@), view_object(bm@).subrange(i as int, n as int))
                == merge_members(view_object(am@), view_object(bm@)),
        decreases n - i,
    {
        let ghost t = view_object(bm@).subrange(i as int, n as int);
        let ghost before = view_object(cur@);
        proof {
            assert(t[0] == (bm@[i as int].0@, view_json(bm@[i as int].1)));
            assert(t.drop_first() =~= view_object(bm@).subrange(i + 1, n as int));
        }
        let k = bm[i].0.clone();
        let v = bm[i].1.clone_json();
        proof {
            assert(decreases_to!(view_object(bm@) => view_object(bm@)[i as int]));
            assert(decreases_to!(view_object(bm@)[i as int] => view_object(bm@)[i as int].1));
        }
        if str_eq(k.as_str(), "extensions") {
            let existing: Option<Vec<Json>> = match obj_get_ref(&cur, k.as_str()) {
                Some(Json::Array(ax)) => Some(clone_array(ax)),
                _ => None,
            };
            match existing {
                Some(axc) => {
                    match &v {
                        Json::Array(bx) => {
                            proof {
                                let vv = view_object(bm@)[i as int].1;
                                assert(vv == JsonV::Array(view_array(bx@)));
                                assert(decreases_to!(vv => vv->Array_0));
                            }
                            let merged = merge_exts_exec(axc, bx);
                            obj_set(&mut cur, k, Json::Array(merged));
                        },
                        _ => {},
                    }
                },
                None => {
                    obj_set(&mut cur, k, v);
                },
            }
        } else {
            let curv = match obj_get_ref(&cur, k.as_str()) {
                Some(x) => x.clone_json(),
                None => Json::Null,
            };
            let merged = merge_value(curv, v);
            obj_set(&mut cur, k, merged);
        }
        i = i + 1;
    }
    proof {
        assert(view_object(bm@).subrange(n as int, n as int) =~= Seq::<
            (Seq<char>, JsonV),
        >::empty());
    }
    cur
}

/// Merging `b` into `a`, as [`merge`] says.
pub fn merge_value(a: Json, b: Json) -> (r: Json)
    ensures
        r@ == merge(a@, b@),
    decreases b@,
{
    match b {
        Json::Object(bm) => match a {
            Json::Object(am) => {
                let ghost bv = view_json(Json::Object(bm));
                proof {
                    assert(decreases_to!(bv => bv->Object_0));
                }
                Json::Object(merge_members_exec(am, &bm))
            },
            _ => Json::Object(bm),
        },
        other => other,
    }
}

/// Recursively merges `b` into `a`. Two objects merge member by member; the
/// `"extensions"` member, when both sides hold an array, merges entry by
/// entry on each entry's `"name"`; anything else is replaced by `b`.
pub fn merge_json_value(a: &mut Json, b: Json)
    ensures
        final(a)@ == merge(old(a)@, b@),
{
    let mut tmp = Json::Null;
    std::mem::swap(a, &mut tmp);
    *a = merge_value(tmp, b);
}


/// A value whose JSON text reads back as what it holds: arrays and
/// objects nested at most `depth` deep, every key once in its object, no
/// number kept as text, and every number of the negative kind negative.
pub open spec fn plain_json(v: JsonV, depth: nat) -> bool
    decreases v,
{
    match v {
        JsonV::Number(NumberV::Float(_)) => false,
        JsonV::Number(NumberV::NegInt(i)) => i < 0,
        JsonV::Array(a) => depth > 0 && forall|i: int| 0 <= i < a.len() ==> plain_json(#[trigger] a[i], (depth - 1) as nat),
        JsonV::Object(m) => depth > 0 && (forall|i: int, j: int|
            0 <= i < j < m.len() ==> (#[trigger] m[i]).0 != (#[trigger] m[j]).0) && forall|i: int|
            0 <= i < m.len() ==> plain_json((#[trigger] m[i]).1, (depth - 1) as nat),
        _ => true,
    }
}

/// Whether `b` holds what `a` holds: the same scalars, arrays of the same
/// length holding alike items, and, for every member of an object in `a`,
/// a member of the same key in `b` holding alike; members may come in
/// another order.
pub open spec fn json_alike(a: JsonV, b: JsonV) -> bool
    decreases a,
{
    match a {
        JsonV::Array(x) => match b {
            JsonV::Array(y) => x.len() == y.len() && forall|i: int|
                0 <= i < x.len() ==> json_alike(#[trigger] x[i], y[i]),
            _ => false,
        },
        JsonV::Object(m) => match b {
            JsonV::Object(n) => forall|i: int|
                0 <= i < m.len() ==> obj_get(n, (#[trigger] m[i]).0) is Some && json_alike(
                    m[i].1,
                    obj_get(n, m[i].0)->0,
                ),
            _ => false,
        },
        _ => a == b,
    }
}

/// A lowercase hexadecimal digit.
pub open spec fn hex_digit(d: nat) -> char {
    if d < 10 {
        crate::text::digit_char(d)
    } else if d == 10 {
        'a'
    } else if d == 11 {
        'b'
    } else if d == 12 {
        'c'
    } else if d == 13 {
        'd'
    } else if d == 14 {
        'e'
    } else {
        'f'
    }
}

/// How one character of a string is written inside JSON quotes: the quote,
/// the backslash and the control characters escaped, everything else as is.
pub open spec fn escape_char(c: char) -> Seq<char> {
    if c == '"' {
        seq!['\\', '"']
    } else if c == '\\' {
        seq!['\\', '\\']
    } else if c == '\n' {
        seq!['\\', 'n']
    } else if c == '\r' {
        seq!['\\', 'r']
    } else if c == '\t' {
        seq!['\\', 't']
    } else if c == '\u{8}' {
        seq!['\\', 'b']
    } else if c == '\u{c}' {
        seq!['\\', 'f']
    } else if (c as u32) < 0x20 {
        seq!['\\', 'u', '0', '0', hex_digit((c as u32 / 16) as nat), hex_digit((c as u32 % 16) as nat)]
    } else {
        seq![c]
    }
}

pub open spec fn escape(s: Seq<char>) -> Seq<char>
    decreases s.len(),
{
    if s.len() == 0 {
        Seq::empty()
    } else {
        escape(s.drop_last()) + escape_char(s.last())
    }
}

/// A string as a JSON string literal.
pub open spec fn quoted(s: Seq<char>) -> Seq<char> {
    seq!['"'] + escape(s) + seq!['"']
}

pub open spec fn number_text(n: NumberV) -> Seq<char> {
    match n {
        NumberV::PosInt(u) => decimal(u as nat),
        NumberV::NegInt(i) => if i < 0 {
            seq!['-'] + decimal((-i) as nat)
        } else {
            decimal(i as nat)
        },
        NumberV::Float(t) => t,
    }
}

/// The compact JSON text of a value, members in the order they are kept.
pub open spec fn json_text(v: JsonV) -> Seq<char>
    decreases v, 0nat,
{
    match v {
        JsonV::Null => seq!['n', 'u', 'l', 'l'],
        JsonV::Bool(b) => if b {
            seq!['t', 'r', 'u', 'e']
        } else {
            seq!['f', 'a', 'l', 's', 'e']
        },
        JsonV::Number(n) => number_text(n),
        JsonV::Str(s) => quoted(s),
        JsonV::Array(a) => seq!['['] + items_text(a) + seq![']'],
        JsonV::Object(m) => seq!['{'] + members_text(m) + seq!['}'],
    }
}

pub open spec fn items_text(a: Seq<JsonV>) -> Seq<char>
    decreases a, 1nat,
{
    if a.len() == 0 {
        Seq::empty()
    } else if a.len() == 1 {
        json_text(a[0])
    } else {
        items_text(a.drop_last()) + seq![','] + json_text(a.last())
    }
}

pub open spec fn members_text(m: Seq<(Seq<char>, JsonV)>) -> Seq<char>
    decreases m, 1nat,
{
    if m.len() == 0 {
        Seq::empty()
    } else if m.len() == 1 {
        quoted(m[0].0) + seq![':'] + json_text(m[0].1)
    } else {
        members_text(m.drop_last()) + seq![','] + quoted(m.last().0) + seq![':'] + json_text(
            m.last().1,
        )
    }
}

fn hex_char(d: u32) -> (c: char)
    requires
        d < 16,
    ensures
        c == hex_digit(d as nat),
{
    if d == 0 { '0' } else if d == 1 { '1' } else if d == 2 { '2' } else if d == 3 { '3' }
    else if d == 4 { '4' } else if d == 5 { '5' } else if d == 6 { '6' } else if d == 7 { '7' }
    else if d == 8 { '8' } else if d == 9 { '9' } else if d == 10 { 'a' } else if d == 11 { 'b' }
    else if d == 12 { 'c' } else if d == 13 { 'd' } else if d == 14 { 'e' } else { 'f' }
}

fn push_escaped_char(out: &mut Vec<char>, c: char)
    ensures
        final(out)@ == old(out)@ + escape_char(c),
{
    let ghost o = out@;
    if c == '"' {
        out.push('\\');
        out.push('"');
    } else if c == '\\' {
        out.push('\\');
        out.push('\\');
    } else if c == '\n' {
        out.push('\\');
        out.push('n');
    } else if c == '\r' {
        out.push('\\');
        out.push('r');
    } else if c == '\t' {
        out.push('\\');
        out.push('t');
    } else if c == '\u{8}' {
        out.push('\\');
        out.push('b');
    } else if c == '\u{c}' {
        out.push('\\');
        out.push('f');
    } else if (c as u32) < 0x20 {
        let u = c as u32;
        out.push('\\');
        out.push('u');
        out.push('0');
        out.push('0');
        out.push(hex_char(u / 16));
        out.push(hex_char(u % 16));
    } else {
        out.push(c);
    }
    assert(out@ =~= o + escape_char(c));
}

/// Appends `s` as a JSON string literal.
pub fn push_quoted(out: &mut Vec<char>, s: &str)
    ensures
        final(out)@ == old(out)@ + quoted(s@),
{
    let ghost o = out@;
    let cs = chars_of(s);
    out.push('"');
    let mut i: usize = 0;
    while i < cs.len()
        invariant
            i <= cs@.len(),
            cs@ == s@,
            out@ == o + seq!['"'] + escape(cs@.subrange(0, i as int)),
        decreases cs.len() - i,
    {
        let ghost before = out@;
        push_escaped_char(out, cs[i]);
        proof {
            let t = cs@.subrange(0, i + 1);
            assert(t.drop_last() =~= cs@.subrange(0, i as int));
            assert(t.last() == cs@[i as int]);
            assert(out@ =~= o + seq!['"'] + escape(t));
        }
        i = i + 1;
    }
    out.push('"');
    assert(cs@.subrange(0, cs@.len() as int) =~= s@);
    assert(out@ =~= o + quoted(s@));
}

fn push_number(out: &mut Vec<char>, n: &JsonNumber)
    ensures
        final(out)@ == old(out)@ + number_text(n@),
{
    match n {
        JsonNumber::PosInt(u) => {
            let t = decimal_text(*u as u128);
            push_str(out, t.as_str());
        },
        JsonNumber::NegInt(i) => {
            if *i < 0 {
                out.push('-');
                let m: i128 = -(*i as i128);
                let t = decimal_text(m as u128);
                push_str(out, t.as_str());
            } else {
                let t = decimal_text(*i as u128);
                push_str(out, t.as_str());
            }
        },
        JsonNumber::Float(t) => {
            push_str(out, t.as_str());
        },
    }
}

/// Appends the JSON text of `v`.
#[verifier::loop_isolation(false)]
#[verifier::spinoff_prover]
#[verifier::rlimit(40)]
pub fn push_json(out: &mut Vec<char>, v: &Json)
    ensures
        final(out)@ == old(out)@ + json_text(v@),
    decreases v,
{
    let ghost o = out@;
    match v {
        Json::Null => {
            push_str(out, "null");
            proof {
                reveal_strlit("null");
            }
        },
        Json::Bool(b) => {
            if *b {
                push_str(out, "true");
                proof {
                    reveal_strlit("true");
                }
            } else {
                push_str(out, "false");
                proof {
                    reveal_strlit("false");
                }
            }
        },
        Json::Number(n) => {
            push_number(out, n);
        },
        Json::Str(s) => {
            push_quoted(out, s.as_str());
        },
        Json::Array(a) => {
            out.push('[');
            let mut i: usize = 0;
            proof {
                lemma_view_array(a@);
            }
            while i < a.len()
                invariant
                    i <= a@.len(),
                    view_array(a@).len() == a@.len(),
                    out@ == o + seq!['['] + items_text(view_array(a@).subrange(0, i as int)),
                decreases a.len() - i,
            {
                proof {
                    let ghost j: Json = *v;
                    assert(decreases_to!(j => j->Array_0));
                    assert(decreases_to!(*a => a@));
                    assert(decreases_to!(a@ => a@[i as int]));
                }
                if i > 0 {
                    out.push(',');
                }
                push_json(out, &a[i]);
                proof {
                    let t = view_array(a@).subrange(0, i + 1);
                    assert(t.drop_last() =~= view_array(a@).subrange(0, i as int));
                    assert(t.last() == view_json(a@[i as int]));
                    assert(t.len() == 1 ==> t[0] == t.last());
                    assert(out@ =~= o + seq!['['] + items_text(t));
                }
                i = i + 1;
            }
            out.push(']');
            proof {
                assert(view_array(a@).subrange(0, a@.len() as int) =~= view_array(a@));
                assert(out@ =~= o + json_text(v@));
            }
        },
        Json::Object(m) => {
            out.push('{');
            let mut i: usize = 0;
            proof {
                lemma_view_object(m@);
            }
            while i < m.len()
                invariant
                    i <= m@.len(),
                    view_object(m@).len() == m@.len(),
                    out@ == o + seq!['{'] + members_text(view_object(m@).subrange(0, i as int)),
                decreases m.len() - i,
            {
                proof {
                    let ghost j: Json = *v;
                    assert(decreases_to!(j => j->Object_0));
                    assert(decreases_to!(*m => m@));
                    assert(decreases_to!(m@ => m@[i as int]));
                    assert(decreases_to!(m@[i as int] => m@[i as int].1));
                }
                if i > 0 {
                    out.push(',');
                }
                push_quoted(out, m[i].0.as_str());
                out.push(':');
                push_json(out, &m[i].1);
                proof {
                    let t = view_object(m@).subrange(0, i + 1);
                    assert(t.drop_last() =~= view_object(m@).subrange(0, i as int));
                    assert(t.last() == (m@[i as int].0@, view_json(m@[i as int].1)));
                    assert(t.len() == 1 ==> t[0] == t.last());
                    assert(out@ =~= o + seq!['{'] + members_text(t));
                }
                i = i + 1;
            }
            out.push('}');
            proof {
                assert(view_object(m@).subrange(0, m@.len() as int) =~= view_object(m@));
                assert(out@ =~= o + json_text(v@));
            }
        },
    }
}

/// The compact JSON text of `v`.
pub fn to_json_text(v: &Json) -> (r: String)
    ensures
        r@ == json_text(v@),
{
    let mut out: Vec<char> = Vec::new();
    push_json(&mut out, v);
    assert(out@ =~= json_text(v@));
    string_of(out.as_slice())
}

proof fn lemma_same_keys_index(m1: Seq<(Seq<char>, JsonV)>, m2: Seq<(Seq<char>, JsonV)>, k: Seq<char>)
    requires
        m1.len() == m2.len(),
        forall|j: int| 0 <= j < m1.len() ==> (#[trigger] m1[j]).0 == m2[j].0,
    ensures
        key_index(m1, k) == key_index(m2, k),
    decreases m1.len(),
{
    if m1.len() > 0 && m1[0].0 != k {
        assert(m2[0].0 == m1[0].0);
        let a = m1.drop_first();
        let b = m2.drop_first();
        assert forall|j: int| 0 <= j < a.len() implies (#[trigger] a[j]).0 == b[j].0 by {
            assert(a[j] == m1[j + 1]);
            assert(b[j] == m2[j + 1]);
        }
        lemma_same_keys_index(a, b, k);
    } else if m1.len() > 0 {
        assert(m2[0].0 == m1[0].0);
    }
}

proof fn lemma_push_index(m: Seq<(Seq<char>, JsonV)>, x: (Seq<char>, JsonV), k: Seq<char>)
    requires
        x.0 != k,
    ensures
        key_index(m.push(x), k) == key_index(m, k),
    decreases m.len(),
{
    let mx = m.push(x);
    if m.len() == 0 {
        assert(mx.drop_first() =~= Seq::<(Seq<char>, JsonV)>::empty());
        assert(key_index(mx.drop_first(), k) == -1);
        assert(mx[0] == x);
        assert(key_index(mx, k) == -1);
    } else {
        assert(mx[0] == m[0]);
        if m[0].0 != k {
            assert(mx.drop_first() =~= m.drop_first().push(x));
            lemma_push_index(m.drop_first(), x, k);
        }
    }
}

/// Setting one member leaves every other member as it was.
proof fn lemma_obj_get_insert_other(m: Seq<(Seq<char>, JsonV)>, k2: Seq<char>, v: JsonV, k: Seq<char>)
    requires
        k != k2,
    ensures
        obj_get(obj_insert(m, k2, v), k) == obj_get(m, k),
{
    lemma_key_index(m, k2);
    lemma_key_index(m, k);
    let i = key_index(m, k2);
    let m2 = obj_insert(m, k2, v);
    if i >= 0 {
        assert forall|j: int| 0 <= j < m.len() implies (#[trigger] m[j]).0 == m2[j].0 by {}
        lemma_same_keys_index(m, m2, k);
        let t = key_index(m, k);
        if t >= 0 {
            assert(t != i);
            assert(m2[t] == m[t]);
        }
    } else {
        lemma_push_index(m, (k2, v), k);
        let t = key_index(m, k);
        if t >= 0 {
            assert(m2[t] == m[t]);
        }
    }
}

/// Setting a member makes it read back as what was set.
proof fn lemma_obj_get_insert_same(m: Seq<(Seq<char>, JsonV)>, k: Seq<char>, v: JsonV)
    ensures
        obj_get(obj_insert(m, k, v), k) == Some(v),
{
    lemma_key_index(m, k);
    let i = key_index(m, k);
    let m2 = obj_insert(m, k, v);
    if i >= 0 {
        assert forall|j: int| 0 <= j < m.len() implies (#[trigger] m[j]).0 == m2[j].0 by {}
        lemma_same_keys_index(m, m2, k);
    } else {
        lemma_key_index(m2, k);
        assert(m2[m.len() as int].0 == k);
        if key_index(m2, k) >= 0 && key_index(m2, k) < m.len() {
            assert(m2[key_index(m2, k)] == m[key_index(m2, k)]);
        }
        assert(key_index(m2, k) == m.len());
    }
}

/// One step of [`merge_members`]: the base after the first member of the
/// overlay is folded in.
pub open spec fn merge_step(am: Seq<(Seq<char>, JsonV)>, k: Seq<char>, v: JsonV) -> Seq<(Seq<char>, JsonV)> {
    if k == extensions_key() {
        match obj_get(am, k) {
            Some(JsonV::Array(ax)) => match v {
                JsonV::Array(bx) => obj_insert(am, k, JsonV::Array(merge_exts(ax, bx))),
                _ => am,
            },
            _ => obj_insert(am, k, v),
        }
    } else {
        let cur = match obj_get(am, k) {
            Some(x) => x,
            None => JsonV::Null,
        };
        obj_insert(am, k, merge(cur, v))
    }
}

proof fn lemma_merge_members_unfold(am: Seq<(Seq<char>, JsonV)>, bm: Seq<(Seq<char>, JsonV)>)
    requires
        bm.len() > 0,
    ensures
        merge_members(am, bm) == merge_members(merge_step(am, bm[0].0, bm[0].1), bm.drop_first()),
{
}

/// Layering one configuration over another keeps every member of the base
/// that the overlay does not name.
pub proof fn law_merge_keeps_unnamed_members(am: Seq<(Seq<char>, JsonV)>, bm: Seq<(Seq<char>, JsonV)>, k: Seq<char>)
    requires
        forall|j: int| 0 <= j < bm.len() ==> (#[trigger] bm[j]).0 != k,
    ensures
        merge(JsonV::Object(am), JsonV::Object(bm)) == JsonV::Object(merge_members(am, bm)),
        obj_get(merge_members(am, bm), k) == obj_get(am, k),
    decreases bm.len(),
{
    if bm.len() > 0 {
        lemma_merge_members_unfold(am, bm);
        let k0 = bm[0].0;
        let v0 = bm[0].1;
        assert(k0 != k);
        let next = merge_step(am, k0, v0);
        if k0 == extensions_key() {
            match obj_get(am, k0) {
                Some(JsonV::Array(ax)) => match v0 {
                    JsonV::Array(bx) => lemma_obj_get_insert_other(am, k0, JsonV::Array(merge_exts(ax, bx)), k),
                    _ => {},
                },
                _ => lemma_obj_get_insert_other(am, k0, v0, k),
            }
        } else {
            let cur = match obj_get(am, k0) {
                Some(x) => x,
                None => JsonV::Null,
            };
            lemma_obj_get_insert_other(am, k0, merge(cur, v0), k);
        }
        let rest = bm.drop_first();
        assert forall|j: int| 0 <= j < rest.len() implies (#[trigger] rest[j]).0 != k by {
            assert(rest[j] == bm[j + 1]);
        }
        law_merge_keeps_unnamed_members(next, rest, k);
    }
}

/// Layering one configuration over another: a member the overlay sets to
/// a value that is neither an object nor the extensions list takes that
/// value, whatever the base held (the overlay's keys being distinct, as an
/// object's are).
pub proof fn law_merge_overlay_wins(am: Seq<(Seq<char>, JsonV)>, bm: Seq<(Seq<char>, JsonV)>, j: int)
    requires
        0 <= j < bm.len(),
        forall|a: int, b: int| 0 <= a < b < bm.len() ==> (#[trigger] bm[a]).0 != (#[trigger] bm[b]).0,
        bm[j].0 != extensions_key(),
        !(bm[j].1 is Object),
    ensures
        obj_get(merge_members(am, bm), bm[j].0) == Some(bm[j].1),
    decreases j,
{
    lemma_merge_members_unfold(am, bm);
    let k0 = bm[0].0;
    let v0 = bm[0].1;
    let next = merge_step(am, k0, v0);
    let rest = bm.drop_first();
    if j == 0 {
        let cur = match obj_get(am, k0) {
            Some(x) => x,
            None => JsonV::Null,
        };
        assert(merge(cur, v0) == v0);
        lemma_obj_get_insert_same(am, k0, v0);
        assert forall|q: int| 0 <= q < rest.len() implies (#[trigger] rest[q]).0 != k0 by {
            assert(rest[q] == bm[q + 1]);
        }
        law_merge_keeps_unnamed_members(next, rest, k0);
    } else {
        assert(rest[j - 1] == bm[j]);
        assert forall|a: int, b: int| 0 <= a < b < rest.len() implies (#[trigger] rest[a]).0 != (
        #[trigger] rest[b]).0 by {
            assert(rest[a] == bm[a + 1]);
            assert(rest[b] == bm[b + 1]);
        }
        law_merge_overlay_wins(next, rest, j - 1);
    }
}

/// Merging anything that is not an object, or merging into anything that
/// is not an object, gives the merged value itself.
pub proof fn law_merge_replaces_non_objects(a: JsonV, b: JsonV)
    requires
        !(a is Object && b is Object),
    ensures
        merge(a, b) == b,
{
}

} // verus!
