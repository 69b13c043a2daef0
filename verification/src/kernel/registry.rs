//! The routing table: which module answers which method.
//!
//! Built from each module's manifest at load time. Routing is a string lookup
//! and nothing more; the table knows nothing of what a method does.
use vstd::prelude::*;
use vstd::relations::sorted_by;
use crate::order::{lex_leq, sort_strings, views};
use crate::text::{push_str, str_eq, string_of};

verus! {

/// What a module declares about itself: its name, version, the interface
/// version it was built against, and the methods it answers.
pub struct Manifest {
    pub name: String,
    pub version: String,
    pub abi: String,
    pub provides: Vec<String>,
}

pub struct ManifestV {
    pub name: Seq<char>,
    pub version: Seq<char>,
    pub abi: Seq<char>,
    pub provides: Seq<Seq<char>>,
}

impl View for Manifest {
    type V = ManifestV;

    open spec fn view(&self) -> ManifestV {
        ManifestV {
            name: self.name@,
            version: self.version@,
            abi: self.abi@,
            provides: views(self.provides@),
        }
    }
}

impl Manifest {
    /// A copy with the same contents.
    pub fn duplicate(&self) -> (r: Manifest)
        ensures
            r@ == self@,
    {
        let mut provides: Vec<String> = Vec::new();
        let mut i: usize = 0;
        while i < self.provides.len()
            invariant
                i <= self.provides@.len(),
                provides@.len() == i,
                forall|j: int| 0 <= j < i ==> (#[trigger] provides@[j])@ == self.provides@[j]@,
            decreases self.provides.len() - i,
        {
            provides.push(self.provides[i].clone());
            i = i + 1;
        }
        assert(views(provides@) =~= views(self.provides@));
        Manifest {
            name: self.name.clone(),
            version: self.version.clone(),
            abi: self.abi.clone(),
            provides,
        }
    }
}

/// Why a module was refused.
pub enum RegistryError {
    /// Two modules claim the same method. A startup error rather than an
    /// implicit first-wins: which module serves a call must not depend on the
    /// order in which entries appear in a configuration file.
    DuplicateMethod { method: String, existing: String, incoming: String },
    /// Two modules share a name, so dispatch could not address them apart.
    DuplicateModule(String),
}

impl RegistryError {
    /// The human-readable text of the error.
    pub fn message(&self) -> (r: String)
        ensures
            match self {
                RegistryError::DuplicateMethod { method, existing, incoming } => r@ == "method '"@
                    + method@ + "' is provided by both '"@ + existing@ + "' and '"@ + incoming@
                    + "'; remove one of them or rename the method"@,
                RegistryError::DuplicateModule(name) => r@ == "two modules are both named '"@
                    + name@ + "'"@,
            },
    {
        let mut b: Vec<char> = Vec::new();
        match self {
            RegistryError::DuplicateMethod { method, existing, incoming } => {
                push_str(&mut b, "method '");
                push_str(&mut b, method.as_str());
                push_str(&mut b, "' is provided by both '");
                push_str(&mut b, existing.as_str());
                push_str(&mut b, "' and '");
                push_str(&mut b, incoming.as_str());
                push_str(&mut b, "'; remove one of them or rename the method");
            },
            RegistryError::DuplicateModule(name) => {
                push_str(&mut b, "two modules are both named '");
                push_str(&mut b, name.as_str());
                push_str(&mut b, "'");
            },
        }
        string_of(b.as_slice())
    }
}

/// The map that a sequence of (key, value) pairs spells out, a later pair
/// winning over an earlier one with the same key.
pub open spec fn pairs_map<V>(s: Seq<(Seq<char>, V)>) -> Map<Seq<char>, V>
    decreases s.len(),
{
    if s.len() == 0 {
        Map::empty()
    } else {
        pairs_map(s.drop_last()).insert(s.last().0, s.last().1)
    }
}

pub open spec fn keys_unique<V>(s: Seq<(Seq<char>, V)>) -> bool {
    forall|i: int, j: int| 0 <= i < j < s.len() ==> (#[trigger] s[i]).0 != (#[trigger] s[j]).0
}

pub proof fn lemma_pairs_map<V>(s: Seq<(Seq<char>, V)>)
    ensures
        forall|i: int| 0 <= i < s.len() ==> pairs_map(s).dom().contains(#[trigger] s[i].0),
        forall|k: Seq<char>|
            #[trigger] pairs_map(s).dom().contains(k) ==> exists|i: int|
                0 <= i < s.len() && (#[trigger] s[i]).0 == k,
        keys_unique(s) ==> forall|i: int| 0 <= i < s.len() ==> #[trigger] pairs_map(s)[s[i].0] == s[i].1,
        pairs_map(s).dom().finite(),
    decreases s.len(),
{
    if s.len() > 0 {
        let t = s.drop_last();
        lemma_pairs_map(t);
        assert forall|i: int| 0 <= i < s.len() implies pairs_map(s).dom().contains(
            #[trigger] s[i].0,
        ) by {
            if i < s.len() - 1 {
                assert(t[i] == s[i]);
            }
        }
        assert forall|k: Seq<char>| #[trigger] pairs_map(s).dom().contains(k) implies exists|i: int|
            0 <= i < s.len() && (#[trigger] s[i]).0 == k by {
            if k != s.last().0 {
                assert(pairs_map(t).dom().contains(k));
                let i = choose|i: int| 0 <= i < t.len() && (#[trigger] t[i]).0 == k;
                assert(s[i] == t[i]);
            } else {
                assert(s[s.len() - 1].0 == k);
            }
        }
        if keys_unique(s) {
            assert forall|i: int| 0 <= i < s.len() implies #[trigger] pairs_map(s)[s[i].0]
                == s[i].1 by {
                if i < s.len() - 1 {
                    assert(t[i] == s[i]);
                    assert(s[i].0 != s[s.len() - 1].0);
                    assert(keys_unique(t)) by {
                        assert forall|a: int, b: int| 0 <= a < b < t.len() implies (#[trigger] t[a]).0
                            != (#[trigger] t[b]).0 by {
                            assert(t[a] == s[a] && t[b] == s[b]);
                        }
                    }
                }
            }
        }
    }
}

/// The routes, method name to module name.
pub open spec fn route_pairs(r: Seq<(String, String)>) -> Seq<(Seq<char>, Seq<char>)> {
    r.map_values(|p: (String, String)| (p.0@, p.1@))
}

/// The modules, by name.
pub open spec fn module_pairs(m: Seq<Manifest>) -> Seq<(Seq<char>, ManifestV)> {
    m.map_values(|x: Manifest| (x.name@, x@))
}

/// The methods a module claims, each routed to `name`.
pub open spec fn claims(provides: Seq<Seq<char>>, name: Seq<char>) -> Map<Seq<char>, Seq<char>> {
    Map::new(|k: Seq<char>| provides.contains(k), |k: Seq<char>| name)
}

/// The registry as two maps: method to module name, and module name to its
/// manifest.
pub struct RegistryV {
    pub routes: Map<Seq<char>, Seq<char>>,
    pub modules: Map<Seq<char>, ManifestV>,
}

/// Maps method names to the module that answers them.
pub struct Registry {
    routes: Vec<(String, String)>,
    modules: Vec<Manifest>,
}

impl View for Registry {
    type V = RegistryV;

    closed spec fn view(&self) -> RegistryV {
        RegistryV {
            routes: pairs_map(route_pairs(self.routes@)),
            modules: pairs_map(module_pairs(self.modules@)),
        }
    }
}

/// Index of the first route for `method`.
fn find_route(routes: &Vec<(String, String)>, method: &str) -> (r: Option<usize>)
    ensures
        match r {
            Some(i) => i < routes@.len() && routes@[i as int].0@ == method@,
            None => forall|j: int| 0 <= j < routes@.len() ==> (#[trigger] routes@[j]).0@ != method@,
        },
{
    let mut i: usize = 0;
    while i < routes.len()
        invariant
            i <= routes@.len(),
            forall|j: int| 0 <= j < i ==> (#[trigger] routes@[j]).0@ != method@,
        decreases routes.len() - i,
    {
        if str_eq(routes[i].0.as_str(), method) {
            return Some(i);
        }
        i = i + 1;
    }
    None
}

/// Index of the first module named `name`.
fn find_module(modules: &Vec<Manifest>, name: &str) -> (r: Option<usize>)
    ensures
        match r {
            Some(i) => i < modules@.len() && modules@[i as int].name@ == name@,
            None => forall|j: int| 0 <= j < modules@.len() ==> (#[trigger] modules@[j]).name@ != name@,
        },
{
    let mut i: usize = 0;
    while i < modules.len()
        invariant
            i <= modules@.len(),
            forall|j: int| 0 <= j < i ==> (#[trigger] modules@[j]).name@ != name@,
        decreases modules.len() - i,
    {
        if str_eq(modules[i].name.as_str(), name) {
            return Some(i);
        }
        i = i + 1;
    }
    None
}

impl Registry {
    #[verifier::type_invariant]
    closed spec fn inv(self) -> bool {
        &&& keys_unique(route_pairs(self.routes@))
        &&& keys_unique(module_pairs(self.modules@))
    }

    /// An empty registry.
    pub fn new() -> (r: Registry)
        ensures
            r@.routes == Map::<Seq<char>, Seq<char>>::empty(),
            r@.modules == Map::<Seq<char>, ManifestV>::empty(),
    {
        let r = Registry { routes: Vec::new(), modules: Vec::new() };
        proof {
            assert(route_pairs(r.routes@) =~= Seq::empty());
            assert(module_pairs(r.modules@) =~= Seq::empty());
        }
        r
    }

    /// Index of the route for `method`.
    fn route_index(&self, method: &str) -> (r: Option<usize>)
        ensures
            match r {
                Some(i) => i < self.routes@.len() && self.routes@[i as int].0@ == method@
                    && self@.routes.contains_key(method@) && self@.routes[method@]
                    == self.routes@[i as int].1@,
                None => !self@.routes.contains_key(method@),
            },
    {
        proof {
            use_type_invariant(self);
            lemma_pairs_map(route_pairs(self.routes@));
        }
        let r = find_route(&self.routes, method);
        proof {
            let rp = route_pairs(self.routes@);
            match r {
                Some(i) => {
                    assert(rp[i as int] == (self.routes@[i as int].0@, self.routes@[i as int].1@));
                    assert(pairs_map(rp)[rp[i as int].0] == rp[i as int].1);
                    assert(pairs_map(rp).dom().contains(rp[i as int].0));
                },
                None => {
                    if pairs_map(rp).dom().contains(method@) {
                        let j = choose|j: int| 0 <= j < rp.len() && (#[trigger] rp[j]).0 == method@;
                        assert(rp[j] == (self.routes@[j].0@, self.routes@[j].1@));
                        assert(self.routes@[j].0@ != method@);
                    }
                },
            }
        }
        r
    }

    /// Index of the module named `name`.
    fn module_index(&self, name: &str) -> (r: Option<usize>)
        ensures
            match r {
                Some(i) => i < self.modules@.len() && self.modules@[i as int].name@ == name@
                    && self@.modules.contains_key(name@) && self@.modules[name@]
                    == self.modules@[i as int]@,
                None => !self@.modules.contains_key(name@),
            },
    {
        proof {
            use_type_invariant(self);
            lemma_pairs_map(module_pairs(self.modules@));
        }
        let r = find_module(&self.modules, name);
        proof {
            let mp = module_pairs(self.modules@);
            match r {
                Some(i) => {
                    assert(mp[i as int] == (self.modules@[i as int].name@, self.modules@[i as int]@));
                    assert(pairs_map(mp)[mp[i as int].0] == mp[i as int].1);
                    assert(pairs_map(mp).dom().contains(mp[i as int].0));
                },
                None => {
                    if pairs_map(mp).dom().contains(name@) {
                        let j = choose|j: int| 0 <= j < mp.len() && (#[trigger] mp[j]).0 == name@;
                        assert(mp[j] == (self.modules@[j].name@, self.modules@[j]@));
                        assert(self.modules@[j].name@ != name@);
                    }
                },
            }
        }
        r
    }

    /// Adds a module's routes.
    ///
    /// Refused if the module's name is already taken, or else if one of its
    /// methods is already routed; the error names the first such method in the
    /// order the manifest lists them. A refused module leaves the registry
    /// unchanged, so it cannot half-register.
    pub fn register(&mut self, manifest: Manifest) -> (r: Result<(), RegistryError>)
        ensures
            match r {
                Ok(()) => {
                    &&& !old(self)@.modules.contains_key(manifest.name@)
                    &&& forall|j: int|
                        0 <= j < manifest@.provides.len() ==> !old(self)@.routes.contains_key(
                            #[trigger] manifest@.provides[j],
                        )
                    &&& final(self)@.routes == old(self)@.routes.union_prefer_right(
                        claims(manifest@.provides, manifest.name@),
                    )
                    &&& final(self)@.modules == old(self)@.modules.insert(
                        manifest.name@,
                        manifest@,
                    )
                },
                Err(RegistryError::DuplicateModule(existing)) => {
                    &&& old(self)@.modules.contains_key(manifest.name@)
                    &&& existing@ == manifest.name@
                    &&& final(self)@ == old(self)@
                },
                Err(RegistryError::DuplicateMethod { method, existing, incoming }) => {
                    &&& !old(self)@.modules.contains_key(manifest.name@)
                    &&& exists|j: int|
                        0 <= j < manifest@.provides.len() && #[trigger] manifest@.provides[j]
                            == method@ && forall|k: int|
                            0 <= k < j ==> !old(self)@.routes.contains_key(
                                #[trigger] manifest@.provides[k],
                            )
                    &&& old(self)@.routes.contains_key(method@)
                    &&& existing@ == old(self)@.routes[method@]
                    &&& incoming@ == manifest.name@
                    &&& final(self)@ == old(self)@
                },
            },
    {
        proof {
            use_type_invariant(&*self);
        }
        match self.module_index(manifest.name.as_str()) {
            Some(i) => {
                return Err(RegistryError::DuplicateModule(self.modules[i].name.clone()));
            },
            None => {},
        }
        let n = manifest.provides.len();
        let mut j: usize = 0;
        while j < n
            invariant
                n == manifest.provides@.len(),
                j <= n,
                !self@.modules.contains_key(manifest.name@),
                *self == *old(self),
                forall|k: int|
                    0 <= k < j ==> !self@.routes.contains_key(
                        #[trigger] views(manifest.provides@)[k],
                    ),
            decreases n - j,
        {
            match self.route_index(manifest.provides[j].as_str()) {
                Some(p) => {
                    proof {
                        assert(views(manifest.provides@)[j as int] == manifest.provides@[j as int]@);
                        assert(manifest@.provides[j as int] == manifest.provides@[j as int]@);
                    }
                    return Err(
                        RegistryError::DuplicateMethod {
                            method: manifest.provides[j].clone(),
                            existing: self.routes[p].1.clone(),
                            incoming: manifest.name.clone(),
                        },
                    );
                },
                None => {},
            }
            j = j + 1;
        }
        let ghost old_routes = self@.routes;
        let mut routes: Vec<(String, String)> = Vec::new();
        std::mem::swap(&mut routes, &mut self.routes);
        let ghost base = routes@;
        let ghost pv = views(manifest.provides@);
        proof {
            lemma_pairs_map(route_pairs(base));
        }
        let mut j: usize = 0;
        while j < n
            invariant
                n == manifest.provides@.len(),
                j <= n,
                pv == views(manifest.provides@),
                keys_unique(route_pairs(routes@)),
                forall|k: int| 0 <= k < n ==> !old_routes.contains_key(#[trigger] pv[k]),
                pairs_map(route_pairs(routes@)) == old_routes.union_prefer_right(
                    claims(pv.subrange(0, j as int), manifest.name@),
                ),
            decreases n - j,
        {
            let ghost before = routes@;
            let found = find_route(&routes, manifest.provides[j].as_str());
            proof {
                lemma_pairs_map(route_pairs(before));
                assert(pv[j as int] == manifest.provides@[j as int]@);
            }
            if found.is_none() {
                routes.push((manifest.provides[j].clone(), manifest.name.clone()));
                proof {
                    let rb = route_pairs(before);
                    let ra = route_pairs(routes@);
                    assert(ra =~= rb.push((pv[j as int], manifest.name@)));
                    assert(ra.drop_last() =~= rb);
                    assert forall|a: int, b: int| 0 <= a < b < ra.len() implies (#[trigger] ra[a]).0
                        != (#[trigger] ra[b]).0 by {
                        if b == ra.len() - 1 {
                            assert(rb[a] == (before[a].0@, before[a].1@));
                            assert(before[a].0@ != pv[j as int]);
                        }
                    }
                    assert(pairs_map(ra) =~= old_routes.union_prefer_right(
                        claims(pv.subrange(0, j + 1), manifest.name@),
                    )) by {
                        assert forall|k: Seq<char>| #[trigger] pv.subrange(0, j + 1).contains(k)
                            <==> (pv.subrange(0, j as int).contains(k) || k == pv[j as int]) by {
                            if pv.subrange(0, j + 1).contains(k) {
                                let q = choose|q: int|
                                    0 <= q < j + 1 && #[trigger] pv.subrange(0, j + 1)[q] == k;
                                if q < j {
                                    assert(pv.subrange(0, j as int)[q] == k);
                                }
                            }
                            if pv.subrange(0, j as int).contains(k) {
                                let q = choose|q: int|
                                    0 <= q < j && #[trigger] pv.subrange(0, j as int)[q] == k;
                                assert(pv.subrange(0, j + 1)[q] == k);
                            }
                            if k == pv[j as int] {
                                assert(pv.subrange(0, j + 1)[j as int] == k);
                            }
                        }
                    }
                }
            } else {
                let p = found.unwrap();
                proof {
                    let rb = route_pairs(before);
                    assert(rb[p as int] == (before[p as int].0@, before[p as int].1@));
                    assert(rb[p as int].0 == pv[j as int]);
                    assert(pairs_map(rb).dom().contains(pv[j as int]));
                    assert(!old_routes.contains_key(pv[j as int]));
                    assert(pairs_map(rb)[pv[j as int]] == manifest.name@);
                    assert(pairs_map(rb) =~= old_routes.union_prefer_right(
                        claims(pv.subrange(0, j + 1), manifest.name@),
                    )) by {
                        assert forall|k: Seq<char>| #[trigger] pv.subrange(0, j + 1).contains(k)
                            <==> (pv.subrange(0, j as int).contains(k) || k == pv[j as int]) by {
                            if pv.subrange(0, j + 1).contains(k) {
                                let q = choose|q: int|
                                    0 <= q < j + 1 && #[trigger] pv.subrange(0, j + 1)[q] == k;
                                if q < j {
                                    assert(pv.subrange(0, j as int)[q] == k);
                                }
                            }
                            if pv.subrange(0, j as int).contains(k) {
                                let q = choose|q: int|
                                    0 <= q < j && #[trigger] pv.subrange(0, j as int)[q] == k;
                                assert(pv.subrange(0, j + 1)[q] == k);
                            }
                            if k == pv[j as int] {
                                assert(pv.subrange(0, j + 1)[j as int] == k);
                            }
                        }
                    }
                }
            }
            j = j + 1;
        }
        proof {
            assert(pv.subrange(0, n as int) =~= pv);
        }
        let ghost old_modules = self@.modules;
        let mut modules: Vec<Manifest> = Vec::new();
        std::mem::swap(&mut modules, &mut self.modules);
        let ghost mb = modules@;
        proof {
            lemma_pairs_map(module_pairs(mb));
        }
        modules.push(manifest);
        proof {
            let pb = module_pairs(mb);
            let pa = module_pairs(modules@);
            assert(pa =~= pb.push((modules@.last().name@, modules@.last()@)));
            assert(pa.drop_last() =~= pb);
            assert forall|a: int, b: int| 0 <= a < b < pa.len() implies (#[trigger] pa[a]).0 != (
            #[trigger] pa[b]).0 by {
                if b == pa.len() - 1 {
                    assert(pb[a] == (mb[a].name@, mb[a]@));
                }
            }
        }
        self.routes = routes;
        self.modules = modules;
        Ok(())
    }

    /// Which module answers `method`, if any.
    pub fn route(&self, method: &str) -> (r: Option<&str>)
        ensures
            match r {
                Some(m) => self@.routes.contains_key(method@) && m@ == self@.routes[method@],
                None => !self@.routes.contains_key(method@),
            },
    {
        match self.route_index(method) {
            Some(i) => Some(self.routes[i].1.as_str()),
            None => None,
        }
    }

    /// The manifest of the module named `module`, if one is registered.
    pub fn manifest(&self, module: &str) -> (r: Option<&Manifest>)
        ensures
            match r {
                Some(m) => self@.modules.contains_key(module@) && m@ == self@.modules[module@],
                None => !self@.modules.contains_key(module@),
            },
    {
        match self.module_index(module) {
            Some(i) => Some(&self.modules[i]),
            None => None,
        }
    }

    /// The names of the registered modules, sorted, each once.
    pub fn module_names(&self) -> (r: Vec<String>)
        ensures
            sorted_by(views(r@), lex_leq()),
            views(r@).no_duplicates(),
            forall|k: Seq<char>| #[trigger] views(r@).contains(k) <==> self@.modules.contains_key(k),
    {
        proof {
            use_type_invariant(self);
            lemma_pairs_map(module_pairs(self.modules@));
        }
        let mut names: Vec<String> = Vec::new();
        let mut i: usize = 0;
        while i < self.modules.len()
            invariant
                i <= self.modules@.len(),
                names@.len() == i,
                forall|j: int|
                    0 <= j < i ==> (#[trigger] names@[j])@ == self.modules@[j].name@,
            decreases self.modules.len() - i,
        {
            names.push(self.modules[i].name.clone());
            i = i + 1;
        }
        let ghost nv = views(names@);
        proof {
            let mp = module_pairs(self.modules@);
            assert forall|a: int, b: int| 0 <= a < b < nv.len() implies nv[a] != nv[b] by {
                assert(mp[a].0 == nv[a] && mp[b].0 == nv[b]);
            }
            assert forall|k: Seq<char>| #[trigger] nv.contains(k) <==> pairs_map(mp).dom().contains(
                k,
            ) by {
                if nv.contains(k) {
                    let a = choose|a: int| 0 <= a < nv.len() && nv[a] == k;
                    assert(mp[a].0 == k);
                }
                if pairs_map(mp).dom().contains(k) {
                    let a = choose|a: int| 0 <= a < mp.len() && (#[trigger] mp[a]).0 == k;
                    assert(nv[a] == k);
                }
            }
        }
        let r = sort_strings(names);
        proof {
            let rv = views(r@);
            broadcast use vstd::seq_lib::group_to_multiset_ensures;
            assert forall|k: Seq<char>| #[trigger] rv.contains(k) <==> nv.contains(k) by {
                assert(rv.to_multiset().count(k) == nv.to_multiset().count(k));
            }
            nv.lemma_multiset_has_no_duplicates();
            assert forall|k: Seq<char>| rv.to_multiset().contains(k) implies rv.to_multiset().count(k) == 1 by {
                assert(nv.to_multiset().count(k) == 1);
            }
            rv.lemma_multiset_has_no_duplicates_conv();
        }
        r
    }

    /// Whether no module is registered.
    pub fn is_empty(&self) -> (r: bool)
        ensures
            r <==> self@.modules.dom() == Set::<Seq<char>>::empty(),
    {
        proof {
            lemma_pairs_map(module_pairs(self.modules@));
            if self.modules@.len() > 0 {
                assert(pairs_map(module_pairs(self.modules@)).dom().contains(
                    module_pairs(self.modules@)[0].0,
                ));
            } else {
                assert(module_pairs(self.modules@) =~= Seq::empty());
                assert(pairs_map(module_pairs(self.modules@)).dom() =~= Set::empty());
            }
        }
        self.modules.len() == 0
    }
}


/// Once a module is registered, a call for any method it provides is
/// routed to it and the module answers to its name; every other route stays
/// as it was.
pub proof fn law_registration_routes_to_provider(before: RegistryV, m: ManifestV)
    ensures
        ({
            let routes = before.routes.union_prefer_right(claims(m.provides, m.name));
            let modules = before.modules.insert(m.name, m);
            &&& forall|j: int|
                0 <= j < m.provides.len() ==> routes.contains_key(#[trigger] m.provides[j]) && routes[m.provides[j]]
                    == m.name
            &&& forall|k: Seq<char>|
                !m.provides.contains(k) ==> (#[trigger] routes.contains_key(k) == before.routes.contains_key(k)
                    && (before.routes.contains_key(k) ==> routes[k] == before.routes[k]))
            &&& modules.contains_key(m.name) && modules[m.name] == m
        }),
{
    let routes = before.routes.union_prefer_right(claims(m.provides, m.name));
    assert forall|j: int| 0 <= j < m.provides.len() implies routes.contains_key(#[trigger] m.provides[j])
        && routes[m.provides[j]] == m.name by {
        assert(m.provides.contains(m.provides[j]));
    }
}

} // verus!
