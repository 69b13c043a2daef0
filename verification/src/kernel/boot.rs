//! Bringing the kernel up from the configuration: which modules to load,
//! the stream policy, and what becomes of each module once loading it was
//! tried. A module that fails to load or to register is reported and
//! skipped; the others come up regardless.
use vstd::prelude::*;
use crate::config::{Config, ModuleConfig, expand_tilde, expand_tilde_spec};
use crate::ipc::TimeoutPolicy;
use crate::json::{Json, JsonV};
use crate::kernel::dispatch::ModuleConfigs;
use crate::kernel::registry::{Manifest, ManifestV, Registry, RegistryError, RegistryV, claims};
use crate::order::views;
use crate::text::{push_str, string_of};

verus! {

/// The stream policy the kernel starts with: the heartbeat bounds both the
/// wait for a first answer and the silence between chunks.
pub fn boot_policy(config: &Config) -> (r: TimeoutPolicy)
    ensures
        r == (TimeoutPolicy::Dynamic {
            heartbeat_timeout_ms: config.default_timeout.llm_stream_heartbeat_ms,
            max_silent_wait_ms: config.default_timeout.llm_stream_heartbeat_ms,
        }),
{
    let hb = config.default_timeout.llm_stream_heartbeat_ms;
    TimeoutPolicy::Dynamic { heartbeat_timeout_ms: hb, max_silent_wait_ms: hb }
}

/// The enabled modules, in configuration order, each with the path its
/// component is read from (`~/` expanded with `home`).
pub open spec fn modules_to_load(ms: Seq<ModuleConfig>, home: Option<Seq<char>>) -> Seq<(Seq<char>, Seq<char>)>
    decreases ms.len(),
{
    if ms.len() == 0 {
        Seq::empty()
    } else {
        modules_to_load(ms.drop_last(), home) + if ms.last().enabled {
            seq![(ms.last().name@, expand_tilde_spec(ms.last().source@, home))]
        } else {
            Seq::empty()
        }
    }
}

/// The modules to load, as [`modules_to_load`] says.
pub fn boot_plan(config: &Config, home: Option<&str>) -> (r: Vec<(String, String)>)
    ensures
        r@.map_values(|p: (String, String)| (p.0@, p.1@)) == modules_to_load(
            config.modules@,
            match home {
                Some(h) => Some(h@),
                None => None,
            },
        ),
{
    let ms = &config.modules;
    let ghost hv = match home {
        Some(h) => Some(h@),
        None => None::<Seq<char>>,
    };
    let mut out: Vec<(String, String)> = Vec::new();
    let mut i: usize = 0;
    assert(ms@.take(0) =~= Seq::<ModuleConfig>::empty());
    while i < ms.len()
        invariant
            i <= ms@.len(),
            ms == &config.modules,
            hv == match home {
                Some(h) => Some(h@),
                None => None::<Seq<char>>,
            },
            out@.map_values(|p: (String, String)| (p.0@, p.1@)) == modules_to_load(ms@.take(i as int), hv),
        decreases ms@.len() - i,
    {
        let ghost before = out@.map_values(|p: (String, String)| (p.0@, p.1@));
        proof {
            assert(ms@.take(i + 1).drop_last() =~= ms@.take(i as int));
            assert(ms@.take(i + 1).last() == ms@[i as int]);
        }
        if ms[i].enabled {
            let path = expand_tilde(ms[i].source.as_str(), home);
            out.push((ms[i].name.clone(), path));
            assert(out@.map_values(|p: (String, String)| (p.0@, p.1@)) =~= before + seq![
                (ms@[i as int].name@, expand_tilde_spec(ms@[i as int].source@, hv)),
            ]);
        } else {
            assert(out@.map_values(|p: (String, String)| (p.0@, p.1@)) =~= before + Seq::<
                (Seq<char>, Seq<char>),
            >::empty());
        }
        i = i + 1;
    }
    assert(ms@.take(ms@.len() as int) =~= ms@);
    out
}

/// The first method of `provides` that `routes` already holds, or -1.
pub open spec fn first_claimed(provides: Seq<Seq<char>>, routes: Map<Seq<char>, Seq<char>>) -> int
    decreases provides.len(),
{
    if provides.len() == 0 {
        -1
    } else if routes.contains_key(provides[0]) {
        0
    } else {
        let r = first_claimed(provides.drop_first(), routes);
        if r < 0 {
            -1
        } else {
            r + 1
        }
    }
}

proof fn lemma_first_claimed(provides: Seq<Seq<char>>, routes: Map<Seq<char>, Seq<char>>, j: int)
    requires
        0 <= j < provides.len(),
        routes.contains_key(provides[j]),
        forall|k: int| 0 <= k < j ==> !routes.contains_key(#[trigger] provides[k]),
    ensures
        first_claimed(provides, routes) == j,
    decreases j,
{
    if j > 0 {
        let p = provides.drop_first();
        assert forall|k: int| 0 <= k < j - 1 implies !routes.contains_key(#[trigger] p[k]) by {
            assert(p[k] == provides[k + 1]);
        }
        lemma_first_claimed(p, routes, j - 1);
    }
}

/// Why registering `m` in `reg` is refused, as text; none when it is not.
pub open spec fn refusal(reg: RegistryV, m: ManifestV) -> Option<Seq<char>> {
    if reg.modules.contains_key(m.name) {
        Some("two modules are both named '"@ + m.name + "'"@)
    } else {
        let j = first_claimed(m.provides, reg.routes);
        if j >= 0 {
            Some(
                "method '"@ + m.provides[j] + "' is provided by both '"@ + reg.routes[m.provides[j]] + "' and '"@
                    + m.name + "'; remove one of them or rename the method"@,
            )
        } else {
            None
        }
    }
}

/// The kernel as it comes up: its routing table, the modules' settings,
/// and the names of the modules loaded so far, in order.
pub struct Boot {
    pub registry: Registry,
    pub configs: ModuleConfigs,
    pub loaded: Vec<String>,
}

/// The warning printed for a module that is skipped.
pub open spec fn skip_warning(name: Seq<char>, what: Seq<char>, why: Seq<char>) -> Seq<char> {
    "\x1b[33mWarning: module '"@ + name + "' "@ + what + ": "@ + why + "\x1b[0m"@
}

fn warning(name: &str, what: &str, why: &str) -> (r: String)
    ensures
        r@ == skip_warning(name@, what@, why@),
{
    let mut b: Vec<char> = Vec::new();
    push_str(&mut b, "\x1b[33mWarning: module '");
    push_str(&mut b, name);
    push_str(&mut b, "' ");
    push_str(&mut b, what);
    push_str(&mut b, ": ");
    push_str(&mut b, why);
    push_str(&mut b, "\x1b[0m");
    string_of(b.as_slice())
}

impl Boot {
    /// A kernel with nothing loaded.
    pub fn new() -> (r: Boot)
        ensures
            r.registry@.routes == Map::<Seq<char>, Seq<char>>::empty(),
            r.registry@.modules == Map::<Seq<char>, ManifestV>::empty(),
            r.configs@ == Map::<Seq<char>, JsonV>::empty(),
            r.loaded@.len() == 0,
    {
        Boot { registry: Registry::new(), configs: ModuleConfigs::new(), loaded: Vec::new() }
    }

    /// What becomes of the module `name` once loading it was tried:
    /// `loaded` is its manifest, or why it could not be loaded. A module
    /// that failed to load, or that the registry refuses, is skipped with a
    /// warning and leaves the kernel as it was; any other is registered,
    /// its settings `config` are kept, and it is counted as loaded.
    pub fn take_module(&mut self, name: &str, config: Json, loaded: Result<Manifest, String>) -> (r: Option<String>)
        ensures
            match loaded {
                Err(e) => {
                    &&& r matches Some(w) && w@ == skip_warning(name@, "not loaded"@, e@)
                    &&& final(self).registry@ == old(self).registry@
                    &&& final(self).configs@ == old(self).configs@
                    &&& views(final(self).loaded@) == views(old(self).loaded@)
                },
                Ok(m) => match refusal(old(self).registry@, m@) {
                    Some(why) => {
                        &&& r matches Some(w) && w@ == skip_warning(name@, "not registered"@, why)
                        &&& final(self).registry@ == old(self).registry@
                        &&& final(self).configs@ == old(self).configs@
                        &&& views(final(self).loaded@) == views(old(self).loaded@)
                    },
                    None => {
                        &&& r is None
                        &&& final(self).registry@.routes == old(self).registry@.routes.union_prefer_right(
                            claims(m@.provides, m.name@),
                        )
                        &&& final(self).registry@.modules == old(self).registry@.modules.insert(m.name@, m@)
                        &&& final(self).configs@ == old(self).configs@.insert(name@, config@)
                        &&& views(final(self).loaded@) == views(old(self).loaded@).push(name@)
                    },
                },
            },
    {
        let m = match loaded {
            Err(e) => {
                return Some(warning(name, "not loaded", e.as_str()));
            },
            Ok(m) => m,
        };
        let ghost mv = m@;
        let ghost mname = m.name@;
        let ghost before = self.registry@;
        match self.registry.register(m) {
            Err(err) => {
                let text = err.message();
                proof {
                    match err {
                        RegistryError::DuplicateModule(existing) => {},
                        RegistryError::DuplicateMethod { method, existing, incoming } => {
                            let j = choose|j: int|
                                0 <= j < mv.provides.len() && #[trigger] mv.provides[j] == method@ && forall|k: int|
                                    0 <= k < j ==> !before.routes.contains_key(#[trigger] mv.provides[k]);
                            lemma_first_claimed(mv.provides, before.routes, j);
                        },
                    }
                }
                Some(warning(name, "not registered", text.as_str()))
            },
            Ok(()) => {
                proof {
                    if first_claimed(mv.provides, before.routes) >= 0 {
                        lemma_first_claimed_found(mv.provides, before.routes);
                    }
                }
                self.configs.set(name, config);
                let ghost lv = views(self.loaded@);
                self.loaded.push(crate::text::owned(name));
                assert(views(self.loaded@) =~= lv.push(name@));
                None
            },
        }
    }
}

proof fn lemma_first_claimed_found(provides: Seq<Seq<char>>, routes: Map<Seq<char>, Seq<char>>)
    requires
        first_claimed(provides, routes) >= 0,
    ensures
        0 <= first_claimed(provides, routes) < provides.len(),
        routes.contains_key(provides[first_claimed(provides, routes)]),
    decreases provides.len(),
{
    if provides.len() > 0 && !routes.contains_key(provides[0]) {
        let p = provides.drop_first();
        lemma_first_claimed_found(p, routes);
        assert(p[first_claimed(p, routes)] == provides[first_claimed(p, routes) + 1]);
    }
}

} // verus!
