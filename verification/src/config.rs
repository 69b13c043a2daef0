//! The configuration: its sections and their defaults, the layering of
//! configuration files, and the overrides taken from the environment.
use vstd::prelude::*;
use crate::json::Json;
use crate::order::views;
use crate::text::{has_prefix, owned, slice_chars, chars_of, str_eq, string_of};

verus! {

pub fn default_workspace_dir() -> (r: String)
    ensures
        r@ == "."@,
{
    owned(".")
}

pub fn default_snapshot_dir() -> (r: String)
    ensures
        r@ == ".rad/snapshots"@,
{
    owned(".rad/snapshots")
}

pub fn default_log_dir() -> (r: String)
    ensures
        r@ == ".rad/logs"@,
{
    owned(".rad/logs")
}

/// Session files beyond this count are pruned at startup.
pub fn default_max_sessions() -> (r: usize)
    ensures
        r == 50,
{
    50
}

pub fn default_llm_stream_heartbeat_ms() -> (r: u64)
    ensures
        r == 15000,
{
    15000
}

pub fn default_process_silent_timeout_ms() -> (r: u64)
    ensures
        r == 60000,
{
    60000
}

pub fn default_true() -> (r: bool)
    ensures
        r,
{
    true
}

pub fn default_role() -> (r: String)
    ensures
        r@ == "orchestrator"@,
{
    owned("orchestrator")
}

pub struct CoreConfig {
    pub workspace: String,
    pub snapshot: String,
    pub log: String,
    pub hitl_enabled: bool,
    pub verification_command: Option<String>,
    pub max_sessions: usize,
}

impl Default for CoreConfig {
    fn default() -> (r: CoreConfig)
        ensures
            r.workspace@ == "."@,
            r.snapshot@ == ".rad/snapshots"@,
            r.log@ == ".rad/logs"@,
            !r.hitl_enabled,
            r.verification_command is None,
            r.max_sessions == 50,
    {
        CoreConfig {
            workspace: default_workspace_dir(),
            snapshot: default_snapshot_dir(),
            log: default_log_dir(),
            hitl_enabled: false,
            verification_command: None,
            max_sessions: default_max_sessions(),
        }
    }
}

pub struct DefaultTimeoutConfig {
    pub llm_stream_heartbeat_ms: u64,
    pub process_silent_timeout_ms: u64,
}

impl Default for DefaultTimeoutConfig {
    fn default() -> (r: DefaultTimeoutConfig)
        ensures
            r.llm_stream_heartbeat_ms == 15000,
            r.process_silent_timeout_ms == 60000,
    {
        DefaultTimeoutConfig {
            llm_stream_heartbeat_ms: default_llm_stream_heartbeat_ms(),
            process_silent_timeout_ms: default_process_silent_timeout_ms(),
        }
    }
}

pub struct ExecutionConfig {
    pub allow_bash: bool,
    pub allow_commands: Vec<String>,
    pub block_commands: Vec<String>,
}

pub struct NetworkConfig {
    pub allow_network: bool,
    pub allow_domains: Vec<String>,
}

pub struct PermissionConfig {
    pub fs_read_allow: Vec<String>,
    pub fs_write_allow: Vec<String>,
    pub execution: Option<ExecutionConfig>,
    pub network: Option<NetworkConfig>,
}

impl Default for PermissionConfig {
    fn default() -> (r: PermissionConfig)
        ensures
            r.fs_read_allow@.len() == 0,
            r.fs_write_allow@.len() == 0,
            r.execution is None,
            r.network is None,
    {
        PermissionConfig { fs_read_allow: Vec::new(), fs_write_allow: Vec::new(), execution: None, network: None }
    }
}

pub struct ExtensionConfig {
    pub name: String,
    pub source: String,
    pub enabled: bool,
    pub role: String,
    pub permissions: Option<PermissionConfig>,
    /// Opaque settings handed to the extension.
    pub config: Vec<(String, Json)>,
}

/// One kernel module.
pub struct ModuleConfig {
    pub name: String,
    pub source: String,
    pub enabled: bool,
    /// Opaque to the kernel; the module fetches it.
    pub config: Json,
}

pub struct LlmEndpointProfile {
    pub base_url: String,
    pub api_key: Option<String>,
    pub model: Option<String>,
    /// The model's context window in tokens, when it was detected or set.
    pub context_length: Option<u32>,
    /// The provider's wire format; `None` is the OpenAI-compatible default.
    pub dialect: Option<String>,
}

pub struct ProfileV {
    pub base_url: Seq<char>,
    pub api_key: Option<Seq<char>>,
    pub model: Option<Seq<char>>,
    pub context_length: Option<u32>,
    pub dialect: Option<Seq<char>>,
}

pub open spec fn opt_str(o: Option<String>) -> Option<Seq<char>> {
    match o {
        Some(s) => Some(s@),
        None => None,
    }
}

impl View for LlmEndpointProfile {
    type V = ProfileV;

    open spec fn view(&self) -> ProfileV {
        ProfileV {
            base_url: self.base_url@,
            api_key: opt_str(self.api_key),
            model: opt_str(self.model),
            context_length: self.context_length,
            dialect: opt_str(self.dialect),
        }
    }
}

pub open spec fn default_profile() -> ProfileV {
    ProfileV {
        base_url: Seq::empty(),
        api_key: None,
        model: None,
        context_length: None,
        dialect: None,
    }
}

fn copy_opt(o: &Option<String>) -> (r: Option<String>)
    ensures
        opt_str(r) == opt_str(*o),
{
    match o {
        Some(s) => Some(s.clone()),
        None => None,
    }
}

impl Default for LlmEndpointProfile {
    fn default() -> (r: LlmEndpointProfile)
        ensures
            r@ == default_profile(),
    {
        LlmEndpointProfile {
            base_url: String::new(),
            api_key: None,
            model: None,
            context_length: None,
            dialect: None,
        }
    }
}

/// Where a profile's API key comes from.
pub enum ApiKeySource {
    /// No key.
    Absent,
    /// The key itself.
    Literal(String),
    /// The environment variable of this name (written `env:NAME`).
    Env(String),
}

impl LlmEndpointProfile {
    /// A copy with the same contents.
    pub fn duplicate(&self) -> (r: LlmEndpointProfile)
        ensures
            r@ == self@,
    {
        LlmEndpointProfile {
            base_url: self.base_url.clone(),
            api_key: copy_opt(&self.api_key),
            model: copy_opt(&self.model),
            context_length: self.context_length,
            dialect: copy_opt(&self.dialect),
        }
    }

    /// Where the API key comes from: a key written `env:NAME` is read from
    /// the environment variable `NAME`, any other key is used as written.
    pub fn api_key_source(&self) -> (r: ApiKeySource)
        ensures
            match self@.api_key {
                None => r is Absent,
                Some(k) => if "env:"@.is_prefix_of(k) {
                    r matches ApiKeySource::Env(n) && n@ == k.subrange(4, k.len() as int)
                } else {
                    r matches ApiKeySource::Literal(l) && l@ == k
                },
            },
    {
        proof {
            reveal_strlit("env:");
        }
        match &self.api_key {
            None => ApiKeySource::Absent,
            Some(k) => {
                if has_prefix(k.as_str(), "env:") {
                    let cs = chars_of(k.as_str());
                    let n = slice_chars(cs.as_slice(), 4, cs.len());
                    ApiKeySource::Env(string_of(n.as_slice()))
                } else {
                    ApiKeySource::Literal(k.clone())
                }
            },
        }
    }
}

/// The configured endpoints by profile name, each name once.
pub struct Endpoints {
    entries: Vec<(String, LlmEndpointProfile)>,
}

pub open spec fn entry_views(s: Seq<(String, LlmEndpointProfile)>) -> Seq<(Seq<char>, ProfileV)> {
    s.map_values(|e: (String, LlmEndpointProfile)| (e.0@, e.1@))
}

impl View for Endpoints {
    type V = Map<Seq<char>, ProfileV>;

    closed spec fn view(&self) -> Map<Seq<char>, ProfileV> {
        crate::kernel::registry::pairs_map(entry_views(self.entries@))
    }
}

fn find_entry(entries: &Vec<(String, LlmEndpointProfile)>, name: &str) -> (r: Option<usize>)
    ensures
        match r {
            Some(i) => i < entries@.len() && entries@[i as int].0@ == name@,
            None => forall|j: int| 0 <= j < entries@.len() ==> (#[trigger] entries@[j]).0@ != name@,
        },
{
    let mut i: usize = 0;
    while i < entries.len()
        invariant
            i <= entries@.len(),
            forall|j: int| 0 <= j < i ==> (#[trigger] entries@[j]).0@ != name@,
        decreases entries.len() - i,
    {
        if str_eq(entries[i].0.as_str(), name) {
            return Some(i);
        }
        i = i + 1;
    }
    None
}

impl Endpoints {
    #[verifier::type_invariant]
    closed spec fn inv(self) -> bool {
        crate::kernel::registry::keys_unique(entry_views(self.entries@))
    }

    pub fn new() -> (r: Endpoints)
        ensures
            r@ == Map::<Seq<char>, ProfileV>::empty(),
    {
        let r = Endpoints { entries: Vec::new() };
        assert(entry_views(r.entries@) =~= Seq::empty());
        r
    }

    fn index_of(&self, name: &str) -> (r: Option<usize>)
        ensures
            match r {
                Some(i) => i < self.entries@.len() && self.entries@[i as int].0@ == name@
                    && self@.contains_key(name@) && self@[name@] == self.entries@[i as int].1@,
                None => !self@.contains_key(name@),
            },
    {
        proof {
            use_type_invariant(self);
            crate::kernel::registry::lemma_pairs_map(entry_views(self.entries@));
        }
        let r = find_entry(&self.entries, name);
        proof {
            let ev = entry_views(self.entries@);
            match r {
                Some(i) => {
                    assert(ev[i as int] == (self.entries@[i as int].0@, self.entries@[i as int].1@));
                    assert(crate::kernel::registry::pairs_map(ev)[ev[i as int].0] == ev[i as int].1);
                    assert(crate::kernel::registry::pairs_map(ev).dom().contains(ev[i as int].0));
                },
                None => {
                    if crate::kernel::registry::pairs_map(ev).dom().contains(name@) {
                        let j = choose|j: int| 0 <= j < ev.len() && (#[trigger] ev[j]).0 == name@;
                        assert(ev[j] == (self.entries@[j].0@, self.entries@[j].1@));
                    }
                },
            }
        }
        r
    }

    /// The profile named `name`, if any.
    pub fn get(&self, name: &str) -> (r: Option<&LlmEndpointProfile>)
        ensures
            match r {
                Some(p) => self@.contains_key(name@) && p@ == self@[name@],
                None => !self@.contains_key(name@),
            },
    {
        match self.index_of(name) {
            Some(i) => Some(&self.entries[i].1),
            None => None,
        }
    }

    pub fn contains_key(&self, name: &str) -> (r: bool)
        ensures
            r == self@.contains_key(name@),
    {
        self.index_of(name).is_some()
    }

    pub fn is_empty(&self) -> (r: bool)
        ensures
            r == (self@.dom() == Set::<Seq<char>>::empty()),
    {
        proof {
            crate::kernel::registry::lemma_pairs_map(entry_views(self.entries@));
            let ev = entry_views(self.entries@);
            if self.entries@.len() > 0 {
                assert(crate::kernel::registry::pairs_map(ev).dom().contains(ev[0].0));
            } else {
                assert(ev =~= Seq::empty());
                assert(crate::kernel::registry::pairs_map(ev).dom() =~= Set::empty());
            }
        }
        self.entries.len() == 0
    }

    /// Sets the profile `name`, replacing the one of that name.
    pub fn insert(&mut self, name: &str, profile: LlmEndpointProfile)
        ensures
            final(self)@ == old(self)@.insert(name@, profile@),
    {
        proof {
            use_type_invariant(&*self);
            crate::kernel::registry::lemma_pairs_map(entry_views(self.entries@));
        }
        let ghost m0 = self@;
        let ghost pv = profile@;
        let found = find_entry(&self.entries, name);
        let mut entries: Vec<(String, LlmEndpointProfile)> = Vec::new();
        std::mem::swap(&mut entries, &mut self.entries);
        let ghost e0 = entries@;
        let ghost ev0 = entry_views(e0);
        match found {
            Some(i) => {
                entries.set(i, (owned(name), profile));
            },
            None => {
                entries.push((owned(name), profile));
            },
        }
        let ghost ev = entry_views(entries@);
        proof {
            match found {
                Some(i) => {
                    assert(ev =~= ev0.update(i as int, (name@, pv)));
                },
                None => {
                    assert(ev =~= ev0.push((name@, pv)));
                },
            }
            assert forall|a: int, b: int| 0 <= a < b < ev.len() implies (#[trigger] ev[a]).0 != (#[trigger] ev[b]).0 by {
                match found {
                    Some(i) => {
                        if a != i && b != i {
                            assert(ev[a] == ev0[a] && ev[b] == ev0[b]);
                        } else if a == i {
                            assert(ev[b] == ev0[b]);
                            assert(ev0[i as int] == (e0[i as int].0@, e0[i as int].1@));
                        } else {
                            assert(ev[a] == ev0[a]);
                            assert(ev0[i as int] == (e0[i as int].0@, e0[i as int].1@));
                        }
                    },
                    None => {
                        assert(ev[a] == ev0[a]);
                        assert(ev0[a] == (e0[a].0@, e0[a].1@));
                    },
                }
            }
            crate::kernel::registry::lemma_pairs_map(ev);
            let m = crate::kernel::registry::pairs_map(ev);
            assert forall|k: Seq<char>| #[trigger] m.dom().contains(k) <==> m0.insert(name@, pv).dom().contains(k) by {
                if m.dom().contains(k) && k != name@ {
                    let j = choose|j: int| 0 <= j < ev.len() && (#[trigger] ev[j]).0 == k;
                    assert(ev0[j] == ev[j]);
                }
                if m0.dom().contains(k) && k != name@ {
                    let j = choose|j: int| 0 <= j < ev0.len() && (#[trigger] ev0[j]).0 == k;
                    match found {
                        Some(i) => {
                            assert(j != i) by {
                                assert(ev0[i as int] == (e0[i as int].0@, e0[i as int].1@));
                            }
                        },
                        None => {},
                    }
                    assert(ev[j] == ev0[j]);
                }
                if k == name@ {
                    match found {
                        Some(i) => assert(ev[i as int].0 == k),
                        None => assert(ev[ev0.len() as int].0 == k),
                    }
                }
            }
            assert forall|k: Seq<char>| #[trigger] m.dom().contains(k) implies m[k] == m0.insert(name@, pv)[k] by {
                let j = choose|j: int| 0 <= j < ev.len() && (#[trigger] ev[j]).0 == k;
                assert(m[ev[j].0] == ev[j].1);
                if k != name@ {
                    assert(ev0[j] == ev[j]);
                    assert(m0[ev0[j].0] == ev0[j].1);
                } else {
                    match found {
                        Some(i) => {
                            assert(ev[i as int].0 == k);
                        },
                        None => {
                            assert(ev[ev0.len() as int].0 == k);
                        },
                    }
                }
            }
            assert(m =~= m0.insert(name@, pv));
        }
        self.entries = entries;
    }

    /// Removes the profile `name`; whether there was one.
    pub fn remove(&mut self, name: &str) -> (r: bool)
        ensures
            r == old(self)@.contains_key(name@),
            final(self)@ == old(self)@.remove(name@),
    {
        proof {
            use_type_invariant(&*self);
            crate::kernel::registry::lemma_pairs_map(entry_views(self.entries@));
        }
        let ghost m0 = self@;
        let found = self.index_of(name);
        let i = match found {
            Some(i) => i,
            None => {
                assert(m0.remove(name@) =~= m0);
                return false;
            },
        };
        let mut entries: Vec<(String, LlmEndpointProfile)> = Vec::new();
        std::mem::swap(&mut entries, &mut self.entries);
        let ghost e0 = entries@;
        let ghost ev0 = entry_views(e0);
        let _ = entries.remove(i);
        let ghost ev = entry_views(entries@);
        proof {
            assert(ev =~= ev0.remove(i as int));
            assert forall|a: int, b: int| 0 <= a < b < ev.len() implies (#[trigger] ev[a]).0 != (#[trigger] ev[b]).0 by {
                let a0 = if a < i { a } else { a + 1 };
                let b0 = if b < i { b } else { b + 1 };
                assert(ev[a] == ev0[a0] && ev[b] == ev0[b0]);
            }
            crate::kernel::registry::lemma_pairs_map(ev);
            let m = crate::kernel::registry::pairs_map(ev);
            assert(ev0[i as int] == (e0[i as int].0@, e0[i as int].1@));
            assert forall|k: Seq<char>| #[trigger] m.dom().contains(k) <==> m0.remove(name@).dom().contains(k) by {
                if m.dom().contains(k) {
                    let j = choose|j: int| 0 <= j < ev.len() && (#[trigger] ev[j]).0 == k;
                    let j0 = if j < i { j } else { j + 1 };
                    assert(ev[j] == ev0[j0]);
                    assert(j0 != i);
                }
                if m0.dom().contains(k) && k != name@ {
                    let j = choose|j: int| 0 <= j < ev0.len() && (#[trigger] ev0[j]).0 == k;
                    assert(j != i);
                    if j < i {
                        assert(ev[j] == ev0[j]);
                    } else {
                        assert(ev[j - 1] == ev0[j]);
                    }
                }
            }
            assert forall|k: Seq<char>| #[trigger] m.dom().contains(k) implies m[k] == m0.remove(name@)[k] by {
                let j = choose|j: int| 0 <= j < ev.len() && (#[trigger] ev[j]).0 == k;
                let j0 = if j < i { j } else { j + 1 };
                assert(ev[j] == ev0[j0]);
                assert(m[ev[j].0] == ev[j].1);
                assert(m0[ev0[j0].0] == ev0[j0].1);
            }
            assert(m =~= m0.remove(name@));
        }
        self.entries = entries;
        true
    }

    /// The profile names, sorted.
    pub fn sorted_names(&self) -> (r: Vec<String>)
        ensures
            vstd::relations::sorted_by(views(r@), crate::order::lex_leq()),
            views(r@).no_duplicates(),
            forall|k: Seq<char>| #[trigger] views(r@).contains(k) <==> self@.contains_key(k),
    {
        proof {
            use_type_invariant(self);
            crate::kernel::registry::lemma_pairs_map(entry_views(self.entries@));
        }
        let mut names: Vec<String> = Vec::new();
        let mut i: usize = 0;
        while i < self.entries.len()
            invariant
                i <= self.entries@.len(),
                names@.len() == i,
                forall|j: int| 0 <= j < i ==> (#[trigger] names@[j])@ == self.entries@[j].0@,
            decreases self.entries.len() - i,
        {
            names.push(self.entries[i].0.clone());
            i = i + 1;
        }
        let ghost nv = views(names@);
        proof {
            let ev = entry_views(self.entries@);
            assert forall|a: int, b: int| 0 <= a < b < nv.len() implies nv[a] != nv[b] by {
                assert(ev[a].0 == nv[a] && ev[b].0 == nv[b]);
            }
            assert forall|k: Seq<char>| #[trigger] nv.contains(k) <==> crate::kernel::registry::pairs_map(ev).dom().contains(k) by {
                if nv.contains(k) {
                    let a = choose|a: int| 0 <= a < nv.len() && nv[a] == k;
                    assert(ev[a].0 == k);
                }
                if crate::kernel::registry::pairs_map(ev).dom().contains(k) {
                    let a = choose|a: int| 0 <= a < ev.len() && (#[trigger] ev[a]).0 == k;
                    assert(nv[a] == k);
                }
            }
        }
        let r = crate::order::sort_strings(names);
        proof {
            let rv = views(r@);
            broadcast use vstd::seq_lib::group_to_multiset_ensures;
            assert forall|k: Seq<char>| #[trigger] rv.contains(k) <==> nv.contains(k) by {
                assert(rv.to_multiset().count(k) == nv.to_multiset().count(k));
            }
            nv.lemma_multiset_has_no_duplicates();
            assert forall|k: Seq<char>| rv.to_multiset().contains(k) implies rv.to_multiset().count(k) == 1 by {
                assert(nv.to_multiset().count(k) == 1);
            }
            rv.lemma_multiset_has_no_duplicates_conv();
        }
        r
    }

    /// Some profile name, when there is one.
    pub fn any_name(&self) -> (r: Option<String>)
        ensures
            match r {
                Some(n) => self@.contains_key(n@),
                None => self@.dom() == Set::<Seq<char>>::empty(),
            },
    {
        proof {
            crate::kernel::registry::lemma_pairs_map(entry_views(self.entries@));
            let ev = entry_views(self.entries@);
            if self.entries@.len() > 0 {
                assert(ev[0] == (self.entries@[0].0@, self.entries@[0].1@));
                assert(crate::kernel::registry::pairs_map(ev).dom().contains(ev[0].0));
            } else {
                assert(ev =~= Seq::empty());
                assert(crate::kernel::registry::pairs_map(ev).dom() =~= Set::empty());
            }
        }
        if self.entries.len() > 0 {
            Some(self.entries[0].0.clone())
        } else {
            None
        }
    }
}

pub struct LlmConfig {
    pub active: Option<String>,
    pub endpoints: Endpoints,
}

pub struct Config {
    pub core: CoreConfig,
    pub default_timeout: DefaultTimeoutConfig,
    pub llm: LlmConfig,
    pub extensions: Vec<ExtensionConfig>,
    pub modules: Vec<ModuleConfig>,
}

impl Default for LlmConfig {
    fn default() -> (r: LlmConfig)
        ensures
            r.active is None,
            r.endpoints@ == Map::<Seq<char>, ProfileV>::empty(),
    {
        LlmConfig { active: None, endpoints: Endpoints::new() }
    }
}

impl Default for Config {
    fn default() -> (r: Config)
        ensures
            r.core.workspace@ == "."@,
            r.core.snapshot@ == ".rad/snapshots"@,
            r.core.log@ == ".rad/logs"@,
            !r.core.hitl_enabled,
            r.core.verification_command is None,
            r.core.max_sessions == 50,
            r.default_timeout.llm_stream_heartbeat_ms == 15000,
            r.default_timeout.process_silent_timeout_ms == 60000,
            r.llm.active is None,
            r.llm.endpoints@ == Map::<Seq<char>, ProfileV>::empty(),
            r.extensions@.len() == 0,
            r.modules@.len() == 0,
    {
        Config {
            core: CoreConfig::default(),
            default_timeout: DefaultTimeoutConfig::default(),
            llm: LlmConfig::default(),
            extensions: Vec::new(),
            modules: Vec::new(),
        }
    }
}

/// `~/rest` with the home directory in place of `~` when it is known; any
/// other path unchanged.
pub open spec fn expand_tilde_spec(path: Seq<char>, home: Option<Seq<char>>) -> Seq<char> {
    if "~/"@.is_prefix_of(path) && home is Some {
        crate::path::join_spec(home->0, path.subrange(2, path.len() as int))
    } else {
        path
    }
}

/// Expands a leading `~/` to the home directory `home`, when it is known.
pub fn expand_tilde(path: &str, home: Option<&str>) -> (r: String)
    ensures
        r@ == expand_tilde_spec(path@, match home {
            Some(h) => Some(h@),
            None => None,
        }),
{
    proof {
        reveal_strlit("~/");
    }
    if has_prefix(path, "~/") {
        match home {
            Some(h) => {
                let cs = chars_of(path);
                let rest = slice_chars(cs.as_slice(), 2, cs.len());
                let rs = string_of(rest.as_slice());
                return crate::path::join(h, rs.as_str());
            },
            None => {},
        }
    }
    owned(path)
}

/// Values taken from the environment: each `None` when unset.
pub struct EnvOverrides {
    pub workspace: Option<String>,
    pub base_url: Option<String>,
    pub api_key: Option<String>,
    pub model: Option<String>,
}

pub open spec fn overridden(p: ProfileV, o: EnvOverrides) -> ProfileV {
    ProfileV {
        base_url: match o.base_url {
            Some(u) => u@,
            None => p.base_url,
        },
        api_key: match o.api_key {
            Some(k) => Some(k@),
            None => p.api_key,
        },
        model: match o.model {
            Some(m) => Some(m@),
            None => p.model,
        },
        ..p
    }
}

impl Config {
    /// Applies the environment's overrides: the workspace, and the base URL,
    /// API key and model of the active profile (`default` when none is
    /// active), which is created empty first when it does not exist.
    pub fn apply_env_overrides(&mut self, env: EnvOverrides)
        ensures
            final(self).core.workspace@ == match env.workspace {
                Some(w) => w@,
                None => old(self).core.workspace@,
            },
            ({
                let name = match old(self).llm.active {
                    Some(a) => a@,
                    None => "default"@,
                };
                let base = if old(self).llm.endpoints@.contains_key(name) {
                    old(self).llm.endpoints@[name]
                } else {
                    default_profile()
                };
                final(self).llm.endpoints@ == old(self).llm.endpoints@.insert(name, overridden(base, env))
            }),
            opt_str(final(self).llm.active) == opt_str(old(self).llm.active),
            ({
                let name = match old(self).llm.active {
                    Some(a) => a@,
                    None => "default"@,
                };
                &&& final(self).llm.endpoints@.contains_key(name)
                &&& env.api_key matches Some(k) ==> final(self).llm.endpoints@[name].api_key == Some(k@)
                &&& env.base_url matches Some(u) ==> final(self).llm.endpoints@[name].base_url == u@
                &&& env.model matches Some(m) ==> final(self).llm.endpoints@[name].model == Some(m@)
            }),
    {
        match env.workspace {
            Some(w) => {
                self.core.workspace = w;
            },
            None => {},
        }
        let name = match &self.llm.active {
            Some(a) => a.clone(),
            None => owned("default"),
        };
        let mut profile = match self.llm.endpoints.get(name.as_str()) {
            Some(p) => p.duplicate(),
            None => LlmEndpointProfile::default(),
        };
        match env.base_url {
            Some(u) => {
                profile.base_url = u;
            },
            None => {},
        }
        match env.api_key {
            Some(k) => {
                profile.api_key = Some(k);
            },
            None => {},
        }
        match env.model {
            Some(m) => {
                profile.model = Some(m);
            },
            None => {},
        }
        self.llm.endpoints.insert(name.as_str(), profile);
    }
}

/// Where the user's global configuration lives: under the test home when
/// one is set, else under the home directory; none without either.
pub fn global_config_path(test_home: Option<&str>, home: Option<&str>) -> (r: Option<String>)
    ensures
        match test_home {
            Some(t) => r matches Some(p) && p@ == crate::path::join_spec(t@, ".rad/config.json"@),
            None => match home {
                Some(h) => r matches Some(p) && p@ == crate::path::join_spec(h@, ".rad/config.json"@),
                None => r is None,
            },
        },
{
    match test_home {
        Some(t) => Some(crate::path::join(t, ".rad/config.json")),
        None => match home {
            Some(h) => Some(crate::path::join(h, ".rad/config.json")),
            None => None,
        },
    }
}

/// The configuration files looked for, in order of preference (the first
/// that exists is used): only the explicit one when given; else `rad.json`,
/// `.rad/config.json`, then the global one under `home`.
pub fn config_candidates(explicit: Option<&str>, home: Option<&str>) -> (r: Vec<String>)
    ensures
        views(r@) == match explicit {
            Some(p) => seq![p@],
            None => seq!["rad.json"@, ".rad/config.json"@] + match home {
                Some(h) => seq![crate::path::join_spec(h@, ".rad/config.json"@)],
                None => Seq::empty(),
            },
        },
{
    let mut v: Vec<String> = Vec::new();
    match explicit {
        Some(p) => {
            v.push(owned(p));
            assert(views(v@) =~= seq![p@]);
        },
        None => {
            v.push(owned("rad.json"));
            v.push(owned(".rad/config.json"));
            match home {
                Some(h) => {
                    v.push(crate::path::join(h, ".rad/config.json"));
                    assert(views(v@) =~= seq!["rad.json"@, ".rad/config.json"@] + seq![
                        crate::path::join_spec(h@, ".rad/config.json"@),
                    ]);
                },
                None => {
                    assert(views(v@) =~= seq!["rad.json"@, ".rad/config.json"@] + Seq::<Seq<char>>::empty());
                },
            }
        },
    }
    v
}

/// The local overrides of a configuration file, in order of preference:
/// `rad.local.json`, then `config.local.json`, beside it; none for a path
/// without a parent.
pub fn local_config_candidates(config_path: &str) -> (r: Vec<String>)
    ensures
        views(r@) == match crate::sandbox::parent_spec(config_path@) {
            Some(d) => seq![
                crate::path::join_spec(d, "rad.local.json"@),
                crate::path::join_spec(d, "config.local.json"@),
            ],
            None => Seq::empty(),
        },
{
    let mut v: Vec<String> = Vec::new();
    match crate::sandbox::parent_path(config_path) {
        Some(d) => {
            v.push(crate::path::join(d.as_str(), "rad.local.json"));
            v.push(crate::path::join(d.as_str(), "config.local.json"));
            assert(views(v@) =~= seq![
                crate::path::join_spec(d@, "rad.local.json"@),
                crate::path::join_spec(d@, "config.local.json"@),
            ]);
        },
        None => {
            assert(views(v@) =~= Seq::<Seq<char>>::empty());
        },
    }
    v
}

/// The environment's overrides land on the profile they are for: after
/// setting profile `name` to `base` overridden by `env`, its API key, base
/// URL and model are those the environment gives, each kept from `base`
/// where the environment gives none, its other settings are kept, and
/// every other profile is left alone.
pub proof fn law_env_overrides_reach_profile(
    before: Map<Seq<char>, ProfileV>,
    name: Seq<char>,
    base: ProfileV,
    env: EnvOverrides,
    other: Seq<char>,
)
    requires
        other != name,
    ensures
        ({
            let after = before.insert(name, overridden(base, env));
            let p = after[name];
            &&& p.api_key == match env.api_key {
                Some(k) => Some(k@),
                None => base.api_key,
            }
            &&& p.base_url == match env.base_url {
                Some(u) => u@,
                None => base.base_url,
            }
            &&& p.model == match env.model {
                Some(m) => Some(m@),
                None => base.model,
            }
            &&& p.context_length == base.context_length
            &&& p.dialect == base.dialect
            &&& after.contains_key(other) == before.contains_key(other)
            &&& before.contains_key(other) ==> after[other] == before[other]
        }),
{
}

} // verus!
