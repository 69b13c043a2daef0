//! The dispatch discipline: resolving a target, refusing a call that would
//! re-enter a module already on the call stack, the `kernel.*` methods the
//! host answers itself, and the post queue with its bounded drain.
//!
//! Delivering a message to a module is outside work; the host runs it between
//! the steps decided here.
use vstd::prelude::*;
use std::collections::VecDeque;
use crate::json::{Json, JsonV, json_text, to_json_text};
use crate::kernel::registry::{Registry, RegistryV};
use crate::order::views;
use crate::text::{has_prefix, join, join_strings, push_str, str_eq, string_of};

verus! {

/// The name under which the kernel answers dispatch like any other target.
pub const KERNEL_TARGET: &'static str = "kernel";

/// How many queued posts one drain delivers at most; the rest stay queued
/// for the next drain, so a module posting to itself cannot spin forever.
pub const MAX_PER_DRAIN: usize = 1024;

pub open spec fn kernel_name() -> Seq<char> {
    seq!['k', 'e', 'r', 'n', 'e', 'l']
}

pub open spec fn kernel_prefix() -> Seq<char> {
    seq!['k', 'e', 'r', 'n', 'e', 'l', '.']
}

/// A call addressed to the kernel itself.
pub open spec fn is_kernel_call(target: Seq<char>, method: Seq<char>) -> bool {
    target == kernel_name() || kernel_prefix().is_prefix_of(method)
}

/// Which module a message for `target`/`method` goes to: `target` when it
/// names a module, else whoever routes `method`.
pub open spec fn resolve_spec(reg: RegistryV, target: Seq<char>, method: Seq<char>) -> Option<
    Seq<char>,
> {
    if reg.modules.contains_key(target) {
        Some(target)
    } else if reg.routes.contains_key(method) {
        Some(reg.routes[method])
    } else {
        None
    }
}

pub open spec fn no_provider_text(method: Seq<char>, from: Seq<char>, target: Seq<char>) -> Seq<
    char,
> {
    "no module provides '"@ + method + "' (dispatch from '"@ + from + "' to '"@ + target
        + "')"@
}

pub open spec fn cycle_text(chain: Seq<Seq<char>>) -> Seq<char> {
    "dispatch cycle: "@ + join(chain, " -> "@)
}

/// A message queued by a post, delivered once the target is idle.
pub struct Posted {
    pub from: String,
    pub target: String,
    pub method: String,
    pub payload: String,
}

/// What to do with a call.
pub enum CallStart {
    /// The kernel answers it itself.
    Kernel,
    /// It is refused with this message.
    Refused(String),
    /// Deliver it to this module, which is now on the call stack.
    Deliver(String),
}

/// Resolves a dispatch target: the module named `target`, else the module
/// routing `method`.
pub fn resolve(registry: &Registry, target: &str, method: &str) -> (r: Option<String>)
    ensures
        match r {
            Some(n) => resolve_spec(registry@, target@, method@) == Some(n@),
            None => resolve_spec(registry@, target@, method@) is None,
        },
{
    match registry.manifest(target) {
        Some(_) => {
            return Some(target.to_owned());
        },
        None => {},
    }
    match registry.route(method) {
        Some(m) => Some(m.to_owned()),
        None => None,
    }
}

/// The module routing `method`, by method alone; a module name is not an
/// answer here.
pub fn provider_of(registry: &Registry, method: &str) -> (r: Option<String>)
    ensures
        match r {
            Some(n) => registry@.routes.contains_key(method@) && n@ == registry@.routes[method@],
            None => !registry@.routes.contains_key(method@),
        },
{
    match registry.route(method) {
        Some(m) => Some(m.to_owned()),
        None => None,
    }
}

/// Whether a call is addressed to the kernel itself.
pub fn kernel_call(target: &str, method: &str) -> (r: bool)
    ensures
        r == is_kernel_call(target@, method@),
{
    proof {
        reveal_strlit("kernel");
        reveal_strlit("kernel.");
        assert("kernel"@ =~= kernel_name());
        assert("kernel."@ =~= kernel_prefix());
    }
    str_eq(target, KERNEL_TARGET) || has_prefix(method, "kernel.")
}

/// Whether `name` is on the stack.
fn on_stack(stack: &Vec<String>, name: &str) -> (r: bool)
    ensures
        r == views(stack@).contains(name@),
{
    let mut i: usize = 0;
    while i < stack.len()
        invariant
            i <= stack@.len(),
            forall|j: int| 0 <= j < i ==> (#[trigger] stack@[j])@ != name@,
        decreases stack.len() - i,
    {
        if str_eq(stack[i].as_str(), name) {
            proof {
                assert(views(stack@)[i as int] == name@);
            }
            return true;
        }
        i = i + 1;
    }
    proof {
        if views(stack@).contains(name@) {
            let j = choose|j: int| 0 <= j < views(stack@).len() && views(stack@)[j] == name@;
            assert(stack@[j]@ == name@);
        }
    }
    false
}

/// Decides a synchronous call from `from` to `target`/`method`.
///
/// A call for the kernel is answered by the kernel. Otherwise the target is
/// resolved, and refused when nothing resolves or when the module is already
/// on the call stack: past that point the call would wait on a lock its own
/// chain holds. An admitted call pushes its module onto the stack; the host
/// pops it with [`finish_call`] once delivery returns. No module is ever on
/// the stack twice.
pub fn begin_call(registry: &Registry, stack: &mut Vec<String>, from: &str, target: &str, method: &str) -> (r:
    CallStart)
    ensures
        is_kernel_call(target@, method@) ==> (r is Kernel && final(stack)@ == old(stack)@),
        !is_kernel_call(target@, method@) ==> match resolve_spec(registry@, target@, method@) {
            None => (r matches CallStart::Refused(m) && m@ == no_provider_text(method@, from@, target@)
                && final(stack)@ == old(stack)@),
            Some(n) => if views(old(stack)@).contains(n) {
                (r matches CallStart::Refused(m) && m@ == cycle_text(views(old(stack)@).push(n))
                    && final(stack)@ == old(stack)@)
            } else {
                (r matches CallStart::Deliver(d) && d@ == n && views(final(stack)@) == views(
                    old(stack)@,
                ).push(n))
            },
        },
        views(old(stack)@).no_duplicates() ==> views(final(stack)@).no_duplicates(),
        views(final(stack)@) == stack_after_call(registry@, views(old(stack)@), target@, method@),
{
    if kernel_call(target, method) {
        return CallStart::Kernel;
    }
    let name = match resolve(registry, target, method) {
        Some(n) => n,
        None => {
            let mut b: Vec<char> = Vec::new();
            push_str(&mut b, "no module provides '");
            push_str(&mut b, method);
            push_str(&mut b, "' (dispatch from '");
            push_str(&mut b, from);
            push_str(&mut b, "' to '");
            push_str(&mut b, target);
            push_str(&mut b, "')");
            return CallStart::Refused(string_of(b.as_slice()));
        },
    };
    if on_stack(stack, name.as_str()) {
        let mut chain: Vec<String> = Vec::new();
        let mut i: usize = 0;
        while i < stack.len()
            invariant
                i <= stack@.len(),
                chain@.len() == i,
                forall|j: int| 0 <= j < i ==> (#[trigger] chain@[j])@ == stack@[j]@,
            decreases stack.len() - i,
        {
            chain.push(stack[i].clone());
            i = i + 1;
        }
        chain.push(name.clone());
        assert(views(chain@) =~= views(stack@).push(name@));
        let joined = join_strings(&chain, " -> ");
        let mut b: Vec<char> = Vec::new();
        push_str(&mut b, "dispatch cycle: ");
        push_str(&mut b, joined.as_str());
        return CallStart::Refused(string_of(b.as_slice()));
    }
    let ghost before = views(stack@);
    stack.push(name.clone());
    proof {
        assert(views(stack@) =~= before.push(name@));
        if before.no_duplicates() {
            assert forall|a: int, b: int| 0 <= a < b < views(stack@).len() implies views(stack@)[a]
                != views(stack@)[b] by {
                if b == before.len() {
                    assert(before[a] == views(stack@)[a]);
                    assert(before.contains(before[a]));
                }
            }
        }
    }
    CallStart::Deliver(name)
}

/// Pops the module whose call has returned.
pub fn finish_call(stack: &mut Vec<String>)
    ensures
        old(stack)@.len() > 0 ==> final(stack)@ == old(stack)@.drop_last(),
        old(stack)@.len() == 0 ==> final(stack)@ == old(stack)@,
        views(final(stack)@) == stack_after_finish(views(old(stack)@)),
{
    if stack.len() > 0 {
        let _ = stack.pop();
        assert(views(stack@) =~= views(old(stack)@).drop_last());
    }
}

/// Whether a call is let through: not one for the kernel, resolved, and to
/// a module not already on the call stack.
pub open spec fn delivered(reg: RegistryV, stack: Seq<Seq<char>>, target: Seq<char>, method: Seq<char>) -> bool {
    !is_kernel_call(target, method) && match resolve_spec(reg, target, method) {
        Some(n) => !stack.contains(n),
        None => false,
    }
}

/// The call stack after [`begin_call`]: the callee pushed when the call is
/// let through, unchanged otherwise.
pub open spec fn stack_after_call(reg: RegistryV, stack: Seq<Seq<char>>, target: Seq<char>, method: Seq<char>) -> Seq<
    Seq<char>,
> {
    if delivered(reg, stack, target, method) {
        stack.push(resolve_spec(reg, target, method)->0)
    } else {
        stack
    }
}

/// The call stack after [`finish_call`].
pub open spec fn stack_after_finish(stack: Seq<Seq<char>>) -> Seq<Seq<char>> {
    if stack.len() > 0 {
        stack.drop_last()
    } else {
        stack
    }
}

/// Per-module configuration from the configuration file, opaque to the
/// kernel: it stores it and hands it back.
pub struct ModuleConfigs {
    entries: Vec<(String, Json)>,
}

impl View for ModuleConfigs {
    type V = Map<Seq<char>, JsonV>;

    closed spec fn view(&self) -> Map<Seq<char>, JsonV> {
        Map::new(
            |k: Seq<char>| exists|i: int| 0 <= i < self.entries@.len() && (#[trigger] self.entries@[i]).0@ == k,
            |k: Seq<char>| {
                let i = choose|i: int| 0 <= i < self.entries@.len() && (#[trigger] self.entries@[i]).0@ == k;
                self.entries@[i].1@
            },
        )
    }
}

fn find_entry(entries: &Vec<(String, Json)>, module: &str) -> (r: Option<usize>)
    ensures
        match r {
            Some(i) => i < entries@.len() && entries@[i as int].0@ == module@,
            None => forall|j: int| 0 <= j < entries@.len() ==> (#[trigger] entries@[j]).0@ != module@,
        },
{
    let mut i: usize = 0;
    while i < entries.len()
        invariant
            i <= entries@.len(),
            forall|j: int| 0 <= j < i ==> (#[trigger] entries@[j]).0@ != module@,
        decreases entries.len() - i,
    {
        if str_eq(entries[i].0.as_str(), module) {
            return Some(i);
        }
        i = i + 1;
    }
    None
}

impl ModuleConfigs {
    #[verifier::type_invariant]
    closed spec fn inv(self) -> bool {
        forall|i: int, j: int|
            0 <= i < j < self.entries@.len() ==> (#[trigger] self.entries@[i]).0@ != (
            #[trigger] self.entries@[j]).0@
    }

    pub fn new() -> (r: ModuleConfigs)
        ensures
            r@ == Map::<Seq<char>, JsonV>::empty(),
    {
        let r = ModuleConfigs { entries: Vec::new() };
        assert(r@ =~= Map::<Seq<char>, JsonV>::empty());
        r
    }

    /// Sets the configuration of `module`.
    pub fn set(&mut self, module: &str, config: Json)
        ensures
            final(self)@ == old(self)@.insert(module@, config@),
    {
        proof {
            use_type_invariant(&*self);
        }
        let ghost old_view = self@;
        let mut entries: Vec<(String, Json)> = Vec::new();
        std::mem::swap(&mut entries, &mut self.entries);
        let ghost e0 = entries@;
        let found = find_entry(&entries, module);
        let ghost cv = config@;
        match found {
            Some(p) => {
                entries.set(p, (module.to_owned(), config));
                proof {
                    assert(entries@ == e0.update(p as int, entries@[p as int]));
                }
            },
            None => {
                entries.push((module.to_owned(), config));
            },
        }
        proof {
            assert forall|a: int, b: int| 0 <= a < b < entries@.len() implies (#[trigger] entries@[a]).0@
                != (#[trigger] entries@[b]).0@ by {
                match found {
                    Some(p) => {
                        if a != p && b != p {
                            assert(entries@[a] == e0[a] && entries@[b] == e0[b]);
                        } else if a == p {
                            assert(entries@[b] == e0[b]);
                            assert(e0[p as int].0@ == module@);
                        } else {
                            assert(entries@[a] == e0[a]);
                            assert(e0[p as int].0@ == module@);
                        }
                    },
                    None => {
                        if b < e0.len() {
                            assert(entries@[a] == e0[a] && entries@[b] == e0[b]);
                        } else {
                            assert(entries@[a] == e0[a]);
                        }
                    },
                }
            }
        }
        self.entries = entries;
        proof {
            let m = self@;
            assert forall|k: Seq<char>| #[trigger] m.dom().contains(k) <==> old_view.insert(
                module@,
                cv,
            ).dom().contains(k) by {
                if k != module@ && old_view.dom().contains(k) {
                    let a = choose|a: int| 0 <= a < e0.len() && (#[trigger] e0[a]).0@ == k;
                    assert(self.entries@[a] == e0[a]);
                }
                if k != module@ && m.dom().contains(k) {
                    let a = choose|a: int| 0 <= a < self.entries@.len() && (#[trigger] self.entries@[a]).0@ == k;
                    assert(a < e0.len() && self.entries@[a] == e0[a]);
                }
                if k == module@ {
                    match found {
                        Some(p) => assert(self.entries@[p as int].0@ == k),
                        None => assert(self.entries@[e0.len() as int].0@ == k),
                    }
                }
            }
            assert forall|k: Seq<char>| #[trigger] m.dom().contains(k) implies m[k] == old_view.insert(
                module@,
                cv,
            )[k] by {
                let a = choose|a: int| 0 <= a < self.entries@.len() && (#[trigger] self.entries@[a]).0@ == k;
                if k == module@ {
                    match found {
                        Some(p) => {
                            assert(self.entries@[p as int].0@ == k);
                        },
                        None => {
                            assert(self.entries@[e0.len() as int].0@ == k);
                        },
                    }
                } else {
                    assert(a < e0.len() && self.entries@[a] == e0[a]);
                    assert(old_view.dom().contains(k));
                    let b = choose|b: int| 0 <= b < e0.len() && (#[trigger] e0[b]).0@ == k;
                    assert(self.entries@[b] == e0[b]);
                }
            }
            assert(m =~= old_view.insert(module@, cv));
        }
    }

    /// The configuration of `module`, if it has one.
    pub fn get(&self, module: &str) -> (r: Option<&Json>)
        ensures
            match r {
                Some(j) => self@.contains_key(module@) && j@ == self@[module@],
                None => !self@.contains_key(module@),
            },
    {
        proof {
            use_type_invariant(self);
        }
        match find_entry(&self.entries, module) {
            Some(i) => {
                proof {
                    assert(self@.dom().contains(module@));
                    let c = choose|c: int|
                        0 <= c < self.entries@.len() && (#[trigger] self.entries@[c]).0@ == module@;
                    assert(c == i);
                }
                Some(&self.entries[i].1)
            },
            None => None,
        }
    }
}

/// What the kernel answers to a call addressed to it from `from`:
/// `kernel.config` is that module's configuration (null when it has none),
/// `kernel.modules` the sorted names of the loaded modules, both as JSON
/// text; any other method is refused.
pub fn kernel_reply(configs: &ModuleConfigs, registry: &Registry, from: &str, method: &str) -> (r:
    Result<String, String>)
    ensures
        method@ == "kernel.config"@ ==> r is Ok && r->Ok_0@ == json_text(
            if configs@.contains_key(from@) {
                configs@[from@]
            } else {
                JsonV::Null
            },
        ),
        method@ == "kernel.modules"@ ==> (r is Ok && exists|names: Seq<Seq<char>>|
            #![auto]
            vstd::relations::sorted_by(names, crate::order::lex_leq()) && names.no_duplicates() && (
            forall|k: Seq<char>| #[trigger] names.contains(k) <==> registry@.modules.contains_key(k))
                && r->Ok_0@ == json_text(
                JsonV::Array(names.map_values(|n: Seq<char>| JsonV::Str(n))),
            )),
        method@ != "kernel.config"@ && method@ != "kernel.modules"@ ==> (r matches Err(e) && e@
            == "the kernel does not provide '"@ + method@ + "'"@),
{
    proof {
        reveal_strlit("kernel.config");
        reveal_strlit("kernel.modules");
        assert("kernel.config"@ != "kernel.modules"@) by {
            assert("kernel.config"@[7] != "kernel.modules"@[7]);
        }
    }
    if str_eq(method, "kernel.config") {
        let text = match configs.get(from) {
            Some(j) => to_json_text(j),
            None => to_json_text(&Json::Null),
        };
        Ok(text)
    } else if str_eq(method, "kernel.modules") {
        let names = registry.module_names();
        let mut items: Vec<Json> = Vec::new();
        let mut i: usize = 0;
        while i < names.len()
            invariant
                i <= names@.len(),
                items@.len() == i,
                forall|j: int| 0 <= j < i ==> (#[trigger] items@[j])@ == JsonV::Str(names@[j]@),
            decreases names.len() - i,
        {
            items.push(Json::Str(names[i].clone()));
            i = i + 1;
        }
        let ghost nv = views(names@);
        proof {
            crate::json::lemma_view_array(items@);
            assert(crate::json::view_array(items@) =~= nv.map_values(|n: Seq<char>| JsonV::Str(n)));
        }
        let arr = Json::Array(items);
        let text = to_json_text(&arr);
        proof {
            assert(arr@ == JsonV::Array(nv.map_values(|n: Seq<char>| JsonV::Str(n))));
            assert(vstd::relations::sorted_by(nv, crate::order::lex_leq()) && nv.no_duplicates());
        }
        Ok(text)
    } else {
        let mut b: Vec<char> = Vec::new();
        push_str(&mut b, "the kernel does not provide '");
        push_str(&mut b, method);
        push_str(&mut b, "'");
        Err(string_of(b.as_slice()))
    }
}

/// The queue of posted messages, oldest first.
pub struct PostQueue {
    items: VecDeque<Posted>,
}

impl PostQueue {
    pub closed spec fn len_spec(&self) -> nat {
        self.items@.len()
    }

    /// The queued messages, oldest first.
    pub closed spec fn queued(&self) -> Seq<Posted> {
        self.items@
    }

    pub fn new() -> (r: PostQueue)
        ensures
            r.len_spec() == 0,
    {
        PostQueue { items: VecDeque::new() }
    }

    /// Queues a message. Never fails and never blocks.
    pub fn post(&mut self, from: &str, target: &str, method: &str, payload: &str)
        ensures
            final(self).len_spec() == old(self).len_spec() + 1,
            final(self).queued().last().from@ == from@,
            final(self).queued().last().target@ == target@,
            final(self).queued().last().method@ == method@,
            final(self).queued().last().payload@ == payload@,
            final(self).queued().drop_last() == old(self).queued(),
    {
        self.items.push_back(
            Posted {
                from: from.to_owned(),
                target: target.to_owned(),
                method: method.to_owned(),
                payload: payload.to_owned(),
            },
        );
    }

    /// The next message to deliver in a drain that has delivered
    /// `delivered` so far: the oldest queued one, unless the queue is empty
    /// or the drain has reached [`MAX_PER_DRAIN`], in which case the queue is
    /// left as it is.
    pub fn next_for_drain(&mut self, delivered: usize) -> (r: Option<Posted>)
        ensures
            delivered >= MAX_PER_DRAIN || old(self).queued().len() == 0 ==> (r is None
                && final(self).queued() == old(self).queued()),
            delivered < MAX_PER_DRAIN && old(self).queued().len() > 0 ==> (r == Some(old(self).queued()[0])
                && final(self).queued() == old(self).queued().drop_first()),
    {
        if delivered >= MAX_PER_DRAIN {
            return None;
        }
        self.items.pop_front()
    }
}

/// Where a drained post goes: the resolved module, or the message naming
/// what nobody provides.
pub fn post_destination(registry: &Registry, posted: &Posted) -> (r: Result<String, String>)
    ensures
        match resolve_spec(registry@, posted.target@, posted.method@) {
            Some(n) => (r matches Ok(d) && d@ == n),
            None => (r matches Err(e) && e@ == "no module provides '"@ + posted.method@
                + "' (posted from '"@ + posted.from@ + "')"@),
        },
{
    match resolve(registry, posted.target.as_str(), posted.method.as_str()) {
        Some(n) => Ok(n),
        None => {
            let mut b: Vec<char> = Vec::new();
            push_str(&mut b, "no module provides '");
            push_str(&mut b, posted.method.as_str());
            push_str(&mut b, "' (posted from '");
            push_str(&mut b, posted.from.as_str());
            push_str(&mut b, "')");
            Err(string_of(b.as_slice()))
        },
    }
}

/// The refusal for a registered module with no loaded runtime.
pub fn not_loaded_message(name: &str) -> (r: String)
    ensures
        r@ == "module '"@ + name@ + "' is registered but not loaded"@,
{
    let mut b: Vec<char> = Vec::new();
    push_str(&mut b, "module '");
    push_str(&mut b, name);
    push_str(&mut b, "' is registered but not loaded");
    string_of(b.as_slice())
}


/// A call that was let through and has returned leaves the call stack as it
/// was before the call; a call that was not let through leaves it as it was.
pub proof fn law_finished_call_restores_stack(
    reg: RegistryV,
    stack: Seq<Seq<char>>,
    target: Seq<char>,
    method: Seq<char>,
)
    ensures
        delivered(reg, stack, target, method) ==> stack_after_finish(stack_after_call(reg, stack, target, method))
            == stack,
        !delivered(reg, stack, target, method) ==> stack_after_call(reg, stack, target, method) == stack,
{
    if delivered(reg, stack, target, method) {
        let n = resolve_spec(reg, target, method)->0;
        assert(stack.push(n).drop_last() =~= stack);
    }
}

/// Posts are delivered in the order they were posted: a message posted to
/// a queue comes out of it after everything queued before it.
pub proof fn law_posts_first_in_first_out(queued: Seq<Posted>, p: Posted)
    requires
        queued.len() > 0,
    ensures
        queued.push(p)[0] == queued[0],
        queued.push(p).drop_first() == queued.drop_first().push(p),
{
    assert(queued.push(p).drop_first() =~= queued.drop_first().push(p));
}

/// A module's settings read back as the last ones set for it, and setting
/// one module's leaves the others' alone.
pub proof fn law_config_read_after_write(c: Map<Seq<char>, JsonV>, module: Seq<char>, v: JsonV, other: Seq<char>)
    requires
        other != module,
    ensures
        c.insert(module, v)[module] == v,
        c.insert(module, v).contains_key(other) == c.contains_key(other),
        c.contains_key(other) ==> c.insert(module, v)[other] == c[other],
{
}

} // verus!
