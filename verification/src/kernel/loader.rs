//! Loading a module: what its load failures read, the deadline every call
//! into it runs under, and whether its manifest is taken. Instantiating the
//! component is the host's work.
use vstd::prelude::*;
use crate::kernel::syscalls::check_declared_name;
use crate::text::{push_str, string_of};

verus! {

/// How often the epoch ticker advances, in milliseconds.
pub const EPOCH_TICK_MS: u64 = 50;

/// How long one call into a module may run, in epoch ticks (30 s at
/// [`EPOCH_TICK_MS`]): the ceiling on how long a module can hold the
/// process.
pub const HANDLE_DEADLINE_TICKS: u64 = 600;

/// Where loading a module failed.
pub enum LoadStage {
    /// Reading the component from its file.
    Load,
    /// Linking the WASI imports.
    LinkWasi,
    /// Linking the kernel's imports.
    LinkKernel,
    /// Instantiating the component.
    Instantiate,
    /// The module trapped in `manifest()`.
    Manifest,
    /// The manifest could not be used.
    BadManifest,
}

/// The text of a load failure of module `name` at `stage`, whose error
/// reads `e`.
pub open spec fn load_failure_spec(stage: LoadStage, name: Seq<char>, e: Seq<char>) -> Seq<char> {
    match stage {
        LoadStage::Load => "Failed to load module '"@ + name + "': "@ + e,
        LoadStage::LinkWasi => "Linker error WASI: "@ + e,
        LoadStage::LinkKernel => "Linker error rad:kernel: "@ + e,
        LoadStage::Instantiate => "Failed to instantiate module '"@ + name + "': "@ + e,
        LoadStage::Manifest => "Module '"@ + name + "' trapped in manifest(): "@ + e,
        LoadStage::BadManifest => "Module '"@ + name + "' returned an unusable manifest: "@ + e,
    }
}

/// The text of a load failure, as [`load_failure_spec`] says.
pub fn load_failure(stage: LoadStage, name: &str, e: &str) -> (r: String)
    ensures
        r@ == load_failure_spec(stage, name@, e@),
{
    let mut b: Vec<char> = Vec::new();
    match stage {
        LoadStage::Load => {
            push_str(&mut b, "Failed to load module '");
            push_str(&mut b, name);
            push_str(&mut b, "': ");
        },
        LoadStage::LinkWasi => {
            push_str(&mut b, "Linker error WASI: ");
        },
        LoadStage::LinkKernel => {
            push_str(&mut b, "Linker error rad:kernel: ");
        },
        LoadStage::Instantiate => {
            push_str(&mut b, "Failed to instantiate module '");
            push_str(&mut b, name);
            push_str(&mut b, "': ");
        },
        LoadStage::Manifest => {
            push_str(&mut b, "Module '");
            push_str(&mut b, name);
            push_str(&mut b, "' trapped in manifest(): ");
        },
        LoadStage::BadManifest => {
            push_str(&mut b, "Module '");
            push_str(&mut b, name);
            push_str(&mut b, "' returned an unusable manifest: ");
        },
    }
    push_str(&mut b, e);
    string_of(b.as_slice())
}

/// Whether a module whose manifest was read is taken: it is when it calls
/// itself what it was configured as, and then every call into it runs under
/// [`HANDLE_DEADLINE_TICKS`].
pub fn accept_manifest(configured: &str, declared: &str) -> (r: Result<u64, String>)
    ensures
        configured@ == declared@ ==> r == Ok::<u64, String>(HANDLE_DEADLINE_TICKS),
        configured@ != declared@ ==> (r matches Err(m) && m@ == "module configured as '"@ + configured@
            + "' declares itself '"@ + declared@ + "'"@),
{
    match check_declared_name(configured, declared) {
        Ok(()) => Ok(HANDLE_DEADLINE_TICKS),
        Err(m) => Err(m),
    }
}

} // verus!
