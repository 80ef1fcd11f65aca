//! The hot-reload decision: which registry call a filesystem event asks
//! for. The watcher observes one directory for module artifacts, filtered
//! to a single file extension; a create loads the file, a remove unloads
//! its source identity, and anything else is ignored. The observation
//! itself happens outside this crate; only the decision is made here.

use vstd::prelude::*;

verus! {

/// The extension that marks a file as a module artifact.
pub const WRAP_EXTENSION: &'static str = ".wasm";

/// A filesystem event as the watcher reports it.
#[derive(Clone, Copy)]
pub enum WatchEventKind {
    Create,
    Remove,
    Other,
}

/// What the registry should do about one event.
#[derive(Clone, Copy, Debug, PartialEq, Eq, Structural)]
pub enum WatchAction {
    /// Read the file and load it under its source identity.
    Load,
    /// Unload whatever the source identity maps to.
    Unload,
    /// Not a module artifact, or not an event the watcher acts on.
    Ignore,
}

/// The path names a module artifact: it ends in the artifact extension.
pub open spec fn is_wrap_path(p: Seq<char>) -> bool {
    p.len() >= 5 && p.subrange(p.len() - 5, p.len() as int) == ".wasm"@
}

/// The registry call an event asks for.
pub open spec fn action_of(kind: WatchEventKind, path: Seq<char>) -> WatchAction {
    if !is_wrap_path(path) {
        WatchAction::Ignore
    } else {
        match kind {
            WatchEventKind::Create => WatchAction::Load,
            WatchEventKind::Remove => WatchAction::Unload,
            WatchEventKind::Other => WatchAction::Ignore,
        }
    }
}

/// Whether a path names a module artifact.
pub fn has_wrap_extension(path: &str) -> (r: bool)
    ensures
        r == is_wrap_path(path@),
{
    proof {
        reveal_strlit(".wasm");
    }
    let n = path.unicode_len();
    if n < 5 {
        return false;
    }
    let ext: &str = WRAP_EXTENSION;
    let mut i: usize = 0;
    while i < 5
        invariant
            i <= 5,
            5 <= n == path@.len(),
            ext@ == ".wasm"@,
            forall|j: int| 0 <= j < i ==> path@[n - 5 + j] == ".wasm"@[j],
        decreases 5 - i,
    {
        proof {
            reveal_strlit(".wasm");
        }
        if path.get_char(n - 5 + i) != ext.get_char(i) {
            proof {
                if is_wrap_path(path@) {
                    assert(path@.subrange(n - 5, n as int)[i as int] == path@[n - 5 + i]);
                }
            }
            return false;
        }
        i = i + 1;
    }
    proof {
        assert(path@.subrange(n - 5, n as int) =~= ".wasm"@);
    }
    true
}

/// Decides what one filesystem event means for the registry.
pub fn watch_action(kind: WatchEventKind, path: &str) -> (a: WatchAction)
    ensures
        a == action_of(kind, path@),
{
    if !has_wrap_extension(path) {
        WatchAction::Ignore
    } else {
        match kind {
            WatchEventKind::Create => WatchAction::Load,
            WatchEventKind::Remove => WatchAction::Unload,
            WatchEventKind::Other => WatchAction::Ignore,
        }
    }
}

} // verus!
