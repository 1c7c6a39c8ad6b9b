//! The sandbox guard: a resolved path is accepted only inside the root.
//!
//! A path is held as the sequence of its components, root component first.
//! Resolving a raw path (following links, normalizing `.` and `..`) needs the
//! file system and is the caller's part; the guard decides on what came back,
//! and hands back the cause where nothing came back.
use crate::path::{below, is_below, lemma_above, lemma_way, names_view};
use vstd::prelude::*;

verus! {

/// A canonical absolute path, as its components in order.
#[derive(Debug)]
pub struct CanonicalPath {
    pub components: Vec<String>,
}

impl View for CanonicalPath {
    type V = Seq<Seq<char>>;

    open spec fn view(&self) -> Seq<Seq<char>> {
        names_view(self.components@)
    }
}

/// Why a path was refused.
#[derive(Debug, PartialEq, Eq)]
pub enum GuardError {
    /// The path resolves to `path`, a place outside the root.
    PathEscapesSandbox { path: Vec<String> },
    /// The path does not exist or could not be resolved, for `cause`.
    InvalidPath { cause: String },
    /// The root has no component: it is no directory path.
    InvalidRoot,
}

/// A refusal in specifications.
pub enum RefusalView {
    PathEscapesSandbox { path: Seq<Seq<char>> },
    InvalidPath { cause: Seq<char> },
    InvalidRoot,
}

impl View for GuardError {
    type V = RefusalView;

    open spec fn view(&self) -> RefusalView {
        match *self {
            GuardError::PathEscapesSandbox { path } => RefusalView::PathEscapesSandbox {
                path: names_view(path@),
            },
            GuardError::InvalidPath { cause } => RefusalView::InvalidPath { cause: cause@ },
            GuardError::InvalidRoot => RefusalView::InvalidRoot,
        }
    }
}

/// `path` is inside the sandbox: it is `root` or lies below it.
pub open spec fn is_within(root: Seq<Seq<char>>, path: Seq<Seq<char>>) -> bool {
    below(root, path)
}

/// `root` can be a sandbox root: it has a component.
pub open spec fn is_root(root: Seq<Seq<char>>) -> bool {
    root.len() > 0
}

/// What the guard answers for `root` and the outcome of resolving a path:
/// the canonical form, or the cause for which there is none.
///
/// A path that did not resolve is invalid, whatever the root. A root without
/// a component is refused. A resolved path is handed back where it is inside
/// the root, and refused as escaping where it is not.
pub open spec fn guard_spec(
    root: Seq<Seq<char>>,
    resolved: Result<Seq<Seq<char>>, Seq<char>>,
) -> Result<Seq<Seq<char>>, RefusalView> {
    match resolved {
        Err(cause) => Err(RefusalView::InvalidPath { cause }),
        Ok(path) => if !is_root(root) {
            Err(RefusalView::InvalidRoot)
        } else if is_within(root, path) {
            Ok(path)
        } else {
            Err(RefusalView::PathEscapesSandbox { path })
        },
    }
}

/// What is answered when the guard may be switched off: with the guard off
/// every path that resolves is accepted, and the root is not looked at.
pub open spec fn resolve_spec(
    guarded: bool,
    root: Seq<Seq<char>>,
    resolved: Result<Seq<Seq<char>>, Seq<char>>,
) -> Result<Seq<Seq<char>>, RefusalView> {
    if guarded {
        guard_spec(root, resolved)
    } else {
        match resolved {
            Err(cause) => Err(RefusalView::InvalidPath { cause }),
            Ok(path) => Ok(path),
        }
    }
}

/// The view of the outcome of resolving a path.
pub open spec fn resolved_view(resolved: Result<CanonicalPath, String>) -> Result<
    Seq<Seq<char>>,
    Seq<char>,
> {
    match resolved {
        Ok(path) => Ok(path@),
        Err(cause) => Err(cause@),
    }
}

/// The view of an answer of the guard.
pub open spec fn answer_view(answer: Result<CanonicalPath, GuardError>) -> Result<
    Seq<Seq<char>>,
    RefusalView,
> {
    match answer {
        Ok(path) => Ok(path@),
        Err(e) => Err(e@),
    }
}

impl CanonicalPath {
    /// The path with the given components.
    pub fn new(components: Vec<String>) -> (path: CanonicalPath)
        ensures
            path.components == components,
    {
        CanonicalPath { components }
    }

    /// Whether `self` is `root` or lies below it.
    pub fn starts_with(&self, root: &CanonicalPath) -> (b: bool)
        ensures
            b == is_within(root@, self@),
    {
        is_below(&root.components, &self.components)
    }
}

/// Decides on a path after it was resolved.
///
/// `resolved` is the canonical form of the path, or the cause for which the
/// path does not exist or could not be resolved. The canonical form is
/// handed back unchanged where it is `root` or lies below it; every refusal
/// carries what it is about: the cause, or the path that escapes.
pub fn safe_path_guard(root: &CanonicalPath, resolved: Result<CanonicalPath, String>) -> (answer:
    Result<CanonicalPath, GuardError>)
    ensures
        answer_view(answer) == guard_spec(root@, resolved_view(resolved)),
        answer matches Ok(path) ==> resolved == Ok::<CanonicalPath, String>(path),
{
    match resolved {
        Err(cause) => Err(GuardError::InvalidPath { cause }),
        Ok(path) => {
            if root.components.len() == 0 {
                Err(GuardError::InvalidRoot)
            } else if path.starts_with(root) {
                Ok(path)
            } else {
                Err(GuardError::PathEscapesSandbox { path: path.components })
            }
        },
    }
}

/// Decides on a resolved path under a guard that may be switched off.
///
/// With `guarded` false nothing is checked against `root`: every path that
/// resolved is handed back, and the caller treats it as trusted.
pub fn resolve_path(
    guarded: bool,
    root: &CanonicalPath,
    resolved: Result<CanonicalPath, String>,
) -> (answer: Result<CanonicalPath, GuardError>)
    ensures
        answer_view(answer) == resolve_spec(guarded, root@, resolved_view(resolved)),
        answer matches Ok(path) ==> resolved == Ok::<CanonicalPath, String>(path),
{
    if guarded {
        safe_path_guard(root, resolved)
    } else {
        match resolved {
            Err(cause) => Err(GuardError::InvalidPath { cause }),
            Ok(path) => Ok(path),
        }
    }
}

/// A path that resolves outside the root is refused as escaping, and no
/// other is; the refusal names the path.
pub proof fn law_outside_is_refused(root: Seq<Seq<char>>, path: Seq<Seq<char>>)
    ensures
        !is_within(root, path) <==> guard_spec(root, Ok(path)) == Err::<
            Seq<Seq<char>>,
            RefusalView,
        >(RefusalView::PathEscapesSandbox { path }),
{
    if !is_within(root, path) {
        if root.len() == 0 {
            assert(path.subrange(0, 0) =~= root);
        }
    }
}

/// A path that did not resolve is invalid, whatever the root, and the
/// refusal carries the cause: it is never accepted and never said to escape.
pub proof fn law_unresolved_is_invalid(root: Seq<Seq<char>>, cause: Seq<char>)
    ensures
        guard_spec(root, Err(cause)) == Err::<Seq<Seq<char>>, RefusalView>(
            RefusalView::InvalidPath { cause },
        ),
{
}

/// A path inside the root is handed back as it is, and what is handed back
/// passes the guard again unchanged.
pub proof fn law_guard_idempotent(root: Seq<Seq<char>>, path: Seq<Seq<char>>)
    requires
        is_root(root),
        is_within(root, path),
    ensures
        guard_spec(root, Ok(path)) == Ok::<Seq<Seq<char>>, RefusalView>(path),
        guard_spec(root, Ok(guard_spec(root, Ok(path))->Ok_0)) == guard_spec(root, Ok(path)),
{
}

/// Every accepted path lies inside a root that has a component, and is the
/// path that was resolved.
pub proof fn law_accepted_is_within(
    root: Seq<Seq<char>>,
    resolved: Result<Seq<Seq<char>>, Seq<char>>,
)
    ensures
        guard_spec(root, resolved) matches Ok(path) ==> is_root(root) && is_within(root, path)
            && resolved == Ok::<Seq<Seq<char>>, Seq<char>>(path),
{
}

/// The root itself is inside the root, everything below a path inside it is
/// inside it, and so is everything inside a sandbox that is inside it.
pub proof fn law_within_descends(
    root: Seq<Seq<char>>,
    path: Seq<Seq<char>>,
    further: Seq<Seq<char>>,
)
    ensures
        is_within(root, root),
        is_within(root, path) ==> is_within(root, path + further),
        is_within(root, path) && is_within(path, further) ==> is_within(root, further),
{
    lemma_way(root, Seq::empty(), root);
    assert(root + Seq::<Seq<char>>::empty() =~= root);
    lemma_way(path, further, path);
    lemma_above(root, path, path + further);
    lemma_above(root, path, further);
}

} // verus!
