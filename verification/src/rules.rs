//! The caller's part in a traversal: the hook that rewrites selected paths,
//! the pattern that selects them, and the recovery from failed reads.

use vstd::prelude::*;
use crate::path::PathName;
use crate::pattern::{selects, unjudgeable, Pattern};

verus! {

/// The error of a failed read, as the host's standard library reports it.
/// Nothing here looks inside: it is handed to the recovery function or back
/// to the host.
#[verifier::external_type_specification]
#[verifier::external_body]
pub struct ExIoError(std::io::Error);

/// Whether `hook` can turn a path named `path` into one named `out`.
pub open spec fn hook_yields<H: Fn(PathName) -> PathName>(
    hook: H,
    path: Seq<u8>,
    out: Seq<u8>,
) -> bool {
    exists|p: PathName, q: PathName| p@ == path && q@ == out && #[trigger] call_ensures(hook, (p,), q)
}

/// What `hook` turns a path named `path` into.
pub open spec fn hooked<H: Fn(PathName) -> PathName>(hook: H, path: Seq<u8>) -> Seq<u8> {
    choose|out: Seq<u8>| hook_yields(hook, path, out)
}

/// A hook is pure when it accepts every path and its answer depends on the
/// path's name alone.
pub open spec fn hook_is_pure<H: Fn(PathName) -> PathName>(hook: H) -> bool {
    &&& forall|p: PathName| call_requires(hook, (p,))
    &&& forall|p: PathName, q: PathName| call_ensures(hook, (p,), q) ==> q@ == hooked(hook, p@)
}

/// Whether `recovery` can answer `error` with a path named `out`.
pub open spec fn recovery_yields<R: Fn(std::io::Error) -> PathName>(
    recovery: R,
    error: std::io::Error,
    out: Seq<u8>,
) -> bool {
    exists|q: PathName| q@ == out && #[trigger] call_ensures(recovery, (error,), q)
}

/// The substitute path with which `recovery` answers `error`.
pub open spec fn recovered<R: Fn(std::io::Error) -> PathName>(
    recovery: R,
    error: std::io::Error,
) -> Seq<u8> {
    choose|out: Seq<u8>| recovery_yields(recovery, error, out)
}

/// A recovery function is pure when it accepts every error and its answer
/// depends on the error alone.
pub open spec fn recovery_is_pure<R: Fn(std::io::Error) -> PathName>(recovery: R) -> bool {
    &&& forall|e: std::io::Error| call_requires(recovery, (e,))
    &&& forall|e: std::io::Error, q: PathName|
        call_ensures(recovery, (e,), q) ==> q@ == recovered(recovery, e)
}

/// A hook that accepts every path, and whose contract gives the name of its
/// answer as a function `f` of the name of the path, is pure.
pub proof fn lemma_hook_with_functional_contract_is_pure<H: Fn(PathName) -> PathName>(
    hook: H,
    f: spec_fn(Seq<u8>) -> Seq<u8>,
)
    requires
        forall|p: PathName| call_requires(hook, (p,)),
        forall|p: PathName, q: PathName| call_ensures(hook, (p,), q) ==> q@ == f(p@),
    ensures
        hook_is_pure(hook),
        forall|p: PathName, q: PathName| call_ensures(hook, (p,), q) ==> hooked(hook, p@) == f(p@),
{
    assert forall|p: PathName, q: PathName| call_ensures(hook, (p,), q) implies q@ == hooked(
        hook,
        p@,
    ) by {
        assert(hook_yields(hook, p@, q@));
    }
}

/// A recovery function that accepts every error, and whose contract gives
/// the name of its answer as a function `f` of the error, is pure.
pub proof fn lemma_recovery_with_functional_contract_is_pure<R: Fn(std::io::Error) -> PathName>(
    recovery: R,
    f: spec_fn(std::io::Error) -> Seq<u8>,
)
    requires
        forall|e: std::io::Error| call_requires(recovery, (e,)),
        forall|e: std::io::Error, q: PathName| call_ensures(recovery, (e,), q) ==> q@ == f(e),
    ensures
        recovery_is_pure(recovery),
        forall|e: std::io::Error, q: PathName|
            call_ensures(recovery, (e,), q) ==> recovered(recovery, e) == f(e),
{
    assert forall|e: std::io::Error, q: PathName| call_ensures(recovery, (e,), q) implies q@
        == recovered(recovery, e) by {
        assert(recovery_yields(recovery, e, q@));
    }
}

/// The rules of a traversal, as contracts speak of them.
pub struct RulesView<H, R> {
    pub hook: Option<H>,
    pub pattern: Option<Seq<char>>,
    pub recovery: Option<R>,
}

/// The rules of a traversal, borrowed from its configuration.
pub struct Rules<'a, H, R> {
    pub hook: Option<&'a H>,
    pub pattern: Option<&'a Pattern>,
    pub recovery: Option<&'a R>,
}

impl<'a, H, R> View for Rules<'a, H, R> {
    type V = RulesView<H, R>;

    open spec fn view(&self) -> RulesView<H, R> {
        RulesView {
            hook: match self.hook {
                Some(hook) => Some(*hook),
                None => None,
            },
            pattern: match self.pattern {
                Some(pattern) => Some(pattern@),
                None => None,
            },
            recovery: match self.recovery {
                Some(recovery) => Some(*recovery),
                None => None,
            },
        }
    }
}

impl<H: Fn(PathName) -> PathName, R: Fn(std::io::Error) -> PathName> RulesView<H, R> {
    /// Both functions, where set, are pure.
    pub open spec fn wf(self) -> bool {
        &&& self.hook matches Some(hook) ==> hook_is_pure(hook)
        &&& self.recovery matches Some(recovery) ==> recovery_is_pure(recovery)
    }

    /// The path under which a selected file is reported: what the hook makes
    /// of it where a pattern and a hook are both set, else the path itself.
    pub open spec fn renamed(self, path: Seq<u8>) -> Seq<u8> {
        match (self.pattern, self.hook) {
            (Some(_), Some(hook)) => hooked(hook, path),
            _ => path,
        }
    }

    /// What a file at `path` adds to the result: nothing where the pattern
    /// does not select it or where it would be reported under the empty
    /// path, else the path it is reported under.
    pub open spec fn emission(self, path: Seq<u8>) -> Option<Seq<u8>> {
        if selects(self.pattern, path) && self.renamed(path).len() > 0 {
            Some(self.renamed(path))
        } else {
            None
        }
    }

    /// The path that stands for an entry: the one that was read, or the
    /// substitute for the error that was met instead.
    pub open spec fn entry_path(self, entry: Result<Seq<u8>, std::io::Error>) -> Seq<u8> {
        match entry {
            Ok(path) => path,
            Err(error) => match self.recovery {
                Some(recovery) => recovered(recovery, error),
                None => Seq::empty(),
            },
        }
    }
}

/// The name of an optional path.
pub open spec fn name_of(path: Option<PathName>) -> Option<Seq<u8>> {
    match path {
        Some(path) => Some(path@),
        None => None,
    }
}

impl<'a, H: Fn(PathName) -> PathName, R: Fn(std::io::Error) -> PathName> Rules<'a, H, R> {
    /// Decides what a file adds to the result. Fails, handing the path back,
    /// exactly where a pattern is set and the path is not text.
    pub fn emit(&self, path: PathName) -> (res: Result<Option<PathName>, PathName>)
        requires
            self@.wf(),
        ensures
            res is Err <==> unjudgeable(self@.pattern, path@),
            res matches Err(refused) ==> refused@ == path@,
            res matches Ok(out) ==> name_of(out) == self@.emission(path@),
    {
        let selected = match self.pattern {
            Some(pattern) => match pattern.judge(&path) {
                Some(passes) => passes,
                None => {
                    return Err(path);
                },
            },
            None => true,
        };
        if !selected {
            return Ok(None);
        }
        let out = match (self.pattern, self.hook) {
            (Some(_), Some(hook)) => hook(path),
            _ => path,
        };
        if out.is_empty() {
            Ok(None)
        } else {
            Ok(Some(out))
        }
    }

    /// Answers a failed read: with the substitute path where a recovery
    /// function is set, else with the error itself.
    pub fn recover(&self, error: std::io::Error) -> (res: Result<PathName, std::io::Error>)
        requires
            self@.wf(),
        ensures
            res is Ok <==> self@.recovery is Some,
            res matches Ok(path) ==> path@ == self@.entry_path(Err(error)),
            res matches Err(same) ==> same == error,
    {
        match self.recovery {
            Some(recovery) => Ok(recovery(error)),
            None => Err(error),
        }
    }
}

} // verus!
