//! The configuration of a traversal, built up one setting at a time.

use vstd::prelude::*;
use crate::path::PathName;
use crate::pattern::{regex_compiles, InvalidPattern, Pattern};
use crate::rules::{hook_is_pure, recovery_is_pure, RulesView};
use crate::walk::{collect_files, Reading, ReadingView};

verus! {

/// A configuration, as contracts speak of it. A setting that is `None` was
/// never made.
pub struct Settings<H, R> {
    /// The directory at which the traversal begins.
    pub root_dir: Seq<u8>,
    /// How many levels below the root may be entered; `None` for any.
    pub depth: Option<usize>,
    /// The function that rewrites the path of every selected file.
    pub hook: Option<H>,
    /// The text of the pattern that selects files.
    pub pattern: Option<Seq<char>>,
    /// The function that answers a failed read with a substitute path.
    pub recovery: Option<R>,
}

impl<H: Fn(PathName) -> PathName, R: Fn(std::io::Error) -> PathName> Settings<H, R> {
    /// The settings with which every configuration begins.
    pub open spec fn initial(root_dir: Seq<u8>) -> Settings<H, R> {
        Settings { root_dir, depth: None, hook: None, pattern: None, recovery: None }
    }

    /// The part of the settings that decides what is done with each entry.
    pub open spec fn rules(self) -> RulesView<H, R> {
        RulesView { hook: self.hook, pattern: self.pattern, recovery: self.recovery }
    }

    /// The first level of the traversal that the settings describe: the root
    /// directory alone, nothing found yet.
    pub open spec fn start(self) -> ReadingView<H, R> {
        ReadingView {
            rules: self.rules(),
            budget: self.depth,
            found: Seq::empty(),
            dirs: seq![self.root_dir],
            paths: Seq::empty(),
            retrying: false,
        }
    }
}

/// What every configuration offers, the bare root directory as well as the
/// configured traversal: its settings can be read, and each `with_` method
/// yields the configuration with that one setting replaced.
pub trait CollectFilesPrelude<
    H: Fn(PathName) -> PathName,
    R: Fn(std::io::Error) -> PathName,
>: Sized {
    /// The settings that the configuration holds.
    spec fn settings(&self) -> Settings<H, R>;

    /// The directory at which the traversal begins.
    fn as_root_dir(&self) -> (root_dir: &PathName)
        ensures
            root_dir@ == self.settings().root_dir,
    ;

    /// The text of the pattern, if one is set.
    fn as_target_regex(&self) -> (source: Option<&str>)
        ensures
            match source {
                Some(text) => self.settings().pattern == Some(text@),
                None => self.settings().pattern is None,
            },
    ;

    /// The hook, if one is set.
    fn as_hook(&self) -> (hook: Option<&H>)
        ensures
            match hook {
                Some(hook_fn) => self.settings().hook == Some(*hook_fn),
                None => self.settings().hook is None,
            },
    ;

    /// The depth limit, if one is set.
    fn as_depth(&self) -> (depth: Option<usize>)
        ensures
            depth == self.settings().depth,
    ;

    /// Sets the hook.
    fn with_hook(self, hook_fn: H) -> (configured: CollectFilesConfigured<H, R>)
        requires
            hook_is_pure(hook_fn),
        ensures
            configured@ == (Settings { hook: Some(hook_fn), ..self.settings() }),
    ;

    /// Sets the depth limit.
    fn with_depth(self, level: usize) -> (configured: CollectFilesConfigured<H, R>)
        ensures
            configured@ == (Settings { depth: Some(level), ..self.settings() }),
    ;

    /// Sets the pattern to the one written as `regex`, which must compile.
    fn with_target_regex(self, regex: &str) -> (configured: CollectFilesConfigured<H, R>)
        requires
            regex_compiles(regex@),
        ensures
            configured@ == (Settings { pattern: Some(regex@), ..self.settings() }),
    ;

    /// Sets the pattern to the one written as `regex`, or says why `regex`
    /// is no pattern.
    fn try_with_target_regex(self, regex: &str) -> (res: Result<
        CollectFilesConfigured<H, R>,
        InvalidPattern,
    >)
        ensures
            res is Ok <==> regex_compiles(regex@),
            res matches Ok(configured) ==> configured@ == (Settings {
                pattern: Some(regex@),
                ..self.settings()
            }),
            res matches Err(refusal) ==> refusal.pattern@ == regex@,
    ;

    /// Sets the recovery function.
    fn with_unwrap_or_else(self, f: R) -> (configured: CollectFilesConfigured<H, R>)
        requires
            recovery_is_pure(f),
        ensures
            configured@ == (Settings { recovery: Some(f), ..self.settings() }),
    ;

    /// Begins the traversal that the settings describe.
    fn walk(&self) -> (reading: Reading<'_, H, R>)
        ensures
            reading@ == self.settings().start(),
    ;
}

/// A traversal with its settings.
pub struct CollectFilesConfigured<H: Fn(PathName) -> PathName, R: Fn(std::io::Error) -> PathName> {
    root_dir: PathName,
    depth: Option<usize>,
    hook_fn: Option<H>,
    target_regex: Option<Pattern>,
    unwrap_or_else: Option<R>,
}

impl<H: Fn(PathName) -> PathName, R: Fn(std::io::Error) -> PathName> CollectFilesConfigured<H, R> {
    #[verifier::type_invariant]
    spec fn inv(self) -> bool {
        &&& self.hook_fn matches Some(hook) ==> hook_is_pure(hook)
        &&& self.unwrap_or_else matches Some(recovery) ==> recovery_is_pure(recovery)
    }

    /// The traversal of `root_dir` with no other setting made.
    pub fn new(root_dir: PathName) -> (configured: Self)
        ensures
            configured@ == Settings::<H, R>::initial(root_dir@),
    {
        CollectFilesConfigured {
            root_dir,
            depth: None,
            hook_fn: None,
            target_regex: None,
            unwrap_or_else: None,
        }
    }
}

impl<
    H: Fn(PathName) -> PathName,
    R: Fn(std::io::Error) -> PathName,
> View for CollectFilesConfigured<H, R> {
    type V = Settings<H, R>;

    closed spec fn view(&self) -> Settings<H, R> {
        Settings {
            root_dir: self.root_dir@,
            depth: self.depth,
            hook: self.hook_fn,
            pattern: match self.target_regex {
                Some(pattern) => Some(pattern@),
                None => None,
            },
            recovery: self.unwrap_or_else,
        }
    }
}

impl<
    H: Fn(PathName) -> PathName,
    R: Fn(std::io::Error) -> PathName,
> CollectFilesPrelude<H, R> for CollectFilesConfigured<H, R> {
    open spec fn settings(&self) -> Settings<H, R> {
        self@
    }

    fn as_root_dir(&self) -> (root_dir: &PathName) {
        &self.root_dir
    }

    fn as_target_regex(&self) -> (source: Option<&str>) {
        match &self.target_regex {
            Some(pattern) => Some(pattern.as_str()),
            None => None,
        }
    }

    fn as_hook(&self) -> (hook: Option<&H>) {
        self.hook_fn.as_ref()
    }

    fn as_depth(&self) -> (depth: Option<usize>) {
        self.depth
    }

    fn with_hook(self, hook_fn: H) -> (configured: CollectFilesConfigured<H, R>) {
        proof {
            use_type_invariant(&self);
        }
        let CollectFilesConfigured { root_dir, depth, hook_fn: _, target_regex, unwrap_or_else } =
            self;
        CollectFilesConfigured {
            root_dir,
            depth,
            hook_fn: Some(hook_fn),
            target_regex,
            unwrap_or_else,
        }
    }

    fn with_depth(self, level: usize) -> (configured: CollectFilesConfigured<H, R>) {
        proof {
            use_type_invariant(&self);
        }
        let CollectFilesConfigured { root_dir, depth: _, hook_fn, target_regex, unwrap_or_else } =
            self;
        CollectFilesConfigured {
            root_dir,
            depth: Some(level),
            hook_fn,
            target_regex,
            unwrap_or_else,
        }
    }

    fn with_target_regex(self, regex: &str) -> (configured: CollectFilesConfigured<H, R>) {
        proof {
            use_type_invariant(&self);
        }
        let CollectFilesConfigured { root_dir, depth, hook_fn, target_regex: _, unwrap_or_else } =
            self;
        let pattern = match Pattern::parse(regex) {
            Ok(pattern) => pattern,
            Err(_) => vstd::pervasive::unreached(),
        };
        CollectFilesConfigured { root_dir, depth, hook_fn, target_regex: Some(pattern), unwrap_or_else }
    }

    fn try_with_target_regex(self, regex: &str) -> (res: Result<
        CollectFilesConfigured<H, R>,
        InvalidPattern,
    >) {
        match Pattern::parse(regex) {
            Ok(_) => Ok(self.with_target_regex(regex)),
            Err(refusal) => Err(refusal),
        }
    }

    fn with_unwrap_or_else(self, f: R) -> (configured: CollectFilesConfigured<H, R>) {
        proof {
            use_type_invariant(&self);
        }
        let CollectFilesConfigured { root_dir, depth, hook_fn, target_regex, unwrap_or_else: _ } =
            self;
        CollectFilesConfigured { root_dir, depth, hook_fn, target_regex, unwrap_or_else: Some(f) }
    }

    fn walk(&self) -> (reading: Reading<'_, H, R>) {
        proof {
            use_type_invariant(self);
        }
        collect_files(
            self.root_dir.duplicate(),
            self.depth,
            self.hook_fn.as_ref(),
            self.target_regex.as_ref(),
            self.unwrap_or_else.as_ref(),
        )
    }
}

/// A root directory with no setting made yet: the plain traversal of the
/// whole tree, and the start of every configuration.
pub struct CollectFiles(pub PathName);

impl CollectFiles {
    /// The configuration that holds the root directory and nothing else.
    fn configured<H: Fn(PathName) -> PathName, R: Fn(std::io::Error) -> PathName>(self) -> (c:
        CollectFilesConfigured<H, R>)
        ensures
            c@ == Settings::<H, R>::initial(self.0@),
    {
        CollectFilesConfigured::new(self.0)
    }
}

impl<H: Fn(PathName) -> PathName, R: Fn(std::io::Error) -> PathName> CollectFilesPrelude<
    H,
    R,
> for CollectFiles {
    open spec fn settings(&self) -> Settings<H, R> {
        Settings::initial(self.0@)
    }

    fn as_root_dir(&self) -> (root_dir: &PathName) {
        &self.0
    }

    fn as_target_regex(&self) -> (source: Option<&str>) {
        None
    }

    fn as_hook(&self) -> (hook: Option<&H>) {
        None
    }

    fn as_depth(&self) -> (depth: Option<usize>) {
        None
    }

    fn with_hook(self, hook_fn: H) -> (configured: CollectFilesConfigured<H, R>) {
        self.configured().with_hook(hook_fn)
    }

    fn with_depth(self, level: usize) -> (configured: CollectFilesConfigured<H, R>) {
        self.configured().with_depth(level)
    }

    fn with_target_regex(self, regex: &str) -> (configured: CollectFilesConfigured<H, R>) {
        self.configured().with_target_regex(regex)
    }

    fn try_with_target_regex(self, regex: &str) -> (res: Result<
        CollectFilesConfigured<H, R>,
        InvalidPattern,
    >) {
        self.configured().try_with_target_regex(regex)
    }

    fn with_unwrap_or_else(self, f: R) -> (configured: CollectFilesConfigured<H, R>) {
        self.configured().with_unwrap_or_else(f)
    }

    fn walk(&self) -> (reading: Reading<'_, H, R>) {
        collect_files(self.0.duplicate(), None, None, None, None)
    }
}

} // verus!
