//! The traversal itself, one level of the tree at a time.
//!
//! A level begins as a `Reading`: directories that the host is asked to list.
//! Its answer either ends the traversal, asks for the substitutes of the
//! directories that could not be read, or yields a `Classifying`: the entries
//! of the level, of which the host is asked which are directories. That
//! answer adds the selected files to the result and makes the directories
//! the next level, as far as the depth budget allows.

use vstd::prelude::*;
use crate::path::PathName;
use crate::pattern::unjudgeable;
use crate::rules::{Rules, RulesView};

verus! {

/// The names of a list of paths.
pub open spec fn names(paths: Seq<PathName>) -> Seq<Seq<u8>> {
    paths.map_values(|path: PathName| path@)
}

/// The budget for the level below one whose budget is `budget`.
pub open spec fn lowered(budget: Option<usize>) -> Option<usize> {
    match budget {
        Some(depth) => if depth > 0 {
            Some((depth - 1) as usize)
        } else {
            Some(0)
        },
        None => None,
    }
}

/// What the files among `paths` add to the result, in order. `flags[i]` tells
/// whether `paths[i]` is a directory.
pub open spec fn level_found<H: Fn(PathName) -> PathName, R: Fn(std::io::Error) -> PathName>(
    rules: RulesView<H, R>,
    paths: Seq<Seq<u8>>,
    flags: Seq<bool>,
) -> Seq<Seq<u8>>
    decreases paths.len(),
{
    if paths.len() == 0 || flags.len() != paths.len() {
        Seq::empty()
    } else {
        let before = level_found(rules, paths.drop_last(), flags.drop_last());
        match rules.emission(paths.last()) {
            Some(out) if !flags.last() => before.push(out),
            _ => before,
        }
    }
}

/// The directories among `paths`, in order.
pub open spec fn level_dirs(paths: Seq<Seq<u8>>, flags: Seq<bool>) -> Seq<Seq<u8>>
    decreases paths.len(),
{
    if paths.len() == 0 || flags.len() != paths.len() {
        Seq::empty()
    } else {
        let before = level_dirs(paths.drop_last(), flags.drop_last());
        if flags.last() {
            before.push(paths.last())
        } else {
            before
        }
    }
}

/// The first file among `paths` that the pattern cannot judge, if there is one.
pub open spec fn level_blocked(
    pattern: Option<Seq<char>>,
    paths: Seq<Seq<u8>>,
    flags: Seq<bool>,
) -> Option<Seq<u8>>
    decreases paths.len(),
{
    if paths.len() == 0 || flags.len() != paths.len() {
        None
    } else {
        match level_blocked(pattern, paths.drop_last(), flags.drop_last()) {
            Some(path) => Some(path),
            None => if !flags.last() && unjudgeable(pattern, paths.last()) {
                Some(paths.last())
            } else {
                None
            },
        }
    }
}

/// What the host found in one directory: for each entry its path, or the
/// error met in place of it.
pub type Listing = Vec<Result<PathName, std::io::Error>>;

/// The host's answer for one directory: its listing, or the error with which
/// the read failed.
pub type Read = Result<Listing, std::io::Error>;

/// A `Listing`, as contracts speak of it.
pub type ListingView = Seq<Result<Seq<u8>, std::io::Error>>;

/// A `Read`, as contracts speak of it.
pub type ReadView = Result<ListingView, std::io::Error>;

/// The view of one entry of a listing.
pub open spec fn entry_view(entry: Result<PathName, std::io::Error>) -> Result<
    Seq<u8>,
    std::io::Error,
> {
    match entry {
        Ok(path) => Ok(path@),
        Err(error) => Err(error),
    }
}

/// The view of a listing.
pub open spec fn listing_view(listing: Listing) -> ListingView {
    listing@.map_values(|entry: Result<PathName, std::io::Error>| entry_view(entry))
}

/// The view of the host's answer for one directory.
pub open spec fn read_view(read: Read) -> ReadView {
    match read {
        Ok(listing) => Ok(listing_view(listing)),
        Err(error) => Err(error),
    }
}

/// The view of the host's answers for the directories of a level.
pub open spec fn reads_view(reads: Seq<Read>) -> Seq<ReadView> {
    reads.map_values(|read: Read| read_view(read))
}

/// The error of the first entry of `listing` that could not be read, if
/// there is one.
pub open spec fn listing_failure(listing: ListingView) -> Option<std::io::Error>
    decreases listing.len(),
{
    if listing.len() == 0 {
        None
    } else {
        match listing_failure(listing.drop_last()) {
            Some(error) => Some(error),
            None => match listing.last() {
                Ok(_) => None,
                Err(error) => Some(error),
            },
        }
    }
}

/// The paths that stand for the entries of `listing`, in order.
pub open spec fn listing_paths<H: Fn(PathName) -> PathName, R: Fn(std::io::Error) -> PathName>(
    rules: RulesView<H, R>,
    listing: ListingView,
) -> Seq<Seq<u8>> {
    listing.map_values(|entry: Result<Seq<u8>, std::io::Error>| rules.entry_path(entry))
}

/// The error on which one answer of the host ends the traversal, if it does.
///
/// A directory that could not be read ends it unless a substitute can still
/// be asked for: a recovery function is set, and the directory is not itself
/// a substitute. An entry that could not be read ends it unless a recovery
/// function is set.
pub open spec fn read_fatal<H: Fn(PathName) -> PathName, R: Fn(std::io::Error) -> PathName>(
    rules: RulesView<H, R>,
    retrying: bool,
    read: ReadView,
) -> Option<std::io::Error> {
    match read {
        Ok(listing) => if rules.recovery is None {
            listing_failure(listing)
        } else {
            None
        },
        Err(error) => if rules.recovery is Some && !retrying {
            None
        } else {
            Some(error)
        },
    }
}

/// The error on which the first of `reads` that ends the traversal does so,
/// if one does.
pub open spec fn reads_fatal<H: Fn(PathName) -> PathName, R: Fn(std::io::Error) -> PathName>(
    rules: RulesView<H, R>,
    retrying: bool,
    reads: Seq<ReadView>,
) -> Option<std::io::Error>
    decreases reads.len(),
{
    if reads.len() == 0 {
        None
    } else {
        match reads_fatal(rules, retrying, reads.drop_last()) {
            Some(error) => Some(error),
            None => read_fatal(rules, retrying, reads.last()),
        }
    }
}

/// The entries of all the directories that were read, in order.
pub open spec fn gathered<H: Fn(PathName) -> PathName, R: Fn(std::io::Error) -> PathName>(
    rules: RulesView<H, R>,
    reads: Seq<ReadView>,
) -> Seq<Seq<u8>>
    decreases reads.len(),
{
    if reads.len() == 0 {
        Seq::empty()
    } else {
        let before = gathered(rules, reads.drop_last());
        match reads.last() {
            Ok(listing) => before + listing_paths(rules, listing),
            Err(_) => before,
        }
    }
}

/// The substitutes for the directories that could not be read, in order.
pub open spec fn substitutes<H: Fn(PathName) -> PathName, R: Fn(std::io::Error) -> PathName>(
    rules: RulesView<H, R>,
    reads: Seq<ReadView>,
) -> Seq<Seq<u8>>
    decreases reads.len(),
{
    if reads.len() == 0 {
        Seq::empty()
    } else {
        let before = substitutes(rules, reads.drop_last());
        match reads.last() {
            Ok(_) => before,
            Err(error) => before.push(rules.entry_path(Err(error))),
        }
    }
}

/// Why a traversal ended without a result.
#[derive(Debug)]
pub enum Fatal {
    /// A directory or an entry could not be read, and nothing was left to
    /// recover with.
    ReadFailed(std::io::Error),
    /// A file stood to be judged by the pattern, and its path is not text.
    NotText(PathName),
}

/// A fatal ending, as contracts speak of it.
pub enum FatalView {
    ReadFailed(std::io::Error),
    NotText(Seq<u8>),
}

impl View for Fatal {
    type V = FatalView;

    open spec fn view(&self) -> FatalView {
        match self {
            Fatal::ReadFailed(error) => FatalView::ReadFailed(*error),
            Fatal::NotText(path) => FatalView::NotText(path@),
        }
    }
}

/// A level whose directories wait to be read.
pub struct Reading<'a, H: Fn(PathName) -> PathName, R: Fn(std::io::Error) -> PathName> {
    rules: Rules<'a, H, R>,
    budget: Option<usize>,
    found: Vec<PathName>,
    dirs: Vec<PathName>,
    paths: Vec<PathName>,
    retrying: bool,
}

/// A `Reading`, as contracts speak of it.
pub struct ReadingView<H, R> {
    pub rules: RulesView<H, R>,
    /// How many levels may still be entered below this one; `None` for any.
    pub budget: Option<usize>,
    /// The result so far.
    pub found: Seq<Seq<u8>>,
    /// The directories that the host is asked to read.
    pub dirs: Seq<Seq<u8>>,
    /// The entries of this level that are known already.
    pub paths: Seq<Seq<u8>>,
    /// Whether `dirs` are substitutes for directories that could not be read.
    pub retrying: bool,
}

/// A level whose entries wait to be told apart.
pub struct Classifying<'a, H: Fn(PathName) -> PathName, R: Fn(std::io::Error) -> PathName> {
    rules: Rules<'a, H, R>,
    budget: Option<usize>,
    found: Vec<PathName>,
    paths: Vec<PathName>,
}

/// A `Classifying`, as contracts speak of it.
pub struct ClassifyingView<H, R> {
    pub rules: RulesView<H, R>,
    pub budget: Option<usize>,
    pub found: Seq<Seq<u8>>,
    /// The entries of which the host is asked which are directories.
    pub paths: Seq<Seq<u8>>,
}

/// Where a traversal stands after an answer of the host.
pub enum Step<'a, H: Fn(PathName) -> PathName, R: Fn(std::io::Error) -> PathName> {
    /// The host is to read directories.
    Read(Reading<'a, H, R>),
    /// The host is to tell files from directories.
    Classify(Classifying<'a, H, R>),
    /// The traversal is over; these are the paths it reports.
    Done(Vec<PathName>),
    /// The traversal is over; it has no result.
    Abort(Fatal),
}

/// A `Step`, as contracts speak of it.
pub enum StepView<H, R> {
    Read(ReadingView<H, R>),
    Classify(ClassifyingView<H, R>),
    Done(Seq<Seq<u8>>),
    Abort(FatalView),
}

impl<'a, H: Fn(PathName) -> PathName, R: Fn(std::io::Error) -> PathName> View for Reading<'a, H, R> {
    type V = ReadingView<H, R>;

    closed spec fn view(&self) -> ReadingView<H, R> {
        ReadingView {
            rules: self.rules@,
            budget: self.budget,
            found: names(self.found@),
            dirs: names(self.dirs@),
            paths: names(self.paths@),
            retrying: self.retrying,
        }
    }
}

impl<'a, H: Fn(PathName) -> PathName, R: Fn(std::io::Error) -> PathName> View for Classifying<'a, H, R> {
    type V = ClassifyingView<H, R>;

    closed spec fn view(&self) -> ClassifyingView<H, R> {
        ClassifyingView {
            rules: self.rules@,
            budget: self.budget,
            found: names(self.found@),
            paths: names(self.paths@),
        }
    }
}

impl<'a, H: Fn(PathName) -> PathName, R: Fn(std::io::Error) -> PathName> View for Step<'a, H, R> {
    type V = StepView<H, R>;

    open spec fn view(&self) -> StepView<H, R> {
        match self {
            Step::Read(reading) => StepView::Read(reading@),
            Step::Classify(classifying) => StepView::Classify(classifying@),
            Step::Done(found) => StepView::Done(names(found@)),
            Step::Abort(fatal) => StepView::Abort(fatal@),
        }
    }
}

impl<H: Fn(PathName) -> PathName, R: Fn(std::io::Error) -> PathName> ReadingView<H, R> {
    /// Where the traversal stands once the host has read the directories.
    ///
    /// A failure that nothing can recover from ends it. Else the entries that
    /// were read join those of the level. Directories that could not be read
    /// are asked for once more under their substitutes; with none of those,
    /// the level goes on to be classified.
    pub open spec fn step(self, reads: Seq<ReadView>) -> StepView<H, R> {
        match reads_fatal(self.rules, self.retrying, reads) {
            Some(error) => StepView::Abort(FatalView::ReadFailed(error)),
            None => {
                let paths = self.paths + gathered(self.rules, reads);
                let again = if self.rules.recovery is Some && !self.retrying {
                    substitutes(self.rules, reads)
                } else {
                    Seq::empty()
                };
                if again.len() > 0 {
                    StepView::Read(
                        ReadingView {
                            rules: self.rules,
                            budget: self.budget,
                            found: self.found,
                            dirs: again,
                            paths,
                            retrying: true,
                        },
                    )
                } else {
                    StepView::Classify(
                        ClassifyingView {
                            rules: self.rules,
                            budget: self.budget,
                            found: self.found,
                            paths,
                        },
                    )
                }
            },
        }
    }
}

impl<H: Fn(PathName) -> PathName, R: Fn(std::io::Error) -> PathName> ClassifyingView<H, R> {
    /// Where the traversal stands once the host has said which entries are
    /// directories.
    ///
    /// A file that the pattern cannot judge ends it. Else the files add what
    /// the rules make of them to the result, and the directories become the
    /// next level, unless the budget is spent: then they are dropped, and
    /// with no directory left the traversal is done.
    pub open spec fn step(self, flags: Seq<bool>) -> StepView<H, R> {
        match level_blocked(self.rules.pattern, self.paths, flags) {
            Some(path) => StepView::Abort(FatalView::NotText(path)),
            None => {
                let found = self.found + level_found(self.rules, self.paths, flags);
                let dirs = if self.budget == Some(0usize) {
                    Seq::empty()
                } else {
                    level_dirs(self.paths, flags)
                };
                if dirs.len() == 0 {
                    StepView::Done(found)
                } else {
                    StepView::Read(
                        ReadingView {
                            rules: self.rules,
                            budget: lowered(self.budget),
                            found,
                            dirs,
                            paths: Seq::empty(),
                            retrying: false,
                        },
                    )
                }
            },
        }
    }
}

/// A file that cannot be judged among the first entries of a level is the
/// one that blocks the whole level.
proof fn lemma_blocked_early(
    pattern: Option<Seq<char>>,
    paths: Seq<Seq<u8>>,
    flags: Seq<bool>,
    upto: int,
)
    requires
        flags.len() == paths.len(),
        0 <= upto <= paths.len(),
        level_blocked(pattern, paths.take(upto), flags.take(upto)) is Some,
    ensures
        level_blocked(pattern, paths, flags) == level_blocked(
            pattern,
            paths.take(upto),
            flags.take(upto),
        ),
    decreases paths.len() - upto,
{
    if upto == paths.len() {
        assert(paths.take(upto) =~= paths);
        assert(flags.take(upto) =~= flags);
    } else {
        assert(paths.take(upto + 1).drop_last() =~= paths.take(upto));
        assert(flags.take(upto + 1).drop_last() =~= flags.take(upto));
        lemma_blocked_early(pattern, paths, flags, upto + 1);
    }
}

/// An entry that fails among the first of a listing is the one that fails
/// the whole listing.
proof fn lemma_listing_failure_early(listing: ListingView, upto: int)
    requires
        0 <= upto <= listing.len(),
        listing_failure(listing.take(upto)) is Some,
    ensures
        listing_failure(listing) == listing_failure(listing.take(upto)),
    decreases listing.len() - upto,
{
    if upto == listing.len() {
        assert(listing.take(upto) =~= listing);
    } else {
        assert(listing.take(upto + 1).drop_last() =~= listing.take(upto));
        lemma_listing_failure_early(listing, upto + 1);
    }
}

/// An answer that ends the traversal among the first of a level is the one
/// that ends it for the whole level.
proof fn lemma_reads_fatal_early<H: Fn(PathName) -> PathName, R: Fn(std::io::Error) -> PathName>(
    rules: RulesView<H, R>,
    retrying: bool,
    reads: Seq<ReadView>,
    upto: int,
)
    requires
        0 <= upto <= reads.len(),
        reads_fatal(rules, retrying, reads.take(upto)) is Some,
    ensures
        reads_fatal(rules, retrying, reads) == reads_fatal(rules, retrying, reads.take(upto)),
    decreases reads.len() - upto,
{
    if upto == reads.len() {
        assert(reads.take(upto) =~= reads);
    } else {
        assert(reads.take(upto + 1).drop_last() =~= reads.take(upto));
        lemma_reads_fatal_early(rules, retrying, reads, upto + 1);
    }
}

/// Adds the paths that stand for the entries of `listing` to `paths`. Fails
/// on the first entry that could not be read, if no recovery function is set.
fn resolve<'a, H: Fn(PathName) -> PathName, R: Fn(std::io::Error) -> PathName>(
    rules: &Rules<'a, H, R>,
    listing: Listing,
    paths: Vec<PathName>,
) -> (res: Result<Vec<PathName>, std::io::Error>)
    requires
        rules@.wf(),
    ensures
        match read_fatal(rules@, false, Ok(listing_view(listing))) {
            Some(error) => res == Err::<Vec<PathName>, std::io::Error>(error),
            None => res is Ok && names(res->Ok_0@) == names(paths@) + listing_paths(
                rules@,
                listing_view(listing),
            ),
        },
{
    let ghost entries = listing_view(listing);
    let ghost start = names(paths@);
    let mut paths = paths;
    for entry in it: listing
        invariant
            rules@.wf(),
            it.seq() == listing@,
            entries == listing_view(listing),
            rules@.recovery is None ==> listing_failure(entries.take(it.index())) is None,
            names(paths@) == start + listing_paths(rules@, entries.take(it.index())),
    {
        let ghost before = paths@;
        let ghost at = it.index();
        proof {
            assert(entries.take(at + 1).drop_last() =~= entries.take(at));
            assert(entries.take(at + 1).last() == entry_view(entry));
        }
        match entry {
            Ok(path) => {
                paths.push(path);
            },
            Err(error) => match rules.recover(error) {
                Ok(substitute) => {
                    paths.push(substitute);
                },
                Err(error) => {
                    proof {
                        lemma_listing_failure_early(entries, at + 1);
                    }
                    return Err(error);
                },
            },
        }
        proof {
            assert(names(paths@) =~= names(before).push(paths@.last()@));
            assert(listing_paths(rules@, entries.take(at + 1)) =~= listing_paths(
                rules@,
                entries.take(at),
            ).push(rules@.entry_path(entry_view(entry))));
        }
    }
    proof {
        assert(entries.take(entries.len() as int) =~= entries);
    }
    Ok(paths)
}

/// Begins the traversal of the tree under `dir_path`.
///
/// `depth` bounds how far below `dir_path` directories are entered: with 0
/// only its own entries are looked at; with `None` the whole tree is.
/// `hook_fn` rewrites the path of every file that `target_regex` selects;
/// `unwrap_or_else` answers a failed read with a substitute path.
pub fn collect_files<'a, H: Fn(PathName) -> PathName, R: Fn(std::io::Error) -> PathName>(
    dir_path: PathName,
    depth: Option<usize>,
    hook_fn: Option<&'a H>,
    target_regex: Option<&'a crate::pattern::Pattern>,
    unwrap_or_else: Option<&'a R>,
) -> (reading: Reading<'a, H, R>)
    requires
        (Rules { hook: hook_fn, pattern: target_regex, recovery: unwrap_or_else })@.wf(),
    ensures
        reading@ == (ReadingView {
            rules: (Rules { hook: hook_fn, pattern: target_regex, recovery: unwrap_or_else })@,
            budget: depth,
            found: Seq::empty(),
            dirs: seq![dir_path@],
            paths: Seq::empty(),
            retrying: false,
        }),
{
    let mut dirs: Vec<PathName> = Vec::new();
    dirs.push(dir_path);
    let reading = Reading {
        rules: Rules { hook: hook_fn, pattern: target_regex, recovery: unwrap_or_else },
        budget: depth,
        found: Vec::new(),
        dirs,
        paths: Vec::new(),
        retrying: false,
    };
    proof {
        assert(names(reading.dirs@) =~= seq![dir_path@]);
        assert(names(reading.found@) =~= Seq::<Seq<u8>>::empty());
    }
    reading
}

impl<'a, H: Fn(PathName) -> PathName, R: Fn(std::io::Error) -> PathName> Reading<'a, H, R> {
    #[verifier::type_invariant]
    spec fn inv(self) -> bool {
        self.rules@.wf()
    }

    /// The directories that the host is to read.
    pub fn dirs(&self) -> (dirs: &Vec<PathName>)
        ensures
            names(dirs@) == self@.dirs,
    {
        &self.dirs
    }

    /// Whether the directories are substitutes, of which a failed read is
    /// final.
    pub fn is_retry(&self) -> (retrying: bool)
        ensures
            retrying == self@.retrying,
    {
        self.retrying
    }

    /// Takes the host's answer: `reads[i]` is what came of reading
    /// `dirs()[i]`.
    pub fn on_read(self, reads: Vec<Read>) -> (step: Step<'a, H, R>)
        ensures
            step@ == self@.step(reads_view(reads@)),
    {
        proof {
            use_type_invariant(&self);
        }
        let ghost view = self@;
        let ghost answers = reads_view(reads@);
        let Reading { rules, budget, found, dirs: _, mut paths, retrying } = self;
        let mut again: Vec<PathName> = Vec::new();
        for read in it: reads
            invariant
                rules@.wf(),
                view == self@,
                rules@ == view.rules,
                retrying == view.retrying,
                it.seq() == reads@,
                answers == reads_view(reads@),
                reads_fatal(rules@, retrying, answers.take(it.index())) is None,
                names(paths@) == view.paths + gathered(rules@, answers.take(it.index())),
                names(again@) == if rules@.recovery is Some && !retrying {
                    substitutes(rules@, answers.take(it.index()))
                } else {
                    Seq::empty()
                },
        {
            let ghost again_before = again@;
            let ghost at = it.index();
            proof {
                assert(answers.take(at + 1).drop_last() =~= answers.take(at));
                assert(answers.take(at + 1).last() == read_view(read));
            }
            match read {
                Ok(listing) => match resolve(&rules, listing, paths) {
                    Ok(more) => {
                        paths = more;
                    },
                    Err(error) => {
                        proof {
                            lemma_reads_fatal_early(rules@, retrying, answers, at + 1);
                        }
                        return Step::Abort(Fatal::ReadFailed(error));
                    },
                },
                Err(error) => {
                    if retrying {
                        proof {
                            lemma_reads_fatal_early(rules@, retrying, answers, at + 1);
                        }
                        return Step::Abort(Fatal::ReadFailed(error));
                    }
                    match rules.recover(error) {
                        Ok(substitute) => {
                            again.push(substitute);
                        },
                        Err(error) => {
                            proof {
                                lemma_reads_fatal_early(rules@, retrying, answers, at + 1);
                            }
                            return Step::Abort(Fatal::ReadFailed(error));
                        },
                    }
                },
            }
            proof {
                if again@.len() > again_before.len() {
                    assert(names(again@) =~= names(again_before).push(again@.last()@));
                }
            }
        }
        proof {
            assert(answers.take(answers.len() as int) =~= answers);
        }
        if again.len() > 0 {
            Step::Read(Reading { rules, budget, found, dirs: again, paths, retrying: true })
        } else {
            Step::Classify(Classifying { rules, budget, found, paths })
        }
    }
}

impl<'a, H: Fn(PathName) -> PathName, R: Fn(std::io::Error) -> PathName> Classifying<'a, H, R> {
    #[verifier::type_invariant]
    spec fn inv(self) -> bool {
        self.rules@.wf()
    }

    /// The entries of which the host is to say which are directories.
    pub fn paths(&self) -> (paths: &Vec<PathName>)
        ensures
            names(paths@) == self@.paths,
    {
        &self.paths
    }

    /// Takes the host's answer: `flags[i]` tells whether `paths()[i]` is a
    /// directory.
    pub fn on_classified(self, flags: Vec<bool>) -> (step: Step<'a, H, R>)
        requires
            flags.len() == self@.paths.len(),
        ensures
            step@ == self@.step(flags@),
    {
        proof {
            use_type_invariant(&self);
        }
        let ghost view = self@;
        let ghost all = names(self.paths@);
        let Classifying { rules, budget, mut found, paths } = self;
        let descend = match budget {
            Some(depth) => depth > 0,
            None => true,
        };
        let mut dirs: Vec<PathName> = Vec::new();
        let mut at: usize = 0;
        for path in it: paths
            invariant
                rules@.wf(),
                view == self@,
                rules@ == view.rules,
                all == view.paths,
                all == names(it.seq()),
                flags.len() == all.len(),
                at == it.index(),
                descend == (budget != Some(0usize)),
                level_blocked(rules@.pattern, all.take(at as int), flags@.take(at as int)) is None,
                names(found@) == view.found + level_found(
                    rules@,
                    all.take(at as int),
                    flags@.take(at as int),
                ),
                names(dirs@) == if descend {
                    level_dirs(all.take(at as int), flags@.take(at as int))
                } else {
                    Seq::empty()
                },
        {
            proof {
                assert(all.take(at + 1).drop_last() =~= all.take(at as int));
                assert(flags@.take(at + 1).drop_last() =~= flags@.take(at as int));
                assert(all.take(at + 1).last() == path@);
            }
            let ghost found_before = found@;
            let ghost dirs_before = dirs@;
            if flags[at] {
                if descend {
                    dirs.push(path);
                }
            } else {
                match rules.emit(path) {
                    Ok(Some(out)) => {
                        found.push(out);
                    },
                    Ok(None) => {},
                    Err(refused) => {
                        proof {
                            assert(level_blocked(
                                rules@.pattern,
                                all.take(at + 1),
                                flags@.take(at + 1),
                            ) == Some(refused@));
                            lemma_blocked_early(rules@.pattern, all, flags@, at + 1);
                        }
                        return Step::Abort(Fatal::NotText(refused));
                    },
                }
            }
            proof {
                if found@.len() > found_before.len() {
                    assert(names(found@) =~= names(found_before).push(found@.last()@));
                }
                if dirs@.len() > dirs_before.len() {
                    assert(names(dirs@) =~= names(dirs_before).push(dirs@.last()@));
                }
            }
            at = at + 1;
        }
        proof {
            assert(all.take(at as int) =~= all);
            assert(flags@.take(at as int) =~= flags@);
            assert(names(Seq::<PathName>::empty()) =~= Seq::<Seq<u8>>::empty());
        }
        if dirs.len() == 0 {
            Step::Done(found)
        } else {
            let below = match budget {
                Some(depth) => Some(depth - 1),
                None => None,
            };
            Step::Read(
                Reading { rules, budget: below, found, dirs, paths: Vec::new(), retrying: false },
            )
        }
    }
}

} // verus!
