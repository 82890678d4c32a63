//! What a whole traversal reports, stated against a model of the host.

use vstd::prelude::*;
use crate::config::Settings;
use crate::path::PathName;
use crate::pattern::selects;
use crate::rules::RulesView;
use crate::walk::{
    gathered, level_dirs, level_found, listing_failure, listing_paths, reads_fatal, substitutes,
    ClassifyingView, FatalView, ListingView, ReadView, ReadingView, StepView,
};

verus! {

/// A host whose reads never fail and whose answers depend on the path alone:
/// a directory tree that does not change while it is walked.
pub struct Host {
    /// The paths of the entries of a directory, in the order the host lists
    /// them.
    pub entries: spec_fn(Seq<u8>) -> Seq<Seq<u8>>,
    /// Whether a path names a directory.
    pub is_dir: spec_fn(Seq<u8>) -> bool,
}

impl Host {
    /// The listing with which the host answers the read of `dir`.
    pub open spec fn listing(self, dir: Seq<u8>) -> ListingView {
        (self.entries)(dir).map_values(|path: Seq<u8>| Ok::<Seq<u8>, std::io::Error>(path))
    }

    /// The host's answers for the directories of a level.
    pub open spec fn reads(self, dirs: Seq<Seq<u8>>) -> Seq<ReadView> {
        dirs.map_values(|dir: Seq<u8>| Ok::<ListingView, std::io::Error>(self.listing(dir)))
    }

    /// The host's answer on which of `paths` are directories.
    pub open spec fn flags(self, paths: Seq<Seq<u8>>) -> Seq<bool> {
        paths.map_values(|path: Seq<u8>| (self.is_dir)(path))
    }

    /// Whether `path` is an entry of the directory `dir`.
    pub open spec fn lists(self, dir: Seq<u8>, path: Seq<u8>) -> bool {
        (self.entries)(dir).contains(path)
    }

    /// Whether `dir` is a directory `level` levels below `root`: the root
    /// itself at level 0, else a directory listed in one a level higher.
    pub open spec fn reached(self, root: Seq<u8>, level: nat, dir: Seq<u8>) -> bool
        decreases level,
    {
        if level == 0 {
            dir == root
        } else {
            exists|parent: Seq<u8>|
                self.reached(root, (level - 1) as nat, parent) && #[trigger] self.lists(parent, dir)
                    && (self.is_dir)(dir)
        }
    }

    /// Whether `path` is a file listed in a directory `level` levels below
    /// `root`.
    pub open spec fn file_at(self, root: Seq<u8>, level: nat, path: Seq<u8>) -> bool {
        exists|dir: Seq<u8>|
            self.reached(root, level, dir) && #[trigger] self.lists(dir, path) && !(self.is_dir)(
                path,
            )
    }
}

/// Whether the entry at `index` of a level is a file that adds `out` to the
/// result.
pub open spec fn emits_at<H: Fn(PathName) -> PathName, R: Fn(std::io::Error) -> PathName>(
    rules: RulesView<H, R>,
    paths: Seq<Seq<u8>>,
    flags: Seq<bool>,
    index: int,
    out: Seq<u8>,
) -> bool {
    0 <= index < paths.len() && !flags[index] && rules.emission(paths[index]) == Some(out)
}

/// Whether the entry at `index` of a level is the directory `dir`.
pub open spec fn dir_at(paths: Seq<Seq<u8>>, flags: Seq<bool>, index: int, dir: Seq<u8>) -> bool {
    0 <= index < paths.len() && flags[index] && paths[index] == dir
}

/// What the files of a level add to the result is what each of them adds.
pub proof fn lemma_level_found_contains<
    H: Fn(PathName) -> PathName,
    R: Fn(std::io::Error) -> PathName,
>(rules: RulesView<H, R>, paths: Seq<Seq<u8>>, flags: Seq<bool>, out: Seq<u8>)
    requires
        flags.len() == paths.len(),
    ensures
        level_found(rules, paths, flags).contains(out) <==> exists|index: int|
            emits_at(rules, paths, flags, index, out),
    decreases paths.len(),
{
    if paths.len() > 0 {
        let last = paths.len() - 1;
        let before = level_found(rules, paths.drop_last(), flags.drop_last());
        lemma_level_found_contains(rules, paths.drop_last(), flags.drop_last(), out);
        if level_found(rules, paths, flags).contains(out) {
            if before.contains(out) {
                let index = choose|index: int|
                    emits_at(rules, paths.drop_last(), flags.drop_last(), index, out);
                assert(emits_at(rules, paths, flags, index, out));
            } else {
                assert(emits_at(rules, paths, flags, last, out));
            }
        }
        if exists|index: int| emits_at(rules, paths, flags, index, out) {
            let index = choose|index: int| emits_at(rules, paths, flags, index, out);
            if index < last {
                assert(emits_at(rules, paths.drop_last(), flags.drop_last(), index, out));
                assert(before.contains(out));
                let at = choose|at: int| 0 <= at < before.len() && before[at] == out;
                assert(level_found(rules, paths, flags)[at] == out);
            } else {
                assert(level_found(rules, paths, flags) == before.push(out));
                assert(before.push(out)[before.len() as int] == out);
            }
        }
    }
}

/// The directories of a level are the entries flagged as such.
pub proof fn lemma_level_dirs_contains(paths: Seq<Seq<u8>>, flags: Seq<bool>, dir: Seq<u8>)
    requires
        flags.len() == paths.len(),
    ensures
        level_dirs(paths, flags).contains(dir) <==> exists|index: int|
            dir_at(paths, flags, index, dir),
    decreases paths.len(),
{
    if paths.len() > 0 {
        let last = paths.len() - 1;
        let before = level_dirs(paths.drop_last(), flags.drop_last());
        lemma_level_dirs_contains(paths.drop_last(), flags.drop_last(), dir);
        if level_dirs(paths, flags).contains(dir) {
            if before.contains(dir) {
                let index = choose|index: int|
                    dir_at(paths.drop_last(), flags.drop_last(), index, dir);
                assert(dir_at(paths, flags, index, dir));
            } else {
                assert(dir_at(paths, flags, last, dir));
            }
        }
        if exists|index: int| dir_at(paths, flags, index, dir) {
            let index = choose|index: int| dir_at(paths, flags, index, dir);
            if index < last {
                assert(dir_at(paths.drop_last(), flags.drop_last(), index, dir));
                assert(before.contains(dir));
                let at = choose|at: int| 0 <= at < before.len() && before[at] == dir;
                assert(level_dirs(paths, flags)[at] == dir);
            } else {
                assert(level_dirs(paths, flags) == before.push(dir));
                assert(before.push(dir)[before.len() as int] == dir);
            }
        }
    }
}

/// A listing whose entries were all read has no failure.
proof fn lemma_listing_without_failure(listing: ListingView)
    requires
        forall|index: int| 0 <= index < listing.len() ==> listing[index] is Ok,
    ensures
        listing_failure(listing) is None,
    decreases listing.len(),
{
    if listing.len() > 0 {
        lemma_listing_without_failure(listing.drop_last());
    }
}

/// The reads of a host that never fails end no traversal and ask for no
/// substitute.
proof fn lemma_host_reads_are_clean<
    H: Fn(PathName) -> PathName,
    R: Fn(std::io::Error) -> PathName,
>(rules: RulesView<H, R>, retrying: bool, host: Host, dirs: Seq<Seq<u8>>)
    ensures
        reads_fatal(rules, retrying, host.reads(dirs)) is None,
        substitutes(rules, host.reads(dirs)).len() == 0,
    decreases dirs.len(),
{
    if dirs.len() > 0 {
        assert(host.reads(dirs).drop_last() =~= host.reads(dirs.drop_last()));
        lemma_host_reads_are_clean(rules, retrying, host, dirs.drop_last());
        lemma_listing_without_failure(host.listing(dirs.last()));
    }
}

/// Whether the directory at `index` of a level lists `path`.
pub open spec fn listed_at(host: Host, dirs: Seq<Seq<u8>>, index: int, path: Seq<u8>) -> bool {
    0 <= index < dirs.len() && host.lists(dirs[index], path)
}

/// The entries gathered from the directories of a level are the entries that
/// the host lists in each of them.
proof fn lemma_gathered_contains<H: Fn(PathName) -> PathName, R: Fn(std::io::Error) -> PathName>(
    rules: RulesView<H, R>,
    host: Host,
    dirs: Seq<Seq<u8>>,
    path: Seq<u8>,
)
    ensures
        gathered(rules, host.reads(dirs)).contains(path) <==> exists|index: int|
            listed_at(host, dirs, index, path),
    decreases dirs.len(),
{
    broadcast use vstd::seq_lib::lemma_seq_concat_contains_all_elements;

    if dirs.len() > 0 {
        let last = dirs.len() - 1;
        let before = gathered(rules, host.reads(dirs.drop_last()));
        let entries = (host.entries)(dirs.last());
        assert(host.reads(dirs).drop_last() =~= host.reads(dirs.drop_last()));
        assert(listing_paths(rules, host.listing(dirs.last())) =~= entries);
        assert(gathered(rules, host.reads(dirs)) == before + entries);
        lemma_gathered_contains(rules, host, dirs.drop_last(), path);
        if gathered(rules, host.reads(dirs)).contains(path) {
            if before.contains(path) {
                let index = choose|index: int| listed_at(host, dirs.drop_last(), index, path);
                assert(listed_at(host, dirs, index, path));
            } else {
                assert(entries.contains(path));
                assert(listed_at(host, dirs, last, path));
            }
        }
        if exists|index: int| listed_at(host, dirs, index, path) {
            let index = choose|index: int| listed_at(host, dirs, index, path);
            if index < last {
                assert(listed_at(host, dirs.drop_last(), index, path));
            } else {
                assert(entries.contains(path));
            }
        }
    }
}

/// The traversal continued from `step` through up to `answers` answers of
/// `host`.
pub open spec fn run<H: Fn(PathName) -> PathName, R: Fn(std::io::Error) -> PathName>(
    step: StepView<H, R>,
    host: Host,
    answers: nat,
) -> StepView<H, R>
    decreases answers,
{
    if answers == 0 {
        step
    } else {
        match step {
            StepView::Read(reading) => run(
                reading.step(host.reads(reading.dirs)),
                host,
                (answers - 1) as nat,
            ),
            StepView::Classify(classifying) => run(
                classifying.step(host.flags(classifying.paths)),
                host,
                (answers - 1) as nat,
            ),
            _ => step,
        }
    }
}

/// Whether the entries of directories `level` levels below the root are
/// looked at under the depth limit `depth`.
pub open spec fn within(depth: Option<usize>, level: nat) -> bool {
    match depth {
        Some(limit) => level <= limit,
        None => true,
    }
}

/// The budget with which a traversal limited to `depth` reads the
/// directories `level` levels below the root.
pub open spec fn budget_at(depth: Option<usize>, level: nat) -> Option<usize> {
    match depth {
        Some(limit) => Some((limit - level) as usize),
        None => None,
    }
}

/// Whether `path` is a file `level` levels below the root that adds `out` to
/// the result.
pub open spec fn reports_at<H: Fn(PathName) -> PathName, R: Fn(std::io::Error) -> PathName>(
    settings: Settings<H, R>,
    host: Host,
    level: nat,
    path: Seq<u8>,
    out: Seq<u8>,
) -> bool {
    host.file_at(settings.root_dir, level, path) && settings.rules().emission(path) == Some(out)
}

/// Whether some file less than `upto` levels below the root adds `out` to
/// the result.
pub open spec fn reports_above<H: Fn(PathName) -> PathName, R: Fn(std::io::Error) -> PathName>(
    settings: Settings<H, R>,
    host: Host,
    upto: nat,
    out: Seq<u8>,
) -> bool {
    exists|level: nat, path: Seq<u8>|
        level < upto && #[trigger] reports_at(settings, host, level, path, out)
}

/// Whether some file that the depth limit lets the traversal look at adds
/// `out` to the result.
pub open spec fn reports<H: Fn(PathName) -> PathName, R: Fn(std::io::Error) -> PathName>(
    settings: Settings<H, R>,
    host: Host,
    out: Seq<u8>,
) -> bool {
    exists|level: nat, path: Seq<u8>|
        within(settings.depth, level) && #[trigger] reports_at(settings, host, level, path, out)
}

/// Whether `found` holds exactly the paths that the files within the depth
/// limit add to the result.
pub open spec fn reports_exactly<H: Fn(PathName) -> PathName, R: Fn(std::io::Error) -> PathName>(
    settings: Settings<H, R>,
    host: Host,
    found: Seq<Seq<u8>>,
) -> bool {
    forall|out: Seq<u8>| #[trigger] found.contains(out) <==> reports(settings, host, out)
}

/// Whether `path` is an entry of a directory `level` levels below `root`.
pub open spec fn entry_at(host: Host, root: Seq<u8>, level: nat, path: Seq<u8>) -> bool {
    exists|dir: Seq<u8>| host.reached(root, level, dir) && #[trigger] host.lists(dir, path)
}

/// What holds of a traversal of `host` under `settings` while it works on
/// the directories `level` levels below the root.
spec fn on_track<H: Fn(PathName) -> PathName, R: Fn(std::io::Error) -> PathName>(
    settings: Settings<H, R>,
    host: Host,
    step: StepView<H, R>,
    level: nat,
) -> bool {
    match step {
        StepView::Read(reading) => {
            &&& reading.rules == settings.rules()
            &&& !reading.retrying
            &&& reading.paths.len() == 0
            &&& within(settings.depth, level)
            &&& reading.budget == budget_at(settings.depth, level)
            &&& forall|out: Seq<u8>| #[trigger]
                reading.found.contains(out) <==> reports_above(settings, host, level, out)
            &&& forall|dir: Seq<u8>| #[trigger]
                reading.dirs.contains(dir) <==> host.reached(settings.root_dir, level, dir)
        },
        StepView::Classify(classifying) => {
            &&& classifying.rules == settings.rules()
            &&& within(settings.depth, level)
            &&& classifying.budget == budget_at(settings.depth, level)
            &&& forall|out: Seq<u8>| #[trigger]
                classifying.found.contains(out) <==> reports_above(settings, host, level, out)
            &&& forall|path: Seq<u8>| #[trigger]
                classifying.paths.contains(path) <==> entry_at(
                    host,
                    settings.root_dir,
                    level,
                    path,
                )
        },
        StepView::Done(found) => reports_exactly(settings, host, found),
        StepView::Abort(_) => true,
    }
}

/// Reading the directories of a level keeps the traversal on track.
proof fn lemma_read_keeps_track<H: Fn(PathName) -> PathName, R: Fn(std::io::Error) -> PathName>(
    settings: Settings<H, R>,
    host: Host,
    reading: ReadingView<H, R>,
    level: nat,
)
    requires
        on_track(settings, host, StepView::Read(reading), level),
    ensures
        on_track(settings, host, reading.step(host.reads(reading.dirs)), level),
{
    let rules = reading.rules;
    let reads = host.reads(reading.dirs);
    lemma_host_reads_are_clean(rules, reading.retrying, host, reading.dirs);
    let paths = reading.paths + gathered(rules, reads);
    assert(paths =~= gathered(rules, reads));
    assert forall|path: Seq<u8>| #[trigger]
        paths.contains(path) <==> entry_at(host, settings.root_dir, level, path) by {
        lemma_gathered_contains(rules, host, reading.dirs, path);
        if paths.contains(path) {
            let index = choose|index: int| listed_at(host, reading.dirs, index, path);
            assert(reading.dirs.contains(reading.dirs[index]));
            assert(host.lists(reading.dirs[index], path));
        }
        if entry_at(host, settings.root_dir, level, path) {
            let dir = choose|dir: Seq<u8>|
                host.reached(settings.root_dir, level, dir) && #[trigger] host.lists(dir, path);
            assert(reading.dirs.contains(dir));
            let index = choose|index: int| 0 <= index < reading.dirs.len() && reading.dirs[index] == dir;
            assert(listed_at(host, reading.dirs, index, path));
        }
    }
}

/// Below a level without directories there are none either.
proof fn lemma_nothing_deeper(host: Host, root: Seq<u8>, level: nat, deeper: nat, dir: Seq<u8>)
    requires
        forall|any: Seq<u8>| !host.reached(root, level, any),
        deeper >= level,
    ensures
        !host.reached(root, deeper, dir),
    decreases deeper,
{
    if deeper > level && host.reached(root, deeper, dir) {
        let parent = choose|parent: Seq<u8>|
            host.reached(root, (deeper - 1) as nat, parent) && #[trigger] host.lists(parent, dir)
                && (host.is_dir)(dir);
        lemma_nothing_deeper(host, root, level, (deeper - 1) as nat, parent);
    }
}

/// Telling the entries of a level apart keeps the traversal on track: it
/// ends, or goes on to the level below.
proof fn lemma_classify_keeps_track<
    H: Fn(PathName) -> PathName,
    R: Fn(std::io::Error) -> PathName,
>(settings: Settings<H, R>, host: Host, classifying: ClassifyingView<H, R>, level: nat)
    requires
        on_track(settings, host, StepView::Classify(classifying), level),
    ensures
        match classifying.step(host.flags(classifying.paths)) {
            StepView::Read(reading) => on_track(
                settings,
                host,
                StepView::Read(reading),
                level + 1,
            ),
            other => on_track(settings, host, other, level),
        },
{
    broadcast use vstd::seq_lib::lemma_seq_concat_contains_all_elements;

    let rules = classifying.rules;
    let root = settings.root_dir;
    let paths = classifying.paths;
    let flags = host.flags(paths);
    let next = classifying.step(flags);
    if next is Abort {
        return ;
    }
    let fresh = level_found(rules, paths, flags);
    let found = classifying.found + fresh;
    let below = level_dirs(paths, flags);

    assert forall|out: Seq<u8>| #[trigger]
        found.contains(out) <==> reports_above(settings, host, level + 1, out) by {
        lemma_level_found_contains(rules, paths, flags, out);
        if found.contains(out) {
            if classifying.found.contains(out) {
                let (l, p) = choose|l: nat, p: Seq<u8>|
                    l < level && #[trigger] reports_at(settings, host, l, p, out);
                assert(l < level + 1 && reports_at(settings, host, l, p, out));
            } else {
                let index = choose|index: int| emits_at(rules, paths, flags, index, out);
                let path = paths[index];
                assert(paths.contains(path));
                let dir = choose|dir: Seq<u8>|
                    host.reached(root, level, dir) && #[trigger] host.lists(dir, path);
                assert(host.lists(dir, path));
                assert(reports_at(settings, host, level, path, out));
            }
        }
        if reports_above(settings, host, level + 1, out) {
            let (l, p) = choose|l: nat, p: Seq<u8>|
                l < level + 1 && #[trigger] reports_at(settings, host, l, p, out);
            if l < level {
                assert(reports_above(settings, host, level, out));
            } else {
                let dir = choose|dir: Seq<u8>|
                    host.reached(root, level, dir) && #[trigger] host.lists(dir, p) && !(
                    host.is_dir)(p);
                assert(host.lists(dir, p));
                assert(entry_at(host, root, level, p));
                assert(paths.contains(p));
                let index = choose|index: int| 0 <= index < paths.len() && paths[index] == p;
                assert(emits_at(rules, paths, flags, index, out));
            }
        }
    }

    assert forall|dir: Seq<u8>| #[trigger]
        below.contains(dir) <==> host.reached(root, level + 1, dir) by {
        lemma_level_dirs_contains(paths, flags, dir);
        if below.contains(dir) {
            let index = choose|index: int| dir_at(paths, flags, index, dir);
            assert(paths.contains(dir));
            let parent = choose|parent: Seq<u8>|
                host.reached(root, level, parent) && #[trigger] host.lists(parent, dir);
            assert(host.lists(parent, dir));
            assert(host.reached(root, (level + 1 - 1) as nat, parent));
        }
        if host.reached(root, level + 1, dir) {
            let parent = choose|parent: Seq<u8>|
                host.reached(root, (level + 1 - 1) as nat, parent) && #[trigger] host.lists(
                    parent,
                    dir,
                ) && (host.is_dir)(dir);
            assert(host.lists(parent, dir));
            assert(entry_at(host, root, level, dir));
            assert(paths.contains(dir));
            let index = choose|index: int| 0 <= index < paths.len() && paths[index] == dir;
            assert(dir_at(paths, flags, index, dir));
        }
    }

    match next {
        StepView::Read(reading) => {
            assert(reading.dirs == below);
            assert(reading.found == found);
        },
        StepView::Done(reported) => {
            assert(reported == found);
            assert forall|out: Seq<u8>| #[trigger]
                found.contains(out) <==> reports(settings, host, out) by {
                if found.contains(out) {
                    let (l, p) = choose|l: nat, p: Seq<u8>|
                        l < level + 1 && #[trigger] reports_at(settings, host, l, p, out);
                    assert(within(settings.depth, l) && reports_at(settings, host, l, p, out));
                }
                if reports(settings, host, out) {
                    let (l, p) = choose|l: nat, p: Seq<u8>|
                        within(settings.depth, l) && #[trigger] reports_at(
                            settings,
                            host,
                            l,
                            p,
                            out,
                        );
                    if l <= level {
                        assert(l < level + 1 && reports_at(settings, host, l, p, out));
                    } else {
                        assert(classifying.budget != Some(0usize));
                        assert(below.len() == 0);
                        let lower: nat = level + 1;
                        assert forall|any: Seq<u8>| !host.reached(root, lower, any) by {
                            assert(!below.contains(any));
                        }
                        let dir = choose|dir: Seq<u8>|
                            host.reached(root, l, dir) && #[trigger] host.lists(dir, p) && !(
                            host.is_dir)(p);
                        lemma_nothing_deeper(host, root, lower, l, dir);
                    }
                }
            }
        },
        _ => {},
    }
}

/// A traversal that is on track and ends with a result reports what the
/// rules make of the files within the depth limit, and nothing else.
proof fn lemma_run_keeps_track<H: Fn(PathName) -> PathName, R: Fn(std::io::Error) -> PathName>(
    settings: Settings<H, R>,
    host: Host,
    step: StepView<H, R>,
    level: nat,
    answers: nat,
    found: Seq<Seq<u8>>,
)
    requires
        on_track(settings, host, step, level),
        run(step, host, answers) == StepView::<H, R>::Done(found),
    ensures
        reports_exactly(settings, host, found),
    decreases answers,
{
    if answers > 0 {
        match step {
            StepView::Read(reading) => {
                lemma_read_keeps_track(settings, host, reading, level);
                lemma_run_keeps_track(
                    settings,
                    host,
                    reading.step(host.reads(reading.dirs)),
                    level,
                    (answers - 1) as nat,
                    found,
                );
            },
            StepView::Classify(classifying) => {
                lemma_classify_keeps_track(settings, host, classifying, level);
                let next = classifying.step(host.flags(classifying.paths));
                let onward: nat = if next is Read {
                    level + 1
                } else {
                    level
                };
                lemma_run_keeps_track(settings, host, next, onward, (answers - 1) as nat, found);
            },
            _ => {},
        }
    }
}

/// The first level of a traversal is on track.
proof fn lemma_start_is_on_track<H: Fn(PathName) -> PathName, R: Fn(std::io::Error) -> PathName>(
    settings: Settings<H, R>,
    host: Host,
)
    ensures
        on_track(settings, host, StepView::Read(settings.start()), 0),
{
    let start = settings.start();
    assert forall|dir: Seq<u8>| #[trigger]
        start.dirs.contains(dir) <==> host.reached(settings.root_dir, 0, dir) by {
        assert(start.dirs[0] == settings.root_dir);
    }
}

/// The result of a traversal, whatever the depth limit: a path is reported
/// exactly if it is what the rules make of some file that lies within the
/// limit. So every file that the pattern selects is reported, under the path
/// that the hook gives it; no directory is reported, and nothing from below
/// the limit.
pub proof fn law_result_is_the_selected_files<
    H: Fn(PathName) -> PathName,
    R: Fn(std::io::Error) -> PathName,
>(settings: Settings<H, R>, host: Host, answers: nat, found: Seq<Seq<u8>>)
    requires
        run(StepView::Read(settings.start()), host, answers) == StepView::<H, R>::Done(found),
    ensures
        reports_exactly(settings, host, found),
{
    lemma_start_is_on_track(settings, host);
    lemma_run_keeps_track(settings, host, StepView::Read(settings.start()), 0, answers, found);
}

/// Whether `path` is a file in the root directory that adds `out` to the
/// result.
pub open spec fn root_file_reports<H: Fn(PathName) -> PathName, R: Fn(std::io::Error) -> PathName>(
    settings: Settings<H, R>,
    host: Host,
    path: Seq<u8>,
    out: Seq<u8>,
) -> bool {
    host.lists(settings.root_dir, path) && !(host.is_dir)(path) && settings.rules().emission(path)
        == Some(out)
}

/// With depth 0 the traversal ends after the root directory was read and its
/// entries were told apart, and it reports what the rules make of the files
/// in the root directory, nothing from any subdirectory.
pub proof fn law_depth_zero_stays_in_the_root<
    H: Fn(PathName) -> PathName,
    R: Fn(std::io::Error) -> PathName,
>(settings: Settings<H, R>, host: Host)
    requires
        settings.depth == Some(0usize),
    ensures
        match run(StepView::Read(settings.start()), host, 2) {
            StepView::Done(found) => forall|out: Seq<u8>| #[trigger]
                found.contains(out) <==> exists|path: Seq<u8>| #[trigger]
                    root_file_reports(settings, host, path, out),
            StepView::Abort(_) => true,
            _ => false,
        },
{
    let start = settings.start();
    let root = settings.root_dir;
    lemma_host_reads_are_clean(start.rules, false, host, start.dirs);
    let second = start.step(host.reads(start.dirs));
    assert(second is Classify);
    let last = second->Classify_0.step(host.flags(second->Classify_0.paths));
    assert(run(StepView::Read(start), host, 2) == run(second, host, 1));
    assert(run(second, host, 1) == run(last, host, 0));
    if last is Done {
        let found = last->Done_0;
        law_result_is_the_selected_files(settings, host, 2, found);
        assert forall|out: Seq<u8>| #[trigger] found.contains(out) <==> exists|path: Seq<u8>| #[trigger]
                root_file_reports(settings, host, path, out) by {
            if found.contains(out) {
                let (l, p) = choose|l: nat, p: Seq<u8>|
                    within(settings.depth, l) && #[trigger] reports_at(settings, host, l, p, out);
                let dir = choose|dir: Seq<u8>|
                    host.reached(root, l, dir) && #[trigger] host.lists(dir, p) && !(host.is_dir)(
                        p,
                    );
                assert(root_file_reports(settings, host, p, out));
            }
            if exists|path: Seq<u8>| #[trigger] root_file_reports(settings, host, path, out) {
                let p = choose|path: Seq<u8>| #[trigger]
                    root_file_reports(settings, host, path, out);
                assert(host.reached(root, 0, root));
                assert(host.lists(root, p));
                assert(host.file_at(root, 0, p));
                assert(within(settings.depth, 0) && reports_at(settings, host, 0, p, out));
            }
        }
    }
}

/// Whether `path` is a file anywhere in the tree under the root that adds
/// `out` to the result.
pub open spec fn tree_file_reports<H: Fn(PathName) -> PathName, R: Fn(std::io::Error) -> PathName>(
    settings: Settings<H, R>,
    host: Host,
    level: nat,
    path: Seq<u8>,
    out: Seq<u8>,
) -> bool {
    host.file_at(settings.root_dir, level, path) && settings.rules().emission(path) == Some(out)
}

/// Without a depth limit the traversal reports what the rules make of every
/// file in the tree, at whatever level it lies, and reports no directory.
pub proof fn law_no_limit_reports_the_whole_tree<
    H: Fn(PathName) -> PathName,
    R: Fn(std::io::Error) -> PathName,
>(settings: Settings<H, R>, host: Host, answers: nat, found: Seq<Seq<u8>>)
    requires
        settings.depth is None,
        run(StepView::Read(settings.start()), host, answers) == StepView::<H, R>::Done(found),
    ensures
        forall|out: Seq<u8>| #[trigger]
            found.contains(out) <==> exists|level: nat, path: Seq<u8>| #[trigger]
                tree_file_reports(settings, host, level, path, out),
{
    law_result_is_the_selected_files(settings, host, answers, found);
    assert forall|out: Seq<u8>| #[trigger]
        found.contains(out) <==> exists|level: nat, path: Seq<u8>| #[trigger]
            tree_file_reports(settings, host, level, path, out) by {
        if found.contains(out) {
            let (l, p) = choose|l: nat, p: Seq<u8>|
                within(settings.depth, l) && #[trigger] reports_at(settings, host, l, p, out);
            assert(tree_file_reports(settings, host, l, p, out));
        }
        if exists|level: nat, path: Seq<u8>| #[trigger]
            tree_file_reports(settings, host, level, path, out) {
            let (l, p) = choose|l: nat, p: Seq<u8>| #[trigger]
                tree_file_reports(settings, host, l, p, out);
            assert(within(settings.depth, l) && reports_at(settings, host, l, p, out));
        }
    }
}

/// Two hosts show the same tree when every directory has the same entries
/// in both, in whatever order, and the same paths are directories in both.
pub open spec fn same_tree(first: Host, second: Host) -> bool {
    &&& forall|dir: Seq<u8>, path: Seq<u8>| #[trigger]
        first.lists(dir, path) <==> second.lists(dir, path)
    &&& forall|path: Seq<u8>| #[trigger] (first.is_dir)(path) <==> (second.is_dir)(path)
}

/// In hosts that show the same tree, the same directories lie at each level.
proof fn lemma_same_tree_same_levels(
    first: Host,
    second: Host,
    root: Seq<u8>,
    level: nat,
    dir: Seq<u8>,
)
    requires
        same_tree(first, second),
    ensures
        first.reached(root, level, dir) ==> second.reached(root, level, dir),
    decreases level,
{
    if level > 0 && first.reached(root, level, dir) {
        let parent = choose|parent: Seq<u8>|
            first.reached(root, (level - 1) as nat, parent) && #[trigger] first.lists(parent, dir)
                && (first.is_dir)(dir);
        lemma_same_tree_same_levels(first, second, root, (level - 1) as nat, parent);
        assert(second.lists(parent, dir));
    }
}

/// In hosts that show the same tree, the same files add the same paths to
/// the result.
proof fn lemma_same_tree_same_reports<
    H: Fn(PathName) -> PathName,
    R: Fn(std::io::Error) -> PathName,
>(settings: Settings<H, R>, first: Host, second: Host, out: Seq<u8>)
    requires
        same_tree(first, second),
    ensures
        reports(settings, first, out) ==> reports(settings, second, out),
{
    if reports(settings, first, out) {
        let (level, path) = choose|level: nat, path: Seq<u8>|
            within(settings.depth, level) && #[trigger] reports_at(
                settings,
                first,
                level,
                path,
                out,
            );
        let dir = choose|dir: Seq<u8>|
            first.reached(settings.root_dir, level, dir) && #[trigger] first.lists(dir, path) && !(
            first.is_dir)(path);
        lemma_same_tree_same_levels(first, second, settings.root_dir, level, dir);
        assert(second.lists(dir, path));
        assert(reports_at(settings, second, level, path, out));
    }
}

/// A traversal repeated on an unchanged tree reports the same set of paths,
/// even where the host lists the entries of a directory in another order.
pub proof fn law_same_tree_same_paths<
    H: Fn(PathName) -> PathName,
    R: Fn(std::io::Error) -> PathName,
>(
    settings: Settings<H, R>,
    first: Host,
    second: Host,
    first_answers: nat,
    second_answers: nat,
    first_found: Seq<Seq<u8>>,
    second_found: Seq<Seq<u8>>,
)
    requires
        same_tree(first, second),
        run(StepView::Read(settings.start()), first, first_answers) == StepView::<H, R>::Done(
            first_found,
        ),
        run(StepView::Read(settings.start()), second, second_answers) == StepView::<H, R>::Done(
            second_found,
        ),
    ensures
        first_found.to_set() == second_found.to_set(),
{
    law_result_is_the_selected_files(settings, first, first_answers, first_found);
    law_result_is_the_selected_files(settings, second, second_answers, second_found);
    assert forall|out: Seq<u8>| first_found.contains(out) <==> second_found.contains(out) by {
        lemma_same_tree_same_reports(settings, first, second, out);
        lemma_same_tree_same_reports(settings, second, first, out);
    }
    assert(first_found.to_set() =~= second_found.to_set());
}

/// A file that the pattern selects is reported under the very path that the
/// hook returns for it, wherever in the tree it lies within the depth limit.
pub proof fn law_hook_output_is_reported<
    H: Fn(PathName) -> PathName,
    R: Fn(std::io::Error) -> PathName,
>(
    settings: Settings<H, R>,
    host: Host,
    answers: nat,
    found: Seq<Seq<u8>>,
    level: nat,
    file: PathName,
    renamed: PathName,
)
    requires
        settings.rules().wf(),
        run(StepView::Read(settings.start()), host, answers) == StepView::<H, R>::Done(found),
        within(settings.depth, level),
        host.file_at(settings.root_dir, level, file@),
        settings.pattern is Some,
        selects(settings.pattern, file@),
        settings.hook matches Some(hook) && call_ensures(hook, (file,), renamed),
        renamed@.len() > 0,
    ensures
        found.contains(renamed@),
{
    law_result_is_the_selected_files(settings, host, answers, found);
    assert(reports_at(settings, host, level, file@, renamed@));
}

/// Recovery is tried once. Where the root directory cannot be read and a
/// recovery function is set, the traversal asks for the substitute. From the
/// substitute's listing it goes on as a traversal begun at the substitute
/// would; a failure to read the substitute is final. With no recovery
/// function the first failure is final.
pub proof fn law_recovery_is_tried_once<
    H: Fn(PathName) -> PathName,
    R: Fn(std::io::Error) -> PathName,
>(settings: Settings<H, R>, error: std::io::Error, answer: ReadView)
    ensures
        settings.recovery is None ==> settings.start().step(seq![Err(error)])
            == StepView::<H, R>::Abort(FatalView::ReadFailed(error)),
        settings.recovery is Some ==> ({
            let substitute = settings.rules().entry_path(Err(error));
            let retry = ReadingView { dirs: seq![substitute], retrying: true, ..settings.start() };
            let afresh = (Settings { root_dir: substitute, ..settings }).start();
            &&& settings.start().step(seq![Err(error)]) == StepView::Read(retry)
            &&& match answer {
                Ok(_) => retry.step(seq![answer]) == afresh.step(seq![answer]),
                Err(second) => retry.step(seq![answer]) == StepView::<H, R>::Abort(
                    FatalView::ReadFailed(second),
                ),
            }
        }),
{
    let rules = settings.rules();
    let failed: Seq<ReadView> = seq![Err(error)];
    let answered: Seq<ReadView> = seq![answer];
    assert(failed.drop_last() =~= Seq::<ReadView>::empty());
    assert(answered.drop_last() =~= Seq::<ReadView>::empty());
    assert(failed.last() == Err::<ListingView, std::io::Error>(error));
    assert(answered.last() == answer);
    assert(reads_fatal(rules, false, failed.drop_last()) is None);
    assert(reads_fatal(rules, true, answered.drop_last()) is None);
    assert(reads_fatal(rules, false, answered.drop_last()) is None);
    assert(substitutes(rules, failed.drop_last()).len() == 0);
    assert(substitutes(rules, answered.drop_last()).len() == 0);
    assert(gathered(rules, failed.drop_last()).len() == 0);
    if settings.recovery is Some {
        let substitute = rules.entry_path(Err(error));
        assert(substitutes(rules, failed) =~= seq![substitute]);
        assert(gathered(rules, failed) =~= Seq::<Seq<u8>>::empty());
        let start = settings.start();
        assert(start.paths + gathered(rules, failed) =~= start.paths);
        if answer is Ok {
            assert(substitutes(rules, answered) =~= Seq::<Seq<u8>>::empty());
        }
    }
}

/// Where the root directory cannot be read and a recovery function is set,
/// the traversal comes to what the traversal of the substitute comes to, from
/// the substitute's listing on.
pub proof fn law_recovered_traversal_is_that_of_the_substitute<
    H: Fn(PathName) -> PathName,
    R: Fn(std::io::Error) -> PathName,
>(settings: Settings<H, R>, error: std::io::Error, host: Host, answers: nat)
    requires
        settings.recovery is Some,
        answers > 0,
    ensures
        ({
            let substitute = settings.rules().entry_path(Err(error));
            let afresh = (Settings { root_dir: substitute, ..settings }).start();
            run(settings.start().step(seq![Err(error)]), host, answers) == run(
                StepView::Read(afresh),
                host,
                answers,
            )
        }),
{
    let substitute = settings.rules().entry_path(Err(error));
    let afresh = (Settings { root_dir: substitute, ..settings }).start();
    let retry = ReadingView { dirs: seq![substitute], retrying: true, ..settings.start() };
    let answer = host.reads(seq![substitute])[0];
    law_recovery_is_tried_once(settings, error, answer);
    assert(host.reads(seq![substitute]) =~= seq![answer]);
    assert(run(StepView::Read(retry), host, answers) == run(
        retry.step(host.reads(retry.dirs)),
        host,
        (answers - 1) as nat,
    ));
    assert(run(StepView::Read(afresh), host, answers) == run(
        afresh.step(host.reads(afresh.dirs)),
        host,
        (answers - 1) as nat,
    ));
}

/// One level of a tree takes two answers, so a traversal limited to `limit`
/// levels below the root has ended after `2 * (limit + 1)` of them.
proof fn lemma_budget_bounds_the_answers<
    H: Fn(PathName) -> PathName,
    R: Fn(std::io::Error) -> PathName,
>(reading: ReadingView<H, R>, host: Host, limit: nat)
    requires
        !reading.retrying,
        reading.budget == Some(limit as usize),
        limit <= usize::MAX,
    ensures
        run(StepView::Read(reading), host, 2 * (limit + 1)) is Done || run(
            StepView::Read(reading),
            host,
            2 * (limit + 1),
        ) is Abort,
    decreases limit,
{
    lemma_host_reads_are_clean(reading.rules, false, host, reading.dirs);
    let second = reading.step(host.reads(reading.dirs));
    let third = second->Classify_0.step(host.flags(second->Classify_0.paths));
    assert(run(StepView::Read(reading), host, 2 * (limit + 1)) == run(
        second,
        host,
        (2 * limit + 1) as nat,
    ));
    assert(run(second, host, (2 * limit + 1) as nat) == run(third, host, 2 * limit));
    match third {
        StepView::Read(below) => {
            lemma_budget_bounds_the_answers(below, host, (limit - 1) as nat);
        },
        _ => {
            if limit > 0 {
                assert(run(third, host, 2 * limit) == third);
            }
        },
    }
}

/// A depth limit ends the traversal: limited to `limit` levels below the
/// root, it has its result, or has failed, after `2 * (limit + 1)` answers.
pub proof fn law_depth_limit_ends_the_traversal<
    H: Fn(PathName) -> PathName,
    R: Fn(std::io::Error) -> PathName,
>(settings: Settings<H, R>, host: Host)
    requires
        settings.depth is Some,
    ensures
        ({
            let end = run(
                StepView::Read(settings.start()),
                host,
                2 * (settings.depth->Some_0 as nat + 1),
            );
            end is Done || end is Abort
        }),
{
    lemma_budget_bounds_the_answers(settings.start(), host, settings.depth->Some_0 as nat);
}

} // verus!
