use collectfiles::config::{CollectFiles, CollectFilesConfigured, CollectFilesPrelude};
use collectfiles::path::PathName;
use collectfiles::walk::{collect_files, Fatal, Read, Step};
use std::io;

type Hook = fn(PathName) -> PathName;
type Recovery = fn(io::Error) -> PathName;
type Configured = CollectFilesConfigured<Hook, Recovery>;

/// A directory tree held in memory: each directory with the full paths of
/// its entries. A path is a directory exactly if it is listed here.
struct Tree {
    dirs: Vec<(Vec<u8>, Vec<Vec<u8>>)>,
}

impl Tree {
    fn new() -> Tree {
        Tree { dirs: Vec::new() }
    }

    fn dir(mut self, path: &str, entries: &[&str]) -> Tree {
        let entries = entries.iter().map(|e| e.as_bytes().to_vec()).collect();
        self.dirs.push((path.as_bytes().to_vec(), entries));
        self
    }

    fn read(&self, dir: &PathName) -> Read {
        match self.dirs.iter().find(|(path, _)| *path == dir.bytes) {
            Some((_, entries)) => {
                Ok(entries.iter().map(|e| Ok(PathName::from_bytes(e.clone()))).collect())
            }
            None => Err(io::Error::from(io::ErrorKind::NotFound)),
        }
    }

    fn is_dir(&self, path: &PathName) -> bool {
        self.dirs.iter().any(|(dir, _)| *dir == path.bytes)
    }
}

/// Answers every request of a traversal from the tree, and counts the
/// requests by kind.
fn drive_counting(
    first: Step<'_, Hook, Recovery>,
    tree: &Tree,
) -> (Result<Vec<PathName>, Fatal>, usize, usize) {
    let mut step = first;
    let mut reads = 0;
    let mut classifications = 0;
    loop {
        step = match step {
            Step::Read(reading) => {
                reads += 1;
                let answers = reading.dirs().iter().map(|dir| tree.read(dir)).collect();
                reading.on_read(answers)
            }
            Step::Classify(classifying) => {
                classifications += 1;
                let flags = classifying.paths().iter().map(|path| tree.is_dir(path)).collect();
                classifying.on_classified(flags)
            }
            Step::Done(found) => return (Ok(found), reads, classifications),
            Step::Abort(fatal) => return (Err(fatal), reads, classifications),
        }
    }
}

fn drive(configured: &Configured, tree: &Tree) -> Result<Vec<String>, Fatal> {
    let (result, _, _) = drive_counting(Step::Read(configured.walk()), tree);
    result.map(texts)
}

fn texts(found: Vec<PathName>) -> Vec<String> {
    let mut texts: Vec<String> =
        found.iter().map(|p| p.as_text().expect("text").to_string()).collect();
    texts.sort();
    texts
}

fn root(path: &str) -> CollectFiles {
    CollectFiles(PathName::from_text(path))
}

fn mutated(path: PathName) -> PathName {
    let text = path.as_text().expect("text");
    let stem = match text.rfind('.') {
        Some(dot) => &text[..dot],
        None => text,
    };
    PathName::from_text(&format!("{}.mutated", stem))
}

fn vanish(_path: PathName) -> PathName {
    PathName::empty()
}

fn to_other(error: io::Error) -> PathName {
    if error.kind() == io::ErrorKind::NotFound {
        PathName::from_text("other")
    } else {
        panic!("{:?}", error)
    }
}

fn to_nowhere(_error: io::Error) -> PathName {
    PathName::from_text("nowhere")
}

fn sample() -> Tree {
    Tree::new()
        .dir("root", &["root/a.md", "root/b.txt", "root/sub", "root/c.md"])
        .dir("root/sub", &["root/sub/d.md", "root/sub/deep", "root/sub/e.txt"])
        .dir("root/sub/deep", &["root/sub/deep/f.md"])
}

#[test]
fn pattern_selects_the_matching_files() {
    let tree = Tree::new().dir("root", &["root/a.md", "root/b.txt", "root/c.md"]);
    let configured: Configured = root("root").with_target_regex(".md$");
    assert_eq!(drive(&configured, &tree).ok(), Some(vec!["root/a.md".to_string(), "root/c.md".to_string()]));
}

#[test]
fn depth_zero_reports_only_files_of_the_root() {
    let tree = Tree::new()
        .dir("root", &["root/x.md", "root/sub"])
        .dir("root/sub", &["root/sub/y.md"]);
    let configured: Configured = root("root").with_depth(0).with_target_regex(".md$");
    assert_eq!(drive(&configured, &tree).ok(), Some(vec!["root/x.md".to_string()]));
}

#[test]
fn depth_zero_never_reads_a_subdirectory() {
    let configured: Configured = root("root").with_depth(0);
    let (result, reads, classifications) =
        drive_counting(Step::Read(configured.walk()), &sample());
    assert_eq!(
        result.ok().map(texts),
        Some(vec!["root/a.md".to_string(), "root/b.txt".to_string(), "root/c.md".to_string()])
    );
    assert_eq!(reads, 1);
    assert_eq!(classifications, 1);
}

#[test]
fn depth_one_enters_the_subdirectories_of_the_root() {
    let tree = Tree::new()
        .dir("root", &["root/x.md", "root/sub"])
        .dir("root/sub", &["root/sub/y.md"]);
    let configured: Configured = root("root").with_depth(1).with_target_regex(".md$");
    assert_eq!(
        drive(&configured, &tree).ok(),
        Some(vec!["root/sub/y.md".to_string(), "root/x.md".to_string()])
    );
}

#[test]
fn depth_one_stops_above_the_second_level() {
    let configured: Configured = root("root").with_depth(1).with_target_regex(".md$");
    assert_eq!(
        drive(&configured, &sample()).ok(),
        Some(vec![
            "root/a.md".to_string(),
            "root/c.md".to_string(),
            "root/sub/d.md".to_string()
        ])
    );
}

#[test]
fn no_limit_reports_every_file_and_no_directory() {
    let configured: Configured = CollectFilesConfigured::new(PathName::from_text("root"));
    assert_eq!(
        drive(&configured, &sample()).ok(),
        Some(vec![
            "root/a.md".to_string(),
            "root/b.txt".to_string(),
            "root/c.md".to_string(),
            "root/sub/d.md".to_string(),
            "root/sub/deep/f.md".to_string(),
            "root/sub/e.txt".to_string(),
        ])
    );
}

#[test]
fn bare_root_walks_the_whole_tree() {
    let bare = root("root");
    let reading = CollectFilesPrelude::<Hook, Recovery>::walk(&bare);
    let (result, reads, _) = drive_counting(Step::Read(reading), &sample());
    assert_eq!(result.ok().map(|found| found.len()), Some(6));
    assert_eq!(reads, 3);
}

#[test]
fn no_limit_with_pattern_and_hook() {
    let configured: Configured = root("root").with_target_regex(".md$").with_hook(mutated as Hook);
    assert_eq!(
        drive(&configured, &sample()).ok(),
        Some(vec![
            "root/a.mutated".to_string(),
            "root/c.mutated".to_string(),
            "root/sub/d.mutated".to_string(),
            "root/sub/deep/f.mutated".to_string(),
        ])
    );
}

#[test]
fn hook_replaces_the_path_of_each_selected_file() {
    let tree = Tree::new().dir("root", &["root/a.md", "root/b.txt"]);
    let configured: Configured = root("root").with_target_regex(".md$").with_hook(mutated as Hook);
    let found = drive(&configured, &tree).ok().expect("done");
    assert_eq!(found, vec!["root/a.mutated".to_string()]);
    assert!(!found.contains(&"root/a.md".to_string()));
}

#[test]
fn hook_is_not_applied_without_a_pattern() {
    let tree = Tree::new().dir("root", &["root/a.md"]);
    let configured: Configured = root("root").with_hook(mutated as Hook);
    assert_eq!(drive(&configured, &tree).ok(), Some(vec!["root/a.md".to_string()]));
}

#[test]
fn empty_hook_output_is_not_reported() {
    let tree = Tree::new().dir("root", &["root/a.md", "root/b.txt"]);
    let configured: Configured = root("root").with_target_regex(".md$").with_hook(vanish as Hook);
    assert_eq!(drive(&configured, &tree).ok(), Some(Vec::new()));
}

#[test]
fn pattern_applies_to_the_whole_path() {
    let tree = Tree::new()
        .dir("root", &["root/docs", "root/src"])
        .dir("root/docs", &["root/docs/a.txt"])
        .dir("root/src", &["root/src/b.txt"]);
    let configured: Configured = root("root").with_target_regex("/docs/");
    assert_eq!(drive(&configured, &tree).ok(), Some(vec!["root/docs/a.txt".to_string()]));
}

#[test]
fn pattern_never_prunes_or_reports_a_directory() {
    let tree = Tree::new()
        .dir("root", &["root/notes.md", "root/plain"])
        .dir("root/notes.md", &["root/notes.md/inner.txt"])
        .dir("root/plain", &["root/plain/x.md"]);
    let configured: Configured = root("root").with_target_regex(".md$");
    assert_eq!(drive(&configured, &tree).ok(), Some(vec!["root/plain/x.md".to_string()]));
}

#[test]
fn repeated_traversal_reports_the_same_paths() {
    let configured: Configured = root("root").with_target_regex(".md$").with_hook(mutated as Hook);
    let first = drive(&configured, &sample()).ok();
    let second = drive(&configured, &sample()).ok();
    assert!(first.is_some());
    assert_eq!(first, second);
}

#[test]
fn order_of_listing_does_not_change_the_set() {
    let shuffled = Tree::new()
        .dir("root/sub/deep", &["root/sub/deep/f.md"])
        .dir("root", &["root/c.md", "root/sub", "root/b.txt", "root/a.md"])
        .dir("root/sub", &["root/sub/e.txt", "root/sub/deep", "root/sub/d.md"]);
    let configured: Configured = root("root").with_target_regex(".md$");
    assert_eq!(drive(&configured, &sample()).ok(), drive(&configured, &shuffled).ok());
}

#[test]
fn failed_root_without_recovery_is_fatal() {
    let tree = Tree::new().dir("other", &["other/a.md"]);
    let configured: Configured = CollectFilesConfigured::new(PathName::from_text("missing"));
    match drive(&configured, &tree) {
        Err(Fatal::ReadFailed(error)) => assert_eq!(error.kind(), io::ErrorKind::NotFound),
        _ => panic!("expected a failed read"),
    }
}

#[test]
fn failed_root_is_replaced_by_the_substitute() {
    let tree = Tree::new()
        .dir("other", &["other/a.md", "other/sub"])
        .dir("other/sub", &["other/sub/b.md"]);
    let recovering: Configured = root("missing").with_unwrap_or_else(to_other as Recovery);
    let direct: Configured = root("other").with_unwrap_or_else(to_other as Recovery);
    let found = drive(&recovering, &tree).ok();
    assert_eq!(found, Some(vec!["other/a.md".to_string(), "other/sub/b.md".to_string()]));
    assert_eq!(found, drive(&direct, &tree).ok());
}

#[test]
fn substitute_is_asked_for_in_a_second_read() {
    let tree = Tree::new().dir("other", &["other/a.md"]);
    let recovering: Configured = root("missing").with_unwrap_or_else(to_other as Recovery);
    let first = recovering.walk();
    assert!(!first.is_retry());
    assert_eq!(first.dirs(), &vec![PathName::from_text("missing")]);
    match first.on_read(vec![tree.read(&PathName::from_text("missing"))]) {
        Step::Read(retry) => {
            assert!(retry.is_retry());
            assert_eq!(retry.dirs(), &vec![PathName::from_text("other")]);
        }
        _ => panic!("expected a second read"),
    }
}

#[test]
fn failed_substitute_is_fatal() {
    let tree = Tree::new().dir("other", &["other/a.md"]);
    let configured: Configured = root("missing").with_unwrap_or_else(to_nowhere as Recovery);
    let (result, reads, classifications) =
        drive_counting(Step::Read(configured.walk()), &tree);
    assert!(matches!(result, Err(Fatal::ReadFailed(_))));
    assert_eq!(reads, 2);
    assert_eq!(classifications, 0);
}

#[test]
fn failed_subdirectory_is_recovered_alongside_the_others() {
    let tree = Tree::new()
        .dir("root", &["root/gone", "root/sub", "root/a.md"])
        .dir("root/sub", &["root/sub/b.md"])
        .dir("other", &["other/c.md"]);
    let configured: Configured = root("root").with_unwrap_or_else(to_other as Recovery);
    let reading = configured.walk();
    let step = reading.on_read(vec![tree.read(&PathName::from_text("root"))]);
    let step = match step {
        Step::Classify(classifying) => classifying.on_classified(vec![true, true, false]),
        _ => panic!("expected a classification"),
    };
    let step = match step {
        Step::Read(reading) => reading.on_read(vec![
            Err(io::Error::from(io::ErrorKind::NotFound)),
            tree.read(&PathName::from_text("root/sub")),
        ]),
        _ => panic!("expected a read"),
    };
    let (result, _, _) = drive_counting(step, &tree);
    assert_eq!(
        result.ok().map(texts),
        Some(vec!["other/c.md".to_string(), "root/a.md".to_string(), "root/sub/b.md".to_string()])
    );
}

#[test]
fn failed_entry_without_recovery_is_fatal() {
    let configured: Configured = CollectFilesConfigured::new(PathName::from_text("root"));
    let listing = vec![
        Ok(PathName::from_text("root/a.md")),
        Err(io::Error::from(io::ErrorKind::PermissionDenied)),
        Err(io::Error::from(io::ErrorKind::NotFound)),
    ];
    match configured.walk().on_read(vec![Ok(listing)]) {
        Step::Abort(Fatal::ReadFailed(error)) => {
            assert_eq!(error.kind(), io::ErrorKind::PermissionDenied)
        }
        _ => panic!("expected a failed read"),
    }
}

#[test]
fn failed_entry_is_replaced_by_the_substitute() {
    let configured: Configured = root("root").with_unwrap_or_else(to_other as Recovery);
    let listing = vec![
        Ok(PathName::from_text("root/a.md")),
        Err(io::Error::from(io::ErrorKind::NotFound)),
    ];
    match configured.walk().on_read(vec![Ok(listing)]) {
        Step::Classify(classifying) => {
            assert_eq!(
                classifying.paths(),
                &vec![PathName::from_text("root/a.md"), PathName::from_text("other")]
            );
        }
        _ => panic!("expected a classification"),
    }
}

#[test]
fn first_failure_of_a_level_is_the_one_reported() {
    let configured: Configured = CollectFilesConfigured::new(PathName::from_text("root"));
    let step = configured.walk().on_read(vec![Ok(vec![
        Ok(PathName::from_text("root/a")),
        Ok(PathName::from_text("root/b")),
    ])]);
    let step = match step {
        Step::Classify(classifying) => classifying.on_classified(vec![true, true]),
        _ => panic!("expected a classification"),
    };
    let step = match step {
        Step::Read(reading) => reading.on_read(vec![
            Ok(vec![Err(io::Error::from(io::ErrorKind::PermissionDenied))]),
            Err(io::Error::from(io::ErrorKind::NotFound)),
        ]),
        _ => panic!("expected a read"),
    };
    match step {
        Step::Abort(Fatal::ReadFailed(error)) => {
            assert_eq!(error.kind(), io::ErrorKind::PermissionDenied)
        }
        _ => panic!("expected a failed read"),
    }
}

#[test]
fn path_that_is_not_text_is_fatal_under_a_pattern() {
    let configured: Configured = root("root").with_target_regex(".md$");
    let odd = PathName::from_bytes(vec![b'r', b'/', 0xff, 0xfe]);
    let step = configured.walk().on_read(vec![Ok(vec![
        Ok(PathName::from_text("root/a.md")),
        Ok(odd.clone()),
    ])]);
    let step = match step {
        Step::Classify(classifying) => classifying.on_classified(vec![false, false]),
        _ => panic!("expected a classification"),
    };
    match step {
        Step::Abort(Fatal::NotText(path)) => assert_eq!(path, odd),
        _ => panic!("expected a path that is not text"),
    }
}

#[test]
fn path_that_is_not_text_passes_without_a_pattern() {
    let configured: Configured = CollectFilesConfigured::new(PathName::from_text("root"));
    let odd = PathName::from_bytes(vec![b'r', b'/', 0xff, 0xfe]);
    let step = configured.walk().on_read(vec![Ok(vec![Ok(odd.clone())])]);
    let step = match step {
        Step::Classify(classifying) => classifying.on_classified(vec![false]),
        _ => panic!("expected a classification"),
    };
    match step {
        Step::Done(found) => assert_eq!(found, vec![odd]),
        _ => panic!("expected a result"),
    }
}

#[test]
fn directory_that_is_not_text_is_entered_under_a_pattern() {
    let configured: Configured = root("root").with_target_regex(".md$");
    let odd = PathName::from_bytes(vec![b'r', b'/', 0xff]);
    let step = configured.walk().on_read(vec![Ok(vec![Ok(odd.clone())])]);
    let step = match step {
        Step::Classify(classifying) => classifying.on_classified(vec![true]),
        _ => panic!("expected a classification"),
    };
    match step {
        Step::Read(reading) => assert_eq!(reading.dirs(), &vec![odd]),
        _ => panic!("expected a read"),
    }
}

#[test]
fn empty_directory_ends_the_traversal_with_nothing() {
    let tree = Tree::new().dir("root", &[]);
    let configured: Configured = CollectFilesConfigured::new(PathName::from_text("root"));
    assert_eq!(drive(&configured, &tree).ok(), Some(Vec::new()));
}

#[test]
fn empty_entry_path_is_not_reported() {
    let configured: Configured = CollectFilesConfigured::new(PathName::from_text("root"));
    let step = configured
        .walk()
        .on_read(vec![Ok(vec![Ok(PathName::empty()), Ok(PathName::from_text("root/a"))])]);
    let step = match step {
        Step::Classify(classifying) => classifying.on_classified(vec![false, false]),
        _ => panic!("expected a classification"),
    };
    match step {
        Step::Done(found) => assert_eq!(found, vec![PathName::from_text("root/a")]),
        _ => panic!("expected a result"),
    }
}

#[test]
fn collect_files_begins_at_the_given_directory() {
    let hook: Hook = mutated;
    let reading = collect_files::<Hook, Recovery>(
        PathName::from_text("start"),
        Some(2),
        Some(&hook),
        None,
        None,
    );
    assert!(!reading.is_retry());
    assert_eq!(reading.dirs(), &vec![PathName::from_text("start")]);
}

#[test]
fn budget_runs_out_level_by_level() {
    let tree = Tree::new()
        .dir("r", &["r/1", "r/f0"])
        .dir("r/1", &["r/1/2", "r/1/f1"])
        .dir("r/1/2", &["r/1/2/3", "r/1/2/f2"])
        .dir("r/1/2/3", &["r/1/2/3/f3"]);
    let configured: Configured = root("r").with_depth(2);
    let (result, reads, classifications) =
        drive_counting(Step::Read(configured.walk()), &tree);
    assert_eq!(
        result.ok().map(texts),
        Some(vec!["r/1/2/f2".to_string(), "r/1/f1".to_string(), "r/f0".to_string()])
    );
    assert_eq!(reads, 3);
    assert_eq!(classifications, 3);
}
