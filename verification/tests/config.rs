use collectfiles::config::{CollectFiles, CollectFilesConfigured, CollectFilesPrelude};
use collectfiles::path::PathName;
use std::io;

type Hook = fn(PathName) -> PathName;
type Recovery = fn(io::Error) -> PathName;
type Configured = CollectFilesConfigured<Hook, Recovery>;

fn upper(path: PathName) -> PathName {
    PathName::from_bytes(path.bytes.to_ascii_uppercase())
}

fn lower(path: PathName) -> PathName {
    PathName::from_bytes(path.bytes.to_ascii_lowercase())
}

fn to_tmp(_error: io::Error) -> PathName {
    PathName::from_text("/tmp")
}

#[test]
fn new_configuration_has_only_its_root() {
    let configured: Configured = CollectFilesConfigured::new(PathName::from_text("/data"));
    assert_eq!(configured.as_root_dir(), &PathName::from_text("/data"));
    assert_eq!(configured.as_depth(), None);
    assert_eq!(configured.as_target_regex(), None);
    assert!(configured.as_hook().is_none());
}

#[test]
fn bare_root_has_no_setting() {
    let bare = CollectFiles(PathName::from_text("/data"));
    assert_eq!(
        CollectFilesPrelude::<Hook, Recovery>::as_root_dir(&bare),
        &PathName::from_text("/data")
    );
    assert_eq!(CollectFilesPrelude::<Hook, Recovery>::as_depth(&bare), None);
    assert_eq!(CollectFilesPrelude::<Hook, Recovery>::as_target_regex(&bare), None);
    assert!(CollectFilesPrelude::<Hook, Recovery>::as_hook(&bare).is_none());
}

#[test]
fn each_setting_leaves_the_others() {
    let configured: Configured = CollectFiles(PathName::from_text("/data"))
        .with_depth(1)
        .with_target_regex(".md$")
        .with_hook(upper as Hook)
        .with_unwrap_or_else(to_tmp as Recovery);
    assert_eq!(configured.as_root_dir().as_text(), Some("/data"));
    assert_eq!(configured.as_depth(), Some(1));
    assert_eq!(configured.as_target_regex(), Some(".md$"));
    let hook = configured.as_hook().expect("hook");
    assert_eq!(hook(PathName::from_text("a")), PathName::from_text("A"));
}

#[test]
fn order_of_settings_does_not_matter() {
    let configured: Configured = CollectFiles(PathName::from_text("/data"))
        .with_unwrap_or_else(to_tmp as Recovery)
        .with_hook(upper as Hook)
        .with_target_regex(".md$")
        .with_depth(1);
    assert_eq!(configured.as_depth(), Some(1));
    assert_eq!(configured.as_target_regex(), Some(".md$"));
    assert!(configured.as_hook().is_some());
}

#[test]
fn last_depth_wins() {
    let configured: Configured =
        CollectFiles(PathName::from_text("/data")).with_depth(3).with_depth(0);
    assert_eq!(configured.as_depth(), Some(0));
}

#[test]
fn last_pattern_wins() {
    let configured: Configured = CollectFiles(PathName::from_text("/data"))
        .with_target_regex(".md$")
        .with_target_regex("^a");
    assert_eq!(configured.as_target_regex(), Some("^a"));
}

#[test]
fn last_hook_wins() {
    let configured: Configured =
        CollectFiles(PathName::from_text("/data")).with_hook(upper as Hook).with_hook(lower as Hook);
    let hook = configured.as_hook().expect("hook");
    assert_eq!(hook(PathName::from_text("Ab")), PathName::from_text("ab"));
}

#[test]
fn depth_may_be_as_large_as_it_gets() {
    let configured: Configured = CollectFiles(PathName::from_text("/data")).with_depth(usize::MAX);
    assert_eq!(configured.as_depth(), Some(usize::MAX));
}

#[test]
fn pattern_that_compiles_is_accepted() {
    let bare = CollectFiles(PathName::from_text("/data"));
    let result: Result<Configured, _> = bare.try_with_target_regex(r"\.md$");
    let configured = result.ok().expect("accepted");
    assert_eq!(configured.as_target_regex(), Some(r"\.md$"));
    assert_eq!(configured.as_root_dir().as_text(), Some("/data"));
}

#[test]
fn pattern_that_does_not_compile_is_refused() {
    let configured: Configured = CollectFiles(PathName::from_text("/data")).with_depth(2);
    match configured.try_with_target_regex("foo(bar") {
        Err(refusal) => {
            assert_eq!(refusal.pattern, "foo(bar");
            assert!(matches!(refusal.cause, regex::Error::Syntax(_)));
        }
        Ok(_) => panic!("expected a refusal"),
    }
}

#[test]
fn pattern_that_compiles_too_big_is_refused() {
    let bare = CollectFiles(PathName::from_text("/data"));
    let result: Result<Configured, _> = bare.try_with_target_regex(r"\w{1000}");
    match result {
        Err(refusal) => assert!(matches!(refusal.cause, regex::Error::CompiledTooBig(_))),
        Ok(_) => panic!("expected a refusal"),
    }
}
