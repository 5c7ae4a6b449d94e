use backup_set::manifest::{
    manifest_patterns, source_patterns, walk_step, ManifestRead, ResolveError, WalkStep,
};
use backup_set::paths::ancestors;
use backup_set::resolve::{expand, found_paths, Resolution};

fn strings(v: &[&str]) -> Vec<String> {
    v.iter().map(|s| s.to_string()).collect()
}

fn paths_of(r: &Resolution) -> Vec<(String, bool)> {
    r.finish().into_iter().map(|e| (e.path, e.is_dir)).collect()
}

#[test]
fn manifest_lines_skip_blanks_and_carriage_returns() {
    assert_eq!(manifest_patterns("src/*\r\n\ndocs\n*.md"), strings(&["src/*", "docs", "*.md"]));
    assert_eq!(manifest_patterns(""), Vec::<String>::new());
    assert_eq!(manifest_patterns("a\n\n"), strings(&["a"]));
}

#[test]
fn missing_source_manifest_is_reported_as_such() {
    assert_eq!(source_patterns(&ManifestRead::Missing), Err(ResolveError::SourceManifestMissing));
    assert_eq!(source_patterns(&ManifestRead::Unreadable), Err(ResolveError::ManifestReadError));
    assert_eq!(
        source_patterns(&ManifestRead::Found("a/*\nb".to_string())),
        Ok(strings(&["a/*", "b"]))
    );
}

#[test]
fn nearest_manifest_wins() {
    let dirs = ancestors("a/b/x.log");
    assert_eq!(dirs, strings(&["a/b", "a", "."]));
    // a/b holds a manifest excluding *.tmp; a holds one excluding *.log.
    let step = walk_step(&dirs[0], &ManifestRead::Found("*.tmp\n".to_string()));
    let rooted = match step {
        WalkStep::Apply(p) => p,
        _ => panic!("the manifest in a/b applies"),
    };
    assert_eq!(rooted, strings(&["a/b/*.tmp"]));
    let mut res = Resolution::new();
    // What a/b/*.tmp matched on disk.
    res.exclude_paths(&strings(&["a/b/y.tmp"]));
    res.offer("a/b/x.log".to_string(), false);
    res.offer("a/b/y.tmp".to_string(), false);
    assert_eq!(paths_of(&res), vec![("a/b/x.log".to_string(), false)]);
}

#[test]
fn walk_moves_up_then_stops_at_root() {
    assert!(matches!(walk_step("a", &ManifestRead::Missing), WalkStep::Up));
    assert!(matches!(walk_step(".", &ManifestRead::Missing), WalkStep::Stop));
    assert!(matches!(walk_step("/", &ManifestRead::Missing), WalkStep::Stop));
    assert!(matches!(
        walk_step("a", &ManifestRead::Unreadable),
        WalkStep::Fail(ResolveError::ManifestReadError)
    ));
}

#[test]
fn path_matched_twice_appears_once() {
    let mut res = Resolution::new();
    res.offer("docs".to_string(), true);
    res.offer("src/main.rs".to_string(), false);
    res.offer("docs".to_string(), true);
    assert_eq!(
        paths_of(&res),
        vec![("docs".to_string(), true), ("src/main.rs".to_string(), false)]
    );
}

#[test]
fn two_passes_agree() {
    let build = || {
        let mut res = Resolution::new();
        res.exclude_paths(&strings(&["b"]));
        for p in ["c", "a", "b", "a"] {
            res.offer(p.to_string(), false);
        }
        paths_of(&res)
    };
    let first = build();
    assert_eq!(first, build());
    assert_eq!(first, vec![("c".to_string(), false), ("a".to_string(), false)]);
}

#[test]
fn admits_checks_exclusions() {
    let mut res = Resolution::new();
    res.exclude_paths(&strings(&["a/skip"]));
    assert!(!res.admits(&"a/skip".to_string()));
    assert!(res.admits(&"a/keep".to_string()));
}

#[test]
fn malformed_pattern_fails() {
    assert_eq!(expand("***"), Err(ResolveError::InvalidPattern));
    let mut res = Resolution::new();
    assert_eq!(
        res.exclude_patterns(&strings(&["a**/x"])),
        Err(ResolveError::InvalidPattern)
    );
}

#[test]
fn pattern_matching_nothing_is_empty() {
    assert_eq!(expand("no-such-dir-anywhere/*.none"), Ok(Vec::new()));
}

#[test]
fn unreadable_glob_entries_are_passed_over() {
    let found = vec![Some("a".to_string()), None, Some("b".to_string())];
    assert_eq!(found_paths(&found), strings(&["a", "b"]));
}
