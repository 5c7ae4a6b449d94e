use backup_set::config::{archive_name, Config, ARCHIVE_EXT};
use backup_set::paths::{ancestors, base_name, join, parent_dir, remote_key};
use backup_set::resolve::ResolvedEntry;
use backup_set::retention::StampOrder;
use backup_set::staging::stage_plan;
use backup_set::text::{ends_with, lex_less, starts_with};

fn config() -> Config {
    Config {
        work_dir: ".".to_string(),
        backup_only: false,
        dry_run: false,
        rotate_count: 3,
        push_only: None,
        archive_format: ".tar.gz".to_string(),
        timestamp_prefix: false,
    }
}

#[test]
fn parents() {
    assert_eq!(parent_dir("a/b/c"), "a/b");
    assert_eq!(parent_dir("a"), ".");
    assert_eq!(parent_dir("/x"), "/");
    assert_eq!(ancestors("/x/y/z"), vec!["/x/y".to_string(), "/x".to_string(), "/".to_string()]);
    assert_eq!(ancestors("f"), vec![".".to_string()]);
}

#[test]
fn joins_and_names() {
    assert_eq!(join("backupdata", "a/x"), "backupdata/a/x");
    assert_eq!(base_name("backups/x-backup.tar.gz"), "x-backup.tar.gz");
    assert_eq!(base_name("plain"), "plain");
    assert_eq!(remote_key("pre/", "backups/x-backup.tar.gz"), "pre/x-backup.tar.gz");
}

#[test]
fn text_helpers() {
    assert!(ends_with("x-backup.tar.gz", "-backup.tar.gz"));
    assert!(!ends_with("gz", "-backup.tar.gz"));
    assert!(starts_with("pre/x", "pre/"));
    assert!(!starts_with("pr", "pre/"));
    assert!(lex_less("a", "a0"));
    assert!(lex_less("a!", "a-"));
    assert!(!lex_less("b", "a"));
    assert!(!lex_less("a", "a"));
}

#[test]
fn archive_names() {
    assert_eq!(archive_name("2024-01-01-00-00-00", ARCHIVE_EXT), "2024-01-01-00-00-00-backup.tar.gz");
}

#[test]
fn config_decisions() {
    let mut c = config();
    assert!(c.builds_locally());
    assert!(c.pushes());
    assert_eq!(c.push_source("n-backup.tar.gz"), "backups/n-backup.tar.gz");
    let r = c.retention_rules("srv/");
    assert_eq!(r.keep, 3);
    assert_eq!(r.prefix, "srv/");
    assert_eq!(r.order, StampOrder::Calendar);
    c.timestamp_prefix = true;
    assert_eq!(c.retention_rules("").order, StampOrder::Lexical);
    c.push_only = Some("old/a-backup.tar.gz".to_string());
    assert!(!c.builds_locally());
    assert_eq!(c.push_source("n-backup.tar.gz"), "old/a-backup.tar.gz");
    c.dry_run = true;
    assert!(!c.pushes());
}

#[test]
fn staging_dry_run_matches_real_run() {
    let entries = vec![
        ResolvedEntry { path: "a/x".to_string(), is_dir: false },
        ResolvedEntry { path: "docs".to_string(), is_dir: true },
    ];
    let real = stage_plan(&entries, "backupdata", false);
    let dry = stage_plan(&entries, "backupdata", true);
    let view = |p: &backup_set::staging::StagePlan| {
        p.steps.iter().map(|s| (s.from.clone(), s.to.clone(), s.is_dir)).collect::<Vec<_>>()
    };
    assert_eq!(view(&real), view(&dry));
    assert_eq!(
        view(&real),
        vec![
            ("a/x".to_string(), "backupdata/a/x".to_string(), false),
            ("docs".to_string(), "backupdata/docs".to_string(), true),
        ]
    );
    assert!(real.copy_bytes);
    assert!(!dry.copy_bytes);
}
