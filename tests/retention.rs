use backup_set::retention::{candidate, retention_plan, tally, PruneReport, RetentionRules, StampOrder};

fn rules(keep: usize, prefix: &str, order: StampOrder) -> RetentionRules {
    RetentionRules { keep, extension: ".tar.gz".to_string(), prefix: prefix.to_string(), order }
}

fn names(v: &[&str]) -> Vec<String> {
    v.iter().map(|s| s.to_string()).collect()
}

#[test]
fn keep_two_of_three_dooms_oldest() {
    let ids = names(&[
        "2024-01-01-00-00-00-backup.tar.gz",
        "2024-01-02-00-00-00-backup.tar.gz",
        "2024-01-03-00-00-00-backup.tar.gz",
    ]);
    let plan = retention_plan(&ids, &rules(2, "", StampOrder::Calendar), false);
    assert_eq!(plan.doomed, names(&["2024-01-01-00-00-00-backup.tar.gz"]));
    assert!(plan.execute);
}

#[test]
fn order_is_by_time_not_input_position() {
    let ids = names(&[
        "2024-01-03-00-00-00-backup.tar.gz",
        "2023-12-31-23-59-59-backup.tar.gz",
        "2024-01-01-12-00-00-backup.tar.gz",
        "2024-01-02-00-00-00-backup.tar.gz",
    ]);
    let plan = retention_plan(&ids, &rules(2, "", StampOrder::Calendar), false);
    assert_eq!(
        plan.doomed,
        names(&["2023-12-31-23-59-59-backup.tar.gz", "2024-01-01-12-00-00-backup.tar.gz"])
    );
}

#[test]
fn zero_keep_prunes_nothing() {
    let ids = names(&[
        "2024-01-01-00-00-00-backup.tar.gz",
        "2024-01-02-00-00-00-backup.tar.gz",
        "2024-01-03-00-00-00-backup.tar.gz",
        "2024-01-04-00-00-00-backup.tar.gz",
    ]);
    let plan = retention_plan(&ids, &rules(0, "", StampOrder::Calendar), false);
    assert!(plan.doomed.is_empty());
}

#[test]
fn keep_more_than_present_prunes_nothing() {
    let ids = names(&["2024-01-01-00-00-00-backup.tar.gz"]);
    let plan = retention_plan(&ids, &rules(5, "", StampOrder::Calendar), false);
    assert!(plan.doomed.is_empty());
}

#[test]
fn dry_run_reports_same_doomed_set() {
    let ids = names(&[
        "2024-01-01-00-00-00-backup.tar.gz",
        "2024-01-02-00-00-00-backup.tar.gz",
        "2024-01-03-00-00-00-backup.tar.gz",
    ]);
    let real = retention_plan(&ids, &rules(1, "", StampOrder::Calendar), false);
    let dry = retention_plan(&ids, &rules(1, "", StampOrder::Calendar), true);
    assert_eq!(real.doomed, dry.doomed);
    assert_eq!(
        dry.doomed,
        names(&["2024-01-01-00-00-00-backup.tar.gz", "2024-01-02-00-00-00-backup.tar.gz"])
    );
    assert!(real.execute);
    assert!(!dry.execute);
}

#[test]
fn other_extensions_and_bad_stamps_are_ignored() {
    let ids = names(&[
        "2024-01-01-00-00-00-backup.tar",
        "notes.txt",
        "yesterday-backup.tar.gz",
        "2024-01-02-00-00-00-backup.tar.gz",
        "2024-01-03-00-00-00-backup.tar.gz",
    ]);
    let plan = retention_plan(&ids, &rules(1, "", StampOrder::Calendar), false);
    assert_eq!(plan.doomed, names(&["2024-01-02-00-00-00-backup.tar.gz"]));
}

#[test]
fn remote_prefix_is_stripped_before_parsing() {
    let ids = names(&[
        "srv/2024-01-02-00-00-00-backup.tar.gz",
        "srv/2024-01-01-00-00-00-backup.tar.gz",
    ]);
    let plan = retention_plan(&ids, &rules(1, "srv/", StampOrder::Calendar), false);
    assert_eq!(plan.doomed, names(&["srv/2024-01-01-00-00-00-backup.tar.gz"]));
}

#[test]
fn lexical_mode_compares_stems() {
    let ids = names(&["b-backup.tar.gz", "a-backup.tar.gz", "c-backup.tar.gz", "a0-backup.tar.gz"]);
    let plan = retention_plan(&ids, &rules(2, "", StampOrder::Lexical), false);
    assert_eq!(plan.doomed, names(&["a-backup.tar.gz", "a0-backup.tar.gz"]));
}

#[test]
fn equal_stamps_break_ties_by_name() {
    let ids = names(&["2024-01-01-00-00-00-backup.tar.gz", "p/2024-01-01-00-00-00-backup.tar.gz"]);
    let plan = retention_plan(&ids, &rules(1, "p/", StampOrder::Calendar), false);
    assert_eq!(plan.doomed, names(&["2024-01-01-00-00-00-backup.tar.gz"]));
}

#[test]
fn candidate_parses_calendar_stamp() {
    let r = rules(1, "", StampOrder::Calendar);
    let c = candidate("1970-01-02-00-00-01-backup.tar.gz", &r).unwrap();
    assert_eq!(c.stamp, 86401);
    assert_eq!(c.stem, "");
    assert!(candidate("1970-13-02-00-00-01-backup.tar.gz", &r).is_none());
}

#[test]
fn candidate_keeps_lexical_stem() {
    let r = rules(1, "pre/", StampOrder::Lexical);
    let c = candidate("pre/token42-backup.tar.gz", &r).unwrap();
    assert_eq!(c.stem, "token42");
    assert_eq!(c.stamp, 0);
    assert!(candidate("pre/token42-backup.zip", &r).is_none());
}

#[test]
fn one_failed_delete_of_three() {
    let report = tally(&vec![true, false, true]);
    assert_eq!(report, PruneReport { deleted: 2, failed: 1 });
}

#[test]
fn tally_of_nothing() {
    assert_eq!(tally(&vec![]), PruneReport { deleted: 0, failed: 0 });
}
