use git_survey::flags::StatusFlags;
use git_survey::repo::RepositoryStatus;
use git_survey::summary::print_summary;
use git_survey::summary::summarize;
use git_survey::summary::Summary;

fn status(new: bool, modified: bool, deleted: bool) -> RepositoryStatus {
    let mut status_flags = StatusFlags::new();
    status_flags.new = new;
    status_flags.modified = modified;
    status_flags.deleted = deleted;
    RepositoryStatus {
        name: "r".to_string(),
        relative_path: "r".to_string(),
        status_flags,
        origin_url: String::new(),
    }
}

#[test]
fn a_new_summary_counts_nothing() {
    let summary = Summary::new();
    assert_eq!(summary.clean, 0);
    assert_eq!(summary.dirty, 0);
    assert_eq!(summary.modified, 0);
    assert_eq!(summary.untracked, 0);
    assert_eq!(summary.unsynced, 0);
    assert_eq!(summary.print(), "0 clean repositories\n");
}

#[test]
fn two_clean_and_one_dirty() {
    let statuses = vec![
        status(false, false, false),
        status(false, false, false),
        status(true, true, false),
    ];
    let text = print_summary(statuses);
    let lines: Vec<&str> = text.lines().collect();
    assert_eq!(
        lines,
        vec![
            "2 clean repositories",
            "1 repositories in dirty state, of which:",
            "\t1 repositories with modified files",
            "\t1 repositories with untracked files",
        ]
    );
    assert!(!text.contains("unsynced"));
    assert!(text.ends_with('\n'));
}

#[test]
fn counts_are_taken_over_all_records() {
    let statuses = vec![
        status(true, false, false),
        status(false, true, false),
        status(true, true, false),
        status(false, false, true),
        status(false, false, false),
    ];
    let summary = summarize(&statuses);
    assert_eq!(summary.clean, 1);
    assert_eq!(summary.dirty, 4);
    assert_eq!(summary.modified, 2);
    assert_eq!(summary.untracked, 2);
    assert_eq!(summary.unsynced, 0);
}

#[test]
fn lines_with_a_zero_count_are_left_out() {
    let text = print_summary(vec![status(false, false, true)]);
    assert_eq!(text, "0 clean repositories\n1 repositories in dirty state, of which:\n");
    let text = print_summary(vec![]);
    assert_eq!(text, "0 clean repositories\n");
}

#[test]
fn every_count_has_its_line() {
    let summary = Summary { clean: 12, dirty: 3, modified: 2, untracked: 1, unsynced: 4 };
    assert_eq!(
        summary.print(),
        "12 clean repositories\n\
         3 repositories in dirty state, of which:\n\
         \t2 repositories with modified files\n\
         \t1 repositories with untracked files\n\
         \t4 repositories with unsynced commits\n"
    );
}
