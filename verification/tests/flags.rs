use git_survey::flags::statuses_to_string;
use git_survey::flags::StatusFlags;

fn flags_of(bits: u32) -> StatusFlags {
    StatusFlags {
        new: bits & 1 != 0,
        modified: bits & 2 != 0,
        deleted: bits & 4 != 0,
        renamed: bits & 8 != 0,
        push: bits & 16 != 0,
        pull: bits & 32 != 0,
    }
}

#[test]
fn a_fresh_status_is_clean() {
    let flags = StatusFlags::new();
    assert!(flags.clean());
    assert!(!flags.new && !flags.modified && !flags.deleted);
    assert!(!flags.renamed && !flags.push && !flags.pull);
    assert_eq!(flags.to_string(), "------");
}

#[test]
fn only_modified_renders_with_one_letter() {
    let mut flags = StatusFlags::new();
    flags.modified = true;
    assert_eq!(flags.to_string(), "-M----");
}

#[test]
fn every_flag_has_its_letter_at_its_place() {
    assert_eq!(flags_of(1).to_string(), "N-----");
    assert_eq!(flags_of(2).to_string(), "-M----");
    assert_eq!(flags_of(4).to_string(), "--D---");
    assert_eq!(flags_of(8).to_string(), "---R--");
    assert_eq!(flags_of(16).to_string(), "----P-");
    assert_eq!(flags_of(32).to_string(), "-----U");
    assert_eq!(flags_of(3).to_string(), "NM----");
    assert_eq!(flags_of(63).to_string(), "NMDRPU");
}

#[test]
fn clean_means_that_all_six_flags_are_down() {
    for bits in 0u32..64 {
        let flags = flags_of(bits);
        assert_eq!(flags.clean(), bits == 0, "flags {:?}", flags);
        assert_eq!(flags.to_string().chars().count(), 6);
        assert_eq!(flags.clean(), flags.to_string() == "------");
    }
}

#[test]
fn no_entries_give_clean_flags() {
    let flags = statuses_to_string(&vec![]);
    assert!(flags.clean());
}

#[test]
fn each_state_of_a_file_sets_its_flag() {
    let cases = [
        (git2::Status::INDEX_NEW, "N-----"),
        (git2::Status::WT_NEW, "N-----"),
        (git2::Status::INDEX_MODIFIED, "-M----"),
        (git2::Status::WT_MODIFIED, "-M----"),
        (git2::Status::INDEX_DELETED, "--D---"),
        (git2::Status::WT_DELETED, "--D---"),
        (git2::Status::INDEX_RENAMED, "---R--"),
        (git2::Status::WT_RENAMED, "---R--"),
    ];
    for (status, code) in cases {
        let flags = statuses_to_string(&vec![status.bits()]);
        assert_eq!(flags.to_string(), code, "status {:?}", status);
    }
}

#[test]
fn the_bits_are_those_of_the_repository_library() {
    assert_eq!(git_survey::flags::INDEX_NEW, git2::Status::INDEX_NEW.bits());
    assert_eq!(git_survey::flags::INDEX_MODIFIED, git2::Status::INDEX_MODIFIED.bits());
    assert_eq!(git_survey::flags::INDEX_DELETED, git2::Status::INDEX_DELETED.bits());
    assert_eq!(git_survey::flags::INDEX_RENAMED, git2::Status::INDEX_RENAMED.bits());
    assert_eq!(git_survey::flags::WT_NEW, git2::Status::WT_NEW.bits());
    assert_eq!(git_survey::flags::WT_MODIFIED, git2::Status::WT_MODIFIED.bits());
    assert_eq!(git_survey::flags::WT_DELETED, git2::Status::WT_DELETED.bits());
    assert_eq!(git_survey::flags::WT_RENAMED, git2::Status::WT_RENAMED.bits());
}

#[test]
fn other_states_set_no_flag() {
    let entries = vec![
        git2::Status::CURRENT.bits(),
        git2::Status::IGNORED.bits(),
        git2::Status::CONFLICTED.bits(),
        git2::Status::INDEX_TYPECHANGE.bits(),
        git2::Status::WT_TYPECHANGE.bits(),
        git2::Status::WT_UNREADABLE.bits(),
    ];
    assert!(statuses_to_string(&entries).clean());
}

#[test]
fn flags_gather_over_all_entries() {
    let entries = vec![
        git2::Status::WT_MODIFIED.bits(),
        git2::Status::CURRENT.bits(),
        (git2::Status::INDEX_NEW | git2::Status::WT_DELETED).bits(),
    ];
    let flags = statuses_to_string(&entries);
    assert_eq!(flags.to_string(), "NMD---");
    assert!(!flags.clean());
    assert!(!flags.push && !flags.pull);
}
