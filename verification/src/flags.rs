//! The six flags that summarise the state of one working tree, and the
//! classification of the per-file states a repository reports.

use vstd::prelude::*;
use vstd::string::StringExecFns;

verus! {

/// Summary of a working tree: which kinds of change occur in it at all.
///
/// `push` and `pull` are kept for commits ahead of and behind the remote;
/// nothing in this crate sets them.
#[derive(Clone, Copy, Debug)]
pub struct StatusFlags {
    pub new: bool,
    pub modified: bool,
    pub deleted: bool,
    pub renamed: bool,
    pub push: bool,
    pub pull: bool,
}

/// The character that stands for one flag: its letter when set, a dash when not.
pub open spec fn flag_char(set: bool, letter: char) -> char {
    if set {
        letter
    } else {
        '-'
    }
}

impl StatusFlags {
    /// No flag is set.
    pub open spec fn is_clean(self) -> bool {
        !self.new && !self.modified && !self.deleted && !self.renamed && !self.push && !self.pull
    }

    /// The six characters of the flags, in the fixed order `N M D R P U`.
    pub open spec fn code(self) -> Seq<char> {
        seq![
            flag_char(self.new, 'N'),
            flag_char(self.modified, 'M'),
            flag_char(self.deleted, 'D'),
            flag_char(self.renamed, 'R'),
            flag_char(self.push, 'P'),
            flag_char(self.pull, 'U'),
        ]
    }

    /// The flags of a working tree without changes.
    pub fn new() -> (flags: StatusFlags)
        ensures
            flags.is_clean(),
    {
        StatusFlags {
            new: false,
            modified: false,
            deleted: false,
            renamed: false,
            push: false,
            pull: false,
        }
    }

    /// Whether no flag is set.
    pub fn clean(&self) -> (b: bool)
        ensures
            b == self.is_clean(),
    {
        !self.new && !self.modified && !self.deleted && !self.renamed && !self.push && !self.pull
    }

    /// The flags as six characters.
    pub fn to_string(&self) -> (s: String)
        ensures
            s@ == self.code(),
    {
        let mut s = String::new();
        proof {
            reveal_strlit("N");
            reveal_strlit("M");
            reveal_strlit("D");
            reveal_strlit("R");
            reveal_strlit("P");
            reveal_strlit("U");
        }
        add_flag(&mut s, self.new, "N");
        add_flag(&mut s, self.modified, "M");
        add_flag(&mut s, self.deleted, "D");
        add_flag(&mut s, self.renamed, "R");
        add_flag(&mut s, self.push, "P");
        add_flag(&mut s, self.pull, "U");
        assert(s@ =~= self.code());
        s
    }
}

/// Appends the letter of a flag that is set, and a dash for one that is not.
fn add_flag(s: &mut String, set: bool, letter: &str)
    requires
        letter@.len() == 1,
    ensures
        final(s)@ == old(s)@.push(flag_char(set, letter@[0])),
{
    if set {
        s.append(letter);
        assert(s@ =~= old(s)@.push(letter@[0]));
    } else {
        proof {
            reveal_strlit("-");
        }
        s.append("-");
        assert(s@ =~= old(s)@.push('-'));
    }
}

/// Bit of a file's state: new in the index.
pub const INDEX_NEW: u32 = 0x1;

/// Bit of a file's state: modified in the index.
pub const INDEX_MODIFIED: u32 = 0x2;

/// Bit of a file's state: deleted in the index.
pub const INDEX_DELETED: u32 = 0x4;

/// Bit of a file's state: renamed in the index.
pub const INDEX_RENAMED: u32 = 0x8;

/// Bit of a file's state: new in the working tree.
pub const WT_NEW: u32 = 0x80;

/// Bit of a file's state: modified in the working tree.
pub const WT_MODIFIED: u32 = 0x100;

/// Bit of a file's state: deleted in the working tree.
pub const WT_DELETED: u32 = 0x200;

/// Bit of a file's state: renamed in the working tree.
pub const WT_RENAMED: u32 = 0x800;

/// `git2::Status::from_bits_truncate` and `is_index_new`: whether the bits of a
/// file's state hold `Status::INDEX_NEW`.
#[verifier::external_body]
fn is_index_new(bits: u32) -> (set: bool)
    ensures
        set == (bits & INDEX_NEW != 0),
{
    git2::Status::from_bits_truncate(bits).is_index_new()
}

/// `git2::Status::from_bits_truncate` and `is_wt_new`: whether the bits of a
/// file's state hold `Status::WT_NEW`.
#[verifier::external_body]
fn is_wt_new(bits: u32) -> (set: bool)
    ensures
        set == (bits & WT_NEW != 0),
{
    git2::Status::from_bits_truncate(bits).is_wt_new()
}

/// `git2::Status::from_bits_truncate` and `is_index_modified`: whether the bits
/// of a file's state hold `Status::INDEX_MODIFIED`.
#[verifier::external_body]
fn is_index_modified(bits: u32) -> (set: bool)
    ensures
        set == (bits & INDEX_MODIFIED != 0),
{
    git2::Status::from_bits_truncate(bits).is_index_modified()
}

/// `git2::Status::from_bits_truncate` and `is_wt_modified`: whether the bits of
/// a file's state hold `Status::WT_MODIFIED`.
#[verifier::external_body]
fn is_wt_modified(bits: u32) -> (set: bool)
    ensures
        set == (bits & WT_MODIFIED != 0),
{
    git2::Status::from_bits_truncate(bits).is_wt_modified()
}

/// `git2::Status::from_bits_truncate` and `is_index_deleted`: whether the bits
/// of a file's state hold `Status::INDEX_DELETED`.
#[verifier::external_body]
fn is_index_deleted(bits: u32) -> (set: bool)
    ensures
        set == (bits & INDEX_DELETED != 0),
{
    git2::Status::from_bits_truncate(bits).is_index_deleted()
}

/// `git2::Status::from_bits_truncate` and `is_wt_deleted`: whether the bits of a
/// file's state hold `Status::WT_DELETED`.
#[verifier::external_body]
fn is_wt_deleted(bits: u32) -> (set: bool)
    ensures
        set == (bits & WT_DELETED != 0),
{
    git2::Status::from_bits_truncate(bits).is_wt_deleted()
}

/// `git2::Status::from_bits_truncate` and `is_index_renamed`: whether the bits
/// of a file's state hold `Status::INDEX_RENAMED`.
#[verifier::external_body]
fn is_index_renamed(bits: u32) -> (set: bool)
    ensures
        set == (bits & INDEX_RENAMED != 0),
{
    git2::Status::from_bits_truncate(bits).is_index_renamed()
}

/// `git2::Status::from_bits_truncate` and `is_wt_renamed`: whether the bits of a
/// file's state hold `Status::WT_RENAMED`.
#[verifier::external_body]
fn is_wt_renamed(bits: u32) -> (set: bool)
    ensures
        set == (bits & WT_RENAMED != 0),
{
    git2::Status::from_bits_truncate(bits).is_wt_renamed()
}

/// A file is new, in the index or in the working tree.
pub open spec fn entry_new(bits: u32) -> bool {
    bits & INDEX_NEW != 0 || bits & WT_NEW != 0
}

/// A file is modified, in the index or in the working tree.
pub open spec fn entry_modified(bits: u32) -> bool {
    bits & INDEX_MODIFIED != 0 || bits & WT_MODIFIED != 0
}

/// A file is deleted, in the index or in the working tree.
pub open spec fn entry_deleted(bits: u32) -> bool {
    bits & INDEX_DELETED != 0 || bits & WT_DELETED != 0
}

/// A file is renamed, in the index or in the working tree.
pub open spec fn entry_renamed(bits: u32) -> bool {
    bits & INDEX_RENAMED != 0 || bits & WT_RENAMED != 0
}

/// The flags of a working tree whose changed files have the states `entries`:
/// a flag is set when some file has that kind of change.
pub open spec fn classify(entries: Seq<u32>) -> StatusFlags {
    StatusFlags {
        new: exists|i: int| 0 <= i < entries.len() && entry_new(#[trigger] entries[i]),
        modified: exists|i: int| 0 <= i < entries.len() && entry_modified(#[trigger] entries[i]),
        deleted: exists|i: int| 0 <= i < entries.len() && entry_deleted(#[trigger] entries[i]),
        renamed: exists|i: int| 0 <= i < entries.len() && entry_renamed(#[trigger] entries[i]),
        push: false,
        pull: false,
    }
}

/// Folds the states of the changed files of a working tree into its flags.
/// Each entry holds the bits of one file's state as the repository reports
/// them.
pub fn statuses_to_string(entries: &Vec<u32>) -> (flags: StatusFlags)
    ensures
        flags == classify(entries@),
{
    let mut flags = StatusFlags::new();
    let mut k: usize = 0;
    while k < entries.len()
        invariant
            k <= entries.len(),
            flags == classify(entries@.take(k as int)),
        decreases entries.len() - k,
    {
        let bits = entries[k];
        let ghost seen = entries@.take(k as int);
        let ghost next = entries@.take(k + 1);
        assert(next.drop_last() == seen);
        assert(next[k as int] == bits);
        assert forall|i: int| 0 <= i < seen.len() implies seen[i] == next[i] by {}
        if is_index_new(bits) || is_wt_new(bits) {
            flags.new = true;
        }
        if is_index_modified(bits) || is_wt_modified(bits) {
            flags.modified = true;
        }
        if is_index_deleted(bits) || is_wt_deleted(bits) {
            flags.deleted = true;
        }
        if is_index_renamed(bits) || is_wt_renamed(bits) {
            flags.renamed = true;
        }
        k = k + 1;
    }
    assert(entries@.take(k as int) == entries@);
    flags
}

} // verus!
