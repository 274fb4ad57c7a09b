//! The summary of a survey: how many repositories are in which state.

use vstd::prelude::*;
use vstd::string::StringExecFns;
use crate::repo::RepositoryStatus;
use crate::text::decimal;
use crate::text::push_decimal;

verus! {

/// Counts of repositories by state.
#[derive(Clone, Copy, Debug)]
pub struct Summary {
    /// Repositories without any change.
    pub clean: usize,
    /// Repositories with some change.
    pub dirty: usize,
    /// Repositories with modified files.
    pub modified: usize,
    /// Repositories with new files.
    pub untracked: usize,
    /// Repositories with commits that the remote lacks; nothing counts these.
    pub unsynced: usize,
}

/// How many of the records are clean.
pub open spec fn clean_count(statuses: Seq<RepositoryStatus>) -> nat
    decreases statuses.len(),
{
    if statuses.len() == 0 {
        0
    } else {
        clean_count(statuses.drop_last()) + (if statuses.last().status_flags.is_clean() {
            1nat
        } else {
            0nat
        })
    }
}

/// How many of the records have modified files.
pub open spec fn modified_count(statuses: Seq<RepositoryStatus>) -> nat
    decreases statuses.len(),
{
    if statuses.len() == 0 {
        0
    } else {
        modified_count(statuses.drop_last()) + (if statuses.last().status_flags.modified {
            1nat
        } else {
            0nat
        })
    }
}

/// How many of the records have new files.
pub open spec fn untracked_count(statuses: Seq<RepositoryStatus>) -> nat
    decreases statuses.len(),
{
    if statuses.len() == 0 {
        0
    } else {
        untracked_count(statuses.drop_last()) + (if statuses.last().status_flags.new {
            1nat
        } else {
            0nat
        })
    }
}

/// A line that is left out when its count is zero.
pub open spec fn count_line(indent: Seq<char>, count: nat, what: Seq<char>) -> Seq<char> {
    if count > 0 {
        indent + decimal(count) + what + seq!['\n']
    } else {
        Seq::empty()
    }
}

/// The text of a summary: the count of clean repositories in any case, then
/// each of the other counts that is not zero, the last three behind a tab.
pub open spec fn report(clean: nat, dirty: nat, modified: nat, untracked: nat, unsynced: nat)
    -> Seq<char> {
    decimal(clean) + " clean repositories\n"@ + count_line(
        Seq::empty(),
        dirty,
        " repositories in dirty state, of which:"@,
    ) + count_line(seq!['\t'], modified, " repositories with modified files"@) + count_line(
        seq!['\t'],
        untracked,
        " repositories with untracked files"@,
    ) + count_line(seq!['\t'], unsynced, " repositories with unsynced commits"@)
}

impl Summary {
    /// The counts of the records of a survey. Every record is clean or dirty;
    /// modified and new files are counted over all records.
    pub open spec fn counts(self, statuses: Seq<RepositoryStatus>) -> bool {
        &&& self.clean == clean_count(statuses)
        &&& self.dirty == statuses.len() - clean_count(statuses)
        &&& self.modified == modified_count(statuses)
        &&& self.untracked == untracked_count(statuses)
        &&& self.unsynced == 0
    }

    /// The summary as text: see [`report`].
    pub open spec fn text(self) -> Seq<char> {
        report(
            self.clean as nat,
            self.dirty as nat,
            self.modified as nat,
            self.untracked as nat,
            self.unsynced as nat,
        )
    }

    /// All counts at zero.
    pub fn new() -> (summary: Summary)
        ensures
            summary.counts(Seq::empty()),
    {
        Summary { clean: 0, dirty: 0, modified: 0, untracked: 0, unsynced: 0 }
    }

    /// The summary as the text to print: see [`Summary::text`].
    pub fn print(&self) -> (text: String)
        ensures
            text@ == self.text(),
    {
        let mut text = String::new();
        push_decimal(&mut text, self.clean);
        text.append(" clean repositories\n");
        push_count_line(&mut text, "", self.dirty, " repositories in dirty state, of which:");
        push_count_line(&mut text, "\t", self.modified, " repositories with modified files");
        push_count_line(&mut text, "\t", self.untracked, " repositories with untracked files");
        push_count_line(&mut text, "\t", self.unsynced, " repositories with unsynced commits");
        proof {
            reveal_strlit("");
            reveal_strlit("\t");
            assert(""@ == Seq::<char>::empty());
            assert("\t"@ == seq!['\t']);
        }
        text
    }
}

/// Appends a line with a count, unless the count is zero.
fn push_count_line(text: &mut String, indent: &str, count: usize, what: &str)
    ensures
        final(text)@ == old(text)@ + count_line(indent@, count as nat, what@),
{
    if count > 0 {
        proof {
            reveal_strlit("\n");
        }
        text.append(indent);
        push_decimal(text, count);
        text.append(what);
        text.append("\n");
        assert(text@ == old(text)@ + count_line(indent@, count as nat, what@));
    } else {
        assert(text@ == old(text)@ + Seq::<char>::empty());
    }
}

/// Counts the records of a survey by state.
pub fn summarize(statuses: &Vec<RepositoryStatus>) -> (summary: Summary)
    ensures
        summary.counts(statuses@),
{
    let mut summary = Summary::new();
    let mut k: usize = 0;
    while k < statuses.len()
        invariant
            k <= statuses.len(),
            summary.counts(statuses@.take(k as int)),
            clean_count(statuses@.take(k as int)) <= k,
            modified_count(statuses@.take(k as int)) <= k,
            untracked_count(statuses@.take(k as int)) <= k,
        decreases statuses.len() - k,
    {
        assert(statuses@.take(k + 1).drop_last() == statuses@.take(k as int));
        let status = &statuses[k];
        if status.status_flags.clean() {
            summary.clean = summary.clean + 1;
        } else {
            summary.dirty = summary.dirty + 1;
        }
        if status.status_flags.modified {
            summary.modified = summary.modified + 1;
        }
        if status.status_flags.new {
            summary.untracked = summary.untracked + 1;
        }
        k = k + 1;
    }
    assert(statuses@.take(k as int) == statuses@);
    summary
}

/// The summary of a survey, as the text to print: the records are counted
/// as clean or dirty, those with modified and those with new files are
/// counted over all of them, and the counts are laid out as [`report`] says.
pub fn print_summary(statuses: Vec<RepositoryStatus>) -> (text: String)
    ensures
        text@ == report(
            clean_count(statuses@),
            (statuses.len() - clean_count(statuses@)) as nat,
            modified_count(statuses@),
            untracked_count(statuses@),
            0,
        ),
{
    let summary = summarize(&statuses);
    summary.print()
}

} // verus!
