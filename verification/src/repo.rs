//! The record of one repository, and the flat list of such records.

use vstd::prelude::*;
use vstd::string::StringExecFns;
use crate::flags::classify;
use crate::flags::statuses_to_string;
use crate::flags::StatusFlags;
use crate::shape::PathTree;
use crate::text::byte_len;
use crate::text::byte_length;
use crate::text::last_segment;
use crate::text::last_segment_of;
use crate::text::padded;
use crate::text::push_padded;
use crate::text::relative;
use crate::text::relative_to;
use crate::text::segments;
use crate::tree::RepoTree;

verus! {

/// What the survey keeps of one repository.
#[derive(Clone, Debug)]
pub struct RepositoryStatus {
    /// The last segment of the working directory's path.
    pub name: String,
    /// The working directory as seen from the root of the survey.
    pub relative_path: String,
    /// The state of the working tree.
    pub status_flags: StatusFlags,
    /// The URL of the remote named `origin`, empty where there is none.
    pub origin_url: String,
}

/// The URL to show for a remote that may be missing.
pub open spec fn url_or_empty(origin: Option<String>) -> Seq<char> {
    match origin {
        Some(url) => url@,
        None => Seq::empty(),
    }
}

impl RepositoryStatus {
    /// The record of the repository whose working directory is `workdir`,
    /// found in a survey of `root`. `origin` is the URL of its remote named
    /// `origin`, if it has one; `entries` holds the bits of the state of each
    /// of its changed files.
    pub fn new(workdir: &str, root: &str, origin: Option<String>, entries: &Vec<u32>) -> (status:
        RepositoryStatus)
        ensures
            status.name@ == last_segment(workdir@),
            status.relative_path@ == relative(workdir@, root@),
            status.status_flags == classify(entries@),
            status.origin_url@ == url_or_empty(origin),
    {
        let name = last_segment_of(workdir);
        let relative_path = relative_to(workdir, root);
        let origin_url = match origin {
            Some(url) => url,
            None => String::new(),
        };
        let status_flags = statuses_to_string(entries);
        RepositoryStatus { name, relative_path, status_flags, origin_url }
    }
}

/// The larger of two numbers.
pub open spec fn larger(a: nat, b: nat) -> nat {
    if a >= b {
        a
    } else {
        b
    }
}

/// The width of the name column: the length in bytes of the longest name of
/// all the records, shown or not. Filling a name up counts its characters,
/// so the two agree on names in ASCII.
pub open spec fn name_width(statuses: Seq<RepositoryStatus>) -> nat
    decreases statuses.len(),
{
    if statuses.len() == 0 {
        0
    } else {
        larger(name_width(statuses.drop_last()), byte_len(statuses.last().name@))
    }
}

/// Whether the list shows a record: one that is clean only on demand.
pub open spec fn shown(status: RepositoryStatus, show_clean: bool) -> bool {
    show_clean || !status.status_flags.is_clean()
}

/// The line of one record: its name filled up to the column's width, a space
/// and the six flag characters, then, on demand, a space and the URL.
pub open spec fn row(status: RepositoryStatus, width: nat, url: bool) -> Seq<char> {
    padded(status.name@, width) + seq![' '] + status.status_flags.code() + (if url {
        seq![' '] + status.origin_url@
    } else {
        Seq::empty()
    }) + seq!['\n']
}

/// The lines of the records that are shown, in order, for a given width.
pub open spec fn rows(statuses: Seq<RepositoryStatus>, width: nat, url: bool, show_clean: bool)
    -> Seq<char>
    decreases statuses.len(),
{
    if statuses.len() == 0 {
        Seq::empty()
    } else {
        rows(statuses.drop_last(), width, url, show_clean) + (if shown(
            statuses.last(),
            show_clean,
        ) {
            row(statuses.last(), width, url)
        } else {
            Seq::empty()
        })
    }
}

/// The flat list: one line for each record that is shown, the names aligned
/// to the longest name of all.
pub open spec fn listing(statuses: Seq<RepositoryStatus>, url: bool, show_clean: bool) -> Seq<
    char,
> {
    rows(statuses, name_width(statuses), url, show_clean)
}

/// The length in bytes of the longest name.
pub fn max_name_length(statuses: &Vec<RepositoryStatus>) -> (width: usize)
    ensures
        width == name_width(statuses@),
{
    let mut width: usize = 0;
    let mut k: usize = 0;
    while k < statuses.len()
        invariant
            k <= statuses.len(),
            width == name_width(statuses@.take(k as int)),
        decreases statuses.len() - k,
    {
        assert(statuses@.take(k + 1).drop_last() == statuses@.take(k as int));
        let len = byte_length(statuses[k].name.as_str());
        if len > width {
            width = len;
        }
        k = k + 1;
    }
    assert(statuses@.take(k as int) == statuses@);
    width
}

/// Appends the line of one record.
fn push_row(text: &mut String, status: &RepositoryStatus, width: usize, url: bool)
    ensures
        final(text)@ == old(text)@ + row(*status, width as nat, url),
{
    proof {
        reveal_strlit(" ");
        reveal_strlit("\n");
    }
    push_padded(text, status.name.as_str(), width);
    text.append(" ");
    let code = status.status_flags.to_string();
    text.append(code.as_str());
    if url {
        text.append(" ");
        text.append(status.origin_url.as_str());
    }
    text.append("\n");
    assert(text@ == old(text)@ + row(*status, width as nat, url));
}

/// The flat list of the records, as the text to print: see [`listing`].
pub fn print_long(statuses: Vec<RepositoryStatus>, url: bool, show_clean: bool) -> (text: String)
    ensures
        text@ == listing(statuses@, url, show_clean),
{
    let width = max_name_length(&statuses);
    let mut text = String::new();
    let mut k: usize = 0;
    while k < statuses.len()
        invariant
            k <= statuses.len(),
            text@ == rows(statuses@.take(k as int), width as nat, url, show_clean),
        decreases statuses.len() - k,
    {
        assert(statuses@.take(k + 1).drop_last() == statuses@.take(k as int));
        let status = &statuses[k];
        if show_clean || !status.status_flags.clean() {
            push_row(&mut text, status, width, url);
        }
        k = k + 1;
    }
    assert(statuses@.take(k as int) == statuses@);
    text
}

/// The tree of the records that are shown: below a root that holds `root`,
/// the relative path of each of them, inserted in order.
pub open spec fn branches(statuses: Seq<RepositoryStatus>, root: Seq<char>, show_clean: bool)
    -> PathTree
    decreases statuses.len(),
{
    if statuses.len() == 0 {
        PathTree::leaf(root)
    } else {
        let before = branches(statuses.drop_last(), root, show_clean);
        if shown(statuses.last(), show_clean) {
            before.insert(segments(statuses.last().relative_path@))
        } else {
            before
        }
    }
}

/// The records as a tree of their relative paths, as the text to print: one
/// line for each path segment below the root, drawn as [`PathTree::render`]
/// says. The root's own line is not part of it. With `show_clean` every
/// record has its branch; without it the clean ones have none.
pub fn print_long_tree(statuses: Vec<RepositoryStatus>, root: String, show_clean: bool) -> (text:
    String)
    ensures
        text@ == branches(statuses@, root@, show_clean).render(Seq::empty()),
{
    let ghost label = root@;
    let mut tree = RepoTree::new(root);
    let mut k: usize = 0;
    while k < statuses.len()
        invariant
            k <= statuses.len(),
            tree.wf(),
            tree@ == branches(statuses@.take(k as int), label, show_clean),
        decreases statuses.len() - k,
    {
        assert(statuses@.take(k + 1).drop_last() == statuses@.take(k as int));
        let status = &statuses[k];
        if show_clean || !status.status_flags.clean() {
            tree.add_path(status.relative_path.clone());
        }
        k = k + 1;
    }
    assert(statuses@.take(k as int) == statuses@);
    tree.print()
}

} // verus!
