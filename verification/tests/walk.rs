use git_survey::walk::explore_path;
use git_survey::walk::Entry;
use git_survey::walk::Finding;

/// A directory tree held in memory: for each directory whether it is a
/// repository, and the names of its entries with whether each is a directory.
struct Disk {
    dirs: Vec<(&'static str, bool, Vec<(&'static str, bool)>)>,
    visited: Vec<String>,
}

impl Disk {
    fn look(&mut self, path: &str) -> Finding {
        self.visited.push(path.to_string());
        let (_, repository, entries) = self
            .dirs
            .iter()
            .find(|(dir, _, _)| *dir == path)
            .unwrap_or_else(|| panic!("no directory {}", path));
        if *repository {
            return Finding::Repository;
        }
        Finding::Directory(
            entries
                .iter()
                .map(|(name, is_dir)| {
                    if *is_dir {
                        Entry::Directory(format!("{}/{}", path, name))
                    } else {
                        Entry::Other
                    }
                })
                .collect(),
        )
    }
}

fn discover(disk: &mut Disk, root: &str) -> Vec<String> {
    let mut pending = vec![root.to_string()];
    let mut repositories = vec![];
    while let Some(path) = pending.pop() {
        let finding = disk.look(&path);
        explore_path(path, finding, &mut pending, &mut repositories);
    }
    repositories
}

#[test]
fn a_repository_is_added_and_nothing_is_left_to_visit() {
    let mut pending = vec!["later".to_string()];
    let mut repositories = vec!["first".to_string()];
    explore_path("root/proj".to_string(), Finding::Repository, &mut pending, &mut repositories);
    assert_eq!(repositories, vec!["first", "root/proj"]);
    assert_eq!(pending, vec!["later"]);
}

#[test]
fn the_first_subdirectory_is_visited_next() {
    let mut pending = vec!["later".to_string()];
    let mut repositories = vec![];
    let entries = vec![
        Entry::Directory("root/a".to_string()),
        Entry::Other,
        Entry::Directory("root/b".to_string()),
        Entry::Directory("root/c".to_string()),
    ];
    explore_path("root".to_string(), Finding::Directory(entries), &mut pending, &mut repositories);
    assert!(repositories.is_empty());
    assert_eq!(pending, vec!["later", "root/c", "root/b", "root/a"]);
    assert_eq!(pending.pop().unwrap(), "root/a");
}

#[test]
fn a_directory_without_subdirectories_adds_nothing() {
    let mut pending: Vec<String> = vec![];
    let mut repositories: Vec<String> = vec![];
    explore_path(
        "root".to_string(),
        Finding::Directory(vec![Entry::Other, Entry::Other]),
        &mut pending,
        &mut repositories,
    );
    assert!(pending.is_empty());
    assert!(repositories.is_empty());
    explore_path("root".to_string(), Finding::Directory(vec![]), &mut pending, &mut repositories);
    assert!(pending.is_empty());
}

#[test]
fn a_repository_inside_a_repository_is_not_found() {
    let mut disk = Disk {
        dirs: vec![
            ("root", false, vec![("proj", true)]),
            ("root/proj", true, vec![("vendor", true), ("src", true)]),
            ("root/proj/vendor", true, vec![]),
            ("root/proj/src", false, vec![]),
        ],
        visited: vec![],
    };
    assert_eq!(discover(&mut disk, "root"), vec!["root/proj"]);
    assert_eq!(disk.visited, vec!["root", "root/proj"]);
}

#[test]
fn the_root_may_be_the_repository() {
    let mut disk = Disk { dirs: vec![("root", true, vec![("sub", true)])], visited: vec![] };
    assert_eq!(discover(&mut disk, "root"), vec!["root"]);
}

#[test]
fn repositories_come_depth_first_in_listing_order() {
    let mut disk = Disk {
        dirs: vec![
            ("root", false, vec![("b", true), ("notes.txt", false), ("a", true), ("c", true)]),
            ("root/b", false, vec![("deep", true), ("two", true)]),
            ("root/b/deep", false, vec![("one", true)]),
            ("root/b/deep/one", true, vec![]),
            ("root/b/two", true, vec![]),
            ("root/a", true, vec![]),
            ("root/c", false, vec![]),
        ],
        visited: vec![],
    };
    assert_eq!(discover(&mut disk, "root"), vec!["root/b/deep/one", "root/b/two", "root/a"]);
    assert_eq!(
        disk.visited,
        vec!["root", "root/b", "root/b/deep", "root/b/deep/one", "root/b/two", "root/a", "root/c"]
    );
}

#[test]
fn a_tree_without_repositories_yields_nothing() {
    let mut disk = Disk {
        dirs: vec![("root", false, vec![("a", true)]), ("root/a", false, vec![])],
        visited: vec![],
    };
    assert!(discover(&mut disk, "root").is_empty());
}
