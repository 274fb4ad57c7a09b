use git_survey::tree::RepoTree;

fn tree_of(paths: &[&str]) -> RepoTree {
    let mut tree = RepoTree::new("root".to_string());
    for path in paths {
        tree.add_path(path.to_string());
    }
    tree
}

#[test]
fn a_tree_with_only_its_root_prints_nothing() {
    assert_eq!(RepoTree::new("root".to_string()).print(), "");
}

#[test]
fn inserting_a_path_twice_is_inserting_it_once() {
    let once = tree_of(&["a/b/c"]).print();
    let twice = tree_of(&["a/b/c", "a/b/c"]).print();
    assert_eq!(once, twice);
    assert_eq!(once, "└── a\n     └── b\n          └── c\n");
    let mixed = tree_of(&["a/b", "c", "a/b", "c"]).print();
    assert_eq!(mixed, tree_of(&["a/b", "c"]).print());
}

#[test]
fn paths_with_the_same_start_share_a_branch() {
    let text = tree_of(&["a/b", "a/c"]).print();
    assert_eq!(text, "└── a\n     ├── b\n     └── c\n");
    assert_eq!(text.matches("a\n").count(), 1);
}

#[test]
fn the_tree_is_drawn_with_tees_elbows_and_pipes() {
    let text = tree_of(&["x/y", "x/z", "w"]).print();
    assert_eq!(text, "├── x\n│    ├── y\n│    └── z\n└── w\n");
}

#[test]
fn children_stay_in_the_order_of_insertion() {
    let text = tree_of(&["b", "a", "c", "a/z", "b/y"]).print();
    assert_eq!(text, "├── b\n│    └── y\n├── a\n│    └── z\n└── c\n");
}

#[test]
fn pipes_go_down_through_every_open_level() {
    let text = tree_of(&["a/b/c", "a/b/d", "a/e", "f"]).print();
    assert_eq!(
        text,
        "├── a\n│    ├── b\n│    │    ├── c\n│    │    └── d\n│    └── e\n└── f\n"
    );
}

#[test]
fn a_prefix_of_an_earlier_path_adds_nothing() {
    assert_eq!(tree_of(&["a/b", "a"]).print(), tree_of(&["a/b"]).print());
}

#[test]
fn empty_segments_are_nodes_too() {
    assert_eq!(tree_of(&[""]).print(), "└── \n");
    assert_eq!(tree_of(&["a//b"]).print(), "└── a\n     └── \n          └── b\n");
}

#[test]
fn the_same_segment_may_stand_at_different_places() {
    let text = tree_of(&["a/a", "b/a"]).print();
    assert_eq!(text, "├── a\n│    └── a\n└── b\n     └── a\n");
}
