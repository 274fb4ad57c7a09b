//! The tree of path segments, kept in an arena of nodes.

use vstd::prelude::*;
use vstd::string::StringExecFns;
use slab_tree::NodeId;
use slab_tree::Tree;
use slab_tree::TreeBuilder;
use crate::shape::lemma_at_push;
use crate::shape::lemma_child_smaller;
use crate::shape::lemma_first_match;
use crate::shape::lemma_graft_child;
use crate::shape::lemma_graft_same;
use crate::shape::lemma_graft_twice;
use crate::shape::lemma_at_graft;
use crate::shape::lemma_grow_adds;
use crate::shape::lemma_grow_keeps;
use crate::shape::lemma_insert_distinct;
use crate::shape::PathTree;
use crate::text::segments;
use crate::text::split;
use crate::text::texts;

verus! {

/// `slab_tree::Tree`: an arena of nodes. What one holds is told by
/// [`arena_labels`] and [`arena_children`].
#[verifier::external_type_specification]
#[verifier::external_body]
#[verifier::reject_recursive_types(T)]
pub struct ExTree<T>(Tree<T>);

/// `slab_tree::NodeId`: the identifier of a node of an arena. Two of them are
/// equal when they name the same node.
#[verifier::external_type_specification]
#[verifier::external_body]
pub struct ExNodeId(NodeId);

/// The segment held by each node of an arena, by the node's identifier.
pub uninterp spec fn arena_labels(tree: Tree<String>) -> Map<NodeId, Seq<char>>;

/// The children of each node of an arena, in order, by the node's identifier.
pub uninterp spec fn arena_children(tree: Tree<String>) -> Map<NodeId, Seq<NodeId>>;

/// `TreeBuilder::new`, `with_root`, `build` and `Tree::root_id`: an arena whose
/// only node is a root that holds `root` and has no children.
#[verifier::external_body]
fn plant(root: String) -> (planted: (Tree<String>, NodeId))
    ensures
        arena_labels(planted.0) == Map::<NodeId, Seq<char>>::empty().insert(planted.1, root@),
        arena_children(planted.0) == Map::<NodeId, Seq<NodeId>>::empty().insert(
            planted.1,
            Seq::empty(),
        ),
{
    let tree = TreeBuilder::new().with_root(root).build();
    let root_id = tree.root_id().expect("a tree built with a root has one");
    (tree, root_id)
}

/// `Tree::get` and `NodeRef::data`: the segment that a node holds.
#[verifier::external_body]
fn label(tree: &Tree<String>, id: NodeId) -> (data: &String)
    requires
        arena_labels(*tree).dom().contains(id),
    ensures
        data@ == arena_labels(*tree)[id],
{
    tree.get(id).expect("the node is in the tree").data()
}

/// `Tree::get`, `NodeRef::first_child` and `NodeRef::node_id`: the first of a
/// node's children, if it has any.
#[verifier::external_body]
fn first_child(tree: &Tree<String>, id: NodeId) -> (child: Option<NodeId>)
    requires
        arena_labels(*tree).dom().contains(id),
    ensures
        child == (if arena_children(*tree)[id].len() == 0 {
            None
        } else {
            Some(arena_children(*tree)[id][0])
        }),
{
    match tree.get(id).expect("the node is in the tree").first_child() {
        Some(node) => Some(node.node_id()),
        None => None,
    }
}

/// `Tree::get`, `NodeRef::next_sibling` and `NodeRef::node_id`: the child that
/// follows a node among the children of its parent, if one does.
#[verifier::external_body]
fn next_sibling(tree: &Tree<String>, id: NodeId) -> (next: Option<NodeId>)
    requires
        arena_labels(*tree).dom().contains(id),
    ensures
        forall|parent: NodeId, i: int|
            arena_labels(*tree).dom().contains(parent) && 0 <= i < arena_children(
                *tree,
            )[parent].len() && #[trigger] arena_children(*tree)[parent][i] == id ==> next == (if i
                + 1 < arena_children(*tree)[parent].len() {
                Some(arena_children(*tree)[parent][i + 1])
            } else {
                None
            }),
{
    match tree.get(id).expect("the node is in the tree").next_sibling() {
        Some(node) => Some(node.node_id()),
        None => None,
    }
}

/// `Tree::get_mut`, `NodeMut::append` and `NodeMut::node_id`: a new node that
/// holds `data` becomes the last child of `parent`; no other node changes, and
/// the new node's identifier was not in use.
#[verifier::external_body]
fn append(tree: &mut Tree<String>, parent: NodeId, data: String) -> (id: NodeId)
    requires
        arena_labels(*old(tree)).dom().contains(parent),
    ensures
        !arena_labels(*old(tree)).dom().contains(id),
        arena_labels(*final(tree)) == arena_labels(*old(tree)).insert(id, data@),
        arena_children(*final(tree)) == arena_children(*old(tree)).insert(
            parent,
            arena_children(*old(tree))[parent].push(id),
        ).insert(id, Seq::empty()),
{
    tree.get_mut(parent).expect("the node is in the tree").append(data).node_id()
}

/// A tree of path segments below a root. Paths that share their first
/// segments share the nodes of those segments.
pub struct RepoTree {
    tree: Tree<String>,
    root_id: NodeId,
    /// The tree that the arena holds.
    shape: Ghost<PathTree>,
    /// Where in `shape` each node of the arena stands: the child indices from
    /// the root down to it.
    places: Ghost<Map<NodeId, Seq<int>>>,
}

impl View for RepoTree {
    type V = PathTree;

    closed spec fn view(&self) -> PathTree {
        self.shape@
    }
}

impl RepoTree {
    /// The node is in the arena.
    spec fn live(&self, id: NodeId) -> bool {
        arena_labels(self.tree).dom().contains(id)
    }

    /// The children of a node of the arena.
    spec fn kids(&self, id: NodeId) -> Seq<NodeId> {
        arena_children(self.tree)[id]
    }

    /// The part of the tree that a node of the arena stands for.
    spec fn node(&self, id: NodeId) -> PathTree {
        self.shape@.at(self.places@[id])
    }

    /// The arena holds `shape`, each node once.
    spec fn linked(&self) -> bool {
        &&& arena_children(self.tree).dom() == arena_labels(self.tree).dom()
        &&& self.places@.dom() == arena_labels(self.tree).dom()
        &&& self.live(self.root_id)
        &&& self.places@[self.root_id] == Seq::<int>::empty()
        &&& forall|id: NodeId|
            self.live(id) ==> {
                &&& self.shape@.has(#[trigger] self.places@[id])
                &&& self.node(id).label == arena_labels(self.tree)[id]
                &&& self.node(id).children.len() == self.kids(id).len()
            }
        &&& forall|id: NodeId, i: int|
            self.live(id) && 0 <= i < self.kids(id).len() ==> {
                &&& self.live(#[trigger] self.kids(id)[i])
                &&& self.places@[self.kids(id)[i]] == self.places@[id].push(i)
            }
        &&& forall|a: NodeId, b: NodeId|
            self.live(a) && self.live(b) && #[trigger] self.places@[a] == #[trigger] self.places@[b]
                ==> a == b
    }

    /// The arena holds the tree, and no two children of a node hold the same
    /// segment.
    pub closed spec fn wf(&self) -> bool {
        self.linked() && self.shape@.distinct()
    }

    /// A child in the arena stands for the child at the same index.
    proof fn lemma_child_node(&self, id: NodeId, i: int)
        requires
            self.linked(),
            self.live(id),
            0 <= i < self.kids(id).len(),
        ensures
            self.live(self.kids(id)[i]),
            self.places@[self.kids(id)[i]] == self.places@[id].push(i),
            self.node(self.kids(id)[i]) == self.node(id).children[i],
            0 <= i < self.node(id).children.len(),
    {
        assert(self.shape@.has(self.places@[id]));
        lemma_at_push(self.shape@, self.places@[id], i);
    }

    /// A tree that holds only its root.
    pub fn new(root: String) -> (tree: RepoTree)
        ensures
            tree.wf(),
            tree@ == PathTree::leaf(root@),
    {
        let ghost label = root@;
        let planted = plant(root);
        let tree = RepoTree {
            tree: planted.0,
            root_id: planted.1,
            shape: Ghost(PathTree::leaf(label)),
            places: Ghost(Map::<NodeId, Seq<int>>::empty().insert(planted.1, Seq::empty())),
        };
        assert(tree.linked()) by {
            assert forall|id: NodeId| tree.live(id) implies id == tree.root_id by {}
        }
        tree
    }

    /// Inserts a path of segments with slashes between them: each segment in
    /// turn goes to the child that already holds it, or becomes a new last
    /// child.
    pub fn add_path(&mut self, path: String)
        requires
            old(self).wf(),
        ensures
            final(self).wf(),
            final(self)@ == old(self)@.insert(segments(path@)),
    {
        let folders = split(path.as_str());
        let root_id = self.root_id;
        proof {
            assert(texts(folders@).skip(0) == texts(folders@));
            lemma_insert_distinct(self.shape@, segments(path@));
        }
        self.add_branch(&folders, 0, root_id);
    }

    /// Inserts the segments from `from` on below the node `join_id`.
    fn add_branch(&mut self, branch: &Vec<String>, from: usize, join_id: NodeId)
        requires
            old(self).linked(),
            old(self).live(join_id),
            from <= branch.len(),
        ensures
            final(self).linked(),
            final(self).root_id == old(self).root_id,
            final(self).shape@ == old(self).shape@.graft(
                old(self).places@[join_id],
                old(self).node(join_id).insert(texts(branch@).skip(from as int)),
            ),
        decreases branch.len() - from,
    {
        let ghost segs = texts(branch@).skip(from as int);
        let ghost path = self.places@[join_id];
        let ghost shape = self.shape@;
        let ghost here = self.node(join_id);
        if from >= branch.len() {
            proof {
                assert(shape.has(path));
                lemma_graft_same(shape, path);
            }
            return ;
        }
        let data = &branch[from];
        proof {
            assert(shape.has(path));
            assert(segs[0] == data@);
            assert(segs.drop_first() == texts(branch@).skip(from + 1));
        }
        let children = self.children(join_id);
        match self.find_child(&children, join_id, data) {
            Some(k) => {
                let child = children[k];
                proof {
                    self.lemma_child_node(join_id, k as int);
                    lemma_first_match(here, data@, k as int);
                    lemma_graft_child(shape, path, k as int, here.children[k as int].insert(
                        segs.drop_first(),
                    ));
                }
                self.add_branch(branch, from + 1, child);
            },
            None => {
                let ghost before = *self;
                let ghost n = self.kids(join_id).len() as int;
                let new_id = append(&mut self.tree, join_id, data.clone());
                self.shape = Ghost(shape.grow(path, data@));
                self.places = Ghost(before.places@.insert(new_id, path.push(n)));
                proof {
                    Self::lemma_append_linked(before, *self, join_id, new_id, data@);
                    let grown = self.shape@;
                    let added = PathTree::leaf(data@).insert(segs.drop_first());
                    let wider = here.with_new_child(PathTree::leaf(data@));
                    lemma_at_graft(shape, path, wider);
                    lemma_graft_child(grown, path, n, added);
                    lemma_graft_twice(shape, path, wider, wider.with_child(n, added));
                    assert(wider.with_child(n, added).children == here.with_new_child(
                        added,
                    ).children);
                }
                self.add_branch(branch, from + 1, new_id);
            },
        }
    }

    /// A new last child in the arena, and a new leaf in the tree at its place,
    /// keep the two in step.
    proof fn lemma_append_linked(
        before: RepoTree,
        after: RepoTree,
        join: NodeId,
        new_id: NodeId,
        label: Seq<char>,
    )
        requires
            before.linked(),
            before.live(join),
            !before.live(new_id),
            arena_labels(after.tree) == arena_labels(before.tree).insert(new_id, label),
            arena_children(after.tree) == arena_children(before.tree).insert(
                join,
                before.kids(join).push(new_id),
            ).insert(new_id, Seq::empty()),
            after.root_id == before.root_id,
            after.shape@ == before.shape@.grow(before.places@[join], label),
            after.places@ == before.places@.insert(
                new_id,
                before.places@[join].push(before.kids(join).len() as int),
            ),
        ensures
            after.linked(),
            after.live(new_id),
            after.node(new_id) == PathTree::leaf(label),
    {
        let shape = before.shape@;
        let path = before.places@[join];
        let n = before.kids(join).len() as int;
        let grown = after.shape@;
        assert(shape.has(path));
        assert(before.node(join).children.len() == n);
        lemma_grow_adds(shape, path, label);
        lemma_at_push(shape, path, n);
        assert(arena_children(after.tree).dom() =~= arena_labels(after.tree).dom());
        assert(after.places@.dom() =~= arena_labels(after.tree).dom());
        assert(after.live(after.root_id));
        assert(after.places@[after.root_id] == Seq::<int>::empty());
        assert forall|id: NodeId| after.live(id) implies {
            &&& grown.has(#[trigger] after.places@[id])
            &&& after.node(id).label == arena_labels(after.tree)[id]
            &&& after.node(id).children.len() == after.kids(id).len()
        } by {
            if id != new_id {
                assert(before.live(id));
                assert(shape.has(before.places@[id]));
                lemma_grow_keeps(shape, path, label, before.places@[id]);
                if before.places@[id] == path {
                    assert(id == join);
                }
            }
        }
        assert forall|id: NodeId, i: int|
            after.live(id) && 0 <= i < after.kids(id).len() implies {
            &&& after.live(#[trigger] after.kids(id)[i])
            &&& after.places@[after.kids(id)[i]] == after.places@[id].push(i)
        } by {
            if id != new_id {
                if id == join && i == n {
                } else {
                    assert(before.kids(id)[i] == after.kids(id)[i]);
                    assert(before.live(before.kids(id)[i]));
                }
            }
        }
        assert forall|a: NodeId, b: NodeId|
            after.live(a) && after.live(b) && #[trigger] after.places@[a]
                == #[trigger] after.places@[b] implies a == b by {
            if a == new_id && b != new_id {
                assert(shape.has(before.places@[b]));
            }
            if b == new_id && a != new_id {
                assert(shape.has(before.places@[a]));
            }
        }
    }

    /// The children of a node, in order.
    fn children(&self, parent_id: NodeId) -> (nodes: Vec<NodeId>)
        requires
            self.linked(),
            self.live(parent_id),
        ensures
            nodes@ == self.kids(parent_id),
    {
        let mut nodes: Vec<NodeId> = Vec::new();
        let first = first_child(&self.tree, parent_id);
        if first.is_none() {
            return nodes;
        }
        let mut node_id = first.unwrap();
        loop
            invariant_except_break
                self.linked(),
                self.live(parent_id),
                nodes.len() < self.kids(parent_id).len(),
                nodes@ == self.kids(parent_id).take(nodes.len() as int),
                node_id == self.kids(parent_id)[nodes.len() as int],
            ensures
                nodes@ == self.kids(parent_id),
            decreases self.kids(parent_id).len() - nodes.len(),
        {
            let ghost at = nodes.len() as int;
            assert(self.live(self.kids(parent_id)[at]));
            nodes.push(node_id);
            assert(nodes@ == self.kids(parent_id).take(at + 1));
            match next_sibling(&self.tree, node_id) {
                Some(sibling) => {
                    node_id = sibling;
                },
                None => {
                    assert(self.kids(parent_id).take(at + 1) == self.kids(parent_id));
                    break ;
                },
            }
        }
        nodes
    }

    /// The first of a node's children that holds a segment.
    fn find_child(&self, children: &Vec<NodeId>, parent_id: NodeId, data: &String) -> (found:
        Option<usize>)
        requires
            self.linked(),
            self.live(parent_id),
            children@ == self.kids(parent_id),
        ensures
            match found {
                Some(k) => k < children.len() && self.node(parent_id).is_first_match(
                    data@,
                    k as int,
                ),
                None => !self.node(parent_id).has_child(data@),
            },
    {
        let mut k: usize = 0;
        while k < children.len()
            invariant
                self.linked(),
                self.live(parent_id),
                children@ == self.kids(parent_id),
                k <= children.len(),
                forall|j: int|
                    0 <= j < k ==> (#[trigger] self.node(parent_id).children[j]).label != data@,
            decreases children.len() - k,
        {
            proof {
                self.lemma_child_node(parent_id, k as int);
            }
            if *label(&self.tree, children[k]) == *data {
                return Some(k);
            }
            k = k + 1;
        }
        proof {
            assert(self.node(parent_id).children.len() == children.len());
        }
        None
    }

    /// The tree below the root as the text to print, one line for each node:
    /// see [`PathTree::render`]. The root's own segment is not part of it.
    pub fn print(&self) -> (text: String)
        requires
            self.wf(),
        ensures
            text@ == self@.render(Seq::empty()),
    {
        let mut text = String::new();
        proof {
            reveal_strlit("");
            assert(""@ == Seq::<char>::empty());
            assert(self.node(self.root_id) == self.shape@);
        }
        self.print_children(self.root_id, "", &mut text);
        assert(text@ == self.shape@.render(Seq::empty()));
        text
    }

    /// Appends the lines of everything below a node.
    fn print_children(&self, parent_id: NodeId, prefix: &str, text: &mut String)
        requires
            self.linked(),
            self.live(parent_id),
        ensures
            final(text)@ == old(text)@ + self.node(parent_id).render(prefix@),
        decreases self.node(parent_id).size(),
    {
        let children = self.children(parent_id);
        let n = children.len();
        let ghost below = self.node(parent_id).children;
        let mut k: usize = 0;
        while k < n
            invariant
                self.linked(),
                self.live(parent_id),
                children@ == self.kids(parent_id),
                below == self.node(parent_id).children,
                n == children.len(),
                n == below.len(),
                k <= n,
                old(text)@ + PathTree::render_from(below, 0, prefix@) == text@
                    + PathTree::render_from(below, k as int, prefix@),
            decreases n - k,
        {
            let child_id = children[k];
            let last = k + 1 == n;
            let ghost start = text@;
            proof {
                self.lemma_child_node(parent_id, k as int);
                lemma_child_smaller(self.node(parent_id), k as int);
            }
            let sibling = label(&self.tree, child_id);
            text.append(prefix);
            text.append(if last { "└── " } else { "├── " });
            text.append(sibling.as_str());
            text.append("\n");
            let mut new_prefix = String::from_str(prefix);
            new_prefix.append(if last { "     " } else { "│    " });
            self.print_children(child_id, new_prefix.as_str(), text);
            proof {
                reveal_strlit("\n");
                assert(text@ + PathTree::render_from(below, k + 1, prefix@) == start
                    + PathTree::render_from(below, k as int, prefix@));
            }
            k = k + 1;
        }
    }
}

} // verus!
