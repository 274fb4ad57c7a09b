//! The tree of path segments as a mathematical value: what insertion and
//! rendering mean, and what holds of them.

use vstd::prelude::*;

verus! {

/// A node of a tree of path segments: its segment and its children in the
/// order in which they were added.
pub struct PathTree {
    pub label: Seq<char>,
    pub children: Seq<PathTree>,
}

/// What is drawn in front of a child's segment: an elbow for the last child
/// of a node, a tee for every other.
pub open spec fn connector(last: bool) -> Seq<char> {
    if last {
        "└── "@
    } else {
        "├── "@
    }
}

/// What the lines below a child gain in front: blanks below the last child
/// of a node, a pipe below every other.
pub open spec fn continuation(last: bool) -> Seq<char> {
    if last {
        "     "@
    } else {
        "│    "@
    }
}

impl PathTree {
    /// A node without children.
    pub open spec fn leaf(label: Seq<char>) -> PathTree {
        PathTree { label, children: Seq::empty() }
    }

    /// This node with its child at `i` replaced.
    pub open spec fn with_child(self, i: int, child: PathTree) -> PathTree {
        PathTree { label: self.label, children: self.children.update(i, child) }
    }

    /// This node with one more child, behind the others.
    pub open spec fn with_new_child(self, child: PathTree) -> PathTree {
        PathTree { label: self.label, children: self.children.push(child) }
    }

    /// Some child holds the segment `label`.
    pub open spec fn has_child(self, label: Seq<char>) -> bool {
        exists|i: int| 0 <= i < self.children.len() && (#[trigger] self.children[i]).label == label
    }

    /// `i` is the first child that holds the segment `label`.
    pub open spec fn is_first_match(self, label: Seq<char>, i: int) -> bool {
        &&& 0 <= i < self.children.len()
        &&& self.children[i].label == label
        &&& forall|j: int| 0 <= j < i ==> (#[trigger] self.children[j]).label != label
    }

    /// The first child that holds the segment `label`, where there is one.
    pub open spec fn child_index(self, label: Seq<char>) -> int {
        choose|i: int| self.is_first_match(label, i)
    }

    /// The tree after a path was inserted below this node: each segment in
    /// turn goes to the child that already holds it, or to a new last child.
    pub open spec fn insert(self, segs: Seq<Seq<char>>) -> PathTree
        decreases segs.len(),
    {
        if segs.len() == 0 {
            self
        } else if self.has_child(segs[0]) {
            let i = self.child_index(segs[0]);
            self.with_child(i, self.children[i].insert(segs.drop_first()))
        } else {
            self.with_new_child(PathTree::leaf(segs[0]).insert(segs.drop_first()))
        }
    }

    /// No two children of one node hold the same segment, anywhere in the tree.
    pub open spec fn distinct(self) -> bool
        decreases self,
    {
        &&& forall|i: int, j: int|
            0 <= i < j < self.children.len() ==> (#[trigger] self.children[i]).label != (
            #[trigger] self.children[j]).label
        &&& forall|i: int|
            0 <= i < self.children.len() ==> (#[trigger] self.children[i]).distinct()
    }

    /// The lines of everything below this node, depth first and in the
    /// children's order. Each line ends with a line feed; `prefix` stands in
    /// front of each. The node's own segment is not part of it.
    pub open spec fn render(self, prefix: Seq<char>) -> Seq<char>
        decreases self, 1nat,
    {
        Self::render_from(self.children, 0, prefix)
    }

    /// The lines of the children from `k` on, each followed by what is below it.
    pub open spec fn render_from(children: Seq<PathTree>, k: int, prefix: Seq<char>) -> Seq<char>
        decreases children, children.len() - k,
    {
        if 0 <= k < children.len() {
            let last = k == children.len() - 1;
            prefix + connector(last) + children[k].label + seq!['\n'] + children[k].render(
                prefix + continuation(last),
            ) + Self::render_from(children, k + 1, prefix)
        } else {
            Seq::empty()
        }
    }

    /// Number of nodes.
    pub open spec fn size(self) -> nat
        decreases self, 1nat,
    {
        1 + Self::size_from(self.children, 0)
    }

    /// Number of nodes in the children from `k` on.
    pub open spec fn size_from(children: Seq<PathTree>, k: int) -> nat
        decreases children, children.len() - k,
    {
        if 0 <= k < children.len() {
            children[k].size() + Self::size_from(children, k + 1)
        } else {
            0
        }
    }

    /// The tree has a node at `path`, a sequence of child indices from here.
    pub open spec fn has(self, path: Seq<int>) -> bool
        decreases path.len(),
    {
        path.len() == 0 || (0 <= path[0] < self.children.len() && self.children[path[0]].has(
            path.drop_first(),
        ))
    }

    /// The node at `path`.
    pub open spec fn at(self, path: Seq<int>) -> PathTree
        decreases path.len(),
    {
        if path.len() == 0 {
            self
        } else {
            self.children[path[0]].at(path.drop_first())
        }
    }

    /// The tree with the node at `path` replaced by `sub`.
    pub open spec fn graft(self, path: Seq<int>, sub: PathTree) -> PathTree
        decreases path.len(),
    {
        if path.len() == 0 {
            sub
        } else {
            self.with_child(path[0], self.children[path[0]].graft(path.drop_first(), sub))
        }
    }

    /// The tree with a new leaf as the last child of the node at `path`.
    pub open spec fn grow(self, path: Seq<int>, label: Seq<char>) -> PathTree {
        self.graft(path, self.at(path).with_new_child(PathTree::leaf(label)))
    }
}

/// Only one child is the first to hold a segment.
pub proof fn lemma_first_match(t: PathTree, label: Seq<char>, i: int)
    requires
        t.is_first_match(label, i),
    ensures
        t.has_child(label),
        t.child_index(label) == i,
{
    let c = t.child_index(label);
    assert(t.is_first_match(label, c));
    if c < i {
        assert(t.children[c].label != label);
    }
    if i < c {
        assert(t.children[i].label != label);
    }
}

/// Where some child holds a segment, one of them is the first.
pub proof fn lemma_has_first_match(t: PathTree, label: Seq<char>)
    requires
        t.has_child(label),
    ensures
        t.is_first_match(label, t.child_index(label)),
{
    let w = choose|i: int| 0 <= i < t.children.len() && (#[trigger] t.children[i]).label == label;
    lemma_first_match_below(t, label, w);
}

proof fn lemma_first_match_below(t: PathTree, label: Seq<char>, w: int)
    requires
        0 <= w < t.children.len(),
        t.children[w].label == label,
    ensures
        exists|i: int| t.is_first_match(label, i),
    decreases w,
{
    if exists|j: int| 0 <= j < w && (#[trigger] t.children[j]).label == label {
        let j = choose|j: int| 0 <= j < w && (#[trigger] t.children[j]).label == label;
        lemma_first_match_below(t, label, j);
    } else {
        assert(t.is_first_match(label, w));
    }
}

/// Insertion leaves the segment of the node it starts at as it was.
pub proof fn lemma_insert_label(t: PathTree, segs: Seq<Seq<char>>)
    ensures
        t.insert(segs).label == t.label,
{
}

/// A child has fewer nodes than its parent.
pub proof fn lemma_child_smaller(t: PathTree, k: int)
    requires
        0 <= k < t.children.len(),
    ensures
        t.children[k].size() < t.size(),
{
    lemma_size_from(t.children, 0, k);
}

proof fn lemma_size_from(children: Seq<PathTree>, from: int, k: int)
    requires
        0 <= from <= k < children.len(),
    ensures
        children[k].size() <= PathTree::size_from(children, from),
    decreases k - from,
{
    if from < k {
        lemma_size_from(children, from + 1, k);
    }
}

/// A path one step longer leads to a child of the node at the path.
pub proof fn lemma_at_push(t: PathTree, path: Seq<int>, i: int)
    requires
        t.has(path),
    ensures
        t.has(path.push(i)) <==> 0 <= i < t.at(path).children.len(),
        t.has(path.push(i)) ==> t.at(path.push(i)) == t.at(path).children[i],
    decreases path.len(),
{
    let longer = path.push(i);
    if path.len() == 0 {
        assert(longer.drop_first() == Seq::<int>::empty());
        assert(longer[0] == i);
        if 0 <= i < t.children.len() {
            assert(t.children[i].has(longer.drop_first()));
            assert(t.children[i].at(longer.drop_first()) == t.children[i]);
        }
    } else {
        assert(longer.drop_first() == path.drop_first().push(i));
        assert(longer[0] == path[0]);
        lemma_at_push(t.children[path[0]], path.drop_first(), i);
    }
}

/// Putting a node back where it was changes nothing.
pub proof fn lemma_graft_same(t: PathTree, path: Seq<int>)
    requires
        t.has(path),
    ensures
        t.graft(path, t.at(path)) == t,
    decreases path.len(),
{
    if path.len() > 0 {
        lemma_graft_same(t.children[path[0]], path.drop_first());
        assert(t.children.update(path[0], t.children[path[0]]) == t.children);
    }
}

/// After a graft the new node is where it was put.
pub proof fn lemma_at_graft(t: PathTree, path: Seq<int>, sub: PathTree)
    requires
        t.has(path),
    ensures
        t.graft(path, sub).has(path),
        t.graft(path, sub).at(path) == sub,
    decreases path.len(),
{
    if path.len() > 0 {
        lemma_at_graft(t.children[path[0]], path.drop_first(), sub);
    }
}

/// Of two grafts at one place the second one stays.
pub proof fn lemma_graft_twice(t: PathTree, path: Seq<int>, a: PathTree, b: PathTree)
    requires
        t.has(path),
    ensures
        t.graft(path, a).graft(path, b) == t.graft(path, b),
    decreases path.len(),
{
    if path.len() > 0 {
        let h = path[0];
        lemma_graft_twice(t.children[h], path.drop_first(), a, b);
        let mid = t.children[h].graft(path.drop_first(), a);
        let end = t.children[h].graft(path.drop_first(), b);
        assert(t.children.update(h, mid).update(h, end) == t.children.update(h, end));
    }
}

/// Replacing a child of the node at a path is a graft one step further down.
pub proof fn lemma_graft_child(t: PathTree, path: Seq<int>, i: int, sub: PathTree)
    requires
        t.has(path),
        0 <= i < t.at(path).children.len(),
    ensures
        t.graft(path, t.at(path).with_child(i, sub)) == t.graft(path.push(i), sub),
    decreases path.len(),
{
    let longer = path.push(i);
    if path.len() == 0 {
        assert(longer.drop_first() == Seq::<int>::empty());
        assert(longer[0] == i);
        assert(t.children[i].graft(longer.drop_first(), sub) == sub);
    } else {
        assert(longer.drop_first() == path.drop_first().push(i));
        assert(longer[0] == path[0]);
        lemma_graft_child(t.children[path[0]], path.drop_first(), i, sub);
    }
}

/// What a new leaf below the node at `path` changes for the node at `other`:
/// nothing but the number of children of the node at `path` itself.
pub proof fn lemma_grow_keeps(t: PathTree, path: Seq<int>, label: Seq<char>, other: Seq<int>)
    requires
        t.has(path),
        t.has(other),
    ensures
        t.grow(path, label).has(other),
        t.grow(path, label).at(other).label == t.at(other).label,
        t.grow(path, label).at(other).children.len() == t.at(other).children.len() + (if other
            == path {
            1int
        } else {
            0int
        }),
    decreases path.len(),
{
    let grown = t.grow(path, label);
    if path.len() == 0 {
        if other.len() > 0 {
            assert(grown.children[other[0]] == t.children[other[0]]);
        } else {
            assert(other == path);
        }
    } else {
        let h = path[0];
        let below = t.children[h];
        assert(grown == t.with_child(h, below.grow(path.drop_first(), label)));
        if other.len() > 0 {
            if other[0] == h {
                lemma_grow_keeps(below, path.drop_first(), label, other.drop_first());
                if other.drop_first() == path.drop_first() {
                    assert forall|k: int| 0 <= k < other.len() implies other[k] == path[k] by {
                        if k > 0 {
                            assert(other[k] == other.drop_first()[k - 1]);
                            assert(path[k] == path.drop_first()[k - 1]);
                        }
                    }
                    assert(other == path);
                }
            } else {
                assert(grown.children[other[0]] == t.children[other[0]]);
            }
        }
    }
}

/// A new leaf below the node at `path` is its last child.
pub proof fn lemma_grow_adds(t: PathTree, path: Seq<int>, label: Seq<char>)
    requires
        t.has(path),
    ensures
        t.grow(path, label).has(path.push(t.at(path).children.len() as int)),
        t.grow(path, label).at(path.push(t.at(path).children.len() as int)) == PathTree::leaf(
            label,
        ),
{
    let n = t.at(path).children.len() as int;
    let grown = t.grow(path, label);
    lemma_at_graft(t, path, t.at(path).with_new_child(PathTree::leaf(label)));
    lemma_at_push(grown, path, n);
}

/// Inserting a path a second time changes nothing: the tree is the same, and
/// so is what is drawn of it.
pub proof fn lemma_insert_idempotent(t: PathTree, segs: Seq<Seq<char>>)
    ensures
        t.insert(segs).insert(segs) == t.insert(segs),
        forall|prefix: Seq<char>|
            #[trigger] t.insert(segs).insert(segs).render(prefix) == t.insert(segs).render(prefix),
    decreases segs.len(),
{
    if segs.len() > 0 {
        let head = segs[0];
        let tail = segs.drop_first();
        let once = t.insert(segs);
        if t.has_child(head) {
            lemma_has_first_match(t, head);
            let i = t.child_index(head);
            let child = t.children[i];
            lemma_insert_label(child, tail);
            assert(once.children[i] == child.insert(tail));
            assert forall|j: int| 0 <= j < i implies (#[trigger] once.children[j]).label
                != head by {
                assert(once.children[j] == t.children[j]);
            }
            assert(once.is_first_match(head, i));
            lemma_first_match(once, head, i);
            lemma_insert_idempotent(child, tail);
            assert(once.children.update(i, child.insert(tail)) == once.children);
        } else {
            let n = t.children.len() as int;
            let added = PathTree::leaf(head).insert(tail);
            lemma_insert_label(PathTree::leaf(head), tail);
            assert(once.children[n] == added);
            assert forall|j: int| 0 <= j < n implies (#[trigger] once.children[j]).label
                != head by {
                assert(once.children[j] == t.children[j]);
            }
            assert(once.is_first_match(head, n));
            lemma_first_match(once, head, n);
            lemma_insert_idempotent(PathTree::leaf(head), tail);
            assert(once.children.update(n, added) == once.children);
        }
    }
}

/// Insertion keeps the segments of the children of every node distinct.
pub proof fn lemma_insert_distinct(t: PathTree, segs: Seq<Seq<char>>)
    requires
        t.distinct(),
    ensures
        t.insert(segs).distinct(),
    decreases segs.len(),
{
    if segs.len() > 0 {
        let head = segs[0];
        let tail = segs.drop_first();
        let after = t.insert(segs);
        if t.has_child(head) {
            lemma_has_first_match(t, head);
            let i = t.child_index(head);
            let child = t.children[i];
            lemma_insert_label(child, tail);
            lemma_insert_distinct(child, tail);
            assert forall|j: int| 0 <= j < after.children.len() implies (
            #[trigger] after.children[j]).label == t.children[j].label && after.children[j].distinct() by {
                if j != i {
                    assert(after.children[j] == t.children[j]);
                }
            }
        } else {
            let n = t.children.len() as int;
            let added = PathTree::leaf(head).insert(tail);
            lemma_insert_label(PathTree::leaf(head), tail);
            lemma_insert_distinct(PathTree::leaf(head), tail);
            assert forall|j: int| 0 <= j < n implies (#[trigger] after.children[j])
                == t.children[j] by {}
            assert(after.children[n] == added);
            assert forall|a: int, b: int| 0 <= a < b < after.children.len() implies (
            #[trigger] after.children[a]).label != (#[trigger] after.children[b]).label by {
                if b == n {
                    assert(t.children[a].label != head);
                }
            }
        }
    }
}

} // verus!
