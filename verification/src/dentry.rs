//! The dentry tree: the namespace of the filesystem. Nodes live in a table
//! and are named by their position in it, which never changes. A node owns
//! its inode and the list of its children; its parent is held only as a
//! position, which is looked up again on every use and may point at a node
//! that is gone.

use crate::abstracts::{DentryOp, DentryTrait};
use crate::error::Error;
use crate::inode::{fresh_metadata, Inode};
use crate::metadata::FileType;
use crate::DEFAULT_INODE_ID;
use vstd::prelude::*;
use vstd::string::*;

verus! {

/// One node of the tree, without its inode.
pub struct DentryView {
    /// The node's own path segment.
    pub endpoint: Seq<char>,
    /// The position of the parent; `None` for the root.
    pub parent: Option<usize>,
    /// The positions of the children, in the order in which they were
    /// created.
    pub children: Seq<usize>,
    /// `false` once the node has been removed.
    pub live: bool,
}

/// The tree as a table of nodes. Position 0 is the root.
pub struct TreeView {
    /// Every node that was ever created, removed ones included.
    pub nodes: Seq<DentryView>,
}

/// The endpoint of the root, and the separator of path segments.
pub open spec fn slash() -> Seq<char> {
    seq!['/']
}

/// The endpoint that names the parent in `change`.
pub open spec fn dot_dot() -> Seq<char> {
    seq!['.', '.']
}

impl TreeView {
    /// A tree that holds only the root.
    pub open spec fn root_only() -> TreeView {
        TreeView {
            nodes: seq![
                DentryView { endpoint: slash(), parent: None, children: Seq::empty(), live: true },
            ],
        }
    }

    /// Whether `id` is a node that has not been removed.
    pub open spec fn is_live(self, id: int) -> bool {
        0 <= id < self.nodes.len() && self.nodes[id].live
    }

    /// Whether the child at place `k` in the list of `parent` is called
    /// `name`.
    pub open spec fn child_at(self, parent: int, name: Seq<char>, k: int) -> bool {
        &&& 0 <= k < self.nodes[parent].children.len()
        &&& self.nodes[self.nodes[parent].children[k] as int].endpoint == name
    }

    /// Whether `parent` has a child called `name`.
    pub open spec fn has_child(self, parent: int, name: Seq<char>) -> bool {
        exists|k: int| self.child_at(parent, name, k)
    }

    /// The place of the child called `name` in the list of `parent`.
    pub open spec fn child_place(self, parent: int, name: Seq<char>) -> int {
        choose|k: int| self.child_at(parent, name, k)
    }

    /// The child of `parent` that is called `name`.
    pub open spec fn child(self, parent: int, name: Seq<char>) -> usize {
        self.nodes[parent].children[self.child_place(parent, name)]
    }

    /// The endpoints of the children of `id`, in the order of their
    /// creation.
    pub open spec fn list(self, id: int) -> Seq<Seq<char>> {
        Seq::new(
            self.nodes[id].children.len(),
            |k: int| self.nodes[self.nodes[id].children[k] as int].endpoint,
        )
    }

    /// The path of `id` without the leading root: empty for the root, else
    /// the path of the parent, a slash and the node's endpoint. A parent
    /// that is gone counts as the top of the path.
    pub open spec fn rel_path(self, id: int) -> Seq<char>
        decreases id,
    {
        match self.nodes[id].parent {
            None => Seq::empty(),
            Some(p) => if 0 <= p < id && self.is_live(p as int) {
                self.rel_path(p as int) + slash() + self.nodes[id].endpoint
            } else {
                slash() + self.nodes[id].endpoint
            },
        }
    }

    /// The absolute path of `id`: `/` for the root, else every endpoint from
    /// below the root down to the node, each after a slash.
    pub open spec fn abs_path(self, id: int) -> Seq<char> {
        if self.rel_path(id).len() == 0 {
            slash()
        } else {
            self.rel_path(id)
        }
    }

    /// The parent of a node other than the root lies before it in the table.
    pub open spec fn parent_ok(self, id: int) -> bool {
        match self.nodes[id].parent {
            None => false,
            Some(p) => p < id,
        }
    }

    /// `child` is a live node whose parent is `id`.
    pub open spec fn child_link_ok(self, id: int, child: usize) -> bool {
        &&& child < self.nodes.len()
        &&& self.nodes[child as int].live
        &&& self.nodes[child as int].parent == Some(id as usize)
    }

    /// The list of children of `id` holds live children of `id`, none of
    /// them twice and no two with the same endpoint; a removed node has
    /// none.
    pub open spec fn children_ok(self, id: int) -> bool {
        let children = self.nodes[id].children;
        &&& !self.nodes[id].live ==> children.len() == 0
        &&& forall|k: int|
            0 <= k < children.len() ==> self.child_link_ok(id, #[trigger] children[k])
        &&& forall|k: int, l: int|
            0 <= k < l < children.len() ==> (#[trigger] children[k]) != (#[trigger] children[l])
                && self.nodes[children[k] as int].endpoint
                != self.nodes[children[l] as int].endpoint
    }

    /// A live node other than the root hangs in the list of a live parent.
    pub open spec fn attached(self, id: int) -> bool {
        match self.nodes[id].parent {
            None => false,
            Some(p) => self.is_live(p as int) && self.nodes[p as int].children.contains(
                id as usize,
            ),
        }
    }

    /// The invariant of the tree. The root is live, has no parent and is
    /// called `/`. Every other node has its parent before it. Lists of
    /// children are sound, and every live node is reached from the root.
    pub open spec fn well_formed(self) -> bool {
        &&& self.nodes.len() > 0
        &&& self.nodes.len() <= usize::MAX
        &&& self.nodes[0].parent is None
        &&& self.nodes[0].live
        &&& self.nodes[0].endpoint == slash()
        &&& forall|i: int| 0 < i < self.nodes.len() ==> #[trigger] self.parent_ok(i)
        &&& forall|i: int| 0 <= i < self.nodes.len() ==> #[trigger] self.children_ok(i)
        &&& forall|i: int|
            0 < i < self.nodes.len() && self.nodes[i].live ==> #[trigger] self.attached(i)
    }

    /// The tree after `create`: a new live node called `name` at the end of
    /// the table, and at the end of the list of `parent`.
    pub open spec fn create(self, parent: int, name: Seq<char>) -> TreeView {
        let id = self.nodes.len() as usize;
        let above = self.nodes[parent];
        TreeView {
            nodes: self.nodes.update(
                parent,
                DentryView { children: above.children.push(id), ..above },
            ).push(
                DentryView {
                    endpoint: name,
                    parent: Some(parent as usize),
                    children: Seq::empty(),
                    live: true,
                },
            ),
        }
    }

    /// The tree after `remove`: the child called `name` is taken out of the
    /// list of `parent` and marked as removed. It keeps its place in the
    /// table, and its own record of who its parent was.
    pub open spec fn remove(self, parent: int, name: Seq<char>) -> TreeView {
        let place = self.child_place(parent, name);
        let gone = self.child(parent, name) as int;
        let above = self.nodes[parent];
        TreeView {
            nodes: self.nodes.update(
                parent,
                DentryView { children: above.children.remove(place), ..above },
            ).update(gone, DentryView { live: false, ..self.nodes[gone] }),
        }
    }

    /// The tree after `rename`: the child of `parent` called `from` is
    /// called `to`.
    pub open spec fn rename(self, parent: int, from: Seq<char>, to: Seq<char>) -> TreeView {
        let renamed = self.child(parent, from) as int;
        TreeView {
            nodes: self.nodes.update(
                renamed,
                DentryView { endpoint: to, ..self.nodes[renamed] },
            ),
        }
    }

    /// Where `change` leads from `cursor`: `/` to the root, whatever the
    /// cursor is; from a live cursor `..` to the parent and any other
    /// endpoint to the child of that name.
    pub open spec fn change(self, cursor: int, endpoint: Seq<char>) -> Result<usize, Error> {
        if endpoint == slash() {
            Ok(0usize)
        } else if !self.is_live(cursor) {
            Err(Error::NotFound)
        } else if endpoint == dot_dot() {
            match self.nodes[cursor].parent {
                None => Err(Error::NoParent),
                Some(p) => if self.is_live(p as int) {
                    Ok(p)
                } else {
                    Err(Error::NoParent)
                },
            }
        } else if self.has_child(cursor, endpoint) {
            Ok(self.child(cursor, endpoint))
        } else {
            Err(Error::NotFound)
        }
    }

    /// One step of a walk: from the node that the walk has reached, or the
    /// error it has met, over one path segment. An empty segment leads
    /// nowhere.
    pub open spec fn step(self, at: Result<usize, Error>, segment: Seq<char>) -> Result<
        usize,
        Error,
    > {
        if segment.len() == 0 {
            at
        } else {
            match at {
                Ok(id) => self.change(id as int, segment),
                Err(e) => Err(e),
            }
        }
    }

    /// Where a walk ends that has reached `at`, has read `segment` of the
    /// segment at hand, and still has `rest` to read. A slash ends the
    /// segment at hand, which is then walked over as `change` does.
    pub open spec fn walk(self, at: Result<usize, Error>, segment: Seq<char>, rest: Seq<char>)
        -> Result<usize, Error>
        decreases rest.len(),
    {
        if rest.len() == 0 {
            self.step(at, segment)
        } else if rest[0] == '/' {
            self.walk(self.step(at, segment), Seq::empty(), rest.drop_first())
        } else {
            self.walk(at, segment.push(rest[0]), rest.drop_first())
        }
    }

    /// Where `path` leads from `cursor`. A path that begins with a slash
    /// starts at the root, whatever the cursor is, any other at `cursor`,
    /// which then has to be live; its segments, the runs
    /// of characters between slashes, are walked over in turn, each as
    /// `change` does. Empty segments count for nothing, so the empty path
    /// leads to `cursor` itself.
    pub open spec fn resolve(self, cursor: int, path: Seq<char>) -> Result<usize, Error> {
        if path.len() > 0 && path[0] == '/' {
            self.walk(Ok(0usize), Seq::empty(), path)
        } else if !self.is_live(cursor) {
            Err(Error::NotFound)
        } else {
            self.walk(Ok(cursor as usize), Seq::empty(), path)
        }
    }

    /// The path `/` leads to the root, whatever the cursor is.
    pub proof fn lemma_resolve_root(self, cursor: int)
        ensures
            self.resolve(cursor, slash()) == Ok::<usize, Error>(0usize),
            self.change(cursor, slash()) == Ok::<usize, Error>(0usize),
    {
        let path = slash();
        assert(path.drop_first() =~= Seq::<char>::empty());
        assert(self.walk(Ok(0usize), Seq::empty(), path) == self.walk(
            self.step(Ok(0usize), Seq::empty()),
            Seq::empty(),
            path.drop_first(),
        ));
    }

    /// A walk that has met an error ends with that error.
    pub proof fn lemma_walk_error(self, e: Error, segment: Seq<char>, rest: Seq<char>)
        ensures
            self.walk(Err(e), segment, rest) == Err::<usize, Error>(e),
        decreases rest.len(),
    {
        if rest.len() > 0 {
            if rest[0] == '/' {
                self.lemma_walk_error(e, Seq::empty(), rest.drop_first());
            } else {
                self.lemma_walk_error(e, segment.push(rest[0]), rest.drop_first());
            }
        }
    }

    /// A path of one segment without a slash leads where `change` leads.
    pub proof fn lemma_resolve_one_segment(self, cursor: int, endpoint: Seq<char>)
        requires
            self.well_formed(),
            self.is_live(cursor),
            endpoint.len() > 0,
            forall|i: int| 0 <= i < endpoint.len() ==> endpoint[i] != '/',
        ensures
            self.resolve(cursor, endpoint) == self.change(cursor, endpoint),
    {
        self.lemma_walk_plain(Ok(cursor as usize), Seq::empty(), endpoint);
        assert(Seq::<char>::empty() + endpoint =~= endpoint);
        assert(endpoint[0] != '/');
    }

    /// Reading characters that are no slashes only adds them to the segment
    /// at hand.
    pub proof fn lemma_walk_plain(
        self,
        at: Result<usize, Error>,
        segment: Seq<char>,
        rest: Seq<char>,
    )
        requires
            forall|i: int| 0 <= i < rest.len() ==> rest[i] != '/',
        ensures
            self.walk(at, segment, rest) == self.step(at, segment + rest),
        decreases rest.len(),
    {
        if rest.len() == 0 {
            assert(segment + rest =~= segment);
        } else {
            assert forall|i: int| 0 <= i < rest.drop_first().len() implies rest.drop_first()[i]
                != '/' by {
                assert(rest.drop_first()[i] == rest[i + 1]);
            }
            self.lemma_walk_plain(at, segment.push(rest[0]), rest.drop_first());
            assert(segment.push(rest[0]) + rest.drop_first() =~= segment + rest);
        }
    }

    /// Whether `name` is a plain endpoint: not empty, not `..`, and without
    /// a slash.
    pub open spec fn plain(name: Seq<char>) -> bool {
        &&& name.len() > 0
        &&& name != dot_dot()
        &&& forall|i: int| 0 <= i < name.len() ==> name[i] != '/'
    }

    /// Whether every live node but the root has a plain endpoint.
    pub open spec fn plain_names(self) -> bool {
        forall|i: int|
            0 < i < self.nodes.len() && self.nodes[i].live ==> Self::plain(
                #[trigger] self.nodes[i].endpoint,
            )
    }

    /// Reading a run of characters that are no slashes adds them to the
    /// segment at hand.
    pub proof fn lemma_walk_run(
        self,
        at: Result<usize, Error>,
        segment: Seq<char>,
        run: Seq<char>,
        rest: Seq<char>,
    )
        requires
            forall|i: int| 0 <= i < run.len() ==> run[i] != '/',
        ensures
            self.walk(at, segment, run + rest) == self.walk(at, segment + run, rest),
        decreases run.len(),
    {
        if run.len() == 0 {
            assert(run + rest =~= rest);
            assert(segment + run =~= segment);
        } else {
            let all = run + rest;
            assert(all[0] == run[0]);
            assert(all.drop_first() =~= run.drop_first() + rest);
            assert forall|i: int| 0 <= i < run.drop_first().len() implies run.drop_first()[i]
                != '/' by {
                assert(run.drop_first()[i] == run[i + 1]);
            }
            self.lemma_walk_run(at, segment.push(run[0]), run.drop_first(), rest);
            assert(segment.push(run[0]) + run.drop_first() =~= segment + run);
        }
    }

    /// Where every name is plain, a walk from the root along the path of a
    /// live node arrives at that node, and goes on from there.
    pub proof fn lemma_walk_path(self, id: int, rest: Seq<char>)
        requires
            self.well_formed(),
            self.plain_names(),
            self.is_live(id),
            rest.len() == 0 || rest[0] == '/',
        ensures
            self.walk(Ok(0usize), Seq::empty(), self.rel_path(id) + rest) == self.walk(
                Ok(id as usize),
                Seq::empty(),
                rest,
            ),
            id > 0 ==> self.rel_path(id).len() > 0 && self.rel_path(id)[0] == '/',
        decreases id,
    {
        if id == 0 {
            assert(self.rel_path(0) + rest =~= rest);
        } else {
            assert(self.parent_ok(id));
            assert(self.attached(id));
            let p = self.nodes[id].parent->Some_0 as int;
            let e = self.nodes[id].endpoint;
            assert(Self::plain(e));
            let tail = slash() + e + rest;
            self.lemma_walk_path(p, tail);
            assert(self.rel_path(id) + rest =~= self.rel_path(p) + tail);
            // The slash ends the empty segment at hand.
            assert(tail.drop_first() =~= e + rest);
            assert(self.walk(Ok(p as usize), Seq::empty(), tail) == self.walk(
                Ok(p as usize),
                Seq::empty(),
                e + rest,
            ));
            // The endpoint is read into the segment at hand.
            self.lemma_walk_run(Ok(p as usize), Seq::empty(), e, rest);
            assert(Seq::<char>::empty() + e =~= e);
            // The segment leads from the parent to the node.
            let k = choose|k: int|
                0 <= k < self.nodes[p].children.len() && self.nodes[p].children[k] == id as usize;
            assert(self.child_at(p, e, k));
            self.lemma_child_unique(p, e, k);
            assert(e[0] != '/');
            assert(e != slash());
            assert(self.change(p, e) == Ok::<usize, Error>(id as usize));
            assert(self.step(Ok(p as usize), e) == Ok::<usize, Error>(id as usize));
            if rest.len() == 0 {
                assert(self.walk(Ok(p as usize), e, rest) == self.step(Ok(p as usize), e));
                assert(self.walk(Ok(id as usize), Seq::empty(), rest) == Ok::<usize, Error>(
                    id as usize,
                ));
            } else {
                assert(self.walk(Ok(p as usize), e, rest) == self.walk(
                    Ok(id as usize),
                    Seq::empty(),
                    rest.drop_first(),
                ));
                assert(self.walk(Ok(id as usize), Seq::empty(), rest) == self.walk(
                    self.step(Ok(id as usize), Seq::empty()),
                    Seq::empty(),
                    rest.drop_first(),
                ));
            }
            assert(self.rel_path(id)[0] == '/') by {
                if self.rel_path(p).len() == 0 {
                    assert(self.rel_path(id) =~= slash() + e);
                } else {
                    assert(self.rel_path(id)[0] == self.rel_path(p)[0]);
                }
            }
        }
    }

    /// Where every name is plain, the absolute path of a live node leads
    /// back to the node, from wherever the walk starts: resolving is the
    /// inverse of `get_abspath`.
    pub proof fn lemma_resolve_abs_path(self, cursor: int, id: int)
        requires
            self.well_formed(),
            self.plain_names(),
            self.is_live(id),
        ensures
            self.resolve(cursor, self.abs_path(id)) == Ok::<usize, Error>(id as usize),
    {
        self.lemma_walk_path(id, Seq::empty());
        assert(self.rel_path(id) + Seq::<char>::empty() =~= self.rel_path(id));
        if id == 0 {
            assert(self.rel_path(0) =~= Seq::<char>::empty());
            let path = slash();
            assert(path.drop_first() =~= Seq::<char>::empty());
            assert(self.walk(Ok(0usize), Seq::empty(), path) == self.walk(
                self.step(Ok(0usize), Seq::empty()),
                Seq::empty(),
                path.drop_first(),
            ));
        } else {
            assert(self.walk(Ok(id as usize), Seq::empty(), Seq::empty()) == Ok::<usize, Error>(
                id as usize,
            ));
        }
    }

    /// In a well-formed tree the child of a given name is the only one of
    /// that name: any place that holds the name is the place.
    pub proof fn lemma_child_unique(self, parent: int, name: Seq<char>, k: int)
        requires
            self.well_formed(),
            0 <= parent < self.nodes.len(),
            self.child_at(parent, name, k),
        ensures
            self.has_child(parent, name),
            self.child_place(parent, name) == k,
            self.child(parent, name) == self.nodes[parent].children[k],
            self.child_link_ok(parent, self.child(parent, name)),
            parent < self.child(parent, name) < self.nodes.len(),
    {
        let place = self.child_place(parent, name);
        assert(self.child_at(parent, name, place));
        assert(self.children_ok(parent));
        let children = self.nodes[parent].children;
        if place < k {
            assert(children[place] != children[k]);
        } else if k < place {
            assert(children[k] != children[place]);
        }
        assert(self.child_link_ok(parent, children[k]));
        assert(self.parent_ok(children[k] as int));
    }

    /// Creating a child under a live node that has none of that name keeps
    /// the tree well formed, and the new child is the one found under the
    /// name.
    pub proof fn lemma_create_well_formed(self, parent: int, name: Seq<char>)
        requires
            self.well_formed(),
            self.nodes.len() < usize::MAX,
            self.is_live(parent),
            !self.has_child(parent, name),
        ensures
            self.create(parent, name).well_formed(),
            self.create(parent, name).nodes.len() == self.nodes.len() + 1,
            self.create(parent, name).is_live(self.nodes.len() as int),
            self.create(parent, name).has_child(parent, name),
            self.create(parent, name).child(parent, name) == self.nodes.len(),
    {
        let after = self.create(parent, name);
        let id = self.nodes.len() as int;
        assert(after.nodes[id].live);
        assert forall|i: int| 0 < i < after.nodes.len() implies #[trigger] after.parent_ok(i) by {
            if i < id {
                assert(self.parent_ok(i));
            }
        }
        assert forall|i: int| 0 <= i < after.nodes.len() implies #[trigger] after.children_ok(
            i,
        ) by {
            let children = after.nodes[i].children;
            if i < id {
                assert(self.children_ok(i));
                let before = self.nodes[i].children;
                assert forall|k: int| 0 <= k < children.len() implies after.child_link_ok(
                    i,
                    #[trigger] children[k],
                ) by {
                    if k < before.len() {
                        assert(self.child_link_ok(i, before[k]));
                    }
                }
                assert forall|k: int, l: int| 0 <= k < l < children.len() implies (
                #[trigger] children[k]) != (#[trigger] children[l])
                    && after.nodes[children[k] as int].endpoint
                    != after.nodes[children[l] as int].endpoint by {
                    assert(self.child_link_ok(i, before[k]));
                    if l < before.len() {
                        assert(self.child_link_ok(i, before[l]));
                        assert(before[k] != before[l]);
                    } else {
                        assert(!self.child_at(parent, name, k));
                    }
                }
            }
        }
        assert forall|i: int| 0 < i < after.nodes.len() && after.nodes[i].live implies
            #[trigger] after.attached(i) by {
            if i < id {
                assert(self.attached(i));
                let p = self.nodes[i].parent->Some_0 as int;
                let k = choose|k: int|
                    0 <= k < self.nodes[p].children.len()
                        && self.nodes[p].children[k] == i as usize;
                assert(after.nodes[p].children[k] == i as usize);
            } else {
                assert(after.nodes[parent].children[self.nodes[parent].children.len() as int]
                    == id as usize);
            }
        }
        let place = self.nodes[parent].children.len() as int;
        assert(after.child_at(parent, name, place));
        after.lemma_child_unique(parent, name, place);
    }

    /// Removing a child that has no children of its own keeps the tree well
    /// formed; the name is free afterwards and the child is no longer live.
    pub proof fn lemma_remove_well_formed(self, parent: int, name: Seq<char>)
        requires
            self.well_formed(),
            self.is_live(parent),
            self.has_child(parent, name),
            self.nodes[self.child(parent, name) as int].children.len() == 0,
        ensures
            self.remove(parent, name).well_formed(),
            self.remove(parent, name).nodes.len() == self.nodes.len(),
            !self.remove(parent, name).has_child(parent, name),
            !self.remove(parent, name).is_live(self.child(parent, name) as int),
            self.remove(parent, name).is_live(parent),
    {
        let after = self.remove(parent, name);
        let place = self.child_place(parent, name);
        let gone = self.child(parent, name) as int;
        assert(self.child_at(parent, name, place));
        self.lemma_child_unique(parent, name, place);
        let old_children = self.nodes[parent].children;
        let new_children = old_children.remove(place);
        assert(after.nodes[parent].children == new_children);
        assert(self.children_ok(parent));
        assert forall|i: int| 0 < i < after.nodes.len() implies #[trigger] after.parent_ok(i) by {
            assert(self.parent_ok(i));
        }
        assert forall|i: int| 0 <= i < after.nodes.len() implies #[trigger] after.children_ok(
            i,
        ) by {
            assert(self.children_ok(i));
            let children = after.nodes[i].children;
            if i == parent {
                assert forall|k: int| 0 <= k < children.len() implies after.child_link_ok(
                    i,
                    #[trigger] children[k],
                ) by {
                    let from = if k < place {
                        k
                    } else {
                        k + 1
                    };
                    assert(children[k] == old_children[from]);
                    assert(self.child_link_ok(i, old_children[from]));
                    if from < place {
                        assert(old_children[from] != old_children[place]);
                    } else {
                        assert(old_children[place] != old_children[from]);
                    }
                }
                assert forall|k: int, l: int| 0 <= k < l < children.len() implies (
                #[trigger] children[k]) != (#[trigger] children[l])
                    && after.nodes[children[k] as int].endpoint
                    != after.nodes[children[l] as int].endpoint by {
                    let from_k = if k < place {
                        k
                    } else {
                        k + 1
                    };
                    let from_l = if l < place {
                        l
                    } else {
                        l + 1
                    };
                    assert(children[k] == old_children[from_k]);
                    assert(children[l] == old_children[from_l]);
                    assert(old_children[from_k] != old_children[from_l]);
                    assert(self.child_link_ok(i, old_children[from_k]));
                    assert(self.child_link_ok(i, old_children[from_l]));
                    if from_k < place {
                        assert(old_children[from_k] != old_children[place]);
                    } else {
                        assert(old_children[place] != old_children[from_k]);
                    }
                    if from_l < place {
                        assert(old_children[from_l] != old_children[place]);
                    } else {
                        assert(old_children[place] != old_children[from_l]);
                    }
                }
            } else if i != gone {
                let before = self.nodes[i].children;
                assert forall|k: int| 0 <= k < children.len() implies after.child_link_ok(
                    i,
                    #[trigger] children[k],
                ) by {
                    assert(self.child_link_ok(i, before[k]));
                }
                assert forall|k: int, l: int| 0 <= k < l < children.len() implies (
                #[trigger] children[k]) != (#[trigger] children[l])
                    && after.nodes[children[k] as int].endpoint
                    != after.nodes[children[l] as int].endpoint by {
                    assert(self.child_link_ok(i, before[k]));
                    assert(self.child_link_ok(i, before[l]));
                    assert(before[k] != before[l]);
                }
            }
        }
        assert forall|i: int| 0 < i < after.nodes.len() && after.nodes[i].live implies
            #[trigger] after.attached(i) by {
            assert(self.attached(i));
            let p = self.nodes[i].parent->Some_0 as int;
            let k = choose|k: int|
                0 <= k < self.nodes[p].children.len() && self.nodes[p].children[k] == i as usize;
            if p == gone {
                assert(false);
            }
            if p == parent {
                if k < place {
                    assert(new_children[k] == i as usize);
                } else {
                    assert(k != place);
                    assert(new_children[k - 1] == i as usize);
                }
            } else {
                assert(after.nodes[p].children[k] == i as usize);
            }
        }
        if after.has_child(parent, name) {
            let k = choose|k: int| after.child_at(parent, name, k);
            let from = if k < place {
                k
            } else {
                k + 1
            };
            assert(new_children[k] == old_children[from]);
            assert(self.child_link_ok(parent, old_children[from]));
            if from < place {
                assert(old_children[from] != old_children[place]);
            } else {
                assert(old_children[place] != old_children[from]);
            }
            assert(self.child_at(parent, name, from));
            self.lemma_child_unique(parent, name, from);
        }
    }

    /// Renaming a child to a name that no sibling bears keeps the tree well
    /// formed; the child is found under the new name and no longer under
    /// the old one.
    pub proof fn lemma_rename_well_formed(self, parent: int, from: Seq<char>, to: Seq<char>)
        requires
            self.well_formed(),
            self.is_live(parent),
            self.has_child(parent, from),
            !self.has_child(parent, to),
        ensures
            self.rename(parent, from, to).well_formed(),
            self.rename(parent, from, to).has_child(parent, to),
            self.rename(parent, from, to).child(parent, to) == self.child(parent, from),
            !self.rename(parent, from, to).has_child(parent, from),
    {
        let after = self.rename(parent, from, to);
        let place = self.child_place(parent, from);
        let renamed = self.child(parent, from) as int;
        assert(self.child_at(parent, from, place));
        self.lemma_child_unique(parent, from, place);
        assert(self.children_ok(parent));
        let siblings = self.nodes[parent].children;
        assert forall|i: int| 0 < i < after.nodes.len() implies #[trigger] after.parent_ok(i) by {
            assert(self.parent_ok(i));
        }
        assert forall|i: int| 0 <= i < after.nodes.len() implies #[trigger] after.children_ok(
            i,
        ) by {
            assert(self.children_ok(i));
            let children = after.nodes[i].children;
            assert forall|k: int| 0 <= k < children.len() implies after.child_link_ok(
                i,
                #[trigger] children[k],
            ) by {
                assert(self.child_link_ok(i, children[k]));
            }
            assert forall|k: int, l: int| 0 <= k < l < children.len() implies (
            #[trigger] children[k]) != (#[trigger] children[l])
                && after.nodes[children[k] as int].endpoint
                != after.nodes[children[l] as int].endpoint by {
                assert(self.child_link_ok(i, children[k]));
                assert(self.child_link_ok(i, children[l]));
                assert(children[k] != children[l]);
                if children[k] == renamed as usize {
                    assert(i == parent);
                    assert(!self.child_at(parent, to, l));
                } else if children[l] == renamed as usize {
                    assert(i == parent);
                    assert(!self.child_at(parent, to, k));
                }
            }
        }
        assert forall|i: int| 0 < i < after.nodes.len() && after.nodes[i].live implies
            #[trigger] after.attached(i) by {
            assert(self.attached(i));
        }
        assert(after.child_at(parent, to, place));
        after.lemma_child_unique(parent, to, place);
        if after.has_child(parent, from) {
            let k = choose|k: int| after.child_at(parent, from, k);
            if k == place {
                assert(self.child_at(parent, to, place)) by {
                    assert(after.nodes[siblings[place] as int].endpoint == to);
                    assert(to == from);
                }
            } else {
                assert(self.child_at(parent, from, k)) by {
                    if k < place {
                        assert(siblings[k] != siblings[place]);
                    } else {
                        assert(siblings[place] != siblings[k]);
                    }
                }
                self.lemma_child_unique(parent, from, k);
            }
        }
    }

    /// What `create` returns: `NotFound` where `parent` is not a live node,
    /// `AlreadyExists` where it has a child of that name, else the position
    /// of the new node, the end of the table.
    pub open spec fn create_result(self, parent: int, name: Seq<char>) -> Result<usize, Error> {
        if !self.is_live(parent) {
            Err(Error::NotFound)
        } else if self.has_child(parent, name) {
            Err(Error::AlreadyExists)
        } else {
            Ok(self.nodes.len() as usize)
        }
    }

    /// The tree that `create` leaves: changed only where it succeeds.
    pub open spec fn after_create(self, parent: int, name: Seq<char>) -> TreeView {
        if self.create_result(parent, name) is Ok {
            self.create(parent, name)
        } else {
            self
        }
    }

    /// What `remove` returns: `NotFound` where `parent` is not a live node
    /// or has no child of that name, `NotEmpty` where the child has children
    /// of its own.
    pub open spec fn remove_result(self, parent: int, name: Seq<char>) -> Result<(), Error> {
        if !self.is_live(parent) || !self.has_child(parent, name) {
            Err(Error::NotFound)
        } else if self.nodes[self.child(parent, name) as int].children.len() > 0 {
            Err(Error::NotEmpty)
        } else {
            Ok(())
        }
    }

    /// The tree that `remove` leaves: changed only where it succeeds.
    pub open spec fn after_remove(self, parent: int, name: Seq<char>) -> TreeView {
        if self.remove_result(parent, name) is Ok {
            self.remove(parent, name)
        } else {
            self
        }
    }

    /// What `rename` returns: `NotFound` where `parent` is not a live node
    /// or has no child called `from`, `AlreadyExists` where it has a child
    /// called `to`.
    pub open spec fn rename_result(self, parent: int, from: Seq<char>, to: Seq<char>) -> Result<
        (),
        Error,
    > {
        if !self.is_live(parent) || !self.has_child(parent, from) {
            Err(Error::NotFound)
        } else if self.has_child(parent, to) {
            Err(Error::AlreadyExists)
        } else {
            Ok(())
        }
    }

    /// The tree that `rename` leaves: changed only where it succeeds.
    pub open spec fn after_rename(self, parent: int, from: Seq<char>, to: Seq<char>) -> TreeView {
        if self.rename_result(parent, from, to) is Ok {
            self.rename(parent, from, to)
        } else {
            self
        }
    }

    /// Creating the same endpoint twice under one parent fails the second
    /// time with `AlreadyExists`. After the first is removed again, the
    /// endpoint can be created anew.
    pub proof fn lemma_create_twice(self, parent: int, name: Seq<char>)
        requires
            self.well_formed(),
            self.nodes.len() + 1 < usize::MAX,
            self.create_result(parent, name) is Ok,
        ensures
            self.create(parent, name).create_result(parent, name) == Err::<usize, Error>(
                Error::AlreadyExists,
            ),
            self.create(parent, name).remove_result(parent, name) is Ok,
            self.create(parent, name).remove(parent, name).well_formed(),
            self.create(parent, name).remove(parent, name).create_result(parent, name) is Ok,
    {
        self.lemma_create_well_formed(parent, name);
        let created = self.create(parent, name);
        created.lemma_remove_well_formed(parent, name);
    }

    /// Removing leaves every other node as it was, but for the list of the
    /// parent, which loses the one child.
    pub proof fn lemma_remove_frame(self, parent: int, name: Seq<char>, other: int)
        requires
            self.well_formed(),
            self.remove_result(parent, name) is Ok,
            0 <= other < self.nodes.len(),
            other != self.child(parent, name),
        ensures
            self.remove(parent, name).nodes[other].endpoint == self.nodes[other].endpoint,
            self.remove(parent, name).nodes[other].parent == self.nodes[other].parent,
            self.remove(parent, name).nodes[other].live == self.nodes[other].live,
            other != parent ==> self.remove(parent, name).nodes[other].children
                == self.nodes[other].children,
            self.remove(parent, name).nodes[parent].children == self.nodes[parent].children.remove(
                self.child_place(parent, name),
            ),
    {
        let place = self.child_place(parent, name);
        assert(self.child_at(parent, name, place));
        self.lemma_child_unique(parent, name, place);
    }

    /// A dentry with a child cannot be removed: the attempt fails with
    /// `NotEmpty`. Once its only child has been removed, it can.
    pub proof fn lemma_remove_after_child(
        self,
        parent: int,
        name: Seq<char>,
        child_name: Seq<char>,
    )
        requires
            self.well_formed(),
            self.is_live(parent),
            self.has_child(parent, name),
            self.has_child(self.child(parent, name) as int, child_name),
        ensures
            self.remove_result(parent, name) == Err::<(), Error>(Error::NotEmpty),
            self.nodes[self.child(parent, name) as int].children.len() == 1 && self.remove_result(
                self.child(parent, name) as int,
                child_name,
            ) is Ok ==> self.remove(self.child(parent, name) as int, child_name).remove_result(
                parent,
                name,
            ) is Ok,
    {
        let place = self.child_place(parent, name);
        assert(self.child_at(parent, name, place));
        self.lemma_child_unique(parent, name, place);
        let dentry = self.child(parent, name) as int;
        let inner_place = self.child_place(dentry, child_name);
        assert(self.child_at(dentry, child_name, inner_place));
        if self.nodes[dentry].children.len() == 1 && self.remove_result(dentry, child_name) is Ok {
            let after = self.remove(dentry, child_name);
            self.lemma_child_unique(dentry, child_name, inner_place);
            self.lemma_remove_well_formed(dentry, child_name);
            let inner = self.child(dentry, child_name) as int;
            self.lemma_remove_frame(dentry, child_name, dentry);
            self.lemma_remove_frame(dentry, child_name, parent);
            assert(after.nodes[dentry].endpoint == name);
            assert(after.nodes[parent].children == self.nodes[parent].children);
            assert(after.child_at(parent, name, place));
            after.lemma_child_unique(parent, name, place);
            assert(after.nodes[dentry].children.len() == 0);
        }
    }

    /// Creating a node changes the path of no node that was there before.
    pub proof fn lemma_create_keeps_paths(self, parent: int, name: Seq<char>, id: int)
        requires
            0 <= parent < self.nodes.len(),
            0 <= id < self.nodes.len(),
        ensures
            self.create(parent, name).rel_path(id) == self.rel_path(id),
        decreases id,
    {
        match self.nodes[id].parent {
            None => {},
            Some(p) => {
                if 0 <= p < id && self.is_live(p as int) {
                    self.lemma_create_keeps_paths(parent, name, p as int);
                }
            },
        }
    }

    /// The path of a new node is the path of its parent, a slash and the
    /// new endpoint.
    pub proof fn lemma_create_path(self, parent: int, name: Seq<char>)
        requires
            self.well_formed(),
            self.nodes.len() < usize::MAX,
            self.create_result(parent, name) is Ok,
        ensures
            self.create(parent, name).rel_path(self.nodes.len() as int) == self.rel_path(parent)
                + slash() + name,
    {
        self.lemma_create_keeps_paths(parent, name, parent);
    }

    /// Creating `a` under the root and then `b` under `a` gives `b` the
    /// absolute path `/a/b`, and `a` the path `/a`.
    pub proof fn lemma_nested_path(self, a: Seq<char>, b: Seq<char>)
        requires
            self.well_formed(),
            self.nodes.len() + 1 < usize::MAX,
            self.create_result(0, a) is Ok,
        ensures
            self.create(0, a).abs_path(self.nodes.len() as int) == slash() + a,
            self.create(0, a).create_result(self.nodes.len() as int, b) is Ok,
            self.create(0, a).create(self.nodes.len() as int, b).abs_path(
                self.nodes.len() as int + 1,
            )
                == slash() + a + slash() + b,
    {
        let first = self.create(0, a);
        let ia = self.nodes.len() as int;
        self.lemma_create_well_formed(0, a);
        self.lemma_create_path(0, a);
        assert(self.rel_path(0) =~= Seq::<char>::empty());
        assert(first.rel_path(ia) =~= slash() + a);
        assert(first.children_ok(ia));
        assert(!first.has_child(ia, b));
        first.lemma_create_path(ia, b);
    }
}

/// One node of the tree: its endpoint, its inode, its children and the
/// position of its parent.
pub struct Dentry {
    endpoint: String,
    parent: Option<usize>,
    inode: Inode,
    children: Vec<usize>,
    live: bool,
}

impl DentryTrait for Dentry {

}

impl View for Dentry {
    type V = DentryView;

    closed spec fn view(&self) -> DentryView {
        DentryView {
            endpoint: self.endpoint@,
            parent: self.parent,
            children: self.children@,
            live: self.live,
        }
    }
}

impl Dentry {
    /// The inode that the node owns.
    pub closed spec fn inode_spec(&self) -> Inode {
        self.inode
    }

    /// A live directory node without children, which owns a fresh inode
    /// with the default id.
    pub fn new(endpoint: String, parent: Option<usize>) -> (dentry: Dentry)
        ensures
            dentry@ == (DentryView {
                endpoint: endpoint@,
                parent,
                children: Seq::empty(),
                live: true,
            }),
            dentry.inode_spec().wf(),
            dentry.inode_spec().id_spec() == DEFAULT_INODE_ID,
            dentry.inode_spec().meta().file_type == FileType::Dir,
            dentry.inode_spec().blocks().len() == 0,
            fresh_metadata(dentry.inode_spec().meta()),
    {
        Dentry::with_inode(endpoint, parent, Inode::with_type(DEFAULT_INODE_ID, FileType::Dir))
    }

    /// A live node without children, which owns `inode`.
    pub fn with_inode(endpoint: String, parent: Option<usize>, inode: Inode) -> (dentry: Dentry)
        ensures
            dentry@ == (DentryView {
                endpoint: endpoint@,
                parent,
                children: Seq::empty(),
                live: true,
            }),
            dentry.inode_spec() == inode,
    {
        Dentry { endpoint, parent, inode, children: Vec::new(), live: true }
    }

    /// Whether the node is a directory.
    pub fn is_dir(&self) -> (dir: bool)
        ensures
            dir == (self.inode_spec().meta().file_type == FileType::Dir),
    {
        self.inode.is_dir()
    }

    /// Whether the node has not been removed.
    pub fn is_live(&self) -> (live: bool)
        ensures
            live == self@.live,
    {
        self.live
    }

    /// The node's own path segment.
    pub fn get_endpoint(&self) -> (endpoint: &String)
        ensures
            endpoint@ == self@.endpoint,
    {
        &self.endpoint
    }

    /// The position of the parent, as the node recorded it.
    pub fn get_parent(&self) -> (parent: Option<usize>)
        ensures
            parent == self@.parent,
    {
        self.parent
    }

    /// The inode that the node owns.
    pub fn get_inode(&self) -> (inode: &Inode)
        ensures
            *inode == self.inode_spec(),
    {
        &self.inode
    }
}

/// The table of all nodes of a tree.
pub struct DentrysTable {
    tables: Vec<Dentry>,
}

impl View for DentrysTable {
    type V = TreeView;

    closed spec fn view(&self) -> TreeView {
        TreeView { nodes: Seq::new(self.tables@.len(), |i: int| self.tables@[i]@) }
    }
}

impl DentrysTable {
    /// The inode of the node at `id`.
    pub closed spec fn inode(&self, id: int) -> Inode {
        self.tables@[id].inode
    }

    /// The node at `id`.
    pub closed spec fn dentry(&self, id: int) -> Dentry {
        self.tables@[id]
    }

    /// The invariant of the table: the tree is well formed, the root is a
    /// directory, and every node owns a well-formed inode whose id is the
    /// node's position.
    pub open spec fn wf(&self) -> bool {
        &&& self@.well_formed()
        &&& self.inode(0).meta().file_type == FileType::Dir
        &&& forall|i: int|
            0 <= i < self@.nodes.len() ==> (#[trigger] self.inode(i)).wf() && self.inode(
                i,
            ).id_spec() == i
    }

    /// A tree that holds only the root directory, `/`.
    pub fn new() -> (table: DentrysTable)
        ensures
            table.wf(),
            table@ == TreeView::root_only(),
            table.inode(0).meta().file_type == FileType::Dir,
            table.inode(0).blocks().len() == 0,
            fresh_metadata(table.inode(0).meta()),
    {
        proof {
            reveal_strlit("/");
        }
        let root = Dentry::new(String::from_str("/"), None);
        let mut tables: Vec<Dentry> = Vec::new();
        tables.push(root);
        let table = DentrysTable { tables };
        proof {
            assert("/"@ =~= slash());
            assert(table@.nodes =~= TreeView::root_only().nodes);
            assert(table@.children_ok(0));
        }
        table
    }

    /// Number of nodes in the table, removed ones included.
    pub fn len(&self) -> (len: usize)
        ensures
            len == self@.nodes.len(),
    {
        self.tables.len()
    }

    /// Whether `id` is a node that has not been removed.
    pub fn is_live(&self, id: usize) -> (live: bool)
        ensures
            live == self@.is_live(id as int),
    {
        id < self.tables.len() && self.tables[id].live
    }

    /// The node at `id`, live or not.
    pub fn get(&self, id: usize) -> (dentry: Option<&Dentry>)
        ensures
            id < self@.nodes.len() ==> dentry == Some(&self.dentry(id as int)),
            id < self@.nodes.len() ==> self.dentry(id as int)@ == self@.nodes[id as int]
                && self.dentry(id as int).inode_spec() == self.inode(id as int),
            id >= self@.nodes.len() ==> dentry is None,
    {
        if id < self.tables.len() {
            Some(&self.tables[id])
        } else {
            None
        }
    }

    /// The inode of the node at `id`, live or not.
    pub fn get_inode(&self, id: usize) -> (inode: Option<&Inode>)
        ensures
            id < self@.nodes.len() ==> inode == Some(&self.inode(id as int)),
            id >= self@.nodes.len() ==> inode is None,
    {
        if id < self.tables.len() {
            Some(&self.tables[id].inode)
        } else {
            None
        }
    }

    /// The inode of the node at `id`, for changes made by the filesystem
    /// that owns the table.
    pub(crate) fn inode_mut(&mut self, id: usize) -> (inode: &mut Inode)
        requires
            id < old(self)@.nodes.len(),
        ensures
            *inode == old(self).inode(id as int),
            final(self)@.nodes == old(self)@.nodes,
            final(self).inode(id as int) == *final(inode),
            forall|i: int|
                0 <= i < old(self)@.nodes.len() && i != id ==>
                    final(self).inode(i) == old(self).inode(i),
    {
        &mut self.tables[id].inode
    }

    /// The place in the list of `parent` of the child called `name`.
    fn find_place(&self, parent: usize, name: &String) -> (place: Option<usize>)
        requires
            self.wf(),
            self@.is_live(parent as int),
        ensures
            match place {
                Some(k) => self@.child_at(parent as int, name@, k as int),
                None => !self@.has_child(parent as int, name@),
            },
    {
        let children = &self.tables[parent].children;
        assert(self@.children_ok(parent as int));
        let mut k: usize = 0;
        while k < children.len()
            invariant
                self.wf(),
                self@.is_live(parent as int),
                self@.children_ok(parent as int),
                children@ == self@.nodes[parent as int].children,
                k <= children@.len(),
                forall|j: int| 0 <= j < k ==> !self@.child_at(parent as int, name@, j),
            decreases children@.len() - k,
        {
            let child = children[k];
            assert(self@.child_link_ok(parent as int, children@[k as int]));
            if self.tables[child].endpoint == *name {
                return Some(k);
            }
            k += 1;
        }
        None
    }

    /// Creates a child called `endpoint` under `parent`, with a fresh inode
    /// of the given type that counts one link, and gives the position of
    /// the new node.
    ///
    /// Fails with `NotFound` where `parent` is not a live node, and with
    /// `AlreadyExists` where it has a child called `endpoint`; nothing
    /// changes then.
    pub fn create(&mut self, parent: usize, endpoint: &str, file_type: FileType) -> (result:
        Result<usize, Error>)
        requires
            old(self).wf(),
        ensures
            final(self).wf(),
            result == old(self)@.create_result(parent as int, endpoint@),
            final(self)@ == old(self)@.after_create(parent as int, endpoint@),
            forall|i: int|
                0 <= i < old(self)@.nodes.len() ==> final(self).inode(i) == old(self).inode(i),
            result is Ok ==> {
                let inode = final(self).inode(result->Ok_0 as int);
                &&& old(self)@.nodes.len() < usize::MAX
                &&& final(self)@.is_live(result->Ok_0 as int)
                &&& inode.blocks().len() == 0
                &&& inode.meta().file_type == file_type
                &&& inode.meta().links_count == 1
                &&& inode.meta().version == 0
                &&& inode.meta().size == 0
                &&& !inode.meta().is_delete
            },
    {
        if !self.is_live(parent) {
            return Err(Error::NotFound);
        }
        let name = String::from_str(endpoint);
        if self.find_place(parent, &name).is_some() {
            return Err(Error::AlreadyExists);
        }
        let id = self.tables.len();
        let mut inode = Inode::with_type(id, file_type);
        let _ = inode.do_link();
        let dentry = Dentry::with_inode(name, Some(parent), inode);
        self.tables[parent].children.push(id);
        self.tables.push(dentry);
        assert(self.tables.len() == id + 1);
        proof {
            old(self)@.lemma_create_well_formed(parent as int, endpoint@);
            assert(self@.nodes =~= old(self)@.create(parent as int, endpoint@).nodes);
            assert(self@ == old(self)@.create(parent as int, endpoint@));
            assert forall|i: int| 0 <= i < self@.nodes.len() implies (#[trigger] self.inode(
                i,
            )).wf() && self.inode(i).id_spec() == i by {
                if i < id {
                    assert(self.inode(i) == old(self).inode(i));
                }
            }
        }
        Ok(id)
    }

    /// Removes the child of `parent` called `endpoint`: it leaves the list
    /// of its parent and is marked as removed. Its inode is not touched.
    ///
    /// Fails with `NotFound` where `parent` is not a live node or has no
    /// such child, and with `NotEmpty` where the child has children of its
    /// own; nothing changes then.
    pub fn remove(&mut self, parent: usize, endpoint: &str) -> (result: Result<usize, Error>)
        requires
            old(self).wf(),
        ensures
            final(self).wf(),
            match result {
                Ok(gone) => old(self)@.remove_result(parent as int, endpoint@) is Ok && gone
                    == old(self)@.child(parent as int, endpoint@),
                Err(e) => old(self)@.remove_result(parent as int, endpoint@) == Err::<(), Error>(e),
            },
            final(self)@ == old(self)@.after_remove(parent as int, endpoint@),
            forall|i: int|
                0 <= i < old(self)@.nodes.len() ==> final(self).inode(i) == old(self).inode(i),
    {
        if !self.is_live(parent) {
            return Err(Error::NotFound);
        }
        let name = String::from_str(endpoint);
        let place = match self.find_place(parent, &name) {
            None => {
                return Err(Error::NotFound);
            },
            Some(place) => place,
        };
        proof {
            self@.lemma_child_unique(parent as int, endpoint@, place as int);
        }
        let gone = self.tables[parent].children[place];
        if self.tables[gone].children.len() > 0 {
            return Err(Error::NotEmpty);
        }
        self.tables[parent].children.remove(place);
        self.tables[gone].live = false;
        proof {
            old(self)@.lemma_remove_well_formed(parent as int, endpoint@);
            assert(self@.nodes =~= old(self)@.remove(parent as int, endpoint@).nodes);
            assert(self@ == old(self)@.remove(parent as int, endpoint@));
            assert forall|i: int| 0 <= i < self@.nodes.len() implies (#[trigger] self.inode(
                i,
            )).wf() && self.inode(i).id_spec() == i by {
                assert(self.inode(i) == old(self).inode(i));
            }
        }
        Ok(gone)
    }

    /// Gives the child of `parent` called `from` the endpoint `to`.
    ///
    /// Fails with `NotFound` where `parent` is not a live node or has no
    /// child called `from`, and with `AlreadyExists` where it has a child
    /// called `to`; nothing changes then.
    pub fn rename(&mut self, parent: usize, from: &str, to: &str) -> (result: Result<(), Error>)
        requires
            old(self).wf(),
        ensures
            final(self).wf(),
            result == old(self)@.rename_result(parent as int, from@, to@),
            final(self)@ == old(self)@.after_rename(parent as int, from@, to@),
            forall|i: int|
                0 <= i < old(self)@.nodes.len() ==> final(self).inode(i) == old(self).inode(i),
    {
        if !self.is_live(parent) {
            return Err(Error::NotFound);
        }
        let old_name = String::from_str(from);
        let new_name = String::from_str(to);
        let place = match self.find_place(parent, &old_name) {
            None => {
                return Err(Error::NotFound);
            },
            Some(place) => place,
        };
        if self.find_place(parent, &new_name).is_some() {
            return Err(Error::AlreadyExists);
        }
        proof {
            self@.lemma_child_unique(parent as int, from@, place as int);
        }
        let renamed = self.tables[parent].children[place];
        self.tables[renamed].endpoint = new_name;
        proof {
            old(self)@.lemma_rename_well_formed(parent as int, from@, to@);
            assert(self@.nodes =~= old(self)@.rename(parent as int, from@, to@).nodes);
            assert(self@ == old(self)@.rename(parent as int, from@, to@));
            assert forall|i: int| 0 <= i < self@.nodes.len() implies (#[trigger] self.inode(
                i,
            )).wf() && self.inode(i).id_spec() == i by {
                assert(self.inode(i) == old(self).inode(i));
            }
        }
        Ok(())
    }

    /// Resolves one step of navigation from `cursor`: `/` leads to the
    /// root, whatever `cursor` is; `..` leads to the parent and any other
    /// endpoint to the child of that name. The cursor is looked up anew on
    /// every call.
    ///
    /// Fails with `NotFound` where the endpoint is not `/` and `cursor` is
    /// not a live node or has no such child, and with `NoParent` for `..`
    /// at the root.
    pub fn change(&self, cursor: usize, endpoint: &str) -> (result: Result<usize, Error>)
        requires
            self.wf(),
        ensures
            result == self@.change(cursor as int, endpoint@),
            result is Ok ==> self@.is_live(result->Ok_0 as int),
    {
        proof {
            reveal_strlit("/");
            reveal_strlit("..");
            assert("/"@ =~= slash());
            assert(".."@ =~= dot_dot());
        }
        let name = String::from_str(endpoint);
        if name == String::from_str("/") {
            return Ok(0);
        }
        if !self.is_live(cursor) {
            return Err(Error::NotFound);
        }
        if name == String::from_str("..") {
            return match self.tables[cursor].parent {
                None => Err(Error::NoParent),
                Some(p) => if self.is_live(p) {
                    Ok(p)
                } else {
                    Err(Error::NoParent)
                },
            };
        }
        match self.find_place(cursor, &name) {
            None => Err(Error::NotFound),
            Some(place) => {
                proof {
                    self@.lemma_child_unique(cursor as int, endpoint@, place as int);
                }
                Ok(self.tables[cursor].children[place])
            },
        }
    }

    /// Resolves `path` from `cursor`. A path that begins with a slash
    /// starts at the root, whatever `cursor` is, any other at `cursor`; its
    /// segments are walked
    /// over in turn, each as `change` does: `..` leads to the parent, any
    /// other segment to the child of that name. Empty segments count for
    /// nothing.
    ///
    /// Fails with `NotFound` where the path is relative and `cursor` is not
    /// a live node, or a segment names no child, and with `NoParent` where
    /// `..` is met at the root.
    pub fn resolve(&self, cursor: usize, path: &str) -> (result: Result<usize, Error>)
        requires
            self.wf(),
        ensures
            result == self@.resolve(cursor as int, path@),
            result is Ok ==> self@.is_live(result->Ok_0 as int),
    {
        let len = path.unicode_len();
        let mut at: usize = if len > 0 && path.get_char(0) == '/' {
            0
        } else if self.is_live(cursor) {
            cursor
        } else {
            return Err(Error::NotFound);
        };
        let mut segment = String::new();
        let mut i: usize = 0;
        proof {
            assert(path@.skip(0) =~= path@);
        }
        while i < len
            invariant
                self.wf(),
                i <= len,
                len == path@.len(),
                self@.is_live(at as int),
                self@.resolve(cursor as int, path@) == self@.walk(
                    Ok(at),
                    segment@,
                    path@.skip(i as int),
                ),
            decreases len - i,
        {
            let ghost rest = path@.skip(i as int);
            proof {
                assert(rest[0] == path@[i as int]);
                assert(rest.drop_first() =~= path@.skip(i + 1));
            }
            if path.get_char(i) == '/' {
                proof {
                    assert(self@.walk(Ok(at), segment@, rest) == self@.walk(
                        self@.step(Ok(at), segment@),
                        Seq::empty(),
                        rest.drop_first(),
                    ));
                }
                if segment.as_str().unicode_len() > 0 {
                    match self.change(at, segment.as_str()) {
                        Ok(next) => {
                            at = next;
                        },
                        Err(e) => {
                            proof {
                                self@.lemma_walk_error(e, Seq::empty(), rest.drop_first());
                            }
                            return Err(e);
                        },
                    }
                    segment = String::new();
                } else {
                    proof {
                        assert(segment@ =~= Seq::<char>::empty());
                    }
                }
            } else {
                let ghost read = segment@;
                segment.append(path.substring_char(i, i + 1));
                proof {
                    assert(path@.subrange(i as int, i + 1) =~= seq![path@[i as int]]);
                    assert(segment@ =~= read.push(path@[i as int]));
                    assert(self@.walk(Ok(at), read, rest) == self@.walk(
                        Ok(at),
                        read.push(rest[0]),
                        rest.drop_first(),
                    ));
                }
            }
            i += 1;
        }
        proof {
            assert(path@.skip(len as int).len() == 0);
        }
        if segment.as_str().unicode_len() > 0 {
            self.change(at, segment.as_str())
        } else {
            Ok(at)
        }
    }

    /// The absolute path of the node at `id`: the endpoints from below the
    /// root down to the node, each after a slash; `/` for the root. A
    /// parent that is gone ends the walk upwards: the path gathered so far
    /// is returned.
    ///
    /// Fails with `NotFound` where the table has no node at `id`.
    pub fn get_abspath(&self, id: usize) -> (result: Result<String, Error>)
        requires
            self.wf(),
        ensures
            id < self@.nodes.len() ==> result is Ok && result->Ok_0@ == self@.abs_path(id as int),
            id >= self@.nodes.len() ==> result == Err::<String, Error>(Error::NotFound),
    {
        if id >= self.tables.len() {
            return Err(Error::NotFound);
        }
        proof {
            reveal_strlit("/");
            assert("/"@ =~= slash());
        }
        let mut path = String::new();
        let mut cursor = id;
        let mut walking = true;
        while walking
            invariant
                cursor < self.tables@.len(),
                "/"@ == slash(),
                self@.rel_path(id as int) == if walking {
                    self@.rel_path(cursor as int) + path@
                } else {
                    path@
                },
            decreases cursor + if walking { 1nat } else { 0nat },
        {
            match self.tables[cursor].parent {
                None => {
                    walking = false;
                    proof {
                        assert(self@.rel_path(cursor as int) + path@ =~= path@);
                    }
                },
                Some(above) => {
                    let mut head = String::from_str("/");
                    head.append(self.tables[cursor].endpoint.as_str());
                    head.append(path.as_str());
                    proof {
                        let endpoint = self@.nodes[cursor as int].endpoint;
                        if above < cursor && self@.is_live(above as int) {
                            assert(self@.rel_path(above as int) + slash() + endpoint + path@
                                =~= self@.rel_path(above as int) + head@);
                        }
                    }
                    path = head;
                    if above < cursor && self.is_live(above) {
                        cursor = above;
                    } else {
                        walking = false;
                    }
                },
            }
        }
        if path.as_str().unicode_len() == 0 {
            Ok(String::from_str("/"))
        } else {
            Ok(path)
        }
    }
}

impl DentryOp for DentrysTable {
    open spec fn table_wf(&self) -> bool {
        self.wf()
    }

    /// Creates a directory called `endpoint` under `parent`, as `create`
    /// does.
    fn dentry_add(&mut self, parent: usize, endpoint: &str) -> (result: Result<usize, Error>)
        ensures
            result == old(self)@.create_result(parent as int, endpoint@),
            final(self)@ == old(self)@.after_create(parent as int, endpoint@),
    {
        self.create(parent, endpoint, FileType::Dir)
    }

    /// Removes the child of `parent` called `endpoint`, as `remove` does.
    fn dentry_delete(&mut self, parent: usize, endpoint: &str) -> (result: Result<(), Error>)
        ensures
            result == old(self)@.remove_result(parent as int, endpoint@),
            final(self)@ == old(self)@.after_remove(parent as int, endpoint@),
    {
        match self.remove(parent, endpoint) {
            Ok(_) => Ok(()),
            Err(e) => Err(e),
        }
    }

    /// The position of the child of `parent` called `endpoint`.
    ///
    /// Fails with `NotFound` where `parent` is not a live node or has no
    /// such child.
    fn dentry_find(&self, parent: usize, endpoint: &str) -> (result: Result<usize, Error>)
        ensures
            self@.is_live(parent as int) && self@.has_child(parent as int, endpoint@) ==> result
                == Ok::<usize, Error>(self@.child(parent as int, endpoint@)),
            !(self@.is_live(parent as int) && self@.has_child(parent as int, endpoint@))
                ==> result == Err::<usize, Error>(Error::NotFound),
    {
        if !self.is_live(parent) {
            return Err(Error::NotFound);
        }
        let name = String::from_str(endpoint);
        match self.find_place(parent, &name) {
            None => Err(Error::NotFound),
            Some(place) => {
                proof {
                    self@.lemma_child_unique(parent as int, endpoint@, place as int);
                }
                Ok(self.tables[parent].children[place])
            },
        }
    }

    /// The endpoints of the children of `id`, in the order in which they
    /// were created.
    ///
    /// Fails with `NotFound` where `id` is not a live node.
    fn dentry_list(&self, id: usize) -> (result: Result<Vec<String>, Error>)
        ensures
            self@.is_live(id as int) ==> result is Ok && result->Ok_0@.len() == self@.list(
                id as int,
            ).len() && forall|k: int|
                0 <= k < result->Ok_0@.len() ==> (#[trigger] result->Ok_0@[k])@ == self@.list(
                    id as int,
                )[k],
            !self@.is_live(id as int) ==> result == Err::<Vec<String>, Error>(Error::NotFound),
    {
        if !self.is_live(id) {
            return Err(Error::NotFound);
        }
        let children = &self.tables[id].children;
        assert(self@.children_ok(id as int));
        let mut names: Vec<String> = Vec::new();
        let mut k: usize = 0;
        while k < children.len()
            invariant
                self.wf(),
                self@.is_live(id as int),
                self@.children_ok(id as int),
                children@ == self@.nodes[id as int].children,
                k <= children@.len(),
                names@.len() == k,
                forall|j: int| 0 <= j < k ==> (#[trigger] names@[j])@ == self@.list(id as int)[j],
            decreases children@.len() - k,
        {
            let child = children[k];
            assert(self@.child_link_ok(id as int, children@[k as int]));
            names.push(self.tables[child].endpoint.clone());
            k += 1;
        }
        Ok(names)
    }

    /// The position of the parent of `id`.
    ///
    /// Fails with `NotFound` where `id` is not a live node, and with
    /// `NoParent` for the root.
    fn dentry_parent(&self, id: usize) -> (result: Result<usize, Error>)
        ensures
            result == self@.change(id as int, dot_dot()),
    {
        proof {
            reveal_strlit("..");
            assert(".."@ =~= dot_dot());
        }
        self.change(id, "..")
    }

    /// The positions of the children of `id`, in the order in which they
    /// were created.
    ///
    /// Fails with `NotFound` where `id` is not a live node.
    fn dentry_children(&self, id: usize) -> (result: Result<Vec<usize>, Error>)
        ensures
            self@.is_live(id as int) ==> result is Ok && result->Ok_0@
                == self@.nodes[id as int].children,
            !self@.is_live(id as int) ==> result == Err::<Vec<usize>, Error>(Error::NotFound),
    {
        if !self.is_live(id) {
            return Err(Error::NotFound);
        }
        let children = &self.tables[id].children;
        let mut copy: Vec<usize> = Vec::new();
        let mut k: usize = 0;
        while k < children.len()
            invariant
                k <= children@.len(),
                children@ == self@.nodes[id as int].children,
                copy@ == children@.take(k as int),
            decreases children@.len() - k,
        {
            copy.push(children[k]);
            proof {
                assert(copy@ =~= children@.take(k + 1));
            }
            k += 1;
        }
        proof {
            assert(children@.take(k as int) =~= children@);
        }
        Ok(copy)
    }
}

} // verus!
