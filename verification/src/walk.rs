//! The walk over a suite's coverage tree, one fetched record at a time.
//!
//! The walk decides which path is fetched next and keeps what came back;
//! fetching is left to the caller. A caller asks for a path with
//! [`TreeWalk::next_path`], fetches its record and hands it in with
//! [`TreeWalk::record`], until no path is left.

use vstd::prelude::*;
use crate::node::{CoverageNode, CoverageNodeView};
use crate::path_map::PathMap;
use crate::path_order::path_views;
use crate::reconcile::CoverageMap;

verus! {

/// Whether the record that is answered for `parent` lists `child` among the
/// paths below it.
pub open spec fn lists_child(
    answer: spec_fn(Seq<char>) -> CoverageNodeView,
    parent: Seq<char>,
    child: Seq<char>,
) -> bool {
    answer(parent).children.contains(child)
}

/// Whether `path` is a root or is found from a root by going at most
/// `steps` times from a path to one that its record lists below it, where
/// `answer` tells the record of each path.
pub open spec fn reachable_within(
    roots: Seq<Seq<char>>,
    answer: spec_fn(Seq<char>) -> CoverageNodeView,
    path: Seq<char>,
    steps: nat,
) -> bool
    decreases steps,
{
    if steps == 0 {
        roots.contains(path)
    } else {
        let fewer = (steps - 1) as nat;
        reachable_within(roots, answer, path, fewer) || exists|parent: Seq<char>|
            reachable_within(roots, answer, parent, fewer) && #[trigger] lists_child(
                answer,
                parent,
                path,
            )
    }
}

/// Whether `path` belongs to the tree below `roots`.
pub open spec fn reachable(
    roots: Seq<Seq<char>>,
    answer: spec_fn(Seq<char>) -> CoverageNodeView,
    path: Seq<char>,
) -> bool {
    exists|steps: nat| reachable_within(roots, answer, path, steps)
}

/// What holds at every moment of a walk over the tree below `roots` in
/// which every path is answered with its record: each kept record is the
/// one that was answered for its path; every root and every path listed
/// below a visited path is visited or still to be fetched; and nothing is
/// visited or to be fetched that does not belong to the tree.
pub open spec fn walk_consistent(
    roots: Seq<Seq<char>>,
    answer: spec_fn(Seq<char>) -> CoverageNodeView,
    pending: Seq<Seq<char>>,
    visited: Map<Seq<char>, CoverageNodeView>,
) -> bool {
    &&& forall|path: Seq<char>| #[trigger]
        visited.contains_key(path) ==> visited[path] == answer(path)
    &&& forall|i: int|
        0 <= i < roots.len() ==> visited.contains_key(#[trigger] roots[i]) || pending.contains(
            roots[i],
        )
    &&& forall|parent: Seq<char>, child: Seq<char>|
        visited.contains_key(parent) && #[trigger] lists_child(answer, parent, child)
            ==> visited.contains_key(child) || pending.contains(child)
    &&& forall|path: Seq<char>| #[trigger]
        visited.contains_key(path) ==> reachable(roots, answer, path)
    &&& forall|i: int| 0 <= i < pending.len() ==> reachable(roots, answer, #[trigger] pending[i])
}

/// A walk that has just started is consistent.
pub proof fn lemma_walk_starts_consistent(
    roots: Seq<Seq<char>>,
    answer: spec_fn(Seq<char>) -> CoverageNodeView,
)
    ensures
        walk_consistent(roots, answer, roots, Map::<Seq<char>, CoverageNodeView>::empty()),
{
    assert forall|i: int| 0 <= i < roots.len() implies reachable(
        roots,
        answer,
        #[trigger] roots[i],
    ) by {
        assert(reachable_within(roots, answer, roots[i], 0));
    }
}

/// Fetching the next path and taking in the record that is answered for it
/// keeps a walk consistent.
pub proof fn lemma_walk_step_consistent(
    roots: Seq<Seq<char>>,
    answer: spec_fn(Seq<char>) -> CoverageNodeView,
    pending: Seq<Seq<char>>,
    visited: Map<Seq<char>, CoverageNodeView>,
)
    requires
        walk_consistent(roots, answer, pending, visited),
        pending.len() > 0,
    ensures
        walk_consistent(
            roots,
            answer,
            pending.drop_last() + answer(pending.last()).children,
            visited.insert(pending.last(), answer(pending.last())),
        ),
{
    let path = pending.last();
    let node = answer(path);
    let rest = pending.drop_last();
    let pending_after = rest + node.children;
    let visited_after = visited.insert(path, node);
    assert(pending[pending.len() - 1] == path);
    assert(reachable(roots, answer, path));
    assert forall|other: Seq<char>| pending.contains(other) implies visited_after.contains_key(
        other,
    ) || pending_after.contains(other) by {
        let j = pending.index_of(other);
        if j < rest.len() {
            assert(pending_after[j] == other);
        }
    }
    assert forall|parent: Seq<char>, child: Seq<char>|
        visited_after.contains_key(parent) && #[trigger] lists_child(
            answer,
            parent,
            child,
        ) implies visited_after.contains_key(child) || pending_after.contains(child) by {
        if parent == path {
            let i = node.children.index_of(child);
            assert(pending_after[rest.len() + i] == child);
        } else {
            assert(visited.contains_key(child) || pending.contains(child));
        }
    }
    assert forall|i: int| 0 <= i < roots.len() implies visited_after.contains_key(
        #[trigger] roots[i],
    ) || pending_after.contains(roots[i]) by {
        assert(visited.contains_key(roots[i]) || pending.contains(roots[i]));
    }
    assert forall|i: int| 0 <= i < pending_after.len() implies reachable(
        roots,
        answer,
        #[trigger] pending_after[i],
    ) by {
        if i < rest.len() {
            assert(pending_after[i] == pending[i]);
        } else {
            let child = node.children[i - rest.len()];
            assert(pending_after[i] == child);
            let steps = choose|steps: nat| reachable_within(roots, answer, path, steps);
            assert(lists_child(answer, path, child));
            assert(reachable_within(roots, answer, child, steps + 1));
        }
    }
    assert forall|other: Seq<char>| #[trigger]
        visited_after.contains_key(other) implies reachable(roots, answer, other) by {
        if other != path {
            assert(visited.contains_key(other));
        }
    }
}

/// In a consistent walk with nothing left to fetch, every path that is
/// found within `steps` steps from a root has been visited.
pub proof fn lemma_finished_walk_holds(
    roots: Seq<Seq<char>>,
    answer: spec_fn(Seq<char>) -> CoverageNodeView,
    visited: Map<Seq<char>, CoverageNodeView>,
    path: Seq<char>,
    steps: nat,
)
    requires
        walk_consistent(roots, answer, Seq::<Seq<char>>::empty(), visited),
        reachable_within(roots, answer, path, steps),
    ensures
        visited.contains_key(path),
    decreases steps,
{
    let nothing = Seq::<Seq<char>>::empty();
    if steps == 0 {
        let i = roots.index_of(path);
        assert(visited.contains_key(roots[i]) || nothing.contains(roots[i]));
    } else {
        let fewer = (steps - 1) as nat;
        if reachable_within(roots, answer, path, fewer) {
            lemma_finished_walk_holds(roots, answer, visited, path, fewer);
        } else {
            let parent = choose|parent: Seq<char>|
                reachable_within(roots, answer, parent, fewer) && #[trigger] lists_child(
                    answer,
                    parent,
                    path,
                );
            lemma_finished_walk_holds(roots, answer, visited, parent, fewer);
            assert(visited.contains_key(path) || nothing.contains(path));
        }
    }
}

/// A consistent walk with nothing left to fetch has visited the paths of
/// the tree below its roots and no others, and holds for each of them the
/// record that was answered for it.
pub proof fn lemma_finished_walk_is_complete(
    roots: Seq<Seq<char>>,
    answer: spec_fn(Seq<char>) -> CoverageNodeView,
    visited: Map<Seq<char>, CoverageNodeView>,
)
    requires
        walk_consistent(roots, answer, Seq::<Seq<char>>::empty(), visited),
    ensures
        forall|path: Seq<char>| #[trigger]
            visited.contains_key(path) <==> reachable(roots, answer, path),
        forall|path: Seq<char>| #[trigger]
            visited.contains_key(path) ==> visited[path] == answer(path),
{
    assert forall|path: Seq<char>| reachable(roots, answer, path) implies #[trigger]
        visited.contains_key(path) by {
        let steps = choose|steps: nat| reachable_within(roots, answer, path, steps);
        lemma_finished_walk_holds(roots, answer, visited, path, steps);
    }
}

/// The state of a walk: the paths that are still to be fetched and the
/// records that have been fetched.
pub struct TreeWalk {
    pending: Vec<String>,
    visited: CoverageMap,
}

impl TreeWalk {
    /// The paths that are still to be fetched. The last one is fetched
    /// next.
    pub closed spec fn pending(&self) -> Seq<Seq<char>> {
        path_views(self.pending@)
    }

    /// The records fetched so far, each under the path it was asked for.
    pub closed spec fn visited(&self) -> Map<Seq<char>, CoverageNodeView> {
        self.visited@
    }

    /// The fetched records are kept in a well-formed map.
    pub closed spec fn wf(&self) -> bool {
        self.visited.wf()
    }

    /// A walk that starts at `roots` and has fetched nothing yet.
    pub fn new(roots: &[String]) -> (walk: TreeWalk)
        ensures
            walk.wf(),
            walk.pending() == path_views(roots@),
            walk.visited() == Map::<Seq<char>, CoverageNodeView>::empty(),
    {
        let mut pending: Vec<String> = Vec::new();
        let mut i: usize = 0;
        while i < roots.len()
            invariant
                i <= roots@.len(),
                pending@.len() == i,
                path_views(pending@) == path_views(roots@).take(i as int),
            decreases roots@.len() - i,
        {
            let ghost before = pending@;
            pending.push(roots[i].clone());
            proof {
                let now = path_views(pending@);
                assert(now.len() == i + 1);
                assert(path_views(roots@).len() == roots@.len());
                assert forall|k: int| 0 <= k < i + 1 implies now[k] == path_views(roots@)[k] by {
                    if k < i {
                        assert(pending@[k] == before[k]);
                        assert(path_views(before)[k] == path_views(roots@).take(i as int)[k]);
                    }
                }
                assert(now =~= path_views(roots@).take(i + 1));
            }
            i += 1;
        }
        proof {
            assert(path_views(roots@).take(roots@.len() as int) =~= path_views(roots@));
        }
        TreeWalk { pending, visited: PathMap::new() }
    }

    /// Whether no path is left to fetch.
    pub fn is_finished(&self) -> (finished: bool)
        ensures
            finished == (self.pending().len() == 0),
    {
        self.pending.len() == 0
    }

    /// Takes the path that is to be fetched next off the list, if one is
    /// left.
    pub fn next_path(&mut self) -> (path: Option<String>)
        requires
            old(self).wf(),
        ensures
            final(self).wf(),
            final(self).visited() == old(self).visited(),
            match path {
                Some(next) => {
                    &&& old(self).pending().len() > 0
                    &&& next@ == old(self).pending().last()
                    &&& final(self).pending() == old(self).pending().drop_last()
                },
                None => {
                    &&& old(self).pending().len() == 0
                    &&& final(self).pending() == old(self).pending()
                },
            },
    {
        let path = self.pending.pop();
        proof {
            if path is Some {
                assert(self.pending() =~= old(self).pending().drop_last());
            }
        }
        path
    }

    /// Takes in the record `node` that was fetched for `path`: the paths
    /// below it are added to those still to be fetched, in the order in
    /// which the record lists them, and the record is kept under `path`,
    /// in place of an earlier record for the same path if there is one.
    pub fn record(&mut self, path: String, node: CoverageNode)
        requires
            old(self).wf(),
        ensures
            final(self).wf(),
            final(self).pending() == old(self).pending() + node@.children,
            final(self).visited() == old(self).visited().insert(path@, node@),
    {
        let mut i: usize = 0;
        while i < node.children.len()
            invariant
                i <= node.children@.len(),
                self.wf(),
                self.visited() == old(self).visited(),
                self.pending() == old(self).pending() + node@.children.take(i as int),
            decreases node.children@.len() - i,
        {
            let ghost before = self.pending@;
            let child = node.children[i].clone();
            proof {
                assert(child@ == node@.children[i as int]);
                assert(path_views(before) == old(self).pending() + node@.children.take(i as int));
                assert(path_views(before).len() == before.len());
                assert(node@.children.len() == node.children@.len());
                assert(node@.children.take(i as int).len() == i);
                assert(before.len() == old(self).pending().len() + i);
            }
            self.pending.push(child);
            proof {
                let now = self.pending();
                let goal = old(self).pending() + node@.children.take(i + 1);
                assert(now.len() == goal.len());
                assert forall|k: int| 0 <= k < now.len() implies now[k] == goal[k] by {
                    if k < before.len() {
                        assert(self.pending@[k] == before[k]);
                        assert(now[k] == path_views(before)[k]);
                    } else {
                        assert(self.pending@[k] == child);
                    }
                }
                assert(now =~= goal);
            }
            i += 1;
        }
        proof {
            assert(node@.children.take(node.children@.len() as int) =~= node@.children);
        }
        self.visited.insert(path, node);
    }

    /// Ends the walk and hands out the records that were fetched.
    pub fn finish(self) -> (map: CoverageMap)
        requires
            self.wf(),
        ensures
            map.wf(),
            map@ == self.visited(),
    {
        self.visited
    }
}

} // verus!
