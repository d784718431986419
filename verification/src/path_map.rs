//! A map from paths to values that keeps its entries in the order of paths.

use vstd::prelude::*;
use crate::path_order::{
    compare_paths, lemma_path_order_asymmetric, lemma_path_order_transitive, path_precedes,
    strictly_ascending, PathOrder,
};

verus! {

/// A map from paths to values, kept in ascending order of the paths.
///
/// Its view is the mathematical map from each path to the view of its value.
pub struct PathMap<V> {
    keys: Vec<String>,
    items: Vec<V>,
}

impl<V: View> View for PathMap<V> {
    type V = Map<Seq<char>, V::V>;

    open spec fn view(&self) -> Map<Seq<char>, V::V> {
        Map::new(
            |path: Seq<char>| self.paths().contains(path),
            |path: Seq<char>| self.values()[self.paths().index_of(path)],
        )
    }
}

/// In a strictly ascending sequence every path stands at one position only.
pub proof fn lemma_position_unique(paths: Seq<Seq<char>>, i: int, j: int)
    requires
        strictly_ascending(paths),
        0 <= i < paths.len(),
        0 <= j < paths.len(),
        paths[i] == paths[j],
    ensures
        i == j,
{
    if i < j {
        lemma_path_order_asymmetric(paths[i], paths[j]);
    } else if j < i {
        lemma_path_order_asymmetric(paths[j], paths[i]);
    }
}

/// In a strictly ascending sequence the position of a path is the one that
/// `index_of` names.
pub proof fn lemma_index_of_position(paths: Seq<Seq<char>>, i: int)
    requires
        strictly_ascending(paths),
        0 <= i < paths.len(),
    ensures
        paths.contains(paths[i]),
        paths.index_of(paths[i]) == i,
{
    let j = paths.index_of(paths[i]);
    lemma_position_unique(paths, i, j);
}

impl<V: View> PathMap<V> {
    /// The paths of the entries, in the order in which they are kept.
    pub closed spec fn paths(&self) -> Seq<Seq<char>> {
        Seq::new(self.keys@.len(), |i: int| self.keys@[i]@)
    }

    /// The views of the values, each at the position of its path.
    pub closed spec fn values(&self) -> Seq<V::V> {
        Seq::new(self.items@.len(), |i: int| self.items@[i]@)
    }

    /// Every path has one value, and the paths stand in strictly ascending
    /// order, so that none occurs twice.
    pub open spec fn wf(&self) -> bool {
        &&& self.paths().len() == self.values().len()
        &&& strictly_ascending(self.paths())
    }

    /// The entry at position `i` of a well-formed map is the entry of the
    /// view under the path at that position.
    pub proof fn lemma_entry_at(&self, i: int)
        requires
            self.wf(),
            0 <= i < self.paths().len(),
        ensures
            self@.contains_key(self.paths()[i]),
            self@[self.paths()[i]] == self.values()[i],
    {
        lemma_index_of_position(self.paths(), i);
    }

    /// A map without entries.
    pub fn new() -> (map: Self)
        ensures
            map.wf(),
            map.paths().len() == 0,
            map@ == Map::<Seq<char>, V::V>::empty(),
    {
        let map = PathMap { keys: Vec::new(), items: Vec::new() };
        proof {
            assert(map@ =~= Map::<Seq<char>, V::V>::empty());
        }
        map
    }

    /// A well-formed map has as many entries as its view has paths.
    pub proof fn lemma_len(&self)
        requires
            self.wf(),
        ensures
            self@.dom().finite(),
            self@.dom().len() == self.paths().len(),
    {
        let paths = self.paths();
        assert forall|i: int, j: int| 0 <= i < paths.len() && 0 <= j < paths.len() && i
            != j implies paths[i] != paths[j] by {
            if paths[i] == paths[j] {
                lemma_position_unique(paths, i, j);
            }
        }
        paths.unique_seq_to_set();
        assert(self@.dom() =~= paths.to_set());
    }

    /// The number of entries.
    pub fn len(&self) -> (count: usize)
        requires
            self.wf(),
        ensures
            count == self.paths().len(),
            count == self@.dom().len(),
    {
        proof {
            self.lemma_len();
        }
        self.keys.len()
    }

    /// The path of the entry at position `i`, counted in ascending order of
    /// the paths.
    pub fn path_at(&self, i: usize) -> (path: &String)
        requires
            self.wf(),
            i < self.paths().len(),
        ensures
            path@ == self.paths()[i as int],
            self@.contains_key(path@),
    {
        proof {
            self.lemma_entry_at(i as int);
        }
        &self.keys[i]
    }

    /// The value of the entry at position `i`, counted in ascending order of
    /// the paths.
    pub fn value_at(&self, i: usize) -> (value: &V)
        requires
            self.wf(),
            i < self.paths().len(),
        ensures
            value@ == self.values()[i as int],
            value@ == self@[self.paths()[i as int]],
    {
        proof {
            self.lemma_entry_at(i as int);
        }
        &self.items[i]
    }

    /// Looks for `path` by bisection. Returns whether the map has it, and
    /// the position where it stands or where it would have to be put.
    fn locate(&self, path: &str) -> (place: (bool, usize))
        requires
            self.wf(),
        ensures
            place.1 <= self.paths().len(),
            place.0 ==> place.1 < self.paths().len() && self.paths()[place.1 as int] == path@,
            !place.0 ==> !self.paths().contains(path@),
            !place.0 ==> forall|j: int|
                0 <= j < place.1 ==> path_precedes(#[trigger] self.paths()[j], path@),
            !place.0 ==> forall|j: int|
                place.1 <= j < self.paths().len() ==> path_precedes(
                    path@,
                    #[trigger] self.paths()[j],
                ),
    {
        let mut low: usize = 0;
        let mut high: usize = self.keys.len();
        while low < high
            invariant
                self.wf(),
                low <= high <= self.paths().len(),
                self.paths().len() == self.keys@.len(),
                forall|j: int| 0 <= j < low ==> path_precedes(#[trigger] self.paths()[j], path@),
                forall|j: int|
                    high <= j < self.paths().len() ==> path_precedes(
                        path@,
                        #[trigger] self.paths()[j],
                    ),
            decreases high - low,
        {
            let middle: usize = low + (high - low) / 2;
            let ghost pivot = self.paths()[middle as int];
            match compare_paths(self.keys[middle].as_str(), path) {
                PathOrder::Same => {
                    return (true, middle);
                },
                PathOrder::Before => {
                    proof {
                        assert forall|j: int| 0 <= j < middle + 1 implies path_precedes(
                            #[trigger] self.paths()[j],
                            path@,
                        ) by {
                            if j < middle {
                                lemma_path_order_transitive(self.paths()[j], pivot, path@);
                            }
                        }
                    }
                    low = middle + 1;
                },
                PathOrder::After => {
                    proof {
                        assert forall|j: int| middle <= j < self.paths().len() implies path_precedes(
                            path@,
                            #[trigger] self.paths()[j],
                        ) by {
                            if middle < j {
                                lemma_path_order_transitive(path@, pivot, self.paths()[j]);
                            }
                        }
                    }
                    high = middle;
                },
            }
        }
        proof {
            assert forall|j: int| 0 <= j < self.paths().len() implies self.paths()[j] != path@ by {
                if j < low {
                    lemma_path_order_asymmetric(self.paths()[j], path@);
                } else {
                    lemma_path_order_asymmetric(path@, self.paths()[j]);
                }
            }
        }
        (false, low)
    }

    /// Whether the map has an entry for `path`.
    pub fn contains_key(&self, path: &str) -> (found: bool)
        requires
            self.wf(),
        ensures
            found == self@.contains_key(path@),
    {
        let (found, _) = self.locate(path);
        found
    }

    /// The value that the map holds for `path`, if it holds one.
    pub fn get(&self, path: &str) -> (value: Option<&V>)
        requires
            self.wf(),
        ensures
            match value {
                Some(v) => self@.contains_key(path@) && v@ == self@[path@],
                None => !self@.contains_key(path@),
            },
    {
        let (found, at) = self.locate(path);
        if found {
            proof {
                self.lemma_entry_at(at as int);
            }
            Some(&self.items[at])
        } else {
            None
        }
    }

    /// Puts `value` under `path`. Where the map held a value for `path`, the
    /// new value takes its place and the old one is returned.
    pub fn insert(&mut self, path: String, value: V) -> (previous: Option<V>)
        requires
            old(self).wf(),
        ensures
            final(self).wf(),
            final(self)@ == old(self)@.insert(path@, value@),
            match previous {
                Some(v) => old(self)@.contains_key(path@) && v@ == old(self)@[path@],
                None => !old(self)@.contains_key(path@),
            },
    {
        let (found, at) = self.locate(path.as_str());
        let ghost before = *self;
        if found {
            self.items.push(value);
            let displaced = self.items.swap_remove(at);
            proof {
                before.lemma_entry_at(at as int);
                assert(self.paths() == before.paths());
                assert(self.values() =~= before.values().update(at as int, value@));
                assert forall|p: Seq<char>| self.paths().contains(p) implies self.values()[self.paths().index_of(
                    p,
                )] == before@.insert(path@, value@)[p] by {
                    let k = self.paths().index_of(p);
                    if p == path@ {
                        lemma_position_unique(self.paths(), k, at as int);
                    }
                }
                assert(self@ =~= before@.insert(path@, value@));
            }
            Some(displaced)
        } else {
            self.keys.insert(at, path);
            self.items.insert(at, value);
            proof {
                let old_paths = before.paths();
                let new_paths = self.paths();
                assert(new_paths =~= old_paths.insert(at as int, path@));
                assert(self.values() =~= before.values().insert(at as int, value@));
                assert forall|i: int, j: int| 0 <= i < j < new_paths.len() implies path_precedes(
                    #[trigger] new_paths[i],
                    #[trigger] new_paths[j],
                ) by {
                    if j < at {
                        assert(path_precedes(old_paths[i], old_paths[j]));
                    } else if j == at {
                        assert(path_precedes(old_paths[i], path@));
                    } else if i < at {
                        assert(path_precedes(old_paths[i], old_paths[j - 1]));
                    } else if i == at {
                        assert(path_precedes(path@, old_paths[j - 1]));
                    } else {
                        assert(path_precedes(old_paths[i - 1], old_paths[j - 1]));
                    }
                }
                assert forall|p: Seq<char>| new_paths.contains(p) <==> (p == path@
                    || old_paths.contains(p)) by {
                    if new_paths.contains(p) {
                        let k = new_paths.index_of(p);
                        if k < at {
                            assert(old_paths[k] == p);
                        } else if k > at {
                            assert(old_paths[k - 1] == p);
                        }
                    }
                    if p == path@ {
                        assert(new_paths[at as int] == p);
                    }
                    if old_paths.contains(p) {
                        let k = old_paths.index_of(p);
                        if k < at {
                            assert(new_paths[k] == p);
                        } else {
                            assert(new_paths[k + 1] == p);
                        }
                    }
                }
                assert forall|p: Seq<char>| new_paths.contains(p) implies self.values()[new_paths.index_of(
                    p,
                )] == before@.insert(path@, value@)[p] by {
                    let k = new_paths.index_of(p);
                    if k == at {
                    } else if k < at {
                        lemma_index_of_position(old_paths, k);
                    } else {
                        lemma_index_of_position(old_paths, k - 1);
                    }
                }
                assert(self@ =~= before@.insert(path@, value@));
            }
            None
        }
    }
}

} // verus!
