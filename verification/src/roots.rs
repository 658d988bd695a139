//! The known root that a path belongs to, whatever system read the paths.

use crate::path::{components, part_views, path_views, starts_with_parts, FilePath};
use vstd::prelude::*;

verus! {

/// A root: its path, and the components that the path is made of.
#[verifier::ext_equal]
pub struct RootView {
    pub path: Seq<u8>,
    pub parts: Seq<Seq<u8>>,
}

/// The root at the Unix path `p`.
pub open spec fn unix_root(p: Seq<u8>) -> RootView {
    RootView { path: p, parts: components(p) }
}

/// The roots at the Unix paths `roots`.
pub open spec fn unix_roots(roots: Seq<Seq<u8>>) -> Seq<RootView> {
    roots.map_values(|p: Seq<u8>| unix_root(p))
}

/// Whether a path with the components `own` is the root or lies below it.
pub open spec fn lies_under(own: Seq<Seq<u8>>, root: RootView) -> bool {
    root.parts.is_prefix_of(own)
}

/// Whether `i` is the root that a path with the components `own` belongs to: it lies under
/// `roots[i]`, no root it lies under is longer in bytes, and of those equally long `i` is the
/// last.
pub open spec fn is_choice(own: Seq<Seq<u8>>, roots: Seq<RootView>, i: int) -> bool {
    &&& 0 <= i < roots.len()
    &&& lies_under(own, roots[i])
    &&& forall|j: int|
        0 <= j < roots.len() && lies_under(own, #[trigger] roots[j]) ==> roots[j].path.len()
            < roots[i].path.len() || (roots[j].path.len() == roots[i].path.len() && j <= i)
}

/// The root that a path with the components `own` belongs to, if it lies under any.
pub open spec fn chosen_root(own: Seq<Seq<u8>>, roots: Seq<RootView>) -> Option<RootView> {
    if exists|j: int| 0 <= j < roots.len() && lies_under(own, #[trigger] roots[j]) {
        Some(roots[choose|i: int| is_choice(own, roots, i)])
    } else {
        None
    }
}

/// Where a path lies under some root, there is a choice among the roots.
pub proof fn choice_exists(own: Seq<Seq<u8>>, roots: Seq<RootView>, j: int)
    requires
        0 <= j < roots.len(),
        lies_under(own, roots[j]),
    ensures
        exists|i: int| is_choice(own, roots, i),
    decreases roots.len(),
{
    let n = roots.len() - 1;
    let rest = roots.drop_last();
    if exists|k: int| 0 <= k < n && lies_under(own, #[trigger] roots[k]) {
        let k = choose|k: int| 0 <= k < n && lies_under(own, #[trigger] roots[k]);
        assert(rest[k] == roots[k]);
        choice_exists(own, rest, k);
        let i = choose|i: int| is_choice(own, rest, i);
        let better = lies_under(own, roots[n]) && roots[i].path.len() <= roots[n].path.len();
        let pick = if better {
            n
        } else {
            i
        };
        assert forall|m: int|
            0 <= m < roots.len() && lies_under(own, #[trigger] roots[m]) implies roots[m].path.len()
            < roots[pick].path.len() || (roots[m].path.len() == roots[pick].path.len() && m
            <= pick) by {
            if m < n {
                assert(rest[m] == roots[m]);
            }
        }
        assert(is_choice(own, roots, pick));
    } else {
        assert(is_choice(own, roots, n));
    }
}

/// There is only one choice among the roots: whichever root fits the description is the one that
/// the path belongs to.
pub proof fn choice_is_unique(own: Seq<Seq<u8>>, roots: Seq<RootView>, i: int)
    requires
        is_choice(own, roots, i),
    ensures
        chosen_root(own, roots) == Some(roots[i]),
{
    let chosen = choose|k: int| is_choice(own, roots, k);
    assert(is_choice(own, roots, chosen));
    assert(lies_under(own, roots[i]));
    assert(lies_under(own, roots[chosen]));
}

/// Whether `i` is the choice among the roots that `hits` marks: none is longer, and of those
/// equally long it is the last.
pub open spec fn is_longest_hit(hits: Seq<bool>, lens: Seq<usize>, i: int) -> bool {
    &&& 0 <= i < hits.len()
    &&& hits[i]
    &&& forall|j: int|
        0 <= j < hits.len() && #[trigger] hits[j] ==> lens[j] < lens[i] || (lens[j] == lens[i] && j
            <= i)
}

/// `hits` marks no root.
pub open spec fn none_is_hit(hits: Seq<bool>) -> bool {
    forall|j: int| 0 <= j < hits.len() ==> !#[trigger] hits[j]
}

/// Picks the longest of the roots that `hits` marks, the last of them where several are equally
/// long. `lens` holds the length of each root.
pub fn longest_hit(hits: &Vec<bool>, lens: &Vec<usize>) -> (res: Option<usize>)
    requires
        hits.len() == lens.len(),
    ensures
        match res {
            Some(i) => is_longest_hit(hits@, lens@, i as int),
            None => forall|j: int| 0 <= j < hits.len() ==> !#[trigger] hits@[j],
        },
        res is None ==> none_is_hit(hits@),
{
    let mut best: Option<usize> = None;
    let mut i: usize = 0;
    while i < hits.len()
        invariant
            i <= hits.len(),
            hits.len() == lens.len(),
            match best {
                Some(b) => is_longest_hit(hits@.take(i as int), lens@.take(i as int), b as int),
                None => forall|j: int| 0 <= j < i ==> !#[trigger] hits@[j],
            },
        decreases hits.len() - i,
    {
        let ghost seen = hits@.take(i as int);
        let ghost next = hits@.take(i + 1);
        proof {
            assert forall|j: int| 0 <= j < i implies next[j] == #[trigger] seen[j] by {}
        }
        if hits[i] {
            let better = match best {
                Some(b) => lens[b] <= lens[i],
                None => true,
            };
            if better {
                best = Some(i);
            }
        }
        proof {
            if let Some(b) = best {
                assert forall|j: int| 0 <= j < next.len() && #[trigger] next[j] implies lens@.take(
                    i + 1,
                )[j] < lens@.take(i + 1)[b as int] || (lens@.take(i + 1)[j] == lens@.take(i + 1)[
                b as int] && j <= b) by {
                    if j < i {
                        assert(seen[j]);
                    }
                }
                assert(next[b as int]);
            }
        }
        i = i + 1;
    }
    proof {
        assert(hits@.take(hits@.len() as int) =~= hits@);
        assert(lens@.take(lens@.len() as int) =~= lens@);
    }
    best
}

/// Known roots, prepared for matching paths against them.
pub struct RootTable {
    parts: Vec<Vec<Vec<u8>>>,
    lens: Vec<usize>,
    roots: Ghost<Seq<RootView>>,
}

/// The components of each path of `v`.
pub open spec fn parts_views(v: Seq<Vec<Vec<u8>>>) -> Seq<Seq<Seq<u8>>> {
    v.map_values(|parts: Vec<Vec<u8>>| part_views(parts@))
}

/// The roots at `paths` with the components `parts`.
pub open spec fn roots_with(paths: Seq<Seq<u8>>, parts: Seq<Seq<Seq<u8>>>) -> Seq<RootView> {
    Seq::new(paths.len(), |i: int| RootView { path: paths[i], parts: parts[i] })
}

impl RootTable {
    /// The roots in the table.
    pub closed spec fn view(&self) -> Seq<RootView> {
        self.roots@
    }

    #[verifier::type_invariant]
    spec fn well_formed(self) -> bool {
        &&& self.parts@.len() == self.roots@.len()
        &&& self.lens@.len() == self.roots@.len()
        &&& forall|i: int|
            #![trigger self.roots@[i]]
            0 <= i < self.roots@.len() ==> part_views(self.parts@[i]@) == self.roots@[i].parts
                && self.lens@[i] == self.roots@[i].path.len()
    }

    /// A table of the Unix paths `roots`.
    pub fn new(roots: &Vec<FilePath>) -> (res: RootTable)
        ensures
            res@ == unix_roots(path_views(roots@)),
    {
        let mut parts: Vec<Vec<Vec<u8>>> = Vec::new();
        let ghost all = path_views(roots@);
        let mut i: usize = 0;
        while i < roots.len()
            invariant
                i <= roots.len(),
                all == path_views(roots@),
                parts@.len() == i,
                forall|k: int| 0 <= k < i ==> part_views((#[trigger] parts@[k])@) == components(all[k]),
            decreases roots.len() - i,
        {
            assert(all[i as int] == roots@[i as int]@);
            parts.push(roots[i].components());
            i = i + 1;
        }
        let res = RootTable::with_parts(roots, parts);
        proof {
            assert forall|k: int| 0 <= k < all.len() implies res@[k] == unix_roots(all)[k] by {
                assert(res@[k].parts == parts_views(parts@)[k]);
                assert(part_views(parts@[k]@) == components(all[k]));
            }
            assert(res@ =~= unix_roots(all));
        }
        res
    }

    /// A table of `roots` with the components `parts`.
    pub fn with_parts(roots: &Vec<FilePath>, parts: Vec<Vec<Vec<u8>>>) -> (res: RootTable)
        requires
            roots.len() == parts.len(),
        ensures
            res@ == roots_with(path_views(roots@), parts_views(parts@)),
    {
        let mut lens: Vec<usize> = Vec::new();
        let ghost all = roots_with(path_views(roots@), parts_views(parts@));
        let mut i: usize = 0;
        while i < roots.len()
            invariant
                i <= roots.len(),
                all == roots_with(path_views(roots@), parts_views(parts@)),
                lens@.len() == i,
                forall|k: int|
                    #![trigger all[k]]
                    0 <= k < i ==> lens@[k] == all[k].path.len(),
            decreases roots.len() - i,
        {
            assert(all[i as int].path == roots@[i as int]@);
            lens.push(roots[i].bytes.len());
            i = i + 1;
        }
        RootTable { parts, lens, roots: Ghost(all) }
    }

    /// The index of the root that the Unix path `path` belongs to, if it lies under any.
    pub fn longest_match(&self, path: &FilePath) -> (res: Option<usize>)
        ensures
            match res {
                Some(i) => is_choice(components(path@), self@, i as int) && chosen_root(
                    components(path@),
                    self@,
                ) == Some(self@[i as int]),
                None => chosen_root(components(path@), self@) is None,
            },
    {
        self.longest_match_of(&path.components())
    }

    /// The index of the root that a path with the components `own` belongs to, if it lies under
    /// any.
    pub fn longest_match_of(&self, own: &Vec<Vec<u8>>) -> (res: Option<usize>)
        ensures
            match res {
                Some(i) => is_choice(part_views(own@), self@, i as int) && chosen_root(
                    part_views(own@),
                    self@,
                ) == Some(self@[i as int]),
                None => chosen_root(part_views(own@), self@) is None,
            },
    {
        proof {
            use_type_invariant(self);
        }
        let ghost names = part_views(own@);
        let mut hits: Vec<bool> = Vec::new();
        let mut i: usize = 0;
        while i < self.parts.len()
            invariant
                self.well_formed(),
                i <= self.parts@.len(),
                names == part_views(own@),
                hits@.len() == i,
                forall|k: int| 0 <= k < i ==> #[trigger] hits@[k] == lies_under(names, self@[k]),
            decreases self.parts@.len() - i,
        {
            assert(part_views(self.parts@[i as int]@) == self.roots@[i as int].parts);
            hits.push(starts_with_parts(own, &self.parts[i]));
            i = i + 1;
        }
        let best = longest_hit(&hits, &self.lens);
        proof {
            match best {
                Some(b) => {
                    assert(hits@[b as int]);
                    assert forall|j: int|
                        0 <= j < self@.len() && lies_under(names, #[trigger] self@[j]) implies self@[
                    j].path.len() < self@[b as int].path.len() || (self@[j].path.len()
                        == self@[b as int].path.len() && j <= b) by {
                        assert(hits@[j]);
                        assert(self.lens@[j] == self.roots@[j].path.len());
                        assert(self.lens@[b as int] == self.roots@[b as int].path.len());
                    }
                    choice_is_unique(names, self@, b as int);
                },
                None => {
                    assert forall|j: int| 0 <= j < self@.len() implies !lies_under(
                        names,
                        #[trigger] self@[j],
                    ) by {
                        assert(!hits@[j]);
                    }
                },
            }
        }
        best
    }
}

/// Among the roots that are marked none is longer than the one that is picked, and none behind it is
/// equally long; one is picked exactly where any is marked.
pub proof fn longest_marked_root_is_picked(
    hits: &Vec<bool>,
    lens: &Vec<usize>,
    res: Option<usize>,
    j: int,
)
    requires
        call_ensures(longest_hit, (hits, lens), res),
        hits@.len() == lens@.len(),
    ensures
        0 <= j < hits@.len() && hits@[j] ==> res is Some && lens@[j] <= lens@[res.unwrap() as int]
            && (lens@[j] == lens@[res.unwrap() as int] ==> j <= res.unwrap()),
        res matches Some(i) ==> i < hits@.len() && hits@[i as int],
{
}

} // verus!
