//! Changed files by the root that they are reported under.

use crate::names::{id_key, id_key_text, lemma_id_key};
use crate::path::{components, part_views, path_views, FilePath};
use crate::roots::{chosen_root, parts_views, roots_with, RootTable, RootView};
use crate::text::text_views;
use crate::uri::{path_to_uri, path_uri};
use vstd::hash_map::StringHashMap;
use vstd::prelude::*;

verus! {

/// A changed file and the root it is reported under.
#[verifier::ext_equal]
pub struct Filing {
    pub root: RootView,
    pub uri: Seq<char>,
}

/// How a file with the components `own` is reported: under the known root it belongs to, or else
/// under the default root; not at all where there is neither.
pub open spec fn filing_of(
    own: Seq<Seq<u8>>,
    roots: Seq<RootView>,
    default_root: Option<RootView>,
    uri: Seq<char>,
) -> Option<Filing> {
    match chosen_root(own, roots) {
        Some(root) => Some(Filing { root, uri }),
        None => match default_root {
            Some(root) => Some(Filing { root, uri }),
            None => None,
        },
    }
}

/// Whether the file is reported under the root with the components `id`.
pub open spec fn goes_to(item: Option<Filing>, id: Seq<Seq<u8>>) -> bool {
    item matches Some(filing) && filing.root.parts == id
}

/// The URIs of the files that are reported under the root with the components `id`, in their
/// order.
pub open spec fn uris_for(items: Seq<Option<Filing>>, id: Seq<Seq<u8>>) -> Seq<Seq<char>>
    decreases items.len(),
{
    if items.len() == 0 {
        Seq::empty()
    } else {
        let before = uris_for(items.drop_last(), id);
        if goes_to(items.last(), id) {
            before.push(items.last().unwrap().uri)
        } else {
            before
        }
    }
}

/// Whether the file `k` is the first that is reported under the root with the components `id`,
/// and `root` is the path of the root it has.
pub open spec fn is_first_at(
    items: Seq<Option<Filing>>,
    id: Seq<Seq<u8>>,
    root: Seq<u8>,
    k: int,
) -> bool {
    &&& 0 <= k < items.len()
    &&& goes_to(items[k], id)
    &&& items[k].unwrap().root.path == root
    &&& forall|j: int| 0 <= j < k ==> !goes_to(#[trigger] items[j], id)
}

/// Whether `root` is written as the root of the first file that is reported under it.
pub open spec fn is_first_spelling(
    items: Seq<Option<Filing>>,
    id: Seq<Seq<u8>>,
    root: Seq<u8>,
) -> bool {
    exists|k: int| is_first_at(items, id, root, k)
}

/// No two of `ids` are the same.
pub open spec fn all_distinct(ids: Seq<Seq<Seq<u8>>>) -> bool {
    forall|i: int, j: int| 0 <= i < j < ids.len() ==> #[trigger] ids[i] != #[trigger] ids[j]
}

/// Whether `group` holds the URIs of `items` that are reported under the root with the components
/// `id`.
pub open spec fn is_group_of(
    group: (Seq<u8>, Seq<Seq<char>>),
    id: Seq<Seq<u8>>,
    items: Seq<Option<Filing>>,
) -> bool {
    group.1 == uris_for(items, id) && is_first_spelling(items, id, group.0)
}

/// Whether the file `item` has a group among those with the roots `ids`.
pub open spec fn has_group(ids: Seq<Seq<Seq<u8>>>, item: Option<Filing>) -> bool {
    exists|i: int| 0 <= i < ids.len() && goes_to(item, #[trigger] ids[i])
}

/// Whether a file before the file `k` is reported under the root with the components `id`.
pub open spec fn seen_before(items: Seq<Option<Filing>>, id: Seq<Seq<u8>>, k: int) -> bool {
    exists|m: int| 0 <= m < k && goes_to(#[trigger] items[m], id)
}

/// `ids` stand in the order in which they first occur: before any file is reported under one of
/// them, some file is reported under each of those in front of it.
pub open spec fn in_order_of_first(ids: Seq<Seq<Seq<u8>>>, items: Seq<Option<Filing>>) -> bool {
    forall|i: int, j: int, k: int|
        0 <= i < j < ids.len() && 0 <= k < items.len() && #[trigger] goes_to(items[k], ids[j])
            ==> seen_before(items, #[trigger] ids[i], k)
}

/// `groups` holds the URIs of `items` by the root they are reported under, and `ids` holds the
/// components of those roots: every file with a root has a group, no two groups have the same
/// root, each holds the URIs of its root, and they stand in the order in which their roots first
/// occur.
pub open spec fn is_grouping(
    groups: Seq<(Seq<u8>, Seq<Seq<char>>)>,
    ids: Seq<Seq<Seq<u8>>>,
    items: Seq<Option<Filing>>,
) -> bool {
    &&& ids.len() == groups.len()
    &&& all_distinct(ids)
    &&& forall|i: int| 0 <= i < groups.len() ==> is_group_of(#[trigger] groups[i], ids[i], items)
    &&& forall|k: int| 0 <= k < items.len() && #[trigger] items[k] is Some ==> has_group(
        ids,
        items[k],
    )
    &&& in_order_of_first(ids, items)
}

/// The changed files under one root.
pub struct RootGroup {
    pub root: FilePath,
    pub uris: Vec<String>,
}

impl View for RootGroup {
    type V = (Seq<u8>, Seq<Seq<char>>);

    open spec fn view(&self) -> (Seq<u8>, Seq<Seq<char>>) {
        (self.root@, text_views(self.uris@))
    }
}

/// What the groups hold.
pub open spec fn group_views(v: Seq<RootGroup>) -> Seq<(Seq<u8>, Seq<Seq<char>>)> {
    v.map_values(|g: RootGroup| g@)
}

/// `places` leads from the key of each of `ids` to its place, and nowhere else.
spec fn places_match(ids: Seq<Seq<Seq<u8>>>, places: Map<Seq<char>, usize>) -> bool {
    &&& forall|t: Seq<char>| #[trigger]
        places.contains_key(t) ==> places[t] < ids.len() && id_key(ids[places[t] as int]) == t
    &&& forall|i: int|
        0 <= i < ids.len() ==> places.contains_key(id_key(#[trigger] ids[i])) && places[id_key(
            ids[i],
        )] == i
}

/// The place of the root with the key `key`.
fn place_of(places: &StringHashMap<usize>, key: &str, Ghost(ids): Ghost<Seq<Seq<Seq<u8>>>>, Ghost(
    id,
): Ghost<Seq<Seq<u8>>>) -> (res: Option<usize>)
    requires
        places_match(ids, places@),
        key@ == id_key(id),
    ensures
        match res {
            Some(i) => i < ids.len() && ids[i as int] == id,
            None => !places@.contains_key(id_key(id)) && forall|i: int|
                0 <= i < ids.len() ==> #[trigger] ids[i] != id,
        },
{
    let found = places.get(key);
    match found {
        Some(i) => {
            proof {
                assert(places@.contains_key(key@));
                lemma_id_key(ids[*i as int], id);
            }
            Some(*i)
        },
        None => None,
    }
}

/// The group of the root with the components `id` holds `uris`.
pub open spec fn has_uris(
    groups: Seq<(Seq<u8>, Seq<Seq<char>>)>,
    ids: Seq<Seq<Seq<u8>>>,
    id: Seq<Seq<u8>>,
    uris: Seq<Seq<char>>,
) -> bool {
    exists|i: int| 0 <= i < groups.len() && #[trigger] ids[i] == id && uris == groups[i].1
}

/// No group has the root with the components `id`.
pub open spec fn has_no_group(
    groups: Seq<(Seq<u8>, Seq<Seq<char>>)>,
    ids: Seq<Seq<Seq<u8>>>,
    id: Seq<Seq<u8>>,
) -> bool {
    forall|i: int| 0 <= i < groups.len() ==> #[trigger] ids[i] != id
}

/// Changed files by root, each root once.
pub struct PathGroups {
    groups: Vec<RootGroup>,
    places: StringHashMap<usize>,
    ids: Ghost<Seq<Seq<Seq<u8>>>>,
}

impl PathGroups {
    /// The groups, in the order in which their roots first occurred.
    pub closed spec fn view(&self) -> Seq<(Seq<u8>, Seq<Seq<char>>)> {
        group_views(self.groups@)
    }

    /// The components of the groups' roots.
    pub closed spec fn ids(&self) -> Seq<Seq<Seq<u8>>> {
        self.ids@
    }

    #[verifier::type_invariant]
    spec fn well_formed(self) -> bool {
        self.ids@.len() == self.groups@.len() && places_match(self.ids@, self.places@)
    }

    /// The number of roots.
    pub fn len(&self) -> (res: usize)
        ensures
            res == self@.len(),
            res == self.ids().len(),
    {
        proof {
            use_type_invariant(self);
        }
        self.groups.len()
    }

    /// The URIs under the root at the Unix path `root`, if any file is reported under it.
    pub fn get(&self, root: &FilePath) -> (res: Option<&Vec<String>>)
        ensures
            match res {
                Some(uris) => exists|i: int|
                    0 <= i < self@.len() && #[trigger] self.ids()[i] == components(root@)
                        && text_views(uris@) == self@[i].1,
                None => forall|i: int|
                    0 <= i < self@.len() ==> #[trigger] self.ids()[i] != components(root@),
            },
            res matches Some(uris) ==> has_uris(
                self@,
                self.ids(),
                components(root@),
                text_views(uris@),
            ),
            res is None ==> has_no_group(self@, self.ids(), components(root@)),
    {
        self.get_by_parts(&root.components())
    }

    /// The URIs under the root with the components `id`, if any file is reported under it.
    pub fn get_by_parts(&self, id: &Vec<Vec<u8>>) -> (res: Option<&Vec<String>>)
        ensures
            match res {
                Some(uris) => exists|i: int|
                    0 <= i < self@.len() && #[trigger] self.ids()[i] == part_views(id@)
                        && text_views(uris@) == self@[i].1,
                None => forall|i: int|
                    0 <= i < self@.len() ==> #[trigger] self.ids()[i] != part_views(id@),
            },
            res matches Some(uris) ==> has_uris(
                self@,
                self.ids(),
                part_views(id@),
                text_views(uris@),
            ),
            res is None ==> has_no_group(self@, self.ids(), part_views(id@)),
    {
        proof {
            use_type_invariant(self);
        }
        let key = id_key_text(id);
        match place_of(&self.places, key.as_str(), Ghost(self.ids@), Ghost(part_views(id@))) {
            Some(i) => {
                let uris = &self.groups[i].uris;
                assert(text_views(uris@) == self@[i as int].1);
                assert(self.ids()[i as int] == part_views(id@));
                Some(uris)
            },
            None => None,
        }
    }

    /// All groups, in the order in which their roots first occurred.
    pub fn groups(&self) -> (res: &Vec<RootGroup>)
        ensures
            group_views(res@) == self@,
    {
        &self.groups
    }
}

// How a grouping grows with the next file.
proof fn lemma_uris_push(items: Seq<Option<Filing>>, next: Option<Filing>, id: Seq<Seq<u8>>)
    ensures
        uris_for(items.push(next), id) == (if goes_to(next, id) {
            uris_for(items, id).push(next.unwrap().uri)
        } else {
            uris_for(items, id)
        }),
{
    assert(items.push(next).drop_last() =~= items);
}

proof fn lemma_first_stays(
    items: Seq<Option<Filing>>,
    next: Option<Filing>,
    id: Seq<Seq<u8>>,
    root: Seq<u8>,
)
    requires
        is_first_spelling(items, id, root),
    ensures
        is_first_spelling(items.push(next), id, root),
{
    let longer = items.push(next);
    let k = choose|k: int| is_first_at(items, id, root, k);
    assert(longer[k] == items[k]);
    assert forall|j: int| 0 <= j < k implies !goes_to(#[trigger] longer[j], id) by {
        assert(longer[j] == items[j]);
    }
    assert(is_first_at(longer, id, root, k));
}

// No file goes to a root that no group has.
proof fn lemma_no_uris(ids: Seq<Seq<Seq<u8>>>, items: Seq<Option<Filing>>, id: Seq<Seq<u8>>)
    requires
        forall|k: int| 0 <= k < items.len() && #[trigger] items[k] is Some ==> has_group(
            ids,
            items[k],
        ),
        forall|i: int| 0 <= i < ids.len() ==> #[trigger] ids[i] != id,
    ensures
        uris_for(items, id) == Seq::<Seq<char>>::empty(),
        forall|k: int| 0 <= k < items.len() ==> !goes_to(#[trigger] items[k], id),
    decreases items.len(),
{
    assert forall|k: int| 0 <= k < items.len() implies !goes_to(#[trigger] items[k], id) by {
        if goes_to(items[k], id) {
            let i = choose|i: int| 0 <= i < ids.len() && goes_to(items[k], #[trigger] ids[i]);
            assert(ids[i] != id);
        }
    }
    if items.len() > 0 {
        let rest = items.drop_last();
        assert forall|k: int| 0 <= k < rest.len() && #[trigger] rest[k] is Some implies has_group(
            ids,
            rest[k],
        ) by {
            assert(rest[k] == items[k]);
        }
        lemma_no_uris(ids, rest, id);
    }
}

proof fn lemma_groups_kept(
    ids: Seq<Seq<Seq<u8>>>,
    grown: Seq<Seq<Seq<u8>>>,
    items: Seq<Option<Filing>>,
)
    requires
        ids.is_prefix_of(grown),
        forall|k: int| 0 <= k < items.len() && #[trigger] items[k] is Some ==> has_group(
            ids,
            items[k],
        ),
    ensures
        forall|k: int| 0 <= k < items.len() && #[trigger] items[k] is Some ==> has_group(
            grown,
            items[k],
        ),
{
    assert forall|k: int| 0 <= k < items.len() && #[trigger] items[k] is Some implies has_group(
        grown,
        items[k],
    ) by {
        let i = choose|i: int| 0 <= i < ids.len() && goes_to(items[k], #[trigger] ids[i]);
        assert(grown[i] == grown.subrange(0, ids.len() as int)[i]);
    }
}

proof fn lemma_all_have_groups(
    ids: Seq<Seq<Seq<u8>>>,
    items: Seq<Option<Filing>>,
    next: Option<Filing>,
)
    requires
        forall|k: int| 0 <= k < items.len() && #[trigger] items[k] is Some ==> has_group(
            ids,
            items[k],
        ),
        next is Some ==> has_group(ids, next),
    ensures
        forall|k: int|
            0 <= k < items.push(next).len() && #[trigger] items.push(next)[k] is Some ==> has_group(
                ids,
                items.push(next)[k],
            ),
{
    let longer = items.push(next);
    assert forall|k: int| 0 <= k < longer.len() && #[trigger] longer[k] is Some implies has_group(
        ids,
        longer[k],
    ) by {
        if k < items.len() {
            assert(longer[k] == items[k]);
        }
    }
}

// A group that the next file does not go to stays as it is.
proof fn lemma_other_group(
    group: (Seq<u8>, Seq<Seq<char>>),
    id: Seq<Seq<u8>>,
    items: Seq<Option<Filing>>,
    next: Option<Filing>,
)
    requires
        is_group_of(group, id, items),
        !goes_to(next, id),
    ensures
        is_group_of(group, id, items.push(next)),
{
    lemma_uris_push(items, next, id);
    lemma_first_stays(items, next, id, group.0);
}

// Some file is reported under the root of each group.
proof fn lemma_nonempty(
    groups: Seq<(Seq<u8>, Seq<Seq<char>>)>,
    ids: Seq<Seq<Seq<u8>>>,
    items: Seq<Option<Filing>>,
    i: int,
)
    requires
        is_grouping(groups, ids, items),
        0 <= i < ids.len(),
    ensures
        seen_before(items, ids[i], items.len() as int),
{
    assert(is_group_of(groups[i], ids[i], items));
    let m = choose|m: int| is_first_at(items, ids[i], groups[i].0, m);
    assert(goes_to(items[m], ids[i]));
}

proof fn lemma_still_seen(
    items: Seq<Option<Filing>>,
    next: Option<Filing>,
    id: Seq<Seq<u8>>,
    k: int,
)
    requires
        seen_before(items, id, k),
        k <= items.len(),
    ensures
        seen_before(items.push(next), id, k),
{
    let m = choose|m: int| 0 <= m < k && goes_to(#[trigger] items[m], id);
    assert(items.push(next)[m] == items[m]);
}

// The next file, if it opens no group, leaves the groups in order.
proof fn lemma_order_kept(
    groups: Seq<(Seq<u8>, Seq<Seq<char>>)>,
    ids: Seq<Seq<Seq<u8>>>,
    items: Seq<Option<Filing>>,
    next: Option<Filing>,
)
    requires
        is_grouping(groups, ids, items),
    ensures
        in_order_of_first(ids, items.push(next)),
{
    let longer = items.push(next);
    assert forall|i: int, j: int, k: int|
        0 <= i < j < ids.len() && 0 <= k < longer.len() && #[trigger] goes_to(
            longer[k],
            ids[j],
        ) implies seen_before(longer, #[trigger] ids[i], k) by {
        if k < items.len() {
            assert(goes_to(items[k], ids[j]));
        } else {
            lemma_nonempty(groups, ids, items, i);
        }
        lemma_still_seen(items, next, ids[i], k);
    }
}

// The next file goes to the group at `at`.
proof fn lemma_joins_group(
    groups: Seq<(Seq<u8>, Seq<Seq<char>>)>,
    ids: Seq<Seq<Seq<u8>>>,
    items: Seq<Option<Filing>>,
    filing: Filing,
    at: int,
)
    requires
        is_grouping(groups, ids, items),
        0 <= at < ids.len(),
        ids[at] == filing.root.parts,
    ensures
        is_grouping(
            groups.update(at, (groups[at].0, groups[at].1.push(filing.uri))),
            ids,
            items.push(Some(filing)),
        ),
{
    let next = Some(filing);
    let after = groups.update(at, (groups[at].0, groups[at].1.push(filing.uri)));
    assert(goes_to(next, ids[at]));
    lemma_all_have_groups(ids, items, next);
    lemma_order_kept(groups, ids, items, next);
    assert forall|i: int| 0 <= i < after.len() implies is_group_of(
        #[trigger] after[i],
        ids[i],
        items.push(next),
    ) by {
        assert(is_group_of(groups[i], ids[i], items));
        if i == at {
            lemma_uris_push(items, next, ids[at]);
            lemma_first_stays(items, next, ids[at], groups[at].0);
        } else {
            assert(ids[i] != ids[at]) by {
                if i < at {
                    assert(ids[i] != ids[at]);
                } else {
                    assert(ids[at] != ids[i]);
                }
            }
            lemma_other_group(groups[i], ids[i], items, next);
        }
    }
}

// The next file is the first under its root.
proof fn lemma_opens_group(
    groups: Seq<(Seq<u8>, Seq<Seq<char>>)>,
    ids: Seq<Seq<Seq<u8>>>,
    items: Seq<Option<Filing>>,
    filing: Filing,
)
    requires
        is_grouping(groups, ids, items),
        forall|i: int| 0 <= i < ids.len() ==> #[trigger] ids[i] != filing.root.parts,
    ensures
        is_grouping(
            groups.push((filing.root.path, seq![filing.uri])),
            ids.push(filing.root.parts),
            items.push(Some(filing)),
        ),
{
    let next = Some(filing);
    let id = filing.root.parts;
    let after = groups.push((filing.root.path, seq![filing.uri]));
    let grown = ids.push(id);
    let longer = items.push(next);
    let n = ids.len() as int;
    assert(ids =~= grown.subrange(0, n));
    lemma_groups_kept(ids, grown, items);
    assert(goes_to(next, grown[n]));
    lemma_all_have_groups(grown, items, next);
    lemma_no_uris(ids, items, id);
    lemma_uris_push(items, next, id);
    assert forall|i: int| 0 <= i < after.len() implies is_group_of(
        #[trigger] after[i],
        grown[i],
        longer,
    ) by {
        if i < n {
            assert(is_group_of(groups[i], ids[i], items));
            assert(ids[i] != id);
            lemma_other_group(groups[i], ids[i], items, next);
        } else {
            assert(after[i].1 =~= uris_for(longer, id));
            assert forall|j: int| 0 <= j < items.len() implies !goes_to(#[trigger] longer[j], id) by {
                assert(longer[j] == items[j]);
            }
            assert(is_first_at(longer, id, filing.root.path, items.len() as int));
        }
    }
    assert forall|i: int, j: int| 0 <= i < j < grown.len() implies #[trigger] grown[i]
        != #[trigger] grown[j] by {
        if j < n {
            assert(ids[i] != ids[j]);
        } else {
            assert(ids[i] != id);
        }
    }
    lemma_order_kept(groups, ids, items, next);
    assert forall|i: int, j: int, k: int|
        0 <= i < j < grown.len() && 0 <= k < longer.len() && #[trigger] goes_to(
            longer[k],
            grown[j],
        ) implies seen_before(longer, #[trigger] grown[i], k) by {
        assert(grown[i] == ids[i]);
        if j < n {
            assert(goes_to(longer[k], ids[j]));
        } else {
            if k < items.len() {
                assert(longer[k] == items[k]);
            }
            lemma_nonempty(groups, ids, items, i);
            lemma_still_seen(items, next, ids[i], k);
        }
    }
}

// The next file has no root.
proof fn lemma_skips(
    groups: Seq<(Seq<u8>, Seq<Seq<char>>)>,
    ids: Seq<Seq<Seq<u8>>>,
    items: Seq<Option<Filing>>,
)
    requires
        is_grouping(groups, ids, items),
    ensures
        is_grouping(groups, ids, items.push(None)),
{
    lemma_all_have_groups(ids, items, None);
    lemma_order_kept(groups, ids, items, None);
    assert forall|i: int| 0 <= i < groups.len() implies is_group_of(
        #[trigger] groups[i],
        ids[i],
        items.push(None),
    ) by {
        lemma_other_group(groups[i], ids[i], items, None);
    }
}

/// A root under which files can be filed.
struct NamedRoot {
    path: FilePath,
    key: String,
    root: Ghost<RootView>,
}

impl NamedRoot {
    spec fn well_formed(self) -> bool {
        self.path@ == self.root@.path && self.key@ == id_key(self.root@.parts)
    }
}

fn name_root(path: &FilePath, parts: &Vec<Vec<u8>>) -> (res: NamedRoot)
    ensures
        res.well_formed(),
        res.root@ == (RootView { path: path@, parts: part_views(parts@) }),
{
    NamedRoot {
        path: path.clone(),
        key: id_key_text(parts),
        root: Ghost(RootView { path: path@, parts: part_views(parts@) }),
    }
}

/// Groups that files are still added to.
pub(crate) struct GroupBuilder {
    table: RootTable,
    names: Vec<NamedRoot>,
    default_name: Option<NamedRoot>,
    groups: Vec<RootGroup>,
    places: StringHashMap<usize>,
    ids: Ghost<Seq<Seq<Seq<u8>>>>,
    items: Ghost<Seq<Option<Filing>>>,
}

impl GroupBuilder {
    /// The known roots.
    pub(crate) closed spec fn roots(self) -> Seq<RootView> {
        self.table@
    }

    /// The root for files that are under none of them.
    pub(crate) closed spec fn default_root(self) -> Option<RootView> {
        match self.default_name {
            Some(name) => Some(name.root@),
            None => None,
        }
    }

    /// The files added so far.
    pub(crate) closed spec fn items(self) -> Seq<Option<Filing>> {
        self.items@
    }

    /// The groups are those of the files added so far.
    pub(crate) closed spec fn well_formed(self) -> bool {
        &&& self.names@.len() == self.table@.len()
        &&& forall|i: int|
            0 <= i < self.names@.len() ==> (#[trigger] self.names@[i]).well_formed()
                && self.names@[i].root@ == self.table@[i]
        &&& self.default_name matches Some(name) ==> name.well_formed()
        &&& places_match(self.ids@, self.places@)
        &&& is_grouping(group_views(self.groups@), self.ids@, self.items@)
    }

    /// No files yet. `parts` holds the components of each of `roots`.
    pub(crate) fn new(
        roots: &Vec<FilePath>,
        parts: Vec<Vec<Vec<u8>>>,
        default_root: Option<(&FilePath, Vec<Vec<u8>>)>,
    ) -> (res: GroupBuilder)
        requires
            roots.len() == parts.len(),
        ensures
            res.well_formed(),
            res.roots() == roots_with(path_views(roots@), parts_views(parts@)),
            res.default_root() == match default_root {
                Some((path, parts)) => Some(
                    RootView { path: path@, parts: part_views(parts@) },
                ),
                None => None,
            },
            res.items() == Seq::<Option<Filing>>::empty(),
    {
        let ghost all = roots_with(path_views(roots@), parts_views(parts@));
        let mut names: Vec<NamedRoot> = Vec::new();
        let mut i: usize = 0;
        while i < roots.len()
            invariant
                i <= roots.len(),
                roots.len() == parts.len(),
                all == roots_with(path_views(roots@), parts_views(parts@)),
                names@.len() == i,
                forall|k: int|
                    0 <= k < i ==> (#[trigger] names@[k]).well_formed() && names@[k].root@ == all[k],
            decreases roots.len() - i,
        {
            let name = name_root(&roots[i], &parts[i]);
            proof {
                assert(all[i as int].path == roots@[i as int]@);
                assert(all[i as int].parts == part_views(parts@[i as int]@));
            }
            names.push(name);
            i = i + 1;
        }
        let default_name = match default_root {
            Some((path, parts)) => Some(name_root(path, &parts)),
            None => None,
        };
        let res = GroupBuilder {
            table: RootTable::with_parts(roots, parts),
            names,
            default_name,
            groups: Vec::new(),
            places: StringHashMap::new(),
            ids: Ghost(Seq::empty()),
            items: Ghost(Seq::empty()),
        };
        assert(group_views(res.groups@) =~= Seq::empty());
        res
    }

    /// Adds the file at `path`, whose components are `own`.
    #[verifier::spinoff_prover]
    pub(crate) fn add_file(&mut self, own: &Vec<Vec<u8>>, path: &FilePath)
        requires
            old(self).well_formed(),
        ensures
            final(self).well_formed(),
            final(self).roots() == old(self).roots(),
            final(self).default_root() == old(self).default_root(),
            final(self).items() == old(self).items().push(
                filing_of(
                    part_views(own@),
                    old(self).roots(),
                    old(self).default_root(),
                    path_uri(path@),
                ),
            ),
    {
        let choice = self.table.longest_match_of(own);
        let (root, key, ghost_root): (FilePath, String, Ghost<RootView>) = match choice {
            Some(i) => {
                let name = &self.names[i];
                (name.path.clone(), name.key.clone(), Ghost(name.root@))
            },
            None => match &self.default_name {
                Some(name) => (name.path.clone(), name.key.clone(), Ghost(name.root@)),
                None => {
                    proof {
                        lemma_skips(group_views(self.groups@), self.ids@, self.items@);
                        self.items@ = self.items@.push(None);
                    }
                    return ;
                },
            },
        };
        let uri = path_to_uri(path);
        let ghost filing = Filing { root: ghost_root@, uri: uri@ };
        let ghost before = group_views(self.groups@);
        match place_of(&self.places, key.as_str(), Ghost(self.ids@), Ghost(filing.root.parts)) {
            Some(at) => {
                proof {
                    lemma_joins_group(before, self.ids@, self.items@, filing, at as int);
                }
                self.groups[at].uris.push(uri);
                proof {
                    assert(text_views(self.groups@[at as int].uris@) =~= before[at as int].1.push(
                        uri@,
                    ));
                    assert(group_views(self.groups@) =~= before.update(
                        at as int,
                        (before[at as int].0, before[at as int].1.push(uri@)),
                    ));
                    self.items@ = self.items@.push(Some(filing));
                }
            },
            None => {
                proof {
                    lemma_opens_group(before, self.ids@, self.items@, filing);
                }
                let ghost ids = self.ids@;
                self.places.insert(key, self.groups.len());
                let mut uris: Vec<String> = Vec::new();
                uris.push(uri);
                proof {
                    assert(text_views(uris@) =~= seq![uri@]);
                }
                self.groups.push(RootGroup { root, uris });
                proof {
                    let grown = ids.push(filing.root.parts);
                    assert(group_views(self.groups@) =~= before.push(
                        (filing.root.path, seq![filing.uri]),
                    ));
                    assert forall|i: int| 0 <= i < grown.len() implies self.places@.contains_key(
                        id_key(#[trigger] grown[i]),
                    ) && self.places@[id_key(grown[i])] == i by {
                        if i < ids.len() {
                            assert(grown[i] == ids[i]);
                        }
                    }
                    self.ids@ = grown;
                    self.items@ = self.items@.push(Some(filing));
                }
            },
        }
    }

    /// The groups of all files that were added.
    pub(crate) fn finish(self) -> (res: PathGroups)
        requires
            self.well_formed(),
        ensures
            is_grouping(res@, res.ids(), self.items()),
    {
        PathGroups { groups: self.groups, places: self.places, ids: self.ids }
    }
}

/// How many of `items` have a root to be reported under.
pub open spec fn reported_count(items: Seq<Option<Filing>>) -> nat
    decreases items.len(),
{
    if items.len() == 0 {
        0
    } else {
        reported_count(items.drop_last()) + if items.last() is Some {
            1nat
        } else {
            0nat
        }
    }
}

/// How many URIs the groups hold in all.
pub open spec fn total_uris(groups: Seq<(Seq<u8>, Seq<Seq<char>>)>) -> nat
    decreases groups.len(),
{
    if groups.len() == 0 {
        0
    } else {
        total_uris(groups.drop_last()) + groups.last().1.len()
    }
}

/// Grouping loses no file and reports none twice: the groups hold as many URIs as there are files
/// with a root.
pub proof fn grouping_reports_each_file_once(
    groups: Seq<(Seq<u8>, Seq<Seq<char>>)>,
    ids: Seq<Seq<Seq<u8>>>,
    items: Seq<Option<Filing>>,
)
    requires
        is_grouping(groups, ids, items),
    ensures
        total_uris(groups) == reported_count(items),
{
    lemma_count_by_group(ids, items);
    lemma_totals_agree(groups, ids, items, groups.len() as int);
    assert(groups.take(groups.len() as int) =~= groups);
}

// The number of URIs that the first `m` groups get from `items`.
spec fn uris_by_group(ids: Seq<Seq<Seq<u8>>>, m: int, items: Seq<Option<Filing>>) -> nat
    decreases m,
{
    if m <= 0 {
        0
    } else {
        uris_by_group(ids, m - 1, items) + uris_for(items, ids[m - 1]).len()
    }
}

proof fn lemma_totals_agree(
    groups: Seq<(Seq<u8>, Seq<Seq<char>>)>,
    ids: Seq<Seq<Seq<u8>>>,
    items: Seq<Option<Filing>>,
    m: int,
)
    requires
        is_grouping(groups, ids, items),
        0 <= m <= groups.len(),
    ensures
        total_uris(groups.take(m)) == uris_by_group(ids, m, items),
    decreases m,
{
    if m > 0 {
        lemma_totals_agree(groups, ids, items, m - 1);
        assert(groups.take(m).drop_last() =~= groups.take(m - 1));
        assert(is_group_of(groups[m - 1], ids[m - 1], items));
    }
}

// The last file adds one URI to the groups up to `m` if its group, at `at`, is among them.
proof fn lemma_last_by_group(ids: Seq<Seq<Seq<u8>>>, m: int, items: Seq<Option<Filing>>, at: int)
    requires
        items.len() > 0,
        0 <= m <= ids.len(),
        forall|i: int| 0 <= i < ids.len() ==> (goes_to(items.last(), #[trigger] ids[i]) <==> i == at),
    ensures
        uris_by_group(ids, m, items) == uris_by_group(ids, m, items.drop_last()) + if 0 <= at < m {
            1nat
        } else {
            0nat
        },
    decreases m,
{
    if m > 0 {
        lemma_last_by_group(ids, m - 1, items, at);
        assert(goes_to(items.last(), ids[m - 1]) <==> m - 1 == at);
    }
}

proof fn lemma_count_by_group(ids: Seq<Seq<Seq<u8>>>, items: Seq<Option<Filing>>)
    requires
        all_distinct(ids),
        forall|k: int| 0 <= k < items.len() && #[trigger] items[k] is Some ==> has_group(
            ids,
            items[k],
        ),
    ensures
        uris_by_group(ids, ids.len() as int, items) == reported_count(items),
    decreases items.len(),
{
    if items.len() == 0 {
        lemma_no_items_no_uris(ids, ids.len() as int, items);
    } else {
        let rest = items.drop_last();
        let n = items.len() - 1;
        assert forall|k: int| 0 <= k < rest.len() && #[trigger] rest[k] is Some implies has_group(
            ids,
            rest[k],
        ) by {
            assert(rest[k] == items[k]);
        }
        lemma_count_by_group(ids, rest);
        let at = if items[n] is Some {
            assert(has_group(ids, items[n]));
            choose|i: int| 0 <= i < ids.len() && goes_to(items[n], #[trigger] ids[i])
        } else {
            -1
        };
        lemma_last_by_group(ids, ids.len() as int, items, at);
    }
}

proof fn lemma_no_items_no_uris(ids: Seq<Seq<Seq<u8>>>, m: int, items: Seq<Option<Filing>>)
    requires
        items.len() == 0,
    ensures
        uris_by_group(ids, m, items) == 0,
    decreases m,
{
    if m > 0 {
        lemma_no_items_no_uris(ids, m - 1, items);
    }
}

/// The URIs of two batches under one root are those of the first batch and then those of the
/// second.
pub proof fn batches_add_up(a: Seq<Option<Filing>>, b: Seq<Option<Filing>>, id: Seq<Seq<u8>>)
    ensures
        uris_for(a + b, id) == uris_for(a, id) + uris_for(b, id),
    decreases b.len(),
{
    if b.len() == 0 {
        assert(a + b =~= a);
        assert(uris_for(a, id) + uris_for(b, id) =~= uris_for(a, id));
    } else {
        assert((a + b).drop_last() =~= a + b.drop_last());
        assert((a + b).last() == b.last());
        batches_add_up(a, b.drop_last(), id);
        assert(uris_for(a + b, id) =~= uris_for(a, id) + uris_for(b, id));
    }
}

pub(crate) proof fn lemma_uri_is_kept(items: Seq<Option<Filing>>, id: Seq<Seq<u8>>, k: int)
    requires
        0 <= k < items.len(),
        goes_to(items[k], id),
    ensures
        uris_for(items, id).contains(items[k].unwrap().uri),
    decreases items.len(),
{
    let uri = items[k].unwrap().uri;
    let all = uris_for(items, id);
    let before = uris_for(items.drop_last(), id);
    if k == items.len() - 1 {
        assert(all == before.push(uri));
        assert(all[before.len() as int] == uri);
    } else {
        lemma_uri_is_kept(items.drop_last(), id, k);
        let i = choose|i: int| 0 <= i < before.len() && before[i] == uri;
        assert(all[i] == uri);
    }
}

/// The groups can be read off one by one, and there are as many as are counted.
pub proof fn groups_can_be_read(
    groups: &PathGroups,
    list: &Vec<RootGroup>,
    len: usize,
    i: int,
)
    requires
        call_ensures(PathGroups::groups, (groups,), list),
        call_ensures(PathGroups::len, (groups,), len),
    ensures
        len == list@.len(),
        len == groups@.len(),
        0 <= i < len ==> list@[i].root@ == groups@[i].0 && text_views(list@[i].uris@)
            == groups@[i].1,
{
    if 0 <= i < list@.len() {
        assert(group_views(list@)[i] == list@[i]@);
    }
}

} // verus!
