//! Which workspace root a request or a file belongs to on Windows. What a Windows path is made of
//! and what lies above it the system tells; the decisions are the same as on Unix.

pub use crate::windows_git_root::{
    find_git_root_windows, WindowsDir, WindowsGitRootCache, WindowsLocation,
};

use crate::grouping::{
    filing_of, goes_to, grouping_reports_each_file_once, has_group, is_first_at, is_group_of,
    is_grouping, lemma_uri_is_kept, reported_count, total_uris, Filing, GroupBuilder, PathGroups,
};
use crate::path::{opt_path_ref_view, opt_path_view, part_views, path_views, FilePath};
use crate::probe::{answered, asks_anything};
use crate::roots::{
    choice_exists, choice_is_unique, chosen_root, lies_under, parts_views, roots_with, RootTable,
    RootView,
};
use crate::routing::{choose_fallback_root, fallback_root};
use crate::text::opt_str_view;
use crate::uri::{path_uri, uri_to_windows_path, windows_uri_path};
use crate::windows_git_root::{
    dirs_from, lemma_windows_sure_to_be_found, reads_anything, was_read, windows_cached_lookup,
    windows_git_root, windows_knows_nothing, windows_knows_the_same, windows_lookup_if, LocationView,
};
use vstd::prelude::*;

verus! {

/// `root` is a root as `read` told it.
pub open spec fn root_was_read<R: Fn(&FilePath) -> WindowsLocation>(read: R, root: RootView) -> bool {
    exists|place: LocationView| #[trigger]
        was_read(read, root.path, place) && place.own.parts == root.parts
}

/// `known` are the roots at the paths `roots` as `read` told them.
pub open spec fn roots_were_read<R: Fn(&FilePath) -> WindowsLocation>(
    read: R,
    roots: Seq<Seq<u8>>,
    known: Seq<RootView>,
) -> bool {
    &&& known.len() == roots.len()
    &&& forall|i: int|
        0 <= i < roots.len() ==> (#[trigger] known[i]).path == roots[i] && root_was_read(
            read,
            known[i],
        )
}

/// `result` and `after` are what routing a request for the path at `place` gives, where `known`
/// are the known roots: the root that the path belongs to, else its git root, else the fallback.
pub open spec fn windows_place_routed<F: Fn(&FilePath) -> bool, G: Fn(&FilePath) -> bool>(
    is_file: F,
    present: G,
    roots: Seq<Seq<u8>>,
    known: Seq<RootView>,
    default_root: Option<Seq<u8>>,
    before: WindowsGitRootCache,
    place: LocationView,
    result: Option<Seq<u8>>,
    after: WindowsGitRootCache,
) -> bool {
    match chosen_root(place.own.parts, known) {
        Some(root) => result == Some(root.path) && windows_knows_the_same(after, before),
        None => exists|git_root: Option<Seq<u8>>| #[trigger]
            windows_cached_lookup(is_file, present, before, place, git_root, after) && result == (
            if git_root is Some {
                git_root
            } else {
                fallback_root(default_root, roots)
            }),
    }
}

/// `result` and `after` are what routing a request for `uri` gives: the known root that its path
/// belongs to, else the git root of its path, else the fallback. Only the search for a git root
/// touches the cache. What the paths are is as `read` tells.
pub open spec fn windows_routed<
    R: Fn(&FilePath) -> WindowsLocation,
    F: Fn(&FilePath) -> bool,
    G: Fn(&FilePath) -> bool,
>(
    read: R,
    is_file: F,
    present: G,
    roots: Seq<Seq<u8>>,
    default_root: Option<Seq<u8>>,
    before: WindowsGitRootCache,
    uri: Option<Seq<char>>,
    result: Option<Seq<u8>>,
    after: WindowsGitRootCache,
) -> bool {
    if uri is Some && windows_uri_path(uri.unwrap()) is Some {
        exists|place: LocationView, known: Seq<RootView>|
            was_read(read, windows_uri_path(uri.unwrap()).unwrap(), place) && roots_were_read(
                read,
                roots,
                known,
            ) && #[trigger] windows_place_routed(
                is_file,
                present,
                roots,
                known,
                default_root,
                before,
                place,
                result,
                after,
            )
    } else {
        result == fallback_root(default_root, roots) && windows_knows_the_same(after, before)
    }
}

/// The components of each of `roots`, as `read` tells them.
fn read_roots<R: Fn(&FilePath) -> WindowsLocation>(roots: &Vec<FilePath>, read: &R) -> (res: Vec<
    Vec<Vec<u8>>,
>)
    requires
        reads_anything(*read),
    ensures
        res.len() == roots.len(),
        roots_were_read(
            *read,
            path_views(roots@),
            roots_with(path_views(roots@), parts_views(res@)),
        ),
{
    let ghost paths = path_views(roots@);
    let mut parts: Vec<Vec<Vec<u8>>> = Vec::new();
    let mut i: usize = 0;
    while i < roots.len()
        invariant
            i <= roots.len(),
            reads_anything(*read),
            paths == path_views(roots@),
            parts@.len() == i,
            forall|k: int|
                0 <= k < i ==> root_was_read(
                    *read,
                    RootView { path: paths[k], parts: part_views((#[trigger] parts@[k])@) },
                ),
        decreases roots.len() - i,
    {
        let place = read(&roots[i]);
        proof {
            assert(paths[i as int] == roots@[i as int]@);
            let root = RootView { path: paths[i as int], parts: place@.own.parts };
            assert(was_read(*read, root.path, place@));
            assert(root_was_read(*read, root));
        }
        parts.push(place.own.parts);
        i = i + 1;
    }
    proof {
        let known = roots_with(paths, parts_views(parts@));
        assert forall|k: int| 0 <= k < paths.len() implies (#[trigger] known[k]).path == paths[k]
            && root_was_read(*read, known[k]) by {
            assert(known[k] == RootView { path: paths[k], parts: part_views(parts@[k]@) });
        }
    }
    parts
}

/// Determines which root to use for a request on Windows, from the URI it names and the known
/// roots. `read` tells what a path is made of and what lies above it.
#[verifier::spinoff_prover]
pub fn determine_root_windows<
    R: Fn(&FilePath) -> WindowsLocation,
    F: Fn(&FilePath) -> bool,
    G: Fn(&FilePath) -> bool,
>(
    roots: &Vec<FilePath>,
    default_root: Option<&FilePath>,
    git_root_cache: &mut WindowsGitRootCache,
    uri: Option<&str>,
    read: &R,
    is_file: &F,
    present: &G,
) -> (res: Option<FilePath>)
    requires
        reads_anything(*read),
        asks_anything(*is_file),
        asks_anything(*present),
    ensures
        windows_routed(
            *read,
            *is_file,
            *present,
            path_views(roots@),
            opt_path_ref_view(default_root),
            *old(git_root_cache),
            opt_str_view(uri),
            opt_path_view(res),
            *final(git_root_cache),
        ),
{
    if let Some(uri) = uri {
        if let Some(path) = uri_to_windows_path(uri) {
            let ghost paths = path_views(roots@);
            let ghost fallback = opt_path_ref_view(default_root);
            let place = read(&path);
            assert(was_read(*read, path@, place@));
            let parts = read_roots(roots, read);
            let ghost known = roots_with(paths, parts_views(parts@));
            let table = RootTable::with_parts(roots, parts);
            if let Some(i) = table.longest_match_of(&place.own.parts) {
                proof {
                    assert(known[i as int].path == roots@[i as int]@);
                    assert(windows_place_routed(
                        *is_file,
                        *present,
                        paths,
                        known,
                        fallback,
                        *old(git_root_cache),
                        place@,
                        Some(roots@[i as int]@),
                        *git_root_cache,
                    ));
                }
                return Some(roots[i].clone());
            }
            let git_root = git_root_cache.find_git_root_cached(&place, is_file, present);
            let ghost found = opt_path_view(git_root);
            let res = if git_root.is_some() {
                git_root
            } else {
                choose_fallback_root(default_root, roots)
            };
            proof {
                assert(windows_cached_lookup(
                    *is_file,
                    *present,
                    *old(git_root_cache),
                    place@,
                    found,
                    *git_root_cache,
                ));
                assert(windows_place_routed(
                    *is_file,
                    *present,
                    paths,
                    known,
                    fallback,
                    *old(git_root_cache),
                    place@,
                    opt_path_view(res),
                    *git_root_cache,
                ));
            }
            return res;
        }
    }
    choose_fallback_root(default_root, roots)
}

/// How each of the files at `paths` is reported, where `places` tells what they are.
pub open spec fn windows_filings(
    paths: Seq<Seq<u8>>,
    places: Seq<LocationView>,
    roots: Seq<RootView>,
    default_root: Option<RootView>,
) -> Seq<Option<Filing>> {
    Seq::new(
        paths.len(),
        |i: int| filing_of(places[i].own.parts, roots, default_root, path_uri(paths[i])),
    )
}

/// `groups`, whose roots have the components `ids`, holds the URIs of the files at `paths` by root.
/// What the paths are is as `read` tells.
pub open spec fn windows_grouped<R: Fn(&FilePath) -> WindowsLocation>(
    read: R,
    groups: Seq<(Seq<u8>, Seq<Seq<char>>)>,
    ids: Seq<Seq<Seq<u8>>>,
    paths: Seq<Seq<u8>>,
    roots: Seq<Seq<u8>>,
    default_root: Option<Seq<u8>>,
) -> bool {
    exists|places: Seq<LocationView>, known: Seq<RootView>, fallback: Option<RootView>|
        places_were_read(read, paths, places) && roots_were_read(read, roots, known)
            && default_was_read(read, default_root, fallback) && is_grouping(
            groups,
            ids,
            #[trigger] windows_filings(paths, places, known, fallback),
        )
}

/// `places` are the paths `paths` as `read` told them.
pub open spec fn places_were_read<R: Fn(&FilePath) -> WindowsLocation>(
    read: R,
    paths: Seq<Seq<u8>>,
    places: Seq<LocationView>,
) -> bool {
    &&& places.len() == paths.len()
    &&& forall|i: int| 0 <= i < paths.len() ==> was_read(read, paths[i], #[trigger] places[i])
}

/// `fallback` is the default root as `read` told it.
pub open spec fn default_was_read<R: Fn(&FilePath) -> WindowsLocation>(
    read: R,
    default_root: Option<Seq<u8>>,
    fallback: Option<RootView>,
) -> bool {
    match default_root {
        Some(path) => fallback matches Some(root) && root.path == path && root_was_read(read, root),
        None => fallback is None,
    }
}

/// Groups changed files by the root they are reported under on Windows, for batch notifications. A
/// path under no known root goes to the default root; without one it is left out.
#[verifier::spinoff_prover]
pub fn group_paths_by_root_windows<R: Fn(&FilePath) -> WindowsLocation>(
    paths: &Vec<FilePath>,
    roots: &Vec<FilePath>,
    default_root: Option<&FilePath>,
    read: &R,
) -> (res: PathGroups)
    requires
        reads_anything(*read),
    ensures
        windows_grouped(
            *read,
            res@,
            res.ids(),
            path_views(paths@),
            path_views(roots@),
            opt_path_ref_view(default_root),
        ),
{
    let ghost all = path_views(paths@);
    let parts = read_roots(roots, read);
    let ghost known = roots_with(path_views(roots@), parts_views(parts@));
    let default_parts = match default_root {
        Some(root) => {
            let place = read(root);
            assert(was_read(*read, root@, place@));
            Some((root, place.own.parts))
        },
        None => None,
    };
    let mut builder = GroupBuilder::new(roots, parts, default_parts);
    let ghost fallback = builder.default_root();
    let ghost mut places: Seq<LocationView> = Seq::empty();
    proof {
        assert(default_was_read(*read, opt_path_ref_view(default_root), fallback));
        assert(builder.items() =~= windows_filings(all.take(0), places, known, fallback));
    }
    let mut i: usize = 0;
    while i < paths.len()
        invariant
            i <= paths.len(),
            reads_anything(*read),
            all == path_views(paths@),
            builder.well_formed(),
            builder.roots() == known,
            builder.default_root() == fallback,
            places.len() == i,
            forall|k: int| 0 <= k < i ==> was_read(*read, all[k], #[trigger] places[k]),
            builder.items() == windows_filings(all.take(i as int), places, known, fallback),
        decreases paths.len() - i,
    {
        let place = read(&paths[i]);
        proof {
            assert(all[i as int] == paths@[i as int]@);
            assert(was_read(*read, all[i as int], place@));
        }
        builder.add_file(&place.own.parts, &paths[i]);
        proof {
            let before = windows_filings(all.take(i as int), places, known, fallback);
            places = places.push(place@);
            assert(windows_filings(all.take(i + 1), places, known, fallback) =~= before.push(
                filing_of(place@.own.parts, known, fallback, path_uri(all[i as int])),
            ));
        }
        i = i + 1;
    }
    proof {
        assert(all.take(all.len() as int) =~= all);
        assert(places_were_read(*read, all, places));
    }
    builder.finish()
}

/// Asked about one path, `read` always tells the same components.
pub open spec fn reads_the_same<R: Fn(&FilePath) -> WindowsLocation>(read: R) -> bool {
    forall|p: Seq<u8>, a: LocationView, b: LocationView| #[trigger]
        was_read(read, p, a) && #[trigger] was_read(read, p, b) ==> a.own.parts == b.own.parts
}

/// The group of the root with the components `id` holds `uri`.
pub open spec fn stands_in_group(
    groups: Seq<(Seq<u8>, Seq<Seq<char>>)>,
    ids: Seq<Seq<Seq<u8>>>,
    id: Seq<Seq<u8>>,
    uri: Seq<char>,
) -> bool {
    exists|i: int| 0 <= i < groups.len() && #[trigger] ids[i] == id && groups[i].1.contains(uri)
}

/// The root at `path` is one that `read` told of, and its group holds `uri`.
pub open spec fn stands_under_root<R: Fn(&FilePath) -> WindowsLocation>(
    read: R,
    groups: Seq<(Seq<u8>, Seq<Seq<char>>)>,
    ids: Seq<Seq<Seq<u8>>>,
    path: Seq<u8>,
    uri: Seq<char>,
) -> bool {
    exists|root: RootView| #[trigger]
        root_was_read(read, root) && root.path == path && stands_in_group(
            groups,
            ids,
            root.parts,
            uri,
        )
}

proof fn lemma_same_roots<R: Fn(&FilePath) -> WindowsLocation>(
    read: R,
    roots: Seq<Seq<u8>>,
    first: Seq<RootView>,
    second: Seq<RootView>,
)
    requires
        reads_the_same(read),
        roots_were_read(read, roots, first),
        roots_were_read(read, roots, second),
    ensures
        first == second,
{
    assert forall|i: int| 0 <= i < roots.len() implies first[i] == second[i] by {
        lemma_same_root(read, first[i], second[i]);
    }
    assert(first =~= second);
}

proof fn lemma_same_root<R: Fn(&FilePath) -> WindowsLocation>(
    read: R,
    first: RootView,
    second: RootView,
)
    requires
        reads_the_same(read),
        root_was_read(read, first),
        root_was_read(read, second),
        first.path == second.path,
    ensures
        first == second,
{
    let a = choose|a: LocationView| #[trigger]
        was_read(read, first.path, a) && a.own.parts == first.parts;
    let b = choose|b: LocationView| #[trigger]
        was_read(read, second.path, b) && b.own.parts == second.parts;
    assert(a.own.parts == b.own.parts);
}

/// A single request and a batch of changed files agree on the root of a path that is under a known
/// root: the file stands in the group of the root that the request goes to.
pub proof fn windows_single_and_batch_agree<
    R: Fn(&FilePath) -> WindowsLocation,
    F: Fn(&FilePath) -> bool,
    G: Fn(&FilePath) -> bool,
>(
    read: R,
    is_file: F,
    present: G,
    roots: Seq<Seq<u8>>,
    default_root: Option<Seq<u8>>,
    before: WindowsGitRootCache,
    uri: Seq<char>,
    result: Option<Seq<u8>>,
    after: WindowsGitRootCache,
    paths: Seq<Seq<u8>>,
    k: int,
    groups: Seq<(Seq<u8>, Seq<Seq<char>>)>,
    ids: Seq<Seq<Seq<u8>>>,
    place: LocationView,
    root: RootView,
)
    requires
        reads_the_same(read),
        0 <= k < paths.len(),
        windows_uri_path(uri) == Some(paths[k]),
        was_read(read, paths[k], place),
        roots.contains(root.path),
        root_was_read(read, root),
        lies_under(place.own.parts, root),
        windows_routed(read, is_file, present, roots, default_root, before, Some(uri), result, after),
        windows_grouped(read, groups, ids, paths, roots, default_root),
    ensures
        result is Some,
        stands_under_root(read, groups, ids, result.unwrap(), path_uri(paths[k])),
{
    let own = place.own.parts;
    let (there, known) = choose|there: LocationView, known: Seq<RootView>|
        was_read(read, paths[k], there) && roots_were_read(read, roots, known)
            && #[trigger] windows_place_routed(
            is_file,
            present,
            roots,
            known,
            default_root,
            before,
            there,
            result,
            after,
        );
    assert(there.own.parts == own);
    let j = choose|j: int| 0 <= j < roots.len() && roots[j] == root.path;
    assert(known[j].path == root.path);
    lemma_same_root(read, known[j], root);
    choice_exists(own, known, j);
    let chosen = chosen_root(own, known).unwrap();
    assert(root_was_read(read, chosen));
    let (places, again, fallback) = choose|
        places: Seq<LocationView>,
        again: Seq<RootView>,
        fallback: Option<RootView>,
    |
        places_were_read(read, paths, places) && roots_were_read(read, roots, again)
            && default_was_read(read, default_root, fallback) && is_grouping(
            groups,
            ids,
            #[trigger] windows_filings(paths, places, again, fallback),
        );
    lemma_same_roots(read, roots, known, again);
    let items = windows_filings(paths, places, again, fallback);
    assert(was_read(read, paths[k], places[k]));
    assert(items[k] == Some(Filing { root: chosen, uri: path_uri(paths[k]) }));
    assert(has_group(ids, items[k]));
    let g = choose|g: int| 0 <= g < ids.len() && goes_to(items[k], #[trigger] ids[g]);
    assert(is_group_of(groups[g], ids[g], items));
    lemma_uri_is_kept(items, ids[g], k);
    assert(stands_in_group(groups, ids, chosen.parts, path_uri(paths[k])));
}

/// `j` is the known root that a path with the components `own` belongs to: the path lies under it,
/// no root that the path lies under is longer, and of those equally long it is the last.
pub open spec fn is_longest_root_above(
    own: Seq<Seq<u8>>,
    known: Seq<RootView>,
    j: int,
) -> bool {
    &&& 0 <= j < known.len()
    &&& known[j].parts.is_prefix_of(own)
    &&& forall|m: int|
        0 <= m < known.len() && (#[trigger] known[m]).parts.is_prefix_of(own) ==> known[m].path.len()
            < known[j].path.len() || (known[m].path.len() == known[j].path.len() && m <= j)
}

proof fn lemma_longest_root_is_chosen(own: Seq<Seq<u8>>, known: Seq<RootView>, j: int)
    requires
        is_longest_root_above(own, known, j),
    ensures
        chosen_root(own, known) == Some(known[j]),
{
    assert(lies_under(own, known[j]));
    assert forall|m: int| 0 <= m < known.len() && lies_under(own, #[trigger] known[m]) implies known[
    m].path.len() < known[j].path.len() || (known[m].path.len() == known[j].path.len() && m <= j) by {
        assert(known[m].parts.is_prefix_of(own));
    }
    choice_is_unique(own, known, j);
}

proof fn lemma_no_root_is_chosen(own: Seq<Seq<u8>>, known: Seq<RootView>)
    requires
        forall|m: int| 0 <= m < known.len() ==> !(#[trigger] known[m]).parts.is_prefix_of(own),
    ensures
        chosen_root(own, known) is None,
{
    assert forall|m: int| 0 <= m < known.len() implies !lies_under(own, #[trigger] known[m]) by {
        assert(!known[m].parts.is_prefix_of(own));
    }
}

/// On Windows a request for a path under a known root goes to that root, the longest that the path
/// lies under and the last of those equally long. No git root is looked for.
pub proof fn request_goes_to_its_known_root_on_windows<
    R: Fn(&FilePath) -> WindowsLocation,
    F: Fn(&FilePath) -> bool,
    G: Fn(&FilePath) -> bool,
>(
    roots: &Vec<FilePath>,
    default_root: Option<&FilePath>,
    cache: &mut WindowsGitRootCache,
    uri: &str,
    read: &R,
    is_file: &F,
    present: &G,
    res: Option<FilePath>,
    path: Seq<u8>,
    place: LocationView,
    known: Seq<RootView>,
    j: int,
)
    requires
        call_ensures(
            determine_root_windows::<R, F, G>,
            (roots, default_root, cache, Some(uri), read, is_file, present),
            res,
        ),
        windows_uri_path(uri@) == Some(path),
        reads_the_same(*read),
        was_read(*read, path, place),
        roots_were_read(*read, path_views(roots@), known),
        is_longest_root_above(place.own.parts, known, j),
    ensures
        opt_path_view(res) == Some(roots@[j]@),
        windows_knows_the_same(*final(cache), *old(cache)),
{
    let paths = path_views(roots@);
    let (there, again) = choose|there: LocationView, again: Seq<RootView>|
        was_read(*read, path, there) && roots_were_read(*read, paths, again)
            && #[trigger] windows_place_routed(
            *is_file,
            *present,
            paths,
            again,
            opt_path_ref_view(default_root),
            *old(cache),
            there,
            opt_path_view(res),
            *final(cache),
        );
    lemma_same_roots(*read, paths, known, again);
    lemma_longest_root_is_chosen(place.own.parts, known, j);
    assert(known[j].path == paths[j]);
}

/// On Windows a request for a path under no known root goes to the git root that looking the path up
/// gives, whatever the default root and the known roots are. Only where that gives none does it go
/// to the default root, else to the first known root, else nowhere.
pub proof fn git_root_comes_before_the_fallback_on_windows<
    R: Fn(&FilePath) -> WindowsLocation,
    F: Fn(&FilePath) -> bool,
    G: Fn(&FilePath) -> bool,
>(
    roots: &Vec<FilePath>,
    default_root: Option<&FilePath>,
    cache: &mut WindowsGitRootCache,
    uri: &str,
    read: &R,
    is_file: &F,
    present: &G,
    res: Option<FilePath>,
    path: Seq<u8>,
    known: Seq<RootView>,
)
    requires
        call_ensures(
            determine_root_windows::<R, F, G>,
            (roots, default_root, cache, Some(uri), read, is_file, present),
            res,
        ),
        windows_uri_path(uri@) == Some(path),
        reads_the_same(*read),
        roots_were_read(*read, path_views(roots@), known),
        forall|place: LocationView, m: int|
            #![trigger was_read(*read, path, place), known[m]]
            was_read(*read, path, place) && 0 <= m < known.len()
                ==> !known[m].parts.is_prefix_of(place.own.parts),
    ensures
        exists|place: LocationView, found: Option<Seq<u8>>|
            {
                &&& was_read(*read, path, place)
                &&& #[trigger] windows_cached_lookup(
                    *is_file,
                    *present,
                    *old(cache),
                    place,
                    found,
                    *final(cache),
                )
                &&& found is Some ==> opt_path_view(res) == found
                &&& found is None && default_root is Some ==> opt_path_view(res) == Some(
                    default_root.unwrap()@,
                )
                &&& found is None && default_root is None && roots@.len() > 0 ==> opt_path_view(
                    res,
                ) == Some(roots@[0]@)
                &&& found is None && default_root is None && roots@.len() == 0 ==> res is None
            },
{
    let paths = path_views(roots@);
    let fallback = opt_path_ref_view(default_root);
    let (there, again) = choose|there: LocationView, again: Seq<RootView>|
        was_read(*read, path, there) && roots_were_read(*read, paths, again)
            && #[trigger] windows_place_routed(
            *is_file,
            *present,
            paths,
            again,
            fallback,
            *old(cache),
            there,
            opt_path_view(res),
            *final(cache),
        );
    lemma_same_roots(*read, paths, known, again);
    assert forall|m: int| 0 <= m < known.len() implies !(#[trigger] known[m]).parts.is_prefix_of(
        there.own.parts,
    ) by {
        assert(was_read(*read, path, there));
    }
    lemma_no_root_is_chosen(there.own.parts, known);
    let found = choose|found: Option<Seq<u8>>| #[trigger]
        windows_cached_lookup(*is_file, *present, *old(cache), there, found, *final(cache))
            && opt_path_view(res) == (if found is Some {
            found
        } else {
            fallback_root(fallback, paths)
        });
    assert(windows_cached_lookup(
        *is_file,
        *present,
        *old(cache),
        there,
        found,
        *final(cache),
    ));
}

/// On Windows a request that names no file goes to the default root, else to the first known root,
/// else nowhere; no git root is looked for.
pub proof fn request_without_a_path_falls_back_on_windows<
    R: Fn(&FilePath) -> WindowsLocation,
    F: Fn(&FilePath) -> bool,
    G: Fn(&FilePath) -> bool,
>(
    roots: &Vec<FilePath>,
    default_root: Option<&FilePath>,
    cache: &mut WindowsGitRootCache,
    uri: Option<&str>,
    read: &R,
    is_file: &F,
    present: &G,
    res: Option<FilePath>,
)
    requires
        call_ensures(
            determine_root_windows::<R, F, G>,
            (roots, default_root, cache, uri, read, is_file, present),
            res,
        ),
        uri matches Some(text) ==> windows_uri_path(text@) is None,
    ensures
        default_root is Some ==> opt_path_view(res) == Some(default_root.unwrap()@),
        default_root is None && roots@.len() > 0 ==> opt_path_view(res) == Some(roots@[0]@),
        default_root is None && roots@.len() == 0 ==> res is None,
        windows_knows_the_same(*final(cache), *old(cache)),
{
}

proof fn lemma_all_filed(
    paths: Seq<Seq<u8>>,
    places: Seq<LocationView>,
    known: Seq<RootView>,
    fallback: Option<RootView>,
)
    requires
        fallback is Some,
        places.len() == paths.len(),
    ensures
        reported_count(windows_filings(paths, places, known, fallback)) == paths.len(),
    decreases paths.len(),
{
    let items = windows_filings(paths, places, known, fallback);
    if paths.len() > 0 {
        lemma_all_filed(paths.drop_last(), places.drop_last(), known, fallback);
        assert(items.drop_last() =~= windows_filings(
            paths.drop_last(),
            places.drop_last(),
            known,
            fallback,
        ));
        assert(items.last() is Some);
    }
}

/// On Windows too no changed file is lost where there is a default root: the groups hold as many
/// URIs in all as there are files.
pub proof fn every_changed_file_is_reported_on_windows<R: Fn(&FilePath) -> WindowsLocation>(
    paths: &Vec<FilePath>,
    roots: &Vec<FilePath>,
    default_root: Option<&FilePath>,
    read: &R,
    res: PathGroups,
)
    requires
        call_ensures(
            group_paths_by_root_windows::<R>,
            (paths, roots, default_root, read),
            res,
        ),
        default_root is Some,
    ensures
        total_uris(res@) == paths@.len(),
{
    let all = path_views(paths@);
    let (places, known, fallback) = choose|
        places: Seq<LocationView>,
        known: Seq<RootView>,
        fallback: Option<RootView>,
    |
        places_were_read(*read, all, places) && roots_were_read(*read, path_views(roots@), known)
            && default_was_read(*read, opt_path_ref_view(default_root), fallback) && is_grouping(
            res@,
            res.ids(),
            #[trigger] windows_filings(all, places, known, fallback),
        );
    grouping_reports_each_file_once(
        res@,
        res.ids(),
        windows_filings(all, places, known, fallback),
    );
    lemma_all_filed(all, places, known, fallback);
}

/// On Windows a changed file stands in the group of the known root that it belongs to, the longest
/// that it lies under and the last of those equally long, and where it lies under none in the group
/// of the default root.
pub proof fn changed_file_stands_where_it_belongs_on_windows<
    R: Fn(&FilePath) -> WindowsLocation,
>(
    paths: &Vec<FilePath>,
    roots: &Vec<FilePath>,
    default_root: Option<&FilePath>,
    read: &R,
    res: PathGroups,
    k: int,
    place: LocationView,
    known: Seq<RootView>,
    root: RootView,
)
    requires
        call_ensures(
            group_paths_by_root_windows::<R>,
            (paths, roots, default_root, read),
            res,
        ),
        reads_the_same(*read),
        0 <= k < paths@.len(),
        was_read(*read, paths@[k]@, place),
        roots_were_read(*read, path_views(roots@), known),
        ({
            ||| exists|j: int|
                #[trigger] is_longest_root_above(place.own.parts, known, j) && known[j] == root
            ||| {
                &&& forall|m: int|
                    0 <= m < known.len() ==> !(#[trigger] known[m]).parts.is_prefix_of(
                        place.own.parts,
                    )
                &&& default_root is Some && default_root.unwrap()@ == root.path
                &&& root_was_read(*read, root)
            }
        }),
    ensures
        stands_in_group(res@, res.ids(), root.parts, path_uri(paths@[k]@)),
{
    let all = path_views(paths@);
    let listed = path_views(roots@);
    let own = place.own.parts;
    let (places, again, fallback) = choose|
        places: Seq<LocationView>,
        again: Seq<RootView>,
        fallback: Option<RootView>,
    |
        places_were_read(*read, all, places) && roots_were_read(*read, listed, again)
            && default_was_read(*read, opt_path_ref_view(default_root), fallback) && is_grouping(
            res@,
            res.ids(),
            #[trigger] windows_filings(all, places, again, fallback),
        );
    let items = windows_filings(all, places, again, fallback);
    lemma_same_roots(*read, listed, known, again);
    assert(was_read(*read, all[k], places[k]));
    assert(all[k] == paths@[k]@);
    assert(places[k].own.parts == own);
    if exists|j: int| #[trigger] is_longest_root_above(own, known, j) && known[j] == root {
        let j = choose|j: int|
            #[trigger] is_longest_root_above(own, known, j) && known[j] == root;
        lemma_longest_root_is_chosen(own, known, j);
    } else {
        lemma_no_root_is_chosen(own, known);
        lemma_same_root(*read, fallback.unwrap(), root);
    }
    assert(items[k] == Some(Filing { root, uri: path_uri(all[k]) }));
    let ids = res.ids();
    assert(has_group(ids, items[k]));
    let g = choose|g: int| 0 <= g < ids.len() && goes_to(items[k], #[trigger] ids[g]);
    assert(is_group_of(res@[g], ids[g], items));
    lemma_uri_is_kept(items, ids[g], k);
    assert(ids[g] == root.parts);
}

/// On Windows a request for a path under no known root goes to the first directory, from the path
/// upwards or from the one above it where it is a file, that holds git metadata, if nothing was
/// remembered before.
pub proof fn request_goes_to_its_git_root_on_windows<
    R: Fn(&FilePath) -> WindowsLocation,
    F: Fn(&FilePath) -> bool,
    G: Fn(&FilePath) -> bool,
>(
    roots: &Vec<FilePath>,
    default_root: Option<&FilePath>,
    cache: &mut WindowsGitRootCache,
    uri: &str,
    read: &R,
    is_file: &F,
    present: &G,
    res: Option<FilePath>,
    path: Seq<u8>,
    place: LocationView,
    known: Seq<RootView>,
    file: bool,
    k: int,
)
    requires
        call_ensures(
            determine_root_windows::<R, F, G>,
            (roots, default_root, cache, Some(uri), read, is_file, present),
            res,
        ),
        windows_uri_path(uri@) == Some(path),
        reads_the_same(*read),
        forall|other: LocationView| #[trigger] was_read(*read, path, other) ==> other == place,
        roots_were_read(*read, path_views(roots@), known),
        forall|m: int|
            0 <= m < known.len() ==> !(#[trigger] known[m]).parts.is_prefix_of(place.own.parts),
        windows_knows_nothing(*old(cache)),
        !answered(*is_file, place.own.path, !file),
        0 <= k < dirs_from(place, file).len(),
        !answered(*present, dirs_from(place, file)[k].marker, false),
        forall|j: int|
            0 <= j < k ==> !answered(
                *present,
                (#[trigger] dirs_from(place, file)[j]).marker,
                true,
            ),
    ensures
        opt_path_view(res) == Some(dirs_from(place, file)[k].path),
{
    let paths = path_views(roots@);
    let fallback = opt_path_ref_view(default_root);
    let (there, again) = choose|there: LocationView, again: Seq<RootView>|
        was_read(*read, path, there) && roots_were_read(*read, paths, again)
            && #[trigger] windows_place_routed(
            *is_file,
            *present,
            paths,
            again,
            fallback,
            *old(cache),
            there,
            opt_path_view(res),
            *final(cache),
        );
    assert(there == place);
    lemma_same_roots(*read, paths, known, again);
    lemma_no_root_is_chosen(place.own.parts, known);
    let found = choose|found: Option<Seq<u8>>| #[trigger]
        windows_cached_lookup(*is_file, *present, *old(cache), there, found, *final(cache))
            && opt_path_view(res) == (if found is Some {
            found
        } else {
            fallback_root(fallback, paths)
        });
    let f = choose|f: bool|
        windows_lookup_if(*is_file, *present, *old(cache), place, f, found, *final(cache));
    assert(windows_git_root(*is_file, *present, place, found));
    lemma_windows_sure_to_be_found(*is_file, *present, place, file, k, found);
}

/// On Windows a file under no known root is left out where there is no default root: nothing is
/// reported where no file is under one.
pub proof fn file_without_a_root_is_left_out_on_windows<R: Fn(&FilePath) -> WindowsLocation>(
    paths: &Vec<FilePath>,
    roots: &Vec<FilePath>,
    read: &R,
    res: PathGroups,
    known: Seq<RootView>,
)
    requires
        call_ensures(group_paths_by_root_windows::<R>, (paths, roots, None, read), res),
        reads_the_same(*read),
        roots_were_read(*read, path_views(roots@), known),
        forall|k: int, place: LocationView, m: int|
            #![trigger was_read(*read, paths@[k]@, place), known[m]]
            0 <= k < paths@.len() && was_read(*read, paths@[k]@, place) && 0 <= m < known.len()
                ==> !known[m].parts.is_prefix_of(place.own.parts),
    ensures
        res@.len() == 0,
{
    let all = path_views(paths@);
    let listed = path_views(roots@);
    let none: Option<Seq<u8>> = None;
    let (places, again, fallback) = choose|
        places: Seq<LocationView>,
        again: Seq<RootView>,
        fallback: Option<RootView>,
    |
        places_were_read(*read, all, places) && roots_were_read(*read, listed, again)
            && default_was_read(*read, none, fallback) && is_grouping(
            res@,
            res.ids(),
            #[trigger] windows_filings(all, places, again, fallback),
        );
    let items = windows_filings(all, places, again, fallback);
    lemma_same_roots(*read, listed, known, again);
    if res@.len() > 0 {
        let id = res.ids()[0];
        assert(is_group_of(res@[0], id, items));
        let k = choose|k: int| is_first_at(items, id, res@[0].0, k);
        assert(was_read(*read, all[k], places[k]));
        assert(all[k] == paths@[k]@);
        assert forall|m: int| 0 <= m < known.len() implies !(#[trigger] known[m]).parts.is_prefix_of(
            places[k].own.parts,
        ) by {
            assert(was_read(*read, paths@[k]@, places[k]));
        }
        lemma_no_root_is_chosen(places[k].own.parts, known);
        assert(items[k] is None);
    }
}

} // verus!
