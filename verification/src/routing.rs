//! Which workspace root a request or a file belongs to.

pub use crate::git_root::{find_git_root, GitRootCache};
pub use crate::roots::{longest_hit, RootTable};

use crate::git_root::{
    ancestor, cached_lookup, git_marker, git_root_contains_path, knows_nothing, knows_the_same,
    lemma_sure_to_be_found, lookup_if,
};
use crate::path::{
    components, is_tidy, is_under, longer_tidy_base_is_deeper, opt_path_ref_view, opt_path_view,
    parent, part_views, path_views, same_path, FilePath,
};
use crate::grouping::{
    filing_of, goes_to, grouping_reports_each_file_once, has_group, is_first_at,
    is_group_of, is_grouping, lemma_uri_is_kept, reported_count, seen_before, total_uris, uris_for,
    Filing, GroupBuilder, PathGroups,
};
use crate::probe::{answered, asks_anything};
use crate::roots::{
    choice_exists, choice_is_unique, chosen_root, is_choice, lies_under, parts_views, roots_with,
    unix_root, unix_roots,
};
use crate::text::{opt_str_view, text_views};
use crate::uri::{path_uri, uri_path, uri_to_path};
use vstd::prelude::*;

verus! {

/// Whether `i` is the root that `path` belongs to: it is under `roots[i]`, no root it is under is
/// longer in bytes, and of those equally long `i` is the last.
pub open spec fn is_root_of(path: Seq<u8>, roots: Seq<Seq<u8>>, i: int) -> bool {
    is_choice(components(path), unix_roots(roots), i)
}

/// The root that `path` belongs to, if it is under any.
pub open spec fn matching_root(path: Seq<u8>, roots: Seq<Seq<u8>>) -> Option<Seq<u8>> {
    match chosen_root(components(path), unix_roots(roots)) {
        Some(root) => Some(root.path),
        None => None,
    }
}

/// The root for a request that names no path with a root of its own: the default root, or else
/// the first known root.
pub open spec fn fallback_root(
    default_root: Option<Seq<u8>>,
    roots: Seq<Seq<u8>>,
) -> Option<Seq<u8>> {
    match default_root {
        Some(root) => Some(root),
        None => if roots.len() > 0 {
            Some(roots[0])
        } else {
            None
        },
    }
}

/// The default root, or else the first known root.
pub fn choose_fallback_root(default_root: Option<&FilePath>, roots: &Vec<FilePath>) -> (res: Option<
    FilePath,
>)
    ensures
        opt_path_view(res) == fallback_root(opt_path_ref_view(default_root), path_views(roots@)),
{
    match default_root {
        Some(root) => Some(root.clone()),
        None => if roots.len() > 0 {
            Some(roots[0].clone())
        } else {
            None
        },
    }
}

/// `result` and `after` are what routing a request for `uri` gives: the known root that its path
/// belongs to, else the git root of its path, else the fallback. Only the search for a git root
/// touches the cache.
pub open spec fn routed<F: Fn(&FilePath) -> bool, G: Fn(&FilePath) -> bool>(
    is_file: F,
    present: G,
    roots: Seq<Seq<u8>>,
    default_root: Option<Seq<u8>>,
    before: GitRootCache,
    uri: Option<Seq<char>>,
    result: Option<Seq<u8>>,
    after: GitRootCache,
) -> bool {
    if uri is Some && uri_path(uri.unwrap()) is Some {
        let path = uri_path(uri.unwrap()).unwrap();
        if matching_root(path, roots) is Some {
            result == matching_root(path, roots) && knows_the_same(after, before)
        } else {
            exists|git_root: Option<Seq<u8>>| #[trigger]
                cached_lookup(is_file, present, before, path, git_root, after) && result == (
                if git_root is Some {
                    git_root
                } else {
                    fallback_root(default_root, roots)
                })
        }
    } else {
        result == fallback_root(default_root, roots) && knows_the_same(after, before)
    }
}

/// Determines which root to use for a request, from the URI it names and the known roots.
pub fn determine_root<F: Fn(&FilePath) -> bool, G: Fn(&FilePath) -> bool>(
    roots: &Vec<FilePath>,
    default_root: Option<&FilePath>,
    git_root_cache: &mut GitRootCache,
    uri: Option<&str>,
    is_file: &F,
    present: &G,
) -> (res: Option<FilePath>)
    requires
        asks_anything(*is_file),
        asks_anything(*present),
    ensures
        routed(
            *is_file,
            *present,
            path_views(roots@),
            opt_path_ref_view(default_root),
            *old(git_root_cache),
            opt_str_view(uri),
            opt_path_view(res),
            *final(git_root_cache),
        ),
{
    if let Some(uri) = uri {
        if let Some(path) = uri_to_path(uri) {
            let table = RootTable::new(roots);
            if let Some(i) = table.longest_match(&path) {
                return Some(roots[i].clone());
            }
            let git_root = git_root_cache.find_git_root_cached(&path, is_file, present);
            let ghost found = opt_path_view(git_root);
            assert(cached_lookup(
                *is_file,
                *present,
                *old(git_root_cache),
                path@,
                found,
                *git_root_cache,
            ));
            if git_root.is_some() {
                return git_root;
            }
            return choose_fallback_root(default_root, roots);
        }
    }
    choose_fallback_root(default_root, roots)
}

/// How the file at `path` is reported: under the known root it belongs to, or else under the
/// default root.
pub open spec fn unix_filing(
    path: Seq<u8>,
    roots: Seq<Seq<u8>>,
    default_root: Option<Seq<u8>>,
) -> Option<Filing> {
    filing_of(
        components(path),
        unix_roots(roots),
        match default_root {
            Some(root) => Some(unix_root(root)),
            None => None,
        },
        path_uri(path),
    )
}

/// How each of the files at `paths` is reported.
pub open spec fn unix_filings(
    paths: Seq<Seq<u8>>,
    roots: Seq<Seq<u8>>,
    default_root: Option<Seq<u8>>,
) -> Seq<Option<Filing>> {
    paths.map_values(|path: Seq<u8>| unix_filing(path, roots, default_root))
}

/// The components of the groups' roots.
pub open spec fn unix_ids(groups: Seq<(Seq<u8>, Seq<Seq<char>>)>) -> Seq<Seq<Seq<u8>>> {
    groups.map_values(|group: (Seq<u8>, Seq<Seq<char>>)| components(group.0))
}

/// Groups changed files by the root they are reported under, for batch notifications. A path
/// under no known root goes to the default root; without one it is left out.
#[verifier::spinoff_prover]
pub fn group_paths_by_root(
    paths: &Vec<FilePath>,
    roots: &Vec<FilePath>,
    default_root: Option<&FilePath>,
) -> (res: PathGroups)
    ensures
        is_grouping(
            res@,
            unix_ids(res@),
            unix_filings(
                path_views(paths@),
                path_views(roots@),
                opt_path_ref_view(default_root),
            ),
        ),
        res.ids() == unix_ids(res@),
{
    let ghost all = path_views(paths@);
    let ghost known = path_views(roots@);
    let ghost fallback = opt_path_ref_view(default_root);
    let mut parts: Vec<Vec<Vec<u8>>> = Vec::new();
    let mut r: usize = 0;
    while r < roots.len()
        invariant
            r <= roots.len(),
            known == path_views(roots@),
            parts@.len() == r,
            forall|k: int| 0 <= k < r ==> part_views((#[trigger] parts@[k])@) == components(known[k]),
        decreases roots.len() - r,
    {
        assert(known[r as int] == roots@[r as int]@);
        parts.push(roots[r].components());
        r = r + 1;
    }
    let ghost listed = parts_views(parts@);
    let mut builder = GroupBuilder::new(
        roots,
        parts,
        match default_root {
            Some(root) => Some((root, root.components())),
            None => None,
        },
    );
    proof {
        assert forall|k: int| 0 <= k < known.len() implies roots_with(known, listed)[k]
            == unix_roots(known)[k] by {
            assert(listed[k] == part_views(parts@[k]@));
        }
        assert(builder.roots() =~= unix_roots(known));
        assert(builder.items() =~= unix_filings(all.take(0), known, fallback));
    }
    let mut i: usize = 0;
    while i < paths.len()
        invariant
            i <= paths.len(),
            all == path_views(paths@),
            fallback == opt_path_ref_view(default_root),
            builder.well_formed(),
            builder.roots() == unix_roots(known),
            builder.default_root() == (match fallback {
                Some(root) => Some(unix_root(root)),
                None => None,
            }),
            builder.items() == unix_filings(all.take(i as int), known, fallback),
        decreases paths.len() - i,
    {
        let own = paths[i].components();
        assert(all[i as int] == paths@[i as int]@);
        builder.add_file(&own, &paths[i]);
        proof {
            assert(unix_filings(all.take(i + 1), known, fallback) =~= unix_filings(
                all.take(i as int),
                known,
                fallback,
            ).push(unix_filing(all[i as int], known, fallback)));
        }
        i = i + 1;
    }
    let res = builder.finish();
    proof {
        assert(all.take(all.len() as int) =~= all);
        lemma_unix_ids(res@, res.ids(), all, known, fallback);
    }
    res
}

proof fn lemma_unix_ids(
    groups: Seq<(Seq<u8>, Seq<Seq<char>>)>,
    ids: Seq<Seq<Seq<u8>>>,
    paths: Seq<Seq<u8>>,
    roots: Seq<Seq<u8>>,
    default_root: Option<Seq<u8>>,
)
    requires
        is_grouping(groups, ids, unix_filings(paths, roots, default_root)),
    ensures
        ids == unix_ids(groups),
{
    let items = unix_filings(paths, roots, default_root);
    assert forall|i: int| 0 <= i < ids.len() implies ids[i] == unix_ids(groups)[i] by {
        assert(is_group_of(groups[i], ids[i], items));
        let k = choose|k: int| is_first_at(items, ids[i], groups[i].0, k);
        assert(items[k] == unix_filing(paths[k], roots, default_root));
        lemma_unix_filing(paths[k], roots, default_root);
    }
    assert(ids =~= unix_ids(groups));
}

proof fn lemma_unix_filing(path: Seq<u8>, roots: Seq<Seq<u8>>, default_root: Option<Seq<u8>>)
    ensures
        unix_filing(path, roots, default_root) matches Some(filing) ==> filing.root == unix_root(
            filing.root.path,
        ),
{
    let own = components(path);
    let all = unix_roots(roots);
    if chosen_root(own, all) is Some {
        let j = choose|j: int| 0 <= j < all.len() && lies_under(own, #[trigger] all[j]);
        choice_exists(own, all, j);
        let i = choose|i: int| is_choice(own, all, i);
        assert(all[i] == unix_root(roots[i]));
    }
}

/// A single request and a batch of changed files agree on the root of a path that is under a known
/// root.
pub proof fn single_and_batch_agree<F: Fn(&FilePath) -> bool, G: Fn(&FilePath) -> bool>(
    is_file: F,
    present: G,
    roots: Seq<Seq<u8>>,
    default_root: Option<Seq<u8>>,
    before: GitRootCache,
    uri: Seq<char>,
    result: Option<Seq<u8>>,
    after: GitRootCache,
)
    requires
        uri_path(uri) is Some,
        matching_root(uri_path(uri).unwrap(), roots) is Some,
        routed(is_file, present, roots, default_root, before, Some(uri), result, after),
    ensures
        result is Some,
        unix_filing(uri_path(uri).unwrap(), roots, default_root) matches Some(filing)
            && filing.root == unix_root(result.unwrap()),
{
    lemma_unix_filing(uri_path(uri).unwrap(), roots, default_root);
}

/// The root that a path belongs to lies under every other root that the path is under, provided
/// the roots are written without spare bytes.
pub proof fn matching_root_is_deepest(path: Seq<u8>, roots: Seq<Seq<u8>>, j: int)
    requires
        0 <= j < roots.len(),
        is_under(path, roots[j]),
        forall|i: int| 0 <= i < roots.len() ==> is_tidy(#[trigger] roots[i]),
    ensures
        matching_root(path, roots) is Some,
        is_under(path, matching_root(path, roots).unwrap()),
        is_under(matching_root(path, roots).unwrap(), roots[j]),
{
    let own = components(path);
    let all = unix_roots(roots);
    assert(all[j] == unix_root(roots[j]));
    assert(lies_under(own, all[j]));
    choice_exists(own, all, j);
    let i = choose|i: int| is_choice(own, all, i);
    choice_is_unique(own, all, i);
    assert(all[i] == unix_root(roots[i]));
    longer_tidy_base_is_deeper(path, roots[i], roots[j]);
}

/// There is only one choice among the roots: whichever root fits the description is the one that
/// the path belongs to.
pub proof fn matching_root_is_unique(path: Seq<u8>, roots: Seq<Seq<u8>>, i: int)
    requires
        is_root_of(path, roots, i),
    ensures
        matching_root(path, roots) == Some(roots[i]),
{
    choice_is_unique(components(path), unix_roots(roots), i);
}

/// Routing a request finds a root whenever there is a default root or any known root.
pub proof fn routing_finds_a_root<F: Fn(&FilePath) -> bool, G: Fn(&FilePath) -> bool>(
    is_file: F,
    present: G,
    roots: Seq<Seq<u8>>,
    default_root: Option<Seq<u8>>,
    before: GitRootCache,
    uri: Option<Seq<char>>,
    result: Option<Seq<u8>>,
    after: GitRootCache,
)
    requires
        routed(is_file, present, roots, default_root, before, uri, result, after),
        default_root is Some || roots.len() > 0,
    ensures
        result is Some,
{
}

/// A request for a path under a known root goes to that root: of the roots that the path is under
/// the longest, and of those equally long the last. No git root is looked for.
pub proof fn request_goes_to_its_known_root<F: Fn(&FilePath) -> bool, G: Fn(&FilePath) -> bool>(
    roots: &Vec<FilePath>,
    default_root: Option<&FilePath>,
    cache: &mut GitRootCache,
    uri: &str,
    is_file: &F,
    present: &G,
    res: Option<FilePath>,
    path: Seq<u8>,
    j: int,
)
    requires
        call_ensures(
            determine_root::<F, G>,
            (roots, default_root, cache, Some(uri), is_file, present),
            res,
        ),
        uri_path(uri@) == Some(path),
        0 <= j < roots@.len(),
        is_under(path, roots@[j]@),
        forall|m: int|
            0 <= m < roots@.len() && is_under(path, (#[trigger] roots@[m])@) ==> roots@[m]@.len()
                < roots@[j]@.len() || (roots@[m]@.len() == roots@[j]@.len() && m <= j),
    ensures
        opt_path_view(res) == Some(roots@[j]@),
        knows_the_same(*final(cache), *old(cache)),
{
    let all = path_views(roots@);
    lemma_best_root(path, all, j);
    matching_root_is_unique(path, all, j);
}

proof fn lemma_best_root(path: Seq<u8>, roots: Seq<Seq<u8>>, j: int)
    requires
        0 <= j < roots.len(),
        is_under(path, roots[j]),
        forall|m: int|
            0 <= m < roots.len() && is_under(path, #[trigger] roots[m]) ==> roots[m].len()
                < roots[j].len() || (roots[m].len() == roots[j].len() && m <= j),
    ensures
        is_root_of(path, roots, j),
{
    let all = unix_roots(roots);
    assert(all[j] == unix_root(roots[j]));
    assert forall|m: int|
        0 <= m < all.len() && lies_under(components(path), #[trigger] all[m]) implies all[m].path.len()
        < all[j].path.len() || (all[m].path.len() == all[j].path.len() && m <= j) by {
        assert(all[m] == unix_root(roots[m]));
        assert(is_under(path, roots[m]));
    }
}

proof fn lemma_no_root(path: Seq<u8>, roots: Seq<Seq<u8>>)
    requires
        forall|m: int| 0 <= m < roots.len() ==> !is_under(path, #[trigger] roots[m]),
    ensures
        chosen_root(components(path), unix_roots(roots)) is None,
{
    let all = unix_roots(roots);
    assert forall|m: int| 0 <= m < all.len() implies !lies_under(
        components(path),
        #[trigger] all[m],
    ) by {
        assert(all[m] == unix_root(roots[m]));
        assert(!is_under(path, roots[m]));
    }
}

/// A request for a path under no known root goes to the git root that looking the path up gives,
/// whatever the default root and the known roots are. Only where that gives none does it go to the
/// default root, else to the first known root, else nowhere.
pub proof fn git_root_comes_before_the_fallback<
    F: Fn(&FilePath) -> bool,
    G: Fn(&FilePath) -> bool,
>(
    roots: &Vec<FilePath>,
    default_root: Option<&FilePath>,
    cache: &mut GitRootCache,
    uri: &str,
    is_file: &F,
    present: &G,
    res: Option<FilePath>,
    path: Seq<u8>,
)
    requires
        call_ensures(
            determine_root::<F, G>,
            (roots, default_root, cache, Some(uri), is_file, present),
            res,
        ),
        uri_path(uri@) == Some(path),
        forall|m: int| 0 <= m < roots@.len() ==> !is_under(path, (#[trigger] roots@[m])@),
    ensures
        exists|found: Option<Seq<u8>>|
            {
                &&& #[trigger] cached_lookup(
                    *is_file,
                    *present,
                    *old(cache),
                    path,
                    found,
                    *final(cache),
                )
                &&& found is Some ==> opt_path_view(res) == found
                &&& found is None && default_root is Some ==> opt_path_view(res) == Some(
                    default_root.unwrap()@,
                )
                &&& found is None && default_root is None && roots@.len() > 0 ==> opt_path_view(
                    res,
                ) == Some(roots@[0]@)
                &&& found is None && default_root is None && roots@.len() == 0 ==> res is None
            },
{
    let all = path_views(roots@);
    lemma_no_root(path, all);
    let found = choose|found: Option<Seq<u8>>| #[trigger]
        cached_lookup(*is_file, *present, *old(cache), path, found, *final(cache))
            && opt_path_view(res) == (if found is Some {
            found
        } else {
            fallback_root(opt_path_ref_view(default_root), all)
        });
    assert(cached_lookup(*is_file, *present, *old(cache), path, found, *final(cache)));
}

/// A request for a path under no known root goes to the nearest directory from the path upwards, or
/// from its directory where it is a file, that holds git metadata, if nothing was remembered of it.
pub proof fn request_goes_to_its_git_root<F: Fn(&FilePath) -> bool, G: Fn(&FilePath) -> bool>(
    roots: &Vec<FilePath>,
    default_root: Option<&FilePath>,
    cache: &mut GitRootCache,
    uri: &str,
    is_file: &F,
    present: &G,
    res: Option<FilePath>,
    path: Seq<u8>,
    file: bool,
    start: Seq<u8>,
    k: nat,
    dir: Seq<u8>,
)
    requires
        call_ensures(
            determine_root::<F, G>,
            (roots, default_root, cache, Some(uri), is_file, present),
            res,
        ),
        uri_path(uri@) == Some(path),
        forall|m: int| 0 <= m < roots@.len() ==> !is_under(path, (#[trigger] roots@[m])@),
        knows_nothing(*old(cache)),
        !answered(*is_file, path, !file),
        start == (if file {
            parent(path).unwrap()
        } else {
            path
        }),
        file ==> parent(path) is Some,
        ancestor(start, k) == Some(dir),
        !answered(*present, git_marker(dir), false),
        forall|j: nat|
            j < k ==> !answered(
                *present,
                git_marker((#[trigger] ancestor(start, j)).unwrap()),
                true,
            ),
    ensures
        opt_path_view(res) == Some(dir),
        final(cache).known(start) == Some(Some(dir)),
        final(cache).size() == 1,
{
    let all = path_views(roots@);
    lemma_no_root(path, all);
    let found = choose|found: Option<Seq<u8>>| #[trigger]
        cached_lookup(*is_file, *present, *old(cache), path, found, *final(cache))
            && opt_path_view(res) == (if found is Some {
            found
        } else {
            fallback_root(opt_path_ref_view(default_root), all)
        });
    let f = choose|f: bool|
        lookup_if(*is_file, *present, *old(cache), path, f, found, *final(cache));
    assert(f == file);
    lemma_sure_to_be_found(*is_file, *present, path, file, start, k, dir, found);
}

/// A request for a path under no known root and in no git work tree goes to the default root, else
/// to the first known root, else nowhere, if nothing was remembered of the path.
pub proof fn request_without_git_root_falls_back<
    F: Fn(&FilePath) -> bool,
    G: Fn(&FilePath) -> bool,
>(
    roots: &Vec<FilePath>,
    default_root: Option<&FilePath>,
    cache: &mut GitRootCache,
    uri: &str,
    is_file: &F,
    present: &G,
    res: Option<FilePath>,
    path: Seq<u8>,
)
    requires
        call_ensures(
            determine_root::<F, G>,
            (roots, default_root, cache, Some(uri), is_file, present),
            res,
        ),
        uri_path(uri@) == Some(path),
        forall|m: int| 0 <= m < roots@.len() ==> !is_under(path, (#[trigger] roots@[m])@),
        knows_nothing(*old(cache)),
        forall|dir: Seq<u8>| #[trigger]
            is_under(path, dir) ==> !answered(*present, git_marker(dir), true),
    ensures
        default_root is Some ==> opt_path_view(res) == Some(default_root.unwrap()@),
        default_root is None && roots@.len() > 0 ==> opt_path_view(res) == Some(roots@[0]@),
        default_root is None && roots@.len() == 0 ==> res is None,
{
    let all = path_views(roots@);
    lemma_no_root(path, all);
    let found = choose|found: Option<Seq<u8>>| #[trigger]
        cached_lookup(*is_file, *present, *old(cache), path, found, *final(cache))
            && opt_path_view(res) == (if found is Some {
            found
        } else {
            fallback_root(opt_path_ref_view(default_root), all)
        });
    let f = choose|f: bool|
        lookup_if(*is_file, *present, *old(cache), path, f, found, *final(cache));
    if let Some(root) = found {
        git_root_contains_path(*is_file, *present, path, root);
    }
}

/// A request that names no file goes to the default root, else to the first known root, else
/// nowhere; no git root is looked for.
pub proof fn request_without_a_path_falls_back<F: Fn(&FilePath) -> bool, G: Fn(&FilePath) -> bool>(
    roots: &Vec<FilePath>,
    default_root: Option<&FilePath>,
    cache: &mut GitRootCache,
    uri: Option<&str>,
    is_file: &F,
    present: &G,
    res: Option<FilePath>,
)
    requires
        call_ensures(
            determine_root::<F, G>,
            (roots, default_root, cache, uri, is_file, present),
            res,
        ),
        uri matches Some(text) ==> uri_path(text@) is None,
    ensures
        default_root is Some ==> opt_path_view(res) == Some(default_root.unwrap()@),
        default_root is None && roots@.len() > 0 ==> opt_path_view(res) == Some(roots@[0]@),
        default_root is None && roots@.len() == 0 ==> res is None,
        knows_the_same(*final(cache), *old(cache)),
{
}

/// The fallback is the default root, else the first known root, else none.
pub proof fn fallback_is_the_default_root(
    default_root: Option<&FilePath>,
    roots: &Vec<FilePath>,
    res: Option<FilePath>,
)
    requires
        call_ensures(choose_fallback_root, (default_root, roots), res),
    ensures
        default_root is Some ==> opt_path_view(res) == Some(default_root.unwrap()@),
        default_root is None && roots@.len() > 0 ==> opt_path_view(res) == Some(roots@[0]@),
        default_root is None && roots@.len() == 0 ==> res is None,
{
}

/// The file at `path` belongs under `root`: under the known root that it is in, the longest and of
/// those equally long the last, or under the default root where it is in none.
pub open spec fn belongs_under(
    path: Seq<u8>,
    roots: Seq<Seq<u8>>,
    default_root: Option<Seq<u8>>,
    root: Seq<u8>,
) -> bool {
    ||| exists|j: int|
        {
            &&& 0 <= j < roots.len()
            &&& same_path(#[trigger] roots[j], root)
            &&& is_under(path, roots[j])
            &&& forall|m: int|
                0 <= m < roots.len() && is_under(path, #[trigger] roots[m]) ==> roots[m].len()
                    < roots[j].len() || (roots[m].len() == roots[j].len() && m <= j)
        }
    ||| {
        &&& default_root is Some && same_path(default_root.unwrap(), root)
        &&& forall|m: int| 0 <= m < roots.len() ==> !is_under(path, #[trigger] roots[m])
    }
}

proof fn lemma_goes_where_it_belongs(
    path: Seq<u8>,
    roots: Seq<Seq<u8>>,
    default_root: Option<Seq<u8>>,
    root: Seq<u8>,
)
    ensures
        goes_to(unix_filing(path, roots, default_root), components(root)) <==> belongs_under(
            path,
            roots,
            default_root,
            root,
        ),
{
    let own = components(path);
    let all = unix_roots(roots);
    if exists|m: int| 0 <= m < roots.len() && is_under(path, #[trigger] roots[m]) {
        let m = choose|m: int| 0 <= m < roots.len() && is_under(path, #[trigger] roots[m]);
        assert(all[m] == unix_root(roots[m]));
        assert(lies_under(own, all[m]));
        choice_exists(own, all, m);
        let i = choose|i: int| is_choice(own, all, i);
        choice_is_unique(own, all, i);
        assert(all[i] == unix_root(roots[i]));
        assert forall|n: int| 0 <= n < roots.len() && is_under(path, #[trigger] roots[n]) implies roots[
        n].len() < roots[i].len() || (roots[n].len() == roots[i].len() && n <= i) by {
            assert(all[n] == unix_root(roots[n]));
            assert(lies_under(own, all[n]));
        }
        if belongs_under(path, roots, default_root, root) {
            let j = choose|j: int|
                {
                    &&& 0 <= j < roots.len()
                    &&& same_path(#[trigger] roots[j], root)
                    &&& is_under(path, roots[j])
                    &&& forall|m: int|
                        0 <= m < roots.len() && is_under(path, #[trigger] roots[m])
                            ==> roots[m].len() < roots[j].len() || (roots[m].len()
                            == roots[j].len() && m <= j)
                };
            assert(i == j);
        }
        if components(roots[i]) == components(root) {
            assert(same_path(roots[i], root));
        }
    } else {
        lemma_no_root(path, roots);
    }
}

/// How often a path of `paths` is under a known root.
pub open spec fn count_under(paths: Seq<Seq<u8>>, roots: Seq<Seq<u8>>) -> nat
    decreases paths.len(),
{
    if paths.len() == 0 {
        0
    } else {
        count_under(paths.drop_last(), roots) + if exists|m: int|
            0 <= m < roots.len() && is_under(paths.last(), #[trigger] roots[m]) {
            1nat
        } else {
            0nat
        }
    }
}

proof fn lemma_reported(
    paths: Seq<Seq<u8>>,
    roots: Seq<Seq<u8>>,
    default_root: Option<Seq<u8>>,
)
    ensures
        default_root is Some ==> reported_count(unix_filings(paths, roots, default_root))
            == paths.len(),
        default_root is None ==> reported_count(unix_filings(paths, roots, default_root))
            == count_under(paths, roots),
    decreases paths.len(),
{
    let items = unix_filings(paths, roots, default_root);
    if paths.len() > 0 {
        let p = paths.last();
        lemma_reported(paths.drop_last(), roots, default_root);
        assert(items.drop_last() =~= unix_filings(paths.drop_last(), roots, default_root));
        assert(items.last() == unix_filing(p, roots, default_root));
        if exists|m: int| 0 <= m < roots.len() && is_under(p, #[trigger] roots[m]) {
            let m = choose|m: int| 0 <= m < roots.len() && is_under(p, #[trigger] roots[m]);
            assert(unix_roots(roots)[m] == unix_root(roots[m]));
            assert(lies_under(components(p), unix_roots(roots)[m]));
        } else {
            lemma_no_root(p, roots);
        }
    }
}

/// No changed file is lost: where there is a default root the groups hold as many URIs in all as
/// there are files, and where there is none as many as there are files under a known root.
pub proof fn every_changed_file_is_reported(
    paths: &Vec<FilePath>,
    roots: &Vec<FilePath>,
    default_root: Option<&FilePath>,
    res: PathGroups,
)
    requires
        call_ensures(group_paths_by_root, (paths, roots, default_root), res),
    ensures
        default_root is Some ==> total_uris(res@) == paths@.len(),
        default_root is None ==> total_uris(res@) == count_under(
            path_views(paths@),
            path_views(roots@),
        ),
{
    let all = path_views(paths@);
    let known = path_views(roots@);
    let fallback = opt_path_ref_view(default_root);
    let items = unix_filings(all, known, fallback);
    grouping_reports_each_file_once(res@, unix_ids(res@), items);
    lemma_reported(all, known, fallback);
}

/// Every changed file stands in the group of the root that it belongs under, and is the URI of the
/// file there.
pub proof fn changed_file_stands_where_it_belongs(
    paths: &Vec<FilePath>,
    roots: &Vec<FilePath>,
    default_root: Option<&FilePath>,
    res: PathGroups,
    k: int,
    root: Seq<u8>,
) -> (i: int)
    requires
        call_ensures(group_paths_by_root, (paths, roots, default_root), res),
        0 <= k < paths@.len(),
        belongs_under(
            paths@[k]@,
            path_views(roots@),
            opt_path_ref_view(default_root),
            root,
        ),
    ensures
        0 <= i < res@.len(),
        same_path(res@[i].0, root),
        res@[i].1.contains(path_uri(paths@[k]@)),
{
    let all = path_views(paths@);
    let known = path_views(roots@);
    let fallback = opt_path_ref_view(default_root);
    let items = unix_filings(all, known, fallback);
    let ids = unix_ids(res@);
    assert(all[k] == paths@[k]@);
    assert(items[k] == unix_filing(all[k], known, fallback));
    lemma_goes_where_it_belongs(all[k], known, fallback, root);
    assert(has_group(ids, items[k]));
    let i = choose|i: int| 0 <= i < ids.len() && goes_to(items[k], #[trigger] ids[i]);
    assert(is_group_of(res@[i], ids[i], items));
    lemma_uri_is_kept(items, ids[i], k);
    i
}

proof fn lemma_uris_are_those_that_belong(
    paths: Seq<Seq<u8>>,
    roots: Seq<Seq<u8>>,
    default_root: Option<Seq<u8>>,
    root: Seq<u8>,
)
    ensures
        uris_for(unix_filings(paths, roots, default_root), components(root)) == paths.filter(
            |p: Seq<u8>| belongs_under(p, roots, default_root, root),
        ).map_values(|p: Seq<u8>| path_uri(p)),
    decreases paths.len(),
{
    reveal(Seq::filter);
    let belongs = |p: Seq<u8>| belongs_under(p, roots, default_root, root);
    let written = |p: Seq<u8>| path_uri(p);
    let items = unix_filings(paths, roots, default_root);
    let id = components(root);
    if paths.len() == 0 {
        assert(uris_for(items, id) =~= paths.filter(belongs).map_values(written));
    } else {
        let rest = paths.drop_last();
        let p = paths.last();
        lemma_uris_are_those_that_belong(rest, roots, default_root, root);
        lemma_goes_where_it_belongs(p, roots, default_root, root);
        assert(items.drop_last() =~= unix_filings(rest, roots, default_root));
        assert(items.last() == unix_filing(p, roots, default_root));
        if belongs(p) {
            assert(paths.filter(belongs) == rest.filter(belongs).push(p));
            assert(rest.filter(belongs).push(p).map_values(written) =~= rest.filter(
                belongs,
            ).map_values(written).push(path_uri(p)));
            assert(items.last().unwrap().uri == path_uri(p));
        } else {
            assert(paths.filter(belongs) == rest.filter(belongs));
        }
    }
}

/// Each group holds the URIs of exactly the changed files that belong under its root, in their
/// order; its root is a known one or the default root, no group is empty and no two have the same
/// root.
pub proof fn group_holds_what_belongs_to_its_root(
    paths: &Vec<FilePath>,
    roots: &Vec<FilePath>,
    default_root: Option<&FilePath>,
    res: PathGroups,
    i: int,
    other: int,
)
    requires
        call_ensures(group_paths_by_root, (paths, roots, default_root), res),
        0 <= i < res@.len(),
        0 <= other < res@.len(),
    ensures
        res@[i].1 == path_views(paths@).filter(
            |p: Seq<u8>|
                belongs_under(
                    p,
                    path_views(roots@),
                    opt_path_ref_view(default_root),
                    res@[i].0,
                ),
        ).map_values(|p: Seq<u8>| path_uri(p)),
        res@[i].1.len() > 0,
        i != other ==> !same_path(res@[i].0, res@[other].0),
        path_views(roots@).contains(res@[i].0) || opt_path_ref_view(default_root) == Some(
            res@[i].0,
        ),
{
    let all = path_views(paths@);
    let known = path_views(roots@);
    let fallback = opt_path_ref_view(default_root);
    let items = unix_filings(all, known, fallback);
    let ids = unix_ids(res@);
    assert(is_group_of(res@[i], ids[i], items));
    lemma_uris_are_those_that_belong(all, known, fallback, res@[i].0);
    let k = choose|k: int| is_first_at(items, ids[i], res@[i].0, k);
    assert(goes_to(items[k], ids[i]));
    lemma_uri_is_kept(items, ids[i], k);
    assert(items[k] == unix_filing(all[k], known, fallback));
    let own = components(all[k]);
    let table = unix_roots(known);
    if chosen_root(own, table) is Some {
        let j = choose|j: int| 0 <= j < table.len() && lies_under(own, #[trigger] table[j]);
        choice_exists(own, table, j);
        let c = choose|c: int| is_choice(own, table, c);
        assert(table[c] == unix_root(known[c]));
        assert(known[c] == res@[i].0);
    }
    if i < other {
        assert(ids[i] != ids[other]);
    } else if other < i {
        assert(ids[other] != ids[i]);
    }
}

/// The root table finds the root that a path belongs to: the longest that the path is under, the
/// last of those equally long, and none where it is under none.
pub proof fn table_finds_the_longest_root(
    roots: &Vec<FilePath>,
    table: RootTable,
    path: &FilePath,
    res: Option<usize>,
    m: int,
)
    requires
        call_ensures(RootTable::new, (roots,), table),
        call_ensures(RootTable::longest_match, (&table, path), res),
        0 <= m < roots@.len(),
        is_under(path@, roots@[m]@),
    ensures
        res matches Some(i) && i < roots@.len() && is_under(path@, roots@[i as int]@) && (
        roots@[m]@.len() < roots@[i as int]@.len() || (roots@[m]@.len() == roots@[i as int]@.len()
            && m <= i)),
{
    let all = path_views(roots@);
    assert(all[m] == roots@[m]@);
    assert(table@[m] == unix_root(all[m]));
    assert(lies_under(components(path@), table@[m]));
    let i = res.unwrap() as int;
    assert(all[i] == roots@[i]@);
    assert(table@[i] == unix_root(all[i]));
}

/// The root table finds no root for a path that is under none.
pub proof fn table_finds_nothing_else(
    roots: &Vec<FilePath>,
    table: RootTable,
    path: &FilePath,
    res: Option<usize>,
)
    requires
        call_ensures(RootTable::new, (roots,), table),
        call_ensures(RootTable::longest_match, (&table, path), res),
        forall|m: int| 0 <= m < roots@.len() ==> !is_under(path@, (#[trigger] roots@[m])@),
    ensures
        res is None,
{
    if let Some(i) = res {
        let all = path_views(roots@);
        assert(all[i as int] == roots@[i as int]@);
        assert(table@[i as int] == unix_root(all[i as int]));
        assert(lies_under(components(path@), table@[i as int]));
    }
}

/// The URIs under a root can be had from the groups by that root, however it is spelled, and none
/// for a root without a group.
pub proof fn group_is_found_by_its_root(
    paths: &Vec<FilePath>,
    roots: &Vec<FilePath>,
    default_root: Option<&FilePath>,
    groups: PathGroups,
    root: &FilePath,
    uris: Option<&Vec<String>>,
    i: int,
)
    requires
        call_ensures(group_paths_by_root, (paths, roots, default_root), groups),
        call_ensures(PathGroups::get, (&groups, root), uris),
    ensures
        0 <= i < groups@.len() && same_path(groups@[i].0, root@) ==> uris is Some && text_views(
            uris.unwrap()@,
        ) == groups@[i].1,
        (forall|g: int| 0 <= g < groups@.len() ==> !same_path((#[trigger] groups@[g]).0, root@))
            ==> uris is None,
{
    let ids = groups.ids();
    let id = components(root@);
    if uris is Some {
        let j = choose|j: int|
            0 <= j < groups@.len() && #[trigger] ids[j] == id && text_views(uris.unwrap()@)
                == groups@[j].1;
        assert(same_path(groups@[j].0, root@));
        if 0 <= i < groups@.len() && same_path(groups@[i].0, root@) {
            assert(ids[i] == id);
            if i < j {
                assert(ids[i] != ids[j]);
            } else if j < i {
                assert(ids[j] != ids[i]);
            }
        }
    } else if 0 <= i < groups@.len() {
        assert(ids[i] != id);
    }
}

/// The groups stand in the order in which their roots first occur: a file of one group comes only
/// behind a file of each group in front of it.
pub proof fn groups_stand_in_the_order_of_their_files(
    paths: &Vec<FilePath>,
    roots: &Vec<FilePath>,
    default_root: Option<&FilePath>,
    res: PathGroups,
    i: int,
    j: int,
    k: int,
)
    requires
        call_ensures(group_paths_by_root, (paths, roots, default_root), res),
        0 <= i < j < res@.len(),
        0 <= k < paths@.len(),
        belongs_under(
            paths@[k]@,
            path_views(roots@),
            opt_path_ref_view(default_root),
            res@[j].0,
        ),
    ensures
        exists|m: int|
            0 <= m < k && belongs_under(
                (#[trigger] paths@[m])@,
                path_views(roots@),
                opt_path_ref_view(default_root),
                res@[i].0,
            ),
{
    let all = path_views(paths@);
    let known = path_views(roots@);
    let fallback = opt_path_ref_view(default_root);
    let items = unix_filings(all, known, fallback);
    let ids = unix_ids(res@);
    assert(items[k] == unix_filing(paths@[k]@, known, fallback));
    lemma_goes_where_it_belongs(paths@[k]@, known, fallback, res@[j].0);
    assert(goes_to(items[k], ids[j]));
    assert(ids[i] == components(res@[i].0));
    assert(seen_before(items, ids[i], k));
    let m = choose|m: int| 0 <= m < k && goes_to(#[trigger] items[m], ids[i]);
    assert(items[m] == unix_filing(paths@[m]@, known, fallback));
    lemma_goes_where_it_belongs(paths@[m]@, known, fallback, res@[i].0);
}

} // verus!
