//! The git work tree that a path lies in on Windows, and a memory of those found. What a Windows
//! path is made of and what lies above it the system tells.

use crate::names::{id_key, id_key_text, lemma_id_key};
use crate::path::{clone_opt_path, opt_path_view, part_views, FilePath};
use crate::probe::{answered, asks_anything};
use vstd::hash_map::StringHashMap;
use vstd::prelude::*;

verus! {

/// A path as the system reads it.
pub struct WindowsDir {
    pub path: FilePath,
    /// Its components. Two paths are the same where these are.
    pub parts: Vec<Vec<u8>>,
    /// Where a git work tree with its root there keeps its metadata.
    pub marker: FilePath,
}

/// A path and the directories above it, the nearest first.
pub struct WindowsLocation {
    pub own: WindowsDir,
    pub above: Vec<WindowsDir>,
}

/// What a [`WindowsDir`] holds.
#[verifier::ext_equal]
pub struct DirView {
    pub path: Seq<u8>,
    pub parts: Seq<Seq<u8>>,
    pub marker: Seq<u8>,
}

/// What a [`WindowsLocation`] holds.
#[verifier::ext_equal]
pub struct LocationView {
    pub own: DirView,
    pub above: Seq<DirView>,
}

impl View for WindowsDir {
    type V = DirView;

    open spec fn view(&self) -> DirView {
        DirView { path: self.path@, parts: part_views(self.parts@), marker: self.marker@ }
    }
}

impl View for WindowsLocation {
    type V = LocationView;

    open spec fn view(&self) -> LocationView {
        LocationView {
            own: self.own@,
            above: self.above@.map_values(|dir: WindowsDir| dir@),
        }
    }
}

/// `read`, asked what the path `p` is, may have told `place`.
pub open spec fn was_read<R: Fn(&FilePath) -> WindowsLocation>(
    read: R,
    p: Seq<u8>,
    place: LocationView,
) -> bool {
    exists|asked: &FilePath, told: WindowsLocation|
        asked@ == p && told@ == place && #[trigger] call_ensures(read, (asked,), told)
}

/// `read` can be asked about every path.
pub open spec fn reads_anything<R: Fn(&FilePath) -> WindowsLocation>(read: R) -> bool {
    forall|p: &FilePath| #[trigger] call_requires(read, (p,))
}

/// The path and the directories above it.
pub open spec fn all_dirs(place: LocationView) -> Seq<DirView> {
    seq![place.own] + place.above
}

/// The directories that are searched for git metadata: from the path itself upwards, or from above
/// it where the path is a file.
pub open spec fn search_dirs(place: LocationView, file: bool) -> Seq<DirView> {
    if file {
        place.above
    } else {
        all_dirs(place)
    }
}

/// The directory `k` of `dirs` is at `root`, `present` saw its git metadata, and saw none in those
/// before it.
pub open spec fn is_first_marked_at<G: Fn(&FilePath) -> bool>(
    present: G,
    dirs: Seq<DirView>,
    root: Seq<u8>,
    k: int,
) -> bool {
    &&& 0 <= k < dirs.len()
    &&& dirs[k].path == root
    &&& answered(present, dirs[k].marker, true)
    &&& forall|j: int| 0 <= j < k ==> answered(present, (#[trigger] dirs[j]).marker, false)
}

/// `root` is the first of `dirs` whose git metadata `present` saw.
pub open spec fn is_first_marked<G: Fn(&FilePath) -> bool>(
    present: G,
    dirs: Seq<DirView>,
    root: Seq<u8>,
) -> bool {
    exists|k: int| is_first_marked_at(present, dirs, root, k)
}

/// `result` is the first of `dirs` whose git metadata `present` saw; `None` if it saw none.
pub open spec fn first_marked<G: Fn(&FilePath) -> bool>(
    present: G,
    dirs: Seq<DirView>,
    result: Option<Seq<u8>>,
) -> bool {
    match result {
        Some(root) => is_first_marked(present, dirs, root),
        None => forall|j: int|
            0 <= j < dirs.len() ==> answered(present, (#[trigger] dirs[j]).marker, false),
    }
}

/// `result` is what looking for the git root of the path at `place` gives once it is known whether
/// the path is a file.
pub open spec fn windows_outcome_if<F: Fn(&FilePath) -> bool, G: Fn(&FilePath) -> bool>(
    is_file: F,
    present: G,
    place: LocationView,
    file: bool,
    result: Option<Seq<u8>>,
) -> bool {
    &&& answered(is_file, place.own.path, file)
    &&& first_marked(present, search_dirs(place, file), result)
}

/// `result` is what looking for the git root of the path at `place` gives.
pub open spec fn windows_git_root<F: Fn(&FilePath) -> bool, G: Fn(&FilePath) -> bool>(
    is_file: F,
    present: G,
    place: LocationView,
    result: Option<Seq<u8>>,
) -> bool {
    exists|file: bool| windows_outcome_if(is_file, present, place, file, result)
}

/// Finds the git root of the path at `place`: the nearest directory from it upwards that holds
/// `.git`.
#[verifier::spinoff_prover]
pub fn find_git_root_windows<F: Fn(&FilePath) -> bool, G: Fn(&FilePath) -> bool>(
    place: &WindowsLocation,
    is_file: &F,
    present: &G,
) -> (res: Option<FilePath>)
    requires
        asks_anything(*is_file),
        asks_anything(*present),
    ensures
        windows_git_root(*is_file, *present, place@, opt_path_view(res)),
{
    let file = is_file(&place.own.path);
    let ghost dirs = search_dirs(place@, file);
    assert(answered(*is_file, place@.own.path, file));
    if !file {
        let there = present(&place.own.marker);
        assert(answered(*present, place@.own.marker, there));
        assert(dirs[0] == place@.own);
        if there {
            proof {
                assert(is_first_marked_at(*present, dirs, place@.own.path, 0));
                assert(windows_outcome_if(
                    *is_file,
                    *present,
                    place@,
                    file,
                    Some(place@.own.path),
                ));
            }
            return Some(place.own.path.clone());
        }
    }
    let ghost skipped: int = if file {
        0
    } else {
        1
    };
    let mut i: usize = 0;
    while i < place.above.len()
        invariant
            i <= place.above.len(),
            asks_anything(*present),
            answered(*is_file, place@.own.path, file),
            dirs == search_dirs(place@, file),
            skipped == (if file {
                0int
            } else {
                1int
            }),
            forall|j: int|
                0 <= j < i + skipped ==> answered(*present, (#[trigger] dirs[j]).marker, false),
        decreases place.above.len() - i,
    {
        let dir = &place.above[i];
        let there = present(&dir.marker);
        proof {
            assert(dirs[i + skipped] == dir@);
            assert(answered(*present, dir@.marker, there));
        }
        if there {
            proof {
                assert(is_first_marked_at(*present, dirs, dir@.path, i + skipped));
                assert(windows_outcome_if(*is_file, *present, place@, file, Some(dir@.path)));
            }
            return Some(dir.path.clone());
        }
        i = i + 1;
    }
    assert(windows_outcome_if(*is_file, *present, place@, file, None));
    None
}

/// Remembers the git root of each directory that was looked up, so that the disk is asked once.
pub struct WindowsGitRootCache {
    cache: StringHashMap<Option<FilePath>>,
}

/// The components under which what is found for the path at `place` is remembered: files of one
/// directory share them.
pub open spec fn windows_lookup_key(place: LocationView, file: bool) -> Seq<Seq<u8>> {
    if file && place.above.len() > 0 {
        place.above[0].parts
    } else {
        place.own.parts
    }
}

/// The two caches know the same.
pub open spec fn windows_knows_the_same(a: WindowsGitRootCache, b: WindowsGitRootCache) -> bool {
    &&& a.size() == b.size()
    &&& forall|q: Seq<Seq<u8>>| #[trigger] a.known(q) == b.known(q)
}

/// The cache knows nothing.
pub open spec fn windows_knows_nothing(cache: WindowsGitRootCache) -> bool {
    &&& cache.size() == 0
    &&& forall|q: Seq<Seq<u8>>| #[trigger] cache.known(q) is None
}

/// What the cache knows after `result` was remembered for `key`, of which it knew nothing.
pub open spec fn windows_remembered(
    before: WindowsGitRootCache,
    after: WindowsGitRootCache,
    key: Seq<Seq<u8>>,
    result: Option<Seq<u8>>,
) -> bool {
    &&& after.size() == before.size() + 1
    &&& forall|q: Seq<Seq<u8>>| #[trigger]
        after.known(q) == (if q == key {
            Some(result)
        } else {
            before.known(q)
        })
}

/// `result` and `after` are what looking up the git root of the path at `place` in the cache
/// `before` gives once it is known whether the path is a file: what is known is returned, and what
/// is not is found and remembered.
pub open spec fn windows_lookup_if<F: Fn(&FilePath) -> bool, G: Fn(&FilePath) -> bool>(
    is_file: F,
    present: G,
    before: WindowsGitRootCache,
    place: LocationView,
    file: bool,
    result: Option<Seq<u8>>,
    after: WindowsGitRootCache,
) -> bool {
    &&& answered(is_file, place.own.path, file)
    &&& match before.known(windows_lookup_key(place, file)) {
        Some(known) => result == known && windows_knows_the_same(after, before),
        None => windows_git_root(is_file, present, place, result) && windows_remembered(
            before,
            after,
            windows_lookup_key(place, file),
            result,
        ),
    }
}

/// `result` and `after` are what looking up the git root of the path at `place` in the cache
/// `before` gives.
pub open spec fn windows_cached_lookup<F: Fn(&FilePath) -> bool, G: Fn(&FilePath) -> bool>(
    is_file: F,
    present: G,
    before: WindowsGitRootCache,
    place: LocationView,
    result: Option<Seq<u8>>,
    after: WindowsGitRootCache,
) -> bool {
    exists|file: bool| windows_lookup_if(is_file, present, before, place, file, result, after)
}

impl WindowsGitRootCache {
    /// What is remembered for the path with the components `id`: `Some(None)` is the knowledge
    /// that it has no git root.
    pub closed spec fn known(&self, id: Seq<Seq<u8>>) -> Option<Option<Seq<u8>>> {
        if self.cache@.contains_key(id_key(id)) {
            Some(opt_path_view(self.cache@[id_key(id)]))
        } else {
            None
        }
    }

    /// How many directories the cache knows of.
    pub closed spec fn size(&self) -> nat {
        self.cache@.dom().len()
    }

    #[verifier::type_invariant]
    spec fn well_formed(self) -> bool {
        self.cache@.dom().finite()
    }

    /// A cache that knows nothing.
    pub fn new() -> (res: WindowsGitRootCache)
        ensures
            windows_knows_nothing(res),
    {
        WindowsGitRootCache { cache: StringHashMap::new() }
    }

    /// How many directories the cache knows of.
    pub fn len(&self) -> (res: usize)
        ensures
            res == self.size(),
    {
        self.cache.len()
    }

    /// Finds the git root of the path at `place` as [`find_git_root_windows`] does, asking the
    /// disk only where the directory was not looked up before.
    #[verifier::spinoff_prover]
    pub fn find_git_root_cached<F: Fn(&FilePath) -> bool, G: Fn(&FilePath) -> bool>(
        &mut self,
        place: &WindowsLocation,
        is_file: &F,
        present: &G,
    ) -> (res: Option<FilePath>)
        requires
            asks_anything(*is_file),
            asks_anything(*present),
        ensures
            windows_cached_lookup(
                *is_file,
                *present,
                *old(self),
                place@,
                opt_path_view(res),
                *final(self),
            ),
    {
        let file = is_file(&place.own.path);
        assert(answered(*is_file, place@.own.path, file));
        let ghost id = windows_lookup_key(place@, file);
        let key = if file && place.above.len() > 0 {
            assert(place@.above[0] == place.above@[0]@);
            id_key_text(&place.above[0].parts)
        } else {
            id_key_text(&place.own.parts)
        };
        match self.cache.get(key.as_str()) {
            Some(cached) => {
                let res = clone_opt_path(cached);
                proof {
                    assert(windows_lookup_if(
                        *is_file,
                        *present,
                        *old(self),
                        place@,
                        file,
                        opt_path_view(res),
                        *self,
                    ));
                }
                return res;
            },
            None => {},
        }
        let result = find_git_root_windows(place, is_file, present);
        let kept = clone_opt_path(&result);
        proof {
            use_type_invariant(&*self);
        }
        let mut cache: StringHashMap<Option<FilePath>> = StringHashMap::new();
        std::mem::swap(&mut cache, &mut self.cache);
        cache.insert(key, kept);
        self.cache = cache;
        proof {
            assert(self.cache@.dom() =~= old(self).cache@.dom().insert(key@));
            assert forall|q: Seq<Seq<u8>>| #[trigger]
                self.known(q) == (if q == id {
                    Some(opt_path_view(result))
                } else {
                    old(self).known(q)
                }) by {
                if id_key(q) == id_key(id) {
                    lemma_id_key(q, id);
                }
            }
            assert(windows_lookup_if(
                *is_file,
                *present,
                *old(self),
                place@,
                file,
                opt_path_view(result),
                *self,
            ));
        }
        result
    }
}

/// Looking up a second path that shares its key with one that was just looked up returns what the
/// first lookup returned and leaves the cache alone.
pub proof fn windows_lookup_is_remembered<F: Fn(&FilePath) -> bool, G: Fn(&FilePath) -> bool>(
    is_file: F,
    present: G,
    before: WindowsGitRootCache,
    p: LocationView,
    first: Option<Seq<u8>>,
    middle: WindowsGitRootCache,
    q: LocationView,
    second: Option<Seq<u8>>,
    after: WindowsGitRootCache,
)
    requires
        windows_cached_lookup(is_file, present, before, p, first, middle),
        windows_cached_lookup(is_file, present, middle, q, second, after),
        forall|a: bool, b: bool| #[trigger]
            answered(is_file, p.own.path, a) && #[trigger] answered(is_file, q.own.path, b)
                ==> windows_lookup_key(p, a) == windows_lookup_key(q, b),
    ensures
        second == first,
        windows_knows_the_same(after, middle),
{
    let a = choose|a: bool| windows_lookup_if(is_file, present, before, p, a, first, middle);
    let b = choose|b: bool| windows_lookup_if(is_file, present, middle, q, b, second, after);
    assert(answered(is_file, p.own.path, a) && answered(is_file, q.own.path, b));
    assert(middle.known(windows_lookup_key(p, a)) == Some(first));
}

/// What the cache once knows it never forgets, whatever is looked up later.
pub proof fn windows_cache_never_forgets<F: Fn(&FilePath) -> bool, G: Fn(&FilePath) -> bool>(
    is_file: F,
    present: G,
    before: WindowsGitRootCache,
    p: LocationView,
    result: Option<Seq<u8>>,
    after: WindowsGitRootCache,
    id: Seq<Seq<u8>>,
)
    requires
        windows_cached_lookup(is_file, present, before, p, result, after),
        before.known(id) is Some,
    ensures
        after.known(id) == before.known(id),
{
}

/// `place` is what `read` told of some path.
pub open spec fn is_told<R: Fn(&FilePath) -> WindowsLocation>(read: R, place: LocationView) -> bool {
    exists|p: Seq<u8>| was_read(read, p, place)
}

/// `i` is the place of a directory among those that `read` told of.
pub open spec fn is_dir_at<R: Fn(&FilePath) -> WindowsLocation>(
    read: R,
    place: LocationView,
    i: int,
) -> bool {
    is_told(read, place) && 0 <= i < all_dirs(place).len()
}

/// The components of each of `dirs`.
pub open spec fn dir_parts(dirs: Seq<DirView>) -> Seq<Seq<Seq<u8>>> {
    dirs.map_values(|dir: DirView| dir.parts)
}

/// Asked about either of the two paths, `probe` gives the same answer.
pub open spec fn probed_alike<F: Fn(&FilePath) -> bool>(probe: F, p: Seq<u8>, q: Seq<u8>) -> bool {
    forall|a: bool, b: bool| #[trigger]
        answered(probe, p, a) && #[trigger] answered(probe, q, b) ==> a == b
}

/// The disk does not change: wherever `read` tells of the same directory, the same lies above it,
/// and the disk gives the same answers about it.
pub open spec fn windows_steady<
    R: Fn(&FilePath) -> WindowsLocation,
    F: Fn(&FilePath) -> bool,
    G: Fn(&FilePath) -> bool,
>(read: R, is_file: F, present: G) -> bool {
    forall|p: LocationView, i: int, q: LocationView, j: int| #[trigger]
        is_dir_at(read, p, i) && #[trigger] is_dir_at(read, q, j) && all_dirs(p)[i].parts
            == all_dirs(q)[j].parts ==> {
            &&& dir_parts(all_dirs(p).skip(i)) == dir_parts(all_dirs(q).skip(j))
            &&& probed_alike(is_file, all_dirs(p)[i].path, all_dirs(q)[j].path)
            &&& probed_alike(present, all_dirs(p)[i].marker, all_dirs(q)[j].marker)
        }
}

/// No path without a directory above it is a file, has a file in it and holds git metadata, all at
/// once. On such a disk that path shares its entry in the cache with the file, and yet a search
/// gives only the file a git root.
pub open spec fn windows_no_marked_file_on_top<
    R: Fn(&FilePath) -> WindowsLocation,
    F: Fn(&FilePath) -> bool,
    G: Fn(&FilePath) -> bool,
>(read: R, is_file: F, present: G) -> bool {
    forall|top: LocationView, p: LocationView| #[trigger]
        is_told(read, top) && #[trigger] is_told(read, p) && top.above.len() == 0 && p.above.len()
            > 0 && p.above[0].parts == top.own.parts && answered(is_file, top.own.path, true)
            && answered(is_file, p.own.path, true) ==> !answered(present, p.above[0].marker, true)
}

/// `read` told of a directory at `a` and of one at `b`, and the two are the same.
pub open spec fn told_the_same<R: Fn(&FilePath) -> WindowsLocation>(
    read: R,
    a: Seq<u8>,
    b: Seq<u8>,
) -> bool {
    exists|p: LocationView, i: int, q: LocationView, j: int| #[trigger]
        is_dir_at(read, p, i) && #[trigger] is_dir_at(read, q, j) && all_dirs(p)[i].path == a
            && all_dirs(q)[j].path == b && all_dirs(p)[i].parts == all_dirs(q)[j].parts
}

/// The two results are the same path, or both none.
pub open spec fn windows_same_root<R: Fn(&FilePath) -> WindowsLocation>(
    read: R,
    a: Option<Seq<u8>>,
    b: Option<Seq<u8>>,
) -> bool {
    match (a, b) {
        (Some(a), Some(b)) => told_the_same(read, a, b),
        (None, None) => true,
        _ => false,
    }
}

/// `result` is what a search gives for the path at `place`, which is remembered under `key`.
pub open spec fn windows_search_for_key<
    R: Fn(&FilePath) -> WindowsLocation,
    F: Fn(&FilePath) -> bool,
    G: Fn(&FilePath) -> bool,
>(
    read: R,
    is_file: F,
    present: G,
    place: LocationView,
    file: bool,
    key: Seq<Seq<u8>>,
    result: Option<Seq<u8>>,
) -> bool {
    &&& is_told(read, place)
    &&& windows_lookup_key(place, file) == key
    &&& windows_outcome_if(is_file, present, place, file, result)
}

/// `result` is what a search gives for some path that is remembered under `key`.
pub open spec fn windows_is_true_of_key<
    R: Fn(&FilePath) -> WindowsLocation,
    F: Fn(&FilePath) -> bool,
    G: Fn(&FilePath) -> bool,
>(read: R, is_file: F, present: G, key: Seq<Seq<u8>>, result: Option<Seq<u8>>) -> bool {
    exists|place: LocationView, file: bool|
        windows_search_for_key(read, is_file, present, place, file, key, result)
}

/// All that the cache knows is what a search gives.
pub open spec fn windows_cache_is_true<
    R: Fn(&FilePath) -> WindowsLocation,
    F: Fn(&FilePath) -> bool,
    G: Fn(&FilePath) -> bool,
>(read: R, is_file: F, present: G, cache: WindowsGitRootCache) -> bool {
    forall|q: Seq<Seq<u8>>|
        (#[trigger] cache.known(q)) is Some ==> windows_is_true_of_key(
            read,
            is_file,
            present,
            q,
            cache.known(q).unwrap(),
        )
}

// What the directory `m` levels above the same directory is: the same, with the same answers.
proof fn lemma_levels_alike<
    R: Fn(&FilePath) -> WindowsLocation,
    F: Fn(&FilePath) -> bool,
    G: Fn(&FilePath) -> bool,
>(read: R, is_file: F, present: G, p: LocationView, i: int, q: LocationView, j: int, m: int)
    requires
        windows_steady(read, is_file, present),
        is_dir_at(read, p, i),
        is_dir_at(read, q, j),
        all_dirs(p)[i].parts == all_dirs(q)[j].parts,
        0 <= m,
    ensures
        all_dirs(p).skip(i).len() == all_dirs(q).skip(j).len(),
        m < all_dirs(p).skip(i).len() ==> {
            &&& is_dir_at(read, p, i + m)
            &&& is_dir_at(read, q, j + m)
            &&& all_dirs(p)[i + m].parts == all_dirs(q)[j + m].parts
            &&& probed_alike(present, all_dirs(p)[i + m].marker, all_dirs(q)[j + m].marker)
        },
{
    let s = all_dirs(p).skip(i);
    let t = all_dirs(q).skip(j);
    assert(dir_parts(s).len() == s.len());
    assert(dir_parts(t).len() == t.len());
    if m < s.len() {
        assert(dir_parts(s)[m] == s[m].parts);
        assert(dir_parts(t)[m] == t[m].parts);
        assert(s[m] == all_dirs(p)[i + m]);
        assert(t[m] == all_dirs(q)[j + m]);
        assert(is_dir_at(read, p, i + m));
        assert(is_dir_at(read, q, j + m));
    }
}

// Searches from two mentions of one directory find the same.
#[verifier::spinoff_prover]
proof fn lemma_marks_alike<
    R: Fn(&FilePath) -> WindowsLocation,
    F: Fn(&FilePath) -> bool,
    G: Fn(&FilePath) -> bool,
>(
    read: R,
    is_file: F,
    present: G,
    p: LocationView,
    i: int,
    first: Option<Seq<u8>>,
    q: LocationView,
    j: int,
    second: Option<Seq<u8>>,
)
    requires
        windows_steady(read, is_file, present),
        is_dir_at(read, p, i),
        is_dir_at(read, q, j),
        all_dirs(p)[i].parts == all_dirs(q)[j].parts,
        first_marked(present, all_dirs(p).skip(i), first),
        first_marked(present, all_dirs(q).skip(j), second),
    ensures
        windows_same_root(read, first, second),
{
    let s = all_dirs(p).skip(i);
    let t = all_dirs(q).skip(j);
    lemma_levels_alike(read, is_file, present, p, i, q, j, 0);
    if let Some(root) = first {
        let k = choose|k: int| is_first_marked_at(present, s, root, k);
        lemma_levels_alike(read, is_file, present, p, i, q, j, k);
        assert(s[k] == all_dirs(p)[i + k]);
        assert(t[k] == all_dirs(q)[j + k]);
        assert(answered(present, s[k].marker, true));
        if let Some(other) = second {
            let m = choose|m: int| is_first_marked_at(present, t, other, m);
            lemma_levels_alike(read, is_file, present, p, i, q, j, m);
            assert(s[m] == all_dirs(p)[i + m]);
            assert(t[m] == all_dirs(q)[j + m]);
            assert(answered(present, t[m].marker, true));
            if k < m {
                assert(answered(present, t[k].marker, false));
            } else if m < k {
                assert(answered(present, s[m].marker, false));
            }
            assert(told_the_same(read, root, other));
        } else {
            assert(answered(present, t[k].marker, false));
        }
    } else if let Some(other) = second {
        let m = choose|m: int| is_first_marked_at(present, t, other, m);
        lemma_levels_alike(read, is_file, present, p, i, q, j, m);
        assert(s[m] == all_dirs(p)[i + m]);
        assert(t[m] == all_dirs(q)[j + m]);
        assert(answered(present, t[m].marker, true));
        assert(answered(present, s[m].marker, false));
    }
}

// A path that is a file without a directory above it and a path that shares its key: neither has
// a git root.
#[verifier::spinoff_prover]
proof fn lemma_windows_top_file<
    R: Fn(&FilePath) -> WindowsLocation,
    F: Fn(&FilePath) -> bool,
    G: Fn(&FilePath) -> bool,
>(
    read: R,
    is_file: F,
    present: G,
    top: LocationView,
    p: LocationView,
    file: bool,
    result: Option<Seq<u8>>,
)
    requires
        windows_steady(read, is_file, present),
        windows_no_marked_file_on_top(read, is_file, present),
        is_told(read, top),
        top.above.len() == 0,
        answered(is_file, top.own.path, true),
        windows_search_for_key(read, is_file, present, p, file, top.own.parts, result),
    ensures
        result is None,
{
    assert(is_dir_at(read, top, 0));
    assert(all_dirs(top)[0] == top.own);
    assert(is_dir_at(read, p, 0));
    assert(all_dirs(p)[0] == p.own);
    if !file {
        assert(probed_alike(is_file, all_dirs(top)[0].path, all_dirs(p)[0].path));
        assert(answered(is_file, p.own.path, false));
    } else if p.above.len() > 0 {
        assert(is_dir_at(read, p, 1));
        assert(all_dirs(p)[1] == p.above[0]);
        lemma_levels_alike(read, is_file, present, top, 0, p, 1, 0);
        assert(p.above.len() == 1);
        if let Some(root) = result {
            assert(is_first_marked(present, p.above, root));
            let k = choose|k: int| is_first_marked_at(present, p.above, root, k);
            assert(answered(present, p.above[0].marker, true));
        }
    } else if let Some(root) = result {
        assert(is_first_marked(present, p.above, root));
    }
}

proof fn lemma_search_from<R: Fn(&FilePath) -> WindowsLocation>(
    read: R,
    place: LocationView,
    file: bool,
) -> (i: int)
    requires
        is_told(read, place),
        !file || place.above.len() > 0,
    ensures
        is_dir_at(read, place, i),
        all_dirs(place)[i].parts == windows_lookup_key(place, file),
        search_dirs(place, file) == all_dirs(place).skip(i),
{
    if file {
        assert(place.above =~= all_dirs(place).skip(1));
        1
    } else {
        assert(all_dirs(place) =~= all_dirs(place).skip(0));
        0
    }
}

// Searches for two paths that are remembered under the same key give the same.
proof fn lemma_windows_same_key_same_root<
    R: Fn(&FilePath) -> WindowsLocation,
    F: Fn(&FilePath) -> bool,
    G: Fn(&FilePath) -> bool,
>(
    read: R,
    is_file: F,
    present: G,
    key: Seq<Seq<u8>>,
    p: LocationView,
    a: bool,
    first: Option<Seq<u8>>,
    q: LocationView,
    b: bool,
    second: Option<Seq<u8>>,
)
    requires
        windows_steady(read, is_file, present),
        windows_no_marked_file_on_top(read, is_file, present),
        windows_search_for_key(read, is_file, present, p, a, key, first),
        windows_search_for_key(read, is_file, present, q, b, key, second),
    ensures
        windows_same_root(read, first, second),
{
    if a && p.above.len() == 0 {
        lemma_windows_top_file(read, is_file, present, p, p, a, first);
        lemma_windows_top_file(read, is_file, present, p, q, b, second);
    } else if b && q.above.len() == 0 {
        lemma_windows_top_file(read, is_file, present, q, p, a, first);
        lemma_windows_top_file(read, is_file, present, q, q, b, second);
    } else {
        let i = lemma_search_from(read, p, a);
        let j = lemma_search_from(read, q, b);
        lemma_marks_alike(read, is_file, present, p, i, first, q, j, second);
    }
}

/// A cache that knows nothing knows nothing false.
pub proof fn windows_new_cache_is_true<
    R: Fn(&FilePath) -> WindowsLocation,
    F: Fn(&FilePath) -> bool,
    G: Fn(&FilePath) -> bool,
>(read: R, is_file: F, present: G, cache: WindowsGitRootCache)
    requires
        windows_knows_nothing(cache),
    ensures
        windows_cache_is_true(read, is_file, present, cache),
{
}

/// While the disk does not change, the cache is transparent: a lookup gives the path that the
/// search [`find_git_root_windows`] gives, and keeps all that the cache knows true.
#[verifier::spinoff_prover]
pub proof fn windows_cache_is_transparent<
    R: Fn(&FilePath) -> WindowsLocation,
    F: Fn(&FilePath) -> bool,
    G: Fn(&FilePath) -> bool,
>(
    read: R,
    is_file: F,
    present: G,
    before: WindowsGitRootCache,
    place: LocationView,
    result: Option<Seq<u8>>,
    after: WindowsGitRootCache,
    direct: Option<Seq<u8>>,
)
    requires
        windows_steady(read, is_file, present),
        windows_no_marked_file_on_top(read, is_file, present),
        windows_cache_is_true(read, is_file, present, before),
        is_told(read, place),
        windows_cached_lookup(is_file, present, before, place, result, after),
        windows_git_root(is_file, present, place, direct),
    ensures
        windows_same_root(read, result, direct),
        windows_cache_is_true(read, is_file, present, after),
{
    let file = choose|file: bool|
        windows_lookup_if(is_file, present, before, place, file, result, after);
    let again = choose|again: bool| windows_outcome_if(is_file, present, place, again, direct);
    let key = windows_lookup_key(place, file);
    assert(is_dir_at(read, place, 0));
    assert(probed_alike(is_file, all_dirs(place)[0].path, all_dirs(place)[0].path));
    assert(all_dirs(place)[0] == place.own);
    assert(answered(is_file, place.own.path, file));
    assert(answered(is_file, place.own.path, again));
    assert(file == again);
    assert(windows_search_for_key(read, is_file, present, place, file, key, direct));
    match before.known(key) {
        Some(known) => {
            assert(windows_is_true_of_key(read, is_file, present, key, known));
            let (x, f) = choose|x: LocationView, f: bool|
                windows_search_for_key(read, is_file, present, x, f, key, known);
            lemma_windows_same_key_same_root(
                read,
                is_file,
                present,
                key,
                x,
                f,
                known,
                place,
                file,
                direct,
            );
        },
        None => {
            let third = choose|third: bool|
                windows_outcome_if(is_file, present, place, third, result);
            assert(answered(is_file, place.own.path, third));
            assert(windows_search_for_key(read, is_file, present, place, file, key, result));
            lemma_windows_same_key_same_root(
                read,
                is_file,
                present,
                key,
                place,
                file,
                result,
                place,
                file,
                direct,
            );
            assert(windows_is_true_of_key(read, is_file, present, key, result));
        },
    }
    assert forall|q: Seq<Seq<u8>>| (#[trigger] after.known(q)) is Some implies windows_is_true_of_key(
        read,
        is_file,
        present,
        q,
        after.known(q).unwrap(),
    ) by {
        if before.known(key) is Some || q != key {
            assert(after.known(q) == before.known(q));
        }
    }
}

/// A course of lookups: `caches[i]` is the cache before the path at `places[i]` is looked up in it,
/// which gives `results[i]`; the first cache knows nothing.
pub open spec fn windows_is_course_of_lookups<
    F: Fn(&FilePath) -> bool,
    G: Fn(&FilePath) -> bool,
>(
    is_file: F,
    present: G,
    caches: Seq<WindowsGitRootCache>,
    places: Seq<LocationView>,
    results: Seq<Option<Seq<u8>>>,
) -> bool {
    &&& caches.len() == places.len() + 1
    &&& results.len() == places.len()
    &&& windows_knows_nothing(caches[0])
    &&& forall|i: int|
        0 <= i < places.len() ==> windows_cached_lookup(
            is_file,
            present,
            caches[i],
            #[trigger] places[i],
            results[i],
            caches[i + 1],
        )
}

/// Each of `direct` is what a search gives for the path at the same place among `places`, all of
/// which `read` told.
pub open spec fn windows_direct_results<
    R: Fn(&FilePath) -> WindowsLocation,
    F: Fn(&FilePath) -> bool,
    G: Fn(&FilePath) -> bool,
>(
    read: R,
    is_file: F,
    present: G,
    places: Seq<LocationView>,
    direct: Seq<Option<Seq<u8>>>,
) -> bool {
    &&& direct.len() == places.len()
    &&& forall|i: int|
        0 <= i < places.len() ==> is_told(read, places[i]) && windows_git_root(
            is_file,
            present,
            places[i],
            #[trigger] direct[i],
        )
}

/// While the disk does not change, every lookup in a cache that started out new gives the path that
/// the search [`find_git_root_windows`] gives: `direct[i]` for the path at `places[i]`.
pub proof fn windows_every_lookup_is_transparent<
    R: Fn(&FilePath) -> WindowsLocation,
    F: Fn(&FilePath) -> bool,
    G: Fn(&FilePath) -> bool,
>(
    read: R,
    is_file: F,
    present: G,
    caches: Seq<WindowsGitRootCache>,
    places: Seq<LocationView>,
    results: Seq<Option<Seq<u8>>>,
    direct: Seq<Option<Seq<u8>>>,
)
    requires
        windows_steady(read, is_file, present),
        windows_no_marked_file_on_top(read, is_file, present),
        windows_is_course_of_lookups(is_file, present, caches, places, results),
        windows_direct_results(read, is_file, present, places, direct),
    ensures
        forall|i: int|
            0 <= i < places.len() ==> windows_same_root(read, results[i], #[trigger] direct[i]),
{
    assert forall|i: int| 0 <= i < places.len() implies windows_same_root(
        read,
        results[i],
        #[trigger] direct[i],
    ) by {
        lemma_windows_caches_stay_true(
            read,
            is_file,
            present,
            caches,
            places,
            results,
            direct,
            i,
        );
        windows_cache_is_transparent(
            read,
            is_file,
            present,
            caches[i],
            places[i],
            results[i],
            caches[i + 1],
            direct[i],
        );
    }
}

proof fn lemma_windows_caches_stay_true<
    R: Fn(&FilePath) -> WindowsLocation,
    F: Fn(&FilePath) -> bool,
    G: Fn(&FilePath) -> bool,
>(
    read: R,
    is_file: F,
    present: G,
    caches: Seq<WindowsGitRootCache>,
    places: Seq<LocationView>,
    results: Seq<Option<Seq<u8>>>,
    direct: Seq<Option<Seq<u8>>>,
    n: int,
)
    requires
        windows_steady(read, is_file, present),
        windows_no_marked_file_on_top(read, is_file, present),
        windows_is_course_of_lookups(is_file, present, caches, places, results),
        windows_direct_results(read, is_file, present, places, direct),
        0 <= n <= places.len(),
    ensures
        windows_cache_is_true(read, is_file, present, caches[n]),
    decreases n,
{
    if n > 0 {
        lemma_windows_caches_stay_true(
            read,
            is_file,
            present,
            caches,
            places,
            results,
            direct,
            n - 1,
        );
        assert(windows_git_root(is_file, present, places[n - 1], direct[n - 1]));
        windows_cache_is_transparent(
            read,
            is_file,
            present,
            caches[n - 1],
            places[n - 1],
            results[n - 1],
            caches[n],
            direct[n - 1],
        );
    }
}

/// `keys[i]` are the components under which what is found for the path at `places[i]` is
/// remembered.
pub open spec fn windows_are_lookup_keys<F: Fn(&FilePath) -> bool>(
    is_file: F,
    places: Seq<LocationView>,
    keys: Seq<Seq<Seq<u8>>>,
) -> bool {
    &&& keys.len() == places.len()
    &&& forall|i: int, file: bool|
        0 <= i < places.len() && #[trigger] answered(is_file, places[i].own.path, file)
            ==> windows_lookup_key(places[i], file) == keys[i]
}

/// After any lookups a new cache knows exactly the directories that were looked up, for a file the
/// one it lies in, and holds one entry for each of them.
pub proof fn windows_one_entry_per_directory<F: Fn(&FilePath) -> bool, G: Fn(&FilePath) -> bool>(
    is_file: F,
    present: G,
    caches: Seq<WindowsGitRootCache>,
    places: Seq<LocationView>,
    results: Seq<Option<Seq<u8>>>,
    keys: Seq<Seq<Seq<u8>>>,
)
    requires
        windows_is_course_of_lookups(is_file, present, caches, places, results),
        windows_are_lookup_keys(is_file, places, keys),
    ensures
        forall|id: Seq<Seq<u8>>|
            (#[trigger] caches.last().known(id)) is Some <==> keys.to_set().contains(id),
        caches.last().size() == keys.to_set().len(),
{
    lemma_windows_entries(is_file, present, caches, places, results, keys, places.len() as int);
    assert(keys.take(places.len() as int) =~= keys);
}

proof fn lemma_windows_entries<F: Fn(&FilePath) -> bool, G: Fn(&FilePath) -> bool>(
    is_file: F,
    present: G,
    caches: Seq<WindowsGitRootCache>,
    places: Seq<LocationView>,
    results: Seq<Option<Seq<u8>>>,
    keys: Seq<Seq<Seq<u8>>>,
    n: int,
)
    requires
        windows_is_course_of_lookups(is_file, present, caches, places, results),
        windows_are_lookup_keys(is_file, places, keys),
        0 <= n <= places.len(),
    ensures
        keys.take(n).to_set().finite(),
        forall|id: Seq<Seq<u8>>|
            (#[trigger] caches[n].known(id)) is Some <==> keys.take(n).to_set().contains(id),
        caches[n].size() == keys.take(n).to_set().len(),
    decreases n,
{
    let seen = keys.take(n).to_set();
    if n == 0 {
        assert(seen =~= Set::empty());
    } else {
        lemma_windows_entries(is_file, present, caches, places, results, keys, n - 1);
        let earlier = keys.take(n - 1).to_set();
        lemma_one_more_key(keys, n);
        let last = caches[n - 1];
        let place = places[n - 1];
        let result = results[n - 1];
        let now = caches[n];
        assert(windows_cached_lookup(is_file, present, last, place, result, now));
        let file = choose|file: bool|
            windows_lookup_if(is_file, present, last, place, file, result, now);
        assert(answered(is_file, places[n - 1].own.path, file));
        let key = windows_lookup_key(place, file);
        assert(key == keys[n - 1]);
        assert(last.known(key) is Some <==> earlier.contains(key));
        if last.known(key) is Some {
            assert(seen =~= earlier);
        }
        assert forall|id: Seq<Seq<u8>>| (#[trigger] caches[n].known(id)) is Some
            <==> seen.contains(id) by {
            assert(last.known(id) is Some <==> earlier.contains(id));
        }
    }
}

proof fn lemma_one_more_key(keys: Seq<Seq<Seq<u8>>>, n: int)
    requires
        0 < n <= keys.len(),
    ensures
        keys.take(n).to_set() == keys.take(n - 1).to_set().insert(keys[n - 1]),
{
    let now = keys.take(n);
    let before = keys.take(n - 1);
    assert forall|c: Seq<Seq<u8>>| now.to_set().contains(c) <==> before.to_set().insert(
        keys[n - 1],
    ).contains(c) by {
        if before.contains(c) {
            let i = choose|i: int| 0 <= i < before.len() && before[i] == c;
            assert(now[i] == c);
        }
        assert(now[n - 1] == keys[n - 1]);
        if now.contains(c) {
            let i = choose|i: int| 0 <= i < now.len() && now[i] == c;
            if i < n - 1 {
                assert(before[i] == c);
            }
        }
    }
    assert(now.to_set() =~= before.to_set().insert(keys[n - 1]));
}

proof fn lemma_windows_stays_known<F: Fn(&FilePath) -> bool, G: Fn(&FilePath) -> bool>(
    is_file: F,
    present: G,
    caches: Seq<WindowsGitRootCache>,
    places: Seq<LocationView>,
    results: Seq<Option<Seq<u8>>>,
    keys: Seq<Seq<Seq<u8>>>,
    i: int,
    n: int,
)
    requires
        windows_is_course_of_lookups(is_file, present, caches, places, results),
        windows_are_lookup_keys(is_file, places, keys),
        0 <= i < n <= places.len(),
    ensures
        caches[n].known(keys[i]) == Some(results[i]),
    decreases n,
{
    let last = caches[n - 1];
    let place = places[n - 1];
    let result = results[n - 1];
    let now = caches[n];
    assert(windows_cached_lookup(is_file, present, last, place, result, now));
    if i < n - 1 {
        lemma_windows_stays_known(is_file, present, caches, places, results, keys, i, n - 1);
        windows_cache_never_forgets(is_file, present, last, place, result, now, keys[i]);
    } else {
        let file = choose|file: bool|
            windows_lookup_if(is_file, present, last, place, file, result, now);
        assert(answered(is_file, places[i].own.path, file));
    }
}

/// In any course of lookups in a cache that started out new, two paths with one key get the same
/// answer, and the later one adds no entry: so do two files of one directory.
pub proof fn windows_files_of_a_directory_share_an_entry<
    F: Fn(&FilePath) -> bool,
    G: Fn(&FilePath) -> bool,
>(
    is_file: F,
    present: G,
    caches: Seq<WindowsGitRootCache>,
    places: Seq<LocationView>,
    results: Seq<Option<Seq<u8>>>,
    keys: Seq<Seq<Seq<u8>>>,
    i: int,
    j: int,
)
    requires
        windows_is_course_of_lookups(is_file, present, caches, places, results),
        windows_are_lookup_keys(is_file, places, keys),
        0 <= i < j < places.len(),
        keys[i] == keys[j],
    ensures
        results[j] == results[i],
        windows_knows_the_same(caches[j + 1], caches[j]),
{
    let before = caches[j];
    let place = places[j];
    let result = results[j];
    let after = caches[j + 1];
    lemma_windows_stays_known(is_file, present, caches, places, results, keys, i, j);
    assert(windows_cached_lookup(is_file, present, before, place, result, after));
    let file = choose|file: bool|
        windows_lookup_if(is_file, present, before, place, file, result, after);
    assert(answered(is_file, places[j].own.path, file));
}

/// The directories that are searched from `place` on: from the path itself upwards, or from the one
/// above it where the path is a file.
pub open spec fn dirs_from(place: LocationView, file: bool) -> Seq<DirView> {
    if file {
        place.above
    } else {
        seq![place.own] + place.above
    }
}

pub(crate) proof fn lemma_windows_sure_to_be_found<F: Fn(&FilePath) -> bool, G: Fn(&FilePath) -> bool>(
    is_file: F,
    present: G,
    place: LocationView,
    file: bool,
    k: int,
    result: Option<Seq<u8>>,
)
    requires
        windows_git_root(is_file, present, place, result),
        !answered(is_file, place.own.path, !file),
        0 <= k < dirs_from(place, file).len(),
        !answered(present, dirs_from(place, file)[k].marker, false),
        forall|j: int|
            0 <= j < k ==> !answered(present, (#[trigger] dirs_from(place, file)[j]).marker, true),
    ensures
        result == Some(dirs_from(place, file)[k].path),
{
    let dirs = dirs_from(place, file);
    let f = choose|f: bool| windows_outcome_if(is_file, present, place, f, result);
    assert(f == file);
    assert(search_dirs(place, file) =~= dirs);
    match result {
        Some(root) => {
            let m = choose|m: int| is_first_marked_at(present, dirs, root, m);
            if m < k {
                assert(answered(present, dirs[m].marker, true));
            } else if k < m {
                assert(answered(present, dirs[k].marker, false));
            }
        },
        None => {
            assert(answered(present, dirs[k].marker, false));
        },
    }
}

/// The git root of a path on Windows is the first directory, from the path upwards or from the one
/// above it where it is a file, whose git metadata exists.
pub proof fn nearest_marked_directory_is_found_on_windows<
    F: Fn(&FilePath) -> bool,
    G: Fn(&FilePath) -> bool,
>(
    place: &WindowsLocation,
    is_file: &F,
    present: &G,
    res: Option<FilePath>,
    file: bool,
    k: int,
)
    requires
        call_ensures(find_git_root_windows::<F, G>, (place, is_file, present), res),
        !answered(*is_file, place@.own.path, !file),
        0 <= k < dirs_from(place@, file).len(),
        !answered(*present, dirs_from(place@, file)[k].marker, false),
        forall|j: int|
            0 <= j < k ==> !answered(
                *present,
                (#[trigger] dirs_from(place@, file)[j]).marker,
                true,
            ),
    ensures
        opt_path_view(res) == Some(dirs_from(place@, file)[k].path),
{
    lemma_windows_sure_to_be_found(*is_file, *present, place@, file, k, opt_path_view(res));
}

/// A path on Windows has no git root where no directory from it upwards holds git metadata.
pub proof fn unmarked_path_has_no_git_root_on_windows<
    F: Fn(&FilePath) -> bool,
    G: Fn(&FilePath) -> bool,
>(place: &WindowsLocation, is_file: &F, present: &G, res: Option<FilePath>)
    requires
        call_ensures(find_git_root_windows::<F, G>, (place, is_file, present), res),
        !answered(*present, place@.own.marker, true),
        forall|j: int|
            0 <= j < place@.above.len() ==> !answered(
                *present,
                (#[trigger] place@.above[j]).marker,
                true,
            ),
    ensures
        res is None,
{
    if let Some(root) = res {
        let file = choose|file: bool|
            windows_outcome_if(*is_file, *present, place@, file, Some(root@));
        let dirs = search_dirs(place@, file);
        let k = choose|k: int| is_first_marked_at(*present, dirs, root@, k);
        if file {
            assert(dirs[k] == place@.above[k]);
        } else if k == 0 {
            assert(dirs[k] == place@.own);
        } else {
            assert(dirs[k] == place@.above[k - 1]);
        }
    }
}

/// A lookup on Windows finds what a search finds where nothing is known of the directory, and keeps
/// it; where the directory is known it gives what is known. The directory is the one above the
/// path where that is a file.
pub proof fn lookup_finds_what_a_search_finds_on_windows<
    F: Fn(&FilePath) -> bool,
    G: Fn(&FilePath) -> bool,
>(
    cache: &mut WindowsGitRootCache,
    place: &WindowsLocation,
    is_file: &F,
    present: &G,
    res: Option<FilePath>,
    file: bool,
    key: Seq<Seq<u8>>,
)
    requires
        call_ensures(
            WindowsGitRootCache::find_git_root_cached::<F, G>,
            (cache, place, is_file, present),
            res,
        ),
        !answered(*is_file, place@.own.path, !file),
        key == (if file && place@.above.len() > 0 {
            place@.above[0].parts
        } else {
            place@.own.parts
        }),
    ensures
        final(cache).known(key) == Some(opt_path_view(res)),
        old(cache).known(key) is None ==> windows_git_root(
            *is_file,
            *present,
            place@,
            opt_path_view(res),
        ) && final(cache).size() == old(cache).size() + 1,
        old(cache).known(key) is Some ==> old(cache).known(key) == Some(opt_path_view(res))
            && final(cache).size() == old(cache).size(),
        forall|q: Seq<Seq<u8>>|
            q != key ==> #[trigger] final(cache).known(q) == old(cache).known(q),
{
    let f = choose|f: bool|
        windows_lookup_if(
            *is_file,
            *present,
            *old(cache),
            place@,
            f,
            opt_path_view(res),
            *final(cache),
        );
    assert(f == file);
}

/// A new cache knows of no directory.
pub proof fn windows_new_cache_is_empty(cache: WindowsGitRootCache, len: usize, q: Seq<Seq<u8>>)
    requires
        call_ensures(WindowsGitRootCache::new, (), cache),
        call_ensures(WindowsGitRootCache::len, (&cache,), len),
    ensures
        len == 0,
        cache.known(q) is None,
{
}

/// On Windows too a file without a directory above it has no git root.
pub proof fn file_on_top_has_no_git_root_on_windows<
    F: Fn(&FilePath) -> bool,
    G: Fn(&FilePath) -> bool,
>(place: &WindowsLocation, is_file: &F, present: &G, res: Option<FilePath>)
    requires
        call_ensures(find_git_root_windows::<F, G>, (place, is_file, present), res),
        !answered(*is_file, place@.own.path, false),
        place@.above.len() == 0,
    ensures
        res is None,
{
    if let Some(root) = res {
        let file = choose|file: bool|
            windows_outcome_if(*is_file, *present, place@, file, Some(root@));
        assert(file);
        assert(is_first_marked(*present, search_dirs(place@, true), root@));
    }
}

} // verus!
