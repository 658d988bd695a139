//! The git work tree that a path lies in, and a memory of those found.

use crate::path::{
    byte_chars, clone_opt_path, components, is_file_name, is_under, join_adds_component, joined,
    opt_path_view, parent,
    parent_drops_last_component, same_path, same_path_is_same_spelling, spelled,
    under_is_reflexive_and_transitive, FilePath, DOT, SLASH,
};
use crate::probe::{answered, asks_anything};
use vstd::hash_map::StringHashMap;
use vstd::prelude::*;
use vstd::utf8::*;

verus! {

/// The path `k` levels above `p`.
pub open spec fn ancestor(p: Seq<u8>, k: nat) -> Option<Seq<u8>>
    decreases k,
{
    if k == 0 {
        Some(p)
    } else {
        match ancestor(p, (k - 1) as nat) {
            Some(below) => parent(below),
            None => None,
        }
    }
}

/// Where a git work tree with its root at `dir` keeps its metadata.
pub open spec fn git_marker(dir: Seq<u8>) -> Seq<u8> {
    joined(dir, encode_utf8(".git"@))
}

/// `root` is `k` levels above `start`, `present` saw its git metadata, and saw none further below.
pub open spec fn is_nearest_at<G: Fn(&FilePath) -> bool>(
    present: G,
    start: Seq<u8>,
    root: Seq<u8>,
    k: nat,
) -> bool {
    &&& ancestor(start, k) == Some(root)
    &&& answered(present, git_marker(root), true)
    &&& forall|j: nat|
        j < k ==> answered(present, git_marker((#[trigger] ancestor(start, j)).unwrap()), false)
}

/// `root` is the nearest path from `start` upwards whose git metadata `present` saw.
pub open spec fn is_nearest<G: Fn(&FilePath) -> bool>(
    present: G,
    start: Seq<u8>,
    root: Seq<u8>,
) -> bool {
    exists|k: nat| is_nearest_at(present, start, root, k)
}

/// `result` is the nearest path from `start` upwards whose git metadata `present` saw; `None` if
/// it saw none.
pub open spec fn nearest_git_root<G: Fn(&FilePath) -> bool>(
    present: G,
    start: Seq<u8>,
    result: Option<Seq<u8>>,
) -> bool {
    match result {
        Some(root) => is_nearest(present, start, root),
        None => forall|k: nat| (#[trigger] ancestor(start, k)) is Some ==> answered(
            present,
            git_marker(ancestor(start, k).unwrap()),
            false,
        ),
    }
}

/// Where the search for the git root of `p` starts: at `p`, or above it where `p` is a file.
pub open spec fn search_start(p: Seq<u8>, file: bool) -> Option<Seq<u8>> {
    if file {
        parent(p)
    } else {
        Some(p)
    }
}

/// `result` is what looking for the git root of `p` gives once it is known whether `p` is a file.
pub open spec fn outcome_if<F: Fn(&FilePath) -> bool, G: Fn(&FilePath) -> bool>(
    is_file: F,
    present: G,
    p: Seq<u8>,
    file: bool,
    result: Option<Seq<u8>>,
) -> bool {
    &&& answered(is_file, p, file)
    &&& match search_start(p, file) {
        Some(start) => nearest_git_root(present, start, result),
        None => result is None,
    }
}

/// `result` is what looking for the git root of `p` gives.
pub open spec fn git_root_outcome<F: Fn(&FilePath) -> bool, G: Fn(&FilePath) -> bool>(
    is_file: F,
    present: G,
    p: Seq<u8>,
    result: Option<Seq<u8>>,
) -> bool {
    exists|file: bool| outcome_if(is_file, present, p, file, result)
}

/// Finds the git root of `path`: the nearest directory from it upwards that holds `.git`.
///
/// `is_file` tells whether a path is a file, `present` whether something exists at a path.
#[verifier::spinoff_prover]
pub fn find_git_root<F: Fn(&FilePath) -> bool, G: Fn(&FilePath) -> bool>(
    path: &FilePath,
    is_file: &F,
    present: &G,
) -> (res: Option<FilePath>)
    requires
        asks_anything(*is_file),
        asks_anything(*present),
    ensures
        git_root_outcome(*is_file, *present, path@, opt_path_view(res)),
{
    let file = is_file(path);
    assert(answered(*is_file, path@, file));
    let mut current = if file {
        match path.parent() {
            Some(dir) => dir,
            None => {
                assert(outcome_if(*is_file, *present, path@, file, None));
                return None;
            },
        }
    } else {
        path.clone()
    };
    let ghost start = current@;
    assert(search_start(path@, file) == Some(start));
    let ghost mut k: nat = 0;
    loop
        invariant
            asks_anything(*present),
            answered(*is_file, path@, file),
            search_start(path@, file) == Some(start),
            ancestor(start, k) == Some(current@),
            forall|j: nat|
                j < k ==> answered(
                    *present,
                    git_marker((#[trigger] ancestor(start, j)).unwrap()),
                    false,
                ),
        decreases components(current@).len(),
    {
        let marker = current.join(".git");
        let there = present(&marker);
        assert(answered(*present, git_marker(current@), there));
        if there {
            proof {
                lemma_nearest_root(*present, start, current@, k);
                assert(outcome_if(*is_file, *present, path@, file, Some(current@)));
            }
            return Some(current);
        }
        let ghost below = current@;
        if !current.pop() {
            proof {
                assert forall|i: nat| (#[trigger] ancestor(start, i)) is Some implies answered(
                    *present,
                    git_marker(ancestor(start, i).unwrap()),
                    false,
                ) by {
                    if i > k {
                        lemma_no_ancestor_above(start, k, i);
                    }
                }
                assert(outcome_if(*is_file, *present, path@, file, None));
            }
            return None;
        }
        proof {
            parent_drops_last_component(below);
            k = k + 1;
        }
    }
}

proof fn lemma_no_ancestor_above(start: Seq<u8>, k: nat, i: nat)
    requires
        k < i,
        ancestor(start, k) is Some,
        parent(ancestor(start, k).unwrap()) is None,
    ensures
        ancestor(start, i) is None,
    decreases i,
{
    if i > k + 1 {
        lemma_no_ancestor_above(start, k, (i - 1) as nat);
    }
}

/// The text under which the cache keeps what it knows of `p`: alike for the same path, and for no
/// other.
spec fn cache_key(p: Seq<u8>) -> Seq<char> {
    byte_chars(spelled(components(p)))
}

proof fn lemma_cache_key(p: Seq<u8>, q: Seq<u8>)
    ensures
        cache_key(p) == cache_key(q) <==> same_path(p, q),
{
    same_path_is_same_spelling(p, q);
    let s = spelled(components(p));
    let t = spelled(components(q));
    if cache_key(p) == cache_key(q) {
        assert(s.len() == cache_key(p).len());
        assert(t.len() == cache_key(q).len());
        assert forall|i: int| 0 <= i < s.len() implies s[i] == t[i] by {
            assert(cache_key(p)[i] == s[i] as char);
            assert(cache_key(q)[i] == t[i] as char);
        }
        assert(s =~= t);
    }
}

/// Remembers the git root of each directory that was looked up, so that the disk is asked once.
pub struct GitRootCache {
    cache: StringHashMap<Option<FilePath>>,
}

/// The path under which what is found for `p` is remembered: files of one directory share it.
pub open spec fn lookup_key(p: Seq<u8>, file: bool) -> Seq<u8> {
    if file && parent(p) is Some {
        parent(p).unwrap()
    } else {
        p
    }
}

/// What the cache knows after `result` was remembered for `key`, of which it knew nothing.
pub open spec fn remembered(
    before: GitRootCache,
    after: GitRootCache,
    key: Seq<u8>,
    result: Option<Seq<u8>>,
) -> bool {
    &&& after.size() == before.size() + 1
    &&& forall|q: Seq<u8>| #[trigger]
        after.known(q) == (if same_path(q, key) {
            Some(result)
        } else {
            before.known(q)
        })
}

/// The two caches know the same.
pub open spec fn knows_the_same(a: GitRootCache, b: GitRootCache) -> bool {
    &&& a.size() == b.size()
    &&& forall|q: Seq<u8>| #[trigger] a.known(q) == b.known(q)
}

/// `result` and `after` are what looking up the git root of `p` in the cache `before` gives once
/// it is known whether `p` is a file: what is known is returned, and what is not is found and
/// remembered.
pub open spec fn lookup_if<F: Fn(&FilePath) -> bool, G: Fn(&FilePath) -> bool>(
    is_file: F,
    present: G,
    before: GitRootCache,
    p: Seq<u8>,
    file: bool,
    result: Option<Seq<u8>>,
    after: GitRootCache,
) -> bool {
    &&& answered(is_file, p, file)
    &&& match before.known(lookup_key(p, file)) {
        Some(known) => result == known && knows_the_same(after, before),
        None => git_root_outcome(is_file, present, p, result) && remembered(
            before,
            after,
            lookup_key(p, file),
            result,
        ),
    }
}

/// `result` and `after` are what looking up the git root of `p` in the cache `before` gives.
pub open spec fn cached_lookup<F: Fn(&FilePath) -> bool, G: Fn(&FilePath) -> bool>(
    is_file: F,
    present: G,
    before: GitRootCache,
    p: Seq<u8>,
    result: Option<Seq<u8>>,
    after: GitRootCache,
) -> bool {
    exists|file: bool| lookup_if(is_file, present, before, p, file, result, after)
}

/// The cache knows nothing.
pub open spec fn knows_nothing(cache: GitRootCache) -> bool {
    &&& cache.size() == 0
    &&& forall|q: Seq<u8>| #[trigger] cache.known(q) is None
}

impl GitRootCache {
    /// What is remembered for the path `p`: `Some(None)` is the knowledge that it has no git root.
    pub closed spec fn known(&self, p: Seq<u8>) -> Option<Option<Seq<u8>>> {
        if self.cache@.contains_key(cache_key(p)) {
            Some(opt_path_view(self.cache@[cache_key(p)]))
        } else {
            None
        }
    }

    /// How many directories the cache knows of.
    pub closed spec fn size(&self) -> nat {
        self.cache@.dom().len()
    }

    #[verifier::type_invariant]
    spec fn well_formed(self) -> bool {
        self.cache@.dom().finite()
    }

    /// A cache that knows nothing.
    pub fn new() -> (res: GitRootCache)
        ensures
            knows_nothing(res),
    {
        GitRootCache { cache: StringHashMap::new() }
    }

    /// How many directories the cache knows of.
    pub fn len(&self) -> (res: usize)
        ensures
            res == self.size(),
    {
        self.cache.len()
    }

    /// Finds the git root of `path` as [`find_git_root`] does, asking the disk only where the
    /// directory was not looked up before.
    #[verifier::spinoff_prover]
    pub fn find_git_root_cached<F: Fn(&FilePath) -> bool, G: Fn(&FilePath) -> bool>(
        &mut self,
        path: &FilePath,
        is_file: &F,
        present: &G,
    ) -> (res: Option<FilePath>)
        requires
            asks_anything(*is_file),
            asks_anything(*present),
        ensures
            cached_lookup(
                *is_file,
                *present,
                *old(self),
                path@,
                opt_path_view(res),
                *final(self),
            ),
    {
        let file = is_file(path);
        assert(answered(*is_file, path@, file));
        let ghost key_path = lookup_key(path@, file);
        let key = if file {
            match path.parent() {
                Some(dir) => dir.spelling(),
                None => path.spelling(),
            }
        } else {
            path.spelling()
        };
        match self.cache.get(key.as_str()) {
            Some(cached) => {
                let res = clone_opt_path(cached);
                proof {
                    assert(lookup_if(
                        *is_file,
                        *present,
                        *old(self),
                        path@,
                        file,
                        opt_path_view(res),
                        *self,
                    ));
                }
                return res;
            },
            None => {},
        }
        let result = find_git_root(path, is_file, present);
        let kept = clone_opt_path(&result);
        proof {
            use_type_invariant(&*self);
        }
        let mut cache: StringHashMap<Option<FilePath>> = StringHashMap::new();
        std::mem::swap(&mut cache, &mut self.cache);
        cache.insert(key, kept);
        self.cache = cache;
        proof {
            assert forall|q: Seq<u8>| #[trigger]
                self.known(q) == (if same_path(q, key_path) {
                    Some(opt_path_view(result))
                } else {
                    old(self).known(q)
                }) by {
                lemma_cache_key(q, key_path);
            }
            assert(self.cache@.dom() =~= old(self).cache@.dom().insert(key@));
            assert(lookup_if(
                *is_file,
                *present,
                *old(self),
                path@,
                file,
                opt_path_view(result),
                *self,
            ));
        }
        result
    }
}

/// Looking up a second path that shares its key with one that was just looked up returns what the
/// first lookup returned and leaves the cache alone; so does looking up the same path again, and
/// looking up another file of the same directory.
pub proof fn lookup_is_remembered<F: Fn(&FilePath) -> bool, G: Fn(&FilePath) -> bool>(
    is_file: F,
    present: G,
    before: GitRootCache,
    p: Seq<u8>,
    first: Option<Seq<u8>>,
    middle: GitRootCache,
    q: Seq<u8>,
    second: Option<Seq<u8>>,
    after: GitRootCache,
)
    requires
        cached_lookup(is_file, present, before, p, first, middle),
        cached_lookup(is_file, present, middle, q, second, after),
        forall|a: bool, b: bool| #[trigger]
            answered(is_file, p, a) && #[trigger] answered(is_file, q, b) ==> same_path(
                lookup_key(p, a),
                lookup_key(q, b),
            ),
    ensures
        second == first,
        knows_the_same(after, middle),
{
    let a = choose|file: bool| lookup_if(is_file, present, before, p, file, first, middle);
    let b = choose|file: bool| lookup_if(is_file, present, middle, q, file, second, after);
    assert(answered(is_file, p, a) && answered(is_file, q, b));
    assert(middle.known(lookup_key(p, a)) == Some(first));
    lemma_cache_key(lookup_key(p, a), lookup_key(q, b));
}

/// What the cache once knows it never forgets, whatever is looked up later.
pub proof fn cache_never_forgets<F: Fn(&FilePath) -> bool, G: Fn(&FilePath) -> bool>(
    is_file: F,
    present: G,
    before: GitRootCache,
    p: Seq<u8>,
    result: Option<Seq<u8>>,
    after: GitRootCache,
    q: Seq<u8>,
)
    requires
        cached_lookup(is_file, present, before, p, result, after),
        before.known(q) is Some,
    ensures
        after.known(q) == before.known(q),
{
    let file = choose|file: bool| lookup_if(is_file, present, before, p, file, result, after);
    if same_path(q, lookup_key(p, file)) {
        known_by_path(before, q, lookup_key(p, file));
    }
}

proof fn lemma_under_ancestor(p: Seq<u8>, k: nat)
    requires
        ancestor(p, k) is Some,
    ensures
        is_under(p, ancestor(p, k).unwrap()),
    decreases k,
{
    under_is_reflexive_and_transitive(p, p, p);
    if k > 0 {
        let below = ancestor(p, (k - 1) as nat).unwrap();
        lemma_under_ancestor(p, (k - 1) as nat);
        parent_drops_last_component(below);
        under_is_reflexive_and_transitive(p, below, ancestor(p, k).unwrap());
    }
}

/// The git root that is found for a path contains the path, and holds git metadata.
pub proof fn git_root_contains_path<F: Fn(&FilePath) -> bool, G: Fn(&FilePath) -> bool>(
    is_file: F,
    present: G,
    p: Seq<u8>,
    root: Seq<u8>,
)
    requires
        git_root_outcome(is_file, present, p, Some(root)),
    ensures
        is_under(p, root),
        answered(present, git_marker(root), true),
{
    let file = choose|file: bool| outcome_if(is_file, present, p, file, Some(root));
    let start = search_start(p, file).unwrap();
    let k = choose|k: nat| is_nearest_at(present, start, root, k);
    lemma_under_ancestor(start, k);
    if file {
        parent_drops_last_component(p);
    }
    under_is_reflexive_and_transitive(p, start, root);
}

/// What the cache knows of a path it knows of every spelling of that path.
pub proof fn known_by_path(cache: GitRootCache, p: Seq<u8>, q: Seq<u8>)
    requires
        same_path(p, q),
    ensures
        cache.known(p) == cache.known(q),
{
    lemma_cache_key(p, q);
}

proof fn lemma_ancestor_of_ancestor(start: Seq<u8>, j: nat, i: nat)
    requires
        ancestor(start, j) is Some,
    ensures
        ancestor(ancestor(start, j).unwrap(), i) == ancestor(start, j + i),
    decreases i,
{
    if i > 0 {
        lemma_ancestor_of_ancestor(start, j, (i - 1) as nat);
        assert((j + i - 1) as nat == j + (i - 1) as nat);
    }
}

/// Every directory on the way from where a search starts up to the git root it finds has that git
/// root too.
#[verifier::spinoff_prover]
pub proof fn git_root_is_shared_on_the_way<G: Fn(&FilePath) -> bool>(
    present: G,
    start: Seq<u8>,
    root: Seq<u8>,
    k: nat,
    j: nat,
    dir: Seq<u8>,
)
    requires
        is_nearest_at(present, start, root, k),
        j <= k,
        ancestor(start, j) == Some(dir),
    ensures
        nearest_git_root(present, dir, Some(root)),
{
    let rest = (k - j) as nat;
    assert(is_nearest_at(present, dir, root, rest)) by {
        lemma_ancestor_of_ancestor(start, j, rest);
        assert forall|i: nat| i < rest implies answered(
            present,
            git_marker((#[trigger] ancestor(dir, i)).unwrap()),
            false,
        ) by {
            lemma_ancestor_of_ancestor(start, j, i);
            assert(j + i < k);
            assert(answered(present, git_marker(ancestor(start, j + i).unwrap()), false));
        }
    }
    lemma_nearest_root(present, dir, root, rest);
}

#[verifier::spinoff_prover]
proof fn lemma_nearest_root<G: Fn(&FilePath) -> bool>(
    present: G,
    start: Seq<u8>,
    root: Seq<u8>,
    k: nat,
)
    requires
        is_nearest_at(present, start, root, k),
    ensures
        nearest_git_root(present, start, Some(root)),
{
    assert(is_nearest(present, start, root));
}

/// The disk does not change: asked about one path, however it is spelled, `probe` always gives the
/// same answer.
pub open spec fn steady<F: Fn(&FilePath) -> bool>(probe: F) -> bool {
    forall|p: Seq<u8>, q: Seq<u8>, a: bool, b: bool|
        same_path(p, q) && #[trigger] answered(probe, p, a) && #[trigger] answered(probe, q, b)
            ==> a == b
}

/// No path without a directory above it (the root directory, or the empty path) is a file, has a
/// file in it and holds git metadata, all at once. On such a disk that path shares its entry in
/// the cache with the file, and yet a search gives only the file a git root.
pub open spec fn no_marked_file_on_top<F: Fn(&FilePath) -> bool, G: Fn(&FilePath) -> bool>(
    is_file: F,
    present: G,
) -> bool {
    forall|top: Seq<u8>, p: Seq<u8>|
        parent(top) is None && parent(p) is Some && same_path(parent(p).unwrap(), top)
            && #[trigger] answered(is_file, top, true) && #[trigger] answered(is_file, p, true)
            ==> !answered(present, git_marker(parent(p).unwrap()), true)
}

/// The two results are the same path, or both none.
pub open spec fn same_root(a: Option<Seq<u8>>, b: Option<Seq<u8>>) -> bool {
    match (a, b) {
        (Some(a), Some(b)) => same_path(a, b),
        (None, None) => true,
        _ => false,
    }
}

/// `result` is what a search gives for the path `p`, which is remembered under `key`.
pub open spec fn search_for_key<F: Fn(&FilePath) -> bool, G: Fn(&FilePath) -> bool>(
    is_file: F,
    present: G,
    p: Seq<u8>,
    file: bool,
    key: Seq<u8>,
    result: Option<Seq<u8>>,
) -> bool {
    same_path(lookup_key(p, file), key) && outcome_if(is_file, present, p, file, result)
}

/// `result` is what a search gives for some path that is remembered under `key`.
pub open spec fn is_true_of_key<F: Fn(&FilePath) -> bool, G: Fn(&FilePath) -> bool>(
    is_file: F,
    present: G,
    key: Seq<u8>,
    result: Option<Seq<u8>>,
) -> bool {
    exists|p: Seq<u8>, file: bool| search_for_key(is_file, present, p, file, key, result)
}

/// All that the cache knows is what a search gives.
pub open spec fn cache_is_true<F: Fn(&FilePath) -> bool, G: Fn(&FilePath) -> bool>(
    is_file: F,
    present: G,
    cache: GitRootCache,
) -> bool {
    forall|q: Seq<u8>|
        (#[trigger] cache.known(q)) is Some ==> is_true_of_key(
            is_file,
            present,
            q,
            cache.known(q).unwrap(),
        )
}

proof fn lemma_ancestors_alike(s: Seq<u8>, t: Seq<u8>, k: nat)
    requires
        same_path(s, t),
    ensures
        ancestor(s, k) is Some <==> ancestor(t, k) is Some,
        ancestor(s, k) is Some ==> same_path(ancestor(s, k).unwrap(), ancestor(t, k).unwrap()),
    decreases k,
{
    if k > 0 {
        lemma_ancestors_alike(s, t, (k - 1) as nat);
        if ancestor(s, k) is Some {
            parent_drops_last_component(ancestor(s, (k - 1) as nat).unwrap());
            parent_drops_last_component(ancestor(t, (k - 1) as nat).unwrap());
        }
    }
}

proof fn lemma_markers_alike(d: Seq<u8>, e: Seq<u8>)
    requires
        same_path(d, e),
    ensures
        same_path(git_marker(d), git_marker(e)),
{
    let name = encode_utf8(".git"@);
    lemma_git_is_a_file_name();
    join_adds_component(d, name);
    join_adds_component(e, name);
}

proof fn lemma_git_is_a_file_name()
    ensures
        is_file_name(encode_utf8(".git"@)),
{
    reveal_strlit(".git");
    let t = ".git"@;
    let b = encode_utf8(t);
    assert(is_ascii_chars(t));
    is_ascii_chars_encode_utf8(t);
    assert(b.len() == 4);
    assert(b[1] == 'g' as u8);
    assert(seq![DOT].len() == 1);
    assert forall|i: int| 0 <= i < b.len() implies b[i] != SLASH by {
        assert(b[i] == t[i] as u8);
    }
}

// Searches from two spellings of one directory find the same.
#[verifier::spinoff_prover]
proof fn lemma_nearest_alike<G: Fn(&FilePath) -> bool>(
    present: G,
    s: Seq<u8>,
    t: Seq<u8>,
    a: Option<Seq<u8>>,
    b: Option<Seq<u8>>,
)
    requires
        steady(present),
        same_path(s, t),
        nearest_git_root(present, s, a),
        nearest_git_root(present, t, b),
    ensures
        same_root(a, b),
{
    if let Some(root) = a {
        let k = choose|k: nat| is_nearest_at(present, s, root, k);
        lemma_ancestors_alike(s, t, k);
        lemma_markers_alike(root, ancestor(t, k).unwrap());
        if let Some(other) = b {
            let m = choose|m: nat| is_nearest_at(present, t, other, m);
            lemma_ancestors_alike(s, t, m);
            lemma_markers_alike(ancestor(s, m).unwrap(), other);
            if k < m {
                assert(answered(present, git_marker(ancestor(t, k).unwrap()), false));
            } else if m < k {
                assert(answered(present, git_marker(ancestor(s, m).unwrap()), false));
            }
        } else {
            assert(answered(present, git_marker(ancestor(t, k).unwrap()), false));
        }
    } else if let Some(other) = b {
        let m = choose|m: nat| is_nearest_at(present, t, other, m);
        lemma_ancestors_alike(s, t, m);
        lemma_markers_alike(ancestor(s, m).unwrap(), other);
        assert(answered(present, git_marker(ancestor(s, m).unwrap()), false));
    }
}

// A path that is a file without a directory above it and a path that shares its key: neither has
// a git root.
proof fn lemma_top_file<F: Fn(&FilePath) -> bool, G: Fn(&FilePath) -> bool>(
    is_file: F,
    present: G,
    top: Seq<u8>,
    p: Seq<u8>,
    file: bool,
    result: Option<Seq<u8>>,
)
    requires
        steady(is_file),
        steady(present),
        no_marked_file_on_top(is_file, present),
        parent(top) is None,
        answered(is_file, top, true),
        search_for_key(is_file, present, p, file, top, result),
    ensures
        result is None,
{
    if !file {
        assert(answered(is_file, p, false));
    } else if parent(p) is Some {
        let above = parent(p).unwrap();
        assert(parent(above) is None);
        if let Some(root) = result {
            assert(is_nearest(present, above, root));
            let k = choose|k: nat| is_nearest_at(present, above, root, k);
            if k > 0 {
                assert(ancestor(above, 0) == Some(above));
                lemma_no_ancestor_above(above, 0, k);
            }
            assert(root == above);
        }
    }
}

// Searches for two paths that are remembered under the same key give the same.
proof fn lemma_same_key_same_root<F: Fn(&FilePath) -> bool, G: Fn(&FilePath) -> bool>(
    is_file: F,
    present: G,
    p: Seq<u8>,
    a: bool,
    first: Option<Seq<u8>>,
    q: Seq<u8>,
    b: bool,
    second: Option<Seq<u8>>,
)
    requires
        steady(is_file),
        steady(present),
        no_marked_file_on_top(is_file, present),
        outcome_if(is_file, present, p, a, first),
        outcome_if(is_file, present, q, b, second),
        same_path(lookup_key(p, a), lookup_key(q, b)),
    ensures
        same_root(first, second),
{
    if a && parent(p) is None {
        assert(search_for_key(is_file, present, q, b, p, second));
        lemma_top_file(is_file, present, p, q, b, second);
    } else if b && parent(q) is None {
        assert(search_for_key(is_file, present, p, a, q, first));
        lemma_top_file(is_file, present, q, p, a, first);
    } else {
        lemma_nearest_alike(present, lookup_key(p, a), lookup_key(q, b), first, second);
    }
}

/// A cache that knows nothing knows nothing false.
pub proof fn new_cache_is_true<F: Fn(&FilePath) -> bool, G: Fn(&FilePath) -> bool>(
    is_file: F,
    present: G,
    cache: GitRootCache,
)
    requires
        knows_nothing(cache),
    ensures
        cache_is_true(is_file, present, cache),
{
}

/// While the disk does not change, the cache is transparent: a lookup gives the path that the
/// search [`find_git_root`] gives, and keeps all that the cache knows true.
pub proof fn cache_is_transparent<F: Fn(&FilePath) -> bool, G: Fn(&FilePath) -> bool>(
    is_file: F,
    present: G,
    before: GitRootCache,
    p: Seq<u8>,
    result: Option<Seq<u8>>,
    after: GitRootCache,
    direct: Option<Seq<u8>>,
)
    requires
        steady(is_file),
        steady(present),
        no_marked_file_on_top(is_file, present),
        cache_is_true(is_file, present, before),
        cached_lookup(is_file, present, before, p, result, after),
        git_root_outcome(is_file, present, p, direct),
    ensures
        same_root(result, direct),
        cache_is_true(is_file, present, after),
{
    let file = choose|file: bool| lookup_if(is_file, present, before, p, file, result, after);
    let again = choose|again: bool| outcome_if(is_file, present, p, again, direct);
    let key = lookup_key(p, file);
    assert(file == again);
    match before.known(key) {
        Some(known) => {
            let (x, f) = choose|x: Seq<u8>, f: bool|
                search_for_key(is_file, present, x, f, key, known);
            lemma_same_key_same_root(is_file, present, x, f, known, p, file, direct);
        },
        None => {
            let third = choose|third: bool| outcome_if(is_file, present, p, third, result);
            assert(third == file);
            lemma_same_key_same_root(is_file, present, p, file, result, p, file, direct);
        },
    }
    assert forall|q: Seq<u8>| (#[trigger] after.known(q)) is Some implies is_true_of_key(
        is_file,
        present,
        q,
        after.known(q).unwrap(),
    ) by {
        if before.known(key) is None && same_path(q, key) {
            assert(search_for_key(is_file, present, p, file, q, result));
        } else {
            assert(after.known(q) == before.known(q));
        }
    }
}

/// A course of lookups: `caches[i]` is the cache before `paths[i]` is looked up in it, which gives
/// `results[i]`; the first cache knows nothing.
pub open spec fn is_course_of_lookups<F: Fn(&FilePath) -> bool, G: Fn(&FilePath) -> bool>(
    is_file: F,
    present: G,
    caches: Seq<GitRootCache>,
    paths: Seq<Seq<u8>>,
    results: Seq<Option<Seq<u8>>>,
) -> bool {
    &&& caches.len() == paths.len() + 1
    &&& results.len() == paths.len()
    &&& knows_nothing(caches[0])
    &&& forall|i: int|
        0 <= i < paths.len() ==> cached_lookup(
            is_file,
            present,
            caches[i],
            #[trigger] paths[i],
            results[i],
            caches[i + 1],
        )
}

/// While the disk does not change, every lookup in a cache that started out new gives the path that
/// the search [`find_git_root`] gives: `direct[i]` for `paths[i]`.
pub proof fn every_lookup_is_transparent<F: Fn(&FilePath) -> bool, G: Fn(&FilePath) -> bool>(
    is_file: F,
    present: G,
    caches: Seq<GitRootCache>,
    paths: Seq<Seq<u8>>,
    results: Seq<Option<Seq<u8>>>,
    direct: Seq<Option<Seq<u8>>>,
)
    requires
        steady(is_file),
        steady(present),
        no_marked_file_on_top(is_file, present),
        is_course_of_lookups(is_file, present, caches, paths, results),
        direct.len() == paths.len(),
        forall|i: int|
            0 <= i < paths.len() ==> git_root_outcome(is_file, present, paths[i], #[trigger] direct[i]),
    ensures
        forall|i: int| 0 <= i < paths.len() ==> same_root(results[i], #[trigger] direct[i]),
{
    assert forall|i: int| 0 <= i < paths.len() implies same_root(results[i], #[trigger] direct[i]) by {
        lemma_caches_stay_true(is_file, present, caches, paths, results, direct, i);
        cache_is_transparent(
            is_file,
            present,
            caches[i],
            paths[i],
            results[i],
            caches[i + 1],
            direct[i],
        );
    }
}

proof fn lemma_caches_stay_true<F: Fn(&FilePath) -> bool, G: Fn(&FilePath) -> bool>(
    is_file: F,
    present: G,
    caches: Seq<GitRootCache>,
    paths: Seq<Seq<u8>>,
    results: Seq<Option<Seq<u8>>>,
    direct: Seq<Option<Seq<u8>>>,
    n: int,
)
    requires
        steady(is_file),
        steady(present),
        no_marked_file_on_top(is_file, present),
        is_course_of_lookups(is_file, present, caches, paths, results),
        direct.len() == paths.len(),
        forall|i: int|
            0 <= i < paths.len() ==> git_root_outcome(is_file, present, paths[i], #[trigger] direct[i]),
        0 <= n <= paths.len(),
    ensures
        cache_is_true(is_file, present, caches[n]),
    decreases n,
{
    if n > 0 {
        lemma_caches_stay_true(is_file, present, caches, paths, results, direct, n - 1);
        assert(git_root_outcome(is_file, present, paths[n - 1], direct[n - 1]));
        cache_is_transparent(
            is_file,
            present,
            caches[n - 1],
            paths[n - 1],
            results[n - 1],
            caches[n],
            direct[n - 1],
        );
    }
}

/// The different paths among `paths`.
pub open spec fn different_paths(paths: Seq<Seq<u8>>) -> Set<Seq<Seq<u8>>> {
    paths.map_values(|p: Seq<u8>| components(p)).to_set()
}

/// `keys[i]` is the path under which what is found for `paths[i]` is remembered.
pub open spec fn are_lookup_keys<F: Fn(&FilePath) -> bool>(
    is_file: F,
    paths: Seq<Seq<u8>>,
    keys: Seq<Seq<u8>>,
) -> bool {
    &&& keys.len() == paths.len()
    &&& forall|i: int, file: bool|
        0 <= i < paths.len() && #[trigger] answered(is_file, paths[i], file) ==> same_path(
            lookup_key(paths[i], file),
            keys[i],
        )
}

/// After any lookups a new cache knows exactly the directories that were looked up, for a file the
/// one it lies in, and holds one entry for each of them.
pub proof fn one_entry_per_directory<F: Fn(&FilePath) -> bool, G: Fn(&FilePath) -> bool>(
    is_file: F,
    present: G,
    caches: Seq<GitRootCache>,
    paths: Seq<Seq<u8>>,
    results: Seq<Option<Seq<u8>>>,
    keys: Seq<Seq<u8>>,
)
    requires
        is_course_of_lookups(is_file, present, caches, paths, results),
        are_lookup_keys(is_file, paths, keys),
    ensures
        forall|q: Seq<u8>|
            (#[trigger] caches.last().known(q)) is Some <==> different_paths(keys).contains(
                components(q),
            ),
        caches.last().size() == different_paths(keys).len(),
{
    lemma_entries(is_file, present, caches, paths, results, keys, paths.len() as int);
    assert(keys.take(paths.len() as int) =~= keys);
}

proof fn lemma_entries<F: Fn(&FilePath) -> bool, G: Fn(&FilePath) -> bool>(
    is_file: F,
    present: G,
    caches: Seq<GitRootCache>,
    paths: Seq<Seq<u8>>,
    results: Seq<Option<Seq<u8>>>,
    keys: Seq<Seq<u8>>,
    n: int,
)
    requires
        is_course_of_lookups(is_file, present, caches, paths, results),
        are_lookup_keys(is_file, paths, keys),
        0 <= n <= paths.len(),
    ensures
        different_paths(keys.take(n)).finite(),
        forall|q: Seq<u8>|
            (#[trigger] caches[n].known(q)) is Some <==> different_paths(keys.take(n)).contains(
                components(q),
            ),
        caches[n].size() == different_paths(keys.take(n)).len(),
    decreases n,
{
    let seen = different_paths(keys.take(n));
    if n == 0 {
        assert(seen =~= Set::empty());
    } else {
        lemma_entries(is_file, present, caches, paths, results, keys, n - 1);
        let p = paths[n - 1];
        let earlier = different_paths(keys.take(n - 1));
        lemma_one_more_path(keys, n);
        assert(cached_lookup(is_file, present, caches[n - 1], p, results[n - 1], caches[n]));
        let last = caches[n - 1];
        let result = results[n - 1];
        let now = caches[n];
        let file = choose|file: bool| lookup_if(is_file, present, last, p, file, result, now);
        let key = lookup_key(p, file);
        assert(answered(is_file, paths[n - 1], file));
        assert(same_path(key, keys[n - 1]));
        assert(last.known(key) is Some <==> earlier.contains(components(key)));
        if last.known(key) is Some {
            assert(seen =~= earlier);
        }
        assert forall|q: Seq<u8>| (#[trigger] caches[n].known(q)) is Some <==> seen.contains(
            components(q),
        ) by {
            assert(last.known(q) is Some <==> earlier.contains(components(q)));
        }
    }
}

proof fn lemma_one_more_path(paths: Seq<Seq<u8>>, n: int)
    requires
        0 < n <= paths.len(),
    ensures
        different_paths(paths.take(n)) == different_paths(paths.take(n - 1)).insert(
            components(paths[n - 1]),
        ),
{
    let turn = |p: Seq<u8>| components(p);
    let now = paths.take(n).map_values(turn);
    let before = paths.take(n - 1).map_values(turn);
    assert(now =~= before.push(components(paths[n - 1])));
    assert forall|c: Seq<Seq<u8>>| now.to_set().contains(c) <==> before.to_set().insert(
        components(paths[n - 1]),
    ).contains(c) by {
        if before.contains(c) {
            let i = choose|i: int| 0 <= i < before.len() && before[i] == c;
            assert(now[i] == c);
        }
        assert(now[n - 1] == components(paths[n - 1]));
        if now.contains(c) {
            let i = choose|i: int| 0 <= i < now.len() && now[i] == c;
            if i < n - 1 {
                assert(before[i] == c);
            }
        }
    }
    assert(now.to_set() =~= before.to_set().insert(components(paths[n - 1])));
}

proof fn lemma_stays_known<F: Fn(&FilePath) -> bool, G: Fn(&FilePath) -> bool>(
    is_file: F,
    present: G,
    caches: Seq<GitRootCache>,
    paths: Seq<Seq<u8>>,
    results: Seq<Option<Seq<u8>>>,
    keys: Seq<Seq<u8>>,
    i: int,
    n: int,
)
    requires
        is_course_of_lookups(is_file, present, caches, paths, results),
        are_lookup_keys(is_file, paths, keys),
        0 <= i < n <= paths.len(),
    ensures
        caches[n].known(keys[i]) == Some(results[i]),
    decreases n,
{
    let last = caches[n - 1];
    let p = paths[n - 1];
    let result = results[n - 1];
    let now = caches[n];
    assert(cached_lookup(is_file, present, last, p, result, now));
    if i < n - 1 {
        lemma_stays_known(is_file, present, caches, paths, results, keys, i, n - 1);
        cache_never_forgets(is_file, present, last, p, result, now, keys[i]);
    } else {
        let file = choose|file: bool| lookup_if(is_file, present, last, p, file, result, now);
        assert(answered(is_file, paths[i], file));
        known_by_path(last, lookup_key(p, file), keys[i]);
        known_by_path(now, lookup_key(p, file), keys[i]);
    }
}

/// In any course of lookups in a cache that started out new, two paths with one key get the same
/// answer, and the later one adds no entry: so do two files of one directory.
pub proof fn files_of_a_directory_share_an_entry<
    F: Fn(&FilePath) -> bool,
    G: Fn(&FilePath) -> bool,
>(
    is_file: F,
    present: G,
    caches: Seq<GitRootCache>,
    paths: Seq<Seq<u8>>,
    results: Seq<Option<Seq<u8>>>,
    keys: Seq<Seq<u8>>,
    i: int,
    j: int,
)
    requires
        is_course_of_lookups(is_file, present, caches, paths, results),
        are_lookup_keys(is_file, paths, keys),
        0 <= i < j < paths.len(),
        same_path(keys[i], keys[j]),
    ensures
        results[j] == results[i],
        knows_the_same(caches[j + 1], caches[j]),
{
    let before = caches[j];
    let p = paths[j];
    let result = results[j];
    let after = caches[j + 1];
    lemma_stays_known(is_file, present, caches, paths, results, keys, i, j);
    assert(cached_lookup(is_file, present, before, p, result, after));
    let file = choose|file: bool| lookup_if(is_file, present, before, p, file, result, after);
    assert(answered(is_file, paths[j], file));
    known_by_path(before, lookup_key(p, file), keys[i]);
}

/// Looking a path up again that is no file gives what is known, adds nothing and loses nothing.
pub proof fn known_directory_adds_nothing<F: Fn(&FilePath) -> bool, G: Fn(&FilePath) -> bool>(
    is_file: F,
    present: G,
    before: GitRootCache,
    p: Seq<u8>,
    result: Option<Seq<u8>>,
    after: GitRootCache,
)
    requires
        cached_lookup(is_file, present, before, p, result, after),
        !answered(is_file, p, true),
        before.known(p) is Some,
    ensures
        before.known(p) == Some(result),
        knows_the_same(after, before),
{
    let file = choose|file: bool| lookup_if(is_file, present, before, p, file, result, after);
    assert(!file);
}

/// Git keeps its metadata under the name `.git` in the root of a work tree.
pub proof fn metadata_is_named_git(dir: Seq<u8>)
    ensures
        components(git_marker(dir)) == components(dir).push(seq![0x2eu8, 0x67, 0x69, 0x74]),
{
    lemma_git_is_a_file_name();
    join_adds_component(dir, encode_utf8(".git"@));
    reveal_strlit(".git");
    let t = ".git"@;
    is_ascii_chars_encode_utf8(t);
    assert(encode_utf8(t) =~= seq![0x2eu8, 0x67, 0x69, 0x74]);
}

/// The path some levels above another has all its components but as many, and there is one for each
/// number of levels that leaves a component.
pub proof fn levels_drop_components(p: Seq<u8>, k: nat)
    ensures
        ancestor(p, k) matches Some(dir) ==> k <= components(p).len() && components(dir)
            == components(p).take(components(p).len() - k),
        k < components(p).len() ==> ancestor(p, k) is Some,
    decreases k,
{
    let c = components(p);
    if k == 0 {
        assert(c.take(c.len() as int) =~= c);
    } else {
        levels_drop_components(p, (k - 1) as nat);
        if let Some(below) = ancestor(p, (k - 1) as nat) {
            if k < c.len() {
                assert(components(below).len() >= 2);
                assert(seq![Seq::<u8>::empty()].len() == 1);
            }
            if parent(below) is Some {
                parent_drops_last_component(below);
                assert(c.take(c.len() - (k - 1)).drop_last() =~= c.take(c.len() - k));
            }
        }
    }
}

// The directory that a search is sure to find.
pub(crate) proof fn lemma_sure_to_be_found<F: Fn(&FilePath) -> bool, G: Fn(&FilePath) -> bool>(
    is_file: F,
    present: G,
    p: Seq<u8>,
    file: bool,
    start: Seq<u8>,
    k: nat,
    dir: Seq<u8>,
    result: Option<Seq<u8>>,
)
    requires
        git_root_outcome(is_file, present, p, result),
        !answered(is_file, p, !file),
        start == (if file {
            parent(p).unwrap()
        } else {
            p
        }),
        file ==> parent(p) is Some,
        ancestor(start, k) == Some(dir),
        !answered(present, git_marker(dir), false),
        forall|j: nat|
            j < k ==> !answered(
                present,
                git_marker((#[trigger] ancestor(start, j)).unwrap()),
                true,
            ),
    ensures
        result == Some(dir),
{
    let f = choose|f: bool| outcome_if(is_file, present, p, f, result);
    assert(f == file);
    match result {
        Some(root) => {
            let m = choose|m: nat| is_nearest_at(present, start, root, m);
            if m < k {
                assert(answered(present, git_marker(ancestor(start, m).unwrap()), true));
            } else if k < m {
                assert(answered(present, git_marker(ancestor(start, k).unwrap()), false));
            }
        },
        None => {
            assert(answered(present, git_marker(ancestor(start, k).unwrap()), false));
        },
    }
}

/// The git root of a path is the nearest directory that holds git metadata: of those from the path
/// upwards, or from its directory upwards where it is a file, the first whose `.git` exists.
pub proof fn nearest_marked_directory_is_found<F: Fn(&FilePath) -> bool, G: Fn(&FilePath) -> bool>(
    path: &FilePath,
    is_file: &F,
    present: &G,
    res: Option<FilePath>,
    file: bool,
    start: Seq<u8>,
    k: nat,
    dir: Seq<u8>,
)
    requires
        call_ensures(find_git_root::<F, G>, (path, is_file, present), res),
        !answered(*is_file, path@, !file),
        start == (if file {
            parent(path@).unwrap()
        } else {
            path@
        }),
        file ==> parent(path@) is Some,
        ancestor(start, k) == Some(dir),
        !answered(*present, git_marker(dir), false),
        forall|j: nat|
            j < k ==> !answered(
                *present,
                git_marker((#[trigger] ancestor(start, j)).unwrap()),
                true,
            ),
    ensures
        opt_path_view(res) == Some(dir),
{
    lemma_sure_to_be_found(
        *is_file,
        *present,
        path@,
        file,
        start,
        k,
        dir,
        opt_path_view(res),
    );
}

/// A path has no git root where no directory from it upwards holds git metadata.
pub proof fn unmarked_path_has_no_git_root<F: Fn(&FilePath) -> bool, G: Fn(&FilePath) -> bool>(
    path: &FilePath,
    is_file: &F,
    present: &G,
    res: Option<FilePath>,
)
    requires
        call_ensures(find_git_root::<F, G>, (path, is_file, present), res),
        forall|dir: Seq<u8>| #[trigger]
            is_under(path@, dir) ==> !answered(*present, git_marker(dir), true),
    ensures
        res is None,
{
    if let Some(root) = res {
        git_root_contains_path(*is_file, *present, path@, root@);
    }
}

/// A lookup in a cache that knows nothing of the directory finds what a search finds, and keeps it;
/// where the directory is known the lookup gives what is known, and asks nothing of the disk.
pub proof fn lookup_finds_what_a_search_finds<F: Fn(&FilePath) -> bool, G: Fn(&FilePath) -> bool>(
    cache: &mut GitRootCache,
    path: &FilePath,
    is_file: &F,
    present: &G,
    res: Option<FilePath>,
    file: bool,
    key: Seq<u8>,
)
    requires
        call_ensures(
            GitRootCache::find_git_root_cached::<F, G>,
            (cache, path, is_file, present),
            res,
        ),
        !answered(*is_file, path@, !file),
        key == (if file && parent(path@) is Some {
            parent(path@).unwrap()
        } else {
            path@
        }),
    ensures
        final(cache).known(key) == Some(opt_path_view(res)),
        old(cache).known(key) is None ==> git_root_outcome(
            *is_file,
            *present,
            path@,
            opt_path_view(res),
        ) && final(cache).size() == old(cache).size() + 1,
        old(cache).known(key) is Some ==> old(cache).known(key) == Some(opt_path_view(res))
            && final(cache).size() == old(cache).size(),
        forall|q: Seq<u8>|
            !same_path(q, key) ==> #[trigger] final(cache).known(q) == old(cache).known(q),
{
    let f = choose|f: bool|
        lookup_if(
            *is_file,
            *present,
            *old(cache),
            path@,
            f,
            opt_path_view(res),
            *final(cache),
        );
    assert(f == file);
}

/// Two files of one directory share what is remembered: after one of them was looked up, the other
/// gets the same answer and adds no entry, and neither does the directory itself.
pub proof fn files_beside_each_other_share_an_entry<
    F: Fn(&FilePath) -> bool,
    G: Fn(&FilePath) -> bool,
>(
    is_file: &F,
    present: &G,
    first: &mut GitRootCache,
    p: &FilePath,
    found: Option<FilePath>,
    second: &mut GitRootCache,
    q: &FilePath,
    again: Option<FilePath>,
)
    requires
        call_ensures(
            GitRootCache::find_git_root_cached::<F, G>,
            (first, p, is_file, present),
            found,
        ),
        *old(second) == *final(first),
        call_ensures(
            GitRootCache::find_git_root_cached::<F, G>,
            (second, q, is_file, present),
            again,
        ),
        parent(p@) is Some,
        !answered(*is_file, p@, false),
        ({
            ||| parent(q@) is Some && same_path(parent(q@).unwrap(), parent(p@).unwrap())
                && !answered(*is_file, q@, false)
            ||| same_path(q@, parent(p@).unwrap()) && !answered(*is_file, q@, true)
        }),
    ensures
        opt_path_view(again) == opt_path_view(found),
        final(second).size() == old(second).size(),
{
    let f = choose|f: bool|
        lookup_if(*is_file, *present, *old(first), p@, f, opt_path_view(found), *final(first));
    let g = choose|g: bool|
        lookup_if(*is_file, *present, *old(second), q@, g, opt_path_view(again), *final(second));
    assert(f);
    known_by_path(*old(second), lookup_key(q@, g), lookup_key(p@, f));
    known_by_path(*old(first), lookup_key(q@, g), lookup_key(p@, f));
    assert(final(first).known(lookup_key(p@, f)) == Some(opt_path_view(found)));
}

/// A new cache knows of no directory.
pub proof fn new_cache_is_empty(cache: GitRootCache, len: usize, q: Seq<u8>)
    requires
        call_ensures(GitRootCache::new, (), cache),
        call_ensures(GitRootCache::len, (&cache,), len),
    ensures
        len == 0,
        cache.known(q) is None,
{
}

/// A file without a directory above it has no git root.
pub proof fn file_on_top_has_no_git_root<F: Fn(&FilePath) -> bool, G: Fn(&FilePath) -> bool>(
    path: &FilePath,
    is_file: &F,
    present: &G,
    res: Option<FilePath>,
)
    requires
        call_ensures(find_git_root::<F, G>, (path, is_file, present), res),
        !answered(*is_file, path@, false),
        parent(path@) is None,
    ensures
        res is None,
{
}

} // verus!
