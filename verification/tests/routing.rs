use ace_proxy::path::FilePath;
use ace_proxy::routing::{
    choose_fallback_root, determine_root, find_git_root, group_paths_by_root, longest_hit,
    GitRootCache, RootTable,
};
use ace_proxy::uri::{path_to_uri, uri_to_path, uri_to_windows_path};
use std::cell::Cell;

fn path(text: &str) -> FilePath {
    FilePath::from_text(text)
}

fn paths(texts: &[&str]) -> Vec<FilePath> {
    texts.iter().map(|text| path(text)).collect()
}

fn text(path: &FilePath) -> String {
    String::from_utf8(path.bytes.clone()).unwrap()
}

fn opt_text(path: Option<FilePath>) -> Option<String> {
    path.map(|path| text(&path))
}

fn is_file(path: &FilePath) -> bool {
    std::path::Path::new(&text(path)).is_file()
}

fn present(path: &FilePath) -> bool {
    std::path::Path::new(&text(path)).exists()
}

#[test]
fn test_find_git_root_none() {
    let result = find_git_root(&path("/nonexistent/really/deep/path"), &is_file, &present);
    let _ = result;
}

#[test]
fn test_uri_to_path_basic() {
    let result = uri_to_path("file:///C:/Users/test/file.rs");
    assert!(result.is_some());
}

#[test]
fn test_uri_to_path_non_file() {
    let result = uri_to_path("https://example.com");
    assert!(result.is_none());
}

#[test]
fn test_git_root_cache() {
    let mut cache = GitRootCache::new();
    let result1 = cache.find_git_root_cached(&path("/nonexistent/path"), &is_file, &present);
    let result2 = cache.find_git_root_cached(&path("/nonexistent/path"), &is_file, &present);
    assert_eq!(opt_text(result1), opt_text(result2));
}

#[test]
fn test_determine_root_with_known_root() {
    let roots = paths(&["/workspace/project"]);
    let mut cache = GitRootCache::new();
    let result = determine_root(
        &roots,
        None,
        &mut cache,
        Some("file:///workspace/project/src/main.rs"),
        &is_file,
        &present,
    );
    assert!(result.is_some());
}

#[test]
fn test_group_paths_by_root() {
    let roots = paths(&["/workspace/a", "/workspace/b"]);
    let changed = paths(&[
        "/workspace/a/file1.rs",
        "/workspace/b/file2.rs",
        "/workspace/a/file3.rs",
    ]);
    let grouped = group_paths_by_root(&changed, &roots, None);
    assert_eq!(grouped.len(), 2);
    assert_eq!(grouped.get(&path("/workspace/a")).unwrap().len(), 2);
    assert_eq!(grouped.get(&path("/workspace/b")).unwrap().len(), 1);
}

#[test]
fn git_root_is_the_nearest_marked_directory() {
    let marked = |p: &FilePath| text(p) == "/w/repo/.git" || text(p) == "/w/.git";
    let file = |p: &FilePath| text(p) == "/w/repo/src/main.rs";
    let found = find_git_root(&path("/w/repo/src/main.rs"), &file, &marked);
    assert_eq!(opt_text(found), Some("/w/repo".to_string()));
    let found = find_git_root(&path("/w/other"), &file, &marked);
    assert_eq!(opt_text(found), Some("/w".to_string()));
    let found = find_git_root(&path("/elsewhere/src"), &file, &marked);
    assert_eq!(opt_text(found), None);
}

#[test]
fn git_root_may_be_the_root_directory() {
    let marked = |p: &FilePath| text(p) == "/.git";
    let found = find_git_root(&path("/a/b"), &|_: &FilePath| false, &marked);
    assert_eq!(opt_text(found), Some("/".to_string()));
}

#[test]
fn git_root_of_a_file_without_a_directory_is_none() {
    let found = find_git_root(&path("/"), &|_: &FilePath| true, &|_: &FilePath| true);
    assert_eq!(opt_text(found), None);
    let found = find_git_root(&path(""), &|_: &FilePath| true, &|_: &FilePath| true);
    assert_eq!(opt_text(found), None);
}

#[test]
fn git_root_of_a_relative_path_ends_at_the_empty_path() {
    let asked = Cell::new(0u32);
    let marked = |_: &FilePath| {
        asked.set(asked.get() + 1);
        false
    };
    let found = find_git_root(&path("a/b"), &|_: &FilePath| false, &marked);
    assert_eq!(opt_text(found), None);
    assert_eq!(asked.get(), 3);
}

#[test]
fn cache_asks_the_disk_once_per_directory() {
    let asked = Cell::new(0u32);
    let marked = |p: &FilePath| {
        asked.set(asked.get() + 1);
        text(p) == "/w/repo/.git"
    };
    let file = |p: &FilePath| text(p).ends_with(".rs");
    let mut cache = GitRootCache::new();
    let first = cache.find_git_root_cached(&path("/w/repo/src/a.rs"), &file, &marked);
    assert_eq!(opt_text(first), Some("/w/repo".to_string()));
    let after_first = asked.get();
    assert_eq!(after_first, 2);
    let second = cache.find_git_root_cached(&path("/w/repo/src/b.rs"), &file, &marked);
    assert_eq!(opt_text(second), Some("/w/repo".to_string()));
    let third = cache.find_git_root_cached(&path("/w//repo/./src/"), &file, &marked);
    assert_eq!(opt_text(third), Some("/w/repo".to_string()));
    assert_eq!(asked.get(), after_first);
    assert_eq!(cache.len(), 1);
}

#[test]
fn cache_is_transparent_and_keeps_one_entry_per_directory() {
    let marked = |p: &FilePath| text(p) == "/w/repo/.git";
    let file = |p: &FilePath| text(p).ends_with(".rs");
    let mut cache = GitRootCache::new();
    assert_eq!(cache.len(), 0);
    let lookups =
        ["/w/repo", "/w/repo/src", "/w/repo/src/a.rs", "/w", "/", "/w/repo/", "/w/repo/src/b.rs", "x"];
    for _ in 0..3 {
        for p in lookups {
            let cached = cache.find_git_root_cached(&path(p), &file, &marked);
            let direct = find_git_root(&path(p), &file, &marked);
            assert_eq!(
                cached.map(|root| root.components()),
                direct.map(|root| root.components()),
                "{}",
                p
            );
        }
        assert_eq!(cache.len(), 5);
    }
}

#[test]
fn directories_on_the_way_share_the_git_root() {
    let marked = |p: &FilePath| text(p) == "/w/repo/.git";
    let none = |_: &FilePath| false;
    for p in ["/w/repo/a/b/c", "/w/repo/a/b", "/w/repo/a", "/w/repo"] {
        let found = find_git_root(&path(p), &none, &marked);
        assert_eq!(opt_text(found), Some("/w/repo".to_string()));
    }
}

#[test]
fn cache_remembers_that_there_is_no_root() {
    let asked = Cell::new(0u32);
    let marked = |_: &FilePath| {
        asked.set(asked.get() + 1);
        false
    };
    let mut cache = GitRootCache::new();
    let none = |_: &FilePath| false;
    assert!(cache.find_git_root_cached(&path("/x"), &none, &marked).is_none());
    let once = asked.get();
    assert!(cache.find_git_root_cached(&path("/x"), &none, &marked).is_none());
    assert_eq!(asked.get(), once);
    assert!(cache.find_git_root_cached(&path("/y"), &none, &marked).is_none());
    assert!(asked.get() > once);
}

#[test]
fn longest_root_wins() {
    let roots = paths(&["/w", "/w/a/b", "/w/a", "/other"]);
    let table = RootTable::new(&roots);
    assert_eq!(table.longest_match(&path("/w/a/b/c.rs")), Some(1));
    assert_eq!(table.longest_match(&path("/w/a/c.rs")), Some(2));
    assert_eq!(table.longest_match(&path("/w/ab")), Some(0));
    assert_eq!(table.longest_match(&path("/nowhere")), None);
}

#[test]
fn of_equally_long_roots_the_last_wins() {
    let roots = paths(&["/w/a", "/w/a"]);
    assert_eq!(RootTable::new(&roots).longest_match(&path("/w/a/x")), Some(1));
    assert_eq!(longest_hit(&vec![true, true, false], &vec![3, 3, 9]), Some(1));
    assert_eq!(longest_hit(&vec![true, true, false], &vec![4, 3, 9]), Some(0));
    assert_eq!(longest_hit(&vec![false, false], &vec![4, 3]), None);
}

#[test]
fn root_length_is_counted_in_bytes() {
    // Doubled slashes lengthen a root without making it deeper.
    let roots = paths(&["/w/a", "/w////////"]);
    assert_eq!(RootTable::new(&roots).longest_match(&path("/w/a/x")), Some(1));
}

#[test]
fn routing_goes_from_known_root_to_git_root_to_default_to_first() {
    let roots = paths(&["/known", "/second"]);
    let fallback = path("/default");
    let none = |_: &FilePath| false;
    let marked = |p: &FilePath| text(p) == "/repo/.git";
    let mut cache = GitRootCache::new();

    let result = determine_root(&roots, Some(&fallback), &mut cache, Some("file:///known/x"), &none, &marked);
    assert_eq!(opt_text(result), Some("/known".to_string()));
    let result = determine_root(&roots, Some(&fallback), &mut cache, Some("file:///repo/src/x"), &none, &marked);
    assert_eq!(opt_text(result), Some("/repo".to_string()));
    let result = determine_root(&roots, Some(&fallback), &mut cache, Some("file:///lost/x"), &none, &marked);
    assert_eq!(opt_text(result), Some("/default".to_string()));
    let result = determine_root(&roots, None, &mut cache, Some("file:///lost/x"), &none, &marked);
    assert_eq!(opt_text(result), Some("/known".to_string()));
    let result = determine_root(&roots, None, &mut cache, Some("https://example.com"), &none, &marked);
    assert_eq!(opt_text(result), Some("/known".to_string()));
    let result = determine_root(&roots, Some(&fallback), &mut cache, None, &none, &marked);
    assert_eq!(opt_text(result), Some("/default".to_string()));
    let result = determine_root(&Vec::new(), None, &mut cache, None, &none, &marked);
    assert_eq!(opt_text(result), None);
}

#[test]
fn fallback_is_the_default_root_or_the_first() {
    let roots = paths(&["/a", "/b"]);
    assert_eq!(opt_text(choose_fallback_root(Some(&path("/d")), &roots)), Some("/d".to_string()));
    assert_eq!(opt_text(choose_fallback_root(None, &roots)), Some("/a".to_string()));
    assert_eq!(opt_text(choose_fallback_root(None, &Vec::new())), None);
}

#[test]
fn groups_keep_order_and_leave_out_what_has_no_root() {
    let roots = paths(&["/w/b", "/w/a"]);
    let changed = paths(&["/w/a/1", "/lost/2", "/w/b/3", "/w/a/4"]);
    let grouped = group_paths_by_root(&changed, &roots, None);
    let listed: Vec<(String, Vec<String>)> =
        grouped.groups().iter().map(|g| (text(&g.root), g.uris.clone())).collect();
    assert_eq!(
        listed,
        vec![
            ("/w/a".to_string(), vec!["file:////w/a/1".to_string(), "file:////w/a/4".to_string()]),
            ("/w/b".to_string(), vec!["file:////w/b/3".to_string()]),
        ]
    );
    assert!(grouped.get(&path("/lost")).is_none());
}

#[test]
fn groups_send_the_rest_to_the_default_root() {
    let roots = paths(&["/w/a"]);
    let changed = paths(&["/w/a/1", "/lost/2"]);
    let grouped = group_paths_by_root(&changed, &roots, Some(&path("/w/d")));
    assert_eq!(grouped.len(), 2);
    assert_eq!(grouped.get(&path("/w/d")).unwrap(), &vec!["file:////lost/2".to_string()]);
}

#[test]
fn groups_join_spellings_of_one_root() {
    let roots = paths(&["/w/a"]);
    let changed = paths(&["/w/a/1", "/lost/2"]);
    let grouped = group_paths_by_root(&changed, &roots, Some(&path("/w/./a/")));
    assert_eq!(grouped.len(), 1);
    assert_eq!(text(&grouped.groups()[0].root), "/w/a");
    assert_eq!(grouped.get(&path("/w//a")).unwrap().len(), 2);
}

#[test]
fn uris_are_percent_decoded() {
    assert_eq!(opt_text(uri_to_path("file:///a%20b/c%2Fd")), Some("/a b/c/d".to_string()));
    assert_eq!(opt_text(uri_to_path("file:///caf%C3%A9")), Some("/caf\u{e9}".to_string()));
    assert_eq!(opt_text(uri_to_path("file:///100%/x%zz")), Some("/100%/x%zz".to_string()));
    assert_eq!(opt_text(uri_to_path("file:///")), Some("/".to_string()));
    assert!(uri_to_path("file:///%FF").is_none());
    assert!(uri_to_path("file://host/x").is_none());
    assert!(uri_to_path("FILE:///x").is_none());
}

#[test]
fn uris_of_windows_paths() {
    let windows = |uri: &str| opt_text(uri_to_windows_path(uri));
    assert_eq!(windows("file:///C:/Users/a%20b"), Some("C:\\Users\\a b".to_string()));
    assert_eq!(windows("file:////C:/Users"), Some("C:\\Users".to_string()));
    assert_eq!(windows("file:///x/y"), Some("x\\y".to_string()));
    assert_eq!(windows("http:///x"), None);
}

#[test]
fn path_uris_have_slashes_and_replace_what_is_no_text() {
    assert_eq!(path_to_uri(&path("/a/b c")), "file:////a/b c");
    assert_eq!(path_to_uri(&path("C:\\a\\b")), "file:///C:/a/b");
    let odd = FilePath { bytes: vec![b'/', 0xff, b'x'] };
    assert_eq!(path_to_uri(&odd), "file:////\u{fffd}x");
}

#[test]
fn path_uri_leads_back_to_the_path() {
    let start = path("/w/caf\u{e9}/x.rs");
    let back = uri_to_path(&path_to_uri(&start)).unwrap();
    assert!(back.starts_with(&start));
    assert!(start.starts_with(&back));
}

#[test]
fn paths_have_components() {
    let parts = |p: &str| -> Vec<String> {
        path(p).components().into_iter().map(|part| String::from_utf8(part).unwrap()).collect()
    };
    assert_eq!(parts("/a//b/./c/"), vec!["", "a", "b", "c"]);
    assert_eq!(parts("./a/../b"), vec![".", "a", "..", "b"]);
    assert_eq!(parts("/"), vec![""]);
    assert_eq!(parts(""), Vec::<String>::new());
}

#[test]
fn paths_agree_with_the_standard_library() {
    let samples = [
        "", "/", "//", "a", "a/", "/a", "/a/", "/a/b", "/a//b/", "/a/./b", "./a", "a/.", "a/./", ".",
        "./", "/.", "..", "a/..", "/a/b/..", "/a/b/.", "a/./b//c", ".git", "/w/.git", "a.b/..c",
    ];
    for p in samples {
        let std_path = std::path::Path::new(p);
        let own = path(p);
        let expected = std_path.parent().map(|q| q.to_str().unwrap().to_string());
        assert_eq!(opt_text(own.parent()), expected, "parent of {:?}", p);
        let mut popped = path(p);
        let mut std_popped = std::path::PathBuf::from(p);
        assert_eq!(popped.pop(), std_popped.pop(), "pop of {:?}", p);
        assert_eq!(text(&popped), std_popped.to_str().unwrap(), "pop of {:?}", p);
        for q in samples {
            assert_eq!(
                own.starts_with(&path(q)),
                std_path.starts_with(q),
                "{:?} starts with {:?}",
                p,
                q
            );
            assert_eq!(
                text(&own.join(q)),
                std_path.join(q).to_str().unwrap(),
                "{:?} joined with {:?}",
                p,
                q
            );
        }
    }
}

#[test]
fn single_and_batch_routing_agree() {
    let roots = paths(&["/w", "/w/a", "/w/a/b"]);
    let none = |_: &FilePath| false;
    for p in ["/w/x", "/w/a/x", "/w/a/b/x"] {
        let mut cache = GitRootCache::new();
        let uri = format!("file://{}", p);
        let single = determine_root(&roots, None, &mut cache, Some(&uri), &none, &none);
        let batch = group_paths_by_root(&paths(&[p]), &roots, None);
        assert_eq!(opt_text(single), Some(text(&batch.groups()[0].root)));
    }
}

#[test]
fn batches_add_up() {
    let roots = paths(&["/w/a", "/w/b"]);
    let first = paths(&["/w/a/1", "/w/b/2"]);
    let second = paths(&["/w/b/3", "/w/a/4"]);
    let both = paths(&["/w/a/1", "/w/b/2", "/w/b/3", "/w/a/4"]);
    for root in &roots {
        let mut uris = group_paths_by_root(&first, &roots, None).get(root).unwrap().clone();
        uris.extend(group_paths_by_root(&second, &roots, None).get(root).unwrap().clone());
        assert_eq!(group_paths_by_root(&both, &roots, None).get(root).unwrap(), &uris);
    }
}

#[test]
fn percent_encoded_uris_lead_to_their_path() {
    let name = "a b%c/d\u{e9}";
    let encoded = percent_encoding::utf8_percent_encode(name, percent_encoding::NON_ALPHANUMERIC);
    let found = uri_to_path(&format!("file:///{}", encoded));
    assert_eq!(opt_text(found), Some(format!("/{}", name)));
}

#[test]
fn groups_stand_in_the_order_of_their_first_files() {
    let roots = paths(&["/a", "/b", "/c"]);
    let changed = paths(&["/c/1", "/a/2", "/x", "/c/3", "/b/4", "/a/5"]);
    let grouped = group_paths_by_root(&changed, &roots, None);
    let order: Vec<String> = grouped.groups().iter().map(|g| text(&g.root)).collect();
    assert_eq!(order, vec!["/c", "/a", "/b"]);
    let with_default = group_paths_by_root(&changed, &roots, Some(&path("/d")));
    let order: Vec<String> = with_default.groups().iter().map(|g| text(&g.root)).collect();
    assert_eq!(order, vec!["/c", "/a", "/d", "/b"]);
}
