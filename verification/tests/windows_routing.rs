use ace_proxy::path::FilePath;
use ace_proxy::uri::{path_to_uri, uri_to_windows_path};
use ace_proxy::windows_routing::{
    determine_root_windows, find_git_root_windows, group_paths_by_root_windows, WindowsDir,
    WindowsGitRootCache, WindowsLocation,
};
use std::cell::Cell;

fn path(text: &str) -> FilePath {
    FilePath::from_text(text)
}

fn paths(texts: &[&str]) -> Vec<FilePath> {
    texts.iter().map(|text| path(text)).collect()
}

fn text(path: &FilePath) -> String {
    String::from_utf8(path.bytes.clone()).unwrap()
}

fn opt_text(path: Option<FilePath>) -> Option<String> {
    path.map(|path| text(&path))
}

fn dir(names: &[&str]) -> WindowsDir {
    let joined = names.join("\\");
    WindowsDir {
        path: path(&joined),
        parts: names.iter().map(|name| name.as_bytes().to_vec()).collect(),
        marker: path(&format!("{}\\.git", joined)),
    }
}

// Reads plain paths on a drive, and upper-cases the drive letter among the components.
fn read(p: &FilePath) -> WindowsLocation {
    let whole = text(p);
    let names: Vec<&str> = whole.split('\\').filter(|name| !name.is_empty()).collect();
    let mut chain: Vec<WindowsDir> = (1..=names.len()).rev().map(|n| dir(&names[..n])).collect();
    for dir in &mut chain {
        dir.parts[0] = dir.parts[0].to_ascii_uppercase();
    }
    let own = chain.remove(0);
    WindowsLocation { own, above: chain }
}

fn no(_: &FilePath) -> bool {
    false
}

#[test]
fn git_root_is_the_nearest_marked_directory_on_windows() {
    let marked = |p: &FilePath| text(p) == "C:\\w\\repo\\.git" || text(p) == "C:\\.git";
    let file = |p: &FilePath| text(p).ends_with(".rs");
    let find = |p: &str| opt_text(find_git_root_windows(&read(&path(p)), &file, &marked));
    assert_eq!(find("C:\\w\\repo\\src\\main.rs"), Some("C:\\w\\repo".to_string()));
    assert_eq!(find("C:\\w\\repo"), Some("C:\\w\\repo".to_string()));
    assert_eq!(find("C:\\w"), Some("C:".to_string()));
    assert_eq!(find("D:\\w"), None);
    let everything = |_: &FilePath| true;
    assert!(find_git_root_windows(&read(&path("x.rs")), &everything, &everything).is_none());
}

#[test]
fn cache_asks_once_per_directory_on_windows() {
    let asked = Cell::new(0u32);
    let marked = |p: &FilePath| {
        asked.set(asked.get() + 1);
        text(p) == "C:\\repo\\.git"
    };
    let file = |p: &FilePath| text(p).ends_with(".rs");
    let mut cache = WindowsGitRootCache::new();
    let mut find =
        |p: &str| opt_text(cache.find_git_root_cached(&read(&path(p)), &file, &marked));
    assert_eq!(find("C:\\repo\\src\\a.rs"), Some("C:\\repo".to_string()));
    let once = asked.get();
    assert_eq!(find("C:\\repo\\src\\b.rs"), Some("C:\\repo".to_string()));
    assert_eq!(find("c:\\repo\\src"), Some("C:\\repo".to_string()));
    assert_eq!(asked.get(), once);
    assert_eq!(find("D:\\x"), None);
    assert!(asked.get() > once);
}

#[test]
fn routing_order_on_windows() {
    let roots = paths(&["C:\\w", "C:\\w\\a", "D:\\second"]);
    let fallback = path("D:\\default");
    let marked = |p: &FilePath| text(p) == "E:\\repo\\.git";
    let mut cache = WindowsGitRootCache::new();
    let mut route = |default_root: Option<&FilePath>, uri: Option<&str>| {
        opt_text(determine_root_windows(
            &roots,
            default_root,
            &mut cache,
            uri,
            &read,
            &no,
            &marked,
        ))
    };
    assert_eq!(route(None, Some("file:///c:/w/a/x.rs")), Some("C:\\w\\a".to_string()));
    assert_eq!(route(None, Some("file:///C:/w/ab")), Some("C:\\w".to_string()));
    assert_eq!(route(Some(&fallback), Some("file:///E:/repo/x")), Some("E:\\repo".to_string()));
    assert_eq!(route(Some(&fallback), Some("file:///F:/x")), Some("D:\\default".to_string()));
    assert_eq!(route(None, Some("file:///F:/x")), Some("C:\\w".to_string()));
    assert_eq!(route(Some(&fallback), Some("https://x")), Some("D:\\default".to_string()));
    assert_eq!(route(None, None), Some("C:\\w".to_string()));
    let mut other = WindowsGitRootCache::new();
    let none = determine_root_windows(&Vec::new(), None, &mut other, None, &read, &no, &no);
    assert!(none.is_none());
}

#[test]
fn changed_files_are_grouped_on_windows() {
    let roots = paths(&["C:\\a", "C:\\b"]);
    let changed = paths(&["C:\\a\\1", "X:\\2", "c:\\b\\3", "C:\\a\\4"]);
    let grouped = group_paths_by_root_windows(&changed, &roots, None, &read);
    assert_eq!(grouped.len(), 2);
    let listed: Vec<(String, Vec<String>)> =
        grouped.groups().iter().map(|g| (text(&g.root), g.uris.clone())).collect();
    assert_eq!(
        listed,
        vec![
            ("C:\\a".to_string(), vec!["file:///C:/a/1".to_string(), "file:///C:/a/4".to_string()]),
            ("C:\\b".to_string(), vec!["file:///c:/b/3".to_string()]),
        ]
    );
    assert!(grouped.get_by_parts(&vec![b"C:".to_vec(), b"b".to_vec()]).is_some());
    assert!(grouped.get_by_parts(&vec![b"C:".to_vec(), b"c".to_vec()]).is_none());

    let with_default =
        group_paths_by_root_windows(&changed, &roots, Some(&path("c:\\a")), &read);
    assert_eq!(with_default.len(), 2);
    assert_eq!(with_default.groups()[0].uris.len(), 3);
}

#[test]
fn windows_cache_is_transparent_and_keeps_one_entry_per_directory() {
    let marked = |p: &FilePath| {
        text(p).eq_ignore_ascii_case("C:\\repo\\.git") || text(p) == "D:\\x\\y\\.git"
    };
    let file = |p: &FilePath| text(p).ends_with(".rs");
    let mut cache = WindowsGitRootCache::new();
    assert_eq!(cache.len(), 0);
    let looked_up = [
        ("C:\\repo\\src\\a.rs", 1),
        ("C:\\repo\\src\\b.rs", 1),
        ("c:\\repo\\src", 1),
        ("C:\\repo\\src\\deep", 2),
        ("D:\\x\\y\\z.rs", 3),
        ("D:\\x", 4),
        ("D:\\x\\y", 4),
        ("D:\\x", 4),
    ];
    for (p, entries) in looked_up {
        let place = read(&path(p));
        let cached = cache.find_git_root_cached(&place, &file, &marked);
        let direct = find_git_root_windows(&place, &file, &marked);
        assert_eq!(
            cached.map(|root| read(&root).own.parts),
            direct.map(|root| read(&root).own.parts)
        );
        assert_eq!(cache.len(), entries);
    }
}

#[test]
fn a_marked_file_on_top_shares_its_entry_on_windows() {
    let everything = |_: &FilePath| true;
    let mut cache = WindowsGitRootCache::new();
    assert!(cache.find_git_root_cached(&read(&path("C:")), &everything, &everything).is_none());
    assert!(cache.find_git_root_cached(&read(&path("C:\\f")), &everything, &everything).is_none());
    assert_eq!(
        opt_text(find_git_root_windows(&read(&path("C:\\f")), &everything, &everything)),
        Some("C:".to_string())
    );
}

#[test]
fn uri_leads_back_to_the_windows_path() {
    for p in ["C:\\w\\a b\\x.rs", "\\\\server\\share\\f", "C:\\gr\u{fc}n\\\u{4e2d}\u{1f600}", "rel", "50%"] {
        assert_eq!(opt_text(uri_to_windows_path(&path_to_uri(&path(p)))), Some(p.to_string()));
    }
    let leads_to = |p: &str| opt_text(uri_to_windows_path(&path_to_uri(&path(p)))).unwrap();
    assert_eq!(leads_to("C:/w"), "C:\\w");
    assert_eq!(leads_to("C:\\%41"), "C:\\A");
    assert_eq!(leads_to("\\C:\\w"), "C:\\w");
}

#[test]
fn single_and_batch_agree_on_windows() {
    let roots = paths(&["C:\\w", "C:\\w\\a", "D:\\second"]);
    for p in ["C:\\w\\a\\x.rs", "c:\\w\\ab", "D:\\second", "d:\\second\\deep\\y"] {
        let uri = path_to_uri(&path(p));
        let mut cache = WindowsGitRootCache::new();
        let single =
            determine_root_windows(&roots, None, &mut cache, Some(&uri), &read, &no, &no).unwrap();
        assert_eq!(cache.len(), 0);
        let batch = group_paths_by_root_windows(&paths(&["C:\\w\\1", p]), &roots, None, &read);
        let uris = batch.get_by_parts(&read(&single).own.parts).unwrap();
        assert!(uris.contains(&uri));
    }
}

#[test]
fn groups_stand_in_the_order_of_their_first_files_on_windows() {
    let roots = paths(&["C:\\a", "C:\\b", "C:\\c"]);
    let changed = paths(&["C:\\c\\1", "C:\\a\\2", "C:\\c\\3", "C:\\b\\4", "C:\\a\\5"]);
    let grouped = group_paths_by_root_windows(&changed, &roots, None, &read);
    let order: Vec<String> = grouped.groups().iter().map(|g| text(&g.root)).collect();
    assert_eq!(order, vec!["C:\\c", "C:\\a", "C:\\b"]);
}
