use ace_proxy::path::FilePath;
use ace_proxy::routing::{group_paths_by_root, GitRootCache, RootTable};
use ace_proxy::uri::uri_to_path;
use percent_encoding::{utf8_percent_encode, NON_ALPHANUMERIC};
use std::cell::Cell;
use std::collections::HashSet;
use std::time::{Duration, Instant};

fn path(text: &str) -> FilePath {
    FilePath::from_text(text)
}

fn text(path: &FilePath) -> String {
    String::from_utf8(path.bytes.clone()).unwrap()
}

/// Runs `work` on each of `total` numbers and tells how many it did per second.
fn rate_of(total: usize, mut work: impl FnMut(usize)) -> f64 {
    let began = Instant::now();
    for i in 0..total {
        work(i);
    }
    total as f64 / began.elapsed().as_secs_f64()
}

#[test]
fn stress_routing_longest_prefix_match() {
    const NUM_ROOTS: usize = 20;
    const NUM_LOOKUPS: usize = 100_000;

    let roots: Vec<FilePath> =
        (0..NUM_ROOTS).map(|i| path(&format!("/workspace/project_{}/src", i))).collect();
    let lookup_paths: Vec<FilePath> = (0..NUM_LOOKUPS)
        .map(|i| {
            let root_idx = i % NUM_ROOTS;
            path(&format!("/workspace/project_{}/src/module/deep/path/file_{}.rs", root_idx, i))
        })
        .collect();

    let mut match_count = 0;
    let table = RootTable::new(&roots);
    let rate = rate_of(NUM_LOOKUPS, |i| {
        if table.longest_match(&lookup_paths[i]).is_some() {
            match_count += 1;
        }
    });

    println!("=== Routing Longest Prefix Match ===");
    println!("  Matched: {}/{}", match_count, NUM_LOOKUPS);
    println!("  Throughput: {:.0} lookups/sec", rate);
    assert_eq!(match_count, NUM_LOOKUPS, "All paths should match a root");
    assert!(rate > 100_000.0, "Routing too slow: {:.0} lookups/sec", rate);
}

#[test]
fn stress_git_root_cache_hit_rate() {
    const NUM_LOOKUPS: usize = 100_000;
    const UNIQUE_DIRS: usize = 500;

    let mut cache = GitRootCache::new();
    let asked = Cell::new(false);
    let none = |_: &FilePath| false;
    let present = |p: &FilePath| {
        asked.set(true);
        text(p) == "/workspace/project/.git"
    };
    let mut hit_count = 0u64;
    let mut miss_count = 0u64;
    let start = Instant::now();
    for i in 0..NUM_LOOKUPS {
        let dir_idx = i % UNIQUE_DIRS;
        let dir = path(&format!("/workspace/project/src/module_{}", dir_idx));
        asked.set(false);
        let found = cache.find_git_root_cached(&dir, &none, &present);
        assert_eq!(text(&found.unwrap()), "/workspace/project");
        if asked.get() {
            miss_count += 1;
        } else {
            hit_count += 1;
        }
    }
    let elapsed = start.elapsed();
    let hit_rate = hit_count as f64 / NUM_LOOKUPS as f64 * 100.0;
    println!("=== Git Root Cache ===");
    println!("  Hits: {} ({:.1}%), Misses: {}", hit_count, hit_rate, miss_count);
    println!("  Elapsed: {:.2}ms", elapsed.as_secs_f64() * 1000.0);
    assert_eq!(miss_count as usize, UNIQUE_DIRS, "Should miss exactly once per unique dir");
    assert!(hit_rate > 99.0, "Cache hit rate too low: {:.1}%", hit_rate);
}

#[test]
fn stress_uri_to_path_parsing() {
    const NUM_URIS: usize = 100_000;

    let uris: Vec<String> = (0..NUM_URIS)
        .map(|i| {
            let path =
                format!("C:/Users/dev/workspace/project/src/module_{}/file_{}.rs", i % 100, i);
            format!("file:///{}", utf8_percent_encode(&path, NON_ALPHANUMERIC))
        })
        .collect();
    let mut success_count = 0;
    let rate = rate_of(NUM_URIS, |i| {
        if uri_to_path(&uris[i]).is_some() {
            success_count += 1;
        }
    });
    println!("=== URI to Path Parsing ===");
    println!("  Success: {}/{}", success_count, NUM_URIS);
    println!("  Throughput: {:.0} ops/sec", rate);
    assert_eq!(success_count, NUM_URIS);
    assert!(rate > 100_000.0, "URI parsing too slow: {:.0} ops/sec", rate);
}

#[test]
fn stress_path_grouping_by_root() {
    const NUM_ROOTS: usize = 10;
    const NUM_PATHS: usize = 50_000;

    let roots: Vec<FilePath> =
        (0..NUM_ROOTS).map(|i| path(&format!("/workspace/project_{}", i))).collect();
    let paths: Vec<FilePath> = (0..NUM_PATHS)
        .map(|i| {
            let root_idx = i % NUM_ROOTS;
            path(&format!("/workspace/project_{}/src/file_{}.rs", root_idx, i))
        })
        .collect();
    let start = Instant::now();
    let paths_by_root = group_paths_by_root(&paths, &roots, None);
    let elapsed = start.elapsed();
    let rate = NUM_PATHS as f64 / elapsed.as_secs_f64();
    println!("=== Path Grouping by Root ===");
    println!("  {} paths grouped into {} roots", NUM_PATHS, paths_by_root.len());
    for group in paths_by_root.groups() {
        println!("    {}: {} uris", text(&group.root), group.uris.len());
    }
    println!("  Throughput: {:.0} paths/sec", rate);
    assert_eq!(paths_by_root.len(), NUM_ROOTS);
    assert!(rate > 100_000.0, "Path grouping too slow: {:.0} paths/sec", rate);
}

#[test]
fn extreme_routing_deep_prefixes() {
    const NUM_LOOKUPS: usize = 500_000;

    let roots: Vec<FilePath> = (1..=20)
        .map(|depth| {
            let mut p = path("/workspace");
            for d in 0..depth {
                p = p.join(&format!("level_{}", d));
            }
            p
        })
        .collect();
    let deepest = &roots[roots.len() - 1];
    let table = RootTable::new(&roots);
    let mut correct = 0usize;
    let rate = rate_of(NUM_LOOKUPS, |i| {
        let lookup = deepest.join(&format!("file_{}.rs", i));
        let matched = table.longest_match(&lookup);
        if matched.map(|k| &roots[k].bytes) == Some(&deepest.bytes) {
            correct += 1;
        }
    });
    println!("=== Routing: Overlapping Deep Prefixes ===");
    println!("  {} nested roots, {} lookups", roots.len(), NUM_LOOKUPS);
    println!("  Correct:    {}/{}", correct, NUM_LOOKUPS);
    println!("  Throughput: {:.0} lookups/sec", rate);
    assert_eq!(correct, NUM_LOOKUPS);
    assert!(rate > 100_000.0, "Routing too slow: {:.0}/sec", rate);
}

#[test]
fn extreme_git_cache_100k_keys() {
    const NUM_DIRS: usize = 100_000;
    let mut cache = GitRootCache::new();
    let none = |_: &FilePath| false;
    let asked = Cell::new(false);
    let present = |p: &FilePath| {
        asked.set(true);
        let marker = text(p);
        marker.starts_with("/workspace/project_") && marker.matches('/').count() == 3
    };
    let dir = |i: usize| {
        path(&format!(
            "/workspace/project_{}/src/module_{}/submodule_{}/deep/path",
            i / 10_000,
            (i / 100) % 100,
            i % 100
        ))
    };
    let start = Instant::now();
    let mut filled = 0usize;
    for i in 0..NUM_DIRS {
        asked.set(false);
        let root = cache.find_git_root_cached(&dir(i), &none, &present);
        assert_eq!(text(&root.unwrap()), format!("/workspace/project_{}", i / 10_000));
        if asked.get() {
            filled += 1;
        }
    }
    let fill_elapsed = start.elapsed();

    let mut hits = 0u64;
    let lookup_rate = rate_of(1_000_000, |i| {
        asked.set(false);
        let root = cache.find_git_root_cached(&dir(i % NUM_DIRS), &none, &present);
        if root.is_some() && !asked.get() {
            hits += 1;
        }
    });
    println!("=== Git Cache: 100K Keys + 1M Lookups ===");
    println!("  Fill:    {} entries in {:.0}ms", filled, fill_elapsed.as_millis());
    println!("  Lookups: {:.0}/sec", lookup_rate);
    println!("  Hits:    {}", hits);
    assert_eq!(filled, NUM_DIRS);
    assert_eq!(cache.len(), NUM_DIRS);
    assert_eq!(hits, 1_000_000);
    assert!(lookup_rate > 1_000_000.0, "Cache lookup too slow: {:.0}/sec", lookup_rate);
}

#[test]
fn extreme_path_grouping_100k() {
    const NUM_ROOTS: usize = 50;
    const NUM_PATHS: usize = 100_000;

    let roots: Vec<FilePath> = (0..NUM_ROOTS)
        .map(|i| path(&format!("/workspace/org_{}/project_{}", i / 10, i)))
        .collect();
    let paths: Vec<FilePath> = (0..NUM_PATHS)
        .map(|i| {
            let r = i % NUM_ROOTS;
            path(&format!("/workspace/org_{}/project_{}/src/deep/file_{}.rs", r / 10, r, i))
        })
        .collect();
    let start = Instant::now();
    let groups = group_paths_by_root(&paths, &roots, None);
    let elapsed = start.elapsed();
    let rate = NUM_PATHS as f64 / elapsed.as_secs_f64();
    let total_uris: usize = groups.groups().iter().map(|g| g.uris.len()).sum();
    println!("=== Path Grouping: 100K x 50 Roots ===");
    println!("  Groups:     {}", groups.len());
    println!("  Total URIs: {}", total_uris);
    println!("  Throughput: {:.0} paths/sec", rate);
    assert_eq!(groups.len(), NUM_ROOTS);
    assert_eq!(total_uris, NUM_PATHS);
}

fn request_json(id: i64, method: &str) -> serde_json::Value {
    let mut params = serde_json::Map::new();
    params.insert("uri".to_string(), format!("file:///w/p/s/f_{}.rs", id).into());
    let mut request = serde_json::Map::new();
    request.insert("jsonrpc".to_string(), "2.0".into());
    request.insert("id".to_string(), id.into());
    request.insert("method".to_string(), method.into());
    request.insert("params".to_string(), serde_json::Value::Object(params));
    serde_json::Value::Object(request)
}

#[test]
fn extreme_sustained_endurance() {
    const DURATION_SECS: u64 = 5;
    const BATCH_SIZE: usize = 10_000;

    let deadline = Instant::now() + Duration::from_secs(DURATION_SECS);
    let mut total_ops = 0u64;
    let mut batch_times = Vec::new();
    let roots: Vec<FilePath> =
        (0..20).map(|i| path(&format!("/workspace/project_{}", i))).collect();
    let table = RootTable::new(&roots);
    let mut cache = GitRootCache::new();
    let none = |_: &FilePath| false;
    let present = |p: &FilePath| text(p).matches('/').count() == 3;
    let mut throttle_set: HashSet<Vec<u8>> = HashSet::new();

    while Instant::now() < deadline {
        let batch_start = Instant::now();
        for i in 0..BATCH_SIZE {
            let idx = (total_ops as usize + i) % 20;
            let request = request_json(total_ops as i64 + i as i64, "tools/call");
            let json = serde_json::to_string(&request).unwrap();
            let parsed: serde_json::Value = serde_json::from_str(&json).unwrap();
            assert_eq!(parsed, request);

            let lookup = roots[idx].join(&format!("src/file_{}.rs", i));
            assert_eq!(table.longest_match(&lookup), Some(idx));
            let root = cache.find_git_root_cached(&roots[idx].join("src"), &none, &present);
            assert_eq!(root.unwrap().bytes, roots[idx].bytes);
            throttle_set.insert(lookup.bytes);
        }
        throttle_set.clear();
        batch_times.push(batch_start.elapsed());
        total_ops += BATCH_SIZE as u64;
    }

    let sum_ms: f64 = batch_times.iter().map(|d| d.as_secs_f64() * 1000.0).sum();
    let avg_batch_ms = sum_ms / batch_times.len() as f64;
    let max_batch_ms = batch_times.iter().map(|d| d.as_secs_f64() * 1000.0).fold(0.0f64, f64::max);
    println!("=== Sustained Endurance ({}s) ===", DURATION_SECS);
    println!("  Total ops:    {}", total_ops);
    let degradation_ratio = max_batch_ms / avg_batch_ms;
    println!("  Degradation:  {:.1}x (max/avg)", degradation_ratio);
    assert!(total_ops > 100_000, "Too few ops in {}s: {}", DURATION_SECS, total_ops);
    assert!(degradation_ratio < 5.0, "Degradation! {:.1}x", degradation_ratio);
}
