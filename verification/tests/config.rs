use ace_proxy::config::{Config, FileConfig, GivenOptions};
use ace_proxy::detect::{line_of, ToolOutput};
use ace_proxy::job_object::{win32_code, AssignOutcome, CreateOutcome, JobObject, LimitOutcome};
use ace_proxy::path::FilePath;
use ace_proxy::startup::{
    lock_path, lock_verdict, log_format, log_level, mutex_verdict, LockOutcome, LogFormat, LogLevel,
};
use ace_proxy::text::{parse_u64, trim, u64_to_text};
use ace_proxy::windows::{entry_of_version, mise_dir, names_auggie_install, windows_join, MiseInstall};
use std::cell::Cell;

fn path(text: &str) -> FilePath {
    FilePath::from_text(text)
}

fn text(path: &FilePath) -> String {
    String::from_utf8(path.bytes.clone()).unwrap()
}

fn opt_text(path: &Option<FilePath>) -> Option<String> {
    path.as_ref().map(text)
}

fn some(s: &str) -> Option<String> {
    Some(s.to_string())
}

fn printed(s: &str) -> Option<ToolOutput> {
    Some(ToolOutput { success: true, stdout: s.as_bytes().to_vec() })
}

fn everything(_: &FilePath) -> bool {
    true
}

fn nothing() -> Option<FilePath> {
    None
}

fn full_file() -> FileConfig {
    FileConfig {
        node: Some(path("/file/node")),
        auggie_entry: Some(path("/file/entry")),
        mode: some("minimal"),
        max_backends: Some(9),
        idle_ttl_seconds: Some(10),
        log_level: some("debug"),
        default_root: Some(path("/file/root")),
        debounce_ms: Some(11),
        cpu_affinity: Some(12),
        low_priority: Some(false),
        git_filter: Some(false),
    }
}

#[test]
fn defaults_are_those_of_the_command_line() {
    let config = Config::default();
    assert!(config.node.is_none() && config.auggie_entry.is_none() && config.default_root.is_none());
    assert_eq!(config.mode, "default");
    assert_eq!(config.max_backends, 3);
    assert_eq!(config.idle_ttl_seconds, 600);
    assert_eq!(config.log_level, "info");
    assert_eq!(config.spawn_timeout_seconds, 30);
    assert_eq!(config.request_timeout_seconds, 120);
    assert_eq!(config.max_inflight_global, 0);
    assert_eq!(config.debounce_ms, 500);
    assert_eq!(config.cpu_affinity, 0);
    assert!(config.low_priority && config.git_filter);
    assert!(!config.prewarm_default_root && !config.single_instance);
    assert_eq!(config.log_format, "text");
}

#[test]
fn file_fills_what_was_not_given() {
    let config = Config::default().with_auto_detect(
        &GivenOptions::default(),
        Some(full_file()),
        &everything,
        &nothing,
        &nothing,
    );
    assert_eq!(opt_text(&config.node), some("/file/node"));
    assert_eq!(opt_text(&config.auggie_entry), some("/file/entry"));
    assert_eq!(opt_text(&config.default_root), some("/file/root"));
    assert_eq!(config.mode, "minimal");
    assert_eq!(config.max_backends, 9);
    assert_eq!(config.idle_ttl_seconds, 10);
    assert_eq!(config.log_level, "debug");
    assert_eq!(config.debounce_ms, 11);
    assert_eq!(config.cpu_affinity, 12);
    assert!(!config.low_priority);
    assert!(!config.git_filter);
    assert_eq!(config.request_timeout_seconds, 120);
}

#[test]
fn values_other_than_the_defaults_are_kept() {
    let mut own = Config::default();
    own.node = Some(path("/own/node"));
    own.auggie_entry = Some(path("/own/entry"));
    own.default_root = Some(path("/own/root"));
    own.mode = "own".to_string();
    own.max_backends = 1;
    own.idle_ttl_seconds = 2;
    own.log_level = "trace".to_string();
    own.debounce_ms = 4;
    own.cpu_affinity = 5;
    own.low_priority = false;
    own.git_filter = false;
    let mut file = full_file();
    file.low_priority = Some(true);
    file.git_filter = Some(true);
    let config = own.merge_file_config(&GivenOptions::default(), file);
    assert!(!config.low_priority && !config.git_filter);
    assert_eq!(opt_text(&config.node), some("/own/node"));
    assert_eq!(opt_text(&config.auggie_entry), some("/own/entry"));
    assert_eq!(opt_text(&config.default_root), some("/own/root"));
    assert_eq!(config.mode, "own");
    assert_eq!(config.max_backends, 1);
    assert_eq!(config.idle_ttl_seconds, 2);
    assert_eq!(config.log_level, "trace");
    assert_eq!(config.debounce_ms, 4);
    assert_eq!(config.cpu_affinity, 5);
}

#[test]
fn given_options_are_kept_even_if_they_are_the_defaults() {
    let given = GivenOptions {
        mode: true,
        max_backends: true,
        idle_ttl_seconds: true,
        log_level: true,
        debounce_ms: true,
        cpu_affinity: true,
        low_priority: true,
        git_filter: true,
    };
    let config = Config::default().merge_file_config(&given, full_file());
    assert_eq!(config.mode, "default");
    assert_eq!(config.max_backends, 3);
    assert_eq!(config.idle_ttl_seconds, 600);
    assert_eq!(config.log_level, "info");
    assert_eq!(config.debounce_ms, 500);
    assert_eq!(config.cpu_affinity, 0);
    assert!(config.low_priority && config.git_filter);
    assert_eq!(opt_text(&config.node), some("/file/node"));
}

#[test]
fn silent_file_changes_nothing() {
    let config = Config::default().merge_file_config(&GivenOptions::default(), FileConfig::default());
    assert_eq!(config.mode, "default");
    assert_eq!(config.max_backends, 3);
    assert!(config.low_priority && config.git_filter);
    assert!(config.node.is_none());
}

#[test]
fn merging_twice_changes_nothing() {
    let once = Config::default().merge_file_config(&GivenOptions::default(), full_file());
    let twice = once.clone().merge_file_config(&GivenOptions::default(), full_file());
    assert_eq!(once.mode, twice.mode);
    assert_eq!(once.max_backends, twice.max_backends);
    assert_eq!(once.low_priority, twice.low_priority);
    assert_eq!(opt_text(&once.node), opt_text(&twice.node));
}

#[test]
fn missing_tools_are_detected() {
    let searches = Cell::new(0u32);
    let find_node = || {
        searches.set(searches.get() + 1);
        Some(path("/found/node"))
    };
    let mut own = Config::default();
    own.node = Some(path("/gone/node"));
    own.auggie_entry = Some(path("/here/entry"));
    own.default_root = Some(path("/gone/root"));
    let present = |p: &FilePath| text(p).starts_with("/here");
    let config = own.with_auto_detect(&GivenOptions::default(), None, &present, &find_node, &nothing);
    assert_eq!(opt_text(&config.node), some("/found/node"));
    assert_eq!(opt_text(&config.auggie_entry), some("/here/entry"));
    assert_eq!(opt_text(&config.default_root), some("/gone/root"));
    assert_eq!(searches.get(), 1);

    let config = Config::default().with_auto_detect(
        &GivenOptions::default(),
        None,
        &present,
        &nothing,
        &nothing,
    );
    assert!(config.node.is_none() && config.auggie_entry.is_none());
}

#[test]
fn configuration_file_is_looked_for_in_order() {
    let candidates = Config::get_config_file_candidates(
        Some(&path("/opt/bin/proxy")),
        Some(&path("/cwd")),
        Some("/home/me"),
    );
    let listed: Vec<String> = candidates.iter().map(text).collect();
    assert_eq!(
        listed,
        vec![
            "/opt/bin/mcp-proxy.json",
            "/cwd/mcp-proxy.json",
            "/home/me/.config/mcp-proxy.json",
            "/home/me/.mcp-proxy.json",
        ]
    );
    assert!(Config::get_config_file_candidates(None, None, None).is_empty());
    assert!(Config::get_config_file_candidates(Some(&path("/")), None, None).is_empty());
}

#[test]
fn first_readable_configuration_file_counts() {
    let candidates = vec![path("/absent"), path("/broken"), path("/good"), path("/other")];
    let present = |p: &FilePath| text(p) != "/absent";
    let load = |p: &FilePath| {
        let mut file = FileConfig::default();
        file.mode = Some(text(p));
        if text(p) == "/broken" {
            None
        } else {
            Some(file)
        }
    };
    let found = Config::load_config_file(&candidates, &present, &load);
    assert_eq!(found.unwrap().mode, some("/good"));
    let none = |_: &FilePath| -> Option<FileConfig> { None };
    assert!(Config::load_config_file(&candidates, &present, &none).is_none());
}

#[test]
fn node_is_what_the_search_printed() {
    let found = Config::detect_node_path(printed("/usr/bin/node\n"));
    assert_eq!(opt_text(&found), some("/usr/bin/node"));
    assert_eq!(opt_text(&Config::detect_node_path(printed(""))), some(""));
    assert!(Config::detect_node_path(None).is_none());
    let failed = Some(ToolOutput { success: false, stdout: b"/usr/bin/node".to_vec() });
    assert!(Config::detect_node_path(failed).is_none());
    let odd = Some(ToolOutput { success: true, stdout: vec![0xff] });
    assert!(Config::detect_node_path(odd).is_none());
}

#[test]
fn entry_is_the_first_candidate_that_exists() {
    let second = |p: &FilePath| text(p) == "/lib/@augmentcode/auggie/augment.mjs";
    let found = Config::detect_auggie_entry(printed("/lib\n"), &second);
    assert_eq!(opt_text(&found), some("/lib/@augmentcode/auggie/augment.mjs"));
    let found = Config::detect_auggie_entry(printed("/lib\n"), &everything);
    assert_eq!(opt_text(&found), some("/lib/augmentcode/auggie/augment.mjs"));
    assert!(Config::detect_auggie_entry(printed("/lib"), &|_: &FilePath| false).is_none());
    assert!(Config::detect_auggie_entry(None, &everything).is_none());
}

#[test]
fn windows_paths_are_joined_with_backslashes() {
    assert_eq!(windows_join("C:\\a", "b"), "C:\\a\\b");
    assert_eq!(windows_join("C:\\a\\", "b"), "C:\\a\\b");
    assert_eq!(windows_join("a/", "b"), "a/b");
    assert_eq!(windows_join("", "b"), "b");
    assert_eq!(windows_join("C:", "b"), "C:b");
    assert_eq!(windows_join("1:", "b"), "1:\\b");
    assert_eq!(windows_join("\\\\?\\C:\\a/", "b"), "\\\\?\\C:\\a/\\b");
    assert_eq!(windows_join("\\\\?\\C:\\a\\\\x\\", "b"), "\\\\?\\C:\\a\\x\\b");
    assert_eq!(windows_join("\\\\?\\C:", "b"), "\\\\?\\C:\\b");
    assert_eq!(windows_join("\\\\?\\C:/a", "b"), "\\\\?\\C:\\a\\b");
    assert_eq!(windows_join("\\\\?\\UNC\\srv\\shr", "b"), "\\\\?\\UNC\\srv\\shr\\b");
    assert_eq!(windows_join("\\\\?\\pipe\\x\\", "b"), "\\\\?\\pipe\\x\\b");
    assert_eq!(windows_join("\\\\srv\\shr", "b"), "\\\\srv\\shr\\b");
    assert_eq!(
        Config::get_config_file_candidates_windows(Some("C:\\bin"), Some("D:\\cwd"), Some("C:\\me")),
        vec![
            "C:\\bin\\mcp-proxy.json",
            "D:\\cwd\\mcp-proxy.json",
            "C:\\me\\.config\\mcp-proxy.json",
            "C:\\me\\mcp-proxy.json",
        ]
    );
}

#[test]
fn windows_node_is_at_a_usual_place_or_in_the_path() {
    let x86 = |p: &FilePath| text(p).contains("(x86)");
    let none = |_: &FilePath| false;
    let found = Config::detect_node_path_windows(printed("D:\\node.exe\r\nE:\\node.exe\r\n"), &x86);
    assert_eq!(opt_text(&found), some("C:\\Program Files (x86)\\nodejs\\node.exe"));
    let found = Config::detect_node_path_windows(printed("D:\\node.exe\r\nE:\\node.exe\r\n"), &none);
    assert_eq!(opt_text(&found), some("D:\\node.exe"));
    assert!(Config::detect_node_path_windows(printed(""), &none).is_none());
    assert!(Config::detect_node_path_windows(None, &none).is_none());
    assert_eq!(opt_text(&Config::detect_node_path_windows(printed("\n"), &none)), some(""));
    assert_eq!(line_of("one\ntwo"), "one");
    assert_eq!(line_of("one"), "one");
}

#[test]
fn windows_entry_candidates_come_in_order() {
    let asked = Cell::new(Vec::<String>::new());
    let present = |p: &FilePath| {
        let mut list = asked.take();
        list.push(text(p));
        asked.set(list);
        text(p).contains("2.0")
    };
    let none = |p: &FilePath| {
        present(p);
        false
    };
    let installs = || {
        vec![
            MiseInstall { name: "node".to_string(), versions: vec!["M:\\node\\1".to_string()] },
            MiseInstall {
                name: "npm-augmentcode-auggie".to_string(),
                versions: vec!["M:\\auggie\\1.0".to_string(), "M:\\auggie\\2.0".to_string()],
            },
        ]
    };
    let found = Config::detect_auggie_entry_windows(
        Some("R:"),
        Some("L:"),
        &installs(),
        printed("N:\\root\r\n"),
        printed("P:\\prefix\r\n"),
        &present,
    );
    assert_eq!(
        opt_text(&found),
        some("M:\\auggie\\2.0\\node_modules\\@augmentcode\\auggie\\augment.mjs")
    );
    asked.set(Vec::new());
    let found = Config::detect_auggie_entry_windows(
        Some("R:"),
        Some("L:"),
        &installs(),
        printed("N:\\root\r\n"),
        printed("P:\\prefix\r\n"),
        &none,
    );
    assert!(found.is_none());
    let list = asked.take();
    assert_eq!(list.len(), 2 + 4 + 2 + 3 + 12);
    assert_eq!(
        list[2..11].to_vec(),
        vec![
            "R:\\npm\\node_modules\\@augmentcode\\auggie\\augment.mjs",
            "R:\\npm\\node_modules\\@augmentcode\\auggie\\dist\\cli.js",
            "L:\\pnpm\\global\\5\\node_modules\\@augmentcode\\auggie\\augment.mjs",
            "L:\\Yarn\\Data\\global\\node_modules\\@augmentcode\\auggie\\augment.mjs",
            "N:\\root\\@augmentcode\\auggie\\augment.mjs",
            "N:\\root\\@augmentcode\\auggie\\dist\\cli.js",
            "P:\\prefix\\node_modules\\@augmentcode\\auggie\\augment.mjs",
            "P:\\prefix\\node_modules\\@augmentcode\\auggie\\dist\\cli.js",
            "P:\\prefix\\node_global\\node_modules\\@augmentcode\\auggie\\augment.mjs",
        ]
    );
    assert_eq!(
        list[11..14].to_vec(),
        vec![
            "C:\\nodejs\\node_global\\node_modules\\@augmentcode\\auggie\\augment.mjs",
            "C:\\nodejs\\node_modules\\@augmentcode\\auggie\\augment.mjs",
            "C:\\Program Files\\nodejs\\node_global\\node_modules\\@augmentcode\\auggie\\augment.mjs",
        ]
    );
    assert!(list[20].starts_with("F:\\nodejs"));
}

#[test]
fn version_manager_directories_are_known_by_name() {
    assert!(names_auggie_install("npm-augmentcode-auggie"));
    assert!(names_auggie_install("npm-augmentcode-auggie-x"));
    assert!(!names_auggie_install("npm-augmentcode-augg"));
    assert!(!names_auggie_install("x-npm-augmentcode-auggie"));
    assert_eq!(mise_dir("C:\\Local"), "C:\\Local\\mise\\installs");
    assert_eq!(entry_of_version("V"), "V\\node_modules\\@augmentcode\\auggie\\augment.mjs");
}

#[test]
fn log_settings_are_read_by_name() {
    assert_eq!(log_level("trace"), LogLevel::Trace);
    assert_eq!(log_level("debug"), LogLevel::Debug);
    assert_eq!(log_level("info"), LogLevel::Info);
    assert_eq!(log_level("warn"), LogLevel::Warn);
    assert_eq!(log_level("error"), LogLevel::Error);
    assert_eq!(log_level("ERROR"), LogLevel::Info);
    assert_eq!(log_level(""), LogLevel::Info);
    assert_eq!(log_format("json"), LogFormat::Json);
    assert_eq!(log_format("text"), LogFormat::Text);
    assert_eq!(log_format("JSON"), LogFormat::Text);
}

#[test]
fn single_instance_lock() {
    assert_eq!(text(&lock_path(Some("/home/me"))), "/home/me/.mcp-proxy.lock");
    assert_eq!(text(&lock_path(None)), "/tmp/mcp-proxy.lock");
    let at = path("/home/me/.mcp-proxy.lock");
    assert_eq!(lock_verdict(LockOutcome::Acquired, &at), Ok(()));
    assert_eq!(
        lock_verdict(LockOutcome::WouldBlock, &at),
        Err("mcp-proxy is already running (lock file: /home/me/.mcp-proxy.lock)".to_string())
    );
    assert_eq!(
        lock_verdict(LockOutcome::Failed("denied".to_string()), &at),
        Err("Failed to acquire lock: denied".to_string())
    );
    assert_eq!(mutex_verdict(false), Ok(()));
    assert_eq!(
        mutex_verdict(true),
        Err("mcp-proxy is already running (Global\\mcp_proxy_lock exists)".to_string())
    );
}

#[test]
fn job_object_outcomes() {
    let job = match JobObject::new(CreateOutcome::Valid(4u32)) {
        Ok(job) => job,
        Err(_) => panic!("the job object is created"),
    };
    assert_eq!(job.handle, 4);
    let invalid: Result<JobObject<u32>, _> = JobObject::new(CreateOutcome::Invalid);
    assert_eq!(invalid.err().unwrap().message(), "CreateJobObjectW returned invalid handle");
    let failed: Result<JobObject<u32>, _> = JobObject::new(CreateOutcome::Failed("e".to_string()));
    assert_eq!(failed.err().unwrap().message(), "CreateJobObjectW failed: e");

    let assign = |outcome: AssignOutcome| {
        job.assign_process_by_pid(12, outcome).err().map(|e| e.message().clone())
    };
    assert_eq!(assign(AssignOutcome::Assigned), None);
    assert_eq!(
        assign(AssignOutcome::NotOpened("x".to_string())),
        some("OpenProcess failed for PID 12: x")
    );
    assert_eq!(
        assign(AssignOutcome::InvalidHandle),
        some("OpenProcess returned invalid handle for PID 12")
    );
    assert_eq!(
        assign(AssignOutcome::Refused { code: 5, reason: "x".to_string() }),
        some("AssignProcessToJobObject failed for PID 12 (process may already be in a job): x")
    );
    assert_eq!(
        assign(AssignOutcome::Refused { code: 6, reason: "x".to_string() }),
        some("AssignProcessToJobObject failed for PID 12: x")
    );

    let failed = match job.set_up(LimitOutcome::Failed("y".to_string())) {
        Ok(_) => panic!("the job object cannot be set up"),
        Err(failed) => failed,
    };
    assert_eq!(failed.close, 4);
    assert_eq!(failed.error.message(), "SetInformationJobObject failed: y");
    assert!(JobObject { handle: 1u8 }.set_up(LimitOutcome::Limited).is_ok());
}

#[test]
fn numbers_and_white_space() {
    for n in [0u64, 7, 10, 120, 999, 1_000_000, u64::MAX] {
        assert_eq!(u64_to_text(n), n.to_string());
        assert_eq!(parse_u64(&u64_to_text(n)), Some(n));
    }
    for c in (0..0x11_0000u32).filter_map(char::from_u32) {
        let sample = format!("{}x{}", c, c);
        if c.is_whitespace() {
            assert_eq!(trim(&sample), "x");
        } else if c < '\u{3100}' {
            assert_eq!(trim(&sample), sample);
        }
    }
    assert_eq!(trim("  a b\t"), "a b");
    assert_eq!(trim(" \n"), "");
}

#[test]
fn completing_twice_changes_nothing() {
    let present = |p: &FilePath| text(p).starts_with("/here") || text(p).starts_with("/file");
    let find_node = || Some(path("/gone/found"));
    for own_node in [None, Some("/here/node"), Some("/gone/node")] {
        let complete = |config: Config| {
            config.with_auto_detect(
                &GivenOptions::default(),
                Some(full_file()),
                &present,
                &find_node,
                &nothing,
            )
        };
        let mut own = Config::default();
        own.node = own_node.map(path);
        let once = complete(own);
        let node = opt_text(&once.node);
        let entry = opt_text(&once.auggie_entry);
        let root = opt_text(&once.default_root);
        let rest = (once.mode.clone(), once.max_backends, once.debounce_ms, once.low_priority);
        let twice = complete(once);
        assert_eq!(opt_text(&twice.node), node);
        assert_eq!(opt_text(&twice.auggie_entry), entry);
        assert_eq!(opt_text(&twice.default_root), root);
        assert_eq!((twice.mode, twice.max_backends, twice.debounce_ms, twice.low_priority), rest);
    }
}

#[test]
fn own_path_that_is_gone_hides_the_path_of_the_file_once() {
    let present = |p: &FilePath| text(p).starts_with("/file");
    let complete = |config: Config| {
        config.with_auto_detect(
            &GivenOptions::default(),
            Some(full_file()),
            &present,
            &nothing,
            &nothing,
        )
    };
    let mut own = Config::default();
    own.node = Some(path("/gone/node"));
    let once = complete(own);
    assert!(once.node.is_none());
    assert_eq!(opt_text(&complete(once).node), some("/file/node"));
}

#[test]
fn system_codes_are_taken_out_of_their_wrapping() {
    assert_eq!(win32_code(0x8007_0005), 5);
    assert_eq!(win32_code(0x8007_0057), 0x57);
    assert_eq!(win32_code(0x8000_4005), 0x8000_4005);
    assert_eq!(win32_code(5), 5);
}
