//! Configuration: what the command line, the environment and the configuration file say, and
//! what is found on the machine where they say nothing.

use crate::path::{clone_opt_path, opt_path_view, FilePath};
use crate::probe::{answered, asks_anything};
use crate::text::{opt_text_view, same_text};
use vstd::prelude::*;

verus! {

/// The configuration of the proxy.
pub struct Config {
    /// Path to the node executable.
    pub node: Option<FilePath>,
    /// Path to the entry script of the backend.
    pub auggie_entry: Option<FilePath>,
    /// Mode that backends run in.
    pub mode: String,
    /// Maximum number of backends.
    pub max_backends: usize,
    /// Seconds without use after which a backend is shut down.
    pub idle_ttl_seconds: u64,
    /// Log level: trace, debug, info, warn or error.
    pub log_level: String,
    /// Seconds that a backend may take to start.
    pub spawn_timeout_seconds: u64,
    /// Seconds that a backend may take to answer.
    pub request_timeout_seconds: u64,
    /// Maximum number of requests under way; 0 for no limit.
    pub max_inflight_global: usize,
    /// Root to use where no other is known.
    pub default_root: Option<FilePath>,
    /// Whether the backend of the default root is started ahead of the first request.
    pub prewarm_default_root: bool,
    /// Milliseconds over which events are gathered; 0 to pass each on at once.
    pub debounce_ms: u64,
    /// CPU affinity mask of backends; 0 for none.
    pub cpu_affinity: u64,
    /// Whether backends run at low priority.
    pub low_priority: bool,
    /// Whether only files known to git are indexed.
    pub git_filter: bool,
    /// Whether a second proxy refuses to start.
    pub single_instance: bool,
    /// Log format: text or json.
    pub log_format: String,
}

/// What a [`Config`] holds.
#[verifier::ext_equal]
pub struct ConfigView {
    pub node: Option<Seq<u8>>,
    pub auggie_entry: Option<Seq<u8>>,
    pub mode: Seq<char>,
    pub max_backends: usize,
    pub idle_ttl_seconds: u64,
    pub log_level: Seq<char>,
    pub spawn_timeout_seconds: u64,
    pub request_timeout_seconds: u64,
    pub max_inflight_global: usize,
    pub default_root: Option<Seq<u8>>,
    pub prewarm_default_root: bool,
    pub debounce_ms: u64,
    pub cpu_affinity: u64,
    pub low_priority: bool,
    pub git_filter: bool,
    pub single_instance: bool,
    pub log_format: Seq<char>,
}

impl View for Config {
    type V = ConfigView;

    open spec fn view(&self) -> ConfigView {
        ConfigView {
            node: opt_path_view(self.node),
            auggie_entry: opt_path_view(self.auggie_entry),
            mode: self.mode@,
            max_backends: self.max_backends,
            idle_ttl_seconds: self.idle_ttl_seconds,
            log_level: self.log_level@,
            spawn_timeout_seconds: self.spawn_timeout_seconds,
            request_timeout_seconds: self.request_timeout_seconds,
            max_inflight_global: self.max_inflight_global,
            default_root: opt_path_view(self.default_root),
            prewarm_default_root: self.prewarm_default_root,
            debounce_ms: self.debounce_ms,
            cpu_affinity: self.cpu_affinity,
            low_priority: self.low_priority,
            git_filter: self.git_filter,
            single_instance: self.single_instance,
            log_format: self.log_format@,
        }
    }
}

impl Clone for Config {
    fn clone(&self) -> (res: Self)
        ensures
            res@ == self@,
    {
        Config {
            node: clone_opt_path(&self.node),
            auggie_entry: clone_opt_path(&self.auggie_entry),
            mode: self.mode.clone(),
            max_backends: self.max_backends,
            idle_ttl_seconds: self.idle_ttl_seconds,
            log_level: self.log_level.clone(),
            spawn_timeout_seconds: self.spawn_timeout_seconds,
            request_timeout_seconds: self.request_timeout_seconds,
            max_inflight_global: self.max_inflight_global,
            default_root: clone_opt_path(&self.default_root),
            prewarm_default_root: self.prewarm_default_root,
            debounce_ms: self.debounce_ms,
            cpu_affinity: self.cpu_affinity,
            low_priority: self.low_priority,
            git_filter: self.git_filter,
            single_instance: self.single_instance,
            log_format: self.log_format.clone(),
        }
    }
}

/// The configuration where nothing is given.
pub open spec fn default_config() -> ConfigView {
    ConfigView {
        node: None,
        auggie_entry: None,
        mode: "default"@,
        max_backends: 3,
        idle_ttl_seconds: 600,
        log_level: "info"@,
        spawn_timeout_seconds: 30,
        request_timeout_seconds: 120,
        max_inflight_global: 0,
        default_root: None,
        prewarm_default_root: false,
        debounce_ms: 500,
        cpu_affinity: 0,
        low_priority: true,
        git_filter: true,
        single_instance: false,
        log_format: "text"@,
    }
}

impl Default for Config {
    fn default() -> (res: Self)
        ensures
            res@ == default_config(),
    {
        Config {
            node: None,
            auggie_entry: None,
            mode: "default".to_string(),
            max_backends: 3,
            idle_ttl_seconds: 600,
            log_level: "info".to_string(),
            spawn_timeout_seconds: 30,
            request_timeout_seconds: 120,
            max_inflight_global: 0,
            default_root: None,
            prewarm_default_root: false,
            debounce_ms: 500,
            cpu_affinity: 0,
            low_priority: true,
            git_filter: true,
            single_instance: false,
            log_format: "text".to_string(),
        }
    }
}

/// What a configuration file says.
pub struct FileConfig {
    pub node: Option<FilePath>,
    pub auggie_entry: Option<FilePath>,
    pub mode: Option<String>,
    pub max_backends: Option<usize>,
    pub idle_ttl_seconds: Option<u64>,
    pub log_level: Option<String>,
    pub default_root: Option<FilePath>,
    pub debounce_ms: Option<u64>,
    pub cpu_affinity: Option<u64>,
    pub low_priority: Option<bool>,
    pub git_filter: Option<bool>,
}

/// What a [`FileConfig`] holds.
#[verifier::ext_equal]
pub struct FileConfigView {
    pub node: Option<Seq<u8>>,
    pub auggie_entry: Option<Seq<u8>>,
    pub mode: Option<Seq<char>>,
    pub max_backends: Option<usize>,
    pub idle_ttl_seconds: Option<u64>,
    pub log_level: Option<Seq<char>>,
    pub default_root: Option<Seq<u8>>,
    pub debounce_ms: Option<u64>,
    pub cpu_affinity: Option<u64>,
    pub low_priority: Option<bool>,
    pub git_filter: Option<bool>,
}

impl View for FileConfig {
    type V = FileConfigView;

    open spec fn view(&self) -> FileConfigView {
        FileConfigView {
            node: opt_path_view(self.node),
            auggie_entry: opt_path_view(self.auggie_entry),
            mode: opt_text_view(self.mode),
            max_backends: self.max_backends,
            idle_ttl_seconds: self.idle_ttl_seconds,
            log_level: opt_text_view(self.log_level),
            default_root: opt_path_view(self.default_root),
            debounce_ms: self.debounce_ms,
            cpu_affinity: self.cpu_affinity,
            low_priority: self.low_priority,
            git_filter: self.git_filter,
        }
    }
}

impl Default for FileConfig {
    fn default() -> (res: Self)
        ensures
            res@ == silent_file(),
    {
        FileConfig {
            node: None,
            auggie_entry: None,
            mode: None,
            max_backends: None,
            idle_ttl_seconds: None,
            log_level: None,
            default_root: None,
            debounce_ms: None,
            cpu_affinity: None,
            low_priority: None,
            git_filter: None,
        }
    }
}

/// A configuration file that says nothing.
pub open spec fn silent_file() -> FileConfigView {
    FileConfigView {
        node: None,
        auggie_entry: None,
        mode: None,
        max_backends: None,
        idle_ttl_seconds: None,
        log_level: None,
        default_root: None,
        debounce_ms: None,
        cpu_affinity: None,
        low_priority: None,
        git_filter: None,
    }
}

/// Which options the command line or the environment gave, of those that have a default.
#[derive(Clone, Copy)]
pub struct GivenOptions {
    pub mode: bool,
    pub max_backends: bool,
    pub idle_ttl_seconds: bool,
    pub log_level: bool,
    pub debounce_ms: bool,
    pub cpu_affinity: bool,
    pub low_priority: bool,
    pub git_filter: bool,
}

impl Default for GivenOptions {
    /// Nothing is known to be given.
    fn default() -> (res: Self)
        ensures
            res == none_given(),
    {
        GivenOptions {
            mode: false,
            max_backends: false,
            idle_ttl_seconds: false,
            log_level: false,
            debounce_ms: false,
            cpu_affinity: false,
            low_priority: false,
            git_filter: false,
        }
    }
}

/// Nothing is known to be given.
pub open spec fn none_given() -> GivenOptions {
    GivenOptions {
        mode: false,
        max_backends: false,
        idle_ttl_seconds: false,
        log_level: false,
        debounce_ms: false,
        cpu_affinity: false,
        low_priority: false,
        git_filter: false,
    }
}

/// `own`, or what the file says where it says something and `own` gives way.
pub open spec fn merged_value<V>(own: V, gives_way: bool, file: Option<V>) -> V {
    match file {
        Some(value) => if gives_way {
            value
        } else {
            own
        },
        None => own,
    }
}

/// `own`, or what the file says where `own` is missing.
pub open spec fn merged_option<V>(own: Option<V>, file: Option<V>) -> Option<V> {
    match own {
        Some(value) => Some(value),
        None => file,
    }
}

/// `own` with what the file says put in for what was not given. Of an option not known to be
/// given, a value other than the default counts as given.
pub open spec fn merged(own: ConfigView, given: GivenOptions, file: FileConfigView) -> ConfigView {
    let usual = default_config();
    ConfigView {
        node: merged_option(own.node, file.node),
        auggie_entry: merged_option(own.auggie_entry, file.auggie_entry),
        default_root: merged_option(own.default_root, file.default_root),
        mode: merged_value(own.mode, !given.mode && own.mode == usual.mode, file.mode),
        max_backends: merged_value(
            own.max_backends,
            !given.max_backends && own.max_backends == usual.max_backends,
            file.max_backends,
        ),
        idle_ttl_seconds: merged_value(
            own.idle_ttl_seconds,
            !given.idle_ttl_seconds && own.idle_ttl_seconds == usual.idle_ttl_seconds,
            file.idle_ttl_seconds,
        ),
        log_level: merged_value(
            own.log_level,
            !given.log_level && own.log_level == usual.log_level,
            file.log_level,
        ),
        debounce_ms: merged_value(
            own.debounce_ms,
            !given.debounce_ms && own.debounce_ms == usual.debounce_ms,
            file.debounce_ms,
        ),
        cpu_affinity: merged_value(
            own.cpu_affinity,
            !given.cpu_affinity && own.cpu_affinity == usual.cpu_affinity,
            file.cpu_affinity,
        ),
        low_priority: merged_value(
            own.low_priority,
            !given.low_priority && own.low_priority == usual.low_priority,
            file.low_priority,
        ),
        git_filter: merged_value(
            own.git_filter,
            !given.git_filter && own.git_filter == usual.git_filter,
            file.git_filter,
        ),
        ..own
    }
}

/// What becomes of the path to a tool: it is kept where it exists, and detected where it is
/// missing or does not exist.
pub open spec fn settled_path<E: Fn(&FilePath) -> bool, D: Fn() -> Option<FilePath>>(
    present: E,
    detect: D,
    configured: Option<Seq<u8>>,
    result: Option<Seq<u8>>,
) -> bool {
    ||| configured is Some && answered(present, configured.unwrap(), true) && result == configured
    ||| (configured is Some ==> answered(present, configured.unwrap(), false)) && (exists|
        found: Option<FilePath>,
    | #[trigger]
        call_ensures(detect, (), found) && result == opt_path_view(found))
}

/// `result` is the configuration `own`, completed: what the file says is put in for what was not
/// given, and the paths of the two tools are settled.
pub open spec fn completed<
    E: Fn(&FilePath) -> bool,
    N: Fn() -> Option<FilePath>,
    A: Fn() -> Option<FilePath>,
>(
    present: E,
    detect_node: N,
    detect_entry: A,
    own: ConfigView,
    given: GivenOptions,
    file: FileConfigView,
    result: ConfigView,
) -> bool {
    let config = merged(own, given, file);
    &&& settled_path(present, detect_node, config.node, result.node)
    &&& settled_path(present, detect_entry, config.auggie_entry, result.auggie_entry)
    &&& result == (ConfigView { node: result.node, auggie_entry: result.auggie_entry, ..config })
}

/// The file configuration in `file`, if there is one.
pub open spec fn opt_file_view(file: Option<FileConfig>) -> FileConfigView {
    match file {
        Some(file) => file@,
        None => silent_file(),
    }
}

/// `own`, or what the file says where it says something and `own` gives way.
fn merge<V>(own: V, gives_way: bool, file: Option<V>) -> (res: V)
    ensures
        res == merged_value(own, gives_way, file),
{
    match file {
        Some(value) => if gives_way {
            value
        } else {
            own
        },
        None => own,
    }
}

/// [`merge`] for a text.
fn merge_text(own: String, gives_way: bool, file: Option<String>) -> (res: String)
    ensures
        res@ == merged_value(own@, gives_way, opt_text_view(file)),
{
    merge(own, gives_way, file)
}

/// `own`, or what the file says where `own` is missing.
fn merge_path(own: Option<FilePath>, file: Option<FilePath>) -> (res: Option<FilePath>)
    ensures
        opt_path_view(res) == merged_option(opt_path_view(own), opt_path_view(file)),
{
    match own {
        Some(path) => Some(path),
        None => file,
    }
}

/// The path `configured` where it exists; else what `detect` finds.
fn settle_path<E: Fn(&FilePath) -> bool, D: Fn() -> Option<FilePath>>(
    present: &E,
    detect: &D,
    configured: Option<FilePath>,
) -> (res: Option<FilePath>)
    requires
        asks_anything(*present),
        call_requires(*detect, ()),
    ensures
        settled_path(*present, *detect, opt_path_view(configured), opt_path_view(res)),
{
    if let Some(path) = configured {
        let there = present(&path);
        assert(answered(*present, path@, there));
        if there {
            return Some(path);
        }
    }
    detect()
}

impl Config {
    /// This configuration with what the file says put in for what was not given.
    pub fn merge_file_config(self, given: &GivenOptions, file: FileConfig) -> (res: Config)
        ensures
            res@ == merged(self@, *given, file@),
    {
        let mode_gives_way = !given.mode && same_text(self.mode.as_str(), "default");
        let log_level_gives_way = !given.log_level && same_text(self.log_level.as_str(), "info");
        Config {
            node: merge_path(self.node, file.node),
            auggie_entry: merge_path(self.auggie_entry, file.auggie_entry),
            mode: merge_text(self.mode, mode_gives_way, file.mode),
            max_backends: merge(
                self.max_backends,
                !given.max_backends && self.max_backends == 3,
                file.max_backends,
            ),
            idle_ttl_seconds: merge(
                self.idle_ttl_seconds,
                !given.idle_ttl_seconds && self.idle_ttl_seconds == 600,
                file.idle_ttl_seconds,
            ),
            log_level: merge_text(self.log_level, log_level_gives_way, file.log_level),
            spawn_timeout_seconds: self.spawn_timeout_seconds,
            request_timeout_seconds: self.request_timeout_seconds,
            max_inflight_global: self.max_inflight_global,
            default_root: merge_path(self.default_root, file.default_root),
            prewarm_default_root: self.prewarm_default_root,
            debounce_ms: merge(
                self.debounce_ms,
                !given.debounce_ms && self.debounce_ms == 500,
                file.debounce_ms,
            ),
            cpu_affinity: merge(
                self.cpu_affinity,
                !given.cpu_affinity && self.cpu_affinity == 0,
                file.cpu_affinity,
            ),
            low_priority: merge(
                self.low_priority,
                !given.low_priority && self.low_priority,
                file.low_priority,
            ),
            git_filter: merge(
                self.git_filter,
                !given.git_filter && self.git_filter,
                file.git_filter,
            ),
            single_instance: self.single_instance,
            log_format: self.log_format,
        }
    }

    /// This configuration, completed: first from the configuration file, then by looking for the
    /// tools whose paths are missing or do not exist. The priority is command line and
    /// environment, then configuration file, then detection.
    ///
    /// `given` tells which options were given, `file` is what the configuration file says,
    /// `present` tells whether something exists at a path, and the other two look for the tools.
    pub fn with_auto_detect<
        E: Fn(&FilePath) -> bool,
        N: Fn() -> Option<FilePath>,
        A: Fn() -> Option<FilePath>,
    >(
        self,
        given: &GivenOptions,
        file: Option<FileConfig>,
        present: &E,
        detect_node: &N,
        detect_entry: &A,
    ) -> (res: Config)
        requires
            asks_anything(*present),
            call_requires(*detect_node, ()),
            call_requires(*detect_entry, ()),
        ensures
            completed(
                *present,
                *detect_node,
                *detect_entry,
                self@,
                *given,
                opt_file_view(file),
                res@,
            ),
    {
        let file = match file {
            Some(file) => file,
            None => FileConfig::default(),
        };
        let mut config = self.merge_file_config(given, file);
        let node = config.node;
        config.node = settle_path(present, detect_node, node);
        let entry = config.auggie_entry;
        config.auggie_entry = settle_path(present, detect_entry, entry);
        config
    }
}

/// What the command line or the environment gave is kept, whatever the file says.
pub proof fn given_options_win(own: ConfigView, given: GivenOptions, file: FileConfigView)
    ensures
        ({
            let result = merged(own, given, file);
            &&& own.node is Some ==> result.node == own.node
            &&& own.auggie_entry is Some ==> result.auggie_entry == own.auggie_entry
            &&& own.default_root is Some ==> result.default_root == own.default_root
            &&& given.mode ==> result.mode == own.mode
            &&& given.max_backends ==> result.max_backends == own.max_backends
            &&& given.idle_ttl_seconds ==> result.idle_ttl_seconds == own.idle_ttl_seconds
            &&& given.log_level ==> result.log_level == own.log_level
            &&& given.debounce_ms ==> result.debounce_ms == own.debounce_ms
            &&& given.cpu_affinity ==> result.cpu_affinity == own.cpu_affinity
            &&& given.low_priority ==> result.low_priority == own.low_priority
            &&& given.git_filter ==> result.git_filter == own.git_filter
        }),
{
}

/// What the file says is taken for everything that was not given: where nothing is, it wins over
/// every default.
pub proof fn file_wins_over_defaults(file: FileConfigView)
    ensures
        ({
            let usual = default_config();
            let result = merged(usual, none_given(), file);
            &&& result.node == file.node
            &&& result.auggie_entry == file.auggie_entry
            &&& result.default_root == file.default_root
            &&& result.mode == merged_value(usual.mode, true, file.mode)
            &&& result.max_backends == merged_value(usual.max_backends, true, file.max_backends)
            &&& result.idle_ttl_seconds == merged_value(
                usual.idle_ttl_seconds,
                true,
                file.idle_ttl_seconds,
            )
            &&& result.log_level == merged_value(usual.log_level, true, file.log_level)
            &&& result.debounce_ms == merged_value(usual.debounce_ms, true, file.debounce_ms)
            &&& result.cpu_affinity == merged_value(usual.cpu_affinity, true, file.cpu_affinity)
            &&& result.low_priority == merged_value(usual.low_priority, true, file.low_priority)
            &&& result.git_filter == merged_value(usual.git_filter, true, file.git_filter)
        }),
{
}

/// A value other than the default is kept, whatever the file says and whatever is known to be
/// given.
pub proof fn values_other_than_defaults_win(
    own: ConfigView,
    given: GivenOptions,
    file: FileConfigView,
)
    ensures
        ({
            let usual = default_config();
            let result = merged(own, given, file);
            &&& own.mode != usual.mode ==> result.mode == own.mode
            &&& own.max_backends != usual.max_backends ==> result.max_backends == own.max_backends
            &&& own.idle_ttl_seconds != usual.idle_ttl_seconds ==> result.idle_ttl_seconds
                == own.idle_ttl_seconds
            &&& own.log_level != usual.log_level ==> result.log_level == own.log_level
            &&& own.debounce_ms != usual.debounce_ms ==> result.debounce_ms == own.debounce_ms
            &&& own.cpu_affinity != usual.cpu_affinity ==> result.cpu_affinity == own.cpu_affinity
            &&& own.low_priority != usual.low_priority ==> result.low_priority == own.low_priority
            &&& own.git_filter != usual.git_filter ==> result.git_filter == own.git_filter
        }),
{
}

/// Taking the file in a second time changes nothing.
pub proof fn merging_twice_changes_nothing(
    own: ConfigView,
    given: GivenOptions,
    file: FileConfigView,
)
    ensures
        merged(merged(own, given, file), given, file) == merged(own, given, file),
{
}

/// A silent file changes nothing.
pub proof fn silent_file_changes_nothing(own: ConfigView, given: GivenOptions)
    ensures
        merged(own, given, silent_file()) == own,
{
}

/// A configured path that exists is never replaced by a detected one.
pub proof fn existing_path_is_kept<E: Fn(&FilePath) -> bool, D: Fn() -> Option<FilePath>>(
    present: E,
    detect: D,
    configured: Seq<u8>,
    result: Option<Seq<u8>>,
)
    requires
        settled_path(present, detect, Some(configured), result),
        forall|answer: bool| #[trigger] answered(present, configured, answer) ==> answer,
    ensures
        result == Some(configured),
{
}

/// Where a tool is looked for, the same is found every time.
pub open spec fn finds_the_same<D: Fn() -> Option<FilePath>>(
    detect: D,
    found: Option<Seq<u8>>,
) -> bool {
    forall|out: Option<FilePath>| #[trigger]
        call_ensures(detect, (), out) ==> opt_path_view(out) == found
}

/// Asked about one path, `present` always gives the same answer.
pub open spec fn answers_the_same<E: Fn(&FilePath) -> bool>(present: E) -> bool {
    forall|p: Seq<u8>, a: bool, b: bool| #[trigger]
        answered(present, p, a) && #[trigger] answered(present, p, b) ==> a == b
}

/// A path of one's own that does not exist hides one in the file that does, and none is found: the
/// first completion drops the own path, and only the second takes the file's.
pub open spec fn hides_file_path<E: Fn(&FilePath) -> bool>(
    present: E,
    own: Option<Seq<u8>>,
    file: Option<Seq<u8>>,
    found: Option<Seq<u8>>,
) -> bool {
    &&& own is Some && answered(present, own.unwrap(), false)
    &&& file is Some && answered(present, file.unwrap(), true)
    &&& found is None
}

proof fn lemma_settled_twice<E: Fn(&FilePath) -> bool, D: Fn() -> Option<FilePath>>(
    present: E,
    detect: D,
    own: Option<Seq<u8>>,
    file: Option<Seq<u8>>,
    first: Option<Seq<u8>>,
    second: Option<Seq<u8>>,
    found: Option<Seq<u8>>,
)
    requires
        settled_path(present, detect, merged_option(own, file), first),
        settled_path(present, detect, merged_option(first, file), second),
        answers_the_same(present),
        finds_the_same(detect, found),
        !hides_file_path(present, own, file, found),
    ensures
        second == first,
{
}

/// Completing a configuration a second time changes nothing, where the machine answers alike both
/// times and no own path that does not exist hides one in the file that does.
pub proof fn completing_twice_changes_nothing<
    E: Fn(&FilePath) -> bool,
    N: Fn() -> Option<FilePath>,
    A: Fn() -> Option<FilePath>,
>(
    present: E,
    detect_node: N,
    detect_entry: A,
    own: ConfigView,
    given: GivenOptions,
    file: FileConfigView,
    first: ConfigView,
    second: ConfigView,
    found_node: Option<Seq<u8>>,
    found_entry: Option<Seq<u8>>,
)
    requires
        completed(present, detect_node, detect_entry, own, given, file, first),
        completed(present, detect_node, detect_entry, first, given, file, second),
        answers_the_same(present),
        finds_the_same(detect_node, found_node),
        finds_the_same(detect_entry, found_entry),
        !hides_file_path(present, own.node, file.node, found_node),
        !hides_file_path(present, own.auggie_entry, file.auggie_entry, found_entry),
    ensures
        second == first,
{
    lemma_settled_twice(
        present,
        detect_node,
        own.node,
        file.node,
        first.node,
        second.node,
        found_node,
    );
    lemma_settled_twice(
        present,
        detect_entry,
        own.auggie_entry,
        file.auggie_entry,
        first.auggie_entry,
        second.auggie_entry,
        found_entry,
    );
    merging_twice_changes_nothing(own, given, file);
}

/// The same answers of the machine give the same configuration.
pub proof fn same_answers_give_the_same_configuration<
    E: Fn(&FilePath) -> bool,
    N: Fn() -> Option<FilePath>,
    A: Fn() -> Option<FilePath>,
>(
    present: E,
    detect_node: N,
    detect_entry: A,
    own: ConfigView,
    given: GivenOptions,
    file: FileConfigView,
    first: ConfigView,
    second: ConfigView,
    found_node: Option<Seq<u8>>,
    found_entry: Option<Seq<u8>>,
)
    requires
        completed(present, detect_node, detect_entry, own, given, file, first),
        completed(present, detect_node, detect_entry, own, given, file, second),
        answers_the_same(present),
        finds_the_same(detect_node, found_node),
        finds_the_same(detect_entry, found_entry),
    ensures
        second == first,
{
}

/// Each setting is settled on its own: one that was not given and has its usual value becomes what
/// the file says of it, and every other one stays.
pub proof fn each_setting_is_merged_on_its_own(
    own: Config,
    given: &GivenOptions,
    file: FileConfig,
    res: Config,
)
    requires
        call_ensures(Config::merge_file_config, (own, given, file), res),
    ensures
        !given.max_backends && own@.max_backends == 3 && file@.max_backends is Some ==> res@.max_backends
            == file@.max_backends.unwrap(),
        given.max_backends || own@.max_backends != 3 || file@.max_backends is None ==> res@.max_backends
            == own@.max_backends,
        !given.idle_ttl_seconds && own@.idle_ttl_seconds == 600 && file@.idle_ttl_seconds is Some ==> res@.idle_ttl_seconds
            == file@.idle_ttl_seconds.unwrap(),
        given.idle_ttl_seconds || own@.idle_ttl_seconds != 600 || file@.idle_ttl_seconds is None ==> res@.idle_ttl_seconds
            == own@.idle_ttl_seconds,
        !given.debounce_ms && own@.debounce_ms == 500 && file@.debounce_ms is Some ==> res@.debounce_ms
            == file@.debounce_ms.unwrap(),
        given.debounce_ms || own@.debounce_ms != 500 || file@.debounce_ms is None ==> res@.debounce_ms
            == own@.debounce_ms,
        !given.cpu_affinity && own@.cpu_affinity == 0 && file@.cpu_affinity is Some ==> res@.cpu_affinity
            == file@.cpu_affinity.unwrap(),
        given.cpu_affinity || own@.cpu_affinity != 0 || file@.cpu_affinity is None ==> res@.cpu_affinity
            == own@.cpu_affinity,
        !given.mode && own@.mode == "default"@ && file@.mode is Some ==> res@.mode
            == file@.mode.unwrap(),
        given.mode || own@.mode != "default"@ || file@.mode is None ==> res@.mode
            == own@.mode,
        !given.log_level && own@.log_level == "info"@ && file@.log_level is Some ==> res@.log_level
            == file@.log_level.unwrap(),
        given.log_level || own@.log_level != "info"@ || file@.log_level is None ==> res@.log_level
            == own@.log_level,
        !given.low_priority && own@.low_priority && file@.low_priority is Some ==> res@.low_priority
            == file@.low_priority.unwrap(),
        given.low_priority || !own@.low_priority || file@.low_priority is None ==> res@.low_priority
            == own@.low_priority,
        !given.git_filter && own@.git_filter && file@.git_filter is Some ==> res@.git_filter
            == file@.git_filter.unwrap(),
        given.git_filter || !own@.git_filter || file@.git_filter is None ==> res@.git_filter
            == own@.git_filter,
{
}

/// A path that was given stays, and one that was not is the file's; what a file cannot say stays.
pub proof fn paths_come_from_the_file_where_not_given(
    own: Config,
    given: &GivenOptions,
    file: FileConfig,
    res: Config,
)
    requires
        call_ensures(Config::merge_file_config, (own, given, file), res),
    ensures
        own@.node is Some ==> res@.node == own@.node,
        own@.node is None ==> res@.node == file@.node,
        own@.auggie_entry is Some ==> res@.auggie_entry == own@.auggie_entry,
        own@.auggie_entry is None ==> res@.auggie_entry == file@.auggie_entry,
        own@.default_root is Some ==> res@.default_root == own@.default_root,
        own@.default_root is None ==> res@.default_root == file@.default_root,
        res@.spawn_timeout_seconds == own@.spawn_timeout_seconds,
        res@.request_timeout_seconds == own@.request_timeout_seconds,
        res@.max_inflight_global == own@.max_inflight_global,
        res@.prewarm_default_root == own@.prewarm_default_root,
        res@.single_instance == own@.single_instance,
        res@.log_format == own@.log_format,
{
}

/// Node is looked for where neither the command line nor the file names it, and where the path that
/// is named does not exist; a path that exists is kept. The command line comes before the file.
pub proof fn node_is_looked_for_where_missing<
    E: Fn(&FilePath) -> bool,
    N: Fn() -> Option<FilePath>,
    A: Fn() -> Option<FilePath>,
>(
    own: Config,
    given: &GivenOptions,
    file: Option<FileConfig>,
    present: &E,
    detect_node: &N,
    detect_entry: &A,
    res: Config,
    found: Option<Seq<u8>>,
)
    requires
        call_ensures(
            Config::with_auto_detect::<E, N, A>,
            (own, given, file, present, detect_node, detect_entry),
            res,
        ),
        finds_the_same(*detect_node, found),
    ensures
        own@.node is None && (file matches Some(said) ==> said@.node is None) ==> res@.node
            == found,
        own@.node matches Some(path) ==> {
            &&& !answered(*present, path, false) ==> res@.node == Some(path)
            &&& !answered(*present, path, true) ==> res@.node == found
        },
        own@.node is None && (file matches Some(said) && said@.node is Some) ==> {
            let path = file.unwrap()@.node.unwrap();
            &&& !answered(*present, path, false) ==> res@.node == Some(path)
            &&& !answered(*present, path, true) ==> res@.node == found
        },
{
}

/// The entry script is looked for where neither the command line nor the file names it, and where
/// the path that is named does not exist; a path that exists is kept. The command line comes
/// before the file.
pub proof fn entry_is_looked_for_where_missing<
    E: Fn(&FilePath) -> bool,
    N: Fn() -> Option<FilePath>,
    A: Fn() -> Option<FilePath>,
>(
    own: Config,
    given: &GivenOptions,
    file: Option<FileConfig>,
    present: &E,
    detect_node: &N,
    detect_entry: &A,
    res: Config,
    found: Option<Seq<u8>>,
)
    requires
        call_ensures(
            Config::with_auto_detect::<E, N, A>,
            (own, given, file, present, detect_node, detect_entry),
            res,
        ),
        finds_the_same(*detect_entry, found),
    ensures
        own@.auggie_entry is None && (file matches Some(said) ==> said@.auggie_entry is None) ==> res@.auggie_entry
            == found,
        own@.auggie_entry matches Some(path) ==> {
            &&& !answered(*present, path, false) ==> res@.auggie_entry == Some(path)
            &&& !answered(*present, path, true) ==> res@.auggie_entry == found
        },
        own@.auggie_entry is None && (file matches Some(said) && said@.auggie_entry is Some) ==> {
            let path = file.unwrap()@.auggie_entry.unwrap();
            &&& !answered(*present, path, false) ==> res@.auggie_entry == Some(path)
            &&& !answered(*present, path, true) ==> res@.auggie_entry == found
        },
{
}

/// Looking for the tools touches nothing but their paths: all else is as the file and the command
/// line have it. Without a file it is as it was.
pub proof fn detection_touches_only_the_tools<
    E: Fn(&FilePath) -> bool,
    N: Fn() -> Option<FilePath>,
    A: Fn() -> Option<FilePath>,
>(
    own: Config,
    given: &GivenOptions,
    file: Option<FileConfig>,
    present: &E,
    detect_node: &N,
    detect_entry: &A,
    res: Config,
    merged_one: Config,
    said: FileConfig,
)
    requires
        call_ensures(
            Config::with_auto_detect::<E, N, A>,
            (own, given, file, present, detect_node, detect_entry),
            res,
        ),
        file == Some(said) || file is None,
        call_ensures(Config::merge_file_config, (own, given, said), merged_one),
    ensures
        file == Some(said) ==> res@ == (ConfigView {
            node: res@.node,
            auggie_entry: res@.auggie_entry,
            ..merged_one@
        }),
        file is None ==> res@ == (ConfigView {
            node: res@.node,
            auggie_entry: res@.auggie_entry,
            ..own@
        }),
{
}

/// The default root is kept even where it does not exist: nothing is looked for in its place.
pub proof fn default_root_is_kept<
    E: Fn(&FilePath) -> bool,
    N: Fn() -> Option<FilePath>,
    A: Fn() -> Option<FilePath>,
>(
    own: Config,
    given: &GivenOptions,
    file: Option<FileConfig>,
    present: &E,
    detect_node: &N,
    detect_entry: &A,
    res: Config,
)
    requires
        call_ensures(
            Config::with_auto_detect::<E, N, A>,
            (own, given, file, present, detect_node, detect_entry),
            res,
        ),
    ensures
        own@.default_root is Some ==> res@.default_root == own@.default_root,
        own@.default_root is None ==> res@.default_root == (match file {
            Some(said) => said@.default_root,
            None => None,
        }),
{
}

/// A tool that is found by detection alone is enough to start a backend: where nothing is
/// configured and both tools are found, the completed configuration gives a command with them.
pub proof fn found_tools_start_a_backend<
    E: Fn(&FilePath) -> bool,
    N: Fn() -> Option<FilePath>,
    A: Fn() -> Option<FilePath>,
>(
    own: Config,
    given: &GivenOptions,
    file: Option<FileConfig>,
    present: &E,
    detect_node: &N,
    detect_entry: &A,
    res: Config,
    node: Seq<u8>,
    entry: Seq<u8>,
    root: &FilePath,
    command: Result<crate::backend::BackendCommand, crate::error::ProxyError>,
)
    requires
        call_ensures(
            Config::with_auto_detect::<E, N, A>,
            (own, given, file, present, detect_node, detect_entry),
            res,
        ),
        own@.node is None && own@.auggie_entry is None && file is None,
        finds_the_same(*detect_node, Some(node)),
        finds_the_same(*detect_entry, Some(entry)),
        call_ensures(
            crate::backend::BackendInstance::<u64>::build_command,
            (&res, root),
            command,
        ),
    ensures
        command is Ok,
        command->Ok_0.program@ == node,
        command->Ok_0.args@.len() == 6,
        command->Ok_0.args@[0]@ == entry,
        command->Ok_0.args@[5]@ == root@,
{
    let args = crate::path::part_views(command->Ok_0.args@);
    assert(args.len() == 6);
    assert(args[0] == command->Ok_0.args@[0]@);
    assert(args[5] == command->Ok_0.args@[5]@);
}

/// Where nothing is given, every setting has its usual value.
pub proof fn usual_settings(config: Config)
    requires
        call_ensures(Config::default, (), config),
    ensures
        config@.node is None && config@.auggie_entry is None && config@.default_root is None,
        config@.mode == "default"@ && config@.log_level == "info"@ && config@.log_format
            == "text"@,
        config@.max_backends == 3 && config@.idle_ttl_seconds == 600,
        config@.spawn_timeout_seconds == 30 && config@.request_timeout_seconds == 120,
        config@.max_inflight_global == 0 && config@.debounce_ms == 500 && config@.cpu_affinity
            == 0,
        config@.low_priority && config@.git_filter,
        !config@.prewarm_default_root && !config@.single_instance,
{
}

} // verus!
