//! What the proxy decides as it starts: how it logs, and whether it is the only one.

use crate::path::{components, join_adds_component, joined, FilePath};
use crate::text::{concat, opt_str_view, same_text};
use crate::uri::{shown_text, text_lossy};
use vstd::prelude::*;
use vstd::utf8::*;

verus! {

/// How much is logged.
#[derive(Debug, Clone, Copy, PartialEq, Eq, Structural)]
pub enum LogLevel {
    Trace,
    Debug,
    Info,
    Warn,
    Error,
}

/// How log lines are written.
#[derive(Debug, Clone, Copy, PartialEq, Eq, Structural)]
pub enum LogFormat {
    Text,
    Json,
}

/// The level that `name` stands for; that of an unknown name is info.
pub open spec fn level_named(name: Seq<char>) -> LogLevel {
    if name == "trace"@ {
        LogLevel::Trace
    } else if name == "debug"@ {
        LogLevel::Debug
    } else if name == "warn"@ {
        LogLevel::Warn
    } else if name == "error"@ {
        LogLevel::Error
    } else {
        LogLevel::Info
    }
}

/// The level that `name` stands for.
pub fn log_level(name: &str) -> (res: LogLevel)
    ensures
        res == level_named(name@),
{
    if same_text(name, "trace") {
        LogLevel::Trace
    } else if same_text(name, "debug") {
        LogLevel::Debug
    } else if same_text(name, "warn") {
        LogLevel::Warn
    } else if same_text(name, "error") {
        LogLevel::Error
    } else {
        LogLevel::Info
    }
}

/// The format that `name` stands for; every name but that of JSON stands for text.
pub fn log_format(name: &str) -> (res: LogFormat)
    ensures
        res == (if name@ == "json"@ {
            LogFormat::Json
        } else {
            LogFormat::Text
        }),
{
    if same_text(name, "json") {
        LogFormat::Json
    } else {
        LogFormat::Text
    }
}

/// Where the lock of the only proxy is: in the home directory, or in the directory for temporary
/// files where that is not known.
pub open spec fn lock_file(home: Option<Seq<char>>) -> Seq<u8> {
    match home {
        Some(home) => joined(encode_utf8(home), encode_utf8(".mcp-proxy.lock"@)),
        None => encode_utf8("/tmp/mcp-proxy.lock"@),
    }
}

/// Where the lock of the only proxy is.
pub fn lock_path(home: Option<&str>) -> (res: FilePath)
    ensures
        res@ == lock_file(opt_str_view(home)),
{
    match home {
        Some(home) => FilePath::from_text(home).join(".mcp-proxy.lock"),
        None => FilePath::from_text("/tmp/mcp-proxy.lock"),
    }
}

/// What came of taking the lock.
pub enum LockOutcome {
    /// It was taken.
    Acquired,
    /// Another process holds it.
    WouldBlock,
    /// It could not be taken, for the reason given.
    Failed(String),
}

/// Whether the proxy may go on after taking the lock at `path` gave `outcome`, or else why not.
pub fn lock_verdict(outcome: LockOutcome, path: &FilePath) -> (res: Result<(), String>)
    ensures
        match outcome {
            LockOutcome::Acquired => res is Ok,
            LockOutcome::WouldBlock => res matches Err(message) && message@
                == "mcp-proxy is already running (lock file: "@ + shown_text(path@) + ")"@,
            LockOutcome::Failed(reason) => res matches Err(message) && message@
                == "Failed to acquire lock: "@ + reason@,
        },
{
    match outcome {
        LockOutcome::Acquired => Ok(()),
        LockOutcome::WouldBlock => {
            let shown = text_lossy(&path.bytes);
            let start = concat("mcp-proxy is already running (lock file: ", shown.as_str());
            Err(concat(start.as_str(), ")"))
        },
        LockOutcome::Failed(reason) => Err(concat("Failed to acquire lock: ", reason.as_str())),
    }
}

/// Whether the proxy may go on on Windows, or else why not; `taken` tells whether the mutex of
/// the only proxy existed before.
pub fn mutex_verdict(taken: bool) -> (res: Result<(), String>)
    ensures
        if taken {
            res matches Err(message) && message@
                == "mcp-proxy is already running (Global\\mcp_proxy_lock exists)"@
        } else {
            res is Ok
        },
{
    if taken {
        Err("mcp-proxy is already running (Global\\mcp_proxy_lock exists)".to_string())
    } else {
        Ok(())
    }
}

/// Each level has its own name, and every other name stands for the level info.
pub proof fn levels_go_by_their_names(name: &str, level: LogLevel)
    requires
        call_ensures(log_level, (name,), level),
    ensures
        level == LogLevel::Trace <==> name@ == "trace"@,
        level == LogLevel::Debug <==> name@ == "debug"@,
        level == LogLevel::Warn <==> name@ == "warn"@,
        level == LogLevel::Error <==> name@ == "error"@,
{
    reveal_strlit("trace");
    reveal_strlit("debug");
    reveal_strlit("warn");
    reveal_strlit("error");
    assert("trace"@[0] == 't' && "debug"@[0] == 'd' && "warn"@[0] == 'w' && "error"@[0] == 'e');
}

/// Only the name of JSON asks for JSON.
pub proof fn json_goes_by_its_name(name: &str, format: LogFormat)
    requires
        call_ensures(log_format, (name,), format),
    ensures
        format == LogFormat::Json <==> name@ == "json"@,
{
}

/// The lock of one user is always in the same place, in the user's home directory; without one it
/// is in the directory for temporary files.
pub proof fn lock_is_in_the_home_directory(home: Option<&str>, path: FilePath)
    requires
        call_ensures(lock_path, (home,), path),
    ensures
        home matches Some(dir) ==> components(path@) == components(encode_utf8(dir@)).push(
            encode_utf8(".mcp-proxy.lock"@),
        ),
        home is None ==> path@ == encode_utf8("/tmp/mcp-proxy.lock"@),
{
    if let Some(dir) = home {
        reveal_strlit(".mcp-proxy.lock");
        let t = ".mcp-proxy.lock"@;
        is_ascii_chars_encode_utf8(t);
        let b = encode_utf8(t);
        assert(seq![0x2eu8].len() == 1);
        assert forall|i: int| 0 <= i < b.len() implies b[i] != 0x2f by {
            assert(b[i] == t[i] as u8);
        }
        join_adds_component(encode_utf8(dir@), b);
    }
}

/// The proxy goes on exactly where it got the lock, on Windows exactly where the mutex was free;
/// the refusal says where the lock is, or what went wrong.
pub proof fn only_the_holder_of_the_lock_goes_on(
    outcome: LockOutcome,
    path: &FilePath,
    res: Result<(), String>,
    taken: bool,
    on_windows: Result<(), String>,
)
    requires
        call_ensures(lock_verdict, (outcome, path), res),
        call_ensures(mutex_verdict, (taken,), on_windows),
    ensures
        res is Ok <==> outcome is Acquired,
        outcome is WouldBlock ==> res->Err_0@ == "mcp-proxy is already running (lock file: "@
            + shown_text(path@) + ")"@,
        outcome matches LockOutcome::Failed(reason) ==> res->Err_0@ == "Failed to acquire lock: "@
            + reason@,
        on_windows is Ok <==> !taken,
        taken ==> on_windows->Err_0@
            == "mcp-proxy is already running (Global\\mcp_proxy_lock exists)"@,
{
}

} // verus!
