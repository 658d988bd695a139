//! Where the configuration file and the tools are looked for on Windows, whose paths are text
//! with backslashes.

use crate::config::Config;
use crate::detect::{
    encoded, find_present, first_line, first_present, lemma_first_existing, line_of, printed_answer,
    printed_text, tool_answer, tool_text, ToolOutput,
};
use crate::path::{opt_path_view, FilePath};
use crate::probe::{answered, asks_anything};
use crate::text::{
    chars_of, concat, opt_str_view, string_between, text_views, trim, trimmed,
};
use vstd::prelude::*;
use vstd::utf8::*;

verus! {

/// Whether `dir` can have a name behind it without a backslash between them: it is empty, ends
/// in a separator, or is a drive letter with its colon.
pub open spec fn ends_open(dir: Seq<char>) -> bool {
    ||| dir.len() == 0
    ||| dir.last() == '\\'
    ||| dir.last() == '/'
    ||| dir.len() == 2 && dir[1] == ':' && is_drive_letter(dir[0])
}

/// Whether `c` can name a drive.
pub open spec fn is_drive_letter(c: char) -> bool {
    'a' <= c <= 'z' || 'A' <= c <= 'Z'
}

/// Whether `dir` has a verbatim prefix, behind which only a backslash separates.
pub open spec fn is_verbatim(dir: Seq<char>) -> bool {
    dir.len() >= 4 && dir[0] == '\\' && dir[1] == '\\' && dir[2] == '?' && dir[3] == '\\'
}

/// The number of characters in front of the first backslash of `s`.
pub open spec fn name_len(s: Seq<char>) -> nat
    decreases s.len(),
{
    if s.len() == 0 || s[0] == '\\' {
        0
    } else {
        1 + name_len(s.skip(1))
    }
}

/// Whether `s`, what follows the start of a verbatim prefix, names a server and a share.
pub open spec fn names_share(s: Seq<char>) -> bool {
    s.len() >= 4 && s[0] == 'U' && s[1] == 'N' && s[2] == 'C' && (s[3] == '\\' || s[3] == '/')
}

/// Whether `s`, what follows the start of a verbatim prefix, starts with a drive.
pub open spec fn names_drive(s: Seq<char>) -> bool {
    s.len() >= 2 && is_drive_letter(s[0]) && s[1] == ':' && (s.len() == 2 || s[2] == '\\' || s[2]
        == '/')
}

/// The length of the verbatim prefix of `dir`: up to the share, the drive or the name that it
/// leads to.
pub open spec fn verbatim_prefix_len(dir: Seq<char>) -> nat {
    let rest = dir.skip(4);
    if names_share(rest) {
        let server = rest.skip(4);
        let n = name_len(server);
        let share = if n < server.len() {
            name_len(server.skip(n as int + 1))
        } else {
            0
        };
        if share > 0 {
            8 + n + 1 + share
        } else {
            8 + n
        }
    } else if names_drive(rest) {
        6
    } else {
        4 + name_len(rest)
    }
}

/// The names in `s`, each with one backslash in front of it.
pub open spec fn tidied(s: Seq<char>) -> Seq<char>
    decreases s.len(),
{
    if s.len() == 0 {
        Seq::empty()
    } else {
        let before = tidied(s.drop_last());
        if s.last() == '\\' {
            before
        } else if s.len() == 1 || s[s.len() - 2] == '\\' {
            before.push('\\').push(s.last())
        } else {
            before.push(s.last())
        }
    }
}

/// What follows the verbatim prefix of `dir`, without a slash directly behind the prefix.
pub open spec fn behind_prefix(dir: Seq<char>) -> Seq<char> {
    let rest = dir.skip(verbatim_prefix_len(dir) as int);
    if rest.len() > 0 && rest[0] == '/' {
        rest.skip(1)
    } else {
        rest
    }
}

/// The path of `name` in the directory `dir`. Where `dir` is verbatim, its names are written out
/// again with one backslash between them.
pub open spec fn windows_joined(dir: Seq<char>, name: Seq<char>) -> Seq<char> {
    if is_verbatim(dir) {
        dir.take(verbatim_prefix_len(dir) as int) + tidied(behind_prefix(dir)) + "\\"@ + name
    } else if ends_open(dir) {
        dir + name
    } else {
        dir + "\\"@ + name
    }
}

/// The number of characters of `chars` from `from` on in front of the first backslash.
fn count_name(chars: &Vec<char>, from: usize) -> (res: usize)
    requires
        from <= chars.len(),
    ensures
        res == name_len(chars@.skip(from as int)),
        from + res <= chars.len(),
{
    let mut n: usize = 0;
    while from + n < chars.len() && chars[from + n] != '\\'
        invariant
            from + n <= chars.len(),
            name_len(chars@.skip(from as int)) == n + name_len(chars@.skip(from + n)),
        decreases chars.len() - from - n,
    {
        proof {
            assert(chars@.skip(from + n).skip(1) =~= chars@.skip(from + n + 1));
        }
        n = n + 1;
    }
    n
}

/// The length of the verbatim prefix of `chars`.
fn count_verbatim_prefix(chars: &Vec<char>) -> (res: usize)
    requires
        is_verbatim(chars@),
    ensures
        res == verbatim_prefix_len(chars@),
        res <= chars.len(),
{
    let n: usize = chars.len();
    let ghost rest = chars@.skip(4);
    if n >= 8 && chars[4] == 'U' && chars[5] == 'N' && chars[6] == 'C' && (chars[7] == '\\'
        || chars[7] == '/') {
        proof {
            assert(rest.skip(4) =~= chars@.skip(8));
        }
        let server = count_name(chars, 8);
        if 8 + server < n {
            proof {
                assert(rest.skip(4).skip(server as int + 1) =~= chars@.skip(8 + server + 1));
            }
            let share = count_name(chars, 8 + server + 1);
            if share > 0 {
                return 8 + server + 1 + share;
            }
        }
        return 8 + server;
    }
    if n >= 6 && is_letter(chars[4]) && chars[5] == ':' && (n == 6 || chars[6] == '\\' || chars[6]
        == '/') {
        return 6;
    }
    4 + count_name(chars, 4)
}

fn is_letter(c: char) -> (res: bool)
    ensures
        res == is_drive_letter(c),
{
    ('a' <= c && c <= 'z') || ('A' <= c && c <= 'Z')
}

/// Adds the names in `chars` from `from` on to `text`, each with one backslash in front of it.
fn push_names(text: &mut String, chars: &Vec<char>, from: usize)
    requires
        from <= chars.len(),
    ensures
        final(text)@ == old(text)@ + tidied(chars@.skip(from as int)),
{
    let ghost before = text@;
    let ghost rest = chars@.skip(from as int);
    let mut i: usize = from;
    proof {
        assert(rest.take(0) =~= Seq::empty());
        assert(before + tidied(rest.take(0)) =~= before);
    }
    while i < chars.len()
        invariant
            from <= i <= chars.len(),
            rest == chars@.skip(from as int),
            text@ == before + tidied(rest.take(i - from)),
        decreases chars.len() - i,
    {
        let ghost upto = rest.take(i + 1 - from);
        proof {
            assert(upto.drop_last() =~= rest.take(i - from));
            assert(upto.last() == chars@[i as int]);
            if i > from {
                assert(upto[upto.len() - 2] == chars@[i - 1]);
            }
        }
        if chars[i] != '\\' {
            if i == from || chars[i - 1] == '\\' {
                text.push('\\');
            }
            text.push(chars[i]);
            proof {
                assert(text@ =~= before + tidied(upto));
            }
        }
        i = i + 1;
    }
    proof {
        assert(rest.take(rest.len() as int) =~= rest);
    }
}

/// The path of `name` in the directory `dir`. `name` is a plain name, without a separator or a
/// colon.
pub fn windows_join(dir: &str, name: &str) -> (res: String)
    ensures
        res@ == windows_joined(dir@, name@),
{
    let chars = chars_of(dir);
    let n: usize = chars.len();
    if n >= 4 && chars[0] == '\\' && chars[1] == '\\' && chars[2] == '?' && chars[3] == '\\' {
        let prefix = count_verbatim_prefix(&chars);
        let mut res = string_between(&chars, 0, prefix);
        let ghost start = res@;
        proof {
            assert(start =~= dir@.take(prefix as int));
            if prefix < n {
                assert(chars@.skip(prefix as int).skip(1) =~= chars@.skip(prefix + 1));
            }
        }
        if prefix < n && chars[prefix] == '/' {
            push_names(&mut res, &chars, prefix + 1);
        } else {
            push_names(&mut res, &chars, prefix);
        }
        res.append("\\");
        res.append(name);
        return res;
    }
    let open = n == 0 || chars[n - 1] == '\\' || chars[n - 1] == '/' || (n == 2 && chars[1] == ':'
        && is_letter(chars[0]));
    if open {
        concat(dir, name)
    } else {
        concat(concat(dir, "\\").as_str(), name)
    }
}

/// The places where the configuration file is looked for, in their order: next to the
/// executable, in the working directory, in the user's configuration directory and in the
/// user's directory.
pub open spec fn windows_config_candidates(
    exe_dir: Option<Seq<char>>,
    cwd: Option<Seq<char>>,
    userprofile: Option<Seq<char>>,
) -> Seq<Seq<char>> {
    let name = "mcp-proxy.json"@;
    let by_exe: Seq<Seq<char>> = if exe_dir is Some {
        seq![windows_joined(exe_dir.unwrap(), name)]
    } else {
        Seq::empty()
    };
    let by_cwd: Seq<Seq<char>> = if cwd is Some {
        seq![windows_joined(cwd.unwrap(), name)]
    } else {
        Seq::empty()
    };
    let by_user: Seq<Seq<char>> = if userprofile is Some {
        seq![
            windows_joined(windows_joined(userprofile.unwrap(), ".config"@), name),
            windows_joined(userprofile.unwrap(), name),
        ]
    } else {
        Seq::empty()
    };
    by_exe + by_cwd + by_user
}

/// Where node is usually installed.
pub open spec fn node_candidates() -> Seq<Seq<char>> {
    seq![
        "C:\\Program Files\\nodejs\\node.exe"@,
        "C:\\Program Files (x86)\\nodejs\\node.exe"@,
    ]
}

/// The path in what `where node` printed: its first line.
pub open spec fn node_in_path(output: Option<ToolOutput>) -> Option<Seq<char>> {
    match tool_text(output) {
        Some(text) => if text.len() > 0 {
            Some(trimmed(first_line(text)))
        } else {
            None
        },
        None => None,
    }
}

/// `result` is the node that is found: the first of its usual places that exists, or else the
/// one that `where node` printed.
pub open spec fn node_found<E: Fn(&FilePath) -> bool>(
    present: E,
    where_node: Option<ToolOutput>,
    result: Option<Seq<u8>>,
) -> bool {
    ||| result is Some && first_present(present, encoded(node_candidates()), result)
    ||| first_present(present, encoded(node_candidates()), None) && result == (match node_in_path(
        where_node,
    ) {
        Some(path) => Some(encode_utf8(path)),
        None => None,
    })
}

/// A directory in which a version manager keeps the versions of one tool.
pub struct MiseInstall {
    /// The name of the directory.
    pub name: String,
    /// The paths of the versions in it.
    pub versions: Vec<String>,
}

/// Whether `name` is that of a directory with versions of the backend.
pub open spec fn is_auggie_install(name: Seq<char>) -> bool {
    "npm-augmentcode-auggie"@.is_prefix_of(name)
}

/// Where a version of the backend keeps its entry script.
pub open spec fn version_entry(version: Seq<char>) -> Seq<char> {
    windows_joined(
        windows_joined(
            windows_joined(windows_joined(version, "node_modules"@), "@augmentcode"@),
            "auggie"@,
        ),
        "augment.mjs"@,
    )
}

/// The entry scripts of all installed versions of the backend.
pub open spec fn install_entries(installs: Seq<MiseInstall>) -> Seq<Seq<char>>
    decreases installs.len(),
{
    if installs.len() == 0 {
        Seq::empty()
    } else {
        let before = install_entries(installs.drop_last());
        if is_auggie_install(installs.last().name@) {
            before + text_views(installs.last().versions@).map_values(
                |v: Seq<char>| version_entry(v),
            )
        } else {
            before
        }
    }
}

/// `kept` are those of `paths` that `present` saw.
pub open spec fn seen_of<E: Fn(&FilePath) -> bool>(
    present: E,
    paths: Seq<Seq<char>>,
    kept: Seq<Seq<char>>,
) -> bool {
    exists|answers: Seq<bool>| #[trigger]
        answers.len() == paths.len() && kept == picked(paths, answers) && forall|i: int|
            0 <= i < paths.len() ==> answered(
                present,
                encode_utf8(paths[i]),
                #[trigger] answers[i],
            )
}

/// Those of `paths` that `answers` marks.
pub open spec fn picked(paths: Seq<Seq<char>>, answers: Seq<bool>) -> Seq<Seq<char>>
    decreases paths.len(),
{
    if paths.len() == 0 {
        Seq::empty()
    } else {
        let before = picked(paths.drop_last(), answers.drop_last());
        if answers.last() {
            before.push(paths.last())
        } else {
            before
        }
    }
}

/// Where npm, pnpm and yarn put global modules under the user's application data.
pub open spec fn appdata_candidates(
    appdata: Option<Seq<char>>,
    localappdata: Option<Seq<char>>,
) -> Seq<Seq<char>> {
    let roaming: Seq<Seq<char>> = match appdata {
        Some(dir) => seq![
            dir + "\\npm\\node_modules\\@augmentcode\\auggie\\augment.mjs"@,
            dir + "\\npm\\node_modules\\@augmentcode\\auggie\\dist\\cli.js"@,
        ],
        None => Seq::empty(),
    };
    let local: Seq<Seq<char>> = match localappdata {
        Some(dir) => seq![
            dir + "\\pnpm\\global\\5\\node_modules\\@augmentcode\\auggie\\augment.mjs"@,
            dir + "\\Yarn\\Data\\global\\node_modules\\@augmentcode\\auggie\\augment.mjs"@,
        ],
        None => Seq::empty(),
    };
    roaming + local
}

/// Where npm itself says that global modules are.
pub open spec fn npm_candidates(
    npm_root: Option<Seq<char>>,
    npm_prefix: Option<Seq<char>>,
) -> Seq<Seq<char>> {
    let by_root: Seq<Seq<char>> = match npm_root {
        Some(dir) => seq![
            dir + "\\@augmentcode\\auggie\\augment.mjs"@,
            dir + "\\@augmentcode\\auggie\\dist\\cli.js"@,
        ],
        None => Seq::empty(),
    };
    let by_prefix: Seq<Seq<char>> = match npm_prefix {
        Some(dir) => seq![
            dir + "\\node_modules\\@augmentcode\\auggie\\augment.mjs"@,
            dir + "\\node_modules\\@augmentcode\\auggie\\dist\\cli.js"@,
            dir + "\\node_global\\node_modules\\@augmentcode\\auggie\\augment.mjs"@,
        ],
        None => Seq::empty(),
    };
    by_root + by_prefix
}

/// Where global modules often are on a drive.
pub open spec fn drive_candidates(drive: Seq<char>) -> Seq<Seq<char>> {
    seq![
        drive + ":\\nodejs\\node_global\\node_modules\\@augmentcode\\auggie\\augment.mjs"@,
        drive + ":\\nodejs\\node_modules\\@augmentcode\\auggie\\augment.mjs"@,
        drive
            + ":\\Program Files\\nodejs\\node_global\\node_modules\\@augmentcode\\auggie\\augment.mjs"@,
    ]
}

/// All places where the entry script is looked for, in their order; `installed` are those of the
/// version manager that exist.
pub open spec fn windows_entry_candidates(
    appdata: Option<Seq<char>>,
    localappdata: Option<Seq<char>>,
    installed: Seq<Seq<char>>,
    npm_root: Option<Seq<char>>,
    npm_prefix: Option<Seq<char>>,
) -> Seq<Seq<char>> {
    appdata_candidates(appdata, localappdata) + installed + npm_candidates(npm_root, npm_prefix)
        + drive_candidates("C"@) + drive_candidates("D"@) + drive_candidates("E"@)
        + drive_candidates("F"@)
}

/// `more` behind `list`.
fn extend(list: &mut Vec<String>, more: Vec<String>)
    ensures
        text_views(final(list)@) == text_views(old(list)@) + text_views(more@),
{
    let mut more = more;
    let ghost added = more@;
    list.append(&mut more);
    proof {
        assert(text_views(list@) =~= text_views(old(list)@) + text_views(added));
    }
}

fn list_appdata_candidates(appdata: Option<&str>, localappdata: Option<&str>) -> (res: Vec<String>)
    ensures
        text_views(res@) == appdata_candidates(opt_str_view(appdata), opt_str_view(localappdata)),
{
    let mut res: Vec<String> = Vec::new();
    if let Some(dir) = appdata {
        res.push(concat(dir, "\\npm\\node_modules\\@augmentcode\\auggie\\augment.mjs"));
        res.push(concat(dir, "\\npm\\node_modules\\@augmentcode\\auggie\\dist\\cli.js"));
    }
    if let Some(dir) = localappdata {
        res.push(
            concat(dir, "\\pnpm\\global\\5\\node_modules\\@augmentcode\\auggie\\augment.mjs"),
        );
        res.push(
            concat(dir, "\\Yarn\\Data\\global\\node_modules\\@augmentcode\\auggie\\augment.mjs"),
        );
    }
    proof {
        assert(text_views(res@) =~= appdata_candidates(
            opt_str_view(appdata),
            opt_str_view(localappdata),
        ));
    }
    res
}

fn list_npm_candidates(npm_root: Option<ToolOutput>, npm_prefix: Option<ToolOutput>) -> (res: Vec<
    String,
>)
    ensures
        text_views(res@) == npm_candidates(tool_answer(npm_root), tool_answer(npm_prefix)),
{
    let mut res: Vec<String> = Vec::new();
    let ghost root = tool_answer(npm_root);
    let ghost prefix = tool_answer(npm_prefix);
    if let Some(dir) = printed_answer(npm_root) {
        res.push(concat(dir.as_str(), "\\@augmentcode\\auggie\\augment.mjs"));
        res.push(concat(dir.as_str(), "\\@augmentcode\\auggie\\dist\\cli.js"));
    }
    if let Some(dir) = printed_answer(npm_prefix) {
        res.push(concat(dir.as_str(), "\\node_modules\\@augmentcode\\auggie\\augment.mjs"));
        res.push(concat(dir.as_str(), "\\node_modules\\@augmentcode\\auggie\\dist\\cli.js"));
        res.push(
            concat(
                dir.as_str(),
                "\\node_global\\node_modules\\@augmentcode\\auggie\\augment.mjs",
            ),
        );
    }
    proof {
        assert(text_views(res@) =~= npm_candidates(root, prefix));
    }
    res
}

fn list_drive_candidates(drive: &str) -> (res: Vec<String>)
    ensures
        text_views(res@) == drive_candidates(drive@),
{
    let mut res: Vec<String> = Vec::new();
    res.push(
        concat(drive, ":\\nodejs\\node_global\\node_modules\\@augmentcode\\auggie\\augment.mjs"),
    );
    res.push(concat(drive, ":\\nodejs\\node_modules\\@augmentcode\\auggie\\augment.mjs"));
    res.push(
        concat(
            drive,
            ":\\Program Files\\nodejs\\node_global\\node_modules\\@augmentcode\\auggie\\augment.mjs",
        ),
    );
    proof {
        assert(text_views(res@) =~= drive_candidates(drive@));
    }
    res
}

/// Whether `name` is that of a directory with versions of the backend.
pub fn names_auggie_install(name: &str) -> (res: bool)
    ensures
        res == is_auggie_install(name@),
{
    let chars = chars_of(name);
    let prefix = chars_of("npm-augmentcode-auggie");
    if chars.len() < prefix.len() {
        return false;
    }
    let mut i: usize = 0;
    while i < prefix.len()
        invariant
            i <= prefix.len() <= chars.len(),
            prefix@ == "npm-augmentcode-auggie"@,
            chars@ == name@,
            forall|k: int| 0 <= k < i ==> prefix@[k] == chars@[k],
        decreases prefix.len() - i,
    {
        if prefix[i] != chars[i] {
            proof {
                if is_auggie_install(name@) {
                    assert(prefix@[i as int] == chars@.subrange(0, prefix@.len() as int)[i as int]);
                }
            }
            return false;
        }
        i = i + 1;
    }
    proof {
        assert(prefix@ =~= chars@.subrange(0, prefix@.len() as int));
    }
    true
}

/// The path of the entry script of the version at `version`.
pub fn entry_of_version(version: &str) -> (res: String)
    ensures
        res@ == version_entry(version@),
{
    let modules = windows_join(version, "node_modules");
    let scope = windows_join(modules.as_str(), "@augmentcode");
    let package = windows_join(scope.as_str(), "auggie");
    windows_join(package.as_str(), "augment.mjs")
}

/// The directory in which the version manager keeps its tools.
pub fn mise_dir(localappdata: &str) -> (res: String)
    ensures
        res@ == localappdata@ + "\\mise\\installs"@,
{
    concat(localappdata, "\\mise\\installs")
}

/// The entry scripts of all installed versions of the backend.
fn list_install_entries(installs: &Vec<MiseInstall>) -> (res: Vec<String>)
    ensures
        text_views(res@) == install_entries(installs@),
{
    let mut res: Vec<String> = Vec::new();
    let ghost entry = |v: Seq<char>| version_entry(v);
    let mut i: usize = 0;
    proof {
        assert(installs@.take(0) =~= Seq::empty());
        assert(text_views(res@) =~= Seq::empty());
    }
    while i < installs.len()
        invariant
            i <= installs.len(),
            entry == (|v: Seq<char>| version_entry(v)),
            text_views(res@) == install_entries(installs@.take(i as int)),
        decreases installs.len() - i,
    {
        let install = &installs[i];
        proof {
            let longer = installs@.take(i + 1);
            assert(longer.drop_last() =~= installs@.take(i as int));
            assert(longer.last() == *install);
        }
        if names_auggie_install(install.name.as_str()) {
            let ghost before = text_views(res@);
            let versions = &install.versions;
            let ghost all = text_views(versions@);
            let mut k: usize = 0;
            proof {
                assert(before + all.take(0).map_values(entry) =~= before);
            }
            while k < versions.len()
                invariant
                    k <= versions.len(),
                    entry == (|v: Seq<char>| version_entry(v)),
                    all == text_views(versions@),
                    text_views(res@) == before + all.take(k as int).map_values(entry),
                decreases versions.len() - k,
            {
                let ghost listed = res@;
                let path = entry_of_version(versions[k].as_str());
                res.push(path);
                proof {
                    assert(all[k as int] == versions@[k as int]@);
                    assert(text_views(res@) =~= text_views(listed).push(path@));
                    assert(text_views(res@) =~= before + all.take(k + 1).map_values(entry));
                }
                k = k + 1;
            }
            proof {
                assert(all.take(all.len() as int) =~= all);
            }
        }
        i = i + 1;
    }
    proof {
        assert(installs@.take(installs@.len() as int) =~= installs@);
    }
    res
}

/// Those of `paths` that exist.
fn keep_present<E: Fn(&FilePath) -> bool>(paths: Vec<String>, present: &E) -> (res: Vec<String>)
    requires
        asks_anything(*present),
    ensures
        seen_of(*present, text_views(paths@), text_views(res@)),
{
    let ghost all = text_views(paths@);
    let ghost mut answers: Seq<bool> = Seq::empty();
    let mut res: Vec<String> = Vec::new();
    let mut i: usize = 0;
    proof {
        assert(all.take(0) =~= Seq::empty());
        assert(text_views(res@) =~= Seq::empty());
    }
    while i < paths.len()
        invariant
            i <= paths.len(),
            asks_anything(*present),
            all == text_views(paths@),
            answers.len() == i,
            text_views(res@) == picked(all.take(i as int), answers),
            forall|k: int|
                0 <= k < i ==> answered(*present, encode_utf8(all[k]), #[trigger] answers[k]),
        decreases paths.len() - i,
    {
        let path = FilePath::from_text(paths[i].as_str());
        let there = present(&path);
        let ghost listed = res@;
        proof {
            assert(all[i as int] == paths@[i as int]@);
            assert(answered(*present, path@, there));
            assert(all.take(i + 1).drop_last() =~= all.take(i as int));
            assert(answers.push(there).drop_last() =~= answers);
            answers = answers.push(there);
        }
        if there {
            let kept = paths[i].clone();
            res.push(kept);
            proof {
                assert(text_views(res@) =~= text_views(listed).push(all[i as int]));
            }
        }
        i = i + 1;
    }
    proof {
        assert(all.take(all.len() as int) =~= all);
        assert(answers.len() == all.len());
    }
    res
}

impl Config {
    /// The places where the configuration file is looked for on Windows, in their order.
    pub fn get_config_file_candidates_windows(
        exe_dir: Option<&str>,
        cwd: Option<&str>,
        userprofile: Option<&str>,
    ) -> (res: Vec<String>)
        ensures
            text_views(res@) == windows_config_candidates(
                opt_str_view(exe_dir),
                opt_str_view(cwd),
                opt_str_view(userprofile),
            ),
    {
        let mut candidates: Vec<String> = Vec::new();
        if let Some(dir) = exe_dir {
            candidates.push(windows_join(dir, "mcp-proxy.json"));
        }
        if let Some(dir) = cwd {
            candidates.push(windows_join(dir, "mcp-proxy.json"));
        }
        if let Some(dir) = userprofile {
            let settings = windows_join(dir, ".config");
            candidates.push(windows_join(settings.as_str(), "mcp-proxy.json"));
            candidates.push(windows_join(dir, "mcp-proxy.json"));
        }
        proof {
            assert(text_views(candidates@) =~= windows_config_candidates(
                opt_str_view(exe_dir),
                opt_str_view(cwd),
                opt_str_view(userprofile),
            ));
        }
        candidates
    }

    /// The path of node on Windows: the first of its usual places that exists, or else the one
    /// that `where node` printed.
    pub fn detect_node_path_windows<E: Fn(&FilePath) -> bool>(
        where_node: Option<ToolOutput>,
        present: &E,
    ) -> (res: Option<FilePath>)
        requires
            asks_anything(*present),
        ensures
            node_found(*present, where_node, opt_path_view(res)),
    {
        let mut candidates: Vec<String> = Vec::new();
        candidates.push("C:\\Program Files\\nodejs\\node.exe".to_string());
        candidates.push("C:\\Program Files (x86)\\nodejs\\node.exe".to_string());
        proof {
            assert(text_views(candidates@) =~= node_candidates());
        }
        let found = find_present(&candidates, present);
        if found.is_some() {
            return found;
        }
        match printed_text(where_node) {
            Some(text) => {
                if text.as_str().is_empty() {
                    return None;
                }
                let line = line_of(text.as_str());
                let path = trim(line.as_str());
                Some(FilePath::from_text(path.as_str()))
            },
            None => None,
        }
    }

    /// The path of the entry script on Windows: the first of all its candidates that exists.
    ///
    /// `installs` are the directories of the version manager, `npm_root` is what `npm root -g`
    /// printed and `npm_prefix` what `npm config get prefix` printed.
    pub fn detect_auggie_entry_windows<E: Fn(&FilePath) -> bool>(
        appdata: Option<&str>,
        localappdata: Option<&str>,
        installs: &Vec<MiseInstall>,
        npm_root: Option<ToolOutput>,
        npm_prefix: Option<ToolOutput>,
        present: &E,
    ) -> (res: Option<FilePath>)
        requires
            asks_anything(*present),
        ensures
            exists|installed: Seq<Seq<char>>| #[trigger]
                seen_of(*present, install_entries(installs@), installed) && first_present(
                    *present,
                    encoded(
                        windows_entry_candidates(
                            opt_str_view(appdata),
                            opt_str_view(localappdata),
                            installed,
                            tool_answer(npm_root),
                            tool_answer(npm_prefix),
                        ),
                    ),
                    opt_path_view(res),
                ),
    {
        let mut candidates = list_appdata_candidates(appdata, localappdata);
        let installed = keep_present(list_install_entries(installs), present);
        let ghost kept = text_views(installed@);
        extend(&mut candidates, installed);
        extend(&mut candidates, list_npm_candidates(npm_root, npm_prefix));
        extend(&mut candidates, list_drive_candidates("C"));
        extend(&mut candidates, list_drive_candidates("D"));
        extend(&mut candidates, list_drive_candidates("E"));
        extend(&mut candidates, list_drive_candidates("F"));
        proof {
            assert(seen_of(*present, install_entries(installs@), kept));
        }
        find_present(&candidates, present)
    }
}

/// A name is joined to an ordinary directory with a backslash between them, and to one that already
/// ends in a separator, is empty or is a bare drive without one.
pub proof fn name_is_joined_with_one_separator(dir: &str, name: &str, res: String)
    requires
        call_ensures(windows_join, (dir, name), res),
        !(dir@.len() >= 4 && dir@.take(4) == seq!['\\', '\\', '?', '\\']),
    ensures
        ({
            let drive = dir@.len() == 2 && dir@[1] == ':' && ('a' <= dir@[0] <= 'z' || 'A'
                <= dir@[0] <= 'Z');
            if dir@.len() == 0 || dir@.last() == '\\' || dir@.last() == '/' || drive {
                res@ == dir@ + name@
            } else {
                res@ == dir@ + seq!['\\'] + name@
            }
        }),
{
    reveal_strlit("\\");
    assert("\\"@ =~= seq!['\\']);
    if is_verbatim(dir@) {
        assert(dir@.take(4) =~= seq!['\\', '\\', '?', '\\']);
    }
}

proof fn lemma_tidy_stays(s: Seq<char>)
    requires
        s.len() > 0 ==> s[0] == '\\',
        forall|i: int| 0 <= i < s.len() - 1 ==> !(#[trigger] s[i] == '\\' && s[i + 1] == '\\'),
    ensures
        tidied(s) == (if s.len() > 0 && s.last() == '\\' {
            s.drop_last()
        } else {
            s
        }),
    decreases s.len(),
{
    if s.len() == 0 {
        assert(tidied(s) =~= s);
    } else {
        let before = s.drop_last();
        assert forall|i: int| 0 <= i < before.len() - 1 implies !(#[trigger] before[i] == '\\'
            && before[i + 1] == '\\') by {
            assert(s[i] == before[i] && s[i + 1] == before[i + 1]);
        }
        lemma_tidy_stays(before);
        if s.last() == '\\' {
            if before.len() > 0 {
                assert(!(s[s.len() - 2] == '\\' && s[s.len() - 1] == '\\'));
            }
        } else if s[s.len() - 2] == '\\' {
            assert(before.last() == '\\');
            assert(before.drop_last().push('\\') =~= before);
            assert(before.push(s.last()) =~= s);
        } else {
            assert(before.push(s.last()) =~= s);
        }
    }
}

/// A name is joined with a backslash to a directory on a drive behind a verbatim prefix too, where
/// single backslashes separate its names.
pub proof fn name_is_joined_to_a_verbatim_directory(
    dir: &str,
    letter: char,
    tail: Seq<char>,
    name: &str,
    res: String,
)
    requires
        call_ensures(windows_join, (dir, name), res),
        dir@ == seq!['\\', '\\', '?', '\\', letter, ':'] + tail,
        'a' <= letter <= 'z' || 'A' <= letter <= 'Z',
        tail.len() > 0 ==> tail[0] == '\\' && tail.last() != '\\',
        forall|i: int| 0 <= i < tail.len() - 1 ==> !(#[trigger] tail[i] == '\\' && tail[i + 1] == '\\'),
    ensures
        res@ == dir@ + seq!['\\'] + name@,
{
    reveal_strlit("\\");
    assert("\\"@ =~= seq!['\\']);
    let rest = dir@.skip(4);
    assert(rest[0] == letter && rest[1] == ':');
    assert(rest.len() > 2 ==> rest[2] == tail[0]);
    assert(verbatim_prefix_len(dir@) == 6);
    assert(dir@.skip(6) =~= tail);
    lemma_tidy_stays(tail);
    assert(dir@.take(6) + tail =~= dir@);
}

/// The configuration file is looked for next to the executable, then in the working directory, then
/// in the user's configuration directory, then in the user's directory, where each is known.
pub proof fn configuration_is_looked_for_in_order_on_windows(
    exe_dir: Option<&str>,
    cwd: Option<&str>,
    userprofile: Option<&str>,
    res: Vec<String>,
    by_exe: String,
    by_cwd: String,
    settings: String,
    settings_text: &str,
    in_settings: String,
    by_user: String,
)
    requires
        call_ensures(
            Config::get_config_file_candidates_windows,
            (exe_dir, cwd, userprofile),
            res,
        ),
        exe_dir matches Some(dir) ==> call_ensures(windows_join, (dir, "mcp-proxy.json"), by_exe),
        cwd matches Some(dir) ==> call_ensures(windows_join, (dir, "mcp-proxy.json"), by_cwd),
        userprofile matches Some(dir) ==> {
            &&& call_ensures(windows_join, (dir, ".config"), settings)
            &&& settings_text@ == settings@
            &&& call_ensures(windows_join, (settings_text, "mcp-proxy.json"), in_settings)
            &&& call_ensures(windows_join, (dir, "mcp-proxy.json"), by_user)
        },
    ensures
        ({
            let a: int = if exe_dir is Some {
                1
            } else {
                0
            };
            let b: int = if cwd is Some {
                a + 1
            } else {
                a
            };
            &&& exe_dir is Some ==> res@[0]@ == by_exe@
            &&& cwd is Some ==> res@[a]@ == by_cwd@
            &&& userprofile is Some ==> res@[b]@ == in_settings@ && res@[b + 1]@ == by_user@
            &&& res@.len() == (if userprofile is Some {
                b + 2
            } else {
                b
            })
        }),
{
    let all = text_views(res@);
    let listed = windows_config_candidates(
        opt_str_view(exe_dir),
        opt_str_view(cwd),
        opt_str_view(userprofile),
    );
    assert(all == listed);
    assert(all.len() == res@.len());
    let a: int = if exe_dir is Some {
        1
    } else {
        0
    };
    let b: int = if cwd is Some {
        a + 1
    } else {
        a
    };
    if exe_dir is Some {
        assert(listed[0] == by_exe@);
        assert(all[0] == res@[0]@);
    }
    if cwd is Some {
        assert(listed[a] == by_cwd@);
        assert(all[a] == res@[a]@);
    }
    if userprofile is Some {
        assert(listed[b] == in_settings@);
        assert(listed[b + 1] == by_user@);
        assert(all[b] == res@[b]@);
        assert(all[b + 1] == res@[b + 1]@);
        assert(listed.len() == b + 2);
    } else {
        assert(opt_str_view(userprofile) is None);
        assert(listed.len() == b);
    }
}

/// Node is in the first of its two usual places that exists; where neither does it is in the first
/// line of what the tool that looks for it printed, without the white space around it, and nowhere
/// if that tool did not answer or printed nothing.
pub proof fn node_is_in_its_usual_place_first<E: Fn(&FilePath) -> bool>(
    where_node: Option<ToolOutput>,
    present: &E,
    res: Option<FilePath>,
    printed: Option<String>,
    text: &str,
    line: String,
    line_text: &str,
    path: String,
)
    requires
        call_ensures(Config::detect_node_path_windows::<E>, (where_node, present), res),
        call_ensures(printed_text, (where_node,), printed),
        printed is Some ==> text@ == printed.unwrap()@,
        call_ensures(line_of, (text,), line),
        line_text@ == line@,
        call_ensures(trim, (line_text,), path),
    ensures
        ({
            let usual = encode_utf8("C:\\Program Files\\nodejs\\node.exe"@);
            let other = encode_utf8("C:\\Program Files (x86)\\nodejs\\node.exe"@);
            &&& !answered(*present, usual, false) ==> opt_path_view(res) == Some(usual)
            &&& !answered(*present, usual, true) && !answered(*present, other, false)
                ==> opt_path_view(res) == Some(other)
            &&& !answered(*present, usual, true) && !answered(*present, other, true) ==> {
                if printed is Some && text@.len() > 0 {
                    opt_path_view(res) == Some(encode_utf8(path@))
                } else {
                    res is None
                }
            }
        }),
{
    let all = encoded(node_candidates());
    let result = opt_path_view(res);
    assert(all.len() == 2);
    assert(all[0] == encode_utf8("C:\\Program Files\\nodejs\\node.exe"@));
    assert(all[1] == encode_utf8("C:\\Program Files (x86)\\nodejs\\node.exe"@));
    if result is Some && first_present(*present, all, result) {
        lemma_first_existing(*present, all, result, 0);
        if !answered(*present, all[0], true) {
            lemma_first_existing(*present, all, result, 1);
            if !answered(*present, all[1], true) {
                lemma_first_existing(*present, all, result, 2);
            }
        }
    } else {
        assert(first_present(*present, all, None));
        assert(answered(*present, all[0], false));
        assert(answered(*present, all[1], false));
    }
}

/// A directory holds versions of the backend exactly where its name begins with that of the
/// package.
pub proof fn install_goes_by_its_name(name: &str, res: bool, rest: Seq<char>)
    requires
        call_ensures(names_auggie_install, (name,), res),
    ensures
        name@ == "npm-augmentcode-auggie"@ + rest ==> res,
        res ==> exists|tail: Seq<char>| name@ == #[trigger] ("npm-augmentcode-auggie"@ + tail),
{
    let prefix = "npm-augmentcode-auggie"@;
    let n = prefix.len() as int;
    if name@ == prefix + rest {
        assert(prefix =~= name@.subrange(0, n));
    }
    if res {
        assert(name@ =~= prefix + name@.skip(n));
    }
}

/// The version manager keeps its tools in a directory of the user's local application data, and a
/// version of the backend has its entry script where a package keeps it.
pub proof fn version_has_its_entry(
    localappdata: &str,
    tools: String,
    version: &str,
    entry: String,
)
    requires
        call_ensures(mise_dir, (localappdata,), tools),
        call_ensures(entry_of_version, (version,), entry),
    ensures
        tools@ == localappdata@ + "\\mise\\installs"@,
        version@.len() >= 4 && version@.last() != '\\' && version@.last() != '/' && version@.take(4)
            != seq!['\\', '\\', '?', '\\'] ==> entry@ == version@
            + "\\node_modules\\@augmentcode\\auggie\\augment.mjs"@,
{
    let v = version@;
    if v.len() >= 4 && v.last() != '\\' && v.last() != '/' && v.take(4) != seq![
        '\\',
        '\\',
        '?',
        '\\',
    ] {
        reveal_strlit("\\");
        reveal_strlit("node_modules");
        reveal_strlit("@augmentcode");
        reveal_strlit("auggie");
        reveal_strlit("augment.mjs");
        reveal_strlit("\\node_modules\\@augmentcode\\auggie\\augment.mjs");
        if is_verbatim(v) {
            assert(v.take(4) =~= seq!['\\', '\\', '?', '\\']);
        }
        let a = v + "\\"@ + "node_modules"@;
        let b = a + "\\"@ + "@augmentcode"@;
        let c = b + "\\"@ + "auggie"@;
        let d = c + "\\"@ + "augment.mjs"@;
        assert(windows_joined(v, "node_modules"@) == a);
        assert(a[0] == v[0] && a[1] == v[1] && a[2] == v[2] && a[3] == v[3]);
        assert(a.last() == 's');
        assert(windows_joined(a, "@augmentcode"@) == b);
        assert(b[0] == v[0] && b[1] == v[1] && b[2] == v[2] && b[3] == v[3]);
        assert(b.last() == 'e');
        assert(windows_joined(b, "auggie"@) == c);
        assert(c[0] == v[0] && c[1] == v[1] && c[2] == v[2] && c[3] == v[3]);
        assert(c.last() == 'e');
        assert(windows_joined(c, "augment.mjs"@) == d);
        assert(d =~= v + "\\node_modules\\@augmentcode\\auggie\\augment.mjs"@);
    }
}

proof fn lemma_none_picked(paths: Seq<Seq<char>>, answers: Seq<bool>)
    requires
        paths.len() == answers.len(),
        forall|i: int| 0 <= i < answers.len() ==> !#[trigger] answers[i],
    ensures
        picked(paths, answers).len() == 0,
    decreases paths.len(),
{
    if paths.len() > 0 {
        assert(!answers[answers.len() - 1]);
        assert forall|i: int| 0 <= i < answers.drop_last().len() implies !#[trigger] answers.drop_last()[i] by {
            assert(!answers[i]);
        }
        lemma_none_picked(paths.drop_last(), answers.drop_last());
    }
}

proof fn lemma_first_picked(paths: Seq<Seq<char>>, answers: Seq<bool>, n: int)
    requires
        paths.len() == answers.len(),
        0 <= n < paths.len(),
        answers[n],
        forall|i: int| 0 <= i < n ==> !#[trigger] answers[i],
    ensures
        picked(paths, answers).len() > 0,
        picked(paths, answers)[0] == paths[n],
    decreases paths.len(),
{
    let less = answers.drop_last();
    assert forall|i: int| 0 <= i < n implies !#[trigger] less[i] by {
        assert(!answers[i]);
    }
    if n == paths.len() - 1 {
        lemma_none_picked(paths.drop_last(), less);
    } else {
        lemma_first_picked(paths.drop_last(), less, n);
    }
}

proof fn lemma_none_seen<E: Fn(&FilePath) -> bool>(
    present: E,
    paths: Seq<Seq<char>>,
    kept: Seq<Seq<char>>,
)
    requires
        seen_of(present, paths, kept),
        forall|i: int|
            0 <= i < paths.len() ==> !answered(present, encode_utf8(#[trigger] paths[i]), true),
    ensures
        kept.len() == 0,
{
    let answers = choose|answers: Seq<bool>| #[trigger]
        answers.len() == paths.len() && kept == picked(paths, answers) && forall|i: int|
            0 <= i < paths.len() ==> answered(
                present,
                encode_utf8(paths[i]),
                #[trigger] answers[i],
            );
    assert forall|i: int| 0 <= i < answers.len() implies !#[trigger] answers[i] by {
        assert(answered(present, encode_utf8(paths[i]), answers[i]));
    }
    lemma_none_picked(paths, answers);
}

proof fn lemma_first_seen<E: Fn(&FilePath) -> bool>(
    present: E,
    paths: Seq<Seq<char>>,
    kept: Seq<Seq<char>>,
    n: int,
)
    requires
        seen_of(present, paths, kept),
        0 <= n < paths.len(),
        !answered(present, encode_utf8(paths[n]), false),
        forall|i: int|
            0 <= i < n ==> !answered(present, encode_utf8(#[trigger] paths[i]), true),
    ensures
        kept.len() > 0,
        kept[0] == paths[n],
{
    let answers = choose|answers: Seq<bool>| #[trigger]
        answers.len() == paths.len() && kept == picked(paths, answers) && forall|i: int|
            0 <= i < paths.len() ==> answered(
                present,
                encode_utf8(paths[i]),
                #[trigger] answers[i],
            );
    assert(answered(present, encode_utf8(paths[n]), answers[n]));
    assert forall|i: int| 0 <= i < n implies !#[trigger] answers[i] by {
        assert(answered(present, encode_utf8(paths[i]), answers[i]));
    }
    lemma_first_picked(paths, answers, n);
}

proof fn lemma_install_entries_grow(installs: Seq<MiseInstall>, m: int)
    requires
        0 <= m <= installs.len(),
    ensures
        install_entries(installs.take(m)).len() <= install_entries(installs).len(),
        forall|i: int|
            0 <= i < install_entries(installs.take(m)).len() ==> install_entries(installs)[i]
                == #[trigger] install_entries(installs.take(m))[i],
    decreases installs.len(),
{
    if m == installs.len() {
        assert(installs.take(m) =~= installs);
    } else {
        lemma_install_entries_grow(installs.drop_last(), m);
        assert(installs.drop_last().take(m) =~= installs.take(m));
    }
}

/// All places outside the version manager where the entry script is looked for, in their order.
pub open spec fn places_without_installs(
    appdata: Option<&str>,
    localappdata: Option<&str>,
    root: Option<String>,
    prefix: Option<String>,
) -> (Seq<Seq<char>>, Seq<Seq<char>>) {
    let roaming = match appdata {
        Some(dir) => seq![
            dir@ + "\\npm\\node_modules\\@augmentcode\\auggie\\augment.mjs"@,
            dir@ + "\\npm\\node_modules\\@augmentcode\\auggie\\dist\\cli.js"@,
        ],
        None => Seq::<Seq<char>>::empty(),
    };
    let local = match localappdata {
        Some(dir) => seq![
            dir@ + "\\pnpm\\global\\5\\node_modules\\@augmentcode\\auggie\\augment.mjs"@,
            dir@ + "\\Yarn\\Data\\global\\node_modules\\@augmentcode\\auggie\\augment.mjs"@,
        ],
        None => Seq::<Seq<char>>::empty(),
    };
    let by_root = match root {
        Some(dir) => seq![
            dir@ + "\\@augmentcode\\auggie\\augment.mjs"@,
            dir@ + "\\@augmentcode\\auggie\\dist\\cli.js"@,
        ],
        None => Seq::<Seq<char>>::empty(),
    };
    let by_prefix = match prefix {
        Some(dir) => seq![
            dir@ + "\\node_modules\\@augmentcode\\auggie\\augment.mjs"@,
            dir@ + "\\node_modules\\@augmentcode\\auggie\\dist\\cli.js"@,
            dir@ + "\\node_global\\node_modules\\@augmentcode\\auggie\\augment.mjs"@,
        ],
        None => Seq::<Seq<char>>::empty(),
    };
    let drives = seq!["C"@, "D"@, "E"@, "F"@];
    let on_drives = Seq::new(
        12,
        |i: int|
            drives[i / 3] + (if i % 3 == 0 {
                ":\\nodejs\\node_global\\node_modules\\@augmentcode\\auggie\\augment.mjs"@
            } else if i % 3 == 1 {
                ":\\nodejs\\node_modules\\@augmentcode\\auggie\\augment.mjs"@
            } else {
                ":\\Program Files\\nodejs\\node_global\\node_modules\\@augmentcode\\auggie\\augment.mjs"@
            }),
    );
    (roaming + local, by_root + by_prefix + on_drives)
}

proof fn lemma_places(
    appdata: Option<&str>,
    localappdata: Option<&str>,
    installed: Seq<Seq<char>>,
    npm_root: Option<ToolOutput>,
    npm_prefix: Option<ToolOutput>,
    root: Option<String>,
    prefix: Option<String>,
)
    requires
        call_ensures(printed_answer, (npm_root,), root),
        call_ensures(printed_answer, (npm_prefix,), prefix),
    ensures
        ({
            let (first, last) = places_without_installs(appdata, localappdata, root, prefix);
            windows_entry_candidates(
                opt_str_view(appdata),
                opt_str_view(localappdata),
                installed,
                tool_answer(npm_root),
                tool_answer(npm_prefix),
            ) == first + installed + last
        }),
{
    let (first, last) = places_without_installs(appdata, localappdata, root, prefix);
    assert(first =~= appdata_candidates(opt_str_view(appdata), opt_str_view(localappdata)));
    let npm = npm_candidates(tool_answer(npm_root), tool_answer(npm_prefix));
    let drives = drive_candidates("C"@) + drive_candidates("D"@) + drive_candidates("E"@)
        + drive_candidates("F"@);
    assert(last.skip(npm.len() as int) =~= drives);
    assert(last =~= npm + drives);
    assert(windows_entry_candidates(
        opt_str_view(appdata),
        opt_str_view(localappdata),
        installed,
        tool_answer(npm_root),
        tool_answer(npm_prefix),
    ) =~= first + installed + last);
}

/// Where the version manager has no entry script, the one that is found is in the first place that
/// exists: under the user's application data, then where npm says, then on one of the drives. None
/// is found where none of these places exists.
pub proof fn entry_is_in_the_first_existing_place<E: Fn(&FilePath) -> bool>(
    appdata: Option<&str>,
    localappdata: Option<&str>,
    installs: &Vec<MiseInstall>,
    npm_root: Option<ToolOutput>,
    npm_prefix: Option<ToolOutput>,
    present: &E,
    res: Option<FilePath>,
    root: Option<String>,
    prefix: Option<String>,
    k: int,
)
    requires
        call_ensures(
            Config::detect_auggie_entry_windows::<E>,
            (appdata, localappdata, installs, npm_root, npm_prefix, present),
            res,
        ),
        call_ensures(printed_answer, (npm_root,), root),
        call_ensures(printed_answer, (npm_prefix,), prefix),
        forall|i: int|
            0 <= i < install_entries(installs@).len() ==> !answered(
                *present,
                encode_utf8(#[trigger] install_entries(installs@)[i]),
                true,
            ),
        ({
            let (first, last) = places_without_installs(appdata, localappdata, root, prefix);
            let places = first + last;
            &&& 0 <= k <= places.len()
            &&& forall|j: int|
                0 <= j < k ==> !answered(*present, encode_utf8(#[trigger] places[j]), true)
        }),
    ensures
        ({
            let (first, last) = places_without_installs(appdata, localappdata, root, prefix);
            let places = first + last;
            &&& k < places.len() && !answered(*present, encode_utf8(places[k]), false)
                ==> opt_path_view(res) == Some(encode_utf8(places[k]))
            &&& k == places.len() ==> res is None
        }),
{
    let (first, last) = places_without_installs(appdata, localappdata, root, prefix);
    let places = first + last;
    let kept = choose|kept: Seq<Seq<char>>| #[trigger]
        seen_of(*present, install_entries(installs@), kept) && first_present(
            *present,
            encoded(
                windows_entry_candidates(
                    opt_str_view(appdata),
                    opt_str_view(localappdata),
                    kept,
                    tool_answer(npm_root),
                    tool_answer(npm_prefix),
                ),
            ),
            opt_path_view(res),
        );
    lemma_none_seen(*present, install_entries(installs@), kept);
    lemma_places(appdata, localappdata, kept, npm_root, npm_prefix, root, prefix);
    assert(first + kept + last =~= places);
    let all = encoded(places);
    assert forall|j: int| 0 <= j < k implies !answered(*present, #[trigger] all[j], true) by {
        assert(all[j] == encode_utf8(places[j]));
    }
    lemma_first_existing(*present, all, opt_path_view(res), k);
}

proof fn lemma_entries_absent<E: Fn(&FilePath) -> bool>(
    present: E,
    installs: Seq<MiseInstall>,
)
    requires
        forall|i: int, v: int|
            0 <= i < installs.len() && is_auggie_install(installs[i].name@) && 0 <= v
                < installs[i].versions@.len() ==> !answered(
                present,
                encode_utf8(version_entry((#[trigger] installs[i].versions@[v])@)),
                true,
            ),
    ensures
        forall|n: int|
            0 <= n < install_entries(installs).len() ==> !answered(
                present,
                encode_utf8(#[trigger] install_entries(installs)[n]),
                true,
            ),
    decreases installs.len(),
{
    if installs.len() > 0 {
        let less = installs.drop_last();
        assert forall|i: int, v: int|
            0 <= i < less.len() && is_auggie_install(less[i].name@) && 0 <= v
                < less[i].versions@.len() implies !answered(
            present,
            encode_utf8(version_entry((#[trigger] less[i].versions@[v])@)),
            true,
        ) by {
            assert(installs[i].versions@[v] == less[i].versions@[v]);
        }
        lemma_entries_absent(present, less);
        let before = install_entries(less);
        let all = install_entries(installs);
        let last = installs.len() - 1;
        assert forall|n: int| 0 <= n < all.len() implies !answered(
            present,
            encode_utf8(#[trigger] all[n]),
            true,
        ) by {
            if n < before.len() {
                assert(all[n] == before[n]);
            } else {
                let v = n - before.len();
                let versions = installs[last].versions@;
                assert(text_views(versions)[v] == versions[v]@);
                assert(all[n] == version_entry(versions[v]@));
            }
        }
    }
}

/// An entry script of the version manager is found where none exists under the user's application
/// data: of the directories that hold versions of the backend, in their order, the first version
/// that has one.
pub proof fn entry_of_an_install_is_found<E: Fn(&FilePath) -> bool>(
    appdata: Option<&str>,
    localappdata: Option<&str>,
    installs: &Vec<MiseInstall>,
    npm_root: Option<ToolOutput>,
    npm_prefix: Option<ToolOutput>,
    present: &E,
    res: Option<FilePath>,
    root: Option<String>,
    prefix: Option<String>,
    i: int,
    v: int,
)
    requires
        call_ensures(
            Config::detect_auggie_entry_windows::<E>,
            (appdata, localappdata, installs, npm_root, npm_prefix, present),
            res,
        ),
        call_ensures(printed_answer, (npm_root,), root),
        call_ensures(printed_answer, (npm_prefix,), prefix),
        ({
            let first = places_without_installs(appdata, localappdata, root, prefix).0;
            forall|j: int|
                0 <= j < first.len() ==> !answered(*present, encode_utf8(#[trigger] first[j]), true)
        }),
        0 <= i < installs@.len(),
        is_auggie_install(installs@[i].name@),
        0 <= v < installs@[i].versions@.len(),
        !answered(*present, encode_utf8(version_entry(installs@[i].versions@[v]@)), false),
        forall|j: int, w: int|
            0 <= j < i && is_auggie_install(installs@[j].name@) && 0 <= w
                < installs@[j].versions@.len() || j == i && 0 <= w < v ==> !answered(
                *present,
                encode_utf8(version_entry((#[trigger] installs@[j].versions@[w])@)),
                true,
            ),
    ensures
        opt_path_view(res) == Some(encode_utf8(version_entry(installs@[i].versions@[v]@))),
{
    let (first, last) = places_without_installs(appdata, localappdata, root, prefix);
    let entries = install_entries(installs@);
    let less = installs@.take(i);
    let upto = installs@.take(i + 1);
    let versions = installs@[i].versions@;
    assert(upto.drop_last() =~= less);
    assert(upto.last() == installs@[i]);
    lemma_install_entries_grow(installs@, i);
    lemma_install_entries_grow(installs@, i + 1);
    assert forall|j: int, w: int|
        0 <= j < less.len() && is_auggie_install(less[j].name@) && 0 <= w
            < less[j].versions@.len() implies !answered(
        *present,
        encode_utf8(version_entry((#[trigger] less[j].versions@[w])@)),
        true,
    ) by {
        assert(installs@[j].versions@[w] == less[j].versions@[w]);
    }
    lemma_entries_absent(*present, less);
    let before = install_entries(less);
    let own = install_entries(upto);
    let at = before.len() as int;
    assert(own =~= before + text_views(versions).map_values(|s: Seq<char>| version_entry(s)));
    assert forall|j: int| 0 <= j < versions.len() implies entries[at + j] == version_entry(
        #[trigger] versions[j]@,
    ) by {
        assert(own[at + j] == version_entry(text_views(versions)[j]));
        assert(entries[at + j] == own[at + j]);
    }
    assert(entries[at + v] == version_entry(versions[v]@));
    assert forall|n: int| 0 <= n < at + v implies !answered(
        *present,
        encode_utf8(#[trigger] entries[n]),
        true,
    ) by {
        if n < at {
            assert(entries[n] == before[n]);
        } else {
            assert(entries[at + (n - at)] == version_entry(versions[n - at]@));
            assert(!answered(
                *present,
                encode_utf8(version_entry(installs@[i].versions@[n - at]@)),
                true,
            ));
        }
    }
    let kept = choose|kept: Seq<Seq<char>>| #[trigger]
        seen_of(*present, entries, kept) && first_present(
            *present,
            encoded(
                windows_entry_candidates(
                    opt_str_view(appdata),
                    opt_str_view(localappdata),
                    kept,
                    tool_answer(npm_root),
                    tool_answer(npm_prefix),
                ),
            ),
            opt_path_view(res),
        );
    lemma_first_seen(*present, entries, kept, at + v);
    lemma_places(appdata, localappdata, kept, npm_root, npm_prefix, root, prefix);
    let all = encoded(first + kept + last);
    let k = first.len() as int;
    assert forall|j: int| 0 <= j < k implies !answered(*present, #[trigger] all[j], true) by {
        assert(all[j] == encode_utf8(first[j]));
    }
    assert(all[k] == encode_utf8(kept[0]));
    lemma_first_existing(*present, all, opt_path_view(res), k);
}

/// An entry script under the user's application data comes before any other.
pub proof fn application_data_comes_first<E: Fn(&FilePath) -> bool>(
    appdata: Option<&str>,
    localappdata: Option<&str>,
    installs: &Vec<MiseInstall>,
    npm_root: Option<ToolOutput>,
    npm_prefix: Option<ToolOutput>,
    present: &E,
    res: Option<FilePath>,
    root: Option<String>,
    prefix: Option<String>,
    k: int,
)
    requires
        call_ensures(
            Config::detect_auggie_entry_windows::<E>,
            (appdata, localappdata, installs, npm_root, npm_prefix, present),
            res,
        ),
        call_ensures(printed_answer, (npm_root,), root),
        call_ensures(printed_answer, (npm_prefix,), prefix),
        ({
            let first = places_without_installs(appdata, localappdata, root, prefix).0;
            &&& 0 <= k < first.len()
            &&& !answered(*present, encode_utf8(first[k]), false)
            &&& forall|j: int|
                0 <= j < k ==> !answered(*present, encode_utf8(#[trigger] first[j]), true)
        }),
    ensures
        opt_path_view(res) == Some(
            encode_utf8(places_without_installs(appdata, localappdata, root, prefix).0[k]),
        ),
{
    let (first, last) = places_without_installs(appdata, localappdata, root, prefix);
    let kept = choose|kept: Seq<Seq<char>>| #[trigger]
        seen_of(*present, install_entries(installs@), kept) && first_present(
            *present,
            encoded(
                windows_entry_candidates(
                    opt_str_view(appdata),
                    opt_str_view(localappdata),
                    kept,
                    tool_answer(npm_root),
                    tool_answer(npm_prefix),
                ),
            ),
            opt_path_view(res),
        );
    lemma_places(appdata, localappdata, kept, npm_root, npm_prefix, root, prefix);
    let all = encoded(first + kept + last);
    assert forall|j: int| 0 <= j < k implies !answered(*present, #[trigger] all[j], true) by {
        assert(all[j] == encode_utf8(first[j]));
    }
    assert(all[k] == encode_utf8(first[k]));
    lemma_first_existing(*present, all, opt_path_view(res), k);
}

proof fn lemma_name_len(name: Seq<char>, rest: Seq<char>)
    requires
        !name.contains('\\'),
        rest.len() > 0 ==> rest[0] == '\\',
    ensures
        name_len(name + rest) == name.len(),
    decreases name.len(),
{
    let whole = name + rest;
    if name.len() == 0 {
        assert(whole =~= rest);
    } else {
        assert(name.contains(name[0]));
        assert(whole[0] == name[0]);
        assert(whole.skip(1) =~= name.skip(1) + rest);
        assert forall|i: int| 0 <= i < name.skip(1).len() implies name.skip(1)[i] != '\\' by {
            assert(name.contains(name[i + 1]));
        }
        lemma_name_len(name.skip(1), rest);
    }
}

/// A name is joined with a backslash to a directory of a share behind a verbatim prefix too, where
/// single backslashes separate its names.
pub proof fn name_is_joined_to_a_verbatim_share(
    dir: &str,
    server: Seq<char>,
    share: Seq<char>,
    tail: Seq<char>,
    name: &str,
    res: String,
)
    requires
        call_ensures(windows_join, (dir, name), res),
        dir@ == seq!['\\', '\\', '?', '\\', 'U', 'N', 'C', '\\'] + server + seq!['\\'] + share
            + tail,
        !server.contains('\\'),
        !share.contains('\\'),
        share.len() > 0,
        tail.len() > 0 ==> tail[0] == '\\' && tail.last() != '\\',
        forall|i: int| 0 <= i < tail.len() - 1 ==> !(#[trigger] tail[i] == '\\' && tail[i + 1] == '\\'),
    ensures
        res@ == dir@ + seq!['\\'] + name@,
{
    reveal_strlit("\\");
    assert("\\"@ =~= seq!['\\']);
    let d = dir@;
    let rest = d.skip(4);
    assert(rest[0] == 'U' && rest[1] == 'N' && rest[2] == 'C' && rest[3] == '\\');
    let behind = rest.skip(4);
    assert(behind =~= server + (seq!['\\'] + share + tail));
    lemma_name_len(server, seq!['\\'] + share + tail);
    assert(behind.skip(server.len() as int + 1) =~= share + tail);
    lemma_name_len(share, tail);
    let n = 8 + server.len() + 1 + share.len();
    assert(verbatim_prefix_len(d) == n);
    assert(d.skip(n as int) =~= tail);
    lemma_tidy_stays(tail);
    assert(d.take(n as int) + tail =~= d);
}

proof fn lemma_doubled_backslash(s: Seq<char>, t: Seq<char>)
    ensures
        tidied(s + seq!['\\', '\\'] + t) == tidied(s + seq!['\\'] + t),
    decreases t.len(),
{
    let a = s + seq!['\\', '\\'] + t;
    let b = s + seq!['\\'] + t;
    if t.len() == 0 {
        assert(a.drop_last() =~= b);
        assert(b.drop_last() =~= s);
    } else {
        let u = t.drop_last();
        lemma_doubled_backslash(s, u);
        assert(a.drop_last() =~= s + seq!['\\', '\\'] + u);
        assert(b.drop_last() =~= s + seq!['\\'] + u);
        assert(a.last() == t.last() && b.last() == t.last());
        if u.len() > 0 {
            assert(a[a.len() - 2] == u.last() && b[b.len() - 2] == u.last());
        } else {
            assert(a[a.len() - 2] == '\\' && b[b.len() - 2] == '\\');
        }
    }
}

/// Behind a verbatim drive a doubled backslash counts as one, and so does one at the end.
pub proof fn doubled_backslash_counts_once(
    once: &str,
    twice: &str,
    letter: char,
    s: Seq<char>,
    t: Seq<char>,
    name: &str,
    first: String,
    second: String,
)
    requires
        call_ensures(windows_join, (once, name), first),
        call_ensures(windows_join, (twice, name), second),
        'a' <= letter <= 'z' || 'A' <= letter <= 'Z',
        s.len() > 0 ==> s[0] == '\\',
        once@ == seq!['\\', '\\', '?', '\\', letter, ':'] + (s + seq!['\\'] + t),
        twice@ == seq!['\\', '\\', '?', '\\', letter, ':'] + (s + seq!['\\', '\\'] + t),
    ensures
        first@ == second@,
        t.len() == 0 && s.len() > 0 && s.last() != '\\' ==> first@ == seq![
            '\\',
            '\\',
            '?',
            '\\',
            letter,
            ':',
        ] + tidied(s) + seq!['\\'] + name@,
{
    reveal_strlit("\\");
    assert("\\"@ =~= seq!['\\']);
    let a = s + seq!['\\'] + t;
    let b = s + seq!['\\', '\\'] + t;
    assert(a[0] == '\\' && b[0] == '\\');
    assert(once@.skip(4)[0] == letter && once@.skip(4)[1] == ':' && once@.skip(4)[2] == a[0]);
    assert(twice@.skip(4)[0] == letter && twice@.skip(4)[1] == ':' && twice@.skip(4)[2] == b[0]);
    assert(verbatim_prefix_len(once@) == 6);
    assert(verbatim_prefix_len(twice@) == 6);
    assert(once@.skip(6) =~= a);
    assert(twice@.skip(6) =~= b);
    let start = seq!['\\', '\\', '?', '\\', letter, ':'];
    assert(once@.take(6) =~= start);
    assert(twice@.take(6) =~= start);
    lemma_doubled_backslash(s, t);
    if t.len() == 0 {
        assert(a.drop_last() =~= s);
    }
}

/// A name is joined with a backslash to any other verbatim directory too, where single backslashes
/// separate its names.
pub proof fn name_is_joined_to_a_verbatim_name(
    dir: &str,
    start: Seq<char>,
    tail: Seq<char>,
    name: &str,
    res: String,
)
    requires
        call_ensures(windows_join, (dir, name), res),
        dir@ == seq!['\\', '\\', '?', '\\'] + start + tail,
        !start.contains('\\'),
        start.len() > 0,
        start.len() < 2 || start[1] != ':',
        start.len() < 3 || start[0] != 'U' || start[1] != 'N' || start[2] != 'C',
        tail.len() > 0 ==> tail[0] == '\\' && tail.last() != '\\',
        forall|i: int| 0 <= i < tail.len() - 1 ==> !(#[trigger] tail[i] == '\\' && tail[i + 1] == '\\'),
    ensures
        res@ == dir@ + seq!['\\'] + name@,
{
    reveal_strlit("\\");
    assert("\\"@ =~= seq!['\\']);
    let d = dir@;
    let rest = d.skip(4);
    assert(rest =~= start + tail);
    assert(rest[0] == start[0]);
    if start.len() >= 2 {
        assert(rest[1] == start[1]);
    } else if tail.len() > 0 {
        assert(rest[1] == tail[0]);
    }
    if start.len() >= 3 {
        assert(rest[2] == start[2]);
    } else if start.len() == 2 && tail.len() > 0 {
        assert(rest[2] == tail[0]);
    }
    lemma_name_len(start, tail);
    let n = 4 + start.len();
    assert(verbatim_prefix_len(d) == n);
    assert(d.skip(n as int) =~= tail);
    lemma_tidy_stays(tail);
    assert(d.take(n as int) + tail =~= d);
}

} // verus!
