//! Where the configuration file and the tools are looked for.

use crate::config::{Config, FileConfig};
use crate::path::{
    components, is_file_name, join_adds_component, joined, opt_path_ref_view, opt_path_view, parent,
    path_views, FilePath,
};
use crate::probe::{answered, asks_anything};
use crate::text::{
    chars_of, concat, is_white, opt_str_view, string_between, text_views, trim, trimmed,
    trimming_leaves_the_middle,
};
use vstd::prelude::*;
use vstd::utf8::*;

verus! {

/// What a tool that was run to its end left behind.
pub struct ToolOutput {
    /// Whether it reported success.
    pub success: bool,
    /// What it printed.
    pub stdout: Vec<u8>,
}

/// What `output` says: the text that a successful tool printed, without the white space around
/// it. There is none where the tool did not run, failed, or printed something other than UTF-8.
pub open spec fn tool_answer(output: Option<ToolOutput>) -> Option<Seq<char>> {
    match tool_text(output) {
        Some(text) => Some(trimmed(text)),
        None => None,
    }
}

/// The text that a successful tool printed, if it is UTF-8.
pub open spec fn tool_text(output: Option<ToolOutput>) -> Option<Seq<char>> {
    match output {
        Some(output) => if output.success && valid_utf8(output.stdout@) {
            Some(decode_utf8(output.stdout@))
        } else {
            None
        },
        None => None,
    }
}

/// The text that a successful tool printed, if it is UTF-8.
pub fn printed_text(output: Option<ToolOutput>) -> (res: Option<String>)
    ensures
        match res {
            Some(text) => tool_text(output) == Some(text@),
            None => tool_text(output) is None,
        },
{
    match output {
        Some(output) => if output.success {
            match String::from_utf8(output.stdout) {
                Ok(text) => Some(text),
                Err(_) => None,
            }
        } else {
            None
        },
        None => None,
    }
}

/// The text that a successful tool printed, without the white space around it.
pub fn printed_answer(output: Option<ToolOutput>) -> (res: Option<String>)
    ensures
        match res {
            Some(text) => tool_answer(output) == Some(text@),
            None => tool_answer(output) is None,
        },
{
    match printed_text(output) {
        Some(text) => Some(trim(text.as_str())),
        None => None,
    }
}

/// The first line of `s`, without the character that ends it.
pub open spec fn first_line(s: Seq<char>) -> Seq<char>
    decreases s.len(),
{
    if s.len() == 0 || s[0] == '\n' {
        Seq::empty()
    } else {
        seq![s[0]] + first_line(s.drop_first())
    }
}

/// The first line of `s`, without the character that ends it.
pub fn line_of(s: &str) -> (res: String)
    ensures
        res@ == first_line(s@),
{
    let chars = chars_of(s);
    let mut i: usize = 0;
    proof {
        assert(chars@.skip(0) =~= chars@);
        assert(chars@.take(0) + first_line(chars@) =~= first_line(chars@));
    }
    while i < chars.len() && chars[i] != '\n'
        invariant
            i <= chars.len(),
            first_line(chars@) == chars@.take(i as int) + first_line(chars@.skip(i as int)),
        decreases chars.len() - i,
    {
        proof {
            let rest = chars@.skip(i as int);
            assert(rest.drop_first() =~= chars@.skip(i + 1));
            assert(chars@.take(i as int) + (seq![rest[0]] + first_line(rest.drop_first()))
                =~= chars@.take(i + 1) + first_line(chars@.skip(i + 1)));
        }
        i = i + 1;
    }
    proof {
        assert(chars@.take(i as int) + Seq::<char>::empty() =~= chars@.subrange(0, i as int));
    }
    string_between(&chars, 0, i)
}

/// `result` is the first of `candidates` that `present` saw; `None` if it saw none of them.
pub open spec fn first_present<E: Fn(&FilePath) -> bool>(
    present: E,
    candidates: Seq<Seq<u8>>,
    result: Option<Seq<u8>>,
) -> bool {
    match result {
        Some(found) => exists|k: int|
            0 <= k < candidates.len() && #[trigger] candidates[k] == found && answered(
                present,
                found,
                true,
            ) && forall|j: int|
                0 <= j < k ==> answered(present, #[trigger] candidates[j], false),
        None => forall|j: int|
            0 <= j < candidates.len() ==> answered(present, #[trigger] candidates[j], false),
    }
}

/// The bytes of each text of `v`.
pub open spec fn encoded(v: Seq<Seq<char>>) -> Seq<Seq<u8>> {
    v.map_values(|s: Seq<char>| encode_utf8(s))
}

/// The first of `candidates` that exists.
pub fn find_present<E: Fn(&FilePath) -> bool>(candidates: &Vec<String>, present: &E) -> (res: Option<
    FilePath,
>)
    requires
        asks_anything(*present),
    ensures
        first_present(*present, encoded(text_views(candidates@)), opt_path_view(res)),
{
    let ghost all = encoded(text_views(candidates@));
    let mut i: usize = 0;
    while i < candidates.len()
        invariant
            i <= candidates.len(),
            asks_anything(*present),
            all == encoded(text_views(candidates@)),
            forall|j: int| 0 <= j < i ==> answered(*present, #[trigger] all[j], false),
        decreases candidates.len() - i,
    {
        let path = FilePath::from_text(candidates[i].as_str());
        let there = present(&path);
        proof {
            assert(all[i as int] == path@);
            assert(answered(*present, path@, there));
        }
        if there {
            return Some(path);
        }
        i = i + 1;
    }
    None
}

/// Where an npm directory of global modules holds the entry script.
pub open spec fn entry_candidates(npm_root: Option<Seq<char>>) -> Seq<Seq<char>> {
    match npm_root {
        Some(root) => seq![
            root + "/augmentcode/auggie/augment.mjs"@,
            root + "/@augmentcode/auggie/augment.mjs"@,
        ],
        None => Seq::empty(),
    }
}

/// The name of the configuration file.
pub open spec fn config_name() -> Seq<u8> {
    encode_utf8("mcp-proxy.json"@)
}

/// The places where the configuration file is looked for, in their order: next to the
/// executable, in the working directory, in the user's configuration directory and in the home
/// directory. What is not known of them is skipped.
pub open spec fn config_candidates(
    exe: Option<Seq<u8>>,
    cwd: Option<Seq<u8>>,
    home: Option<Seq<char>>,
) -> Seq<Seq<u8>> {
    let by_exe: Seq<Seq<u8>> = if exe is Some && parent(exe.unwrap()) is Some {
        seq![joined(parent(exe.unwrap()).unwrap(), config_name())]
    } else {
        Seq::empty()
    };
    let by_cwd: Seq<Seq<u8>> = if cwd is Some {
        seq![joined(cwd.unwrap(), config_name())]
    } else {
        Seq::empty()
    };
    let by_home: Seq<Seq<u8>> = if home is Some {
        let dir = encode_utf8(home.unwrap());
        seq![
            joined(joined(dir, encode_utf8(".config"@)), config_name()),
            joined(dir, encode_utf8(".mcp-proxy.json"@)),
        ]
    } else {
        Seq::empty()
    };
    by_exe + by_cwd + by_home
}

/// `result` is what the first of `candidates` says that exists and can be read and understood;
/// `None` if there is no such file.
pub open spec fn first_loaded<E: Fn(&FilePath) -> bool, L: Fn(&FilePath) -> Option<FileConfig>>(
    present: E,
    load: L,
    candidates: Seq<FilePath>,
    result: Option<FileConfig>,
) -> bool {
    match result {
        Some(config) => exists|k: int|
            0 <= k < candidates.len() && answered(present, candidates[k]@, true) && call_ensures(
                load,
                (&#[trigger] candidates[k],),
                Some(config),
            ) && forall|j: int| 0 <= j < k ==> passed_over(present, load, #[trigger] candidates[j]),
        None => forall|j: int|
            0 <= j < candidates.len() ==> passed_over(present, load, #[trigger] candidates[j]),
    }
}

/// The file at `path` does not exist, or could not be read and understood.
pub open spec fn passed_over<E: Fn(&FilePath) -> bool, L: Fn(&FilePath) -> Option<FileConfig>>(
    present: E,
    load: L,
    path: FilePath,
) -> bool {
    answered(present, path@, false) || (answered(present, path@, true) && call_ensures(
        load,
        (&path,),
        None,
    ))
}

impl Config {
    /// The places where the configuration file is looked for, in their order.
    pub fn get_config_file_candidates(
        exe: Option<&FilePath>,
        cwd: Option<&FilePath>,
        home: Option<&str>,
    ) -> (res: Vec<FilePath>)
        ensures
            path_views(res@) == config_candidates(
                opt_path_ref_view(exe),
                opt_path_ref_view(cwd),
                opt_str_view(home),
            ),
    {
        let mut candidates: Vec<FilePath> = Vec::new();
        if let Some(exe) = exe {
            if let Some(dir) = exe.parent() {
                candidates.push(dir.join("mcp-proxy.json"));
            }
        }
        if let Some(cwd) = cwd {
            candidates.push(cwd.join("mcp-proxy.json"));
        }
        if let Some(home) = home {
            let dir = FilePath::from_text(home);
            candidates.push(dir.join(".config").join("mcp-proxy.json"));
            candidates.push(dir.join(".mcp-proxy.json"));
        }
        proof {
            assert(path_views(candidates@) =~= config_candidates(
                opt_path_ref_view(exe),
                opt_path_ref_view(cwd),
                opt_str_view(home),
            ));
        }
        candidates
    }

    /// Reads the configuration file: the first of `candidates` that exists and that `load` can
    /// read and understand.
    pub fn load_config_file<E: Fn(&FilePath) -> bool, L: Fn(&FilePath) -> Option<FileConfig>>(
        candidates: &Vec<FilePath>,
        present: &E,
        load: &L,
    ) -> (res: Option<FileConfig>)
        requires
            asks_anything(*present),
            forall|p: &FilePath| #[trigger] call_requires(*load, (p,)),
        ensures
            first_loaded(*present, *load, candidates@, res),
    {
        let mut i: usize = 0;
        while i < candidates.len()
            invariant
                i <= candidates.len(),
                asks_anything(*present),
                forall|p: &FilePath| #[trigger] call_requires(*load, (p,)),
                forall|j: int|
                    0 <= j < i ==> passed_over(*present, *load, #[trigger] candidates@[j]),
            decreases candidates.len() - i,
        {
            let path = &candidates[i];
            let there = present(path);
            assert(answered(*present, path@, there));
            if there {
                let loaded = load(path);
                assert(call_ensures(*load, (&candidates@[i as int],), loaded));
                if loaded.is_some() {
                    return loaded;
                }
            }
            i = i + 1;
        }
        None
    }

    /// The path of node, from what `which node` printed.
    pub fn detect_node_path(which: Option<ToolOutput>) -> (res: Option<FilePath>)
        ensures
            opt_path_view(res) == match tool_answer(which) {
                Some(answer) => Some(encode_utf8(answer)),
                None => None,
            },
    {
        match printed_answer(which) {
            Some(answer) => Some(FilePath::from_text(answer.as_str())),
            None => None,
        }
    }

    /// The path of the entry script, from what `npm root -g` printed.
    pub fn detect_auggie_entry<E: Fn(&FilePath) -> bool>(
        npm_root: Option<ToolOutput>,
        present: &E,
    ) -> (res: Option<FilePath>)
        requires
            asks_anything(*present),
        ensures
            first_present(
                *present,
                encoded(entry_candidates(tool_answer(npm_root))),
                opt_path_view(res),
            ),
    {
        let mut candidates: Vec<String> = Vec::new();
        let ghost answer = tool_answer(npm_root);
        match printed_answer(npm_root) {
            Some(root) => {
                candidates.push(concat(root.as_str(), "/augmentcode/auggie/augment.mjs"));
                candidates.push(concat(root.as_str(), "/@augmentcode/auggie/augment.mjs"));
            },
            None => {},
        }
        proof {
            assert(text_views(candidates@) =~= entry_candidates(answer));
        }
        find_present(&candidates, present)
    }
}

/// The first line of a text is what stands in front of its first line feed, or all of it.
pub proof fn first_line_ends_at_the_line_feed(text: &str, res: String, line: Seq<char>, rest: Seq<char>)
    requires
        call_ensures(line_of, (text,), res),
        !line.contains('\n'),
        text@ == line || text@ == line + seq!['\n'] + rest,
    ensures
        res@ == line,
{
    if text@ == line {
        assert(text@ =~= line + Seq::<char>::empty());
        lemma_first_line(line, Seq::empty());
    } else {
        let tail = seq!['\n'] + rest;
        assert(text@ =~= line + tail);
        lemma_first_line(line, tail);
    }
}

proof fn lemma_first_line(line: Seq<char>, tail: Seq<char>)
    requires
        !line.contains('\n'),
        tail.len() > 0 ==> tail[0] == '\n',
    ensures
        first_line(line + tail) == line,
    decreases line.len(),
{
    let whole = line + tail;
    if line.len() == 0 {
        assert(whole =~= tail);
        assert(first_line(whole) =~= line);
    } else {
        assert(line.contains(line[0]));
        assert(whole[0] == line[0]);
        assert(whole.drop_first() =~= line.drop_first() + tail);
        assert forall|i: int| 0 <= i < line.drop_first().len() implies line.drop_first()[i]
            != '\n' by {
            assert(line.contains(line[i + 1]));
        }
        lemma_first_line(line.drop_first(), tail);
        assert(first_line(whole) =~= line);
    }
}

/// What a tool printed counts only where the tool succeeded and printed UTF-8; then it is the text
/// without the white space around it.
pub proof fn only_a_successful_tool_answers(
    output: Option<ToolOutput>,
    whole: Option<String>,
    answer: Option<String>,
    before: Seq<char>,
    middle: Seq<char>,
    behind: Seq<char>,
)
    requires
        call_ensures(printed_text, (output,), whole),
        call_ensures(printed_answer, (output,), answer),
        forall|i: int| 0 <= i < before.len() ==> is_white(#[trigger] before[i]),
        forall|i: int| 0 <= i < behind.len() ==> is_white(#[trigger] behind[i]),
        middle.len() > 0 ==> !is_white(middle[0]) && !is_white(middle.last()),
    ensures
        whole is Some <==> (output matches Some(left) && left.success && valid_utf8(left.stdout@)),
        answer is Some <==> whole is Some,
        whole is Some ==> encode_utf8(whole.unwrap()@) == output.unwrap().stdout@,
        whole is Some && whole.unwrap()@ == before + middle + behind ==> answer.unwrap()@ == middle,
{
    trimming_leaves_the_middle(before, middle, behind);
    if whole is Some {
        decode_utf8_encode_utf8(output.unwrap().stdout@);
    }
}

/// Of several places the first that exists is found: one that exists while those before it do not
/// is found, and nothing is found where none exists.
pub proof fn first_existing_place_is_found<E: Fn(&FilePath) -> bool>(
    candidates: &Vec<String>,
    present: &E,
    res: Option<FilePath>,
    k: int,
)
    requires
        call_ensures(find_present::<E>, (candidates, present), res),
        0 <= k <= candidates@.len(),
        forall|j: int|
            0 <= j < k ==> !answered(*present, encode_utf8((#[trigger] candidates@[j])@), true),
    ensures
        k < candidates@.len() && !answered(*present, encode_utf8(candidates@[k]@), false)
            ==> opt_path_view(res) == Some(encode_utf8(candidates@[k]@)),
        k == candidates@.len() ==> res is None,
{
    let all = encoded(text_views(candidates@));
    assert forall|j: int| 0 <= j < k implies !answered(*present, #[trigger] all[j], true) by {
        assert(all[j] == encode_utf8(candidates@[j]@));
    }
    lemma_first_existing(*present, all, opt_path_view(res), k);
    if k < all.len() {
        assert(all[k] == encode_utf8(candidates@[k]@));
    }
}

pub(crate) proof fn lemma_first_existing<E: Fn(&FilePath) -> bool>(
    present: E,
    all: Seq<Seq<u8>>,
    result: Option<Seq<u8>>,
    k: int,
)
    requires
        first_present(present, all, result),
        0 <= k <= all.len(),
        forall|j: int| 0 <= j < k ==> !answered(present, #[trigger] all[j], true),
    ensures
        k < all.len() && !answered(present, all[k], false) ==> result == Some(all[k]),
        k == all.len() ==> result is None,
{
    match result {
        Some(found) => {
            let m = choose|m: int|
                0 <= m < all.len() && #[trigger] all[m] == found && answered(present, found, true)
                    && forall|j: int| 0 <= j < m ==> answered(present, #[trigger] all[j], false);
            if m < k {
                assert(!answered(present, all[m], true));
            } else if k < m {
                assert(answered(present, all[k], false));
            }
        },
        None => {
            if k < all.len() {
                assert(answered(present, all[k], false));
            }
        },
    }
}

/// The configuration is read from the first file that exists and can be understood: files that do
/// not exist and files that cannot be understood are passed over, and where all are, there is none.
pub proof fn first_readable_file_counts<
    E: Fn(&FilePath) -> bool,
    L: Fn(&FilePath) -> Option<FileConfig>,
>(
    candidates: &Vec<FilePath>,
    present: &E,
    load: &L,
    res: Option<FileConfig>,
    k: int,
    config: FileConfig,
)
    requires
        call_ensures(Config::load_config_file::<E, L>, (candidates, present, load), res),
        0 <= k <= candidates@.len(),
        forall|j: int, said: FileConfig|
            0 <= j < k ==> !answered(*present, candidates@[j]@, true) || !#[trigger] call_ensures(
                *load,
                (&candidates@[j],),
                Some(said),
            ),
    ensures
        k < candidates@.len() && !answered(*present, candidates@[k]@, false) && (forall|
            said: Option<FileConfig>,
        |
            #[trigger] call_ensures(*load, (&candidates@[k],), said) ==> said == Some(config))
            ==> res == Some(config),
        k == candidates@.len() ==> res is None,
{
    let all = candidates@;
    match res {
        Some(found) => {
            let m = choose|m: int|
                0 <= m < all.len() && answered(*present, all[m]@, true) && call_ensures(
                    *load,
                    (&#[trigger] all[m],),
                    Some(found),
                ) && forall|j: int|
                    0 <= j < m ==> passed_over(*present, *load, #[trigger] all[j]);
            assert(call_ensures(*load, (&all[m],), Some(found)));
            if k < m {
                assert(passed_over(*present, *load, all[k]));
            }
        },
        None => {
            if k < all.len() {
                assert(passed_over(*present, *load, all[k]));
            }
        },
    }
}

proof fn lemma_plain_name(text: Seq<char>)
    requires
        text.len() > 1,
        is_ascii_chars(text),
        !text.contains('/'),
    ensures
        is_file_name(encode_utf8(text)),
{
    is_ascii_chars_encode_utf8(text);
    let b = encode_utf8(text);
    assert(b.len() == text.len());
    assert(seq![0x2eu8].len() == 1);
    assert forall|i: int| 0 <= i < b.len() implies b[i] != 0x2f by {
        assert(b[i] == text[i] as u8);
        assert(text.contains(text[i]));
    }
}

/// The configuration file is looked for next to the executable, then in the working directory, then
/// in the user's configuration directory, then in the home directory, where each of them is known.
pub proof fn configuration_is_looked_for_in_order(
    exe: Option<&FilePath>,
    cwd: Option<&FilePath>,
    home: Option<&str>,
    res: Vec<FilePath>,
)
    requires
        call_ensures(Config::get_config_file_candidates, (exe, cwd, home), res),
    ensures
        ({
            let beside = exe is Some && parent(exe.unwrap()@) is Some;
            let a: int = if beside {
                1
            } else {
                0
            };
            let b: int = if cwd is Some {
                a + 1
            } else {
                a
            };
            &&& beside ==> components(res@[0]@) == components(parent(exe.unwrap()@).unwrap()).push(
                encode_utf8("mcp-proxy.json"@),
            )
            &&& cwd is Some ==> components(res@[a]@) == components(cwd.unwrap()@).push(
                encode_utf8("mcp-proxy.json"@),
            )
            &&& home is Some ==> {
                let dir = components(encode_utf8(home.unwrap()@));
                &&& components(res@[b]@) == dir.push(encode_utf8(".config"@)).push(
                    encode_utf8("mcp-proxy.json"@),
                )
                &&& components(res@[b + 1]@) == dir.push(encode_utf8(".mcp-proxy.json"@))
            }
            &&& res@.len() == (if home is Some {
                b + 2
            } else {
                b
            })
        }),
{
    reveal_strlit("mcp-proxy.json");
    reveal_strlit(".config");
    reveal_strlit(".mcp-proxy.json");
    lemma_plain_name("mcp-proxy.json"@);
    lemma_plain_name(".config"@);
    lemma_plain_name(".mcp-proxy.json"@);
    let name = encode_utf8("mcp-proxy.json"@);
    let all = path_views(res@);
    let listed = config_candidates(
        opt_path_ref_view(exe),
        opt_path_ref_view(cwd),
        opt_str_view(home),
    );
    assert(all == listed);
    assert(all.len() == res@.len());
    let beside = exe is Some && parent(exe.unwrap()@) is Some;
    let a: int = if beside {
        1
    } else {
        0
    };
    let b: int = if cwd is Some {
        a + 1
    } else {
        a
    };
    if beside {
        join_adds_component(parent(exe.unwrap()@).unwrap(), name);
        assert(listed[0] == joined(parent(exe.unwrap()@).unwrap(), name));
        assert(all[0] == res@[0]@);
    }
    if let Some(dir) = cwd {
        join_adds_component(dir@, name);
        assert(listed[a] == joined(dir@, name));
        assert(all[a] == res@[a]@);
    }
    if let Some(home) = home {
        let dir = encode_utf8(home@);
        join_adds_component(dir, encode_utf8(".config"@));
        join_adds_component(joined(dir, encode_utf8(".config"@)), name);
        join_adds_component(dir, encode_utf8(".mcp-proxy.json"@));
        assert(listed[b] == joined(joined(dir, encode_utf8(".config"@)), name));
        assert(listed[b + 1] == joined(dir, encode_utf8(".mcp-proxy.json"@)));
        assert(all[b] == res@[b]@);
        assert(all[b + 1] == res@[b + 1]@);
        assert(res@.len() == b + 2);
    } else {
        assert(opt_str_view(home) is None);
        assert(listed.len() == b);
    }
}

/// Node is where the tool that looks for it says, and nowhere if that tool does not answer.
pub proof fn node_is_where_the_tool_says(
    which: Option<ToolOutput>,
    res: Option<FilePath>,
    answer: Option<String>,
)
    requires
        call_ensures(Config::detect_node_path, (which,), res),
        call_ensures(printed_answer, (which,), answer),
    ensures
        res is Some <==> answer is Some,
        answer is Some ==> res.unwrap()@ == encode_utf8(answer.unwrap()@),
{
}

/// The entry script is looked for in two places in the directory of global modules: in the package
/// without the sign of a scope first, then in the one with it. Without that directory nothing is
/// found.
pub proof fn entry_is_looked_for_in_both_packages<E: Fn(&FilePath) -> bool>(
    npm_root: Option<ToolOutput>,
    present: &E,
    res: Option<FilePath>,
    answer: Option<String>,
)
    requires
        call_ensures(Config::detect_auggie_entry::<E>, (npm_root, present), res),
        call_ensures(printed_answer, (npm_root,), answer),
    ensures
        answer is None ==> res is None,
        answer matches Some(root) ==> {
            let plain = encode_utf8(root@ + "/augmentcode/auggie/augment.mjs"@);
            let scoped = encode_utf8(root@ + "/@augmentcode/auggie/augment.mjs"@);
            &&& !answered(*present, plain, false) ==> opt_path_view(res) == Some(plain)
            &&& !answered(*present, plain, true) && !answered(*present, scoped, false)
                ==> opt_path_view(res) == Some(scoped)
            &&& !answered(*present, plain, true) && !answered(*present, scoped, true)
                ==> res is None
        },
{
    let all = encoded(entry_candidates(tool_answer(npm_root)));
    let result = opt_path_view(res);
    if answer is None {
        lemma_first_existing(*present, all, result, 0);
    } else {
        let root = answer.unwrap()@;
        assert(all.len() == 2);
        assert(all[0] == encode_utf8(root + "/augmentcode/auggie/augment.mjs"@));
        assert(all[1] == encode_utf8(root + "/@augmentcode/auggie/augment.mjs"@));
        lemma_first_existing(*present, all, result, 0);
        if !answered(*present, all[0], true) {
            lemma_first_existing(*present, all, result, 1);
            if !answered(*present, all[1], true) {
                lemma_first_existing(*present, all, result, 2);
            }
        }
    }
}

} // verus!
