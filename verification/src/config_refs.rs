//! Finding the tool configurations that name a location, so that a
//! location a tool still points at is not cleaned.
use vstd::prelude::*;

use crate::paths::{join, join_path, lies_under};
use crate::text::{
    chars_contain, concat_str, contains_seq, from_chars, from_utf8_lossy, replace_char, replace_chars, string_of,
    to_chars, to_lowercase, unicode_lower, utf8_lossy,
};
use crate::v2::path_safety::{extension_chars, extension_of_name, file_name_chars, file_name_of, is_sep, views};

verus! {

/// Where configurations are looked for.
#[derive(Debug, Clone, PartialEq, Eq)]
pub struct ConfigSearchRoots {
    pub user_profile: String,
}

/// A configuration that names a location, shown without the user's name.
#[derive(Debug, Clone, PartialEq, Eq)]
pub struct ConfigReference {
    pub display_name: String,
}

/// A configuration file as read: its path and its bytes (`None` when it
/// does not exist or could not be read).
#[derive(Debug, Clone, PartialEq, Eq)]
pub struct ConfigFile {
    pub path: String,
    pub contents: Option<Vec<u8>>,
}

/// The configuration files looked at directly.
pub open spec fn config_files_of(user_profile: Seq<char>) -> Seq<Seq<char>> {
    seq![join_path(user_profile, ".codex.json"@)]
}

/// The configuration folders searched (four levels deep) for files.
pub open spec fn config_dirs_of(user_profile: Seq<char>) -> Seq<Seq<char>> {
    seq![
        join_path(user_profile, ".codex"@),
        join_path(user_profile, ".cursor"@),
        join_path(user_profile, ".vscode"@),
        join_path(user_profile, ".trae"@),
    ]
}

/// The configuration files looked at directly (see `config_files_of`).
pub fn known_config_files(roots: &ConfigSearchRoots) -> (r: Vec<String>)
    ensures
        views(r@) == config_files_of(roots.user_profile@),
{
    let mut r: Vec<String> = Vec::new();
    r.push(join(roots.user_profile.as_str(), ".codex.json"));
    assert(views(r@) =~= config_files_of(roots.user_profile@));
    r
}

/// The configuration folders searched for files (see `config_dirs_of`).
pub fn known_config_dirs(roots: &ConfigSearchRoots) -> (r: Vec<String>)
    ensures
        views(r@) == config_dirs_of(roots.user_profile@),
{
    let mut r: Vec<String> = Vec::new();
    r.push(join(roots.user_profile.as_str(), ".codex"));
    r.push(join(roots.user_profile.as_str(), ".cursor"));
    r.push(join(roots.user_profile.as_str(), ".vscode"));
    r.push(join(roots.user_profile.as_str(), ".trae"));
    assert(views(r@) =~= config_dirs_of(roots.user_profile@));
    r
}

/// Runs of backslashes collapsed into one.
pub open spec fn collapse_backslashes(s: Seq<char>) -> Seq<char>
    decreases s.len(),
{
    if s.len() == 0 {
        Seq::empty()
    } else if s.last() == '\\' && s.len() >= 2 && s[s.len() - 2] == '\\' {
        collapse_backslashes(s.drop_last())
    } else {
        collapse_backslashes(s.drop_last()).push(s.last())
    }
}

/// Runs of backslashes collapsed into one (see `collapse_backslashes`).
pub fn normalize_slashes(input: &Vec<char>) -> (r: Vec<char>)
    ensures
        r@ == collapse_backslashes(input@),
{
    let mut out: Vec<char> = Vec::new();
    let mut previous_was_slash = false;
    let mut i: usize = 0;
    while i < input.len()
        invariant
            i <= input@.len(),
            out@ == collapse_backslashes(input@.take(i as int)),
            previous_was_slash == (i > 0 && input@[i - 1] == '\\'),
        decreases input@.len() - i,
    {
        proof {
            assert(input@.take(i + 1).drop_last() =~= input@.take(i as int));
            assert(input@.take(i + 1).last() == input@[i as int]);
            if i > 0 {
                assert(input@.take(i + 1)[i - 1] == input@[i - 1]);
            }
        }
        let c = input[i];
        if c == '\\' {
            if !previous_was_slash {
                out.push(c);
            }
            previous_was_slash = true;
        } else {
            out.push(c);
            previous_was_slash = false;
        }
        i += 1;
    }
    assert(input@.take(input@.len() as int) =~= input@);
    out
}

/// The form in which paths and configuration texts are compared: `/` read
/// as `\\`, lower-cased, runs of backslashes collapsed.
pub open spec fn search_form(text: Seq<char>) -> Seq<char> {
    collapse_backslashes(unicode_lower(replace_char(text, '/', '\\')))
}

/// The comparison form of a text (see `search_form`).
pub fn normalize_for_search(text: &str) -> (r: Vec<char>)
    ensures
        r@ == search_form(text@),
{
    let replaced = from_chars(&replace_chars(&to_chars(text), '/', '\\'));
    let lowered = to_lowercase(replaced.as_str());
    normalize_slashes(&to_chars(lowered.as_str()))
}

/// The extensions of plain-text configuration files (compared exactly).
pub open spec fn plain_text_extension(e: Seq<char>) -> bool {
    e == "json"@ || e == "jsonl"@ || e == "toml"@ || e == "yaml"@ || e == "yml"@ || e == "ini"@ || e == "txt"@ || e
        == "config"@ || e == "conf"@
}

/// The file's extension is that of a plain-text configuration.
pub open spec fn is_plain_text_path(path: Seq<char>) -> bool {
    match file_name_of(path) {
        Some(name) => match extension_of_name(name) {
            Some(e) => plain_text_extension(e),
            None => false,
        },
        None => false,
    }
}

/// Whether a file looks like a plain-text configuration by its extension.
pub fn is_plain_text_candidate(path: &str) -> (r: bool)
    ensures
        r == is_plain_text_path(path@),
{
    let name = match file_name_chars(&to_chars(path)) {
        Some(n) => n,
        None => return false,
    };
    let e = match extension_chars(&name) {
        Some(e) => e,
        None => return false,
    };
    let ev = e.as_slice();
    let r = crate::text::chars_eq(ev, &to_chars("json")) || crate::text::chars_eq(ev, &to_chars("jsonl"))
        || crate::text::chars_eq(ev, &to_chars("toml")) || crate::text::chars_eq(ev, &to_chars("yaml"))
        || crate::text::chars_eq(ev, &to_chars("yml")) || crate::text::chars_eq(ev, &to_chars("ini"))
        || crate::text::chars_eq(ev, &to_chars("txt")) || crate::text::chars_eq(ev, &to_chars("config"))
        || crate::text::chars_eq(ev, &to_chars("conf"));
    r
}

/// The first 512 bytes hold a zero byte.
pub open spec fn binary_looking(bytes: Seq<u8>) -> bool {
    exists|i: int| 0 <= i < bytes.len() && i < 512 && bytes[i] == 0
}

/// Whether the bytes look binary (see `binary_looking`).
pub fn looks_binary(bytes: &[u8]) -> (r: bool)
    ensures
        r == binary_looking(bytes@),
{
    let mut i: usize = 0;
    while i < bytes.len() && i < 512
        invariant
            i <= bytes@.len(),
            i <= 512,
            forall|j: int| 0 <= j < i ==> bytes@[j] != 0,
        decreases bytes@.len() - i,
    {
        if bytes[i] == 0 {
            return true;
        }
        i += 1;
    }
    false
}

/// How a configuration file is shown: its path below the user's folder, or
/// only that it is a user configuration file.
pub open spec fn display_without_username(path: Seq<char>, user_profile: Seq<char>) -> Seq<char> {
    if user_profile.len() > 0 && lies_under(path, user_profile) {
        "用户配置\\"@ + crate::text::trim_start_by(path.skip(user_profile.len() as int), |c: char| is_sep(c))
    } else {
        "用户配置文件"@
    }
}

/// How a configuration file is shown (see `display_without_username`).
pub fn path_display_without_username(path: &str, user_profile: &str) -> (r: String)
    ensures
        r@ == display_without_username(path@, user_profile@),
{
    let p = to_chars(path);
    let q = to_chars(user_profile);
    if q.len() > 0 && crate::text::chars_start_with(&p, &q) && (p.len() == q.len() || (q[q.len() - 1] == '\\' || q[q.len() - 1] == '/')
        || p[q.len()] == '\\' || p[q.len()] == '/') {
        let tail = crate::text::slice_chars(&p, q.len(), p.len());
        assert(tail@ =~= path@.skip(user_profile@.len() as int));
        let n = tail.len();
        let mut start: usize = 0;
        while start < n && (tail[start] == '\\' || tail[start] == '/')
            invariant
                n == tail@.len(),
                start <= n,
                forall|j: int| 0 <= j < start ==> is_sep(#[trigger] tail@[j]),
            decreases n - start,
        {
            start += 1;
        }
        proof {
            crate::text::lemma_leading_count_is(tail@, |c: char| is_sep(c), start as int);
        }
        let rest = from_chars(&crate::text::slice_chars(&tail, start, n));
        concat_str("用户配置\\", rest.as_str())
    } else {
        string_of("用户配置文件")
    }
}

/// The reference a configuration file gives, if any: the file must exist,
/// look like plain text by name and content, and its text (in search form)
/// must contain the candidate's search form.
pub open spec fn reference_in(file: ConfigFile, candidate: Seq<char>, user_profile: Seq<char>) -> Option<Seq<char>> {
    match file.contents {
        None => None,
        Some(bytes) => if !is_plain_text_path(file.path@) || binary_looking(bytes@) {
            None
        } else if contains_seq(search_form(utf8_lossy(bytes@)), candidate) {
            Some(display_without_username(file.path@, user_profile))
        } else {
            None
        },
    }
}

/// The reference a configuration file gives, if any (see `reference_in`);
/// `candidate` is already in search form.
pub fn scan_config_file(file: &ConfigFile, candidate: &Vec<char>, roots: &ConfigSearchRoots) -> (r: Option<ConfigReference>)
    ensures
        match reference_in(*file, candidate@, roots.user_profile@) {
            Some(d) => r matches Some(c) && c.display_name@ == d,
            None => r is None,
        },
{
    let bytes = match &file.contents {
        None => return None,
        Some(b) => b,
    };
    if !is_plain_text_candidate(file.path.as_str()) || looks_binary(bytes.as_slice()) {
        return None;
    }
    let text = from_utf8_lossy(bytes.as_slice());
    let form = normalize_for_search(text.as_str());
    if chars_contain(&form, candidate) {
        Some(ConfigReference { display_name: path_display_without_username(file.path.as_str(), roots.user_profile.as_str()) })
    } else {
        None
    }
}

/// The references found in the configuration files, in file order.
pub open spec fn references_in(files: Seq<ConfigFile>, candidate: Seq<char>, user_profile: Seq<char>) -> Seq<Seq<char>>
    decreases files.len(),
{
    if files.len() == 0 {
        Seq::empty()
    } else {
        references_in(files.drop_last(), candidate, user_profile) + match reference_in(files.last(), candidate, user_profile) {
            Some(d) => seq![d],
            None => Seq::empty(),
        }
    }
}

/// The configurations that name a location: each of the given files
/// (those of `known_config_files`, then the files found in
/// `known_config_dirs`) that contains the location's search form.
pub fn find_config_references(candidate_path: &str, roots: &ConfigSearchRoots, files: &Vec<ConfigFile>) -> (r: Vec<ConfigReference>)
    ensures
        Seq::new(r@.len(), |k: int| r@[k].display_name@) == references_in(files@, search_form(candidate_path@), roots.user_profile@),
{
    let candidate = normalize_for_search(candidate_path);
    let mut refs: Vec<ConfigReference> = Vec::new();
    let mut i: usize = 0;
    while i < files.len()
        invariant
            i <= files@.len(),
            candidate@ == search_form(candidate_path@),
            Seq::new(refs@.len(), |k: int| refs@[k].display_name@) == references_in(files@.take(i as int), candidate@, roots.user_profile@),
        decreases files@.len() - i,
    {
        proof {
            assert(files@.take(i + 1).drop_last() =~= files@.take(i as int));
        }
        let ghost before = refs@;
        match scan_config_file(&files[i], &candidate, roots) {
            Some(c) => {
                refs.push(c);
                proof {
                    assert(Seq::new(refs@.len(), |k: int| refs@[k].display_name@) =~= Seq::new(before.len(), |k: int| before[k].display_name@)
                        + seq![refs@.last().display_name@]);
                }
            },
            None => {
                proof {
                    assert(Seq::new(before.len(), |k: int| before[k].display_name@) + Seq::<Seq<char>>::empty()
                        =~= Seq::new(before.len(), |k: int| before[k].display_name@));
                }
            },
        }
        i += 1;
    }
    proof {
        assert(files@.take(files@.len() as int) =~= files@);
    }
    refs
}

/// The extension of a file's name, if it has one.
pub open spec fn name_extension(path: Seq<char>) -> Option<Seq<char>> {
    match file_name_of(path) {
        Some(name) => extension_of_name(name),
        None => None,
    }
}

/// Only plain-text configurations are searched: a file whose extension is
/// exactly json, jsonl, toml, yaml, yml, ini, txt, config or conf, that can
/// be read and does not look binary, gives a reference whenever its text in
/// search form contains the candidate; a file with no extension or any other
/// one gives none.
pub proof fn law_plain_text_configurations_are_searched(file: ConfigFile, candidate: Seq<char>, user_profile: Seq<char>)
    ensures
        ((name_extension(file.path@) matches Some(e) && ("json"@ == e || "jsonl"@ == e || "toml"@ == e || "yaml"@ == e || "yml"@ == e || "ini"@ == e || "txt"@ == e || "config"@ == e || "conf"@ == e)) && (file.contents matches Some(b) && !binary_looking(b@)
            && contains_seq(search_form(utf8_lossy(b@)), candidate))) ==> reference_in(file, candidate, user_profile)
            == Some(display_without_username(file.path@, user_profile)),
        !(name_extension(file.path@) matches Some(e) && ("json"@ == e || "jsonl"@ == e || "toml"@ == e || "yaml"@ == e || "yml"@ == e || "ini"@ == e || "txt"@ == e || "config"@ == e || "conf"@ == e)) ==> reference_in(file, candidate, user_profile) is None,
{
}

} // verus!
