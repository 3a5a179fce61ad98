//! Comparison keys for Windows paths and the protected-location rules built
//! on them.
use vstd::prelude::*;

use crate::text::{
    ascii_lower, ascii_upper, char_is_ascii_alpha, chars_eq, chars_start_with, from_chars,
    is_ascii_alpha, lemma_trailing_count_is_pub, lower_ascii, replace_char, replace_chars,
    slice_chars, starts_with, string_of, to_chars, trim, trim_chars, trim_end_by, upper_ascii,
    upper_ascii_char, upper_char,
};

verus! {

/// `s` starts with the verbatim UNC prefix `\\?\UNC\`.
pub open spec fn has_verbatim_unc_prefix(s: Seq<char>) -> bool {
    s.len() >= 8 && s[0] == '\\' && s[1] == '\\' && s[2] == '?' && s[3] == '\\' && s[4] == 'U'
        && s[5] == 'N' && s[6] == 'C' && s[7] == '\\'
}

/// `s` starts with a verbatim drive prefix such as `\\?\C:`.
pub open spec fn has_verbatim_disk_prefix(s: Seq<char>) -> bool {
    s.len() >= 6 && s[0] == '\\' && s[1] == '\\' && s[2] == '?' && s[3] == '\\' && is_ascii_alpha(
        s[4],
    ) && s[5] == ':'
}

/// The path with a verbatim prefix rewritten to its ordinary form:
/// `\\?\UNC\server\share` becomes `\\server\share` and `\\?\C:\x` becomes `C:\x`.
pub open spec fn strip_verbatim(s: Seq<char>) -> Seq<char> {
    if has_verbatim_unc_prefix(s) {
        seq!['\\', '\\'] + s.skip(8)
    } else if has_verbatim_disk_prefix(s) {
        s.skip(4)
    } else {
        s
    }
}

/// The comparison key of a path: trimmed, verbatim prefix removed, forward
/// slashes turned into backslashes, trailing separators removed, ASCII
/// letters lower-cased.
pub open spec fn path_key(s: Seq<char>) -> Seq<char> {
    ascii_lower(
        trim_end_by(
            replace_char(strip_verbatim(trim(s)), '/', '\\'),
            |c: char| c == '\\',
        ),
    )
}

/// `key` names `parent` itself or a location below it.
pub open spec fn same_or_child(key: Seq<char>, parent: Seq<char>) -> bool {
    &&& parent.len() > 0
    &&& (key == parent || (starts_with(key, parent) && key.len() > parent.len() && key[parent.len() as int]
        == '\\'))
}

/// The system locations that are always treated as protected.
pub open spec fn system_paths() -> Seq<Seq<char>> {
    seq!["C:\\Windows"@, "C:\\Program Files"@, "C:\\Program Files (x86)"@, "C:\\ProgramData"@]
}

/// `key` lies in one of `roots` (each given as a path, compared by its key).
pub open spec fn under_any(key: Seq<char>, roots: Seq<Seq<char>>) -> bool {
    exists|i: int| 0 <= i < roots.len() && same_or_child(key, path_key(#[trigger] roots[i]))
}

/// The views of a list of strings.
pub open spec fn views(v: Seq<String>) -> Seq<Seq<char>> {
    Seq::new(v.len(), |i: int| v[i]@)
}

/// A path is protected when it lies in a system location or in one of the
/// user's protected paths.
pub open spec fn is_protected_path(path: Seq<char>, protected: Seq<Seq<char>>) -> bool {
    under_any(path_key(path), system_paths()) || under_any(path_key(path), protected)
}

/// The drive label (`"C:"`) of a path that starts with a drive letter.
pub open spec fn drive_label_of(path: Seq<char>) -> Seq<char> {
    if path.len() >= 2 && is_ascii_alpha(path[0]) && path[1] == ':' {
        seq![upper_char(path[0]), ':']
    } else {
        Seq::empty()
    }
}

/// The root directory named by a drive selection such as `"d"` or `"D:"`.
pub open spec fn drive_root_of(drive: Seq<char>) -> Option<Seq<char>> {
    let t = trim(drive);
    if t.len() == 2 && is_ascii_alpha(t[0]) && t[1] == ':' {
        Some(ascii_upper(t) + seq!['\\'])
    } else if t.len() == 1 && is_ascii_alpha(t[0]) {
        Some(ascii_upper(t) + seq![':', '\\'])
    } else {
        None
    }
}

fn verbatim_stripped(t: &[char]) -> (r: Vec<char>)
    ensures
        r@ == strip_verbatim(t@),
{
    let n = t.len();
    if n >= 8 && t[0] == '\\' && t[1] == '\\' && t[2] == '?' && t[3] == '\\' && t[4] == 'U' && t[5]
        == 'N' && t[6] == 'C' && t[7] == '\\' {
        let mut r: Vec<char> = Vec::new();
        r.push('\\');
        r.push('\\');
        let mut i: usize = 8;
        while i < n
            invariant
                8 <= i <= n,
                n == t@.len(),
                r@ =~= seq!['\\', '\\'] + t@.subrange(8, i as int),
            decreases n - i,
        {
            r.push(t[i]);
            i += 1;
        }
        r
    } else if n >= 6 && t[0] == '\\' && t[1] == '\\' && t[2] == '?' && t[3] == '\\'
        && char_is_ascii_alpha(t[4]) && t[5] == ':' {
        slice_chars(t, 4, n)
    } else {
        slice_chars(t, 0, n)
    }
}

fn trailing_backslashes_trimmed(v: &[char]) -> (r: Vec<char>)
    ensures
        r@ == trim_end_by(v@, |c: char| c == '\\'),
{
    let n = v.len();
    let mut end: usize = n;
    while end > 0 && v[end - 1] == '\\'
        invariant
            n == v@.len(),
            end <= n,
            forall|k: int| end <= k < n ==> #[trigger] v@[k] == '\\',
        decreases end,
    {
        end -= 1;
    }
    proof {
        let cnt = (n - end) as int;
        let strip = |c: char| c == '\\';
        assert forall|k: int| v@.len() - cnt <= k < v@.len() implies strip(#[trigger] v@[k]) by {}
        lemma_trailing_count_is_pub(v@, strip, cnt);
    }
    slice_chars(v, 0, end)
}

/// The comparison key of a path given as characters.
pub fn path_key_chars(path: &[char]) -> (r: Vec<char>)
    ensures
        r@ == path_key(path@),
{
    let t = trim_chars(path);
    let u = verbatim_stripped(&t);
    let v = replace_chars(&u, '/', '\\');
    let w = trailing_backslashes_trimmed(&v);
    lower_ascii(&w)
}

/// The comparison key of a path (see `path_key`).
pub fn normalized_string_key(path: &str) -> (r: String)
    ensures
        r@ == path_key(path@),
{
    let chars = to_chars(path);
    let key = path_key_chars(&chars);
    from_chars(&key)
}

/// The comparison key of a path that the caller has already resolved to its
/// canonical form.
pub fn canonical_path_key(path: &str) -> (r: String)
    ensures
        r@ == path_key(path@),
{
    normalized_string_key(path)
}

/// Whether `key` names `parent` or a location below it.
pub fn key_is_same_or_child(key: &[char], parent: &[char]) -> (r: bool)
    ensures
        r == same_or_child(key@, parent@),
{
    if parent.len() == 0 {
        return false;
    }
    if chars_eq(key, parent) {
        return true;
    }
    key.len() > parent.len() && chars_start_with(key, parent) && key[parent.len()] == '\\'
}

/// Whether the key `key` lies in one of `roots`.
pub fn key_under_any(key: &[char], roots: &Vec<String>) -> (r: bool)
    ensures
        r == under_any(key@, views(roots@)),
{
    let mut i: usize = 0;
    while i < roots.len()
        invariant
            i <= roots@.len(),
            forall|j: int|
                0 <= j < i ==> !same_or_child(key@, path_key(#[trigger] views(roots@)[j])),
        decreases roots@.len() - i,
    {
        let root = to_chars(roots[i].as_str());
        let root_key = path_key_chars(&root);
        if key_is_same_or_child(key, &root_key) {
            assert(views(roots@)[i as int] == roots@[i as int]@);
            return true;
        }
        assert(views(roots@)[i as int] == roots@[i as int]@);
        i += 1;
    }
    false
}

/// The system locations as owned strings.
pub fn system_path_list() -> (r: Vec<String>)
    ensures
        views(r@) == system_paths(),
{
    let mut r: Vec<String> = Vec::new();
    r.push(string_of("C:\\Windows"));
    r.push(string_of("C:\\Program Files"));
    r.push(string_of("C:\\Program Files (x86)"));
    r.push(string_of("C:\\ProgramData"));
    assert(views(r@) =~= system_paths());
    r
}

/// Whether a path lies in a system location or in one of the user's
/// protected paths.
pub fn is_protected_duplicate_path(path: &str, protected_paths: &Vec<String>) -> (r: bool)
    ensures
        r == is_protected_path(path@, views(protected_paths@)),
{
    let chars = to_chars(path);
    let key = path_key_chars(&chars);
    let system = system_path_list();
    key_under_any(&key, &system) || key_under_any(&key, protected_paths)
}

/// Scan locations are never hidden: system and protected locations are
/// scanned and their files are marked protected instead.
pub fn should_skip_scan_location(path: &str, protected_paths: &Vec<String>) -> (r: bool)
    ensures
        !r,
{
    false
}

/// The root directory of a selected drive (`"d"` and `" D: "` both give
/// `"D:\"`), or `None` when the text is not a drive.
pub fn selected_drive_to_root(drive: &str) -> (r: Option<String>)
    ensures
        match r {
            Some(root) => drive_root_of(drive@) == Some(root@),
            None => drive_root_of(drive@) is None,
        },
{
    let chars = to_chars(drive);
    let t = trim_chars(&chars);
    if t.len() == 2 && char_is_ascii_alpha(t[0]) && t[1] == ':' {
        let mut u = upper_ascii(&t);
        u.push('\\');
        Some(from_chars(&u))
    } else if t.len() == 1 && char_is_ascii_alpha(t[0]) {
        let mut u = upper_ascii(&t);
        u.push(':');
        u.push('\\');
        assert(u@ =~= ascii_upper(t@) + seq![':', '\\']);
        Some(from_chars(&u))
    } else {
        None
    }
}

/// The drive label (`"C:"`) of a path, or an empty string.
pub fn drive_label(path: &str) -> (r: String)
    ensures
        r@ == drive_label_of(path@),
{
    let chars = to_chars(path);
    if chars.len() >= 2 && char_is_ascii_alpha(chars[0]) && chars[1] == ':' {
        let mut v: Vec<char> = Vec::new();
        v.push(upper_ascii_char(chars[0]));
        v.push(':');
        assert(v@ =~= seq![upper_char(path@[0]), ':']);
        from_chars(&v)
    } else {
        from_chars(&Vec::new())
    }
}


/// A Windows path separator.
pub open spec fn is_sep(c: char) -> bool {
    c == '\\' || c == '/'
}

/// Index of the last occurrence of `c` in `s`, or -1.
pub open spec fn last_index_of(s: Seq<char>, c: char) -> int
    decreases s.len(),
{
    if s.len() == 0 {
        -1
    } else if s.last() == c {
        s.len() - 1
    } else {
        last_index_of(s.drop_last(), c)
    }
}

/// Index of the last separator in `s`, or -1.
pub open spec fn last_sep_index(s: Seq<char>) -> int
    decreases s.len(),
{
    if s.len() == 0 {
        -1
    } else if is_sep(s.last()) {
        s.len() - 1
    } else {
        last_sep_index(s.drop_last())
    }
}

/// The final component of a path (`Path::file_name`): the text after the
/// last separator, trailing separators ignored; none for an empty path,
/// `.`, `..` or a bare drive.
pub open spec fn file_name_of(p: Seq<char>) -> Option<Seq<char>> {
    let t = trim_end_by(p, |c: char| is_sep(c));
    let seg = t.skip(last_sep_index(t) + 1);
    if seg.len() == 0 || seg == "."@ || seg == ".."@ || (seg.len() == t.len() && seg.len() == 2
        && is_ascii_alpha(seg[0]) && seg[1] == ':') {
        None
    } else {
        Some(seg)
    }
}

/// The stem of a file name (`Path::file_stem`): the text before the last dot,
/// or the whole name when it has no dot or only a leading one.
pub open spec fn stem_of_name(name: Seq<char>) -> Seq<char> {
    let i = last_index_of(name, '.');
    if name == ".."@ || i <= 0 {
        name
    } else {
        name.take(i)
    }
}

/// The extension of a file name (`Path::extension`): the text after the last
/// dot, when there is a dot that does not start the name.
pub open spec fn extension_of_name(name: Seq<char>) -> Option<Seq<char>> {
    let i = last_index_of(name, '.');
    if name == ".."@ || i <= 0 {
        None
    } else {
        Some(name.skip(i + 1))
    }
}

/// An absolute Windows path: a drive with a root (`C:\`), or one that starts
/// with two separators (UNC, verbatim and device paths).
pub open spec fn is_absolute_path(p: Seq<char>) -> bool {
    (p.len() >= 3 && is_ascii_alpha(p[0]) && p[1] == ':' && is_sep(p[2])) || (p.len() >= 2 && is_sep(
        p[0],
    ) && is_sep(p[1]))
}

/// An absolute path on a local drive: `X:\...` or `\\?\X:\...`.
pub open spec fn is_local_drive_absolute(p: Seq<char>) -> bool {
    (p.len() >= 3 && is_ascii_alpha(p[0]) && p[1] == ':' && is_sep(p[2])) || (p.len() >= 7 && p[0]
        == '\\' && p[1] == '\\' && p[2] == '?' && p[3] == '\\' && is_ascii_alpha(p[4]) && p[5] == ':'
        && p[6] == '\\')
}

pub(crate) fn last_sep_index_exec(t: &[char]) -> (r: usize)
    ensures
        r as int == last_sep_index(t@) + 1,
        r <= t@.len(),
{
    let mut i: usize = t.len();
    assert(t@.take(t@.len() as int) =~= t@);
    while i > 0 && !(t[i - 1] == '\\' || t[i - 1] == '/')
        invariant
            i <= t@.len(),
            last_sep_index(t@) == last_sep_index(t@.take(i as int)),
        decreases i,
    {
        proof {
            assert(t@.take(i as int).drop_last() =~= t@.take(i - 1));
        }
        i -= 1;
    }
    proof {
        assert(t@.take(t@.len() as int) =~= t@);
        if i == 0 {
            assert(t@.take(0) =~= Seq::<char>::empty());
        }
    }
    i
}

fn last_index_of_exec(t: &[char], c: char) -> (r: usize)
    ensures
        r as int == last_index_of(t@, c) + 1,
        r <= t@.len(),
{
    let mut i: usize = t.len();
    assert(t@.take(t@.len() as int) =~= t@);
    while i > 0 && t[i - 1] != c
        invariant
            i <= t@.len(),
            last_index_of(t@, c) == last_index_of(t@.take(i as int), c),
        decreases i,
    {
        proof {
            assert(t@.take(i as int).drop_last() =~= t@.take(i - 1));
        }
        i -= 1;
    }
    proof {
        if i == 0 {
            assert(t@.take(0) =~= Seq::<char>::empty());
        }
    }
    i
}

pub(crate) fn trailing_separators_trimmed(v: &[char]) -> (r: Vec<char>)
    ensures
        r@ == trim_end_by(v@, |c: char| is_sep(c)),
{
    let n = v.len();
    let mut end: usize = n;
    while end > 0 && (v[end - 1] == '\\' || v[end - 1] == '/')
        invariant
            n == v@.len(),
            end <= n,
            forall|k: int| end <= k < n ==> is_sep(#[trigger] v@[k]),
        decreases end,
    {
        end -= 1;
    }
    proof {
        lemma_trailing_count_is_pub(v@, |c: char| is_sep(c), (n - end) as int);
    }
    slice_chars(v, 0, end)
}

/// The final component of a path (see `file_name_of`).
pub fn file_name_chars(path: &[char]) -> (r: Option<Vec<char>>)
    ensures
        match r {
            Some(v) => file_name_of(path@) == Some(v@),
            None => file_name_of(path@) is None,
        },
{
    let t = trailing_separators_trimmed(path);
    let start = last_sep_index_exec(&t);
    let seg = slice_chars(&t, start, t.len());
    proof {
        assert(seg@ =~= t@.skip(last_sep_index(t@) + 1));
    }
    if seg.len() == 0 || chars_eq(&seg, &to_chars(".")) || chars_eq(&seg, &to_chars(".."))
        || (seg.len() == t.len() && seg.len() == 2 && char_is_ascii_alpha(seg[0]) && seg[1] == ':') {
        None
    } else {
        Some(seg)
    }
}

/// The stem of a file name (see `stem_of_name`).
pub fn stem_chars(name: &[char]) -> (r: Vec<char>)
    ensures
        r@ == stem_of_name(name@),
{
    let i = last_index_of_exec(name, '.');
    if chars_eq(name, &to_chars("..")) || i <= 1 {
        slice_chars(name, 0, name.len())
    } else {
        slice_chars(name, 0, i - 1)
    }
}

/// The extension of a file name (see `extension_of_name`).
pub fn extension_chars(name: &[char]) -> (r: Option<Vec<char>>)
    ensures
        match r {
            Some(v) => extension_of_name(name@) == Some(v@),
            None => extension_of_name(name@) is None,
        },
{
    let i = last_index_of_exec(name, '.');
    if chars_eq(name, &to_chars("..")) || i <= 1 {
        None
    } else {
        Some(slice_chars(name, i, name.len()))
    }
}

/// Whether a path is absolute (see `is_absolute_path`).
pub fn path_is_absolute(p: &[char]) -> (r: bool)
    ensures
        r == is_absolute_path(p@),
{
    (p.len() >= 3 && char_is_ascii_alpha(p[0]) && p[1] == ':' && (p[2] == '\\' || p[2] == '/')) || (
    p.len() >= 2 && (p[0] == '\\' || p[0] == '/') && (p[1] == '\\' || p[1] == '/'))
}

/// Whether a path is an absolute path on a local drive (see
/// `is_local_drive_absolute`).
pub fn is_local_windows_drive_absolute_path(p: &str) -> (r: bool)
    ensures
        r == is_local_drive_absolute(p@),
{
    let p = to_chars(p);
    (p.len() >= 3 && char_is_ascii_alpha(p[0]) && p[1] == ':' && (p[2] == '\\' || p[2] == '/')) || (
    p.len() >= 7 && p[0] == '\\' && p[1] == '\\' && p[2] == '?' && p[3] == '\\' && char_is_ascii_alpha(
        p[4],
    ) && p[5] == ':' && p[6] == '\\')
}

/// The key of a path that has no white space at its ends, no `/`, no
/// separator at either end, is its ASCII lower-casing.
pub proof fn lemma_path_key_of_plain_path(s: Seq<char>)
    requires
        s.len() > 0,
        !crate::text::is_whitespace(s[0]),
        !crate::text::is_whitespace(s.last()),
        s[0] != '\\',
        s.last() != '\\',
        forall|i: int| 0 <= i < s.len() ==> #[trigger] s[i] != '/',
    ensures
        path_key(s) == ascii_lower(s),
{
    let ws = |c: char| crate::text::is_whitespace(c);
    assert(crate::text::leading_count(s, ws) == 0);
    assert(s.skip(0) =~= s);
    assert(crate::text::trim_start_by(s, ws) == s);
    assert(crate::text::trailing_count(s, ws) == 0);
    assert(s.take(s.len() as int) =~= s);
    assert(trim(s) == s);
    assert(strip_verbatim(s) == s);
    assert(replace_char(s, '/', '\\') =~= s);
    assert(crate::text::trailing_count(s, |c: char| c == '\\') == 0);
    assert(trim_end_by(s, |c: char| c == '\\') == s);
}

/// The keys of the system locations, as written in `system_paths`.
proof fn lemma_system_path_keys()
    ensures
        path_key("C:\\Windows"@) == "c:\\windows"@,
        path_key("C:\\Program Files"@) == "c:\\program files"@,
        path_key("C:\\Program Files (x86)"@) == "c:\\program files (x86)"@,
        path_key("C:\\ProgramData"@) == "c:\\programdata"@,
{
    reveal_strlit("C:\\Windows");
    reveal_strlit("c:\\windows");
    reveal_strlit("C:\\Program Files");
    reveal_strlit("c:\\program files");
    reveal_strlit("C:\\Program Files (x86)");
    reveal_strlit("c:\\program files (x86)");
    reveal_strlit("C:\\ProgramData");
    reveal_strlit("c:\\programdata");
    lemma_path_key_of_plain_path("C:\\Windows"@);
    lemma_path_key_of_plain_path("C:\\Program Files"@);
    lemma_path_key_of_plain_path("C:\\Program Files (x86)"@);
    lemma_path_key_of_plain_path("C:\\ProgramData"@);
    assert(ascii_lower("C:\\Windows"@) =~= "c:\\windows"@);
    assert(ascii_lower("C:\\Program Files"@) =~= "c:\\program files"@);
    assert(ascii_lower("C:\\Program Files (x86)"@) =~= "c:\\program files (x86)"@);
    assert(ascii_lower("C:\\ProgramData"@) =~= "c:\\programdata"@);
}

/// Any path at or below `C:\Windows`, `C:\Program Files`,
/// `C:\Program Files (x86)` or `C:\ProgramData`, compared by key (so in any
/// letter case and with either separator), is protected, whatever the
/// user's protected paths are.
pub proof fn law_system_folders_are_always_protected(path: Seq<char>, protected: Seq<Seq<char>>, root: Seq<char>)
    requires
        root == "c:\\windows"@ || root == "c:\\program files"@ || root == "c:\\program files (x86)"@ || root
            == "c:\\programdata"@,
        path_key(path) == root || (starts_with(path_key(path), root) && path_key(path).len() > root.len()
            && path_key(path)[root.len() as int] == '\\'),
    ensures
        is_protected_path(path, protected),
{
    lemma_system_path_keys();
    reveal_strlit("c:\\windows");
    reveal_strlit("c:\\program files");
    reveal_strlit("c:\\program files (x86)");
    reveal_strlit("c:\\programdata");
    let sys = system_paths();
    if root == "c:\\windows"@ {
        assert(same_or_child(path_key(path), path_key(sys[0])));
    } else if root == "c:\\program files"@ {
        assert(same_or_child(path_key(path), path_key(sys[1])));
    } else if root == "c:\\program files (x86)"@ {
        assert(same_or_child(path_key(path), path_key(sys[2])));
    } else {
        assert(same_or_child(path_key(path), path_key(sys[3])));
    }
}

} // verus!
