//! Cleaner settings: their defaults, how a settings file is read, and the
//! rule for user-supplied file extensions.
use vstd::prelude::*;

use crate::text::{
    ascii_lower, char_is_ascii_alnum, chars_eq, from_chars, is_ascii_alnum, lower_ascii, string_of,
    to_chars, trim, trim_chars, trim_start_by,
};
use crate::v2::models::{CleanerSettings, DuplicateDefaultStrategy};

verus! {

/// The settings used when none were saved.
pub open spec fn is_default_settings(s: CleanerSettings) -> bool {
    &&& s.protected_paths@.len() == 0
    &&& s.default_scan_drives@.len() == 1
    &&& s.default_scan_drives@[0]@ == "C:"@
    &&& s.duplicate_default_strategy == DuplicateDefaultStrategy::CDriveFirstKeepNewest
    &&& s.large_file_default_threshold_bytes == 500 * 1024 * 1024
    &&& s.history_retention_days == 30
    &&& !s.desktop_shortcut_enabled
    &&& !s.c_drive_context_menu_enabled
    &&& !s.scheduled_scan_reminder_enabled
}

/// The settings used when none were saved: scan the C drive, keep the newest
/// copy preferring other drives, a 500 MiB large-file threshold, 30 days of
/// history, and every optional integration off.
pub fn default_settings() -> (r: CleanerSettings)
    ensures
        is_default_settings(r),
{
    let mut drives: Vec<String> = Vec::new();
    drives.push(string_of("C:"));
    CleanerSettings {
        protected_paths: Vec::new(),
        default_scan_drives: drives,
        duplicate_default_strategy: DuplicateDefaultStrategy::CDriveFirstKeepNewest,
        large_file_default_threshold_bytes: 500 * 1024 * 1024,
        history_retention_days: 30,
        desktop_shortcut_enabled: false,
        c_drive_context_menu_enabled: false,
        scheduled_scan_reminder_enabled: false,
    }
}

/// A character that separates extensions in user input.
pub open spec fn is_extension_separator(c: char) -> bool {
    c == ',' || c == ';' || c == '\n' || c == '\r' || c == '\t' || c == ' '
}

/// The pieces of `s` between separators, empty pieces included
/// (`str::split` with the separator set).
pub open spec fn split_tokens(s: Seq<char>) -> Seq<Seq<char>>
    decreases s.len(),
{
    if s.len() == 0 {
        seq![Seq::empty()]
    } else {
        let init = split_tokens(s.drop_last());
        if is_extension_separator(s.last()) {
            init.push(Seq::empty())
        } else {
            init.update(init.len() - 1, init.last().push(s.last()))
        }
    }
}

/// A safe extension: 1 to 32 characters, dot-separated segments that are
/// each a non-empty run of ASCII letters and digits.
pub open spec fn is_safe_extension_spec(e: Seq<char>) -> bool {
    &&& 0 < e.len() <= 32
    &&& forall|i: int| 0 <= i < e.len() ==> is_ascii_alnum(#[trigger] e[i]) || e[i] == '.'
    &&& e[0] != '.'
    &&& e.last() != '.'
    &&& forall|i: int| 0 <= i < e.len() - 1 ==> !(#[trigger] e[i] == '.' && e[i + 1] == '.')
}

/// A token as an extension: trimmed, leading dots removed, lower-cased.
pub open spec fn clean_extension(token: Seq<char>) -> Seq<char> {
    ascii_lower(trim_start_by(trim(token), |c: char| c == '.'))
}

/// The safe extensions of the first `n` tokens, in order, without repeats.
pub open spec fn sanitized_prefix(tokens: Seq<Seq<char>>, n: int) -> Seq<Seq<char>>
    decreases n,
{
    if n <= 0 {
        Seq::empty()
    } else {
        let acc = sanitized_prefix(tokens, n - 1);
        let e = clean_extension(tokens[n - 1]);
        if is_safe_extension_spec(e) && !acc.contains(e) {
            acc.push(e)
        } else {
            acc
        }
    }
}

/// The extensions that `sanitize_custom_extensions` keeps from `input`.
pub open spec fn sanitized_extensions(input: Seq<char>) -> Seq<Seq<char>> {
    let tokens = split_tokens(input);
    sanitized_prefix(tokens, tokens.len() as int)
}

proof fn lemma_sanitized_prefix_safe_distinct(tokens: Seq<Seq<char>>, n: int)
    ensures
        forall|k: int| 0 <= k < sanitized_prefix(tokens, n).len() ==> is_safe_extension_spec(
            #[trigger] sanitized_prefix(tokens, n)[k],
        ),
        forall|a: int, b: int|
            0 <= a < b < sanitized_prefix(tokens, n).len() ==> #[trigger] sanitized_prefix(tokens, n)[a]
                != #[trigger] sanitized_prefix(tokens, n)[b],
    decreases n,
{
    if n > 0 {
        lemma_sanitized_prefix_safe_distinct(tokens, n - 1);
        let acc = sanitized_prefix(tokens, n - 1);
        let e = clean_extension(tokens[n - 1]);
        if is_safe_extension_spec(e) && !acc.contains(e) {
            let cur = acc.push(e);
            assert forall|a: int, b: int| 0 <= a < b < cur.len() implies #[trigger] cur[a] != #[trigger] cur[b] by {
                if b == acc.len() {
                    assert(cur[a] == acc[a]);
                    if acc[a] == e {
                        assert(acc.contains(e));
                    }
                } else {
                    assert(cur[a] == acc[a] && cur[b] == acc[b]);
                }
            }
            assert forall|k: int| 0 <= k < cur.len() implies is_safe_extension_spec(#[trigger] cur[k]) by {
                if k < acc.len() {
                    assert(cur[k] == acc[k]);
                }
            }
        }
    }
}

/// Whatever the user types, the custom extensions kept are safe (short runs
/// of ASCII letters and digits separated by single dots) and none appears
/// twice.
pub proof fn law_custom_extensions_are_safe_and_distinct(input: Seq<char>)
    ensures
        forall|k: int| 0 <= k < sanitized_extensions(input).len() ==> is_safe_extension_spec(
            #[trigger] sanitized_extensions(input)[k],
        ),
        forall|a: int, b: int|
            0 <= a < b < sanitized_extensions(input).len() ==> #[trigger] sanitized_extensions(input)[a]
                != #[trigger] sanitized_extensions(input)[b],
{
    let tokens = split_tokens(input);
    lemma_sanitized_prefix_safe_distinct(tokens, tokens.len() as int);
}

fn split_extension_input(input: &[char]) -> (r: Vec<Vec<char>>)
    ensures
        r@.len() == split_tokens(input@).len(),
        forall|k: int| 0 <= k < r@.len() ==> (#[trigger] r@[k])@ == split_tokens(input@)[k],
{
    let mut done: Vec<Vec<char>> = Vec::new();
    let mut cur: Vec<char> = Vec::new();
    let mut i: usize = 0;
    assert(input@.take(0) =~= Seq::<char>::empty());
    while i < input.len()
        invariant
            i <= input@.len(),
            split_tokens(input@.take(i as int)).len() == done@.len() + 1,
            forall|k: int| 0 <= k < done@.len() ==> (#[trigger] done@[k])@ == split_tokens(input@.take(i as int))[k],
            cur@ == split_tokens(input@.take(i as int)).last(),
        decreases input@.len() - i,
    {
        let c = input[i];
        proof {
            assert(input@.take(i + 1).drop_last() =~= input@.take(i as int));
            assert(input@.take(i + 1).last() == c);
        }
        if c == ',' || c == ';' || c == '\n' || c == '\r' || c == '\t' || c == ' ' {
            done.push(cur);
            cur = Vec::new();
        } else {
            cur.push(c);
        }
        i += 1;
    }
    done.push(cur);
    assert(input@.take(input@.len() as int) =~= input@);
    done
}

fn leading_dots_trimmed(v: &[char]) -> (r: Vec<char>)
    ensures
        r@ == trim_start_by(v@, |c: char| c == '.'),
{
    let mut start: usize = 0;
    while start < v.len() && v[start] == '.'
        invariant
            start <= v@.len(),
            forall|k: int| 0 <= k < start ==> #[trigger] v@[k] == '.',
        decreases v@.len() - start,
    {
        start += 1;
    }
    proof {
        crate::text::lemma_leading_count_is(v@, |c: char| c == '.', start as int);
    }
    crate::text::slice_chars(v, start, v.len())
}

fn clean_extension_exec(token: &[char]) -> (r: Vec<char>)
    ensures
        r@ == clean_extension(token@),
{
    let t = trim_chars(token);
    let u = leading_dots_trimmed(&t);
    lower_ascii(&u)
}

/// Whether an extension is safe (see `is_safe_extension_spec`).
pub fn is_safe_extension(extension: &[char]) -> (r: bool)
    ensures
        r == is_safe_extension_spec(extension@),
{
    let n = extension.len();
    if n == 0 || n > 32 {
        return false;
    }
    if extension[0] == '.' || extension[n - 1] == '.' {
        return false;
    }
    let mut i: usize = 0;
    while i < n
        invariant
            n == extension@.len(),
            i <= n,
            forall|k: int| 0 <= k < i ==> is_ascii_alnum(#[trigger] extension@[k]) || extension@[k] == '.',
            forall|k: int| 0 <= k < i && k < n - 1 ==> !(#[trigger] extension@[k] == '.' && extension@[k + 1] == '.'),
        decreases n - i,
    {
        let c = extension[i];
        if !(char_is_ascii_alnum(c) || c == '.') {
            return false;
        }
        if i + 1 < n && c == '.' && extension[i + 1] == '.' {
            return false;
        }
        i += 1;
    }
    true
}

fn list_contains(list: &Vec<Vec<char>>, e: &[char]) -> (r: bool)
    ensures
        r == exists|k: int| 0 <= k < list@.len() && (#[trigger] list@[k])@ == e@,
{
    let mut k: usize = 0;
    while k < list.len()
        invariant
            k <= list@.len(),
            forall|j: int| 0 <= j < k ==> (#[trigger] list@[j])@ != e@,
        decreases list@.len() - k,
    {
        if chars_eq(&list[k], e) {
            return true;
        }
        k += 1;
    }
    false
}

/// The safe extensions in user input, separated by commas, semicolons or
/// white space; each is trimmed, stripped of leading dots and lower-cased,
/// and kept once, in order of first appearance.
pub fn sanitize_custom_extensions(input: &str) -> (r: Vec<String>)
    ensures
        r@.len() == sanitized_extensions(input@).len(),
        forall|k: int| 0 <= k < r@.len() ==> (#[trigger] r@[k])@ == sanitized_extensions(input@)[k],
{
    let chars = to_chars(input);
    let tokens = split_extension_input(&chars);
    let ghost ts = split_tokens(input@);
    let mut kept: Vec<Vec<char>> = Vec::new();
    let mut i: usize = 0;
    while i < tokens.len()
        invariant
            i <= tokens@.len(),
            tokens@.len() == ts.len(),
            forall|k: int| 0 <= k < tokens@.len() ==> (#[trigger] tokens@[k])@ == ts[k],
            kept@.len() == sanitized_prefix(ts, i as int).len(),
            forall|k: int| 0 <= k < kept@.len() ==> (#[trigger] kept@[k])@ == sanitized_prefix(ts, i as int)[k],
        decreases tokens@.len() - i,
    {
        let e = clean_extension_exec(&tokens[i]);
        let ghost acc = sanitized_prefix(ts, i as int);
        proof {
            assert(tokens@[i as int]@ == ts[i as int]);
        }
        let present = list_contains(&kept, &e);
        proof {
            if present {
                let k = choose|k: int| 0 <= k < kept@.len() && (#[trigger] kept@[k])@ == e@;
                assert(acc[k] == e@);
                assert(acc.contains(e@));
            } else {
                assert forall|k: int| 0 <= k < acc.len() implies acc[k] != e@ by {
                    assert(kept@[k]@ == acc[k]);
                }
            }
        }
        if is_safe_extension(&e) && !present {
            kept.push(e);
        }
        i += 1;
    }
    let mut r: Vec<String> = Vec::new();
    let mut k: usize = 0;
    while k < kept.len()
        invariant
            k <= kept@.len(),
            r@.len() == k,
            forall|j: int| 0 <= j < k ==> (#[trigger] r@[j])@ == kept@[j]@,
        decreases kept@.len() - k,
    {
        r.push(from_chars(&kept[k]));
        k += 1;
    }
    r
}

/// How a settings file that was tried to be read is to be used.
#[derive(Debug, Clone, PartialEq, Eq)]
pub enum SettingsFileRead {
    /// There is no settings file.
    Missing,
    /// The file exists but could not be read.
    Unreadable,
    /// The file's text.
    Content(String),
}

/// What to do with a settings file that was read.
#[derive(Debug, Clone, PartialEq, Eq)]
pub enum SettingsLoad {
    /// Use `default_settings`.
    Defaults,
    /// Parse this text as settings; a parse failure is `settings_format_error`.
    Parse(String),
    /// Fail with this message.
    Failed(String),
}

/// A missing or blank file gives the defaults, an unreadable one an error,
/// any other text is parsed.
pub fn settings_load_from_read(read: SettingsFileRead) -> (r: SettingsLoad)
    ensures
        match read {
            SettingsFileRead::Missing => r == SettingsLoad::Defaults,
            SettingsFileRead::Unreadable => r matches SettingsLoad::Failed(m) && m@ == "无法读取清理设置"@,
            SettingsFileRead::Content(c) => if trim(c@).len() == 0 {
                r == SettingsLoad::Defaults
            } else {
                r == SettingsLoad::Parse(c)
            },
        },
{
    match read {
        SettingsFileRead::Missing => SettingsLoad::Defaults,
        SettingsFileRead::Unreadable => SettingsLoad::Failed(string_of("无法读取清理设置")),
        SettingsFileRead::Content(c) => {
            let t = trim_chars(&to_chars(c.as_str()));
            if t.len() == 0 {
                SettingsLoad::Defaults
            } else {
                SettingsLoad::Parse(c)
            }
        },
    }
}

/// The message of a settings file that is not valid settings; it holds no
/// path.
pub fn settings_format_error() -> (r: String)
    ensures
        r@ == "设置文件格式无效"@,
{
    string_of("设置文件格式无效")
}

/// The message of a settings file that could not be written.
pub fn settings_save_error() -> (r: String)
    ensures
        r@ == "无法保存清理设置"@,
{
    string_of("无法保存清理设置")
}

/// The message when the application data folder cannot be found.
pub fn app_data_dir_error() -> (r: String)
    ensures
        r@ == "无法访问应用数据目录"@,
{
    string_of("无法访问应用数据目录")
}

} // verus!
