//! The rule that operation history never records paths, file names, hashes
//! or user names.
use vstd::prelude::*;

use crate::text::{
    ascii_lower, char_is_ascii_alnum, char_is_ascii_hex, chars_contain, chars_have, contains_seq,
    is_ascii_alnum, is_ascii_hex, lower_ascii, string_of, to_chars, trim, trim_chars,
};
use crate::v2::models::HistoryEntry;

verus! {

/// A character that separates words when history text is checked.
pub open spec fn is_word_separator(c: char) -> bool {
    !(is_ascii_alnum(c) || c == '.')
}

/// The pieces of `s` between word separators, empty pieces included.
pub open spec fn word_tokens(s: Seq<char>) -> Seq<Seq<char>>
    decreases s.len(),
{
    if s.len() == 0 {
        seq![Seq::empty()]
    } else {
        let init = word_tokens(s.drop_last());
        if is_word_separator(s.last()) {
            init.push(Seq::empty())
        } else {
            init.update(init.len() - 1, init.last().push(s.last()))
        }
    }
}

/// The token is `stem.ext` with a non-empty stem and an extension of 1 to 8
/// ASCII letters or digits after the last dot.
pub open spec fn looks_like_file_name_spec(t: Seq<char>) -> bool {
    exists|i: int|
        0 < i < t.len() && #[trigger] t[i] == '.' && (forall|j: int| i < j < t.len() ==> t[j] != '.')
            && 1 <= t.len() - 1 - i <= 8 && (forall|j: int|
            i < j < t.len() ==> is_ascii_alnum(#[trigger] t[j]))
}

/// The token is 32 to 128 hexadecimal digits.
pub open spec fn looks_like_raw_hash_spec(t: Seq<char>) -> bool {
    32 <= t.len() <= 128 && forall|j: int| 0 <= j < t.len() ==> is_ascii_hex(#[trigger] t[j])
}

/// A token that must not appear in history.
pub open spec fn is_sensitive_token(t: Seq<char>) -> bool {
    looks_like_file_name_spec(t) || looks_like_raw_hash_spec(t)
}

/// Text that may be stored in history: not blank, no path separators, no
/// "administrator", not the user's name, and no word that looks like a file
/// name or a raw hash.
pub open spec fn is_desensitized_text(text: Seq<char>, username: Option<Seq<char>>) -> bool {
    let trimmed = trim(text);
    let lower = ascii_lower(trimmed);
    &&& trimmed.len() > 0
    &&& !contains_seq(lower, ":\\"@)
    &&& !contains_seq(lower, ":/"@)
    &&& !lower.contains('\\')
    &&& !lower.contains('/')
    &&& !contains_seq(lower, "administrator"@)
    &&& match username {
        Some(u) => trim(u).len() == 0 || !contains_seq(lower, ascii_lower(trim(u))),
        None => true,
    }
    &&& forall|k: int|
        0 <= k < word_tokens(trimmed).len() ==> !(#[trigger] word_tokens(trimmed)[k] != Seq::<char>::empty()
            && is_sensitive_token(word_tokens(trimmed)[k]))
}

fn split_words(input: &[char]) -> (r: Vec<Vec<char>>)
    ensures
        r@.len() == word_tokens(input@).len(),
        forall|k: int| 0 <= k < r@.len() ==> (#[trigger] r@[k])@ == word_tokens(input@)[k],
{
    let mut done: Vec<Vec<char>> = Vec::new();
    let mut cur: Vec<char> = Vec::new();
    let mut i: usize = 0;
    assert(input@.take(0) =~= Seq::<char>::empty());
    while i < input.len()
        invariant
            i <= input@.len(),
            word_tokens(input@.take(i as int)).len() == done@.len() + 1,
            forall|k: int| 0 <= k < done@.len() ==> (#[trigger] done@[k])@ == word_tokens(input@.take(i as int))[k],
            cur@ == word_tokens(input@.take(i as int)).last(),
        decreases input@.len() - i,
    {
        let c = input[i];
        proof {
            assert(input@.take(i + 1).drop_last() =~= input@.take(i as int));
            assert(input@.take(i + 1).last() == c);
        }
        if !(char_is_ascii_alnum(c) || c == '.') {
            done.push(cur);
            cur = Vec::new();
        } else {
            cur.push(c);
        }
        i += 1;
    }
    done.push(cur);
    assert(input@.take(input@.len() as int) =~= input@);
    done
}

/// Whether a token looks like a file name (see `looks_like_file_name_spec`).
pub fn looks_like_file_name(token: &[char]) -> (r: bool)
    ensures
        r == looks_like_file_name_spec(token@),
{
    let n = token.len();
    let mut i: usize = n;
    while i > 0 && token[i - 1] != '.'
        invariant
            i <= n,
            n == token@.len(),
            forall|j: int| i <= j < n ==> token@[j] != '.',
        decreases i,
    {
        i -= 1;
    }
    if i == 0 {
        proof {
            assert forall|d: int| 0 < d < token@.len() && #[trigger] token@[d] == '.' implies false by {}
        }
        return false;
    }
    let dot = i - 1;
    let ext_len = n - 1 - dot;
    if dot == 0 || ext_len < 1 || ext_len > 8 {
        proof {
            assert forall|d: int|
                0 < d < token@.len() && #[trigger] token@[d] == '.' && (forall|j: int|
                    d < j < token@.len() ==> token@[j] != '.') implies !(1 <= token@.len() - 1 - d
                <= 8) || d == dot by {
                if d < dot {
                    assert(token@[dot as int] == '.');
                }
            }
        }
        return false;
    }
    let mut j: usize = dot + 1;
    while j < n
        invariant
            dot + 1 <= j <= n,
            n == token@.len(),
            token@[dot as int] == '.',
            forall|q: int| dot < q < n ==> token@[q] != '.',
            forall|q: int| dot < q < j ==> is_ascii_alnum(#[trigger] token@[q]),
        decreases n - j,
    {
        if !char_is_ascii_alnum(token[j]) {
            proof {
                assert forall|d: int|
                    0 < d < token@.len() && #[trigger] token@[d] == '.' && (forall|q: int|
                        d < q < token@.len() ==> token@[q] != '.') implies d == dot by {
                    if d < dot {
                        assert(token@[dot as int] == '.');
                    }
                }
            }
            return false;
        }
        j += 1;
    }
    true
}

/// Whether a token looks like a raw hash (see `looks_like_raw_hash_spec`).
pub fn looks_like_raw_hash(token: &[char]) -> (r: bool)
    ensures
        r == looks_like_raw_hash_spec(token@),
{
    if token.len() < 32 || token.len() > 128 {
        return false;
    }
    let mut j: usize = 0;
    while j < token.len()
        invariant
            j <= token@.len(),
            forall|q: int| 0 <= q < j ==> is_ascii_hex(#[trigger] token@[q]),
        decreases token@.len() - j,
    {
        if !char_is_ascii_hex(token[j]) {
            return false;
        }
        j += 1;
    }
    true
}

/// Whether a token must not appear in history.
pub fn token_contains_sensitive_value(token: &[char]) -> (r: bool)
    ensures
        r == is_sensitive_token(token@),
{
    looks_like_file_name(token) || looks_like_raw_hash(token)
}

/// Whether text may be stored in history (see `is_desensitized_text`).
pub fn text_is_desensitized(text: &str, username: Option<&str>) -> (r: bool)
    ensures
        r == is_desensitized_text(text@, user_view(username)),
{
    let trimmed = trim_chars(&to_chars(text));
    if trimmed.len() == 0 {
        return false;
    }
    let lower = lower_ascii(&trimmed);
    if chars_contain(&lower, &to_chars(":\\")) || chars_contain(&lower, &to_chars(":/"))
        || chars_have(&lower, '\\') || chars_have(&lower, '/') || chars_contain(
        &lower,
        &to_chars("administrator"),
    ) {
        return false;
    }
    match username {
        Some(u) => {
            let name = trim_chars(&to_chars(u));
            if name.len() > 0 && chars_contain(&lower, &lower_ascii(&name)) {
                return false;
            }
        },
        None => {},
    }
    let tokens = split_words(&trimmed);
    let mut k: usize = 0;
    while k < tokens.len()
        invariant
            k <= tokens@.len(),
            trimmed@ == trim(text@),
            tokens@.len() == word_tokens(trimmed@).len(),
            forall|q: int| 0 <= q < tokens@.len() ==> (#[trigger] tokens@[q])@ == word_tokens(trimmed@)[q],
            forall|q: int|
                0 <= q < k ==> !(#[trigger] word_tokens(trimmed@)[q] != Seq::<char>::empty()
                    && is_sensitive_token(word_tokens(trimmed@)[q])),
        decreases tokens@.len() - k,
    {
        proof {
            assert(tokens@[k as int]@ == word_tokens(trimmed@)[k as int]);
        }
        if tokens[k].len() > 0 && token_contains_sensitive_value(&tokens[k]) {
            proof {
                assert(tokens@[k as int]@ != Seq::<char>::empty());
                let wt = word_tokens(trim(text@));
                assert(trimmed@ == trim(text@));
                assert(wt[k as int] != Seq::<char>::empty() && is_sensitive_token(wt[k as int]));
                assert(!(forall|q: int|
                    0 <= q < wt.len() ==> !(#[trigger] wt[q] != Seq::<char>::empty()
                        && is_sensitive_token(wt[q]))));
                assert(!is_desensitized_text(text@, user_view(username)));
            }
            return false;
        }
        proof {
            if tokens@[k as int]@.len() == 0 {
                assert(word_tokens(trimmed@)[k as int] =~= Seq::<char>::empty());
            }
        }
        k += 1;
    }
    true
}

/// Whether every error category of a history entry may be stored (see
/// `is_desensitized_text`); `username` is the current user's name, if known.
pub fn history_entry_is_desensitized(entry: &HistoryEntry, username: Option<&str>) -> (r: bool)
    ensures
        r == entry_is_desensitized(*entry, user_view(username)),
{
    let mut k: usize = 0;
    while k < entry.error_categories.len()
        invariant
            k <= entry.error_categories@.len(),
            forall|q: int|
                0 <= q < k ==> is_desensitized_text(
                    #[trigger] entry.error_categories@[q]@,
                    user_view(username),
                ),
        decreases entry.error_categories@.len() - k,
    {
        if !text_is_desensitized(entry.error_categories[k].as_str(), username) {
            return false;
        }
        k += 1;
    }
    true
}

/// How a history file that was tried to be read is to be used.
#[derive(Debug, Clone, PartialEq, Eq)]
pub enum HistoryFileRead {
    /// There is no history file.
    Missing,
    /// The file exists but could not be read.
    Unreadable,
    /// The file's text.
    Content(String),
}

/// What to do with a history file that was read.
#[derive(Debug, Clone, PartialEq, Eq)]
pub enum HistoryLoad {
    /// There is no history.
    Empty,
    /// Parse this text as a list of entries; a failure is `history_format_error`.
    Parse(String),
    /// Fail with this message.
    Failed(String),
}

/// A missing or blank file means no history, an unreadable one an error,
/// any other text is parsed.
pub fn history_load_from_read(read: HistoryFileRead) -> (r: HistoryLoad)
    ensures
        match read {
            HistoryFileRead::Missing => r == HistoryLoad::Empty,
            HistoryFileRead::Unreadable => r matches HistoryLoad::Failed(m) && m@ == "无法读取历史记录"@,
            HistoryFileRead::Content(c) => if trim(c@).len() == 0 {
                r == HistoryLoad::Empty
            } else {
                r == HistoryLoad::Parse(c)
            },
        },
{
    match read {
        HistoryFileRead::Missing => HistoryLoad::Empty,
        HistoryFileRead::Unreadable => HistoryLoad::Failed(string_of("无法读取历史记录")),
        HistoryFileRead::Content(c) => {
            let t = trim_chars(&to_chars(c.as_str()));
            if t.len() == 0 {
                HistoryLoad::Empty
            } else {
                HistoryLoad::Parse(c)
            }
        },
    }
}

/// The message of a history file that is not a list of entries.
pub fn history_format_error() -> (r: String)
    ensures
        r@ == "历史记录格式无效"@,
{
    string_of("历史记录格式无效")
}

/// Every error category of the entry may be stored.
pub open spec fn entry_is_desensitized(e: HistoryEntry, username: Option<Seq<char>>) -> bool {
    forall|k: int|
        0 <= k < e.error_categories@.len() ==> is_desensitized_text(
            #[trigger] e.error_categories@[k]@,
            username,
        )
}

/// The view of an optional user name.
pub open spec fn user_view(username: Option<&str>) -> Option<Seq<char>> {
    match username {
        Some(u) => Some(u@),
        None => None,
    }
}

/// Accepts parsed history only when every entry is desensitized.
pub fn checked_history(entries: Vec<HistoryEntry>, username: Option<&str>) -> (r: Result<Vec<HistoryEntry>, String>)
    ensures
        match r {
            Ok(v) => v == entries && forall|i: int|
                0 <= i < entries@.len() ==> entry_is_desensitized(#[trigger] entries@[i], user_view(username)),
            Err(m) => m@ == "历史记录包含未脱敏内容"@ && exists|i: int|
                0 <= i < entries@.len() && !entry_is_desensitized(#[trigger] entries@[i], user_view(username)),
        },
{
    let mut i: usize = 0;
    while i < entries.len()
        invariant
            i <= entries@.len(),
            forall|j: int| 0 <= j < i ==> entry_is_desensitized(#[trigger] entries@[j], user_view(username)),
        decreases entries@.len() - i,
    {
        if !history_entry_is_desensitized(&entries[i], username) {
            proof {
                assert(!entry_is_desensitized(entries@[i as int], user_view(username)));
            }
            return Err(string_of("历史记录包含未脱敏内容"));
        }
        i += 1;
    }
    Ok(entries)
}

} // verus!
