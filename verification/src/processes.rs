//! Finding the running processes that use a location, so that a location a
//! program is running from is not cleaned.
use vstd::prelude::*;

use crate::text::{
    chars_contain, chars_start_with, contains_seq, from_chars, lemma_lex_asymmetric, lemma_lex_irreflexive,
    lemma_lex_total, lemma_lex_transitive, lex_compare, lex_lt, replace_char, replace_chars, starts_with, to_chars,
    to_lowercase, unicode_lower,
};

verus! {

/// A running process as the system lists it: its name, the path of its
/// executable when known, and its command line.
#[derive(Debug, Clone, PartialEq, Eq)]
pub struct ProcessInfo {
    pub name: String,
    pub exe: Option<String>,
    pub cmd: Vec<String>,
}

/// A process that uses the location.
#[derive(Debug, Clone, PartialEq, Eq)]
pub struct ProcessReference {
    pub process_name: String,
}

/// The form in which paths are compared: `/` read as `\\`, lower-cased.
pub open spec fn normalized_path(p: Seq<char>) -> Seq<char> {
    unicode_lower(replace_char(p, '/', '\\'))
}

/// Some part of the command line, lower-cased, contains the candidate.
pub open spec fn cmd_mentions(cmd: Seq<String>, candidate: Seq<char>) -> bool {
    exists|j: int| 0 <= j < cmd.len() && contains_seq(unicode_lower(#[trigger] cmd[j]@), candidate)
}

/// The process uses the location: its executable lies below it, or its
/// command line names it.
pub open spec fn process_refers_to(p: ProcessInfo, candidate: Seq<char>) -> bool {
    (match p.exe {
        Some(e) => starts_with(normalized_path(e@), candidate),
        None => false,
    }) || cmd_mentions(p.cmd@, candidate)
}

/// One of the first `n` processes uses the location and is named `t`.
pub open spec fn names_referencing_process(procs: Seq<ProcessInfo>, candidate: Seq<char>, t: Seq<char>, n: int) -> bool {
    exists|j: int| 0 <= j < n && process_refers_to(#[trigger] procs[j], candidate) && procs[j].name@ == t
}

/// The names of the references, in order.
pub open spec fn names_of(refs: Seq<ProcessReference>) -> Seq<Seq<char>> {
    Seq::new(refs.len(), |k: int| refs[k].process_name@)
}

/// Each name comes before the next in `String`'s order, so none repeats.
pub open spec fn strictly_ascending(s: Seq<Seq<char>>) -> bool {
    forall|a: int, b: int| 0 <= a < b < s.len() ==> lex_lt(#[trigger] s[a], #[trigger] s[b])
}

/// Whether some part of a command line, lower-cased, contains the candidate.
fn command_line_mentions(cmd: &Vec<String>, candidate: &Vec<char>) -> (r: bool)
    ensures
        r == cmd_mentions(cmd@, candidate@),
{
    let mut j: usize = 0;
    while j < cmd.len()
        invariant
            j <= cmd@.len(),
            forall|k: int| 0 <= k < j ==> !contains_seq(unicode_lower(#[trigger] cmd@[k]@), candidate@),
        decreases cmd@.len() - j,
    {
        let lowered = to_lowercase(cmd[j].as_str());
        if chars_contain(&to_chars(lowered.as_str()), candidate) {
            return true;
        }
        j += 1;
    }
    false
}

/// Whether the process uses the location (see `process_refers_to`);
/// `candidate` is already in normalized form.
pub fn process_uses(p: &ProcessInfo, candidate: &Vec<char>) -> (r: bool)
    ensures
        r == process_refers_to(*p, candidate@),
{
    let exe_matches = match &p.exe {
        Some(e) => {
            let lowered = to_lowercase(from_chars(&replace_chars(&to_chars(e.as_str()), '/', '\\')).as_str());
            chars_start_with(&to_chars(lowered.as_str()), candidate)
        },
        None => false,
    };
    exe_matches || command_line_mentions(&p.cmd, candidate)
}

/// Adds a name to a list kept in ascending order without repeats.
fn insert_name(out: &mut Vec<ProcessReference>, name: String)
    requires
        strictly_ascending(names_of(old(out)@)),
    ensures
        strictly_ascending(names_of(final(out)@)),
        forall|t: Seq<char>| #[trigger]
            names_of(final(out)@).contains(t) <==> (names_of(old(out)@).contains(t) || t == name@),
{
    let ghost before = names_of(out@);
    let x = to_chars(name.as_str());
    let mut m: usize = 0;
    while m < out.len() && lex_compare(&to_chars(out[m].process_name.as_str()), &x) == -1
        invariant
            m <= out@.len(),
            before == names_of(out@),
            x@ == name@,
            forall|k: int| 0 <= k < m ==> lex_lt(#[trigger] before[k], name@),
        decreases out@.len() - m,
    {
        m += 1;
    }
    if m < out.len() && crate::text::chars_eq(&to_chars(out[m].process_name.as_str()), &x) {
        assert(before[m as int] == name@);
        assert forall|t: Seq<char>| #[trigger] names_of(out@).contains(t) <==> (before.contains(t) || t == name@) by {
            if t == name@ {
                assert(before[m as int] == t);
            }
        }
        return;
    }
    proof {
        if m < before.len() {
            lemma_lex_total(before[m as int], name@);
            assert(lex_lt(name@, before[m as int]));
        }
    }
    out.insert(m, ProcessReference { process_name: name });
    let ghost after = names_of(out@);
    proof {
        assert(after =~= before.insert(m as int, x@));
        before.insert_ensures(m as int, x@);
        assert forall|a: int, b: int| 0 <= a < b < after.len() implies lex_lt(#[trigger] after[a], #[trigger] after[b]) by {
            if b < m {
                assert(after[a] == before[a] && after[b] == before[b]);
            } else if b == m {
                assert(after[a] == before[a]);
            } else if a < m {
                assert(after[b] == before[b - 1]);
                assert(after[a] == before[a]);
                if b - 1 > m {
                    assert(lex_lt(before[m as int], before[b - 1]));
                    lemma_lex_transitive(name@, before[m as int], before[b - 1]);
                }
                lemma_lex_transitive(before[a], name@, before[b - 1]);
            } else if a == m {
                assert(after[b] == before[b - 1]);
                if b - 1 > m {
                    assert(lex_lt(before[m as int], before[b - 1]));
                    lemma_lex_transitive(name@, before[m as int], before[b - 1]);
                }
            } else {
                assert(after[a] == before[a - 1] && after[b] == before[b - 1]);
            }
        }
        assert forall|t: Seq<char>| #[trigger] after.contains(t) <==> (before.contains(t) || t == name@) by {
            if after.contains(t) {
                let k = choose|k: int| 0 <= k < after.len() && after[k] == t;
                if k < m {
                    assert(before[k] == t);
                } else if k > m {
                    assert(before[k - 1] == t);
                }
            }
            if before.contains(t) {
                let k = choose|k: int| 0 <= k < before.len() && before[k] == t;
                if k < m {
                    assert(after[k] == t);
                } else {
                    assert(after[k + 1] == t);
                }
            }
            if t == name@ {
                assert(after[m as int] == t);
            }
        }
    }
}

/// The processes that use a location: the names of those whose executable
/// lies below it or whose command line names it, in ascending order, each
/// once.
pub fn find_process_references(candidate_path: &str, processes: &Vec<ProcessInfo>) -> (r: Vec<ProcessReference>)
    ensures
        strictly_ascending(names_of(r@)),
        forall|t: Seq<char>| #[trigger]
            names_of(r@).contains(t) <==> names_referencing_process(
                processes@,
                normalized_path(candidate_path@),
                t,
                processes@.len() as int,
            ),
{
    let candidate = to_chars(
        to_lowercase(from_chars(&replace_chars(&to_chars(candidate_path), '/', '\\')).as_str()).as_str(),
    );
    let mut refs: Vec<ProcessReference> = Vec::new();
    let mut i: usize = 0;
    while i < processes.len()
        invariant
            i <= processes@.len(),
            candidate@ == normalized_path(candidate_path@),
            strictly_ascending(names_of(refs@)),
            forall|t: Seq<char>| #[trigger]
                names_of(refs@).contains(t) <==> names_referencing_process(processes@, candidate@, t, i as int),
        decreases processes@.len() - i,
    {
        if process_uses(&processes[i], &candidate) {
            let ghost before = names_of(refs@);
            insert_name(&mut refs, processes[i].name.clone());
            proof {
                assert forall|t: Seq<char>| #[trigger] names_of(refs@).contains(t) <==> names_referencing_process(
                    processes@,
                    candidate@,
                    t,
                    i + 1,
                ) by {
                    if names_referencing_process(processes@, candidate@, t, i + 1) && t != processes@[i as int].name@ {
                        let j = choose|j: int| 0 <= j < i + 1 && process_refers_to(#[trigger] processes@[j], candidate@) && processes@[j].name@ == t;
                        assert(j < i);
                        assert(names_referencing_process(processes@, candidate@, t, i as int));
                        assert(before.contains(t));
                    }
                    if before.contains(t) {
                        assert(names_referencing_process(processes@, candidate@, t, i as int));
                        let j = choose|j: int| 0 <= j < i && process_refers_to(#[trigger] processes@[j], candidate@) && processes@[j].name@ == t;
                        assert(processes@[j].name@ == t);
                    }
                    if t == processes@[i as int].name@ {
                        assert(process_refers_to(processes@[i as int], candidate@));
                    }
                }
            }
        } else {
            proof {
                assert forall|t: Seq<char>| #[trigger] names_of(refs@).contains(t) <==> names_referencing_process(
                    processes@,
                    candidate@,
                    t,
                    i + 1,
                ) by {
                    if names_referencing_process(processes@, candidate@, t, i + 1) {
                        let j = choose|j: int| 0 <= j < i + 1 && process_refers_to(#[trigger] processes@[j], candidate@) && processes@[j].name@ == t;
                        assert(j < i);
                        assert(names_referencing_process(processes@, candidate@, t, i as int));
                    }
                    if names_referencing_process(processes@, candidate@, t, i as int) {
                        let j = choose|j: int| 0 <= j < i && process_refers_to(#[trigger] processes@[j], candidate@) && processes@[j].name@ == t;
                        assert(names_referencing_process(processes@, candidate@, t, i + 1));
                    }
                }
            }
        }
        i += 1;
    }
    refs
}

} // verus!
