//! Fresh identifiers for scan results and operations.
use vstd::prelude::*;

use crate::text::{chars_eq, from_chars, to_chars};

verus! {

/// A fresh random identifier: the hyphenated text of `uuid::Uuid::new_v4()`.
/// Nothing is stated of the value, which is random.
#[verifier::external_body]
pub(crate) fn new_identifier() -> String {
    uuid::Uuid::new_v4().to_string()
}

/// Whether `id` is one of `taken`.
fn identifier_taken(taken: &Vec<String>, id: &String) -> (r: bool)
    ensures
        r == exists|k: int| 0 <= k < taken@.len() && (#[trigger] taken@[k])@ == id@,
{
    let target = to_chars(id.as_str());
    let mut k: usize = 0;
    while k < taken.len()
        invariant
            k <= taken@.len(),
            target@ == id@,
            forall|j: int| 0 <= j < k ==> (#[trigger] taken@[j])@ != id@,
        decreases taken@.len() - k,
    {
        if chars_eq(&to_chars(taken[k].as_str()), &target) {
            return true;
        }
        k += 1;
    }
    false
}

/// `id` followed by `-` and as many `0`s as make it longer than every
/// identifier in `taken`, so that it is none of them.
fn lengthened_identifier(taken: &Vec<String>, id: &String) -> (r: String)
    ensures
        forall|k: int| 0 <= k < taken@.len() ==> (#[trigger] taken@[k])@ != r@,
{
    let mut longest: usize = 0;
    let mut k: usize = 0;
    while k < taken.len()
        invariant
            k <= taken@.len(),
            forall|j: int| 0 <= j < k ==> (#[trigger] taken@[j])@.len() <= longest,
        decreases taken@.len() - k,
    {
        let n = to_chars(taken[k].as_str()).len();
        if n > longest {
            longest = n;
        }
        k += 1;
    }
    let mut v = to_chars(id.as_str());
    v.push('-');
    while v.len() <= longest
        invariant
            forall|j: int| 0 <= j < taken@.len() ==> (#[trigger] taken@[j])@.len() <= longest,
        decreases longest + 1 - v@.len(),
    {
        v.push('0');
    }
    from_chars(&v)
}

/// A fresh random identifier (see `new_identifier`) that is none of
/// `taken`: a drawn identifier that is taken is drawn again, twice at most,
/// and then lengthened until it is new.
pub fn fresh_identifier(taken: &Vec<String>) -> (r: String)
    ensures
        forall|k: int| 0 <= k < taken@.len() ==> (#[trigger] taken@[k])@ != r@,
{
    let mut attempt: u8 = 0;
    loop
        invariant
            attempt < 3,
        decreases 3 - attempt,
    {
        let id = new_identifier();
        if !identifier_taken(taken, &id) {
            return id;
        }
        if attempt == 2 {
            return lengthened_identifier(taken, &id);
        }
        attempt += 1;
    }
}

} // verus!
