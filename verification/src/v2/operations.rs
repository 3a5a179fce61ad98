//! The long-running operations under way, each with a flag that asks it to
//! stop.
use vstd::prelude::*;

use std::sync::atomic::AtomicBool;
use std::sync::Arc;

use crate::ids::fresh_identifier;
use crate::text::{chars_eq, copy_string, to_chars};
use crate::v2::cancellation::{raise_cancellation, share_flag};
use crate::v2::models::OperationStatus;

verus! {

/// What the caller of `register` keeps: the operation's identifier, and the
/// flag that `cancel` sets for the running operation to read.
#[derive(Debug, Clone)]
pub struct OperationToken {
    pub operation_id: String,
    pub cancelled: Arc<AtomicBool>,
}

/// The operations under way, each with whether it was asked to stop and the
/// flag shared with its token.
pub struct OperationRegistry {
    operations: Vec<(String, bool, Arc<AtomicBool>)>,
    flags: Ghost<Map<Seq<char>, bool>>,
}

impl View for OperationRegistry {
    type V = Map<Seq<char>, bool>;

    /// Each operation under way, by identifier, with whether it was asked
    /// to stop.
    closed spec fn view(&self) -> Map<Seq<char>, bool> {
        self.flags@
    }
}

impl OperationRegistry {
    /// The list holds each identifier once and agrees with the view.
    pub closed spec fn wf(&self) -> bool {
        &&& forall|i: int, j: int|
            0 <= i < j < self.operations@.len() ==> (#[trigger] self.operations@[i]).0@ != (
            #[trigger] self.operations@[j]).0@
        &&& forall|i: int|
            0 <= i < self.operations@.len() ==> self.flags@.dom().contains((#[trigger] self.operations@[i]).0@)
                && self.flags@[self.operations@[i].0@] == self.operations@[i].1
        &&& forall|k: Seq<char>| #[trigger]
            self.flags@.dom().contains(k) ==> exists|i: int|
                0 <= i < self.operations@.len() && (#[trigger] self.operations@[i]).0@ == k
    }

    /// An empty registry.
    pub fn new() -> (r: Self)
        ensures
            r.wf(),
            r@ == Map::<Seq<char>, bool>::empty(),
    {
        OperationRegistry { operations: Vec::new(), flags: Ghost(Map::empty()) }
    }

    /// Where the operation stands in the list, if it is under way.
    fn find(&self, operation_id: &str) -> (r: Option<usize>)
        requires
            self.wf(),
        ensures
            match r {
                Some(i) => i < self.operations@.len() && self.operations@[i as int].0@ == operation_id@,
                None => !self@.dom().contains(operation_id@),
            },
    {
        let id = to_chars(operation_id);
        let mut i: usize = 0;
        while i < self.operations.len()
            invariant
                i <= self.operations@.len(),
                id@ == operation_id@,
                forall|j: int| 0 <= j < i ==> (#[trigger] self.operations@[j]).0@ != operation_id@,
            decreases self.operations@.len() - i,
        {
            if chars_eq(&to_chars(self.operations[i].0.as_str()), &id) {
                return Some(i);
            }
            i += 1;
        }
        proof {
            if self@.dom().contains(operation_id@) {
                let k = choose|k: int| 0 <= k < self.operations@.len() && (#[trigger] self.operations@[k]).0@ == operation_id@;
                assert(self.operations@[k].0@ != operation_id@);
            }
        }
        None
    }

    /// Sets the operation's flag, adding it when it is not under way.
    fn put(&mut self, operation_id: String, cancelled: bool, signal: Arc<AtomicBool>)
        requires
            old(self).wf(),
        ensures
            final(self).wf(),
            final(self)@ == old(self)@.insert(operation_id@, cancelled),
    {
        match self.find(operation_id.as_str()) {
            Some(i) => {
                let ghost before = self.operations@;
                self.operations.set(i, (operation_id, cancelled, signal));
                proof {
                    self.flags@ = self.flags@.insert(before[i as int].0@, cancelled);
                    assert forall|k: Seq<char>| #[trigger] self.flags@.dom().contains(k) implies exists|j: int|
                        0 <= j < self.operations@.len() && (#[trigger] self.operations@[j]).0@ == k by {
                        if k != before[i as int].0@ {
                            let j = choose|j: int| 0 <= j < before.len() && (#[trigger] before[j]).0@ == k;
                            assert(self.operations@[j].0@ == k);
                        } else {
                            assert(self.operations@[i as int].0@ == k);
                        }
                    }
                    assert forall|a: int, b: int|
                        0 <= a < b < self.operations@.len() implies (#[trigger] self.operations@[a]).0@ != (
                        #[trigger] self.operations@[b]).0@ by {
                        assert(before[a].0@ != before[b].0@);
                    }
                }
            },
            None => {
                let ghost before = self.operations@;
                let ghost key = operation_id@;
                self.operations.push((operation_id, cancelled, signal));
                proof {
                    self.flags@ = self.flags@.insert(key, cancelled);
                    assert forall|k: Seq<char>| #[trigger] self.flags@.dom().contains(k) implies exists|j: int|
                        0 <= j < self.operations@.len() && (#[trigger] self.operations@[j]).0@ == k by {
                        if k != key {
                            let j = choose|j: int| 0 <= j < before.len() && (#[trigger] before[j]).0@ == k;
                            assert(self.operations@[j].0@ == k);
                        } else {
                            assert(self.operations@[before.len() as int].0@ == k);
                        }
                    }
                    assert forall|a: int, b: int|
                        0 <= a < b < self.operations@.len() implies (#[trigger] self.operations@[a]).0@ != (
                        #[trigger] self.operations@[b]).0@ by {
                        if b == before.len() {
                            assert(self.flags@.dom().contains(before[a].0@));
                        } else {
                            assert(before[a].0@ != before[b].0@);
                        }
                    }
                    assert forall|j: int| 0 <= j < self.operations@.len() implies self.flags@.dom().contains(
                        (#[trigger] self.operations@[j]).0@,
                    ) && self.flags@[self.operations@[j].0@] == self.operations@[j].1 by {
                        if j < before.len() {
                            assert(old(self).flags@.dom().contains(before[j].0@));
                        }
                    }
                }
            },
        }
    }

    /// The identifiers of the operations under way.
    fn operation_ids(&self) -> (r: Vec<String>)
        requires
            self.wf(),
        ensures
            forall|k: Seq<char>| #[trigger] self@.dom().contains(k) ==> exists|j: int| 0 <= j < r@.len() && (#[trigger] r@[j])@ == k,
    {
        let mut ids: Vec<String> = Vec::new();
        let mut i: usize = 0;
        while i < self.operations.len()
            invariant
                i <= self.operations@.len(),
                ids@.len() == i,
                forall|j: int| 0 <= j < i ==> (#[trigger] ids@[j])@ == self.operations@[j].0@,
            decreases self.operations@.len() - i,
        {
            ids.push(copy_string(&self.operations[i].0));
            i += 1;
        }
        proof {
            assert forall|k: Seq<char>| #[trigger] self@.dom().contains(k) implies exists|j: int| 0 <= j < ids@.len() && (#[trigger] ids@[j])@ == k by {
                let j = choose|j: int| 0 <= j < self.operations@.len() && (#[trigger] self.operations@[j]).0@ == k;
                assert(ids@[j]@ == k);
            }
        }
        ids
    }

    /// Registers a new operation under a fresh random identifier (see
    /// `fresh_identifier`), not yet asked to stop, with a new flag shared
    /// with the token.
    pub fn register(&mut self) -> (token: OperationToken)
        requires
            old(self).wf(),
        ensures
            final(self).wf(),
            !old(self)@.dom().contains(token.operation_id@),
            final(self)@ == old(self)@.insert(token.operation_id@, false),
    {
        let ids = self.operation_ids();
        let operation_id = fresh_identifier(&ids);
        proof {
            if self@.dom().contains(operation_id@) {
                let j = choose|j: int| 0 <= j < ids@.len() && (#[trigger] ids@[j])@ == operation_id@;
                assert(ids@[j]@ != operation_id@);
            }
        }
        let cancelled = Arc::new(AtomicBool::new(false));
        self.put(copy_string(&operation_id), false, share_flag(&cancelled));
        OperationToken { operation_id, cancelled }
    }

    /// Asks an operation to stop: `true` when it is under way (its flag, the
    /// one its token holds, is then set), `false` when it is not (nothing
    /// changes).
    pub fn cancel(&mut self, operation_id: &str) -> (r: bool)
        requires
            old(self).wf(),
        ensures
            final(self).wf(),
            r == old(self)@.dom().contains(operation_id@),
            r ==> final(self)@ == old(self)@.insert(operation_id@, true),
            !r ==> final(self)@ == old(self)@,
    {
        match self.find(operation_id) {
            Some(i) => {
                let signal = share_flag(&self.operations[i].2);
                raise_cancellation(&signal);
                let id = copy_string(&self.operations[i].0);
                self.put(id, true, signal);
                true
            },
            None => false,
        }
    }

    /// Forgets a finished operation.
    pub fn finish(&mut self, operation_id: &str)
        requires
            old(self).wf(),
        ensures
            final(self).wf(),
            final(self)@ == old(self)@.remove(operation_id@),
    {
        match self.find(operation_id) {
            Some(i) => {
                let ghost before = self.operations@;
                let ghost key = before[i as int].0@;
                self.operations.remove(i);
                proof {
                    self.flags@ = self.flags@.remove(key);
                    assert forall|k: Seq<char>| #[trigger] self.flags@.dom().contains(k) implies exists|j: int|
                        0 <= j < self.operations@.len() && (#[trigger] self.operations@[j]).0@ == k by {
                        let j = choose|j: int| 0 <= j < before.len() && (#[trigger] before[j]).0@ == k;
                        if j < i {
                            assert(self.operations@[j].0@ == k);
                        } else {
                            assert(j != i);
                            assert(self.operations@[j - 1].0@ == k);
                        }
                    }
                    assert forall|a: int, b: int|
                        0 <= a < b < self.operations@.len() implies (#[trigger] self.operations@[a]).0@ != (
                        #[trigger] self.operations@[b]).0@ by {
                        let a2 = if a < i { a } else { a + 1 };
                        let b2 = if b < i { b } else { b + 1 };
                        assert(self.operations@[a] == before[a2]);
                        assert(self.operations@[b] == before[b2]);
                        assert(before[a2].0@ != before[b2].0@);
                    }
                    assert forall|j: int| 0 <= j < self.operations@.len() implies self.flags@.dom().contains(
                        (#[trigger] self.operations@[j]).0@,
                    ) && self.flags@[self.operations@[j].0@] == self.operations@[j].1 by {
                        let j2 = if j < i { j } else { j + 1 };
                        assert(self.operations@[j] == before[j2]);
                        assert(before[j2].0@ != before[i as int].0@);
                    }
                }
            },
            None => {
                assert(self@.remove(operation_id@) =~= self@);
            },
        }
    }

    /// Whether the operation was asked to stop; `false` for one that is not
    /// under way.
    pub fn is_cancelled(&self, operation_id: &str) -> (r: bool)
        requires
            self.wf(),
        ensures
            r == (self@.dom().contains(operation_id@) && self@[operation_id@]),
    {
        match self.find(operation_id) {
            Some(i) => self.operations[i].1,
            None => false,
        }
    }
}

impl Default for OperationRegistry {
    fn default() -> (r: Self)
        ensures
            r.wf(),
            r@ == Map::<Seq<char>, bool>::empty(),
    {
        OperationRegistry::new()
    }
}

/// A registered operation is under way and not asked to stop; asking it to
/// stop is then answered `true` and sets its flag, and leaves every other
/// operation as it was.
pub proof fn law_registered_operation_can_be_cancelled(before: Map<Seq<char>, bool>, id: Seq<char>, other: Seq<char>)
    requires
        other != id,
    ensures
        before.insert(id, false).dom().contains(id),
        !before.insert(id, false)[id],
        before.insert(id, false).insert(id, true)[id],
        before.insert(id, false).insert(id, true).dom().contains(other) == before.dom().contains(other),
        before.dom().contains(other) ==> before.insert(id, false).insert(id, true)[other] == before[other],
{
}

/// Finishing an operation forgets it alone: asking it to stop afterwards is
/// answered `false`, and every other operation keeps its state.
pub proof fn law_finish_forgets_only_that_operation(before: Map<Seq<char>, bool>, id: Seq<char>, other: Seq<char>)
    requires
        other != id,
    ensures
        !before.remove(id).dom().contains(id),
        before.remove(id).dom().contains(other) == before.dom().contains(other),
        before.dom().contains(other) ==> before.remove(id)[other] == before[other],
{
}

/// How a scan operation ended, from its result: completed on success;
/// cancelled, with the message, when it stopped with the cancellation
/// message; failed, with the error, otherwise.
pub fn scan_operation_end<T>(result: &Result<T, String>) -> (r: (OperationStatus, Option<String>))
    ensures
        result is Ok ==> r.0 == OperationStatus::Completed && r.1 is None,
        result matches Err(e) ==> (r.1 matches Some(m) && m@ == e@) && r.0 == if e@ == "操作已取消"@ {
            OperationStatus::Cancelled
        } else {
            OperationStatus::Failed
        },
{
    match result {
        Ok(_) => (OperationStatus::Completed, None),
        Err(e) => {
            let cancellation = to_chars("操作已取消");
            proof {
                reveal_strlit("操作已取消");
            }
            if chars_eq(&to_chars(e.as_str()), &cancellation) {
                (OperationStatus::Cancelled, Some(copy_string(e)))
            } else {
                (OperationStatus::Failed, Some(copy_string(e)))
            }
        },
    }
}

/// Two registrations in a row give two different operations, each under way
/// and not asked to stop; cancelling the first leaves the second under way
/// and not asked to stop, and so does finishing the first. The requirements
/// are what `register` ensures of each identifier it hands out.
pub proof fn law_registrations_are_independent(before: Map<Seq<char>, bool>, first: Seq<char>, second: Seq<char>)
    requires
        !before.dom().contains(first),
        !before.insert(first, false).dom().contains(second),
    ensures
        first != second,
        before.insert(first, false).insert(second, false).insert(first, true)[first],
        before.insert(first, false).insert(second, false).insert(first, true).dom().contains(second),
        !before.insert(first, false).insert(second, false).insert(first, true)[second],
        !before.insert(first, false).insert(second, false).remove(first).dom().contains(first),
        before.insert(first, false).insert(second, false).remove(first).dom().contains(second),
        !before.insert(first, false).insert(second, false).remove(first)[second],
{
}

} // verus!
