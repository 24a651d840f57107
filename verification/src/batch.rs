//! Batches: one operation applied to many users, each on its own. A failure
//! is written down and the batch goes on.

use vstd::prelude::*;
use crate::error::GitLabError;
use crate::models::{BatchItemError, BatchItemErrorView, BatchResult, BatchResultView};

verus! {

/// What one attempt leaves behind: nothing if it succeeded, the message of
/// its failure if it did not.
pub open spec fn failure_of(outcome: Result<(), GitLabError>) -> Option<Seq<char>> {
    match outcome {
        Ok(_) => None,
        Err(e) => Some(e@.message_text()),
    }
}

/// The failures of `outcomes`, in order.
pub open spec fn failures_of(outcomes: Seq<Result<(), GitLabError>>) -> Seq<Option<Seq<char>>> {
    outcomes.map_values(|o: Result<(), GitLabError>| failure_of(o))
}

/// The result of a batch in which nothing has been attempted yet.
pub open spec fn empty_batch() -> BatchResultView {
    BatchResultView { success_user_ids: Seq::empty(), failed: Seq::empty() }
}

/// `batch` after one more attempt, for `user_id`.
pub open spec fn recorded(batch: BatchResultView, user_id: u64, failure: Option<Seq<char>>) -> BatchResultView {
    match failure {
        None => BatchResultView {
            success_user_ids: batch.success_user_ids.push(user_id),
            failed: batch.failed,
        },
        Some(message) => BatchResultView {
            success_user_ids: batch.success_user_ids,
            failed: batch.failed.push(BatchItemErrorView { user_id, message }),
        },
    }
}

/// The result of the batch for `user_ids` in which the attempt for
/// `user_ids[i]` left `failures[i]` behind.
pub open spec fn batch_of(user_ids: Seq<u64>, failures: Seq<Option<Seq<char>>>) -> BatchResultView
    recommends
        user_ids.len() == failures.len(),
    decreases user_ids.len(),
{
    if user_ids.len() == 0 || failures.len() == 0 {
        empty_batch()
    } else {
        recorded(
            batch_of(user_ids.drop_last(), failures.drop_last()),
            user_ids.last(),
            failures.last(),
        )
    }
}

/// The users of the failures, in order.
pub open spec fn failed_user_ids(batch: BatchResultView) -> Seq<u64> {
    batch.failed.map_values(|e: BatchItemErrorView| e.user_id)
}

/// Every user of a batch ends in exactly one of the two lists: the two
/// together are as long as the input and hold the same users as often as
/// the input does. Where no user was submitted twice, no user is in both.
pub proof fn lemma_batch_partitions_input(user_ids: Seq<u64>, failures: Seq<Option<Seq<char>>>)
    requires
        user_ids.len() == failures.len(),
    ensures
        ({
            let batch = batch_of(user_ids, failures);
            let ok = batch.success_user_ids;
            let bad = failed_user_ids(batch);
            &&& ok.len() + bad.len() == user_ids.len()
            &&& ok.to_multiset().add(bad.to_multiset()) == user_ids.to_multiset()
            &&& ok.to_set().union(bad.to_set()) == user_ids.to_set()
            &&& user_ids.no_duplicates() ==> ok.to_set().disjoint(bad.to_set())
        }),
    decreases user_ids.len(),
{
    broadcast use vstd::seq_lib::group_to_multiset_ensures;

    let batch = batch_of(user_ids, failures);
    let ok = batch.success_user_ids;
    let bad = failed_user_ids(batch);
    if user_ids.len() == 0 {
        assert(ok =~= Seq::<u64>::empty());
        assert(bad =~= Seq::<u64>::empty());
        assert(user_ids =~= Seq::<u64>::empty());
        assert(ok.to_set().union(bad.to_set()) =~= user_ids.to_set());
        assert(ok.to_multiset().add(bad.to_multiset()) =~= user_ids.to_multiset());
    } else {
        let head = user_ids.drop_last();
        let last = user_ids.last();
        let before = batch_of(head, failures.drop_last());
        let ok0 = before.success_user_ids;
        let bad0 = failed_user_ids(before);
        lemma_batch_partitions_input(head, failures.drop_last());
        assert(user_ids =~= head.push(last));
        match failures.last() {
            None => {
                assert(ok =~= ok0.push(last));
                assert(bad =~= bad0);
            },
            Some(message) => {
                assert(ok =~= ok0);
                assert(bad =~= bad0.push(last));
            },
        }
        assert(ok.to_multiset().add(bad.to_multiset()) =~= user_ids.to_multiset());
        head.lemma_push_to_set_commute(last);
        ok0.lemma_push_to_set_commute(last);
        bad0.lemma_push_to_set_commute(last);
        assert(ok.to_set().union(bad.to_set()) =~= user_ids.to_set());
        if user_ids.no_duplicates() {
            assert(head.no_duplicates());
            assert(!head.contains(last)) by {
                if head.contains(last) {
                    let i = choose|i: int| 0 <= i < head.len() && head[i] == last;
                    assert(user_ids[i] == user_ids[user_ids.len() - 1]);
                }
            }
            assert(!head.to_set().contains(last));
            assert(!ok0.to_set().union(bad0.to_set()).contains(last));
            assert(ok.to_set().disjoint(bad.to_set())) by {
                assert forall|x: u64| !(ok.to_set().contains(x) && bad.to_set().contains(x)) by {
                    assert(ok0.to_set().disjoint(bad0.to_set()));
                    if ok.to_set().contains(x) && bad.to_set().contains(x) {
                        assert(!(ok0.to_set().contains(x) && bad0.to_set().contains(x)));
                    }
                }
            }
        }
    }
}

impl BatchResult {
    /// The result of a batch before anything has been attempted.
    pub fn new() -> (batch: BatchResult)
        ensures
            batch@ == empty_batch(),
    {
        let batch = BatchResult { success_user_ids: Vec::new(), failed: Vec::new() };
        assert(batch@.failed =~= Seq::empty());
        batch
    }

    /// Writes down how the attempt for `user_id` ended.
    pub fn record(&mut self, user_id: u64, outcome: Result<(), GitLabError>)
        ensures
            final(self)@ == recorded(old(self)@, user_id, failure_of(outcome)),
    {
        match outcome {
            Ok(_) => {
                self.success_user_ids.push(user_id);
            },
            Err(e) => {
                self.failed.push(BatchItemError { user_id, message: e.message() });
                assert(self@.failed =~= old(self)@.failed.push(
                    BatchItemErrorView { user_id, message: e@.message_text() },
                ));
            },
        }
    }
}

/// Applies `operation` to each of `user_ids`, in order, and collects how
/// each attempt ended. No failure stops the batch.
pub fn run_batch<F: Fn(u64) -> Result<(), GitLabError>>(user_ids: &Vec<u64>, operation: F) -> (batch:
    BatchResult)
    requires
        forall|i: int| 0 <= i < user_ids.len() ==> call_requires(operation, (#[trigger] user_ids[i],)),
    ensures
        exists|outcomes: Seq<Result<(), GitLabError>>|
            {
                &&& outcomes.len() == user_ids.len()
                &&& forall|i: int|
                    0 <= i < user_ids.len() ==> call_ensures(
                        operation,
                        (user_ids[i],),
                        #[trigger] outcomes[i],
                    )
                &&& batch@ == batch_of(user_ids@, failures_of(outcomes))
            },
        batch.success_user_ids@.len() + batch.failed@.len() == user_ids@.len(),
{
    let mut batch = BatchResult::new();
    let ghost mut outcomes: Seq<Result<(), GitLabError>> = Seq::empty();
    let mut i: usize = 0;
    assert(user_ids@.take(0) =~= Seq::<u64>::empty());
    while i < user_ids.len()
        invariant
            i <= user_ids.len(),
            forall|k: int|
                0 <= k < user_ids.len() ==> call_requires(operation, (#[trigger] user_ids[k],)),
            outcomes.len() == i,
            forall|k: int|
                0 <= k < i ==> call_ensures(operation, (user_ids[k],), #[trigger] outcomes[k]),
            batch@ == batch_of(user_ids@.take(i as int), failures_of(outcomes)),
        decreases user_ids.len() - i,
    {
        let user_id = user_ids[i];
        let outcome = operation(user_id);
        proof {
            let before = outcomes;
            outcomes = outcomes.push(outcome);
            assert(user_ids@.take(i + 1).drop_last() =~= user_ids@.take(i as int));
            assert(failures_of(outcomes).drop_last() =~= failures_of(before));
        }
        batch.record(user_id, outcome);
        i += 1;
    }
    proof {
        assert(user_ids@.take(i as int) =~= user_ids@);
        lemma_batch_partitions_input(user_ids@, failures_of(outcomes));
    }
    batch
}

} // verus!
