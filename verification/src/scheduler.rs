//! Synchronizing many artifacts with a bounded number at work at once.
//!
//! The artifacts are taken in batches of a fixed size, in the order of the
//! input. The artifacts of a batch are worked on together, in any order; the
//! next batch begins when every artifact of the batch has its result. Each
//! result is kept at the position of its artifact, so the results come out
//! in the order of the input.

use crate::artifact::{result_model, SyncError, SyncErrorModel, SyncOutcome};
use vstd::prelude::*;

verus! {

/// How many artifacts are worked on at once.
pub const BATCH_SIZE: usize = 4;

/// What the place of one artifact holds: its result, once it has one.
pub type SlotModel = Option<Result<SyncOutcome, SyncErrorModel>>;

/// What a `BatchScheduler` stands for: the place of each artifact, and the
/// position at which the batch at work begins.
pub struct ScheduleModel {
    pub slots: Seq<SlotModel>,
    pub start: nat,
}

/// What one place stands for.
pub open spec fn slot_model(slot: Option<Result<SyncOutcome, SyncError>>) -> SlotModel {
    match slot {
        Some(result) => Some(result_model(result)),
        None => None,
    }
}

/// What the places stand for.
pub open spec fn slots_model(slots: Seq<Option<Result<SyncOutcome, SyncError>>>) -> Seq<SlotModel> {
    Seq::new(slots.len(), |i: int| slot_model(slots[i]))
}

/// What a list of results stands for.
pub open spec fn results_model(results: Seq<Result<SyncOutcome, SyncError>>) -> Seq<
    Result<SyncOutcome, SyncErrorModel>,
> {
    Seq::new(results.len(), |i: int| result_model(results[i]))
}

impl ScheduleModel {
    /// The schedule for `total` artifacts before any result is in.
    pub open spec fn initial(total: nat) -> ScheduleModel {
        ScheduleModel { slots: Seq::new(total, |i: int| None), start: 0 }
    }

    /// The position behind the batch at work.
    pub open spec fn batch_end(self) -> nat {
        if self.start + BATCH_SIZE <= self.slots.len() {
            self.start + BATCH_SIZE as nat
        } else {
            self.slots.len()
        }
    }

    /// Whether the artifact at `index` is at work: it belongs to the batch at
    /// work and has no result yet.
    pub open spec fn awaits(self, index: int) -> bool {
        self.start <= index < self.batch_end() && self.slots[index] is None
    }

    /// Whether every artifact has its result.
    pub open spec fn finished(self) -> bool {
        self.start == self.slots.len()
    }

    /// Every place before the batch at work holds a result, no place behind
    /// it does, and the batch at work, if there is one, still lacks one.
    pub open spec fn well_formed(self) -> bool {
        &&& self.start <= self.slots.len()
        &&& forall|i: int| 0 <= i < self.start ==> (#[trigger] self.slots[i]) is Some
        &&& forall|i: int| self.batch_end() <= i < self.slots.len() ==> (#[trigger] self.slots[i]) is None
        &&& self.start < self.slots.len() ==> exists|i: int| #[trigger] self.awaits(i)
    }

    /// The schedule after the result of the artifact at `index` has come
    /// in. The result goes to the place of that artifact; when it was the
    /// last one that the batch lacked, the next batch begins. A result for
    /// an artifact that is not at work changes nothing.
    pub open spec fn recorded(self, index: int, result: Result<SyncOutcome, SyncErrorModel>) -> ScheduleModel {
        if self.awaits(index) {
            let slots = self.slots.update(index, Some(result));
            let complete = forall|i: int| self.start <= i < self.batch_end() ==> (#[trigger] slots[i]) is Some;
            ScheduleModel {
                slots,
                start: if complete {
                    self.batch_end()
                } else {
                    self.start
                },
            }
        } else {
            self
        }
    }

    /// The results in the order of the artifacts, once all are in.
    pub open spec fn results(self) -> Seq<Result<SyncOutcome, SyncErrorModel>> {
        Seq::new(self.slots.len(), |i: int| self.slots[i]->Some_0)
    }
}

/// Keeps the results of a synchronization and says which artifacts are to
/// be worked on next.
pub struct BatchScheduler {
    slots: Vec<Option<Result<SyncOutcome, SyncError>>>,
    start: usize,
}

impl View for BatchScheduler {
    type V = ScheduleModel;

    closed spec fn view(&self) -> ScheduleModel {
        ScheduleModel { slots: slots_model(self.slots@), start: self.start as nat }
    }
}

impl BatchScheduler {
    #[verifier::type_invariant]
    spec fn sound(self) -> bool {
        self@.well_formed()
    }

    /// The scheduler for `total` artifacts, with the first batch at work.
    pub fn new(total: usize) -> (scheduler: BatchScheduler)
        ensures
            scheduler@ == ScheduleModel::initial(total as nat),
            scheduler@.well_formed(),
    {
        let mut slots: Vec<Option<Result<SyncOutcome, SyncError>>> = Vec::new();
        let mut i: usize = 0;
        while i < total
            invariant
                i <= total,
                slots.len() == i,
                forall|k: int| 0 <= k < i ==> slots[k] is None,
            decreases total - i,
        {
            slots.push(None);
            i = i + 1;
        }
        proof {
            let model = ScheduleModel { slots: slots_model(slots@), start: 0 };
            assert(model.slots =~= ScheduleModel::initial(total as nat).slots);
            if total > 0 {
                assert(model.awaits(0));
            }
        }
        BatchScheduler { slots, start: 0 }
    }

    /// The number of artifacts.
    pub fn total(&self) -> (total: usize)
        ensures
            total == self@.slots.len(),
    {
        self.slots.len()
    }

    /// The batch at work, as the positions from the first of the pair up to,
    /// but without, the second: between one and `BATCH_SIZE` artifacts.
    /// `None` once every artifact has its result.
    pub fn current_batch(&self) -> (batch: Option<(usize, usize)>)
        ensures
            match batch {
                Some((from, to)) => {
                    &&& !self@.finished()
                    &&& from == self@.start
                    &&& to == self@.batch_end()
                    &&& from < to <= from + BATCH_SIZE
                    &&& to <= self@.slots.len()
                },
                None => self@.finished(),
            },
    {
        proof {
            use_type_invariant(self);
        }
        let total = self.slots.len();
        if self.start >= total {
            None
        } else if total - self.start > BATCH_SIZE {
            Some((self.start, self.start + BATCH_SIZE))
        } else {
            Some((self.start, total))
        }
    }

    /// Whether the artifact at `index` is at work and has no result yet.
    pub fn awaits(&self, index: usize) -> (waiting: bool)
        ensures
            waiting == self@.awaits(index as int),
    {
        match self.current_batch() {
            Some((from, to)) => from <= index && index < to && self.slots[index].is_none(),
            None => false,
        }
    }

    /// Takes in the result of the artifact at `index`. A result for an
    /// artifact that is not at work is dropped.
    pub fn record(self, index: usize, result: Result<SyncOutcome, SyncError>) -> (next: BatchScheduler)
        ensures
            next@ == self@.recorded(index as int, result_model(result)),
            next@.well_formed(),
    {
        proof {
            use_type_invariant(&self);
        }
        if !self.awaits(index) {
            return self;
        }
        let ghost before = self@;
        let start = self.start;
        let mut slots = self.slots;
        let total = slots.len();
        let end = if total - start > BATCH_SIZE {
            start + BATCH_SIZE
        } else {
            total
        };
        slots.set(index, Some(result));
        assert(slots_model(slots@) =~= before.slots.update(index as int, Some(result_model(result))));
        let mut complete = true;
        let mut i: usize = start;
        while i < end
            invariant
                start <= i <= end <= slots.len(),
                complete == forall|k: int| start <= k < i ==> (#[trigger] slots_model(slots@)[k]) is Some,
            decreases end - i,
        {
            if slots[i].is_none() {
                complete = false;
                assert(slots_model(slots@)[i as int] is None);
            }
            i = i + 1;
        }
        let next_start = if complete {
            end
        } else {
            start
        };
        proof {
            let after = ScheduleModel { slots: slots_model(slots@), start: next_start as nat };
            assert(after == before.recorded(index as int, result_model(result)));
            lemma_recorded_keeps_well_formed(before, index as int, result_model(result));
        }
        BatchScheduler { slots, start: next_start }
    }

    /// The results in the order of the artifacts: the result at each
    /// position is the one that was taken in for the artifact at that
    /// position. `None` while an artifact lacks its result.
    pub fn into_results(self) -> (results: Option<Vec<Result<SyncOutcome, SyncError>>>)
        ensures
            match results {
                Some(results) => self@.finished() && results_model(results@) == self@.results(),
                None => !self@.finished(),
            },
    {
        proof {
            use_type_invariant(&self);
        }
        if self.start < self.slots.len() {
            return None;
        }
        let ghost model = self@;
        let mut slots = self.slots;
        let mut reversed: Vec<Result<SyncOutcome, SyncError>> = Vec::new();
        while slots.len() > 0
            invariant
                slots.len() + reversed.len() == model.slots.len(),
                forall|k: int| 0 <= k < slots.len() ==> slot_model(#[trigger] slots[k]) == model.slots[k],
                forall|k: int| 0 <= k < model.slots.len() ==> (#[trigger] model.slots[k]) is Some,
                forall|k: int|
                    0 <= k < reversed.len() ==> Some(result_model(#[trigger] reversed[k]))
                        == model.slots[model.slots.len() - 1 - k],
            decreases slots.len(),
        {
            let ghost last = slots.len() - 1;
            assert(slot_model(slots[last]) == model.slots[last]);
            match slots.pop() {
                Some(Some(result)) => {
                    reversed.push(result);
                },
                _ => {
                    assert(false);
                },
            }
        }
        let mut results: Vec<Result<SyncOutcome, SyncError>> = Vec::new();
        while reversed.len() > 0
            invariant
                reversed.len() + results.len() == model.slots.len(),
                forall|k: int|
                    0 <= k < reversed.len() ==> Some(result_model(#[trigger] reversed[k]))
                        == model.slots[model.slots.len() - 1 - k],
                forall|k: int|
                    0 <= k < results.len() ==> Some(result_model(#[trigger] results[k]))
                        == model.slots[k],
            decreases reversed.len(),
        {
            let ghost at = results.len() as int;
            let ghost last = reversed.len() - 1;
            assert(Some(result_model(reversed[last])) == model.slots[model.slots.len() - 1 - last]);
            match reversed.pop() {
                Some(result) => {
                    results.push(result);
                },
                None => {
                    assert(false);
                },
            }
        }
        assert(results_model(results@) =~= model.results());
        Some(results)
    }
}

/// Taking in a result keeps a schedule well formed.
pub proof fn lemma_recorded_keeps_well_formed(
    schedule: ScheduleModel,
    index: int,
    result: Result<SyncOutcome, SyncErrorModel>,
)
    requires
        schedule.well_formed(),
    ensures
        schedule.recorded(index, result).well_formed(),
        schedule.recorded(index, result).slots.len() == schedule.slots.len(),
{
    let next = schedule.recorded(index, result);
    if schedule.awaits(index) {
        let slots = schedule.slots.update(index, Some(result));
        let complete = forall|i: int|
            schedule.start <= i < schedule.batch_end() ==> (#[trigger] slots[i]) is Some;
        if complete {
            assert forall|i: int| 0 <= i < next.start implies (#[trigger] next.slots[i]) is Some by {
                if i >= schedule.start {
                    assert(slots[i] is Some);
                } else {
                    assert(schedule.slots[i] is Some);
                }
            }
            if next.start < next.slots.len() {
                assert(schedule.slots[next.start as int] is None);
                assert(next.awaits(next.start as int));
            }
        } else {
            let i = choose|i: int| schedule.start <= i < schedule.batch_end() && !((#[trigger] slots[i]) is Some);
            assert(next.awaits(i));
            assert forall|i: int| 0 <= i < next.start implies (#[trigger] next.slots[i]) is Some by {
                assert(schedule.slots[i] is Some);
            }
        }
    }
}

/// The schedule after the results of the artifacts at the positions `order`
/// have come in one after the other, where the artifact at position `i` has
/// the result `outcomes[i]`.
pub open spec fn replayed(
    outcomes: Seq<Result<SyncOutcome, SyncErrorModel>>,
    order: Seq<int>,
) -> ScheduleModel
    decreases order.len(),
{
    if order.len() == 0 {
        ScheduleModel::initial(outcomes.len())
    } else {
        let before = replayed(outcomes, order.drop_last());
        let index = order.last();
        if 0 <= index < outcomes.len() {
            before.recorded(index, outcomes[index])
        } else {
            before
        }
    }
}

/// The results keep the order of the input. In whatever order the results
/// come in, each one is kept at the position of its artifact: once all are
/// in, the results are the outcomes of the artifacts in the order of the
/// artifacts.
pub proof fn lemma_results_keep_input_order(
    outcomes: Seq<Result<SyncOutcome, SyncErrorModel>>,
    order: Seq<int>,
)
    ensures
        replayed(outcomes, order).well_formed(),
        replayed(outcomes, order).slots.len() == outcomes.len(),
        forall|i: int|
            0 <= i < outcomes.len() && (#[trigger] replayed(outcomes, order).slots[i]) is Some
                ==> replayed(outcomes, order).slots[i] == Some(outcomes[i]),
        replayed(outcomes, order).finished() ==> replayed(outcomes, order).results() == outcomes,
    decreases order.len(),
{
    let schedule = replayed(outcomes, order);
    if order.len() == 0 {
        if outcomes.len() > 0 {
            assert(schedule.awaits(0));
        }
    } else {
        let before = replayed(outcomes, order.drop_last());
        lemma_results_keep_input_order(outcomes, order.drop_last());
        let index = order.last();
        if 0 <= index < outcomes.len() {
            lemma_recorded_keeps_well_formed(before, index, outcomes[index]);
        }
        assert forall|i: int|
            0 <= i < outcomes.len() && (#[trigger] schedule.slots[i]) is Some implies schedule.slots[i]
            == Some(outcomes[i]) by {
            if before.slots[i] is Some {
                assert(before.slots[i] == Some(outcomes[i]));
            }
        }
    }
    if schedule.finished() {
        assert forall|i: int| 0 <= i < outcomes.len() implies schedule.results()[i] == outcomes[i] by {
            assert(schedule.slots[i] is Some);
        }
        assert(schedule.results() =~= outcomes);
    }
}

/// The positions from zero up to, but without, `count`, in ascending order.
pub open spec fn ascending(count: nat) -> Seq<int> {
    Seq::new(count, |i: int| i)
}

/// The schedule after the first `count` artifacts have their results, taken
/// in in the order of the input: these have their results, the others have
/// none, and the batch at work is the one that the next artifact belongs to.
proof fn lemma_in_order_prefix(outcomes: Seq<Result<SyncOutcome, SyncErrorModel>>, count: nat)
    requires
        count <= outcomes.len(),
    ensures
        replayed(outcomes, ascending(count)).slots.len() == outcomes.len(),
        forall|i: int|
            0 <= i < outcomes.len() ==> ((#[trigger] replayed(outcomes, ascending(count)).slots[i])
                is Some <==> i < count),
        replayed(outcomes, ascending(count)).start == (if count == outcomes.len() {
            count as int
        } else {
            count - count % (BATCH_SIZE as nat)
        }),
    decreases count,
{
    let schedule = replayed(outcomes, ascending(count));
    if count > 0 {
        let done = (count - 1) as nat;
        lemma_in_order_prefix(outcomes, done);
        assert(ascending(count).drop_last() =~= ascending(done));
        assert(ascending(count).last() == done);
        let before = replayed(outcomes, ascending(done));
        assert(before.slots[done as int] is None);
        assert(before.awaits(done as int));
        let slots = before.slots.update(done as int, Some(outcomes[done as int]));
        let complete = forall|i: int| before.start <= i < before.batch_end() ==> (#[trigger] slots[i]) is Some;
        if count == before.batch_end() {
            assert forall|i: int| before.start <= i < before.batch_end() implies (#[trigger] slots[i]) is Some by {
                if i < done {
                    assert(before.slots[i] is Some);
                }
            }
        } else {
            assert(before.slots[count as int] is None);
            assert(!(slots[count as int] is Some));
        }
        assert(schedule.slots == slots);
    }
}

/// Every artifact gets its turn: when the results come in in the order of
/// the input, the synchronization ends with one result for each artifact.
pub proof fn lemma_in_order_replay_finishes(outcomes: Seq<Result<SyncOutcome, SyncErrorModel>>)
    ensures
        replayed(outcomes, ascending(outcomes.len())).finished(),
        replayed(outcomes, ascending(outcomes.len())).results() == outcomes,
{
    lemma_in_order_prefix(outcomes, outcomes.len());
    lemma_results_keep_input_order(outcomes, ascending(outcomes.len()));
}

/// Two results of one batch may come in in either order: the schedule is
/// the same.
pub proof fn lemma_completion_order_is_irrelevant(
    schedule: ScheduleModel,
    first: int,
    first_result: Result<SyncOutcome, SyncErrorModel>,
    second: int,
    second_result: Result<SyncOutcome, SyncErrorModel>,
)
    requires
        schedule.well_formed(),
        schedule.awaits(first),
        schedule.awaits(second),
        first != second,
    ensures
        schedule.recorded(first, first_result).recorded(second, second_result) == schedule.recorded(
            second,
            second_result,
        ).recorded(first, first_result),
{
    let one = schedule.recorded(first, first_result);
    let other = schedule.recorded(second, second_result);
    assert(one.slots[second] is None);
    assert(other.slots[first] is None);
    assert(one.start == schedule.start);
    assert(other.start == schedule.start);
    let left = one.recorded(second, second_result);
    let right = other.recorded(first, first_result);
    assert(left.slots =~= right.slots);
    assert(left.start == right.start);
}

/// Finds the first artifact, in the order of the input, whose result is an
/// error: the one on which a caller that stops at the first failure gives
/// up. `None` where every artifact is in place.
pub fn first_failure(results: &Vec<Result<SyncOutcome, SyncError>>) -> (failed: Option<usize>)
    ensures
        match failed {
            Some(index) => {
                &&& index < results.len()
                &&& results[index as int] is Err
                &&& forall|k: int| 0 <= k < index ==> (#[trigger] results[k]) is Ok
            },
            None => forall|k: int| 0 <= k < results.len() ==> (#[trigger] results[k]) is Ok,
        },
{
    let mut i: usize = 0;
    while i < results.len()
        invariant
            i <= results.len(),
            forall|k: int| 0 <= k < i ==> (#[trigger] results[k]) is Ok,
        decreases results.len() - i,
    {
        if results[i].is_err() {
            return Some(i);
        }
        i = i + 1;
    }
    None
}

} // verus!
