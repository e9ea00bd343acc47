//! The validation of the reads of a transaction.
use crate::errors::InvariantViolation;
use crate::lists::lemma_push;
use crate::parallel::scheduler::SchedulerTask;
use crate::types::Identifier;
use crate::types::Key;
use std::collections::HashMap;
use std::collections::HashSet;
use vstd::prelude::*;

verus! {

broadcast use vstd::std_specs::hash::group_hash_axioms;

/// An entry that a transaction wrote, and that is to be marked as an estimate.
#[derive(Clone, Copy, Debug, PartialEq, Eq, Structural)]
pub enum EstimateMark {
    Module(Key),
    Data(Key),
    DelayedField(Identifier),
}

/// How the reads of a transaction were recorded.
#[derive(Clone, Copy, Debug, PartialEq, Eq, Structural)]
pub enum RecordedReads {
    /// Not at all.
    Missing,
    /// Wrongly.
    IncorrectUse,
    /// As they should be.
    Usable,
}

/// What is to be done next about the validation of a transaction.
pub enum ValidationStep<W> {
    /// Look at the reads that were recorded.
    LoadReads,
    /// Compare the data that was read with the data that is there now.
    ValidateDataReads,
    /// Compare the resource groups that were read with those that are there now.
    ValidateGroupReads,
    /// Try to abort this incarnation of the transaction.
    TryAbort,
    /// Count the abort, and drop what the aborted incarnation logged.
    ClearLogs,
    /// Look up what the aborted incarnation wrote.
    LoadModified,
    /// Mark what it wrote as estimates, in this order.
    MarkEstimates(Vec<EstimateMark>),
    /// Report that the incarnation is aborted.
    FinishAbort,
    /// Report that the validation is over. The reads were `valid`, or another worker aborted
    /// the incarnation first.
    FinishValidation { valid: bool },
    /// Have a worker look for transactions that can be committed.
    ArmCommits,
    /// The validation is over, and this is the next task of the worker.
    Return(SchedulerTask<W>),
}

/// What came of a step of a validation.
pub enum ValidationEvent<W> {
    Reads(RecordedReads),
    /// The answer to a question.
    Answer(bool),
    /// The step was made.
    Made,
    /// The keys that were written, and whether they are those of modules; the delayed fields
    /// that were changed.
    Modified(Option<HashMap<Key, bool>>, Option<HashSet<Identifier>>),
    /// The task that came out.
    Task(SchedulerTask<W>),
}

/// `mark` is about an entry in `modified` or a field in `delayed`.
pub open spec fn is_mark_of(
    modified: Option<HashMap<Key, bool>>,
    delayed: Option<HashSet<Identifier>>,
    mark: EstimateMark,
) -> bool {
    match mark {
        EstimateMark::Module(key) => modified matches Some(keys) && keys@.contains_key(key)
            && keys@[key],
        EstimateMark::Data(key) => modified matches Some(keys) && keys@.contains_key(key)
            && !keys@[key],
        EstimateMark::DelayedField(id) => delayed matches Some(ids) && ids@.contains(id),
    }
}

/// `marks` has one mark for each entry in `modified` and one for each field in `delayed`, and
/// the latter come last.
pub open spec fn marks_all(
    modified: Option<HashMap<Key, bool>>,
    delayed: Option<HashSet<Identifier>>,
    marks: Seq<EstimateMark>,
) -> bool {
    &&& marks.no_duplicates()
    &&& forall|mark: EstimateMark| #[trigger]
        marks.contains(mark) <==> is_mark_of(modified, delayed, mark)
    &&& forall|i: int, j: int|
        #![trigger marks[i], marks[j]]
        0 <= i < j < marks.len() && marks[i] is DelayedField ==> marks[j] is DelayedField
}

/// The key that `mark` is about, if it is about one.
spec fn marked_key(mark: EstimateMark) -> Option<Key> {
    match mark {
        EstimateMark::Module(key) => Some(key),
        EstimateMark::Data(key) => Some(key),
        EstimateMark::DelayedField(_) => None,
    }
}

/// The marks for what a transaction wrote.
fn estimate_marks(
    modified: &Option<HashMap<Key, bool>>,
    delayed: &Option<HashSet<Identifier>>,
) -> (marks: Vec<EstimateMark>)
    ensures
        marks_all(*modified, *delayed, marks@),
{
    let mut marks: Vec<EstimateMark> = Vec::new();
    if let Some(keys) = modified {
        let ghost mut visited: Set<Key> = Set::empty();
        for entry in it: keys.iter()
            invariant
                it.seq().no_duplicates(),
                *modified == Some(*keys),
                forall|k: Key| #[trigger]
                    visited.contains(k) <==> exists|j: int|
                        0 <= j < it.index() && *(#[trigger] it.seq()[j]).0 == k,
                marks@.no_duplicates(),
                forall|mark: EstimateMark| #[trigger]
                    marks@.contains(mark) <==> is_mark_of(*modified, None, mark) && (marked_key(
                        mark,
                    ) matches Some(key) && visited.contains(key)),
        {
            let (key, is_module) = entry;
            assert(keys@.contains_key(*key) && keys@[*key] == *is_module);
            assert(!visited.contains(*key)) by {
                if visited.contains(*key) {
                    let j = choose|j: int|
                        0 <= j < it.index() && *(#[trigger] it.seq()[j]).0 == *key;
                    assert(keys@[*it.seq()[j].0] == *it.seq()[j].1);
                    assert(it.seq()[j] == it.seq()[it.index() as int]);
                }
            }
            let mark = if *is_module {
                EstimateMark::Module(*key)
            } else {
                EstimateMark::Data(*key)
            };
            proof {
                lemma_push(marks@, mark);
                visited = visited.insert(*key);
            }
            marks.push(mark);
        }
    }
    assert(marks_all(*modified, None, marks@)) by {
        assert forall|i: int| 0 <= i < marks@.len() implies !(#[trigger] marks@[i] is DelayedField) by {
            assert(marks@.contains(marks@[i]));
        }
    }
    if let Some(ids) = delayed {
        let ghost mut visited: Set<Identifier> = Set::empty();
        for id in it: ids.iter()
            invariant
                it.seq().no_duplicates(),
                *delayed == Some(*ids),
                forall|k: Identifier| #[trigger]
                    visited.contains(k) <==> exists|j: int|
                        0 <= j < it.index() && *(#[trigger] it.seq()[j]) == k,
                marks@.no_duplicates(),
                forall|mark: EstimateMark| #[trigger]
                    marks@.contains(mark) <==> {
                        ||| is_mark_of(*modified, None, mark)
                        ||| mark matches EstimateMark::DelayedField(k) && visited.contains(k)
                    },
                forall|k: Identifier| #[trigger] visited.contains(k) ==> ids@.contains(k),
                forall|i: int, j: int|
                    #![trigger marks@[i], marks@[j]]
                    0 <= i < j < marks@.len() && marks@[i] is DelayedField
                        ==> marks@[j] is DelayedField,
        {
            assert(!visited.contains(*id));
            assert(ids@.contains(*id));
            let mark = EstimateMark::DelayedField(*id);
            proof {
                lemma_push(marks@, mark);
                visited = visited.insert(*id);
            }
            marks.push(mark);
        }
        assert forall|k: Identifier| visited.contains(k) <==> ids@.contains(k) by {}
    }
    marks
}

impl<W> ValidationStep<W> {
    /// `event` is of the kind that this step comes to.
    pub open spec fn expects(self, event: ValidationEvent<W>) -> bool {
        match self {
            ValidationStep::LoadReads => event is Reads,
            ValidationStep::ValidateDataReads => event is Answer,
            ValidationStep::ValidateGroupReads => event is Answer,
            ValidationStep::TryAbort => event is Answer,
            ValidationStep::ClearLogs => event is Made,
            ValidationStep::LoadModified => event is Modified,
            ValidationStep::MarkEstimates(_) => event is Made,
            ValidationStep::FinishAbort => event is Task,
            ValidationStep::FinishValidation { valid: _ } => event is Made,
            ValidationStep::ArmCommits => event is Made,
            ValidationStep::Return(_) => false,
        }
    }

    /// `next` is the step after this one, when it has come to `event`.
    pub open spec fn leads_to(self, event: ValidationEvent<W>, next: ValidationStep<W>) -> bool {
        match self {
            ValidationStep::LoadReads => {
                &&& event->Reads_0 == RecordedReads::Usable
                &&& next == ValidationStep::<W>::ValidateDataReads
            },
            ValidationStep::ValidateDataReads => next == if event->Answer_0 {
                ValidationStep::<W>::ValidateGroupReads
            } else {
                ValidationStep::TryAbort
            },
            ValidationStep::ValidateGroupReads => next == if event->Answer_0 {
                ValidationStep::<W>::FinishValidation { valid: true }
            } else {
                ValidationStep::TryAbort
            },
            ValidationStep::TryAbort => next == if event->Answer_0 {
                ValidationStep::<W>::ClearLogs
            } else {
                ValidationStep::FinishValidation { valid: false }
            },
            ValidationStep::ClearLogs => next == ValidationStep::<W>::LoadModified,
            ValidationStep::LoadModified => {
                &&& next matches ValidationStep::MarkEstimates(marks)
                &&& marks_all(event->Modified_0, event->Modified_1, marks@)
            },
            ValidationStep::MarkEstimates(_) => next == ValidationStep::<W>::FinishAbort,
            ValidationStep::FinishAbort => next == ValidationStep::Return(event->Task_0),
            ValidationStep::FinishValidation { valid } => next == if valid {
                ValidationStep::<W>::ArmCommits
            } else {
                ValidationStep::Return(SchedulerTask::NoTask)
            },
            ValidationStep::ArmCommits => next == ValidationStep::<W>::Return(
                SchedulerTask::NoTask,
            ),
            ValidationStep::Return(_) => false,
        }
    }

    /// The first step of a validation.
    pub fn start() -> (r: ValidationStep<W>)
        ensures
            r == ValidationStep::<W>::LoadReads,
    {
        ValidationStep::LoadReads
    }

    /// The step after this one, when it has come to `event`. Reads are valid if both the data and
    /// the groups that were read are still what they were. An incarnation whose reads are not
    /// valid is aborted, and all that it wrote becomes an estimate.
    pub fn next(self, event: ValidationEvent<W>) -> (r: Result<
        ValidationStep<W>,
        InvariantViolation,
    >)
        requires
            self.expects(event),
        ensures
            r matches Ok(next) ==> self.leads_to(event, next),
            r matches Err(violation) ==> {
                &&& self is LoadReads
                &&& violation == match event->Reads_0 {
                    RecordedReads::Missing => InvariantViolation::ReadSetNotRecorded,
                    _ => InvariantViolation::IncorrectUse,
                }
            },
            r is Err <==> self is LoadReads && event->Reads_0 != RecordedReads::Usable,
    {
        match (self, event) {
            (ValidationStep::LoadReads, ValidationEvent::Reads(reads)) => {
                match reads {
                    RecordedReads::Missing => Err(InvariantViolation::ReadSetNotRecorded),
                    RecordedReads::IncorrectUse => Err(InvariantViolation::IncorrectUse),
                    RecordedReads::Usable => Ok(ValidationStep::ValidateDataReads),
                }
            },
            (ValidationStep::ValidateDataReads, ValidationEvent::Answer(true)) => Ok(
                ValidationStep::ValidateGroupReads,
            ),
            (ValidationStep::ValidateDataReads, _) => Ok(ValidationStep::TryAbort),
            (ValidationStep::ValidateGroupReads, ValidationEvent::Answer(true)) => Ok(
                ValidationStep::FinishValidation { valid: true },
            ),
            (ValidationStep::ValidateGroupReads, _) => Ok(ValidationStep::TryAbort),
            (ValidationStep::TryAbort, ValidationEvent::Answer(true)) => Ok(
                ValidationStep::ClearLogs,
            ),
            (ValidationStep::TryAbort, _) => Ok(ValidationStep::FinishValidation { valid: false }),
            (ValidationStep::ClearLogs, _) => Ok(ValidationStep::LoadModified),
            (ValidationStep::LoadModified, ValidationEvent::Modified(modified, delayed)) => {
                let marks = estimate_marks(&modified, &delayed);
                Ok(ValidationStep::MarkEstimates(marks))
            },
            (ValidationStep::MarkEstimates(_), _) => Ok(ValidationStep::FinishAbort),
            (ValidationStep::FinishAbort, ValidationEvent::Task(task)) => Ok(
                ValidationStep::Return(task),
            ),
            (ValidationStep::FinishValidation { valid: true }, _) => Ok(ValidationStep::ArmCommits),
            (_, _) => Ok(ValidationStep::Return(SchedulerTask::NoTask)),
        }
    }
}

/// Step `i` came to an event of its kind, and was followed by the step that this leads to.
pub open spec fn validation_goes_on<W>(
    steps: Seq<ValidationStep<W>>,
    events: Seq<ValidationEvent<W>>,
    i: int,
) -> bool {
    &&& steps[i].expects(events[i])
    &&& steps[i].leads_to(events[i], steps[i + 1])
}

/// `steps` are the steps of a validation from its start, and `events` what they came to.
pub open spec fn validation_trace<W>(
    steps: Seq<ValidationStep<W>>,
    events: Seq<ValidationEvent<W>>,
) -> bool {
    &&& steps.len() == events.len() + 1
    &&& steps[0] == ValidationStep::<W>::LoadReads
    &&& forall|i: int|
        0 <= i < events.len() ==> #[trigger] validation_goes_on(steps, events, i)
}

/// The data and the groups were found valid, so that the validation was reported and the commits
/// were armed.
pub open spec fn found_valid<W>(
    steps: Seq<ValidationStep<W>>,
    events: Seq<ValidationEvent<W>>,
) -> bool {
    &&& steps.len() == 6
    &&& events[1] == ValidationEvent::<W>::Answer(true)
    &&& events[2] == ValidationEvent::<W>::Answer(true)
    &&& steps[1] == ValidationStep::<W>::ValidateDataReads
    &&& steps[2] == ValidationStep::<W>::ValidateGroupReads
    &&& steps[3] == ValidationStep::<W>::FinishValidation { valid: true }
    &&& steps[4] == ValidationStep::<W>::ArmCommits
    &&& steps[5] == ValidationStep::<W>::Return(SchedulerTask::NoTask)
}

/// The data or the groups were found invalid, so that step `n` tries to abort.
pub open spec fn found_invalid<W>(
    steps: Seq<ValidationStep<W>>,
    events: Seq<ValidationEvent<W>>,
    n: int,
) -> bool {
    &&& steps.len() > n
    &&& steps[1] == ValidationStep::<W>::ValidateDataReads
    &&& if n == 2 {
        events[1] == ValidationEvent::<W>::Answer(false)
    } else {
        &&& n == 3
        &&& events[1] == ValidationEvent::<W>::Answer(true)
        &&& steps[2] == ValidationStep::<W>::ValidateGroupReads
        &&& events[2] == ValidationEvent::<W>::Answer(false)
    }
    &&& steps[n] == ValidationStep::<W>::TryAbort
}

/// Another worker had aborted the incarnation already: the validation was reported, and the
/// commits were not armed.
pub open spec fn lost_abort<W>(
    steps: Seq<ValidationStep<W>>,
    events: Seq<ValidationEvent<W>>,
    n: int,
) -> bool {
    &&& found_invalid(steps, events, n)
    &&& steps.len() == n + 3
    &&& events[n] == ValidationEvent::<W>::Answer(false)
    &&& steps[n + 1] == ValidationStep::<W>::FinishValidation { valid: false }
    &&& steps[n + 2] == ValidationStep::<W>::Return(SchedulerTask::NoTask)
}

/// The incarnation was aborted: all that it wrote was marked before the abort was reported, and
/// the task that this gave is the next one.
pub open spec fn won_abort<W>(
    steps: Seq<ValidationStep<W>>,
    events: Seq<ValidationEvent<W>>,
    n: int,
) -> bool {
    &&& found_invalid(steps, events, n)
    &&& steps.len() == n + 6
    &&& events[n] == ValidationEvent::<W>::Answer(true)
    &&& steps[n + 1] == ValidationStep::<W>::ClearLogs
    &&& steps[n + 2] == ValidationStep::<W>::LoadModified
    &&& steps[n + 3] matches ValidationStep::MarkEstimates(marks)
    &&& marks_all(events[n + 2]->Modified_0, events[n + 2]->Modified_1, marks@)
    &&& steps[n + 4] == ValidationStep::<W>::FinishAbort
    &&& steps[n + 5] == ValidationStep::<W>::Return(events[n + 4]->Task_0)
}

/// A validation has one of three ends: the reads are valid; they are not, and another worker has
/// aborted the incarnation; or they are not, and this one aborts it, marking all that it wrote.
pub proof fn validations_end_in_one_of_three_ways<W>(
    steps: Seq<ValidationStep<W>>,
    events: Seq<ValidationEvent<W>>,
)
    requires
        validation_trace(steps, events),
        steps.last() is Return,
    ensures
        found_valid(steps, events) || lost_abort(steps, events, 2) || lost_abort(steps, events, 3)
            || won_abort(steps, events, 2) || won_abort(steps, events, 3),
{
    assert(validation_goes_on(steps, events, 0));
    assert(validation_goes_on(steps, events, 1));
    if events[1]->Answer_0 {
        assert(validation_goes_on(steps, events, 2));
        assert(validation_goes_on(steps, events, 3));
        if events[2]->Answer_0 {
            assert(validation_goes_on(steps, events, 4));
            if steps.len() > 6 {
                assert(validation_goes_on(steps, events, 5));
            }
        } else {
            lemma_after_try_abort(steps, events, 3);
        }
    } else {
        lemma_after_try_abort(steps, events, 2);
    }
}

proof fn lemma_after_try_abort<W>(
    steps: Seq<ValidationStep<W>>,
    events: Seq<ValidationEvent<W>>,
    n: int,
)
    requires
        validation_trace(steps, events),
        steps.last() is Return,
        found_invalid(steps, events, n),
    ensures
        lost_abort(steps, events, n) || won_abort(steps, events, n),
{
    assert(validation_goes_on(steps, events, n));
    assert(validation_goes_on(steps, events, n + 1));
    if events[n]->Answer_0 {
        assert(validation_goes_on(steps, events, n + 2));
        assert(validation_goes_on(steps, events, n + 3));
        assert(validation_goes_on(steps, events, n + 4));
        if steps.len() > n + 6 {
            assert(validation_goes_on(steps, events, n + 5));
        }
    } else {
        if steps.len() > n + 3 {
            assert(validation_goes_on(steps, events, n + 2));
        }
    }
}

} // verus!
