//! What a validation does with what it finds.
use crate::parallel::scheduler::SchedulerTask;
use crate::parallel::validation::is_mark_of;
use crate::parallel::validation::marks_all;
use crate::parallel::validation::validation_goes_on;
use crate::parallel::validation::validation_trace;
use crate::parallel::validation::EstimateMark;
use crate::parallel::validation::RecordedReads;
use crate::parallel::validation::ValidationEvent;
use crate::parallel::validation::ValidationStep;
use crate::types::Identifier;
use crate::types::Key;
use std::collections::HashMap;
use std::collections::HashSet;
use vstd::prelude::*;

verus! {

/// Every answer that the records, the cache and the scheduler can give may be handed back.
pub proof fn validations_accept_every_answer<W>(
    step: ValidationStep<W>,
    reads: RecordedReads,
    answer: bool,
    modified: Option<HashMap<Key, bool>>,
    delayed: Option<HashSet<Identifier>>,
    task: SchedulerTask<W>,
)
    ensures
        match step {
            ValidationStep::LoadReads => step.expects(ValidationEvent::Reads(reads)),
            ValidationStep::ValidateDataReads => step.expects(ValidationEvent::Answer(answer)),
            ValidationStep::ValidateGroupReads => step.expects(ValidationEvent::Answer(answer)),
            ValidationStep::TryAbort => step.expects(ValidationEvent::Answer(answer)),
            ValidationStep::ClearLogs => step.expects(ValidationEvent::Made),
            ValidationStep::LoadModified => step.expects(
                ValidationEvent::Modified(modified, delayed),
            ),
            ValidationStep::MarkEstimates(_) => step.expects(ValidationEvent::Made),
            ValidationStep::FinishAbort => step.expects(ValidationEvent::Task(task)),
            ValidationStep::FinishValidation { valid: _ } => step.expects(ValidationEvent::Made),
            ValidationStep::ArmCommits => step.expects(ValidationEvent::Made),
            ValidationStep::Return(_) => true,
        },
{
}

/// Every entry that an aborted incarnation wrote is marked as an estimate exactly once, a module as
/// a module and anything else as data, and so is every delayed field that it changed. Nothing else
/// is, and the fields come last.
pub proof fn all_that_was_written_is_marked(
    modified: Option<HashMap<Key, bool>>,
    delayed: Option<HashSet<Identifier>>,
    marks: Seq<EstimateMark>,
    key: Key,
)
    requires
        marks_all(modified, delayed, marks),
    ensures
        (modified matches Some(keys) && keys@.contains_key(key) && keys@[key]) <==> exists|i: int|
            0 <= i < marks.len() && #[trigger] marks[i] == EstimateMark::Module(key),
        (modified matches Some(keys) && keys@.contains_key(key) && !keys@[key]) <==> exists|i: int|
            0 <= i < marks.len() && #[trigger] marks[i] == EstimateMark::Data(key),
        (delayed matches Some(ids) && ids@.contains(key)) <==> exists|i: int|
            0 <= i < marks.len() && #[trigger] marks[i] == EstimateMark::DelayedField(key),
        forall|i: int, j: int|
            #![trigger marks[i], marks[j]]
            0 <= i < j < marks.len() ==> marks[i] != marks[j] && (marks[i] is DelayedField
                ==> marks[j] is DelayedField),
{
    assert(marks.contains(EstimateMark::Module(key)) <==> is_mark_of(
        modified,
        delayed,
        EstimateMark::Module(key),
    ));
    assert(marks.contains(EstimateMark::Data(key)) <==> is_mark_of(
        modified,
        delayed,
        EstimateMark::Data(key),
    ));
    assert(marks.contains(EstimateMark::DelayedField(key)) <==> is_mark_of(
        modified,
        delayed,
        EstimateMark::DelayedField(key),
    ));
}

/// The data is looked at first, and the groups only if the data is valid. If both are, the
/// validation is reported as valid, and commits are armed; if not, the incarnation is to be
/// aborted.
pub proof fn reads_decide_what_is_done<W>(next: ValidationStep<W>, answer: bool)
    ensures
        ValidationStep::<W>::LoadReads.leads_to(
            ValidationEvent::Reads(RecordedReads::Usable),
            next,
        ) ==> next == ValidationStep::<W>::ValidateDataReads,
        ValidationStep::<W>::ValidateDataReads.leads_to(ValidationEvent::Answer(true), next)
            ==> next == ValidationStep::<W>::ValidateGroupReads,
        ValidationStep::<W>::ValidateDataReads.leads_to(ValidationEvent::Answer(false), next)
            ==> next == ValidationStep::<W>::TryAbort,
        ValidationStep::<W>::ValidateGroupReads.leads_to(ValidationEvent::Answer(true), next)
            ==> next == (ValidationStep::<W>::FinishValidation { valid: true }),
        ValidationStep::<W>::ValidateGroupReads.leads_to(ValidationEvent::Answer(false), next)
            ==> next == ValidationStep::<W>::TryAbort,
        (ValidationStep::<W>::FinishValidation { valid: true }).leads_to(
            ValidationEvent::Made,
            next,
        ) ==> next == ValidationStep::<W>::ArmCommits,
        (ValidationStep::<W>::FinishValidation { valid: false }).leads_to(
            ValidationEvent::Made,
            next,
        ) ==> next == ValidationStep::<W>::Return(SchedulerTask::NoTask),
        ValidationStep::<W>::ArmCommits.leads_to(ValidationEvent::Made, next) ==> next
            == ValidationStep::<W>::Return(SchedulerTask::NoTask),
{
}

/// Only the worker that aborts the incarnation cleans up after it: it drops the logs, looks up what
/// was written, marks just that, and reports the abort; the task that it is given is its next one.
/// A worker that comes too late reports that the validation is over.
pub proof fn aborts_are_cleaned_up_after<W>(
    next: ValidationStep<W>,
    modified: Option<HashMap<Key, bool>>,
    delayed: Option<HashSet<Identifier>>,
    marks: Vec<EstimateMark>,
    task: SchedulerTask<W>,
)
    ensures
        ValidationStep::<W>::TryAbort.leads_to(ValidationEvent::Answer(true), next) ==> next
            == ValidationStep::<W>::ClearLogs,
        ValidationStep::<W>::TryAbort.leads_to(ValidationEvent::Answer(false), next) ==> next == (
        ValidationStep::<W>::FinishValidation { valid: false }),
        ValidationStep::<W>::ClearLogs.leads_to(ValidationEvent::Made, next) ==> next
            == ValidationStep::<W>::LoadModified,
        ValidationStep::<W>::LoadModified.leads_to(
            ValidationEvent::Modified(modified, delayed),
            next,
        ) ==> next is MarkEstimates && marks_all(modified, delayed, next->MarkEstimates_0@),
        ValidationStep::<W>::MarkEstimates(marks).leads_to(ValidationEvent::Made, next) ==> next
            == ValidationStep::<W>::FinishAbort,
        ValidationStep::<W>::FinishAbort.leads_to(ValidationEvent::Task(task), next) ==> next
            == ValidationStep::<W>::Return(task),
{
}

/// Commits are armed only by a validation that found both the data and the groups valid; and by the
/// time that an abort is reported, what the records gave as written has been marked: the very step
/// before did so, and the logs had been dropped.
pub proof fn commits_and_aborts_have_a_cause<W>(
    steps: Seq<ValidationStep<W>>,
    events: Seq<ValidationEvent<W>>,
    m: int,
    key: Key,
)
    requires
        validation_trace(steps, events),
        0 <= m < steps.len(),
    ensures
        steps[m] is ArmCommits ==> {
            &&& m == 4
            &&& steps[1] is ValidateDataReads
            &&& events[1] == ValidationEvent::<W>::Answer(true)
            &&& steps[2] is ValidateGroupReads
            &&& events[2] == ValidationEvent::<W>::Answer(true)
        },
        steps[m] is FinishAbort ==> {
            &&& m >= 4
            &&& steps[m - 1] is MarkEstimates
            &&& steps[m - 2] is LoadModified
            &&& steps[m - 3] is ClearLogs
            &&& steps[m - 4] is TryAbort
            &&& events[m - 4] == ValidationEvent::<W>::Answer(true)
            &&& events[m - 5] == ValidationEvent::<W>::Answer(false)
            &&& events[m - 2] matches ValidationEvent::Modified(modified, delayed)
            &&& (modified matches Some(keys) && keys@.contains_key(key)) ==> exists|i: int|
                {
                    &&& 0 <= i < steps[m - 1]->MarkEstimates_0@.len()
                    &&& {
                        ||| #[trigger] steps[m - 1]->MarkEstimates_0@[i] == EstimateMark::Module(
                            key,
                        )
                        ||| steps[m - 1]->MarkEstimates_0@[i] == EstimateMark::Data(key)
                    }
                }
            &&& (delayed matches Some(ids) && ids@.contains(key)) ==> exists|i: int|
                0 <= i < steps[m - 1]->MarkEstimates_0@.len()
                    && #[trigger] steps[m - 1]->MarkEstimates_0@[i] == EstimateMark::DelayedField(
                    key,
                )
        },
{
    if steps[m] is ArmCommits {
        assert(validation_goes_on(steps, events, m - 1));
        assert(validation_goes_on(steps, events, m - 2));
        assert(validation_goes_on(steps, events, m - 3));
        lemma_data_comes_second(steps, events, m - 3);
    }
    if steps[m] is FinishAbort {
        assert(validation_goes_on(steps, events, m - 1));
        assert(validation_goes_on(steps, events, m - 2));
        assert(validation_goes_on(steps, events, m - 3));
        assert(validation_goes_on(steps, events, m - 4));
        assert(validation_goes_on(steps, events, m - 5));
        all_that_was_written_is_marked(
            events[m - 2]->Modified_0,
            events[m - 2]->Modified_1,
            steps[m - 1]->MarkEstimates_0@,
            key,
        );
    }
}

/// The reads are loaded first, and the data is compared next, once each.
proof fn lemma_data_comes_second<W>(
    steps: Seq<ValidationStep<W>>,
    events: Seq<ValidationEvent<W>>,
    m: int,
)
    requires
        validation_trace(steps, events),
        0 <= m < steps.len(),
    ensures
        steps[m] is LoadReads ==> m == 0,
        steps[m] is ValidateDataReads ==> m == 1,
    decreases m,
{
    if m > 0 {
        assert(validation_goes_on(steps, events, m - 1));
        lemma_data_comes_second(steps, events, m - 1);
    }
}

} // verus!
