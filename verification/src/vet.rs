//! The course of a check: what is loaded, what is fetched, and what is saved at the end.
use vstd::prelude::*;

verus! {

/// What a check is made for.
#[derive(Clone, Copy, PartialEq, Eq, Debug, Structural)]
pub enum Purpose {
    /// To tell whether everything was audited.
    Vet,
    /// To suggest what to audit next.
    Suggest,
}

/// What is done next in a check.
#[derive(Clone, Copy, PartialEq, Eq, Debug, Structural)]
pub enum CheckStep {
    /// Load the audits file.
    LoadAudits,
    /// Load the config file.
    LoadConfig,
    /// Fetch the audits of other projects.
    FetchImports,
    /// Load the imports lock.
    LoadImports,
    /// Find out what is not audited. Where `forget`, without the unaudited dependencies that may
    /// be suggested.
    Resolve { forget: bool },
    /// Print what was found.
    Report { has_errors: bool },
    /// Write the imports lock.
    SaveImports,
    /// Everything was done.
    Finished,
    /// A step failed.
    Failed,
}

/// What came of a step.
#[derive(Clone, Copy, PartialEq, Eq, Debug, Structural)]
pub enum CheckEvent {
    /// It was done.
    Done,
    /// It was found out whether everything is audited.
    Resolved { has_errors: bool },
    /// It failed.
    Failed,
}

/// The event is one that the step can have.
pub open spec fn can_have(step: CheckStep, event: CheckEvent) -> bool {
    match step {
        CheckStep::Finished => false,
        CheckStep::Failed => false,
        CheckStep::Resolve { .. } => event is Resolved,
        _ => !(event is Resolved),
    }
}

/// The step that follows a step with its event. Where `locked`, nothing is fetched.
pub open spec fn next_step(
    purpose: Purpose,
    locked: bool,
    step: CheckStep,
    event: CheckEvent,
) -> CheckStep {
    match (step, event) {
        (_, CheckEvent::Failed) => CheckStep::Failed,
        (CheckStep::LoadAudits, _) => CheckStep::LoadConfig,
        (CheckStep::LoadConfig, _) => if locked {
            CheckStep::LoadImports
        } else {
            CheckStep::FetchImports
        },
        (CheckStep::FetchImports, _) => CheckStep::Resolve { forget: purpose is Suggest },
        (CheckStep::LoadImports, _) => CheckStep::Resolve { forget: purpose is Suggest },
        (CheckStep::Resolve { .. }, CheckEvent::Resolved { has_errors }) => CheckStep::Report {
            has_errors,
        },
        (CheckStep::Report { has_errors }, _) => if purpose is Vet && !has_errors {
            CheckStep::SaveImports
        } else {
            CheckStep::Finished
        },
        (CheckStep::SaveImports, _) => CheckStep::Finished,
        (step, _) => step,
    }
}

/// The first step of every check.
pub fn begin_check() -> (r: CheckStep)
    ensures
        r == CheckStep::LoadAudits,
{
    CheckStep::LoadAudits
}

/// Finds the step that follows a step with its event.
fn step_on(purpose: Purpose, locked: bool, step: CheckStep, event: CheckEvent) -> (r: CheckStep)
    requires
        can_have(step, event),
    ensures
        r == next_step(purpose, locked, step, event),
{
    if event == CheckEvent::Failed {
        return CheckStep::Failed;
    }
    let forget = purpose == Purpose::Suggest;
    match step {
        CheckStep::LoadAudits => CheckStep::LoadConfig,
        CheckStep::LoadConfig => if locked {
            CheckStep::LoadImports
        } else {
            CheckStep::FetchImports
        },
        CheckStep::FetchImports => CheckStep::Resolve { forget },
        CheckStep::LoadImports => CheckStep::Resolve { forget },
        CheckStep::Resolve { .. } => match event {
            CheckEvent::Resolved { has_errors } => CheckStep::Report { has_errors },
            _ => step,
        },
        CheckStep::Report { has_errors } => if !forget && !has_errors {
            CheckStep::SaveImports
        } else {
            CheckStep::Finished
        },
        CheckStep::SaveImports => CheckStep::Finished,
        _ => step,
    }
}

/// Finds the next step of a check whether everything was audited.
pub fn cmd_vet(locked: bool, step: CheckStep, event: CheckEvent) -> (r: CheckStep)
    requires
        can_have(step, event),
    ensures
        r == next_step(Purpose::Vet, locked, step, event),
{
    step_on(Purpose::Vet, locked, step, event)
}

/// Finds the next step of a check for what to audit next.
pub fn cmd_suggest(locked: bool, step: CheckStep, event: CheckEvent) -> (r: CheckStep)
    requires
        can_have(step, event),
    ensures
        r == next_step(Purpose::Suggest, locked, step, event),
{
    step_on(Purpose::Suggest, locked, step, event)
}

/// The step after the events so far.
pub open spec fn step_after(purpose: Purpose, locked: bool, events: Seq<CheckEvent>) -> CheckStep
    decreases events.len(),
{
    if events.len() == 0 {
        CheckStep::LoadAudits
    } else {
        next_step(purpose, locked, step_after(purpose, locked, events.drop_last()), events.last())
    }
}

/// Every event is one that the step it came of can have.
pub open spec fn can_happen(purpose: Purpose, locked: bool, events: Seq<CheckEvent>) -> bool
    decreases events.len(),
{
    events.len() > 0 ==> {
        &&& can_happen(purpose, locked, events.drop_last())
        &&& can_have(step_after(purpose, locked, events.drop_last()), events.last())
    }
}

/// Nothing failed, and no error was found.
pub open spec fn went_well(events: Seq<CheckEvent>) -> bool {
    forall|i: int|
        0 <= i < events.len() ==> (#[trigger] events[i]) != CheckEvent::Failed && events[i] != (
        CheckEvent::Resolved { has_errors: true })
}

/// Where `locked`, nothing is fetched; and where not, the imports lock is not read.
pub proof fn law_locked_fetches_nothing(purpose: Purpose, locked: bool, events: Seq<CheckEvent>)
    ensures
        locked ==> step_after(purpose, locked, events) != CheckStep::FetchImports,
        !locked ==> step_after(purpose, locked, events) != CheckStep::LoadImports,
    decreases events.len(),
{
    if events.len() > 0 {
        law_locked_fetches_nothing(purpose, locked, events.drop_last());
    }
}

/// An error changes nothing: the imports lock is written only by a check whether everything was
/// audited, and only where nothing failed and no error was found.
pub proof fn law_errors_change_nothing(purpose: Purpose, locked: bool, events: Seq<CheckEvent>)
    requires
        can_happen(purpose, locked, events),
    ensures
        step_after(purpose, locked, events) is SaveImports ==> purpose is Vet && went_well(events),
{
    lemma_so_far(purpose, locked, events);
}

proof fn lemma_so_far(purpose: Purpose, locked: bool, events: Seq<CheckEvent>)
    requires
        can_happen(purpose, locked, events),
    ensures
        ({
            let step = step_after(purpose, locked, events);
            &&& step is SaveImports ==> purpose is Vet && went_well(events)
            &&& (step is LoadAudits || step is LoadConfig || step is FetchImports
                || step is LoadImports || step is Resolve) ==> went_well(events)
            &&& step matches CheckStep::Report { has_errors } ==> !has_errors ==> went_well(events)
        }),
    decreases events.len(),
{
    if events.len() > 0 {
        let before = events.drop_last();
        lemma_so_far(purpose, locked, before);
        if went_well(before) {
            assert forall|i: int| 0 <= i < events.len() && events.last() != CheckEvent::Failed
                && events.last() != (CheckEvent::Resolved {
                has_errors: true,
            }) implies (#[trigger] events[i]) != CheckEvent::Failed && events[i] != (
            CheckEvent::Resolved { has_errors: true }) by {
                if i < before.len() {
                    assert(before[i] == events[i]);
                }
            }
        }
    }
}

/// What may be suggested is forgotten exactly where something is to be suggested.
pub proof fn law_only_suggesting_forgets(purpose: Purpose, locked: bool, events: Seq<CheckEvent>)
    ensures
        step_after(purpose, locked, events) matches CheckStep::Resolve { forget } ==> forget == (
        purpose is Suggest),
    decreases events.len(),
{
    if events.len() > 0 {
        law_only_suggesting_forgets(purpose, locked, events.drop_last());
    }
}

/// Nothing is found out before the audits, the config and the imports are there.
pub proof fn law_check_has_its_files(purpose: Purpose, locked: bool, events: Seq<CheckEvent>)
    requires
        can_happen(purpose, locked, events),
    ensures
        step_after(purpose, locked, events) is Resolve ==> events == seq![
            CheckEvent::Done,
            CheckEvent::Done,
            CheckEvent::Done,
        ],
{
    lemma_loads(purpose, locked, events);
}

proof fn lemma_loads(purpose: Purpose, locked: bool, events: Seq<CheckEvent>)
    requires
        can_happen(purpose, locked, events),
    ensures
        ({
            let step = step_after(purpose, locked, events);
            let n = events.len();
            &&& step is LoadAudits ==> n == 0
            &&& step is LoadConfig ==> n == 1
            &&& (step is FetchImports || step is LoadImports) ==> n == 2
            &&& step is Resolve ==> n == 3
            &&& (step is LoadConfig || step is FetchImports || step is LoadImports
                || step is Resolve) ==> forall|i: int|
                0 <= i < n ==> (#[trigger] events[i]) == CheckEvent::Done
        }),
    decreases events.len(),
{
    if events.len() > 0 {
        let before = events.drop_last();
        lemma_loads(purpose, locked, before);
        assert(forall|i: int| 0 <= i < before.len() ==> #[trigger] events[i] == before[i]);
    }
}

/// Once it was found out what is not audited, it is printed: for either purpose, whether or not
/// there are errors.
pub proof fn law_findings_are_reported(
    locked: bool,
    forget: bool,
    has_errors: bool,
    vet: CheckStep,
    suggest: CheckStep,
)
    requires
        call_ensures(
            cmd_vet,
            (locked, CheckStep::Resolve { forget }, CheckEvent::Resolved { has_errors }),
            vet,
        ),
        call_ensures(
            cmd_suggest,
            (locked, CheckStep::Resolve { forget }, CheckEvent::Resolved { has_errors }),
            suggest,
        ),
    ensures
        vet == (CheckStep::Report { has_errors }),
        suggest == (CheckStep::Report { has_errors }),
{
}

/// The two purposes take the same course up to the report, except that only a suggestion forgets
/// what may be suggested; after the report they part: a suggestion is over, and a check without
/// errors saves the imports.
pub proof fn law_purposes_part_at_the_report(
    locked: bool,
    step: CheckStep,
    event: CheckEvent,
    vet: CheckStep,
    suggest: CheckStep,
)
    requires
        can_have(step, event),
        call_ensures(cmd_vet, (locked, step, event), vet),
        call_ensures(cmd_suggest, (locked, step, event), suggest),
    ensures
        vet == suggest || (vet == (CheckStep::Resolve { forget: false }) && suggest == (
        CheckStep::Resolve { forget: true })) || (step == (CheckStep::Report { has_errors: false })
            && vet is SaveImports && suggest is Finished),
        event is Failed ==> vet is Failed && suggest is Failed,
        vet is Failed || suggest is Failed ==> event is Failed,
{
}

/// A check that nothing stops takes one course: it loads the audits and the config, then fetches
/// the imports, or loads them where it is locked; then it finds out what is not audited, prints
/// that, and saves the imports where it is no suggestion and there are no errors.
pub proof fn law_course_of_a_check(purpose: Purpose, locked: bool, has_errors: bool)
    ensures
        ({
            let done = CheckEvent::Done;
            let found = CheckEvent::Resolved { has_errors };
            let saves = purpose == Purpose::Vet && !has_errors;
            &&& step_after(purpose, locked, seq![]) == CheckStep::LoadAudits
            &&& step_after(purpose, locked, seq![done]) == CheckStep::LoadConfig
            &&& step_after(purpose, locked, seq![done, done]) == (if locked {
                CheckStep::LoadImports
            } else {
                CheckStep::FetchImports
            })
            &&& step_after(purpose, locked, seq![done, done, done]) == (CheckStep::Resolve {
                forget: purpose == Purpose::Suggest,
            })
            &&& step_after(purpose, locked, seq![done, done, done, found]) == (CheckStep::Report {
                has_errors,
            })
            &&& step_after(purpose, locked, seq![done, done, done, found, done]) == (if saves {
                CheckStep::SaveImports
            } else {
                CheckStep::Finished
            })
            &&& saves ==> step_after(purpose, locked, seq![done, done, done, found, done, done])
                == CheckStep::Finished
        }),
{
    let done = CheckEvent::Done;
    let found = CheckEvent::Resolved { has_errors };
    assert(seq![done].drop_last() == Seq::<CheckEvent>::empty());
    assert(seq![done, done].drop_last() == seq![done]);
    assert(seq![done, done, done].drop_last() == seq![done, done]);
    assert(seq![done, done, done, found].drop_last() == seq![done, done, done]);
    assert(seq![done, done, done, found, done].drop_last() == seq![done, done, done, found]);
    assert(seq![done, done, done, found, done, done].drop_last() == seq![
        done,
        done,
        done,
        found,
        done,
    ]);
    assert(step_after(purpose, locked, seq![]) == CheckStep::LoadAudits);
    assert(step_after(purpose, locked, seq![done]) == CheckStep::LoadConfig);
}

/// A step that fails ends the check, and nothing else does before the report.
pub proof fn law_only_failure_ends_a_check_early(
    purpose: Purpose,
    locked: bool,
    events: Seq<CheckEvent>,
)
    requires
        can_happen(purpose, locked, events),
    ensures
        step_after(purpose, locked, events) is Failed ==> events.len() > 0 && events.last() is Failed,
        events.len() > 0 && events.last() is Failed ==> step_after(purpose, locked, events) is Failed,
        step_after(purpose, locked, events) is Finished ==> events.len() >= 5 && events[3] is Resolved
            && events[4] is Done && step_after(purpose, locked, events.take(4)) == (
        CheckStep::Report { has_errors: events[3]->has_errors }),
{
    lemma_loads(purpose, locked, events);
    if step_after(purpose, locked, events) is Finished {
        lemma_reported(purpose, locked, events);
    }
}

/// Wherever a check is past the report, it printed what was found.
proof fn lemma_reported(purpose: Purpose, locked: bool, events: Seq<CheckEvent>)
    requires
        can_happen(purpose, locked, events),
    ensures
        ({
            let step = step_after(purpose, locked, events);
            let n = events.len();
            &&& step is Report ==> n == 4 && events[3] is Resolved && step == (CheckStep::Report {
                has_errors: events[3]->has_errors,
            })
            &&& (step is SaveImports || step is Finished) ==> n >= 5 && events[3] is Resolved
                && events[4] is Done && step_after(purpose, locked, events.take(4)) == (
            CheckStep::Report { has_errors: events[3]->has_errors })
        }),
    decreases events.len(),
{
    lemma_loads(purpose, locked, events);
    if events.len() > 0 {
        let before = events.drop_last();
        lemma_reported(purpose, locked, before);
        lemma_loads(purpose, locked, before);
        assert(forall|i: int| 0 <= i < before.len() ==> #[trigger] events[i] == before[i]);
        let step0 = step_after(purpose, locked, before);
        let step = step_after(purpose, locked, events);
        if step is SaveImports || step is Finished {
            if step0 is Report {
                assert(events.take(4) == before);
            } else {
                assert(events.take(4) == before.take(4));
            }
        }
    }
}

} // verus!
