//! Replacing a file: the new contents are written beside it, then put in its place.
use vstd::prelude::*;

verus! {

/// What is put behind a file's path for the path of its temporary file.
pub const TEMPORARY_SUFFIX: &'static str = ".tmp";

/// The steps of replacing a file, in order.
#[derive(Debug, Clone, Copy, PartialEq, Eq, Structural)]
pub enum Stage {
    MakeDirectory,
    OpenTemporary,
    WriteTemporary,
    Rename,
}

/// How to go on with replacing a file.
#[derive(Debug, Clone, Copy, PartialEq, Eq, Structural)]
pub enum Step {
    Do(Stage),
    Done,
    /// It failed there; nothing more is done, and the file is as it was.
    Failed(Stage),
}

/// The stage that follows.
pub open spec fn stage_after(stage: Stage) -> Option<Stage> {
    match stage {
        Stage::MakeDirectory => Some(Stage::OpenTemporary),
        Stage::OpenTemporary => Some(Stage::WriteTemporary),
        Stage::WriteTemporary => Some(Stage::Rename),
        Stage::Rename => None,
    }
}

/// How to go on after a stage.
pub open spec fn step_after(stage: Stage, ok: bool) -> Step {
    if !ok {
        Step::Failed(stage)
    } else {
        match stage_after(stage) {
            Some(next) => Step::Do(next),
            None => Step::Done,
        }
    }
}

/// How to go on after `n` stages, each of which went as `oks` says.
pub open spec fn step_at(oks: Seq<bool>, n: int) -> Step
    decreases n,
{
    if n <= 0 {
        Step::Do(Stage::MakeDirectory)
    } else {
        match step_at(oks, n - 1) {
            Step::Do(stage) => step_after(stage, oks[n - 1]),
            other => other,
        }
    }
}

/// The file is replaced, by the rename, only after all of the new contents were written beside it,
/// and it is done only if every stage went well.
pub proof fn law_file_is_replaced_last(oks: Seq<bool>)
    requires
        oks.len() == 4,
    ensures
        step_at(oks, 3) == Step::Do(Stage::Rename) <==> oks[0] && oks[1] && oks[2],
        step_at(oks, 4) == Step::Done <==> oks[0] && oks[1] && oks[2] && oks[3],
        step_at(oks, 0) != Step::Do(Stage::Rename),
        step_at(oks, 1) != Step::Do(Stage::Rename),
        step_at(oks, 2) != Step::Do(Stage::Rename),
{
    reveal_with_fuel(step_at, 5);
}

/// How to go on after a stage.
pub fn next_step(stage: Stage, ok: bool) -> (step: Step)
    ensures
        step == step_after(stage, ok),
{
    if !ok {
        return Step::Failed(stage);
    }
    match stage {
        Stage::MakeDirectory => Step::Do(Stage::OpenTemporary),
        Stage::OpenTemporary => Step::Do(Stage::WriteTemporary),
        Stage::WriteTemporary => Step::Do(Stage::Rename),
        Stage::Rename => Step::Done,
    }
}

/// The path that a failure is reported for: the temporary file's while it is written, else the
/// directory's or the file's.
pub fn blamed<P>(stage: Stage, directory: P, temporary: P, target: P) -> (path: P)
    ensures
        path == (match stage {
            Stage::MakeDirectory => directory,
            Stage::OpenTemporary => temporary,
            Stage::WriteTemporary => temporary,
            Stage::Rename => target,
        }),
{
    match stage {
        Stage::MakeDirectory => directory,
        Stage::OpenTemporary => temporary,
        Stage::WriteTemporary => temporary,
        Stage::Rename => target,
    }
}

} // verus!
