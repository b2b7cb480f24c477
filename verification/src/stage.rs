//! The pipeline's control skeleton: a strictly linear run through the
//! stages, where any stage's failure drops directly to the terminal
//! `Failed` state and no stage is ever revisited.

use vstd::prelude::*;

verus! {

/// Where a single pipeline run stands.
#[derive(Clone, Copy, PartialEq, Eq, Structural, Debug)]
pub enum Stage {
    Start,
    ModelSelected,
    EngineLoaded,
    AudioDecoded,
    Resampled,
    Transcribed,
    Done,
    Failed,
}

/// The position of a stage in the linear order; the two terminal states
/// stand past every working stage.
pub open spec fn stage_index(s: Stage) -> nat {
    match s {
        Stage::Start => 0,
        Stage::ModelSelected => 1,
        Stage::EngineLoaded => 2,
        Stage::AudioDecoded => 3,
        Stage::Resampled => 4,
        Stage::Transcribed => 5,
        Stage::Done => 6,
        Stage::Failed => 7,
    }
}

/// A run ends in `Done` or `Failed` and nowhere else.
pub open spec fn is_terminal(s: Stage) -> bool {
    s is Done || s is Failed
}

/// The stage that follows a working stage when its work succeeds.
pub open spec fn next_stage(s: Stage) -> Stage {
    match s {
        Stage::Start => Stage::ModelSelected,
        Stage::ModelSelected => Stage::EngineLoaded,
        Stage::EngineLoaded => Stage::AudioDecoded,
        Stage::AudioDecoded => Stage::Resampled,
        Stage::Resampled => Stage::Transcribed,
        Stage::Transcribed => Stage::Done,
        Stage::Done => Stage::Done,
        Stage::Failed => Stage::Failed,
    }
}

/// One pipeline step: a working stage moves to its successor on success and
/// to `Failed` otherwise; the terminal states absorb every step. The step
/// strictly advances the linear order, so no stage is revisited and every
/// run reaches a terminal state within the number of stages.
pub fn advance(s: Stage, ok: bool) -> (r: Stage)
    ensures
        is_terminal(s) ==> r == s,
        !is_terminal(s) && ok ==> r == next_stage(s),
        !is_terminal(s) && !ok ==> r == Stage::Failed,
        !is_terminal(s) ==> stage_index(r) > stage_index(s),
        stage_index(r) <= 7,
{
    match s {
        Stage::Done => Stage::Done,
        Stage::Failed => Stage::Failed,
        _ => {
            if ok {
                match s {
                    Stage::Start => Stage::ModelSelected,
                    Stage::ModelSelected => Stage::EngineLoaded,
                    Stage::EngineLoaded => Stage::AudioDecoded,
                    Stage::AudioDecoded => Stage::Resampled,
                    Stage::Resampled => Stage::Transcribed,
                    _ => Stage::Done,
                }
            } else {
                Stage::Failed
            }
        },
    }
}

} // verus!
