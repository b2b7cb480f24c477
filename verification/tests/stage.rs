use speech_pipeline::stage::{advance, Stage};

#[test]
fn successful_run_walks_every_stage_once() {
    let mut s = Stage::Start;
    let expected = [
        Stage::ModelSelected,
        Stage::EngineLoaded,
        Stage::AudioDecoded,
        Stage::Resampled,
        Stage::Transcribed,
        Stage::Done,
    ];
    for e in expected {
        s = advance(s, true);
        assert_eq!(s, e);
    }
    // Done is terminal.
    assert_eq!(advance(s, true), Stage::Done);
    assert_eq!(advance(s, false), Stage::Done);
}

#[test]
fn any_working_stage_can_fail_directly() {
    for s in [
        Stage::Start,
        Stage::ModelSelected,
        Stage::EngineLoaded,
        Stage::AudioDecoded,
        Stage::Resampled,
        Stage::Transcribed,
    ] {
        assert_eq!(advance(s, false), Stage::Failed);
    }
}

#[test]
fn failed_is_terminal() {
    assert_eq!(advance(Stage::Failed, true), Stage::Failed);
    assert_eq!(advance(Stage::Failed, false), Stage::Failed);
}
