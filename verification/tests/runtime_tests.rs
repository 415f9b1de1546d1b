use supertonic_reader::playback::{
    chunk_playback_steps, next_paused, pause_toggle, plan_command, sink_after, PlaybackStep,
    PlayerCommand, SinkAction,
};
use supertonic_reader::session::{intra_threads_from, recommended_intra_threads, want_dml, SessionKind};

#[test]
fn player_commands_with_and_without_sink() {
    assert_eq!(plan_command(false, PlayerCommand::Play), SinkAction::ReplaceSink);
    assert_eq!(plan_command(true, PlayerCommand::Play), SinkAction::ReplaceSink);
    assert_eq!(plan_command(true, PlayerCommand::Append), SinkAction::AppendToSink);
    assert_eq!(plan_command(false, PlayerCommand::Append), SinkAction::StartSink);
    assert_eq!(plan_command(true, PlayerCommand::Stop), SinkAction::StopSink);
    assert_eq!(plan_command(false, PlayerCommand::Stop), SinkAction::Nothing);
    assert_eq!(plan_command(true, PlayerCommand::Pause), SinkAction::PauseSink);
    assert_eq!(plan_command(false, PlayerCommand::Resume), SinkAction::Nothing);
}

#[test]
fn sink_held_after_actions() {
    assert!(!sink_after(true, SinkAction::StopSink, true));
    assert!(sink_after(true, SinkAction::ReplaceSink, false));
    assert!(!sink_after(false, SinkAction::ReplaceSink, false));
    assert!(sink_after(false, SinkAction::StartSink, true));
    assert!(!sink_after(false, SinkAction::StartSink, false));
    assert!(sink_after(true, SinkAction::PauseSink, false));
}

#[test]
fn chunks_are_queued_with_silence_between() {
    assert_eq!(chunk_playback_steps(0, 4410), vec![PlaybackStep::PlayChunk]);
    assert_eq!(
        chunk_playback_steps(2, 4410),
        vec![PlaybackStep::AppendSilence(4410), PlaybackStep::AppendChunk]
    );
    assert_eq!(chunk_playback_steps(1, 0), vec![PlaybackStep::AppendChunk]);
}

#[test]
fn directml_only_for_heavy_models_on_windows() {
    assert!(want_dml(SessionKind::VectorEstimator, true, None));
    assert!(want_dml(SessionKind::Vocoder, true, Some("0")));
    assert!(!want_dml(SessionKind::Vocoder, true, Some("1")));
    assert!(!want_dml(SessionKind::TextEncoder, true, None));
    assert!(!want_dml(SessionKind::DurationPredictor, true, None));
    assert!(!want_dml(SessionKind::VectorEstimator, false, None));
}

#[test]
fn intra_thread_count() {
    assert_eq!(recommended_intra_threads(Some("3"), Some(8)), 3);
    assert_eq!(recommended_intra_threads(Some("0"), Some(8)), 1);
    assert_eq!(recommended_intra_threads(Some("abc"), Some(8)), 4);
    assert_eq!(recommended_intra_threads(Some(" 3"), Some(3)), 3);
    assert_eq!(recommended_intra_threads(Some("+6"), Some(3)), 6);
    assert_eq!(recommended_intra_threads(None, None), 2);
    assert_eq!(recommended_intra_threads(None, Some(1)), 2);
    assert_eq!(intra_threads_from(None, Some(16)), 4);
}

#[test]
fn thread_count_falls_back_when_the_value_does_not_parse() {
    assert_eq!(recommended_intra_threads(Some(""), Some(3)), 3);
    assert_eq!(recommended_intra_threads(Some("+"), Some(3)), 3);
    assert_eq!(recommended_intra_threads(Some("-1"), Some(3)), 3);
    assert_eq!(recommended_intra_threads(Some("3 "), Some(4)), 4);
    assert_eq!(recommended_intra_threads(Some("99999999999999999999999"), Some(3)), 3);
    assert_eq!(recommended_intra_threads(Some("007"), Some(3)), 7);
}

#[test]
fn pause_shortcut_pauses_and_resumes() {
    let mut paused = false;
    let first = pause_toggle(paused);
    assert_eq!(first, PlayerCommand::Pause);
    paused = next_paused(true, paused, first);
    assert!(paused);
    let second = pause_toggle(paused);
    assert_eq!(second, PlayerCommand::Resume);
    paused = next_paused(true, paused, second);
    assert!(!paused);
    assert!(!next_paused(false, false, PlayerCommand::Pause));
    assert!(next_paused(true, true, PlayerCommand::Append));
    assert!(!next_paused(true, true, PlayerCommand::Play));
    assert!(!next_paused(true, true, PlayerCommand::Stop));
}
