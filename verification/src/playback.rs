//! Decisions of audio playback: what the player thread does with a command
//! given whether it holds a sink, and how the synthesized chunks are queued.
use vstd::prelude::*;

verus! {

/// The commands the player thread receives; the samples that `Play` and
/// `Append` carry travel beside them.
#[derive(Clone, Copy, Debug, PartialEq, Eq, Structural)]
pub enum PlayerCommand {
    Play,
    Append,
    Stop,
    Pause,
    Resume,
}

/// What the player thread does with its sink.
#[derive(Clone, Copy, Debug, PartialEq, Eq, Structural)]
pub enum SinkAction {
    /// Stop the current sink if there is one, create a new sink, and if that
    /// succeeds queue the samples on it, start it and keep it.
    ReplaceSink,
    /// Queue the samples on the current sink.
    AppendToSink,
    /// Create a sink, and if that succeeds queue the samples, start it and keep it.
    StartSink,
    /// Stop the current sink and drop it.
    StopSink,
    /// Pause the current sink.
    PauseSink,
    /// Resume the current sink.
    ResumeSink,
    /// Nothing to do.
    Nothing,
}

/// The action for a command.
pub open spec fn action_for(has_sink: bool, cmd: PlayerCommand) -> SinkAction {
    match cmd {
        PlayerCommand::Play => SinkAction::ReplaceSink,
        PlayerCommand::Append => if has_sink {
            SinkAction::AppendToSink
        } else {
            SinkAction::StartSink
        },
        PlayerCommand::Stop => if has_sink {
            SinkAction::StopSink
        } else {
            SinkAction::Nothing
        },
        PlayerCommand::Pause => if has_sink {
            SinkAction::PauseSink
        } else {
            SinkAction::Nothing
        },
        PlayerCommand::Resume => if has_sink {
            SinkAction::ResumeSink
        } else {
            SinkAction::Nothing
        },
    }
}

/// What the player thread does with a command, given whether it holds a sink.
pub fn plan_command(has_sink: bool, cmd: PlayerCommand) -> (r: SinkAction)
    ensures
        r == action_for(has_sink, cmd),
{
    match cmd {
        PlayerCommand::Play => SinkAction::ReplaceSink,
        PlayerCommand::Append => if has_sink {
            SinkAction::AppendToSink
        } else {
            SinkAction::StartSink
        },
        PlayerCommand::Stop => if has_sink {
            SinkAction::StopSink
        } else {
            SinkAction::Nothing
        },
        PlayerCommand::Pause => if has_sink {
            SinkAction::PauseSink
        } else {
            SinkAction::Nothing
        },
        PlayerCommand::Resume => if has_sink {
            SinkAction::ResumeSink
        } else {
            SinkAction::Nothing
        },
    }
}

/// Whether the thread holds a sink after an action, given whether creating a
/// sink (for the actions that create one) succeeded. A failed replacement
/// keeps the stopped sink.
pub open spec fn holds_sink_after(has_sink: bool, action: SinkAction, created: bool) -> bool {
    match action {
        SinkAction::ReplaceSink => created || has_sink,
        SinkAction::StartSink => created,
        SinkAction::StopSink => false,
        _ => has_sink,
    }
}

/// Whether the thread holds a sink after an action.
pub fn sink_after(has_sink: bool, action: SinkAction, created: bool) -> (r: bool)
    ensures
        r == holds_sink_after(has_sink, action, created),
{
    match action {
        SinkAction::ReplaceSink => created || has_sink,
        SinkAction::StartSink => created,
        SinkAction::StopSink => false,
        _ => has_sink,
    }
}

/// Stopping always leaves the player without a sink, and only stopping does
/// when creating sinks succeeds.
pub proof fn lemma_stop_clears(has_sink: bool, cmd: PlayerCommand)
    ensures
        cmd == PlayerCommand::Stop ==> !holds_sink_after(has_sink, action_for(has_sink, cmd), true),
        cmd != PlayerCommand::Stop ==> (holds_sink_after(has_sink, action_for(has_sink, cmd), true)
            == (has_sink || cmd == PlayerCommand::Play || cmd == PlayerCommand::Append)),
{
}

/// The command the pause shortcut stands for: it resumes a paused player and
/// pauses one that plays.
pub open spec fn toggle_command(paused: bool) -> PlayerCommand {
    if paused {
        PlayerCommand::Resume
    } else {
        PlayerCommand::Pause
    }
}

/// The command to send when the pause shortcut is pressed, given whether the
/// player is paused.
pub fn pause_toggle(paused: bool) -> (c: PlayerCommand)
    ensures
        c == toggle_command(paused),
{
    if paused {
        PlayerCommand::Resume
    } else {
        PlayerCommand::Pause
    }
}

/// Whether the player is paused after a command, given whether it held a
/// sink and whether that sink was paused: only pausing a sink it holds
/// pauses it, and a new sink starts playing.
pub open spec fn paused_after(has_sink: bool, paused: bool, cmd: PlayerCommand) -> bool {
    match cmd {
        PlayerCommand::Pause => has_sink,
        PlayerCommand::Append => has_sink && paused,
        _ => false,
    }
}

/// Whether the player is paused after handling a command.
pub fn next_paused(has_sink: bool, paused: bool, cmd: PlayerCommand) -> (r: bool)
    ensures
        r == paused_after(has_sink, paused, cmd),
{
    match cmd {
        PlayerCommand::Pause => has_sink,
        PlayerCommand::Append => has_sink && paused,
        _ => false,
    }
}

/// The pause shortcut pauses a playing player and resumes a paused one, so
/// pressing it twice restores the state; and the player is paused only while
/// it holds a sink, whatever the command and whether creating a sink succeeds.
pub proof fn lemma_pause_toggles(has_sink: bool, paused: bool, cmd: PlayerCommand, created: bool)
    ensures
        has_sink ==> paused_after(true, paused, toggle_command(paused)) == !paused,
        has_sink ==> paused_after(
            true,
            paused_after(true, paused, toggle_command(paused)),
            toggle_command(paused_after(true, paused, toggle_command(paused))),
        ) == paused,
        paused_after(has_sink, paused, cmd) ==> holds_sink_after(
            has_sink,
            action_for(has_sink, cmd),
            created,
        ),
{
}

/// Whether the sink is paused after an action, given whether it was: pausing
/// pauses it, resuming makes it play, a new sink starts playing, queueing
/// samples leaves it as it was, and a stopped sink plays nothing.
pub open spec fn sink_paused_after(paused: bool, action: SinkAction) -> bool {
    match action {
        SinkAction::PauseSink => true,
        SinkAction::ResumeSink => false,
        SinkAction::ReplaceSink => false,
        SinkAction::StartSink => false,
        SinkAction::StopSink => false,
        SinkAction::AppendToSink => paused,
        SinkAction::Nothing => paused,
    }
}

/// With a sink held, the pause command pauses it and the resume command makes
/// it play again, whatever state it was in; and for every command, the
/// paused state that the player keeps agrees with what the planned action
/// does to the sink, as long as only a held sink is ever paused.
pub proof fn lemma_commands_drive_the_sink(has_sink: bool, paused: bool, cmd: PlayerCommand)
    ensures
        sink_paused_after(paused, action_for(true, PlayerCommand::Pause)),
        !sink_paused_after(paused, action_for(true, PlayerCommand::Resume)),
        (paused ==> has_sink) ==> sink_paused_after(paused, action_for(has_sink, cmd))
            == paused_after(has_sink, paused, cmd),
{
}

/// One step of queueing a synthesized chunk.
#[derive(Clone, Copy, Debug, PartialEq, Eq, Structural)]
pub enum PlaybackStep {
    /// Start playback with the chunk, replacing what played before.
    PlayChunk,
    /// Queue that many samples of silence.
    AppendSilence(usize),
    /// Queue the chunk.
    AppendChunk,
}

/// The steps for chunk `index`: the first chunk starts playback; each later
/// one is queued after `silence_len` samples of silence, if any.
pub open spec fn playback_steps(index: usize, silence_len: usize) -> Seq<PlaybackStep> {
    if index == 0 {
        seq![PlaybackStep::PlayChunk]
    } else if silence_len > 0 {
        seq![PlaybackStep::AppendSilence(silence_len), PlaybackStep::AppendChunk]
    } else {
        seq![PlaybackStep::AppendChunk]
    }
}

/// How to queue chunk `index` of a synthesis.
pub fn chunk_playback_steps(index: usize, silence_len: usize) -> (r: Vec<PlaybackStep>)
    ensures
        r@ == playback_steps(index, silence_len),
{
    let mut r: Vec<PlaybackStep> = Vec::new();
    if index == 0 {
        r.push(PlaybackStep::PlayChunk);
    } else {
        if silence_len > 0 {
            r.push(PlaybackStep::AppendSilence(silence_len));
        }
        r.push(PlaybackStep::AppendChunk);
    }
    assert(r@ =~= playback_steps(index, silence_len));
    r
}

/// Only the first chunk starts playback; every later chunk is queued behind
/// the audio before it, with silence in between only when a silence is set.
pub proof fn lemma_only_first_chunk_starts(index: usize, silence_len: usize)
    ensures
        playback_steps(index, silence_len).contains(PlaybackStep::PlayChunk) == (index == 0),
        index > 0 ==> playback_steps(index, silence_len).last() == PlaybackStep::AppendChunk,
        playback_steps(index, silence_len).contains(PlaybackStep::AppendSilence(silence_len)) == (
        index > 0 && silence_len > 0),
{
    let st = playback_steps(index, silence_len);
    if index == 0 {
        assert(st[0] == PlaybackStep::PlayChunk);
    } else if silence_len > 0 {
        assert(st[0] == PlaybackStep::AppendSilence(silence_len));
    }
}

} // verus!
