//! Playback bookkeeping that does not touch the audio device.
use vstd::prelude::*;
use crate::library::max_duration_ns;

verus! {

/// Whether the player is idle, playing or paused.
#[derive(Debug, Clone, Copy, PartialEq, Eq, Structural)]
pub enum PlayerState {
    Idle,
    Playing,
    Paused,
}

/// The queue position playback starts at: the requested one, clamped to the
/// last file of the queue (0 for an empty queue).
pub fn start_index(requested: usize, queue_len: usize) -> (r: usize)
    ensures
        r == (if queue_len == 0 {
            0
        } else if requested < queue_len {
            requested
        } else {
            (queue_len - 1) as usize
        }),
        queue_len > 0 ==> r < queue_len,
{
    let last = if queue_len == 0 { 0 } else { queue_len - 1 };
    if requested < last {
        requested
    } else {
        last
    }
}

/// The position (nanoseconds) a seek by `delta` lands on: forward adds,
/// backward stops at the start of the file.
pub fn seek_target(position: u128, delta: u128, forward: bool) -> (r: u128)
    requires
        forward ==> position + delta <= max_duration_ns(),
    ensures
        forward ==> r == position + delta,
        !forward ==> r == (if position >= delta { (position - delta) as u128 } else { 0 }),
{
    if forward {
        position + delta
    } else if position >= delta {
        position - delta
    } else {
        0
    }
}

/// Whether progress is due to be saved: while playing, once at least ten
/// seconds (`elapsed`, in nanoseconds) have passed since the last save.
pub fn should_autosave(state: PlayerState, elapsed: u128) -> (r: bool)
    ensures
        r == (state == PlayerState::Playing && elapsed >= 10_000_000_000),
{
    state == PlayerState::Playing && elapsed >= 10_000_000_000
}

/// What the audio sink is told to do.
#[derive(Debug, Clone, Copy, PartialEq, Eq, Structural)]
pub enum SinkCommand {
    Pause,
    Play,
    Nothing,
}

/// What happens to the clock that measures playback since the last resume.
#[derive(Debug, Clone, Copy, PartialEq, Eq, Structural)]
pub enum ClockChange {
    /// The clock stops (nothing is being measured).
    Stop,
    /// The clock restarts from now.
    Restart,
    /// The clock is left as it is.
    Keep,
}

/// The player's bookkeeping after play/pause is toggled.
#[derive(Debug, Clone, Copy, PartialEq, Eq, Structural)]
pub struct PauseToggle {
    pub state: PlayerState,
    /// Time played up to the last pause (nanoseconds).
    pub paused_offset: u128,
    /// Position within the current file (nanoseconds).
    pub position: u128,
    pub sink: SinkCommand,
    pub clock: ClockChange,
}

/// Toggles play/pause. `advanced` is how far playback has moved (at the
/// current speed) since the clock last started, or `None` when the clock is
/// not running. Pausing while playing adds that to the paused offset, shows
/// it as the position, stops the clock and pauses the sink; resuming from a
/// pause restarts the clock and the sink; an idle player stays as it is.
pub fn toggle_pause(
    state: PlayerState,
    paused_offset: u128,
    position: u128,
    advanced: Option<u128>,
) -> (r: PauseToggle)
    requires
        state == PlayerState::Playing && advanced is Some ==> paused_offset + advanced->0
            <= max_duration_ns(),
    ensures
        state == PlayerState::Playing ==> r == (match advanced {
            Some(a) => PauseToggle {
                state: PlayerState::Paused,
                paused_offset: (paused_offset + a) as u128,
                position: (paused_offset + a) as u128,
                sink: SinkCommand::Pause,
                clock: ClockChange::Stop,
            },
            None => PauseToggle {
                state: PlayerState::Paused,
                paused_offset,
                position,
                sink: SinkCommand::Pause,
                clock: ClockChange::Stop,
            },
        }),
        state == PlayerState::Paused ==> r == (PauseToggle {
            state: PlayerState::Playing,
            paused_offset,
            position,
            sink: SinkCommand::Play,
            clock: ClockChange::Restart,
        }),
        state == PlayerState::Idle ==> r == (PauseToggle {
            state: PlayerState::Idle,
            paused_offset,
            position,
            sink: SinkCommand::Nothing,
            clock: ClockChange::Keep,
        }),
{
    match state {
        PlayerState::Playing => {
            let (offset, pos) = match advanced {
                Some(a) => (paused_offset + a, paused_offset + a),
                None => (paused_offset, position),
            };
            PauseToggle {
                state: PlayerState::Paused,
                paused_offset: offset,
                position: pos,
                sink: SinkCommand::Pause,
                clock: ClockChange::Stop,
            }
        },
        PlayerState::Paused => PauseToggle {
            state: PlayerState::Playing,
            paused_offset,
            position,
            sink: SinkCommand::Play,
            clock: ClockChange::Restart,
        },
        PlayerState::Idle => PauseToggle {
            state: PlayerState::Idle,
            paused_offset,
            position,
            sink: SinkCommand::Nothing,
            clock: ClockChange::Keep,
        },
    }
}

} // verus!
