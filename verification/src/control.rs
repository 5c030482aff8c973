//! The decisions of the background loop that drives playback: what each
//! request from the media controls asks of the player, and when a track that
//! has ended is skipped.
use vstd::prelude::*;

use crate::media::MediaMsg;

verus! {

/// What the background loop notices.
#[derive(Debug, PartialEq, Eq, Structural, Clone, Copy)]
pub enum ControlEvent {
    /// A request from the media notification or audio focus.
    Media(MediaMsg),
    /// The audio player started a track.
    TrackStarted,
    /// A pause in the loop; `track_ended` tells whether the audio player has
    /// reached the end of its track.
    Tick { track_ended: bool },
    /// The channel of player requests was closed.
    Closed,
}

/// What the background loop does about an event.
#[derive(Debug, PartialEq, Eq, Structural, Clone, Copy)]
pub enum ControlAction {
    Play,
    Pause,
    Skip,
    Skipback,
    /// Move within the track to a position given in milliseconds.
    SeekMillis(i64),
    /// Leave the loop.
    Stop,
    Nothing,
}

/// The loop's memory: whether a track it started is still to be watched for
/// its end.
#[derive(Debug, PartialEq, Eq, Structural, Clone, Copy)]
pub struct ControlState {
    pub track_playing: bool,
}

/// The state and action that `event` leads to from `s`.
pub open spec fn control_step(s: ControlState, event: ControlEvent) -> (ControlState, ControlAction) {
    match event {
        ControlEvent::Media(MediaMsg::Play) => (s, ControlAction::Play),
        ControlEvent::Media(MediaMsg::Pause) => (s, ControlAction::Pause),
        ControlEvent::Media(MediaMsg::Next) => (s, ControlAction::Skip),
        ControlEvent::Media(MediaMsg::Previous) => (s, ControlAction::Skipback),
        ControlEvent::Media(MediaMsg::SeekTo(pos)) => (s, ControlAction::SeekMillis(pos)),
        ControlEvent::TrackStarted => (ControlState { track_playing: true }, ControlAction::Nothing),
        ControlEvent::Tick { track_ended } => if track_ended && s.track_playing {
            (ControlState { track_playing: false }, ControlAction::Skip)
        } else {
            (s, ControlAction::Nothing)
        },
        ControlEvent::Closed => (s, ControlAction::Stop),
    }
}

impl ControlState {
    /// The state before any track was started.
    pub fn new() -> (r: Self)
        ensures
            !r.track_playing,
    {
        ControlState { track_playing: false }
    }

    /// Handles `event`: requests from the media controls become player
    /// actions, a started track is watched, and a watched track that has
    /// ended is skipped once.
    pub fn step(&mut self, event: ControlEvent) -> (r: ControlAction)
        ensures
            (*final(self), r) == control_step(*old(self), event),
    {
        match event {
            ControlEvent::Media(msg) => match msg {
                MediaMsg::Play => ControlAction::Play,
                MediaMsg::Pause => ControlAction::Pause,
                MediaMsg::Next => ControlAction::Skip,
                MediaMsg::Previous => ControlAction::Skipback,
                MediaMsg::SeekTo(pos) => ControlAction::SeekMillis(pos),
            },
            ControlEvent::TrackStarted => {
                self.track_playing = true;
                ControlAction::Nothing
            },
            ControlEvent::Tick { track_ended } => {
                if track_ended && self.track_playing {
                    self.track_playing = false;
                    ControlAction::Skip
                } else {
                    ControlAction::Nothing
                }
            },
            ControlEvent::Closed => ControlAction::Stop,
        }
    }
}

/// A track that has ended is skipped once: the tick that finds it ended
/// skips, and later ticks do nothing until another track starts.
pub proof fn lemma_ended_track_skipped_once(s: ControlState, later: bool)
    requires
        s.track_playing,
    ensures
        control_step(s, ControlEvent::Tick { track_ended: true }).1 == ControlAction::Skip,
        control_step(
            control_step(s, ControlEvent::Tick { track_ended: true }).0,
            ControlEvent::Tick { track_ended: later },
        ).1 == ControlAction::Nothing,
{
}

/// Requests from the media controls never change what the loop watches.
pub proof fn lemma_media_keeps_state(s: ControlState, msg: MediaMsg)
    ensures
        control_step(s, ControlEvent::Media(msg)).0 == s,
{
}

} // verus!
