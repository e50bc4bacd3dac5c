//! The decisions of the playback actor.
//!
//! The actor owns the queue and the transport state and handles one command
//! at a time. Each command yields the updates to broadcast and one effect
//! for the runner to carry out (fetching stream URLs, driving the audio
//! engine). The outcome of a URL fetch comes back through
//! [`Playback::urls_fetched`], which skips forward past unplayable tracks.

use crate::model::{ProviderError, Track};
use crate::queue::{Queue, QueueManager, QueueView};
use vstd::prelude::*;

verus! {

/// Transport state as reported by the audio engine.
#[derive(Clone, Copy, Debug, PartialEq, Eq)]
pub enum PlayState {
    Unspecified,
    Stopped,
    Loading,
    Playing,
    Paused,
}

/// The current track and its position in the queue.
#[derive(Clone, Debug, PartialEq, Eq)]
pub struct QueueTrack {
    pub queue_position: u32,
    pub track: Option<Track>,
}

/// Progress through the current track, in milliseconds.
#[derive(Clone, Copy, Debug, PartialEq, Eq)]
pub struct TrackPosition {
    pub duration: u32,
    pub position: u32,
}

/// A state change broadcast to every subscribed client.
#[derive(Clone, Debug, PartialEq, Eq)]
pub enum Update {
    Queue(Queue),
    QueueTrack(QueueTrack),
    PlayState(PlayState),
    Mute(bool),
    Position(TrackPosition),
}

/// The state handed to a newly connected client.
#[derive(Clone, Debug, PartialEq, Eq)]
pub struct InitData {
    pub queue: Queue,
    pub queue_track: QueueTrack,
    pub play_state: PlayState,
    pub mute: bool,
    pub position: TrackPosition,
}

/// A command to the actor, with catalogue references already resolved to
/// tracks. Device notifications arrive as commands too.
#[derive(Clone, Debug, PartialEq, Eq)]
pub enum Command {
    Replace { tracks: Vec<Track> },
    Queue { tracks: Vec<Track> },
    Append { tracks: Vec<Track> },
    Insert { position: u32, tracks: Vec<Track> },
    Remove { positions: Vec<u32> },
    SetCurrent { position: u32 },
    ToggleShuffle,
    ToggleRepeat,
    TogglePlay,
    Stop,
    ToggleMute,
    Next,
    Prev,
    RestartTrack,
    StateChanged { state: PlayState },
    MuteChanged { muted: bool },
    PositionChanged { duration: u32, position: u32 },
    EndOfStream,
}

/// What the runner does after a command.
#[derive(Clone, Debug, PartialEq, Eq)]
pub enum Effect {
    Nothing,
    /// Ask the provider for the stream URLs of this track uuid and hand the
    /// answer to [`Playback::urls_fetched`].
    FetchUrls(String),
    /// Stop the current stream and play this URL.
    Play(String),
    Stop,
    Pause,
    Unpause,
    Restart,
}

/// The outcome of one command: updates to broadcast, then one effect.
#[derive(Clone, Debug, PartialEq, Eq)]
pub struct Step {
    pub updates: Vec<Update>,
    pub effect: Effect,
}

/// `u` shows the queue `q` to clients.
pub open spec fn shows_queue(u: Update, q: QueueView) -> bool {
    match u {
        Update::Queue(s) => s.tracks@ == q.tracks && s.current_position == q.current_position() as u32,
        _ => false,
    }
}

/// `u` shows the current track of `q` to clients.
pub open spec fn shows_current(u: Update, q: QueueView) -> bool {
    match u {
        Update::QueueTrack(t) => t.queue_position == q.current_position() as u32 && t.track
            == q.current_track(),
        _ => false,
    }
}

/// How playback of `track` begins: by fetching its stream URLs. Without a
/// track, playback stops when `stop_if_none`, else nothing happens.
pub open spec fn start_effect(track: Option<Track>, stop_if_none: bool) -> Effect {
    match track {
        Some(t) => Effect::FetchUrls(t.uuid),
        None => if stop_if_none {
            Effect::Stop
        } else {
            Effect::Nothing
        },
    }
}

/// A command whose tracks fit into the queue `q`.
pub open spec fn fits(q: QueueView, cmd: Command) -> bool {
    match cmd {
        Command::Replace { tracks } => true,
        Command::Queue { tracks } => q.len() + tracks@.len() <= usize::MAX,
        Command::Append { tracks } => q.len() + tracks@.len() <= usize::MAX,
        Command::Insert { position, tracks } => q.len() + tracks@.len() <= usize::MAX,
        _ => true,
    }
}

/// The playback actor's state: the queue and the transport state.
pub struct Playback {
    queue: QueueManager,
    state: PlayState,
}

impl Playback {
    pub closed spec fn queue_view(&self) -> QueueView {
        self.queue@
    }

    pub closed spec fn play_state(&self) -> PlayState {
        self.state
    }

    pub open spec fn wf(&self) -> bool {
        self.queue_view().wf()
    }

    pub fn new() -> (r: Playback)
        ensures
            r.wf(),
            r.queue_view().len() == 0,
            r.play_state() == PlayState::Stopped,
    {
        Playback { queue: QueueManager::new(), state: PlayState::Stopped }
    }

    /// Whether the queue holds `n` more tracks.
    pub fn has_room_for(&self, n: usize) -> (r: bool)
        requires
            self.wf(),
        ensures
            r == (self.queue_view().len() + n <= usize::MAX),
    {
        n <= usize::MAX - self.queue.len()
    }

    /// The state a newly connected client starts from.
    pub fn init_data(&self) -> (r: InitData)
        requires
            self.wf(),
        ensures
            r.queue.tracks@ == self.queue_view().tracks,
            r.queue.current_position == self.queue_view().current_position() as u32,
            r.queue_track.queue_position == self.queue_view().current_position() as u32,
            r.queue_track.track == self.queue_view().current_track(),
            r.play_state == self.play_state(),
            !r.mute,
            r.position == (TrackPosition { duration: 0, position: 0 }),
    {
        InitData {
            queue: self.queue.snapshot(),
            queue_track: QueueTrack {
                queue_position: self.queue.current_position() as u32,
                track: self.queue.current_track(),
            },
            play_state: self.state,
            mute: false,
            position: TrackPosition { duration: 0, position: 0 },
        }
    }

    /// Handles one command.
    pub fn handle(&mut self, cmd: Command) -> (r: Step)
        requires
            old(self).wf(),
            fits(old(self).queue_view(), cmd),
        ensures
            final(self).wf(),
            ({
                let q0 = old(self).queue_view();
                let q1 = final(self).queue_view();
                let s0 = old(self).play_state();
                let s1 = final(self).play_state();
                let queue_shown = r.updates@.len() == 1 && shows_queue(r.updates@[0], q1);
                match cmd {
                    Command::Replace { tracks } => {
                        &&& q0.replace_rel(q1, tracks@, q1.current_track())
                        &&& queue_shown
                        &&& r.effect == start_effect(q1.current_track(), false)
                        &&& s1 == s0
                    },
                    Command::Queue { tracks } => {
                        &&& q0.queue_rel(q1, tracks@)
                        &&& queue_shown
                        &&& r.effect == Effect::Nothing
                        &&& s1 == s0
                    },
                    Command::Append { tracks } => {
                        &&& q0.append_rel(q1, tracks@)
                        &&& queue_shown
                        &&& r.effect == Effect::Nothing
                        &&& s1 == s0
                    },
                    Command::Insert { position, tracks } => {
                        &&& q0.insert_rel(q1, position as nat, tracks@)
                        &&& queue_shown
                        &&& r.effect == Effect::Nothing
                        &&& s1 == s0
                    },
                    Command::Remove { positions } => {
                        &&& exists|t: Option<Track>|
                            q0.remove_rel(q1, positions@, t) && r.effect == start_effect(t, false)
                        &&& queue_shown
                        &&& s1 == s0
                    },
                    Command::SetCurrent { position } => {
                        &&& exists|ok: bool|
                            q0.set_current_rel(q1, position as nat, ok) && r.effect == if ok {
                                start_effect(q1.current_track(), false)
                            } else {
                                Effect::Nothing
                            }
                        &&& r.updates@.len() == 0
                        &&& s1 == s0
                    },
                    Command::ToggleShuffle => {
                        &&& q0.shuffle ==> q1 == q0.unshuffled()
                        &&& !q0.shuffle ==> q0.shuffled_on(q1)
                        &&& r.updates@.len() == 0
                        &&& r.effect == Effect::Nothing
                        &&& s1 == s0
                    },
                    Command::ToggleRepeat => {
                        &&& q1 == (QueueView { repeat: !q0.repeat, ..q0 })
                        &&& r.updates@.len() == 0
                        &&& r.effect == Effect::Nothing
                        &&& s1 == s0
                    },
                    Command::TogglePlay => {
                        &&& q1 == q0
                        &&& s1 == s0
                        &&& r.updates@.len() == 0
                        &&& r.effect == if s0 == PlayState::Playing {
                            Effect::Pause
                        } else {
                            Effect::Unpause
                        }
                    },
                    Command::Stop => q1 == q0 && s1 == s0 && r.updates@.len() == 0 && r.effect
                        == Effect::Stop,
                    Command::ToggleMute => q1 == q0 && s1 == s0 && r.updates@.len() == 0 && r.effect
                        == Effect::Nothing,
                    Command::RestartTrack => q1 == q0 && s1 == s0 && r.updates@.len() == 0
                        && r.effect == Effect::Restart,
                    Command::Next | Command::EndOfStream => {
                        &&& exists|t: Option<Track>|
                            q0.next_rel(q1, t) && r.effect == start_effect(t, true)
                        &&& r.updates@.len() == 0
                        &&& s1 == s0
                    },
                    Command::Prev => {
                        &&& exists|t: Option<Track>|
                            q0.prev_rel(q1, t) && r.effect == start_effect(t, true)
                        &&& r.updates@.len() == 0
                        &&& s1 == s0
                    },
                    Command::StateChanged { state } => {
                        &&& q1 == q0
                        &&& s1 == state
                        &&& r.updates@ == seq![Update::PlayState(state)]
                        &&& r.effect == Effect::Nothing
                    },
                    Command::MuteChanged { muted } => {
                        &&& q1 == q0
                        &&& s1 == s0
                        &&& r.updates@ == seq![Update::Mute(muted)]
                        &&& r.effect == Effect::Nothing
                    },
                    Command::PositionChanged { duration, position } => {
                        &&& q1 == q0
                        &&& s1 == s0
                        &&& r.updates@ == seq![
                            Update::Position(TrackPosition { duration, position }),
                        ]
                        &&& r.effect == Effect::Nothing
                    },
                }
            }),
    {
        match cmd {
            Command::Replace { tracks } => {
                self.queue.replace_with_tracks(tracks.as_slice());
                let u = self.queue_update();
                let effect = Self::start(self.queue.current_track(), false);
                Step { updates: vec![u], effect }
            },
            Command::Queue { tracks } => {
                self.queue.queue_tracks(tracks.as_slice());
                Step { updates: vec![self.queue_update()], effect: Effect::Nothing }
            },
            Command::Append { tracks } => {
                self.queue.append_tracks(tracks.as_slice());
                Step { updates: vec![self.queue_update()], effect: Effect::Nothing }
            },
            Command::Insert { position, tracks } => {
                self.queue.insert_tracks(position, tracks.as_slice());
                Step { updates: vec![self.queue_update()], effect: Effect::Nothing }
            },
            Command::Remove { positions } => {
                let t = self.queue.remove_tracks(positions.as_slice());
                let u = self.queue_update();
                let effect = Self::start(t, false);
                Step { updates: vec![u], effect }
            },
            Command::SetCurrent { position } => {
                let ok = self.queue.set_current_position(position);
                let effect = if ok {
                    Self::start(self.queue.current_track(), false)
                } else {
                    Effect::Nothing
                };
                Step { updates: Vec::new(), effect }
            },
            Command::ToggleShuffle => {
                if self.queue.is_shuffle() {
                    self.queue.shuffle_off();
                } else {
                    self.queue.shuffle_on();
                }
                Step { updates: Vec::new(), effect: Effect::Nothing }
            },
            Command::ToggleRepeat => {
                let repeat = self.queue.is_repeat();
                self.queue.set_repeat(!repeat);
                Step { updates: Vec::new(), effect: Effect::Nothing }
            },
            Command::TogglePlay => {
                let effect = match self.state {
                    PlayState::Playing => Effect::Pause,
                    _ => Effect::Unpause,
                };
                Step { updates: Vec::new(), effect }
            },
            Command::Stop => Step { updates: Vec::new(), effect: Effect::Stop },
            Command::ToggleMute => Step { updates: Vec::new(), effect: Effect::Nothing },
            Command::RestartTrack => Step { updates: Vec::new(), effect: Effect::Restart },
            Command::Next | Command::EndOfStream => {
                let t = self.queue.next_track();
                Step { updates: Vec::new(), effect: Self::start(t, true) }
            },
            Command::Prev => {
                let t = self.queue.prev_track();
                Step { updates: Vec::new(), effect: Self::start(t, true) }
            },
            Command::StateChanged { state } => {
                self.state = state;
                Step { updates: vec![Update::PlayState(state)], effect: Effect::Nothing }
            },
            Command::MuteChanged { muted } => {
                Step { updates: vec![Update::Mute(muted)], effect: Effect::Nothing }
            },
            Command::PositionChanged { duration, position } => {
                Step {
                    updates: vec![Update::Position(TrackPosition { duration, position })],
                    effect: Effect::Nothing,
                }
            },
        }
    }

    /// Continues playback once the provider has answered a URL fetch: plays
    /// the first URL and shows the current track, or, when the track has no
    /// playable URL, skips forward to the next track (stopping at the end).
    pub fn urls_fetched(&mut self, urls: Result<Vec<String>, ProviderError>) -> (r: Step)
        requires
            old(self).wf(),
        ensures
            final(self).wf(),
            final(self).play_state() == old(self).play_state(),
            match urls {
                Ok(u) => u@.len() > 0,
                Err(_) => false,
            } ==> {
                &&& final(self).queue_view() == old(self).queue_view()
                &&& r.updates@.len() == 1
                &&& shows_current(r.updates@[0], old(self).queue_view())
                &&& r.effect == Effect::Play(urls->Ok_0@[0])
            },
            !match urls {
                Ok(u) => u@.len() > 0,
                Err(_) => false,
            } ==> {
                &&& exists|t: Option<Track>|
                    old(self).queue_view().next_rel(final(self).queue_view(), t) && r.effect
                        == start_effect(t, true)
                &&& r.updates@.len() == 0
            },
    {
        match urls {
            Ok(u) if u.len() > 0 => {
                let current = QueueTrack {
                    queue_position: self.queue.current_position() as u32,
                    track: self.queue.current_track(),
                };
                let url = u[0].clone();
                Step { updates: vec![Update::QueueTrack(current)], effect: Effect::Play(url) }
            },
            _ => {
                let t = self.queue.next_track();
                Step { updates: Vec::new(), effect: Self::start(t, true) }
            },
        }
    }

    fn queue_update(&self) -> (r: Update)
        requires
            self.wf(),
        ensures
            shows_queue(r, self.queue_view()),
    {
        Update::Queue(self.queue.snapshot())
    }

    fn start(track: Option<Track>, stop_if_none: bool) -> (r: Effect)
        ensures
            r == start_effect(track, stop_if_none),
    {
        match track {
            Some(t) => Effect::FetchUrls(t.uuid),
            None => if stop_if_none {
                Effect::Stop
            } else {
                Effect::Nothing
            },
        }
    }
}

} // verus!
