use crabidy_server::audio::{command_for, DecoderError, PlayerEngineError, PlayerMessage};
use crabidy_server::model::{ProviderError, Track};
use crabidy_server::playback::{Command, Effect, PlayState, Playback, TrackPosition, Update};

fn track(id: &str) -> Track {
    Track {
        uuid: format!("track:{}", id),
        title: id.to_string(),
        artist: "artist".to_string(),
        album: Some("album".to_string()),
        duration: None,
    }
}

fn tracks(ids: &[&str]) -> Vec<Track> {
    ids.iter().map(|id| track(id)).collect()
}

#[test]
fn replace_fetches_urls_of_first_track() {
    let mut p = Playback::new();
    let step = p.handle(Command::Replace { tracks: tracks(&["a", "b"]) });
    assert_eq!(step.effect, Effect::FetchUrls("track:a".to_string()));
    assert_eq!(step.updates.len(), 1);
    match &step.updates[0] {
        Update::Queue(q) => {
            assert_eq!(q.tracks, tracks(&["a", "b"]));
            assert_eq!(q.current_position, 0);
        }
        other => panic!("unexpected update {:?}", other),
    }
}

#[test]
fn replace_with_nothing_does_nothing_more() {
    let mut p = Playback::new();
    let step = p.handle(Command::Replace { tracks: Vec::new() });
    assert_eq!(step.effect, Effect::Nothing);
}

#[test]
fn fetched_urls_start_playback() {
    let mut p = Playback::new();
    p.handle(Command::Replace { tracks: tracks(&["a", "b"]) });
    let step = p.urls_fetched(Ok(vec!["http://x/1".to_string(), "http://x/2".to_string()]));
    assert_eq!(step.effect, Effect::Play("http://x/1".to_string()));
    match &step.updates[0] {
        Update::QueueTrack(t) => {
            assert_eq!(t.queue_position, 0);
            assert_eq!(t.track, Some(track("a")));
        }
        other => panic!("unexpected update {:?}", other),
    }
}

#[test]
fn failed_fetch_skips_forward_then_stops() {
    let mut p = Playback::new();
    p.handle(Command::Replace { tracks: tracks(&["a", "b"]) });
    let step = p.urls_fetched(Err(ProviderError::FetchError));
    assert_eq!(step.effect, Effect::FetchUrls("track:b".to_string()));
    assert!(step.updates.is_empty());
    let step = p.urls_fetched(Ok(Vec::new()));
    assert_eq!(step.effect, Effect::Stop);
}

#[test]
fn next_at_end_stops() {
    let mut p = Playback::new();
    p.handle(Command::Replace { tracks: tracks(&["a"]) });
    assert_eq!(p.handle(Command::Next).effect, Effect::Stop);
    assert_eq!(p.handle(Command::EndOfStream).effect, Effect::Stop);
    assert_eq!(p.handle(Command::Prev).effect, Effect::Stop);
}

#[test]
fn next_and_prev_fetch_their_track() {
    let mut p = Playback::new();
    p.handle(Command::Replace { tracks: tracks(&["a", "b"]) });
    assert_eq!(p.handle(Command::Next).effect, Effect::FetchUrls("track:b".to_string()));
    assert_eq!(p.handle(Command::Prev).effect, Effect::FetchUrls("track:a".to_string()));
}

#[test]
fn toggle_play_follows_reported_state() {
    let mut p = Playback::new();
    assert_eq!(p.handle(Command::TogglePlay).effect, Effect::Unpause);
    let step = p.handle(Command::StateChanged { state: PlayState::Playing });
    assert_eq!(step.updates, vec![Update::PlayState(PlayState::Playing)]);
    assert_eq!(p.handle(Command::TogglePlay).effect, Effect::Pause);
}

#[test]
fn transport_commands_are_forwarded() {
    let mut p = Playback::new();
    assert_eq!(p.handle(Command::Stop).effect, Effect::Stop);
    assert_eq!(p.handle(Command::RestartTrack).effect, Effect::Restart);
    assert_eq!(p.handle(Command::ToggleMute).effect, Effect::Nothing);
    let step = p.handle(Command::MuteChanged { muted: true });
    assert_eq!(step.updates, vec![Update::Mute(true)]);
    let step = p.handle(Command::PositionChanged { duration: 9, position: 4 });
    assert_eq!(step.updates, vec![Update::Position(TrackPosition { duration: 9, position: 4 })]);
}

#[test]
fn set_current_and_remove_drive_playback() {
    let mut p = Playback::new();
    p.handle(Command::Replace { tracks: tracks(&["a", "b", "c"]) });
    let step = p.handle(Command::SetCurrent { position: 2 });
    assert_eq!(step.effect, Effect::FetchUrls("track:c".to_string()));
    assert_eq!(p.handle(Command::SetCurrent { position: 3 }).effect, Effect::Nothing);
    let step = p.handle(Command::Remove { positions: vec![0] });
    assert_eq!(step.effect, Effect::Nothing);
    let step = p.handle(Command::Remove { positions: vec![1] });
    assert_eq!(step.effect, Effect::Nothing);
    let init = p.init_data();
    assert_eq!(init.queue.tracks, tracks(&["b"]));
    assert_eq!(init.queue_track.track, None);
}

#[test]
fn queue_append_insert_publish_the_queue() {
    let mut p = Playback::new();
    p.handle(Command::Replace { tracks: tracks(&["a", "b"]) });
    let step = p.handle(Command::Queue { tracks: tracks(&["x"]) });
    assert_eq!(step.effect, Effect::Nothing);
    let step = p.handle(Command::Append { tracks: tracks(&["z"]) });
    let step2 = p.handle(Command::Insert { position: 0, tracks: tracks(&["y"]) });
    assert_eq!(step.effect, Effect::Nothing);
    match &step2.updates[0] {
        Update::Queue(q) => {
            let titles: Vec<&str> = q.tracks.iter().map(|t| t.title.as_str()).collect();
            assert_eq!(titles, vec!["a", "y", "x", "b", "z"]);
        }
        other => panic!("unexpected update {:?}", other),
    }
}

#[test]
fn toggles_keep_current_track() {
    let mut p = Playback::new();
    p.handle(Command::Replace { tracks: tracks(&["a", "b", "c", "d"]) });
    p.handle(Command::Next);
    p.handle(Command::ToggleShuffle);
    p.handle(Command::ToggleRepeat);
    assert_eq!(p.init_data().queue_track.track, Some(track("b")));
    p.handle(Command::ToggleShuffle);
    let init = p.init_data();
    assert_eq!(init.queue_track.track, Some(track("b")));
    assert_eq!(init.queue_track.queue_position, 1);
    assert_eq!(init.play_state, PlayState::Stopped);
}

#[test]
fn repeat_wraps_next() {
    let mut p = Playback::new();
    p.handle(Command::Replace { tracks: tracks(&["a", "b"]) });
    p.handle(Command::ToggleRepeat);
    p.handle(Command::Next);
    assert_eq!(p.handle(Command::Next).effect, Effect::FetchUrls("track:a".to_string()));
}

#[test]
fn player_messages_become_commands() {
    assert_eq!(command_for(PlayerMessage::EndOfStream), Command::Next);
    assert_eq!(
        command_for(PlayerMessage::Paused),
        Command::StateChanged { state: PlayState::Paused }
    );
    assert_eq!(
        command_for(PlayerMessage::Playing),
        Command::StateChanged { state: PlayState::Playing }
    );
    assert_eq!(
        command_for(PlayerMessage::Stopped),
        Command::StateChanged { state: PlayState::Stopped }
    );
    assert_eq!(
        command_for(PlayerMessage::Elapsed { duration: 5000, elapsed: 1200 }),
        Command::PositionChanged { duration: 5000, position: 1200 }
    );
    assert_eq!(
        command_for(PlayerMessage::Duration { duration: (1u64 << 32) + 7 }),
        Command::PositionChanged { duration: 7, position: 0 }
    );
}

#[test]
fn error_messages() {
    assert_eq!(DecoderError::NoStreams.message(), "No streams");
    assert_eq!(DecoderError::UnrecognizedFormat.message(), "Unrecognized format");
    assert_eq!(DecoderError::ResetRequired.message(), "Reset required");
    assert_eq!(DecoderError::IoError("disk".to_string()).message(), "disk");
    assert_eq!(PlayerEngineError::NotPlaying.message(), "Sink is not playing");
}
