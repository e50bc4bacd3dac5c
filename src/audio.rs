//! Messages and errors of the audio engine, and how its notifications
//! become commands to the playback actor.

use crate::playback::{Command, PlayState};
use vstd::prelude::*;

verus! {

/// A notification from the audio engine. Times are in milliseconds.
#[derive(Clone, Copy, Debug, PartialEq, Eq)]
pub enum PlayerMessage {
    Duration { duration: u64 },
    Elapsed { duration: u64, elapsed: u64 },
    Stopped,
    Paused,
    Playing,
    EndOfStream,
}

/// Errors of driving the audio engine.
#[derive(Clone, Copy, Debug, PartialEq, Eq)]
pub enum PlayerEngineError {
    NotPlaying,
}

impl PlayerEngineError {
    /// A description for people.
    pub fn message(&self) -> (r: &'static str)
        ensures
            r@ == "Sink is not playing"@,
    {
        "Sink is not playing"
    }
}

/// Errors of creating a decoder.
#[derive(Clone, Debug, PartialEq, Eq)]
pub enum DecoderError {
    /// The format of the data has not been recognized.
    UnrecognizedFormat,
    /// An IO error occurred while reading, writing, or seeking the stream.
    IoError(String),
    /// The stream contained malformed data and could not be decoded or demuxed.
    DecodeError(String),
    /// A limit on decoding or demuxing was reached.
    LimitError(String),
    /// The demuxer or decoder needs to be reset before continuing.
    ResetRequired,
    /// No streams were found by the decoder.
    NoStreams,
}

impl DecoderError {
    /// A description for people: the carried message, or a fixed text.
    pub fn message(&self) -> (r: String)
        ensures
            r@ == match self {
                DecoderError::UnrecognizedFormat => "Unrecognized format"@,
                DecoderError::IoError(m) => m@,
                DecoderError::DecodeError(m) => m@,
                DecoderError::LimitError(m) => m@,
                DecoderError::ResetRequired => "Reset required"@,
                DecoderError::NoStreams => "No streams"@,
            },
    {
        match self {
            DecoderError::UnrecognizedFormat => "Unrecognized format".to_owned(),
            DecoderError::IoError(m) => m.clone(),
            DecoderError::DecodeError(m) => m.clone(),
            DecoderError::LimitError(m) => m.clone(),
            DecoderError::ResetRequired => "Reset required".to_owned(),
            DecoderError::NoStreams => "No streams".to_owned(),
        }
    }
}

/// The command that reports an audio engine notification to the playback
/// actor. Times are passed on truncated to 32 bits.
pub fn command_for(msg: PlayerMessage) -> (r: Command)
    ensures
        r == match msg {
            PlayerMessage::EndOfStream => Command::Next,
            PlayerMessage::Stopped => Command::StateChanged { state: PlayState::Stopped },
            PlayerMessage::Paused => Command::StateChanged { state: PlayState::Paused },
            PlayerMessage::Playing => Command::StateChanged { state: PlayState::Playing },
            PlayerMessage::Elapsed { duration, elapsed } => Command::PositionChanged {
                duration: duration as u32,
                position: elapsed as u32,
            },
            PlayerMessage::Duration { duration } => Command::PositionChanged {
                duration: duration as u32,
                position: 0,
            },
        },
{
    match msg {
        PlayerMessage::EndOfStream => Command::Next,
        PlayerMessage::Stopped => Command::StateChanged { state: PlayState::Stopped },
        PlayerMessage::Paused => Command::StateChanged { state: PlayState::Paused },
        PlayerMessage::Playing => Command::StateChanged { state: PlayState::Playing },
        PlayerMessage::Elapsed { duration, elapsed } => Command::PositionChanged {
            duration: duration as u32,
            position: elapsed as u32,
        },
        PlayerMessage::Duration { duration } => Command::PositionChanged {
            duration: duration as u32,
            position: 0,
        },
    }
}

} // verus!
