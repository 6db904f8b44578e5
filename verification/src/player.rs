//! When the audio of a video is started, stopped and restarted.
use crate::funscript::text_of;
use vstd::prelude::*;
use vstd::string::*;

verus! {

/// What is done to the playback process.
#[derive(Debug)]
pub enum PlayerAction {
    /// Nothing
    Keep,
    /// It is ended
    Stop,
    /// It is ended, and a new one is started
    Restart { path: String, at_ms: i64 },
}

/// The contents of a [`PlayerAction`].
pub enum ActionView {
    Keep,
    Stop,
    Restart { path: Seq<char>, at_ms: i64 },
}

impl View for PlayerAction {
    type V = ActionView;

    open spec fn view(&self) -> ActionView {
        match self {
            PlayerAction::Keep => ActionView::Keep,
            PlayerAction::Stop => ActionView::Stop,
            PlayerAction::Restart { path, at_ms } => ActionView::Restart {
                path: path@,
                at_ms: *at_ms,
            },
        }
    }
}

/// The bits of the volume 0.8
pub const INITIAL_VOLUME_BITS: u32 = 0x3f4ccccd;

/// The state of the audio player.
#[derive(Debug)]
pub struct AudioPlayer {
    pub current_path: Option<String>,
    /// The volume from 0 to 1, by the bits of its floating-point number
    pub volume_bits: u32,
    pub is_muted: bool,
    pub is_playing: bool,
    pub current_time_ms: i64,
}

/// The contents of an [`AudioPlayer`].
#[verifier::ext_equal]
pub struct PlayerView {
    pub current_path: Option<Seq<char>>,
    pub volume_bits: u32,
    pub is_muted: bool,
    pub is_playing: bool,
    pub current_time_ms: i64,
}

impl View for AudioPlayer {
    type V = PlayerView;

    open spec fn view(&self) -> PlayerView {
        PlayerView {
            current_path: text_of(self.current_path),
            volume_bits: self.volume_bits,
            is_muted: self.is_muted,
            is_playing: self.is_playing,
            current_time_ms: self.current_time_ms,
        }
    }
}

/// `t`, but not before the start.
pub open spec fn from_start(t: i64) -> i64 {
    if t < 0 {
        0
    } else {
        t
    }
}

fn not_before_start(t: i64) -> (res: i64)
    ensures
        res == from_start(t),
{
    if t < 0 {
        0
    } else {
        t
    }
}

/// What starting at the player's time does, given whether the volume is audible.
pub open spec fn start_action(p: PlayerView, audible: bool) -> ActionView {
    if p.is_muted || !audible {
        ActionView::Stop
    } else {
        ActionView::Restart { path: p.current_path->0, at_ms: p.current_time_ms }
    }
}

/// What restarting a running player does; nothing where it has no media.
pub open spec fn restart_action(p: PlayerView, audible: bool) -> ActionView {
    if p.current_path is None {
        ActionView::Keep
    } else {
        start_action(p, audible)
    }
}

/// The volume of a player that is asked for another one.
pub open spec fn volume_after(p: PlayerView, asked: u32, changed: bool) -> u32 {
    if changed {
        asked
    } else {
        p.volume_bits
    }
}

impl Default for AudioPlayer {
    fn default() -> (res: Self)
        ensures
            res@ == (PlayerView {
                current_path: None,
                volume_bits: INITIAL_VOLUME_BITS,
                is_muted: false,
                is_playing: false,
                current_time_ms: 0,
            }),
    {
        AudioPlayer {
            current_path: None,
            volume_bits: INITIAL_VOLUME_BITS,
            is_muted: false,
            is_playing: false,
            current_time_ms: 0,
        }
    }
}

impl AudioPlayer {
    pub fn new() -> (res: Self)
        ensures
            res@ == (PlayerView {
                current_path: None,
                volume_bits: INITIAL_VOLUME_BITS,
                is_muted: false,
                is_playing: false,
                current_time_ms: 0,
            }),
    {
        AudioPlayer::default()
    }

    /// Set target media file path for playback
    pub fn set_media_path(&mut self, path: &str)
        ensures
            final(self)@ == (PlayerView { current_path: Some(path@), ..old(self)@ }),
    {
        self.current_path = Some(path.to_owned());
    }

    /// Update internal tracking of current timestamp
    pub fn update_current_time(&mut self, time_ms: i64)
        ensures
            final(self)@ == (PlayerView { current_time_ms: from_start(time_ms), ..old(self)@ }),
    {
        self.current_time_ms = not_before_start(time_ms);
    }

    /// Start or resume audio playback at the specified timestamp in milliseconds
    pub fn play_at(&mut self, path: &str, start_time_ms: i64, audible: bool) -> (action:
        PlayerAction)
        ensures
            final(self)@ == (PlayerView {
                current_path: Some(path@),
                current_time_ms: from_start(start_time_ms),
                is_playing: true,
                ..old(self)@
            }),
            action@ == start_action(final(self)@, audible),
    {
        self.current_path = Some(path.to_owned());
        self.current_time_ms = not_before_start(start_time_ms);
        self.is_playing = true;
        if self.is_muted || !audible {
            PlayerAction::Stop
        } else {
            PlayerAction::Restart { path: path.to_owned(), at_ms: self.current_time_ms }
        }
    }

    fn restart(&self, audible: bool) -> (action: PlayerAction)
        ensures
            action@ == restart_action(self@, audible),
    {
        match &self.current_path {
            None => PlayerAction::Keep,
            Some(path) => if self.is_muted || !audible {
                PlayerAction::Stop
            } else {
                PlayerAction::Restart { path: path.clone(), at_ms: self.current_time_ms }
            },
        }
    }

    /// Pause / stop current audio playback
    pub fn pause(&mut self) -> (action: PlayerAction)
        ensures
            final(self)@ == (PlayerView { is_playing: false, ..old(self)@ }),
            action@ == ActionView::Stop,
    {
        self.is_playing = false;
        PlayerAction::Stop
    }

    /// Seek to a new timestamp. If currently playing, re-spawns at the new position.
    pub fn seek_to(&mut self, time_ms: i64, audible: bool) -> (action: PlayerAction)
        ensures
            final(self)@ == (PlayerView { current_time_ms: from_start(time_ms), ..old(self)@ }),
            action@ == (if old(self)@.is_playing {
                restart_action(final(self)@, audible)
            } else {
                ActionView::Stop
            }),
    {
        self.current_time_ms = not_before_start(time_ms);
        if self.is_playing {
            self.restart(audible)
        } else {
            PlayerAction::Stop
        }
    }

    /// Takes in a new playback volume: `changed` is whether it differs noticeably
    /// from the old one, which stays where it does not.
    pub fn set_volume(&mut self, volume_bits: u32, changed: bool, audible: bool) -> (action:
        PlayerAction)
        ensures
            final(self)@ == (PlayerView {
                volume_bits: volume_after(old(self)@, volume_bits, changed),
                ..old(self)@
            }),
            action@ == (if changed && old(self)@.is_playing && !old(self)@.is_muted {
                restart_action(final(self)@, audible)
            } else {
                ActionView::Keep
            }),
    {
        if changed {
            self.volume_bits = volume_bits;
        }
        if changed && self.is_playing && !self.is_muted {
            self.restart(audible)
        } else {
            PlayerAction::Keep
        }
    }

    /// Takes in a new playback volume at a specific timestamp
    pub fn set_volume_at(
        &mut self,
        volume_bits: u32,
        changed: bool,
        audible: bool,
        current_time_ms: i64,
    ) -> (action: PlayerAction)
        ensures
            final(self)@ == (PlayerView {
                volume_bits: volume_after(old(self)@, volume_bits, changed),
                current_time_ms: from_start(current_time_ms),
                ..old(self)@
            }),
            action@ == (if changed && old(self)@.is_playing && !old(self)@.is_muted {
                restart_action(final(self)@, audible)
            } else {
                ActionView::Keep
            }),
    {
        self.current_time_ms = not_before_start(current_time_ms);
        self.set_volume(volume_bits, changed, audible)
    }

    /// Toggle mute
    pub fn set_muted(&mut self, muted: bool, audible: bool) -> (action: PlayerAction)
        ensures
            final(self)@ == (PlayerView { is_muted: muted, ..old(self)@ }),
            action@ == (if old(self)@.is_muted == muted || !old(self)@.is_playing {
                ActionView::Keep
            } else if muted {
                ActionView::Stop
            } else {
                restart_action(final(self)@, audible)
            }),
    {
        if self.is_muted == muted {
            return PlayerAction::Keep;
        }
        self.is_muted = muted;
        if !self.is_playing {
            PlayerAction::Keep
        } else if muted {
            PlayerAction::Stop
        } else {
            self.restart(audible)
        }
    }

    /// Toggle mute at a specific timestamp
    pub fn set_muted_at(&mut self, muted: bool, audible: bool, current_time_ms: i64) -> (action:
        PlayerAction)
        ensures
            final(self)@ == (PlayerView {
                is_muted: muted,
                current_time_ms: from_start(current_time_ms),
                ..old(self)@
            }),
            action@ == (if old(self)@.is_muted == muted || !old(self)@.is_playing {
                ActionView::Keep
            } else if muted {
                ActionView::Stop
            } else {
                restart_action(final(self)@, audible)
            }),
    {
        self.current_time_ms = not_before_start(current_time_ms);
        self.set_muted(muted, audible)
    }
}

/// A muted player starts no process, whatever is done to it but unmuting.
pub proof fn lemma_muted_is_silent(p: PlayerView, audible: bool)
    requires
        p.is_muted,
    ensures
        !(start_action(p, audible) is Restart),
        !(restart_action(p, audible) is Restart),
{
}

/// Where a tempo lies among those that one filter can make.
#[derive(Debug, Clone, Copy, PartialEq, Eq, Structural)]
pub enum TempoRange {
    /// From a quarter to below a half
    Slow,
    /// From a half to double
    Normal,
    /// Above double to four times
    Fast,
}

/// Construct chained ffmpeg atempo audio filters within supported bounds. `rest`
/// is the tempo that remains after halving or doubling, to three places.
pub fn format_atempo_filter(range: TempoRange, rest: &str) -> (filter: String)
    ensures
        filter@ == (match range {
            TempoRange::Slow => "atempo=0.5,"@,
            TempoRange::Normal => ""@,
            TempoRange::Fast => "atempo=2.0,"@,
        }) + "atempo="@ + rest@,
{
    let mut filter: String = match range {
        TempoRange::Slow => "atempo=0.5,".to_owned(),
        TempoRange::Normal => "".to_owned(),
        TempoRange::Fast => "atempo=2.0,".to_owned(),
    };
    filter.append("atempo=");
    filter.append(rest);
    filter
}

/// An audible player that is not muted starts its media at its time, which is never before
/// the start.
pub proof fn lemma_audible_starts(p: PlayerView, t: i64)
    requires
        !p.is_muted,
        p.current_path is Some,
    ensures
        restart_action(p, true) == (ActionView::Restart {
            path: p.current_path->0,
            at_ms: p.current_time_ms,
        }),
        restart_action(p, false) is Stop,
        from_start(t) >= 0,
        t >= 0 ==> from_start(t) == t,
        t < 0 ==> from_start(t) == 0,
{
}

} // verus!
