//! AVRCP core: media playback status, track metadata, transport commands, and the
//! counter that tells a stale D-Bus connection.
use vstd::prelude::*;
use crate::text::{opt_view, same, trim, trimmed, trimming_takes_white_space_off_the_ends, white};

verus! {

/// Playback status (a stable wire subset of BlueZ `MediaPlayer1.Status`).
#[derive(Debug, Clone, Copy, PartialEq, Eq, Structural)]
pub enum PlaybackStatus {
    Stopped,
    Playing,
    Paused,
}

impl PlaybackStatus {
    /// The wire name of a status.
    pub open spec fn wire(self) -> Seq<char> {
        match self {
            PlaybackStatus::Stopped => "stopped"@,
            PlaybackStatus::Playing => "playing"@,
            PlaybackStatus::Paused => "paused"@,
        }
    }

    /// The status that a BlueZ string means.
    pub open spec fn of_bluez(s: Seq<char>) -> PlaybackStatus {
        if s == "playing"@ {
            PlaybackStatus::Playing
        } else if s == "paused"@ {
            PlaybackStatus::Paused
        } else {
            PlaybackStatus::Stopped
        }
    }

    /// Stable snake_case wire name for the web UI.
    pub fn as_str(self) -> (s: &'static str)
        ensures
            s@ == self.wire(),
    {
        match self {
            PlaybackStatus::Stopped => "stopped",
            PlaybackStatus::Playing => "playing",
            PlaybackStatus::Paused => "paused",
        }
    }

    /// Map a BlueZ `Status` string. `playing` and `paused` map directly; everything
    /// else collapses to `Stopped` (conservative: no false "playing").
    pub fn from_bluez(s: &str) -> (status: Self)
        ensures
            status == PlaybackStatus::of_bluez(s@),
    {
        if same(s, "playing") {
            PlaybackStatus::Playing
        } else if same(s, "paused") {
            PlaybackStatus::Paused
        } else {
            PlaybackStatus::Stopped
        }
    }
}

/// A wire name means the status that it was made from.
pub proof fn wire_names_read_back(status: PlaybackStatus)
    ensures
        PlaybackStatus::of_bluez(status.wire()) == status,
{
    reveal_strlit("stopped");
    reveal_strlit("playing");
    reveal_strlit("paused");
    assert("stopped"@[0] == 's');
    assert("playing"@[0] == 'p');
    assert("paused"@.len() == 6);
    assert("playing"@.len() == 7);
    assert("stopped"@.len() == 7);
}

/// A player plays or is paused exactly where BlueZ says so in these words; whatever
/// else it says, it is stopped.
pub proof fn only_playing_is_playing(s: Seq<char>)
    ensures
        PlaybackStatus::of_bluez(s) == PlaybackStatus::Playing <==> s == "playing"@,
        PlaybackStatus::of_bluez(s) == PlaybackStatus::Paused <==> s == "paused"@,
        PlaybackStatus::of_bluez(s).wire() == s || PlaybackStatus::of_bluez(s).wire() == "stopped"@,
{
    reveal_strlit("playing");
    reveal_strlit("paused");
    assert("paused"@.len() == 6);
    assert("playing"@.len() == 7);
}

/// Track metadata from `MediaPlayer1.Track`.
#[derive(Debug, PartialEq, Eq)]
pub struct TrackMetadata {
    pub title: Option<String>,
    pub artist: Option<String>,
    pub album: Option<String>,
    pub duration_ms: Option<u32>,
}

impl Default for TrackMetadata {
    fn default() -> (r: Self)
        ensures
            r == (TrackMetadata { title: None, artist: None, album: None, duration_ms: None }),
    {
        TrackMetadata { title: None, artist: None, album: None, duration_ms: None }
    }
}

/// The duration that BlueZ means: zero and the greatest number mean none.
pub open spec fn real_duration(raw: u32) -> Option<u32> {
    if raw == 0 || raw == u32::MAX {
        None
    } else {
        Some(raw)
    }
}

/// BlueZ reports a missing duration as `0` or `0xFFFFFFFF`; both become `None`.
pub fn sanitize_duration_ms(raw: u32) -> (d: Option<u32>)
    ensures
        d == real_duration(raw),
{
    if raw == 0 || raw == u32::MAX {
        None
    } else {
        Some(raw)
    }
}

/// The text that BlueZ means: white space around it is dropped, and nothing left
/// means none.
pub open spec fn real_text(s: Seq<char>) -> Option<Seq<char>> {
    if trimmed(s).len() == 0 {
        None
    } else {
        Some(trimmed(s))
    }
}

/// A text with any character but white space is real, and what it means is what is left
/// of it without the white space at its ends; one that has none there means itself.
pub proof fn real_texts_lose_only_white_space(s: Seq<char>)
    ensures
        real_text(s) is Some <==> exists|k: int| 0 <= k < s.len() && !white(#[trigger] s[k]),
        real_text(s) matches Some(t) ==> t.len() > 0 && !white(t[0]) && !white(t.last())
            && exists|i: int, j: int|
            0 <= i <= j <= s.len() && #[trigger] s.subrange(i, j) == t && (forall|k: int|
                0 <= k < i || j <= k < s.len() ==> white(#[trigger] s[k])),
        s.len() > 0 && !white(s[0]) && !white(s.last()) ==> real_text(s) == Some(s),
{
    trimming_takes_white_space_off_the_ends(s);
}

/// A duration other than zero and the greatest number means itself; these mean none.
pub proof fn durations_mean_themselves(raw: u32)
    ensures
        real_duration(raw) is None <==> raw == 0 || raw == 0xffff_ffff,
        real_duration(raw) matches Some(d) ==> d == raw,
{
}

/// Trim a metadata string; an empty or whitespace-only value becomes `None`.
pub fn sanitize_text(s: String) -> (out: Option<String>)
    ensures
        opt_view(out) == real_text(s@),
{
    let t = trim(s.as_str());
    if t.as_str().is_empty() {
        None
    } else {
        Some(t)
    }
}

/// A transport control the UI can issue.
#[derive(Debug, Clone, Copy, PartialEq, Eq, Structural)]
pub enum TransportCommand {
    Play,
    Pause,
    Next,
    Previous,
    Stop,
}

impl TransportCommand {
    /// The player method of a command.
    pub open spec fn method(self) -> Seq<char> {
        match self {
            TransportCommand::Play => "Play"@,
            TransportCommand::Pause => "Pause"@,
            TransportCommand::Next => "Next"@,
            TransportCommand::Previous => "Previous"@,
            TransportCommand::Stop => "Stop"@,
        }
    }

    /// The web action of a command.
    pub open spec fn action(self) -> Seq<char> {
        match self {
            TransportCommand::Play => "play"@,
            TransportCommand::Pause => "pause"@,
            TransportCommand::Next => "next"@,
            TransportCommand::Previous => "previous"@,
            TransportCommand::Stop => "stop"@,
        }
    }

    /// The `org.bluez.MediaPlayer1` method name for this command.
    pub fn bluez_method(self) -> (s: &'static str)
        ensures
            s@ == self.method(),
    {
        match self {
            TransportCommand::Play => "Play",
            TransportCommand::Pause => "Pause",
            TransportCommand::Next => "Next",
            TransportCommand::Previous => "Previous",
            TransportCommand::Stop => "Stop",
        }
    }

    /// Parse a web action token (`/api/media/<action>`) into a command.
    pub fn from_action(action: &str) -> (c: Option<Self>)
        ensures
            c is Some ==> c->0.action() == action@,
            c is None ==> forall|k: TransportCommand| #[trigger] k.action() != action@,
    {
        if same(action, "play") {
            Some(TransportCommand::Play)
        } else if same(action, "pause") {
            Some(TransportCommand::Pause)
        } else if same(action, "next") {
            Some(TransportCommand::Next)
        } else if same(action, "previous") {
            Some(TransportCommand::Previous)
        } else if same(action, "stop") {
            Some(TransportCommand::Stop)
        } else {
            None
        }
    }
}

/// Different commands have different web actions.
pub proof fn actions_tell_commands_apart(a: TransportCommand, b: TransportCommand)
    requires
        a.action() == b.action(),
    ensures
        a == b,
{
    reveal_strlit("play");
    reveal_strlit("pause");
    reveal_strlit("next");
    reveal_strlit("previous");
    reveal_strlit("stop");
    assert("play"@[0] == 'p');
    assert("next"@[0] == 'n');
    assert("stop"@[0] == 's');
    assert("play"@.len() == 4);
    assert("next"@.len() == 4);
    assert("stop"@.len() == 4);
    assert("pause"@.len() == 5);
    assert("previous"@.len() == 8);
}

/// The method that a web action calls on a player has its name, with a capital letter.
pub proof fn actions_call_the_method_of_their_name(c: TransportCommand)
    ensures
        c.method().len() == c.action().len() > 0,
        c.method().drop_first() == c.action().drop_first(),
        c.method()[0] as u32 + 0x20 == c.action()[0] as u32,
        0x41 <= c.method()[0] as u32 <= 0x5a,
{
    reveal_strlit("play");
    reveal_strlit("pause");
    reveal_strlit("next");
    reveal_strlit("previous");
    reveal_strlit("stop");
    reveal_strlit("Play");
    reveal_strlit("Pause");
    reveal_strlit("Next");
    reveal_strlit("Previous");
    reveal_strlit("Stop");
    assert(c.method().drop_first() =~= c.action().drop_first());
}

/// Consecutive-failure threshold before the D-Bus connection is re-established:
/// long-running connections silently go stale.
pub const DBUS_FAILURE_THRESHOLD: u32 = 5;

/// Tracks consecutive D-Bus failures.
#[derive(Debug)]
pub struct DbusHealth {
    consecutive_failures: u32,
}

impl View for DbusHealth {
    type V = nat;

    closed spec fn view(&self) -> nat {
        self.consecutive_failures as nat
    }
}

impl Default for DbusHealth {
    fn default() -> (h: Self)
        ensures
            h@ == 0,
    {
        DbusHealth { consecutive_failures: 0 }
    }
}

impl DbusHealth {
    #[verifier::type_invariant]
    spec fn below_threshold(self) -> bool {
        self.consecutive_failures < DBUS_FAILURE_THRESHOLD
    }

    /// No failures yet.
    pub fn new() -> (h: Self)
        ensures
            h@ == 0,
    {
        DbusHealth { consecutive_failures: 0 }
    }

    /// A successful call resets the failure streak.
    pub fn record_success(&mut self)
        ensures
            final(self)@ == 0,
    {
        self.consecutive_failures = 0;
    }

    /// A failed call. Returns `true` when the threshold is reached (reconnect); the
    /// count starts afresh then.
    pub fn record_failure(&mut self) -> (reconnect: bool)
        ensures
            old(self)@ < DBUS_FAILURE_THRESHOLD,
            reconnect == (old(self)@ + 1 == DBUS_FAILURE_THRESHOLD),
            final(self)@ == (if reconnect {
                0
            } else {
                old(self)@ + 1
            }),
    {
        proof {
            use_type_invariant(&*self);
        }
        let n: u32 = self.consecutive_failures + 1;
        if n >= DBUS_FAILURE_THRESHOLD {
            self.consecutive_failures = 0;
            true
        } else {
            self.consecutive_failures = n;
            false
        }
    }

    /// Current consecutive-failure count.
    pub fn failures(&self) -> (n: u32)
        ensures
            n == self@,
    {
        self.consecutive_failures
    }
}

/// The count after `n` failures in a row from a fresh start.
pub open spec fn streak(n: nat) -> nat {
    n % (DBUS_FAILURE_THRESHOLD as nat)
}

/// A streak of failures asks for a reconnection at every fifth of them and at no
/// other.
pub proof fn every_fifth_failure_reconnects(n: nat)
    ensures
        (streak(n) + 1 == DBUS_FAILURE_THRESHOLD) == ((n + 1) % 5 == 0),
        streak(n + 1) == (if streak(n) + 1 == DBUS_FAILURE_THRESHOLD {
            0
        } else {
            streak(n) + 1
        }),
{
}

} // verus!
