//! The recording session of the application: the toggle command, the
//! hold-to-talk key, the overlay window and the fallback shortcuts.
use vstd::prelude::*;

use crate::capture::AudioCommand;

verus! {

/// Whether the application records.
pub struct Session {
    pub recording: bool,
}

impl Session {
    /// A session that does not record.
    pub fn new() -> (s: Self)
        ensures
            !s.recording,
    {
        Session { recording: false }
    }

    /// The command the toggle sends to the recorder: `Stop` while recording,
    /// `Start` otherwise.
    pub fn toggle_command(&self) -> (cmd: AudioCommand)
        ensures
            self.recording ==> cmd is Stop,
            !self.recording ==> cmd is Start,
    {
        if self.recording {
            AudioCommand::Stop
        } else {
            AudioCommand::Start
        }
    }

    /// After the recorder was asked to start: on success the session
    /// records and the answer is `true`; on failure nothing changes and the
    /// error is reported with its cause.
    pub fn finish_start(&mut self, result: Result<(), String>) -> (r: Result<bool, String>)
        ensures
            result is Ok ==> final(self).recording && r == Ok::<bool, String>(true),
            result is Err ==> final(self).recording == old(self).recording,
            result matches Err(e) ==> (r matches Err(m) && m@ == "开始录音失败: "@ + e@),
    {
        match result {
            Ok(()) => {
                self.recording = true;
                Ok(true)
            },
            Err(e) => {
                let mut v: Vec<char> = Vec::new();
                crate::text::push_str(&mut v, "开始录音失败: ");
                crate::text::push_str(&mut v, e.as_str());
                Err(crate::text::string_from_chars(v.as_slice()))
            },
        }
    }

    /// After the recorder was asked to stop: on success the session no
    /// longer records, and the samples are handed on to be saved unless
    /// there are none; on failure nothing changes and the error is passed on.
    pub fn finish_stop(&mut self, result: Result<Vec<i16>, String>) -> (r: Result<Option<Vec<i16>>, String>)
        ensures
            result matches Ok(data) ==> !final(self).recording && (data@.len() == 0 ==> r matches Ok(None))
                && (data@.len() > 0 ==> (r matches Ok(Some(d)) && d@ == data@)),
            result matches Err(e) ==> final(self).recording == old(self).recording && r == Err::<
                Option<Vec<i16>>,
                String,
            >(e),
    {
        match result {
            Ok(data) => {
                self.recording = false;
                if data.len() == 0 {
                    Ok(None)
                } else {
                    Ok(Some(data))
                }
            },
            Err(e) => Err(e),
        }
    }

    /// After the hold-to-talk key asked the recorder to start: the session
    /// records if the recorder started.
    pub fn finish_hold_start(&mut self, started: bool)
        ensures
            final(self).recording == (old(self).recording || started),
    {
        if started {
            self.recording = true;
        }
    }

    /// After the hold-to-talk key asked the recorder to stop: the session
    /// no longer records, whatever the recorder answered; a failure counts
    /// as an empty recording.
    pub fn finish_hold_stop(&mut self, result: Result<Vec<i16>, String>) -> (data: Vec<i16>)
        ensures
            !final(self).recording,
            result matches Ok(d) ==> data@ == d@,
            result is Err ==> data@.len() == 0,
    {
        self.recording = false;
        match result {
            Ok(d) => d,
            Err(_) => Vec::new(),
        }
    }
}

/// State of the hold-to-talk key.
pub struct HoldKey {
    pub pressed: bool,
}

/// A key-down event: the key is now held; recording starts only on the
/// first key-down of a press (not on repeats) and only when none runs.
pub open spec fn press_starts(pressed: bool, recording: bool) -> bool {
    !pressed && !recording
}

/// A key-up event: the key is released; recording stops only when the key
/// was held and a recording runs.
pub open spec fn release_stops(pressed: bool, recording: bool) -> bool {
    pressed && recording
}

impl HoldKey {
    /// A key that is not held.
    pub fn new() -> (k: Self)
        ensures
            !k.pressed,
    {
        HoldKey { pressed: false }
    }

    /// Key-down: returns whether to start recording.
    pub fn on_press(&mut self, recording: bool) -> (start: bool)
        ensures
            final(self).pressed,
            start == press_starts(old(self).pressed, recording),
    {
        let was = self.pressed;
        self.pressed = true;
        !was && !recording
    }

    /// Key-up: returns whether to stop recording.
    pub fn on_release(&mut self, recording: bool) -> (stop: bool)
        ensures
            !final(self).pressed,
            stop == release_stops(old(self).pressed, recording),
    {
        let was = self.pressed;
        self.pressed = false;
        was && recording
    }
}

/// Holding the key down, however often the key-down repeats, starts at most
/// one recording: after a key-down the key is held, and a further key-down
/// starts nothing.
pub proof fn lemma_repeat_press_starts_once(recording: bool)
    ensures
        !press_starts(true, recording),
{
}

/// A press and release of the key, with the recorder starting, records from
/// the press to the release: the release stops the recording the press
/// started.
pub proof fn lemma_press_release_round_trip(recording: bool)
    requires
        !recording,
    ensures
        press_starts(false, recording),
        release_stops(true, true),
{
}

/// The key never starts a second recording while one runs, nor on a
/// repeated key-down; a release stops nothing unless the key was held and a
/// recording runs; the first key-down with nothing recording starts one, and
/// its release stops a running one.
pub proof fn lemma_hold_key_rules(pressed: bool, recording: bool)
    ensures
        recording ==> !press_starts(pressed, recording),
        pressed ==> !press_starts(pressed, recording),
        !pressed ==> !release_stops(pressed, recording),
        !recording ==> !release_stops(pressed, recording),
        press_starts(false, false),
        release_stops(true, true),
{
}

/// What the overlay window does when the recording state is looked at
/// again: shown when recording began, hidden when it ended, left alone
/// otherwise.
pub fn overlay_change(was_recording: bool, is_recording: bool) -> (show: Option<bool>)
    ensures
        was_recording == is_recording ==> show is None,
        was_recording != is_recording ==> show == Some(is_recording),
{
    if was_recording == is_recording {
        None
    } else {
        Some(is_recording)
    }
}

/// The global shortcuts the toggle is registered under, in order of
/// preference.
#[derive(Clone, Copy)]
pub enum Shortcut {
    F4,
    F2,
    F3,
}

/// The shortcut tried first.
pub fn first_shortcut() -> (s: Shortcut)
    ensures
        s is F4,
{
    Shortcut::F4
}

/// The shortcut tried when registering `failed` did not succeed.
pub fn next_shortcut(failed: Shortcut) -> (next: Option<Shortcut>)
    ensures
        failed is F4 ==> next matches Some(Shortcut::F2),
        failed is F2 ==> next matches Some(Shortcut::F3),
        failed is F3 ==> next is None,
{
    match failed {
        Shortcut::F4 => Some(Shortcut::F2),
        Shortcut::F2 => Some(Shortcut::F3),
        Shortcut::F3 => None,
    }
}

/// The key name of a shortcut.
pub fn shortcut_name(s: Shortcut) -> (name: &'static str)
    ensures
        s is F4 ==> name@ == "F4"@,
        s is F2 ==> name@ == "F2"@,
        s is F3 ==> name@ == "F3"@,
{
    match s {
        Shortcut::F4 => "F4",
        Shortcut::F2 => "F2",
        Shortcut::F3 => "F3",
    }
}

} // verus!
