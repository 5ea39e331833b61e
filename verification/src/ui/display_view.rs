//! The display: it waits for a source, then for the stream, and then shows the
//! picture.

use vstd::prelude::*;
use crate::events::StreamStats;
use crate::text;
use crate::text::{dec, zero_padded};
use crate::ui::sessions_view::{left_seconds, minutes_and_seconds, whole_minutes};

verus! {

/// What the display shows.
#[derive(Debug, Clone, Copy, PartialEq, Eq, Structural)]
pub enum DisplayState {
    Idle,
    Connected,
    Receiving,
}

/// The name of a page.
pub open spec fn page(s: DisplayState) -> Seq<char> {
    match s {
        DisplayState::Idle => "idle"@,
        DisplayState::Connected => "connected"@,
        DisplayState::Receiving => "receiving"@,
    }
}

impl DisplayState {
    /// The name of the page.
    pub fn name(self) -> (r: &'static str)
        ensures
            r@ == page(self),
    {
        match self {
            DisplayState::Idle => "idle",
            DisplayState::Connected => "connected",
            DisplayState::Receiving => "receiving",
        }
    }
}

/// What the parts of the display show.
#[derive(Debug)]
pub struct DisplayView {
    pub state: DisplayState,
    pub device_label: String,
    pub pin: Option<String>,
    pub source_label: String,
    pub stats_label: String,
    pub stats_shown: bool,
    pub controls_shown: bool,
}

/// The display as contracts see it.
pub struct DisplayModel {
    pub state: DisplayState,
    pub device_label: Seq<char>,
    pub pin: Option<Seq<char>>,
    pub source_label: Seq<char>,
    pub stats_label: Seq<char>,
    pub stats_shown: bool,
    pub controls_shown: bool,
}

impl View for DisplayView {
    type V = DisplayModel;

    open spec fn view(&self) -> DisplayModel {
        DisplayModel {
            state: self.state,
            device_label: self.device_label@,
            pin: match self.pin {
                Some(p) => Some(p@),
                None => None,
            },
            source_label: self.source_label@,
            stats_label: self.stats_label@,
            stats_shown: self.stats_shown,
            controls_shown: self.controls_shown,
        }
    }
}

/// A resolution in words.
pub open spec fn size_text(width: u32, height: u32) -> Seq<char> {
    if width > 0 {
        dec(width as int) + "x"@ + dec(height as int)
    } else {
        "Unknown"@
    }
}

/// A time in minutes and seconds.
pub open spec fn clock_text(duration: int) -> Seq<char> {
    dec(whole_minutes(duration)) + ":"@ + zero_padded(dec(left_seconds(duration)), 2)
}

/// The line of numbers over the picture, with the rate in words.
pub open spec fn stats_text(width: u32, height: u32, mbps: Seq<char>, duration: int) -> Seq<char> {
    size_text(width, height) + " | "@ + mbps + " Mbps | "@ + clock_text(duration)
}

/// The label of the device.
pub open spec fn device_text(name: Seq<char>) -> Seq<char> {
    if name.len() == 0 {
        Seq::empty()
    } else {
        "Discoverable as: "@ + name
    }
}

impl DisplayView {
    /// A display that waits for a source.
    pub fn new() -> (r: DisplayView)
        ensures
            r@ == (DisplayModel {
                state: DisplayState::Idle,
                device_label: Seq::empty(),
                pin: None,
                source_label: Seq::empty(),
                stats_label: Seq::empty(),
                stats_shown: false,
                controls_shown: false,
            }),
    {
        DisplayView {
            state: DisplayState::Idle,
            device_label: String::new(),
            pin: None,
            source_label: String::new(),
            stats_label: String::new(),
            stats_shown: false,
            controls_shown: false,
        }
    }

    /// Waits for a source.
    pub fn set_state_idle(&mut self, device_name: &str)
        ensures
            final(self)@ == (DisplayModel {
                state: DisplayState::Idle,
                device_label: device_text(device_name@),
                stats_shown: false,
                controls_shown: false,
                ..old(self)@
            }),
    {
        self.state = DisplayState::Idle;
        self.device_label = if device_name.is_empty() {
            String::new()
        } else {
            text::joined("Discoverable as: ".to_owned(), device_name)
        };
        self.stats_shown = false;
        self.controls_shown = false;
    }

    /// Shows a PIN.
    pub fn set_pin(&mut self, pin: &str)
        ensures
            final(self)@ == (DisplayModel { pin: Some(pin@), ..old(self)@ }),
    {
        self.pin = Some(pin.to_owned());
    }

    /// Hides the PIN.
    pub fn hide_pin(&mut self)
        ensures
            final(self)@ == (DisplayModel { pin: None, ..old(self)@ }),
    {
        self.pin = None;
    }

    /// Waits for the stream of a source.
    pub fn set_state_connected(&mut self, source_name: &str)
        ensures
            final(self)@ == (DisplayModel {
                state: DisplayState::Connected,
                source_label: source_name@,
                ..old(self)@
            }),
    {
        self.state = DisplayState::Connected;
        self.source_label = source_name.to_owned();
    }

    /// Shows the picture.
    pub fn set_state_receiving(&mut self)
        ensures
            final(self)@ == (DisplayModel {
                state: DisplayState::Receiving,
                stats_shown: true,
                ..old(self)@
            }),
    {
        self.state = DisplayState::Receiving;
        self.stats_shown = true;
    }

    /// The pointer moves: over a picture the controls appear, and the result
    /// says that they are to be hidden after a while.
    pub fn pointer_moved(&mut self) -> (r: bool)
        ensures
            r == (old(self).state == DisplayState::Receiving),
            final(self)@ == (DisplayModel {
                controls_shown: old(self).controls_shown || r,
                ..old(self)@
            }),
    {
        if self.state == DisplayState::Receiving {
            self.controls_shown = true;
            true
        } else {
            false
        }
    }

    /// The pointer has rested: the controls are hidden.
    pub fn pointer_rested(&mut self)
        ensures
            final(self)@ == (DisplayModel { controls_shown: false, ..old(self)@ }),
    {
        self.controls_shown = false;
    }

    /// Shows new numbers over the picture, with the rate in words. Without a
    /// picture nothing changes.
    pub fn update_stats(&mut self, stats: &StreamStats, mbps: &str)
        ensures
            final(self)@ == if old(self).state == DisplayState::Receiving {
                DisplayModel {
                    stats_label: stats_text(
                        stats.resolution.0,
                        stats.resolution.1,
                        mbps@,
                        stats.duration as int,
                    ),
                    ..old(self)@
                }
            } else {
                old(self)@
            },
    {
        if self.state != DisplayState::Receiving {
            return;
        }
        let (w, h): (u32, u32) = stats.resolution;
        let mut out: String = if w > 0 {
            let mut t: String = text::dec_u64(w as u64);
            t.append("x");
            t.append(text::dec_u64(h as u64).as_str());
            t
        } else {
            "Unknown".to_owned()
        };
        out.append(" | ");
        out.append(mbps);
        out.append(" Mbps | ");
        let (m, s): (i64, i64) = minutes_and_seconds(stats.duration);
        let mut clock: String = text::dec_i64(m);
        clock.append(":");
        let secs: Vec<char> = text::padded(text::chars_of(text::dec_i64(s).as_str()), 2);
        clock.append(text::string_of(secs.as_slice()).as_str());
        out.append(clock.as_str());
        self.stats_label = out;
    }
}

/// Whether a click on the picture toggles the whole screen: a double click does.
pub fn click_toggles(presses: i32) -> (r: bool)
    ensures
        r == (presses == 2),
{
    presses == 2
}

/// What a key does to the window.
#[derive(Debug, Clone, Copy, PartialEq, Eq, Structural)]
pub enum KeyEffect {
    Fullscreen,
    Unfullscreen,
    /// The key is not for the window.
    PassOn,
}

/// The keys that matter to the window.
#[derive(Debug, Clone, Copy, PartialEq, Eq, Structural)]
pub enum Key {
    F11,
    Escape,
    Other,
}

/// Decides what a key does: F11 toggles the whole screen, Escape leaves it.
pub fn key_effect(key: Key, is_fullscreen: bool) -> (r: KeyEffect)
    ensures
        r == match (key, is_fullscreen) {
            (Key::F11, true) => KeyEffect::Unfullscreen,
            (Key::F11, false) => KeyEffect::Fullscreen,
            (Key::Escape, true) => KeyEffect::Unfullscreen,
            _ => KeyEffect::PassOn,
        },
{
    match key {
        Key::F11 => if is_fullscreen {
            KeyEffect::Unfullscreen
        } else {
            KeyEffect::Fullscreen
        },
        Key::Escape => if is_fullscreen {
            KeyEffect::Unfullscreen
        } else {
            KeyEffect::PassOn
        },
        Key::Other => KeyEffect::PassOn,
    }
}

} // verus!
