//! The lines that the idle diagnostic prints: one per poll.

use vstd::prelude::*;
use vstd::string::*;
use crate::config::IdleDetectionConfig;
use crate::idle_detector::{is_on_denylist, on_denylist};
use crate::text::{decimal, decimal_text, pad_right, padded};

verus! {

/// The local time of day as it heads a line: two digits each for the hour, the
/// minute and the second, colons between them.
pub open spec fn is_time_of_day(s: Seq<char>) -> bool {
    &&& s.len() == 8
    &&& forall|i: int|
        0 <= i < 8 ==> if i == 2 || i == 5 {
            #[trigger] s[i] == ':'
        } else {
            '0' <= s[i] && s[i] <= '9'
        }
}

/// `chrono::Local::now`, written by `format` with `%H:%M:%S`: the local time of
/// day. Which one depends on the clock and the time zone; its form does not.
#[verifier::external_body]
fn local_time_of_day() -> (r: String)
    ensures
        is_time_of_day(r@),
{
    chrono::Local::now().format("%H:%M:%S").to_string()
}

/// What one poll showed.
#[derive(Debug)]
pub struct Reading {
    /// Whether the poll announced a free moment.
    pub fired: bool,
    /// The milliseconds since the last input.
    pub input_ms: u64,
    /// The name of the foreground process, empty where there is none.
    pub process: String,
    pub fullscreen: bool,
    /// The whole seconds that the user has been free without the free moment being
    /// announced, as text.
    pub debounce: Option<String>,
}

impl Reading {
    /// There was input within the presence threshold.
    pub open spec fn present(self, config: IdleDetectionConfig) -> bool {
        self.input_ms < config.presence_threshold_seconds * 1000
    }

    /// What is remarked about the poll.
    pub open spec fn note(self, config: IdleDetectionConfig) -> Seq<char> {
        if self.fired {
            "*** FREE MOMENT ***"@
        } else if !self.present(config) {
            "user away"@
        } else if self.fullscreen {
            "fullscreen"@
        } else if on_denylist(config, self.process@) {
            "denylist"@
        } else {
            ""@
        }
    }

    /// How far the debounce span has come.
    pub open spec fn debounce_column(self, config: IdleDetectionConfig) -> Seq<char> {
        match self.debounce {
            Some(seconds) => seconds@ + "/"@ + decimal(config.debounce_seconds as nat) + "s"@,
            None => "-"@,
        }
    }

    /// The foreground process, or a dash.
    pub open spec fn process_column(self) -> Seq<char> {
        if self.process@.len() == 0 {
            "-"@
        } else {
            self.process@
        }
    }

    /// The line for the poll, headed by the time.
    pub open spec fn line(self, time: Seq<char>, config: IdleDetectionConfig) -> Seq<char> {
        "["@ + time + "]  "@ + padded(flag(self.present(config)), 7) + "  "@ + padded(
            flag(self.fullscreen),
            6,
        ) + "  "@ + padded(self.process_column(), 22) + "  "@ + padded(
            self.debounce_column(config),
            11,
        ) + "  "@ + self.note(config)
    }

    /// What is remarked about the poll.
    pub fn note_text(&self, config: &IdleDetectionConfig) -> (r: &'static str)
        requires
            config.threshold_fits(),
        ensures
            r@ == self.note(*config),
    {
        if self.fired {
            "*** FREE MOMENT ***"
        } else if self.input_ms >= config.presence_threshold_seconds * 1000 {
            "user away"
        } else if self.fullscreen {
            "fullscreen"
        } else if is_on_denylist(config, self.process.as_str()) {
            "denylist"
        } else {
            ""
        }
    }

    /// The line for the poll, headed by the local time of day.
    pub fn status_line(&self, config: &IdleDetectionConfig) -> (r: String)
        requires
            config.threshold_fits(),
        ensures
            exists|time: Seq<char>|
                is_time_of_day(time) && r@ == #[trigger] self.line(time, *config),
    {
        let time = local_time_of_day();
        self.status_line_at(time.as_str(), config)
    }

    /// The line for the poll, headed by the given time.
    pub fn status_line_at(&self, time: &str, config: &IdleDetectionConfig) -> (r: String)
        requires
            config.threshold_fits(),
        ensures
            r@ == self.line(time@, *config),
    {
        let present = self.input_ms < config.presence_threshold_seconds * 1000;
        let mut column = String::new();
        match &self.debounce {
            Some(seconds) => {
                column.append(seconds.as_str());
                column.append("/");
                column.append(decimal_text(config.debounce_seconds).as_str());
                column.append("s");
            },
            None => {
                column.append("-");
            },
        }
        proof {
            let empty = Seq::<char>::empty();
            if let Some(seconds) = &self.debounce {
                assert(empty + seconds@ =~= seconds@);
            }
            assert(empty + "-"@ =~= "-"@);
        }
        assert(column@ == self.debounce_column(*config));
        let mut r = String::new();
        r.append("[");
        assert(r@ =~= "["@);
        r.append(time);
        r.append("]  ");
        r.append(pad_right(flag_text(present), 7).as_str());
        r.append("  ");
        r.append(pad_right(flag_text(self.fullscreen), 6).as_str());
        r.append("  ");
        if self.process.as_str().is_empty() {
            r.append(pad_right("-", 22).as_str());
        } else {
            r.append(pad_right(self.process.as_str(), 22).as_str());
        }
        r.append("  ");
        r.append(pad_right(column.as_str(), 11).as_str());
        r.append("  ");
        r.append(self.note_text(config));
        r
    }
}

/// How a truth value is written.
pub open spec fn flag(b: bool) -> Seq<char> {
    if b {
        "true"@
    } else {
        "false"@
    }
}

/// How a truth value is written.
fn flag_text(b: bool) -> (r: &'static str)
    ensures
        r@ == flag(b),
{
    if b {
        "true"
    } else {
        "false"
    }
}

/// The first line: what is printed, and how it ends.
pub fn banner(config: &IdleDetectionConfig) -> (r: String)
    ensures
        r@ == "idle_check - 1 s poll  |  debounce: "@ + decimal(config.debounce_seconds as nat)
            + " s  |  Ctrl+C to exit"@,
{
    let mut r = String::new();
    r.append("idle_check - 1 s poll  |  debounce: ");
    assert(r@ =~= "idle_check - 1 s poll  |  debounce: "@);
    r.append(decimal_text(config.debounce_seconds).as_str());
    r.append(" s  |  Ctrl+C to exit");
    r
}

/// The names of the columns.
pub fn header() -> (r: String)
    ensures
        r@ == padded("time"@, 10) + "  "@ + padded("present"@, 7) + "  "@ + padded("fullsc"@, 6)
            + "  "@ + padded("foreground"@, 22) + "  "@ + padded("debounce"@, 11) + "  "@
            + "note"@,
{
    let mut r = pad_right("time", 10);
    r.append("  ");
    r.append(pad_right("present", 7).as_str());
    r.append("  ");
    r.append(pad_right("fullsc", 6).as_str());
    r.append("  ");
    r.append(pad_right("foreground", 22).as_str());
    r.append("  ");
    r.append(pad_right("debounce", 11).as_str());
    r.append("  ");
    r.append("note");
    r
}

}
