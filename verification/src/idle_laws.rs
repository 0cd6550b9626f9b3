//! What holds of free moments: who is taken for free, and when that is announced.

use vstd::prelude::*;
use crate::config::IdleDetectionConfig;
use crate::idle_check::{flag, header, Reading};
use crate::idle_detector::{
    fires, foreground_is_fullscreen, foreground_pid, is_on_denylist, last_input_elapsed_ms,
    law_announced_once_while_free, on_denylist, polled, settled, state_after, IdleDetector, Poll,
    Sample, State, WindowRect,
};
use crate::text::{decimal, padded, same_ignoring_ascii_case, views};
use crate::text_laws::{
    alike, law_case_is_ignored_letter_by_letter, law_texts_are_padded_with_spaces,
};

verus! {

/// The texts are of one length and alike at each place.
pub open spec fn spelled_alike(a: Seq<char>, b: Seq<char>) -> bool {
    a.len() == b.len() && forall|i: int| 0 <= i < a.len() ==> alike(#[trigger] a[i], b[i])
}

/// The nanoseconds that have passed from one reading of the clock to another.
pub open spec fn passed(since: u64, now: u64) -> int {
    if now >= since {
        now - since
    } else {
        0
    }
}

/// While a process stands in front whose name is spelled like any entry of the
/// denylist, the user is not free: a poll announces nothing and starts over.
pub proof fn law_every_entry_of_the_denylist_blocks(
    config: IdleDetectionConfig,
    sample: Sample,
    i: int,
    state: State,
    now: u64,
)
    requires
        0 <= i < config.heavy_process_denylist@.len(),
        sample.foreground matches Some(name) && spelled_alike(
            name@,
            config.heavy_process_denylist@[i]@,
        ),
    ensures
        sample.heavy(config),
        !sample.free(config),
        polled(state, config.debounce_seconds as int, sample.free(config), now) == (
            State::Blocked,
            false,
        ),
{
    let name = sample.foreground->0@;
    law_case_is_ignored_letter_by_letter(name, config.heavy_process_denylist@[i]@);
    assert(same_ignoring_ascii_case(name, config.heavy_process_denylist@[i]@));
}

/// The user is free exactly if there was input within the presence threshold, no
/// window covers the screen, and the name of the process in front, if there is one,
/// is spelled like no entry of the denylist.
pub proof fn law_who_is_free(config: IdleDetectionConfig, sample: Sample)
    ensures
        sample.free(config) <==> {
            &&& sample.last_input_ms < config.presence_threshold_seconds * 1000
            &&& !sample.fullscreen
            &&& sample.foreground matches Some(name) ==> forall|i: int|
                0 <= i < config.heavy_process_denylist@.len() ==> !spelled_alike(
                    name@,
                    #[trigger] config.heavy_process_denylist@[i]@,
                )
        },
{
    if let Some(name) = sample.foreground {
        assert forall|i: int| 0 <= i < config.heavy_process_denylist@.len() implies (
        same_ignoring_ascii_case(name@, #[trigger] config.heavy_process_denylist@[i]@)
            <==> spelled_alike(name@, config.heavy_process_denylist@[i]@)) by {
            law_case_is_ignored_letter_by_letter(name@, config.heavy_process_denylist@[i]@);
        }
    }
}

/// What a detector tells of a sample is what decides whether the user is free: the
/// two answers are together the truth, and neither looks at what the other is for.
pub proof fn law_the_answers_of_a_detector(
    detector: IdleDetector,
    sample: Sample,
    present: bool,
    heavy: bool,
    shown: (u64, String, bool),
)
    requires
        detector@.config.threshold_fits(),
        call_ensures(IdleDetector::is_user_present, (&detector, &sample), present),
        call_ensures(IdleDetector::is_heavy_app_foreground, (&detector, &sample), heavy),
        call_ensures(IdleDetector::diagnostics, (&detector, &sample), shown),
    ensures
        sample.free(detector@.config) <==> present && !heavy,
        present <==> sample.last_input_ms < detector@.config.presence_threshold_seconds * 1000,
        sample.fullscreen ==> heavy,
        !sample.fullscreen && sample.foreground is None ==> !heavy,
        shown.0 == sample.last_input_ms,
        shown.2 == sample.fullscreen,
        sample.foreground matches Some(name) ==> shown.1@ == name@,
        sample.foreground is None ==> shown.1@.len() == 0,
{
}

/// By default, while OBS or Premiere stands in front, in any case of the letters, the
/// user is not free. Nor is anybody free whose last input is two minutes old.
pub proof fn law_who_is_free_by_default(config: IdleDetectionConfig, sample: Sample)
    requires
        config.is_default(),
    ensures
        sample.foreground matches Some(name) ==> (spelled_alike(name@, "obs64.exe"@)
            || spelled_alike(name@, "premiere.exe"@) ==> !sample.free(config)),
        sample.last_input_ms >= 120_000 ==> !sample.free(config),
        sample.fullscreen ==> !sample.free(config),
        sample.last_input_ms < 120_000 && !sample.fullscreen && (
        sample.foreground matches Some(name) ==> !spelled_alike(name@, "obs64.exe"@)
            && !spelled_alike(name@, "premiere.exe"@)) ==> sample.free(config),
        config.debounce_seconds == 15,
{
    let list = config.heavy_process_denylist@;
    assert(views(list).len() == 2);
    assert(views(list)[0] == list[0]@);
    assert(views(list)[1] == list[1]@);
    law_who_is_free(config, sample);
    assert forall|i: int| 0 <= i < list.len() implies #[trigger] list[i]@ == "obs64.exe"@
        || list[i]@ == "premiere.exe"@ by {
        assert(i == 0 || i == 1);
    }
}

/// A process is on the denylist exactly if its name is spelled like one of the
/// entries.
pub proof fn law_what_is_on_the_denylist(config: IdleDetectionConfig, name: &str, listed: bool)
    requires
        call_ensures(is_on_denylist, (&config, name), listed),
    ensures
        listed <==> exists|i: int|
            0 <= i < config.heavy_process_denylist@.len() && spelled_alike(
                name@,
                #[trigger] config.heavy_process_denylist@[i]@,
            ),
{
    assert forall|i: int| 0 <= i < config.heavy_process_denylist@.len() implies (
    same_ignoring_ascii_case(name@, #[trigger] config.heavy_process_denylist@[i]@)
        <==> spelled_alike(name@, config.heavy_process_denylist@[i]@)) by {
        law_case_is_ignored_letter_by_letter(name@, config.heavy_process_denylist@[i]@);
    }
}

/// A poll announces a free moment exactly if the user is free and has been so, without
/// an announcement, for as many thousand millions of nanoseconds as the span has
/// seconds. One who becomes free is watched from then on, one who is not free any more
/// is not, and after the announcement nothing changes while the user stays free.
pub proof fn law_what_a_poll_does(state: State, debounce_seconds: int, free: bool, now: u64)
    ensures
        ({
            let (next, announced) = polled(state, debounce_seconds, free, now);
            &&& announced <==> free && (state matches State::Debouncing(since) && passed(
                since,
                now,
            ) >= debounce_seconds * 1_000_000_000)
            &&& !free ==> next == State::Blocked
            &&& free && state is Blocked ==> next == State::Debouncing(now)
            &&& free && state is Debouncing && !announced ==> next == state
            &&& announced ==> next == State::Fired
            &&& free && state is Fired ==> next == State::Fired
        }),
{
}

/// While the user stays free from the first poll on, the free moment is announced at
/// the first poll that comes the whole span after it, and at no other.
pub proof fn law_announced_when_the_span_has_passed(
    polls: Seq<Poll>,
    debounce_seconds: int,
    k: int,
)
    requires
        forall|i: int| 0 <= i < polls.len() ==> (#[trigger] polls[i]).free,
        0 <= k < polls.len(),
    ensures
        fires(State::Blocked, debounce_seconds, polls, k) <==> 0 < k && passed(
            polls[0].now,
            polls[k].now,
        ) >= debounce_seconds * 1_000_000_000 && forall|i: int|
            0 < i < k ==> passed(polls[0].now, (#[trigger] polls[i]).now) < debounce_seconds
                * 1_000_000_000,
{
    law_announced_once_while_free(polls, debounce_seconds, k);
    if forall|i: int| 0 <= i < k ==> !#[trigger] settled(polls, debounce_seconds, i) {
        assert forall|i: int| 0 < i < k implies passed(polls[0].now, (#[trigger] polls[i]).now)
            < debounce_seconds * 1_000_000_000 by {
            assert(!settled(polls, debounce_seconds, i));
        }
    }
}

/// The user was found free at every poll from `j` to `k`.
pub open spec fn free_between(polls: Seq<Poll>, j: int, k: int) -> bool {
    0 <= j <= k < polls.len() && forall|i: int| j <= i <= k ==> (#[trigger] polls[i]).free
}

proof fn lemma_watched_since(polls: Seq<Poll>, debounce_seconds: int, k: int)
    requires
        0 < k <= polls.len(),
    ensures
        state_after(State::Blocked, debounce_seconds, polls.take(k)) matches State::Debouncing(
            since,
        ) ==> exists|j: int| #[trigger] free_between(polls, j, k - 1) && polls[j].now == since,
    decreases k,
{
    let before = state_after(State::Blocked, debounce_seconds, polls.take(k - 1));
    assert(polls.take(k).drop_last() =~= polls.take(k - 1));
    assert(polls.take(k).last() == polls[k - 1]);
    if k > 1 {
        lemma_watched_since(polls, debounce_seconds, k - 1);
    }
    if polls[k - 1].free {
        if let State::Debouncing(since) = before {
            if k > 1 {
                let j = choose|j: int| #[trigger]
                    free_between(polls, j, k - 2) && polls[j].now == since;
                assert(free_between(polls, j, k - 1));
            }
        } else {
            assert(free_between(polls, k - 1, k - 1));
        }
    }
}

/// Nothing is announced without a whole span of being free: at each announcement
/// there is an earlier poll, at least the span before it, from which on the user was
/// found free every time.
pub proof fn law_announced_only_after_a_free_span(
    polls: Seq<Poll>,
    debounce_seconds: int,
    k: int,
)
    requires
        0 <= k < polls.len(),
        fires(State::Blocked, debounce_seconds, polls, k),
    ensures
        exists|j: int|
            j < k && #[trigger] free_between(polls, j, k) && passed(polls[j].now, polls[k].now)
                >= debounce_seconds * 1_000_000_000,
{
    assert(polls.take(0) =~= Seq::empty());
    if k > 0 {
        lemma_watched_since(polls, debounce_seconds, k);
        let since = state_after(
            State::Blocked,
            debounce_seconds,
            polls.take(k),
        )->Debouncing_0;
        let j = choose|j: int| #[trigger] free_between(polls, j, k - 1) && polls[j].now == since;
        assert(free_between(polls, j, k));
    }
}

/// The age of the last input and its tick add up to the current tick. An input that
/// is not known, or that lies ahead, has no age.
pub proof fn law_the_age_of_an_input(tick: u32, tick_now: u64, known: u64, unknown: u64)
    requires
        call_ensures(last_input_elapsed_ms, (Some(tick), tick_now), known),
        call_ensures(last_input_elapsed_ms, (None::<u32>, tick_now), unknown),
    ensures
        tick <= tick_now ==> known + tick == tick_now,
        tick > tick_now ==> known == 0,
        unknown == 0,
{
}

/// A window that covers the screen from corner to corner is in full screen, wherever
/// it is moved to. One that lacks a column or a row is not, nor is no window.
pub proof fn law_what_covers_the_screen(
    left: i32,
    top: i32,
    width: i32,
    height: i32,
    whole: bool,
    narrow: bool,
    low: bool,
    none: bool,
)
    requires
        0 < width,
        0 < height,
        0 <= left <= i32::MAX - width,
        0 <= top <= i32::MAX - height,
        call_ensures(
            foreground_is_fullscreen,
            (
                Some(
                    WindowRect {
                        left,
                        top,
                        right: (left + width) as i32,
                        bottom: (top + height) as i32,
                    },
                ),
                width,
                height,
            ),
            whole,
        ),
        call_ensures(
            foreground_is_fullscreen,
            (
                Some(
                    WindowRect {
                        left,
                        top,
                        right: (left + width - 1) as i32,
                        bottom: (top + height) as i32,
                    },
                ),
                width,
                height,
            ),
            narrow,
        ),
        call_ensures(
            foreground_is_fullscreen,
            (
                Some(
                    WindowRect {
                        left,
                        top,
                        right: (left + width) as i32,
                        bottom: (top + height - 1) as i32,
                    },
                ),
                width,
                height,
            ),
            low,
        ),
        call_ensures(foreground_is_fullscreen, (None::<WindowRect>, width, height), none),
    ensures
        whole,
        !narrow,
        !low,
        !none,
{
}

/// A process is in front exactly if there is a window and a process, and then it is
/// that process.
pub proof fn law_which_process_is_in_front(window: isize, pid: u32, r: Option<u32>)
    requires
        call_ensures(foreground_pid, (window, pid), r),
    ensures
        r is Some <==> window != 0 && pid != 0,
        r is Some ==> r->0 == pid,
{
}

/// What is remarked about a poll says why the user is not free: an announcement comes
/// first, then absence, then a window that covers the screen, then a process that is
/// spelled like an entry of the denylist. Nothing is remarked about anybody else.
pub proof fn law_what_is_remarked(reading: Reading, config: IdleDetectionConfig)
    ensures
        ({
            let away = reading.input_ms >= config.presence_threshold_seconds * 1000;
            let denied = exists|i: int|
                0 <= i < config.heavy_process_denylist@.len() && spelled_alike(
                    reading.process@,
                    #[trigger] config.heavy_process_denylist@[i]@,
                );
            let note = reading.note(config);
            &&& reading.fired ==> note == "*** FREE MOMENT ***"@
            &&& !reading.fired && away ==> note == "user away"@
            &&& !reading.fired && !away && reading.fullscreen ==> note == "fullscreen"@
            &&& !reading.fired && !away && !reading.fullscreen && denied ==> note == "denylist"@
            &&& !reading.fired && !away && !reading.fullscreen && !denied ==> note.len() == 0
        }),
{
    reveal_strlit("");
    assert forall|i: int| 0 <= i < config.heavy_process_denylist@.len() implies (
    same_ignoring_ascii_case(reading.process@, #[trigger] config.heavy_process_denylist@[i]@)
        <==> spelled_alike(reading.process@, config.heavy_process_denylist@[i]@)) by {
        law_case_is_ignored_letter_by_letter(
            reading.process@,
            config.heavy_process_denylist@[i]@,
        );
    }
    assert(on_denylist(config, reading.process@) <==> exists|i: int|
        0 <= i < config.heavy_process_denylist@.len() && spelled_alike(
            reading.process@,
            #[trigger] config.heavy_process_denylist@[i]@,
        ));
}

/// A line starts with the time in brackets and ends in the remark.
pub proof fn law_a_line_starts_with_the_time_and_ends_in_the_remark(
    reading: Reading,
    time: Seq<char>,
    config: IdleDetectionConfig,
)
    ensures
        ({
            let line = reading.line(time, config);
            let note = reading.note(config);
            &&& line.len() >= time.len() + note.len() + 2
            &&& line[0] == '['
            &&& line.subrange(1, 1 + time.len() as int) == time
            &&& line[1 + time.len() as int] == ']'
            &&& line.skip(line.len() - note.len()) == note
        }),
{
    reveal_strlit("[");
    reveal_strlit("]  ");
    let line = reading.line(time, config);
    let note = reading.note(config);
    assert(line.subrange(1, 1 + time.len() as int) =~= time);
    assert(line.skip(line.len() - note.len()) =~= note);
}

/// A detector tells how long the user has been watched as free: the reading of the clock at
/// which that began and the answer add up to the current one. Where nobody is watched, it
/// tells nothing. A free moment goes on exactly from its announcement on.
pub proof fn law_how_long_the_user_has_been_free(
    detector: IdleDetector,
    now: u64,
    waited: Option<u64>,
    active: bool,
)
    requires
        call_ensures(IdleDetector::debounce_elapsed_at, (&detector, now), waited),
        call_ensures(IdleDetector::is_free_moment_active, (&detector,), active),
    ensures
        detector@.state matches State::Debouncing(since) ==> waited is Some && waited->0 == passed(
            since,
            now,
        ),
        !(detector@.state is Debouncing) ==> waited is None,
        active <==> detector@.state is Fired,
{
}

/// The columns of a line stand under their names, where what they hold fits into them:
/// whether the user is present, whether a window covers the screen, the process in front,
/// how far the span has come, and the remark.
pub proof fn law_the_columns_stand_under_their_names(
    reading: Reading,
    time: Seq<char>,
    config: IdleDetectionConfig,
    head: String,
)
    requires
        call_ensures(header, (), head),
        time.len() == 8,
        reading.process@.len() <= 22,
        reading.debounce is None,
    ensures
        ({
            let line = reading.line(time, config);
            let present = if reading.input_ms < config.presence_threshold_seconds * 1000 {
                "true"@
            } else {
                "false"@
            };
            let full = if reading.fullscreen {
                "true"@
            } else {
                "false"@
            };
            let process = if reading.process@.len() == 0 {
                "-"@
            } else {
                reading.process@
            };
            &&& line.subrange(12, 12 + present.len() as int) == present
            &&& line.subrange(21, 21 + full.len() as int) == full
            &&& line.subrange(29, 29 + process.len() as int) == process
            &&& line.subrange(53, 54) == "-"@
            &&& line.skip(66) == reading.note(config)
            &&& head@.subrange(0, 4) == "time"@
            &&& head@.subrange(12, 19) == "present"@
            &&& head@.subrange(21, 27) == "fullsc"@
            &&& head@.subrange(29, 39) == "foreground"@
            &&& head@.subrange(53, 61) == "debounce"@
            &&& head@.skip(66) == "note"@
        }),
{
    reveal_strlit("[");
    reveal_strlit("]  ");
    reveal_strlit("  ");
    reveal_strlit("-");
    reveal_strlit("true");
    reveal_strlit("false");
    reveal_strlit("time");
    reveal_strlit("present");
    reveal_strlit("fullsc");
    reveal_strlit("foreground");
    reveal_strlit("debounce");
    reveal_strlit("note");
    let line = reading.line(time, config);
    let present = flag(reading.present(config));
    let full = flag(reading.fullscreen);
    let process = reading.process_column();
    lemma_column(present, 7);
    lemma_column(full, 6);
    lemma_column(process, 22);
    lemma_column("-"@, 11);
    lemma_column("time"@, 10);
    lemma_column("present"@, 7);
    lemma_column("fullsc"@, 6);
    lemma_column("foreground"@, 22);
    lemma_column("debounce"@, 11);
    assert(line.subrange(12, 12 + present.len() as int) =~= present);
    assert(line.subrange(21, 21 + full.len() as int) =~= full);
    assert(line.subrange(29, 29 + process.len() as int) =~= process);
    assert(line.subrange(53, 54) =~= "-"@);
    assert(line.skip(66) =~= reading.note(config));
    assert(head@.subrange(0, 4) =~= "time"@);
    assert(head@.subrange(12, 19) =~= "present"@);
    assert(head@.subrange(21, 27) =~= "fullsc"@);
    assert(head@.subrange(29, 39) =~= "foreground"@);
    assert(head@.subrange(53, 61) =~= "debounce"@);
    assert(head@.skip(66) =~= "note"@);
}

proof fn lemma_column(s: Seq<char>, width: int)
    requires
        s.len() <= width,
    ensures
        padded(s, width).len() == width,
        forall|i: int| 0 <= i < s.len() ==> #[trigger] padded(s, width)[i] == s[i],
{
    law_texts_are_padded_with_spaces(s, width);
    assert forall|i: int| 0 <= i < s.len() implies #[trigger] padded(s, width)[i] == s[i] by {
        assert(padded(s, width).take(s.len() as int)[i] == padded(s, width)[i]);
    }
}

/// How far the span has come is told in seconds, out of as many as the span has.
pub proof fn law_how_the_span_is_told(reading: Reading, config: IdleDetectionConfig)
    ensures
        reading.debounce is None ==> reading.debounce_column(config) == "-"@,
        reading.debounce matches Some(seconds) ==> reading.debounce_column(config) == seconds@ + "/"@
            + decimal(config.debounce_seconds as nat) + "s"@,
{
}

}
