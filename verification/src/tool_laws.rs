//! What holds of the frames of messages, of night mode, and of freeing memory.

use vstd::prelude::*;
use crate::bridge::{
    contents, frame, framed, le_bytes, le_value, lemma_le_round, messages_in, reads_on, received,
    Delivery, FrameReader, Part,
};
use crate::config::{Config, RabbitHoleConfig};
use crate::night_mode::{
    look, react, reaction, FilterStep, Look, NightMode, NightState, Reaction, Shutdown, TrayInput,
};
use crate::ram_flush::{
    answered_yes, create_args, first_step, following, freed, megabytes, memory_commands, mode_of,
    next_step, query_args, report_text, trigger_args, Mode, Step,
};
use crate::summary_laws::holds;
use crate::text::{decimal, views};

verus! {

/// The frame of a message is four bytes that hold its length, the least significant one
/// first, and then its bytes.
pub proof fn law_what_a_frame_holds(payload: Vec<u8>, r: Vec<u8>)
    requires
        call_ensures(frame, (&payload,), r),
        payload@.len() < 0x1_0000_0000,
    ensures
        r@.len() == payload@.len() + 4,
        r@[0] + 256 * r@[1] + 65_536 * r@[2] + 16_777_216 * r@[3] == payload@.len(),
        forall|i: int| 0 <= i < payload@.len() ==> r@[4 + i] == #[trigger] payload@[i],
        r@ == framed(payload@),
{
    lemma_le_round(payload@.len());
    assert(r@.take(4) =~= le_bytes(payload@.len()));
    assert(le_value(r@.take(4)) == payload@.len());
}

/// A message is read from a header that holds its length and from as many bytes after it;
/// what follows is read in the same way. A header or a message that is cut off gives
/// nothing.
pub proof fn law_how_a_message_is_read(header: Seq<u8>, payload: Seq<u8>, rest: Seq<u8>)
    requires
        header.len() == 4,
        header[0] + 256 * header[1] + 65_536 * header[2] + 16_777_216 * header[3]
            == payload.len(),
    ensures
        received((header + payload) + rest, Part::Header) == seq![payload] + received(
            rest,
            Part::Header,
        ),
        forall|n: int|
            0 <= n < 4 + payload.len() ==> (#[trigger] received(
                (header + payload).take(n),
                Part::Header,
            )).len() == 0,
{
    let input = (header + payload) + rest;
    assert(input.take(4) =~= header);
    assert(input.skip(4) =~= payload + rest);
    assert((payload + rest).take(payload.len() as int) =~= payload);
    assert((payload + rest).skip(payload.len() as int) =~= rest);
    let part = Part::Payload(payload.len() as usize);
    assert(payload.len() <= usize::MAX);
    assert(received(payload + rest, part) == seq![payload] + received(rest, Part::Header));
    assert forall|n: int| 0 <= n < 4 + payload.len() implies (#[trigger] received(
        (header + payload).take(n),
        Part::Header,
    )).len() == 0 by {
        let cut = (header + payload).take(n);
        if n >= 4 {
            assert(cut.take(4) =~= header);
            assert(cut.skip(4).len() < payload.len());
            assert(received(cut.skip(4), part).len() == 0);
        }
    }
}

/// Reading goes on after every message, also after one that is not understood, until
/// nobody receives messages any more.
pub proof fn law_when_reading_goes_on(sent: bool, unknown: bool, gone: bool)
    requires
        call_ensures(reads_on, (Delivery::Sent,), sent),
        call_ensures(reads_on, (Delivery::Unrecognised,), unknown),
        call_ensures(reads_on, (Delivery::ReceiverGone,), gone),
    ensures
        sent,
        unknown,
        !gone,
{
}

/// The hotkey, a signal of another instance, a left click and the menu item toggle the
/// mode; the end of the message loop and the other menu item end the program; nothing else
/// does anything. The number of a hotkey counts modulo two to the power of 32.
pub proof fn law_what_toggles_and_what_ends(message: u32, wparam: usize)
    ensures
        reaction(TrayInput::Message { message, wparam }) is Exit <==> message == 18,
        reaction(TrayInput::Message { message, wparam }) is Toggle <==> message == 786
            && wparam as int % 4_294_967_296 == 9001,
        reaction(TrayInput::Signal(true)) is Toggle,
        reaction(TrayInput::Signal(false)) is Nothing,
        reaction(TrayInput::Click { left: true }) is Toggle,
        reaction(TrayInput::Click { left: false }) is Nothing,
        reaction(TrayInput::MenuToggle) is Toggle,
        reaction(TrayInput::MenuExit) is Exit,
        reaction(TrayInput::MenuOther) is Nothing,
{
}

/// What the tray does about an input is what the law on inputs says of it.
pub proof fn law_the_tray_reacts(input: TrayInput, r: Reaction)
    requires
        call_ensures(react, (input,), r),
    ensures
        r == reaction(input),
{
}

/// By day a toggle starts the filter and makes it night; at night it makes it day and
/// gives the screen its colours back if the filter runs. The filter runs from then on only
/// if it started, and only at night.
pub proof fn law_what_a_toggle_does(s: NightState, started: bool)
    ensures
        s.toggled().night == !s.night,
        !s.toggled().filter,
        !s.night ==> s.toggle_step() == FilterStep::Start,
        s.night && s.filter ==> s.toggle_step() == FilterStep::Restore,
        s.night && !s.filter ==> s.toggle_step() == FilterStep::Nothing,
        s.filter ==> s.restore_step() == FilterStep::Restore,
        !s.filter ==> s.restore_step() == FilterStep::Nothing,
        s.told(started).night == s.night,
        s.told(started).filter <==> s.night && (s.filter || started),
{
}

/// The icon is orange at night and grey by day, and the texts say which it is.
pub proof fn law_how_the_mode_looks(night: Look, day: Look)
    requires
        call_ensures(look, (true,), night),
        call_ensures(look, (false,), day),
    ensures
        night.red == 255 && night.green == 140 && night.blue == 0,
        day.red == 200 && day.green == 200 && day.blue == 200,
        night.tooltip@ == "Night Mode: ON  (Ctrl+Alt+N)"@,
        day.tooltip@ == "Night Mode: OFF  (Ctrl+Alt+N)"@,
        night.label@ == "Нічний режим: УВІМК"@,
        day.label@ == "Нічний режим: ВИМК"@,
{
}

/// The program is started by the task with one argument, to set up the task with another,
/// and by the user with anything else or nothing.
pub proof fn law_how_the_program_is_started(arg: &str, given: Mode, bare: Mode)
    requires
        call_ensures(mode_of, (Some(arg),), given),
        call_ensures(mode_of, (None::<&str>,), bare),
    ensures
        given is Run <==> arg@ == "--run"@,
        given is Install <==> arg@ == "--install"@,
        bare is Launch,
{
    reveal_strlit("--run");
    reveal_strlit("--install");
    assert("--run"@.len() != "--install"@.len());
}

/// What follows two looks.
pub open spec fn after_two(step: Step, first: bool, second: bool) -> Step {
    following(following(step, first), second)
}

/// Started by the task, the program frees memory and ends. Started to set up the task, it
/// does so and frees memory if it has full rights, and else starts itself again. Started by
/// the user, it has a task that is set up run; else it asks, and only on consent goes on:
/// with full rights it sets up the task and frees memory, without them it starts itself
/// again.
pub proof fn law_the_ways_through_the_program(found: bool, run: Step, install: Step, launch: Step)
    requires
        call_ensures(first_step, (Mode::Run,), run),
        call_ensures(first_step, (Mode::Install,), install),
        call_ensures(first_step, (Mode::Launch,), launch),
    ensures
        run == Step::Flush,
        following(run, found) == Step::End,
        following(install, true) == (Step::InstallAndFlush { told: true }),
        following(install, false) == Step::Relaunch,
        following(launch, true) == Step::TriggerTask,
        following(launch, false) == Step::AskUser,
        after_two(launch, false, false) == Step::End,
        following(after_two(launch, false, true), true) == (Step::InstallAndFlush { told: false }),
        following(after_two(launch, false, true), false) == Step::Relaunch,
        following(Step::TriggerTask, found) == Step::End,
        following(Step::Relaunch, found) == Step::End,
        following(Step::InstallAndFlush { told: found }, found) == Step::End,
        following(Step::End, found) == Step::End,
{
}

/// The next step is what the law on the ways through the program says of it.
pub proof fn law_the_program_goes_on(step: Step, found: bool, r: Step)
    requires
        call_ensures(next_step, (step, found), r),
    ensures
        r == following(step, found),
{
}

/// Only the button with this number means yes.
pub proof fn law_what_means_yes(pressed: i32, r: bool)
    requires
        call_ensures(answered_yes, (pressed,), r),
    ensures
        r <==> pressed == 6,
{
}

/// Megabytes are whole ones, rounded down.
pub proof fn law_megabytes_are_rounded_down(bytes: u64, r: u64)
    requires
        call_ensures(megabytes, (bytes,), r),
    ensures
        r * 1_048_576 <= bytes < (r + 1) * 1_048_576,
{
}

/// First the working sets are emptied, then the standby list is purged.
pub proof fn law_how_memory_is_freed(r: Vec<u32>)
    requires
        call_ensures(memory_commands, (), r),
    ensures
        r@.len() == 2,
        r@[0] == 2,
        r@[1] == 4,
{
}

/// The report tells that the task was set up exactly if it is to be told, tells what was
/// freed if more is free than before, and always tells what is free.
pub proof fn law_what_is_reported(
    before: u64,
    after: u64,
    gigabytes: &str,
    plain: String,
    told: String,
)
    requires
        call_ensures(report_text, (false, before, after, gigabytes), plain),
        call_ensures(report_text, (true, before, after, gigabytes), told),
    ensures
        told@ == "Завдання встановлено. Тепер запуск без UAC.\n\n"@ + plain@,
        ({
            let head = "Standby list очищено.\n\n"@;
            let tail = "Вільно зараз:  "@ + decimal(after as nat) + " МБ  ("@ + gigabytes@
                + " ГБ)"@;
            &&& after > before ==> plain@ == head + ("Звільнено:     "@ + decimal(
                (after - before) as nat,
            ) + " МБ\n"@) + tail
            &&& after <= before ==> plain@ == head + tail
        }),
{
    reveal_strlit("");
    let head = "Standby list очищено.\n\n"@;
    let tail = "Вільно зараз:  "@ + decimal(after as nat) + " МБ  ("@ + gigabytes@ + " ГБ)"@;
    let gain = if freed(before, after) > 0 {
        "Звільнено:     "@ + decimal(freed(before, after) as nat) + " МБ\n"@
    } else {
        ""@
    };
    assert(plain@ =~= head + gain + tail);
    assert(head + ""@ + tail =~= head + tail);
    assert(told@ =~= "Завдання встановлено. Тепер запуск без UAC.\n\n"@ + plain@);
}

/// The task is looked for, run and set up under one name. It is set up to run the program
/// on demand, with the highest rights, and to free memory.
pub proof fn law_the_task_has_one_name(
    exe: &str,
    query: Vec<&'static str>,
    trigger: Vec<&'static str>,
    create: Vec<String>,
)
    requires
        call_ensures(query_args, (), query),
        call_ensures(trigger_args, (), trigger),
        call_ensures(create_args, (exe,), create),
    ensures
        query@.len() == 3 && trigger@.len() == 3 && create@.len() == 10,
        query@[0]@ == "/query"@ && query@[1]@ == "/tn"@,
        trigger@[0]@ == "/run"@ && trigger@[1]@ == "/tn"@,
        query@[2]@ == "ResurfacerRamFlush"@,
        trigger@[2]@ == query@[2]@,
        create@[0]@ == "/create"@ && create@[1]@ == "/tn"@ && create@[2]@ == query@[2]@,
        create@[3]@ == "/tr"@ && holds(create@[4]@, exe@) && create@[4]@ == "\""@ + exe@
            + "\" --run"@,
        create@[5]@ == "/sc"@ && create@[6]@ == "ondemand"@,
        create@[7]@ == "/rl"@ && create@[8]@ == "HIGHEST"@ && create@[9]@ == "/f"@,
{
    let q = query@.map_values(|a: &'static str| a@);
    let t = trigger@.map_values(|a: &'static str| a@);
    assert(q.len() == 3 && t.len() == 3);
    assert(q[0] == query@[0]@ && q[1] == query@[1]@ && q[2] == query@[2]@);
    assert(t[0] == trigger@[0]@ && t[1] == trigger@[1]@ && t[2] == trigger@[2]@);
    let c = views(create@);
    assert(c.len() == 10);
    assert(c[0] == create@[0]@ && c[1] == create@[1]@ && c[2] == create@[2]@ && c[3]
        == create@[3]@ && c[4] == create@[4]@ && c[5] == create@[5]@ && c[6] == create@[6]@ && c[7]
        == create@[7]@ && c[8] == create@[8]@ && c[9] == create@[9]@);
    assert(create@[4]@ == ("\""@ + exe@) + "\" --run"@);
}

/// By default a rabbit hole is three tabs, opened within ten minutes and left alone for
/// fifteen.
pub proof fn law_rabbit_holes_by_default(config: RabbitHoleConfig, all: Config)
    requires
        config.is_default(),
        call_ensures(<Config as Default>::default, (), all),
    ensures
        config.cluster_window_minutes == 10,
        config.no_focus_threshold_minutes == 15,
        config.min_cluster_size == 3,
        config.spans_fit(),
        all.rabbit_hole.min_cluster_size == 3,
        all.watch_later.grace_period_seconds == 20,
        all.idle_detection.debounce_seconds == 15,
        all.idle_detection.presence_threshold_seconds == 120,
{
}

/// A header has four bytes, a message as many as its header says, and a header says what
/// its bytes hold, the least significant one first.
pub proof fn law_the_parts_of_a_frame(reader: FrameReader, wanted: usize, bytes: Seq<u8>, n: usize)
    requires
        call_ensures(FrameReader::wanted, (&reader,), wanted),
        bytes.len() == 4,
    ensures
        reader@ is Header ==> wanted == 4,
        reader@ matches Part::Payload(len) ==> wanted == len,
        Part::Header.size() == 4,
        Part::Payload(n).size() == n,
        le_value(bytes) == bytes[0] + 256 * (bytes[1] + 256 * (bytes[2] + 256 * bytes[3])),
{
}

/// As many messages are found as the law on reading gives, each with its bytes.
pub proof fn law_the_messages_of_an_input(input: Vec<u8>, r: Vec<Vec<u8>>)
    requires
        call_ensures(messages_in, (&input,), r),
    ensures
        r@.len() == received(input@, Part::Header).len(),
        forall|i: int|
            0 <= i < r@.len() ==> (#[trigger] r@[i])@ == received(input@, Part::Header)[i],
{
    let found = contents(r@);
    assert(found.len() == r@.len());
    assert forall|i: int| 0 <= i < r@.len() implies (#[trigger] r@[i])@ == received(
        input@,
        Part::Header,
    )[i] by {
        assert(found[i] == r@[i]@);
    }
}

/// Before the program ends, a filter that runs is stopped, and a hotkey that was registered
/// is given back.
pub proof fn law_what_is_done_before_the_end(mode: NightMode, registered: bool, r: Shutdown)
    requires
        call_ensures(NightMode::shutdown, (&mode, registered), r),
    ensures
        r.unregister_hotkey == registered,
        r.filter == FilterStep::Restore <==> mode@.filter,
        r.filter == FilterStep::Nothing <==> !mode@.filter,
{
}

}
