use resurfacer::night_mode::{look, react, FilterStep, NightMode, Reaction, TrayInput, HOTKEY_ID, WM_HOTKEY};
use resurfacer::ram_flush::{
    answered_yes, create_args, first_step, megabytes, memory_commands, mode_of, next_step,
    query_args, report_text, trigger_args, Mode, Step, QUESTION, QUESTION_TITLE,
};

#[test]
fn the_tray_shows_the_mode() {
    let l = look(true);
    assert_eq!((l.red, l.green, l.blue), (0xFF, 0x8C, 0x00));
    assert_eq!(l.tooltip, "Night Mode: ON  (Ctrl+Alt+N)");
    assert_eq!(l.label, "Нічний режим: УВІМК");
    let l = look(false);
    assert_eq!((l.red, l.green, l.blue), (0xC8, 0xC8, 0xC8));
    assert_eq!(l.tooltip, "Night Mode: OFF  (Ctrl+Alt+N)");
    assert_eq!(l.label, "Нічний режим: ВИМК");
}

#[test]
fn the_filter_is_restored_if_it_runs() {
    let mut n = NightMode::new();
    assert_eq!(n.shutdown(true).filter, FilterStep::Nothing);
    let t = n.toggle();
    assert_eq!(t.filter, FilterStep::Start);
    assert_eq!(t.look.red, 0xFF);
    n.filter_started(true);
    assert_eq!(n.shutdown(true).filter, FilterStep::Restore);
    let t = n.toggle();
    assert_eq!(t.filter, FilterStep::Restore);
    assert_eq!(t.look.red, 0xC8);
    assert_eq!(n.shutdown(true).filter, FilterStep::Nothing);
    // a filter that does not start leaves nothing to restore
    n.toggle();
    n.filter_started(false);
    assert_eq!(n.shutdown(true).filter, FilterStep::Nothing);
    assert_eq!(n.toggle().filter, FilterStep::Nothing);
}

#[test]
fn the_hotkey_is_unregistered_if_it_was_registered() {
    assert!(NightMode::new().shutdown(true).unregister_hotkey);
    assert!(!NightMode::new().shutdown(false).unregister_hotkey);
}

#[test]
fn the_screen_is_restored_whatever_came() {
    let inputs = [
        TrayInput::Click { left: true },
        TrayInput::Signal(false),
        TrayInput::MenuToggle,
        TrayInput::Message { message: WM_HOTKEY, wparam: 9001 },
        TrayInput::MenuExit,
        TrayInput::MenuToggle,
    ];
    let mut n = NightMode::new();
    let mut effects = vec![];
    let mut toggles = 0;
    for input in inputs {
        match react(input) {
            Reaction::Toggle => {
                toggles += 1;
                match n.toggle().filter {
                    FilterStep::Start => {
                        effects.push("warm");
                        n.filter_started(true);
                    }
                    FilterStep::Restore => effects.push("identity"),
                    FilterStep::Nothing => {}
                }
            }
            Reaction::Exit => break,
            Reaction::Nothing => {}
        }
    }
    assert_eq!(toggles, 3);
    assert_eq!(effects, vec!["warm", "identity", "warm"]);
    assert_eq!(n.shutdown(true).filter, FilterStep::Restore);
}

#[test]
fn the_tray_reacts() {
    let message = |message: u32, wparam: usize| TrayInput::Message { message, wparam };
    assert_eq!(react(message(0x12, 0)), Reaction::Exit);
    assert_eq!(react(message(WM_HOTKEY, HOTKEY_ID as usize)), Reaction::Toggle);
    assert_eq!(react(message(WM_HOTKEY, 9001 + (1 << 32))), Reaction::Toggle);
    assert_eq!(react(message(WM_HOTKEY, 1)), Reaction::Nothing);
    assert_eq!(react(message(0x200, 9001)), Reaction::Nothing);
    assert_eq!(react(TrayInput::Signal(true)), Reaction::Toggle);
    assert_eq!(react(TrayInput::Signal(false)), Reaction::Nothing);
    assert_eq!(react(TrayInput::Click { left: true }), Reaction::Toggle);
    assert_eq!(react(TrayInput::Click { left: false }), Reaction::Nothing);
    assert_eq!(react(TrayInput::MenuToggle), Reaction::Toggle);
    assert_eq!(react(TrayInput::MenuExit), Reaction::Exit);
    assert_eq!(react(TrayInput::MenuOther), Reaction::Nothing);
    assert_eq!(WM_HOTKEY, 0x0312);
}

#[test]
fn the_first_argument_decides_the_mode() {
    assert_eq!(mode_of(Some("--run")), Mode::Run);
    assert_eq!(mode_of(Some("--install")), Mode::Install);
    assert_eq!(mode_of(Some("--help")), Mode::Launch);
    assert_eq!(mode_of(None), Mode::Launch);
}

#[test]
fn a_task_that_is_set_up_is_triggered() {
    let step = first_step(Mode::Launch);
    assert_eq!(step, Step::LookForTask);
    assert_eq!(next_step(step, true), Step::TriggerTask);
    assert_eq!(next_step(Step::TriggerTask, true), Step::End);
}

#[test]
fn a_task_is_set_up_with_consent_and_full_rights() {
    let step = next_step(Step::LookForTask, false);
    assert_eq!(step, Step::AskUser);
    assert_eq!(next_step(step, false), Step::End);
    let step = next_step(step, true);
    assert_eq!(step, Step::LookForRights { consented: true });
    assert_eq!(next_step(step, false), Step::Relaunch);
    assert_eq!(next_step(step, true), Step::InstallAndFlush { told: false });
    let step = first_step(Mode::Install);
    assert_eq!(next_step(step, false), Step::Relaunch);
    assert_eq!(next_step(step, true), Step::InstallAndFlush { told: true });
    assert_eq!(next_step(Step::InstallAndFlush { told: true }, true), Step::End);
    assert_eq!(first_step(Mode::Run), Step::Flush);
    assert_eq!(next_step(Step::Flush, false), Step::End);
    assert!(answered_yes(6));
    assert!(!answered_yes(7));
    assert_eq!(QUESTION_TITLE, "RAM Flush — першочергове налаштування");
    assert_eq!(
        QUESTION,
        "Для роботи без UAC щоразу потрібно встановити заплановане завдання.\n\nЦе запитає права адміністратора ОДИН РАЗ.\n\nВстановити?"
    );
}

#[test]
fn memory_is_counted_in_megabytes() {
    assert_eq!(megabytes(0), 0);
    assert_eq!(megabytes(1_048_575), 0);
    assert_eq!(megabytes(1_048_576), 1);
    assert_eq!(memory_commands(), vec![2, 4]);
}

#[test]
fn the_user_is_told_what_was_freed() {
    assert_eq!(
        report_text(false, 1000, 1512, "1.5"),
        "Standby list очищено.\n\nЗвільнено:     512 МБ\nВільно зараз:  1512 МБ  (1.5 ГБ)"
    );
    assert_eq!(
        report_text(true, 1512, 1000, "1.0"),
        "Завдання встановлено. Тепер запуск без UAC.\n\nStandby list очищено.\n\nВільно зараз:  1000 МБ  (1.0 ГБ)"
    );
    assert_eq!(
        report_text(false, 7, 7, "0.0"),
        "Standby list очищено.\n\nВільно зараз:  7 МБ  (0.0 ГБ)"
    );
}

#[test]
fn the_task_scheduler_is_called_with_arguments() {
    assert_eq!(query_args(), vec!["/query", "/tn", "ResurfacerRamFlush"]);
    assert_eq!(trigger_args(), vec!["/run", "/tn", "ResurfacerRamFlush"]);
    assert_eq!(
        create_args("C:\\My Tools\\ram_flush.exe"),
        vec![
            "/create", "/tn", "ResurfacerRamFlush", "/tr", "\"C:\\My Tools\\ram_flush.exe\" --run",
            "/sc", "ondemand", "/rl", "HIGHEST", "/f",
        ]
    );
}
