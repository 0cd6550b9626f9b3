//! Freeing memory from a scheduled task: the task is set up once with the user's
//! consent, and from then on it runs without asking.

use vstd::prelude::*;
use vstd::string::*;
use crate::text::{decimal, decimal_text, same, views};

verus! {

/// The name of the scheduled task.
pub const TASK_NAME: &'static str = "ResurfacerRamFlush";

/// How the program was started.
#[derive(Debug, Clone, Copy, PartialEq, Eq, Structural)]
pub enum Mode {
    /// By the scheduled task.
    Run,
    /// To set up the scheduled task.
    Install,
    /// By the user.
    Launch,
}

/// How the program was started, by its first argument.
pub open spec fn mode(arg: Option<&str>) -> Mode {
    match arg {
        Some(a) => if a@ == "--run"@ {
            Mode::Run
        } else if a@ == "--install"@ {
            Mode::Install
        } else {
            Mode::Launch
        },
        None => Mode::Launch,
    }
}

/// How the program was started, by its first argument.
pub fn mode_of(arg: Option<&str>) -> (r: Mode)
    ensures
        r == mode(arg),
{
    match arg {
        Some(a) => {
            if same(a, "--run") {
                Mode::Run
            } else if same(a, "--install") {
                Mode::Install
            } else {
                Mode::Launch
            }
        },
        None => Mode::Launch,
    }
}

/// What the program does next.
#[derive(Debug, Clone, Copy, PartialEq, Eq, Structural)]
pub enum Step {
    /// Look whether the task is set up.
    LookForTask,
    /// Have the task run.
    TriggerTask,
    /// Ask the user whether the task is to be set up.
    AskUser,
    /// Look whether the program runs with full rights, to set up the task on the
    /// user's consent, or as it was started to do.
    LookForRights { consented: bool },
    /// Start the program again with full rights, to set up the task.
    Relaunch,
    /// Set up the task, then free memory. A task that is set up on the user's
    /// consent is not told of.
    InstallAndFlush { told: bool },
    /// Free memory.
    Flush,
    End,
}

/// What the program does first.
pub fn first_step(mode: Mode) -> (r: Step)
    ensures
        r == (match mode {
            Mode::Run => Step::Flush,
            Mode::Install => Step::LookForRights { consented: false },
            Mode::Launch => Step::LookForTask,
        }),
{
    match mode {
        Mode::Run => Step::Flush,
        Mode::Install => Step::LookForRights { consented: false },
        Mode::Launch => Step::LookForTask,
    }
}

/// What follows a step that looked or asked, by what it found. After any other
/// step the program ends.
pub open spec fn following(step: Step, found: bool) -> Step {
    match step {
        Step::LookForTask => if found {
            Step::TriggerTask
        } else {
            Step::AskUser
        },
        Step::AskUser => if found {
            Step::LookForRights { consented: true }
        } else {
            Step::End
        },
        Step::LookForRights { consented } => if found {
            Step::InstallAndFlush { told: !consented }
        } else {
            Step::Relaunch
        },
        _ => Step::End,
    }
}

/// What follows a step, by what it found.
pub fn next_step(step: Step, found: bool) -> (r: Step)
    ensures
        r == following(step, found),
{
    match step {
        Step::LookForTask => if found {
            Step::TriggerTask
        } else {
            Step::AskUser
        },
        Step::AskUser => if found {
            Step::LookForRights { consented: true }
        } else {
            Step::End
        },
        Step::LookForRights { consented } => if found {
            Step::InstallAndFlush { told: !consented }
        } else {
            Step::Relaunch
        },
        _ => Step::End,
    }
}

/// The title of the question to the user.
pub const QUESTION_TITLE: &'static str = "RAM Flush — першочергове налаштування";

/// The question to the user.
pub const QUESTION: &'static str = "Для роботи без UAC щоразу потрібно встановити заплановане завдання.\n\n\
    Це запитає права адміністратора ОДИН РАЗ.\n\n\
    Встановити?";

/// Whether the user answered the question with yes.
pub fn answered_yes(pressed: i32) -> (r: bool)
    ensures
        r == (pressed == 6),
{
    pressed == 6
}

/// The commands that free memory, in order: empty the working sets, then purge the
/// standby list.
pub fn memory_commands() -> (r: Vec<u32>)
    ensures
        r@ == seq![2u32, 4u32],
{
    let r = vec![2, 4];
    assert(r@ =~= seq![2u32, 4u32]);
    r
}

/// Bytes in whole megabytes.
pub fn megabytes(bytes: u64) -> (r: u64)
    ensures
        r == bytes / 1_048_576,
{
    bytes / 1_048_576
}

/// The megabytes that were freed; none where less is free than before.
pub open spec fn freed(before: u64, after: u64) -> int {
    if after > before {
        after - before
    } else {
        0
    }
}

/// What the user is told: how much was freed, if any, and how much is free, in
/// megabytes and, as given, in gigabytes.
pub open spec fn report(told: bool, before: u64, after: u64, gigabytes: Seq<char>) -> Seq<char> {
    (if told {
        "Завдання встановлено. Тепер запуск без UAC.\n\n"@
    } else {
        ""@
    }) + "Standby list очищено.\n\n"@ + (if freed(before, after) > 0 {
        "Звільнено:     "@ + decimal(freed(before, after) as nat) + " МБ\n"@
    } else {
        ""@
    }) + "Вільно зараз:  "@ + decimal(after as nat) + " МБ  ("@ + gigabytes + " ГБ)"@
}

/// What the user is told. `gigabytes` is what is free in gigabytes, with one
/// decimal.
pub fn report_text(told: bool, before: u64, after: u64, gigabytes: &str) -> (r: String)
    ensures
        r@ == report(told, before, after, gigabytes@),
{
    let mut r = if told {
        "Завдання встановлено. Тепер запуск без UAC.\n\n".to_string()
    } else {
        "".to_string()
    };
    r.append("Standby list очищено.\n\n");
    let gain = after.saturating_sub(before);
    let mut part = String::new();
    if gain > 0 {
        part.append("Звільнено:     ");
        assert(part@ =~= "Звільнено:     "@);
        part.append(decimal_text(gain).as_str());
        part.append(" МБ\n");
    } else {
        part.append("");
        assert(part@ =~= ""@);
    }
    r.append(part.as_str());
    r.append("Вільно зараз:  ");
    r.append(decimal_text(after).as_str());
    r.append(" МБ  (");
    r.append(gigabytes);
    r.append(" ГБ)");
    r
}

/// The arguments of `schtasks` that look for the task.
pub fn query_args() -> (r: Vec<&'static str>)
    ensures
        r@.map_values(|a: &'static str| a@) == seq!["/query"@, "/tn"@, TASK_NAME@],
{
    let r = vec!["/query", "/tn", TASK_NAME];
    assert(r@.map_values(|a: &'static str| a@) =~= seq!["/query"@, "/tn"@, TASK_NAME@]);
    r
}

/// The arguments of `schtasks` that have the task run.
pub fn trigger_args() -> (r: Vec<&'static str>)
    ensures
        r@.map_values(|a: &'static str| a@) == seq!["/run"@, "/tn"@, TASK_NAME@],
{
    let r = vec!["/run", "/tn", TASK_NAME];
    assert(r@.map_values(|a: &'static str| a@) =~= seq!["/run"@, "/tn"@, TASK_NAME@]);
    r
}

/// The arguments of `schtasks` that set up the task: on demand only, with the
/// highest rights, in place of one that is there. The program's path stands in
/// quotes.
pub fn create_args(exe: &str) -> (r: Vec<String>)
    ensures
        views(r@) == seq![
            "/create"@,
            "/tn"@,
            TASK_NAME@,
            "/tr"@,
            "\""@ + exe@ + "\" --run"@,
            "/sc"@,
            "ondemand"@,
            "/rl"@,
            "HIGHEST"@,
            "/f"@,
        ],
{
    let mut command = "\"".to_string();
    command.append(exe);
    command.append("\" --run");
    let r = vec![
        "/create".to_string(),
        "/tn".to_string(),
        TASK_NAME.to_string(),
        "/tr".to_string(),
        command,
        "/sc".to_string(),
        "ondemand".to_string(),
        "/rl".to_string(),
        "HIGHEST".to_string(),
        "/f".to_string(),
    ];
    assert(views(r@) =~= seq![
        "/create"@,
        "/tn"@,
        TASK_NAME@,
        "/tr"@,
        "\""@ + exe@ + "\" --run"@,
        "/sc"@,
        "ondemand"@,
        "/rl"@,
        "HIGHEST"@,
        "/f"@,
    ]);
    r
}

/// Once the task is set up, starting the program has it run and asks nothing.
pub proof fn law_a_task_that_is_set_up_runs_without_asking()
    ensures
        following(Step::LookForTask, true) == Step::TriggerTask,
        forall|found: bool| #[trigger] following(Step::TriggerTask, found) == Step::End,
{
}

/// The task is set up only where the program has full rights.
pub proof fn law_the_task_is_set_up_with_full_rights_only(step: Step, found: bool)
    ensures
        following(step, found) is InstallAndFlush ==> step is LookForRights && found,
{
}

}
