//! Night mode: a warm colour filter over the screen, switched from the tray.

use vstd::prelude::*;

verus! {

/// The id under which the hotkey is registered.
pub const HOTKEY_ID: i32 = 9001;

/// The window message that ends the loop.
pub const WM_QUIT: u32 = 0x0012;

/// The window message of a hotkey.
pub const WM_HOTKEY: u32 = 0x0312;

/// How the tray shows the mode: the colour of the icon, its tooltip, and the label
/// of the menu item.
#[derive(Debug, Clone, Copy)]
pub struct Look {
    pub red: u8,
    pub green: u8,
    pub blue: u8,
    pub tooltip: &'static str,
    pub label: &'static str,
}

impl Look {
    /// The look is that of the mode.
    pub open spec fn fits(self, night: bool) -> bool {
        if night {
            &&& self.red == 0xFF
            &&& self.green == 0x8C
            &&& self.blue == 0x00
            &&& self.tooltip@ == "Night Mode: ON  (Ctrl+Alt+N)"@
            &&& self.label@ == "Нічний режим: УВІМК"@
        } else {
            &&& self.red == 0xC8
            &&& self.green == 0xC8
            &&& self.blue == 0xC8
            &&& self.tooltip@ == "Night Mode: OFF  (Ctrl+Alt+N)"@
            &&& self.label@ == "Нічний режим: ВИМК"@
        }
    }
}

/// How the tray shows the mode.
pub fn look(night: bool) -> (r: Look)
    ensures
        r.fits(night),
{
    if night {
        Look {
            red: 0xFF,
            green: 0x8C,
            blue: 0x00,
            tooltip: "Night Mode: ON  (Ctrl+Alt+N)",
            label: "Нічний режим: УВІМК",
        }
    } else {
        Look {
            red: 0xC8,
            green: 0xC8,
            blue: 0xC8,
            tooltip: "Night Mode: OFF  (Ctrl+Alt+N)",
            label: "Нічний режим: ВИМК",
        }
    }
}

/// What is to be done about the colour filter.
#[derive(Debug, Clone, Copy, PartialEq, Eq, Structural)]
pub enum FilterStep {
    /// Start the filter and make the screen warm. Whether it started is to be told.
    Start,
    /// Give the screen its own colours back and stop the filter.
    Restore,
    Nothing,
}

/// What a toggle asks for.
#[derive(Debug)]
pub struct Toggle {
    pub filter: FilterStep,
    pub look: Look,
}

/// What is to be done before the program ends.
#[derive(Debug, Clone, Copy, PartialEq, Eq, Structural)]
pub struct Shutdown {
    pub filter: FilterStep,
    /// Whether the hotkey is to be unregistered.
    pub unregister_hotkey: bool,
}

/// Whether it is night, and whether the filter runs.
pub struct NightState {
    pub night: bool,
    pub filter: bool,
}

impl NightState {
    /// The filter runs only at night.
    pub open spec fn valid(self) -> bool {
        self.filter ==> self.night
    }

    /// The state after a toggle, before the filter has started.
    pub open spec fn toggled(self) -> NightState {
        NightState { night: !self.night, filter: false }
    }

    /// What a toggle does about the filter.
    pub open spec fn toggle_step(self) -> FilterStep {
        if !self.night {
            FilterStep::Start
        } else {
            self.restore_step()
        }
    }

    /// What stopping the filter takes.
    pub open spec fn restore_step(self) -> FilterStep {
        if self.filter {
            FilterStep::Restore
        } else {
            FilterStep::Nothing
        }
    }

    /// The state once it is known whether the filter started.
    pub open spec fn told(self, started: bool) -> NightState {
        NightState { filter: self.night && (self.filter || started), ..self }
    }
}

/// The mode, and the filter that goes with it.
#[derive(Debug)]
pub struct NightMode {
    night: bool,
    filter: bool,
}

impl View for NightMode {
    type V = NightState;

    closed spec fn view(&self) -> NightState {
        NightState { night: self.night, filter: self.filter }
    }
}

impl NightMode {
    #[verifier::type_invariant]
    spec fn in_step(self) -> bool {
        self.filter ==> self.night
    }

    /// It is day.
    pub fn new() -> (r: NightMode)
        ensures
            r@ == (NightState { night: false, filter: false }),
    {
        NightMode { night: false, filter: false }
    }

    /// Changes between night and day.
    pub fn toggle(&mut self) -> (r: Toggle)
        ensures
            old(self)@.valid(),
            final(self)@ == old(self)@.toggled(),
            r.filter == old(self)@.toggle_step(),
            r.look.fits(final(self)@.night),
    {
        proof {
            use_type_invariant(&*self);
        }
        let night = !self.night;
        let filter = if night {
            FilterStep::Start
        } else if self.filter {
            FilterStep::Restore
        } else {
            FilterStep::Nothing
        };
        *self = NightMode { night, filter: false };
        Toggle { filter, look: look(night) }
    }

    /// Tells whether the filter started.
    pub fn filter_started(&mut self, started: bool)
        ensures
            final(self)@ == old(self)@.told(started),
            final(self)@.valid(),
    {
        proof {
            use_type_invariant(&*self);
        }
        *self = NightMode { night: self.night, filter: self.night && (self.filter || started) };
    }

    /// What is to be done before the program ends, by whether the hotkey could be
    /// registered.
    pub fn shutdown(&self, hotkey_registered: bool) -> (r: Shutdown)
        ensures
            r.filter == self@.restore_step(),
            r.unregister_hotkey == hotkey_registered,
            self@.valid(),
    {
        proof {
            use_type_invariant(self);
        }
        let filter = if self.filter {
            FilterStep::Restore
        } else {
            FilterStep::Nothing
        };
        Shutdown { filter, unregister_hotkey: hotkey_registered }
    }
}

/// What can come to the tray.
#[derive(Debug, Clone, Copy)]
pub enum TrayInput {
    /// A window message, and the number that comes with it.
    Message { message: u32, wparam: usize },
    /// Whether another instance has asked for a toggle.
    Signal(bool),
    /// A click on the icon, with the left button or another.
    Click { left: bool },
    /// The menu item that toggles.
    MenuToggle,
    /// The menu item that ends the program.
    MenuExit,
    /// Another menu item.
    MenuOther,
}

/// What the tray does about an input.
#[derive(Debug, Clone, Copy, PartialEq, Eq, Structural)]
pub enum Reaction {
    Toggle,
    Exit,
    Nothing,
}

/// What the tray does about an input. The number of a hotkey message is read as 32
/// bits.
pub open spec fn reaction(input: TrayInput) -> Reaction {
    match input {
        TrayInput::Message { message, wparam } => if message == WM_QUIT {
            Reaction::Exit
        } else if message == WM_HOTKEY && wparam as int % 0x1_0000_0000 == HOTKEY_ID {
            Reaction::Toggle
        } else {
            Reaction::Nothing
        },
        TrayInput::Signal(set) => if set {
            Reaction::Toggle
        } else {
            Reaction::Nothing
        },
        TrayInput::Click { left } => if left {
            Reaction::Toggle
        } else {
            Reaction::Nothing
        },
        TrayInput::MenuToggle => Reaction::Toggle,
        TrayInput::MenuExit => Reaction::Exit,
        TrayInput::MenuOther => Reaction::Nothing,
    }
}

/// What the tray does about an input.
pub fn react(input: TrayInput) -> (r: Reaction)
    ensures
        r == reaction(input),
{
    match input {
        TrayInput::Message { message, wparam } => {
            let low: u64 = wparam as u64 % 0x1_0000_0000;
            if message == WM_QUIT {
                Reaction::Exit
            } else if message == WM_HOTKEY && low == HOTKEY_ID as u64 {
                Reaction::Toggle
            } else {
                Reaction::Nothing
            }
        },
        TrayInput::Signal(set) => if set {
            Reaction::Toggle
        } else {
            Reaction::Nothing
        },
        TrayInput::Click { left } => if left {
            Reaction::Toggle
        } else {
            Reaction::Nothing
        },
        TrayInput::MenuToggle => Reaction::Toggle,
        TrayInput::MenuExit => Reaction::Exit,
        TrayInput::MenuOther => Reaction::Nothing,
    }
}

/// Whether the screen is warm after a step, by whether it was before and whether a
/// filter that was to start did.
pub open spec fn warm_after(warm: bool, step: FilterStep, started: bool) -> bool {
    match step {
        FilterStep::Start => warm || started,
        FilterStep::Restore => false,
        FilterStep::Nothing => warm,
    }
}

/// The screen is warm exactly while the filter runs: a toggle and what it asks for
/// keep it so, and after the last step of the program the screen has its own
/// colours back.
pub proof fn law_the_screen_is_warm_while_the_filter_runs(s: NightState, started: bool)
    requires
        s.valid(),
    ensures
        ({
            let step = s.toggle_step();
            let next = if step is Start {
                s.toggled().told(started)
            } else {
                s.toggled()
            };
            &&& next.valid()
            &&& warm_after(s.filter, step, started) == next.filter
        }),
        !warm_after(s.filter, s.restore_step(), started),
{
}

/// Two toggles lead back to the same mode.
pub proof fn law_two_toggles_lead_back(s: NightState, started: bool)
    ensures
        s.toggled().told(started).toggled().night == s.night,
{
}

/// A colour effect that is set for the screen.
pub enum Effect {
    Warm,
    Identity,
}

/// The tray while the program runs: the mode, the colour effects that were set so
/// far, how often the mode was toggled, and whether the loop has ended.
pub struct TrayRun {
    pub state: NightState,
    pub effects: Seq<Effect>,
    pub toggles: nat,
    pub over: bool,
}

/// The colour effects after a step, by whether a filter that was to start did.
pub open spec fn effects_after(effects: Seq<Effect>, step: FilterStep, started: bool) -> Seq<
    Effect,
> {
    match step {
        FilterStep::Start => if started {
            effects.push(Effect::Warm)
        } else {
            effects
        },
        FilterStep::Restore => effects.push(Effect::Identity),
        FilterStep::Nothing => effects,
    }
}

impl TrayRun {
    /// It is day, and nothing was set.
    pub open spec fn start() -> TrayRun {
        TrayRun {
            state: NightState { night: false, filter: false },
            effects: Seq::empty(),
            toggles: 0,
            over: false,
        }
    }

    /// The tray after an input, by whether a filter that was to start did. Once the
    /// loop has ended, nothing happens any more.
    pub open spec fn after(self, input: TrayInput, started: bool) -> TrayRun {
        if self.over {
            self
        } else {
            match reaction(input) {
                Reaction::Toggle => {
                    let step = self.state.toggle_step();
                    TrayRun {
                        state: if step is Start {
                            self.state.toggled().told(started)
                        } else {
                            self.state.toggled()
                        },
                        effects: effects_after(self.effects, step, started),
                        toggles: self.toggles + 1,
                        ..self
                    }
                },
                Reaction::Exit => TrayRun { over: true, ..self },
                Reaction::Nothing => self,
            }
        }
    }

    /// The tray after some inputs.
    pub open spec fn after_all(self, inputs: Seq<(TrayInput, bool)>) -> TrayRun
        decreases inputs.len(),
    {
        if inputs.len() == 0 {
            self
        } else {
            self.after_all(inputs.drop_last()).after(inputs.last().0, inputs.last().1)
        }
    }
}

/// One of the inputs ends the loop.
pub open spec fn ends(inputs: Seq<(TrayInput, bool)>) -> bool {
    exists|i: int| 0 <= i < inputs.len() && reaction((#[trigger] inputs[i]).0) is Exit
}

/// How many of the inputs call for a toggle before one ends the loop.
pub open spec fn triggers(inputs: Seq<(TrayInput, bool)>) -> nat
    decreases inputs.len(),
{
    if inputs.len() == 0 {
        0
    } else {
        let before = inputs.drop_last();
        triggers(before) + if !ends(before) && reaction(inputs.last().0) is Toggle {
            1nat
        } else {
            0nat
        }
    }
}

proof fn lemma_tray_run(inputs: Seq<(TrayInput, bool)>)
    ensures
        ({
            let end = TrayRun::start().after_all(inputs);
            &&& end.state.valid()
            &&& end.over == ends(inputs)
            &&& end.toggles == triggers(inputs)
            &&& end.state.night == (end.toggles % 2 == 1)
            &&& if end.state.filter {
                end.effects.len() > 0 && end.effects.last() is Warm
            } else {
                end.effects.len() == 0 || end.effects.last() is Identity
            }
        }),
    decreases inputs.len(),
{
    if inputs.len() > 0 {
        let before = inputs.drop_last();
        lemma_tray_run(before);
        assert(inputs[inputs.len() - 1] == inputs.last());
        if ends(before) {
            let i = choose|i: int|
                0 <= i < before.len() && reaction((#[trigger] before[i]).0) is Exit;
            assert(inputs[i] == before[i]);
        }
        if ends(inputs) {
            let i = choose|i: int|
                0 <= i < inputs.len() && reaction((#[trigger] inputs[i]).0) is Exit;
            if i < before.len() {
                assert(before[i] == inputs[i]);
            }
        }
    }
}

/// Whatever comes to the tray, every trigger before the end toggles the mode exactly
/// once, starting by day. Once the last step is done, the last colour effect that was
/// set, if any was, gives the screen its own colours back.
pub proof fn law_each_trigger_toggles_once_and_the_screen_is_restored(
    inputs: Seq<(TrayInput, bool)>,
    started: bool,
)
    ensures
        ({
            let end = TrayRun::start().after_all(inputs);
            let effects = effects_after(end.effects, end.state.restore_step(), started);
            &&& end.toggles == triggers(inputs)
            &&& end.state.night == (triggers(inputs) % 2 == 1)
            &&& end.over == ends(inputs)
            &&& effects.len() == 0 || effects.last() is Identity
        }),
{
    lemma_tray_run(inputs);
}

}
