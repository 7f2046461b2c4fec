//! The decisions of tray mode: what each menu event makes happen, the state
//! it leaves, and the menu that shows that state. Gammas are `f32` bits.
use vstd::prelude::*;

verus! {

use crate::floats::{bits_eq, f32_eq, GAMMA_2_0, GAMMA_2_2, GAMMA_2_4};

/// What the tray reacts to: a click on its icon, or a menu entry chosen.
#[derive(Debug, Clone, Copy)]
pub enum Event {
    RightClick,
    LeftClick,
    SetSRGB,
    SetGamma(u32),
    ToggleStartup,
    Exit,
}

/// Something the tray loop does, in the order handed out. When one of them
/// fails, the loop stops with its error.
#[derive(Debug, Clone, Copy, PartialEq, Eq)]
pub enum Action {
    /// Restarts DWM, which restores its original shaders.
    KillDwm,
    /// Patches DWM's shaders for the gamma with these bits.
    PatchDwm(u32),
    /// Creates or updates the startup task, for the gamma with these bits.
    RegisterStartup(u32),
    /// Removes the startup task.
    UnregisterStartup,
    /// Shows the menu and the icon of the new state.
    UpdateTray,
    /// Opens the menu.
    ShowMenu,
    /// Ends the loop.
    Exit,
}

/// The text of a menu entry; gammas are shown with three decimals.
#[derive(Debug, Clone, Copy, PartialEq, Eq)]
pub enum MenuLabel {
    /// "sRGB (Disable)"
    SRGB,
    /// "Custom Gamma (..)"
    CustomGamma(u32),
    /// "Gamma .."
    Gamma(u32),
    /// "Autostart"
    Autostart,
    /// "Exit"
    Exit,
}

/// One entry of the tray menu.
#[derive(Debug, Clone, Copy)]
pub enum MenuEntry {
    Checkable { label: MenuLabel, checked: bool, event: Event },
    Separator,
    Item { label: MenuLabel, event: Event },
}

/// `==` on events, as derived: the same variant, and for `SetGamma` gammas
/// that compare equal as `f32`s.
pub open spec fn event_eq(a: Event, b: Event) -> bool {
    match (a, b) {
        (Event::SetGamma(x), Event::SetGamma(y)) => f32_eq(x, y),
        (Event::RightClick, Event::RightClick) => true,
        (Event::LeftClick, Event::LeftClick) => true,
        (Event::SetSRGB, Event::SetSRGB) => true,
        (Event::ToggleStartup, Event::ToggleStartup) => true,
        (Event::Exit, Event::Exit) => true,
        _ => false,
    }
}

/// `==` on events.
pub fn same_event(a: Event, b: Event) -> (r: bool)
    ensures
        r == event_eq(a, b),
{
    match (a, b) {
        (Event::SetGamma(x), Event::SetGamma(y)) => bits_eq(x, y),
        (Event::RightClick, Event::RightClick) => true,
        (Event::LeftClick, Event::LeftClick) => true,
        (Event::SetSRGB, Event::SetSRGB) => true,
        (Event::ToggleStartup, Event::ToggleStartup) => true,
        (Event::Exit, Event::Exit) => true,
        _ => false,
    }
}

/// The gamma the menu offers besides 2.0, 2.2 and 2.4: the one given at
/// start, unless it is one of those.
pub open spec fn spec_custom_gamma(gamma: u32) -> Option<u32> {
    if gamma == GAMMA_2_0 || gamma == GAMMA_2_2 || gamma == GAMMA_2_4 {
        None
    } else {
        Some(gamma)
    }
}

/// The gamma the menu offers besides 2.0, 2.2 and 2.4.
pub fn custom_gamma(gamma: u32) -> (r: Option<u32>)
    ensures
        r == spec_custom_gamma(gamma),
{
    if gamma == GAMMA_2_0 || gamma == GAMMA_2_2 || gamma == GAMMA_2_4 {
        None
    } else {
        Some(gamma)
    }
}

/// The events queued before the first click: patching with the gamma given,
/// unless patching at start is skipped.
pub fn initial_events(skip_patching: bool, gamma: u32) -> (r: Vec<Event>)
    ensures
        skip_patching ==> r@.len() == 0,
        !skip_patching ==> r@ == seq![Event::SetGamma(gamma)],
{
    let mut r: Vec<Event> = Vec::new();
    if !skip_patching {
        r.push(Event::SetGamma(gamma));
    }
    proof {
        if !skip_patching {
            assert(r@ =~= seq![Event::SetGamma(gamma)]);
        }
    }
    r
}

/// The state of tray mode: the mode chosen last, the gamma the startup task
/// is given, whether the startup task is registered, and the custom gamma the
/// menu offers.
#[derive(Debug, Clone, Copy)]
pub struct TrayState {
    pub mode: Event,
    pub gamma: u32,
    pub registration: bool,
    pub custom_gamma: Option<u32>,
}

/// What handling `e` in state `s` makes happen.
pub open spec fn actions_for(s: TrayState, e: Event) -> Seq<Action> {
    match e {
        Event::SetSRGB => seq![Action::KillDwm, Action::UpdateTray],
        Event::SetGamma(g) => if s.registration {
            seq![Action::PatchDwm(g), Action::RegisterStartup(g), Action::UpdateTray]
        } else {
            seq![Action::PatchDwm(g), Action::UpdateTray]
        },
        Event::ToggleStartup => if s.registration {
            seq![Action::UnregisterStartup, Action::UpdateTray]
        } else {
            seq![Action::RegisterStartup(s.gamma), Action::UpdateTray]
        },
        Event::RightClick | Event::LeftClick => seq![Action::ShowMenu],
        Event::Exit => seq![Action::Exit],
    }
}

/// The state after handling `e` in state `s`, once its actions succeeded.
pub open spec fn next_state(s: TrayState, e: Event) -> TrayState {
    match e {
        Event::SetSRGB => TrayState { mode: e, ..s },
        Event::SetGamma(g) => TrayState { mode: e, gamma: g, ..s },
        Event::ToggleStartup => TrayState { registration: !s.registration, ..s },
        _ => s,
    }
}

/// The entries of the menu in state `s`.
pub open spec fn menu_for(s: TrayState) -> Seq<MenuEntry> {
    let head = seq![
        MenuEntry::Checkable {
            label: MenuLabel::SRGB,
            checked: event_eq(s.mode, Event::SetSRGB),
            event: Event::SetSRGB,
        },
        MenuEntry::Separator,
    ];
    let custom = match s.custom_gamma {
        Some(c) => seq![
            MenuEntry::Checkable {
                label: MenuLabel::CustomGamma(c),
                checked: event_eq(s.mode, Event::SetGamma(c)),
                event: Event::SetGamma(c),
            },
            MenuEntry::Separator,
        ],
        None => Seq::empty(),
    };
    let tail = seq![
        gamma_entry(s, GAMMA_2_0),
        gamma_entry(s, GAMMA_2_2),
        gamma_entry(s, GAMMA_2_4),
        MenuEntry::Separator,
        MenuEntry::Checkable {
            label: MenuLabel::Autostart,
            checked: s.registration,
            event: Event::ToggleStartup,
        },
        MenuEntry::Separator,
        MenuEntry::Item { label: MenuLabel::Exit, event: Event::Exit },
    ];
    head + custom + tail
}

/// The menu entry for the fixed gamma with the bits `g`.
pub open spec fn gamma_entry(s: TrayState, g: u32) -> MenuEntry {
    MenuEntry::Checkable {
        label: MenuLabel::Gamma(g),
        checked: event_eq(s.mode, Event::SetGamma(g)),
        event: Event::SetGamma(g),
    }
}

impl TrayState {
    /// The state at start: sRGB, the gamma given, the registration found.
    pub fn new(gamma: u32, registration: bool) -> (r: Self)
        ensures
            r == (TrayState {
                mode: Event::SetSRGB,
                gamma,
                registration,
                custom_gamma: spec_custom_gamma(gamma),
            }),
    {
        TrayState { mode: Event::SetSRGB, gamma, registration, custom_gamma: custom_gamma(gamma) }
    }

    /// Handles `e`: gives back what to do, in order, and moves to the state
    /// that holds once that is done. (When an action fails the loop stops,
    /// so the state is not looked at again.)
    pub fn handle(&mut self, e: Event) -> (r: Vec<Action>)
        ensures
            r@ == actions_for(*old(self), e),
            *final(self) == next_state(*old(self), e),
    {
        let mut r: Vec<Action> = Vec::new();
        match e {
            Event::SetSRGB => {
                r.push(Action::KillDwm);
                self.mode = e;
                r.push(Action::UpdateTray);
            },
            Event::SetGamma(g) => {
                r.push(Action::PatchDwm(g));
                self.mode = e;
                self.gamma = g;
                if self.registration {
                    r.push(Action::RegisterStartup(g));
                }
                r.push(Action::UpdateTray);
            },
            Event::ToggleStartup => {
                if self.registration {
                    r.push(Action::UnregisterStartup);
                } else {
                    r.push(Action::RegisterStartup(self.gamma));
                }
                self.registration = !self.registration;
                r.push(Action::UpdateTray);
            },
            Event::RightClick | Event::LeftClick => {
                r.push(Action::ShowMenu);
            },
            Event::Exit => {
                r.push(Action::Exit);
            },
        }
        proof {
            assert(r@ =~= actions_for(*old(self), e));
        }
        r
    }

    /// Whether the icon shows patching as on: in every mode but sRGB.
    pub fn is_on(&self) -> (r: bool)
        ensures
            r == !(self.mode is SetSRGB),
    {
        match self.mode {
            Event::SetSRGB => false,
            _ => true,
        }
    }

    /// The entries of the menu, top to bottom.
    pub fn build_menu(&self) -> (r: Vec<MenuEntry>)
        ensures
            r@ == menu_for(*self),
    {
        let mut r: Vec<MenuEntry> = Vec::new();
        r.push(
            MenuEntry::Checkable {
                label: MenuLabel::SRGB,
                checked: same_event(self.mode, Event::SetSRGB),
                event: Event::SetSRGB,
            },
        );
        r.push(MenuEntry::Separator);
        match self.custom_gamma {
            Some(c) => {
                r.push(
                    MenuEntry::Checkable {
                        label: MenuLabel::CustomGamma(c),
                        checked: same_event(self.mode, Event::SetGamma(c)),
                        event: Event::SetGamma(c),
                    },
                );
                r.push(MenuEntry::Separator);
            },
            None => {},
        }
        r.push(
            MenuEntry::Checkable {
                label: MenuLabel::Gamma(GAMMA_2_0),
                checked: same_event(self.mode, Event::SetGamma(GAMMA_2_0)),
                event: Event::SetGamma(GAMMA_2_0),
            },
        );
        r.push(
            MenuEntry::Checkable {
                label: MenuLabel::Gamma(GAMMA_2_2),
                checked: same_event(self.mode, Event::SetGamma(GAMMA_2_2)),
                event: Event::SetGamma(GAMMA_2_2),
            },
        );
        r.push(
            MenuEntry::Checkable {
                label: MenuLabel::Gamma(GAMMA_2_4),
                checked: same_event(self.mode, Event::SetGamma(GAMMA_2_4)),
                event: Event::SetGamma(GAMMA_2_4),
            },
        );
        r.push(MenuEntry::Separator);
        r.push(
            MenuEntry::Checkable {
                label: MenuLabel::Autostart,
                checked: self.registration,
                event: Event::ToggleStartup,
            },
        );
        r.push(MenuEntry::Separator);
        r.push(MenuEntry::Item { label: MenuLabel::Exit, event: Event::Exit });
        proof {
            assert(r@ =~= menu_for(*self));
        }
        r
    }
}

/// Law: choosing "Autostart" twice leaves the registration as it was, and
/// the two choices register and then unregister the task, or the other way
/// round.
pub proof fn lemma_toggle_startup_twice(s: TrayState)
    ensures
        next_state(next_state(s, Event::ToggleStartup), Event::ToggleStartup) == s,
        s.registration ==> actions_for(s, Event::ToggleStartup)[0] == Action::UnregisterStartup
            && actions_for(next_state(s, Event::ToggleStartup), Event::ToggleStartup)[0]
            == Action::RegisterStartup(s.gamma),
        !s.registration ==> actions_for(s, Event::ToggleStartup)[0] == Action::RegisterStartup(
            s.gamma,
        ) && actions_for(next_state(s, Event::ToggleStartup), Event::ToggleStartup)[0]
            == Action::UnregisterStartup,
{
}

/// Law: while the startup task is registered, a change of gamma updates the
/// task to the new gamma, right after patching.
pub proof fn lemma_gamma_change_updates_task(s: TrayState, g: u32)
    requires
        s.registration,
    ensures
        actions_for(s, Event::SetGamma(g)) == seq![
            Action::PatchDwm(g),
            Action::RegisterStartup(g),
            Action::UpdateTray,
        ],
        next_state(s, Event::SetGamma(g)).gamma == g,
        next_state(s, Event::SetGamma(g)).registration,
{
}

/// Law: after a mode is chosen, the menu checks the sRGB entry exactly when
/// that mode is sRGB, and checks the entry of a fixed gamma when that gamma
/// was chosen.
pub proof fn lemma_menu_checks_mode(s: TrayState, e: Event)
    requires
        e is SetSRGB || e is SetGamma,
    ensures
        ({
            let t = next_state(s, e);
            let m = menu_for(t);
            &&& m[0] == (MenuEntry::Checkable {
                label: MenuLabel::SRGB,
                checked: e is SetSRGB,
                event: Event::SetSRGB,
            })
            &&& (e == Event::SetGamma(GAMMA_2_2) ==> m.contains(
                MenuEntry::Checkable {
                    label: MenuLabel::Gamma(GAMMA_2_2),
                    checked: true,
                    event: Event::SetGamma(GAMMA_2_2),
                },
            ))
        }),
{
    let t = next_state(s, e);
    let m = menu_for(t);
    if e == Event::SetGamma(GAMMA_2_2) {
        let k = if t.custom_gamma is Some { 5int } else { 3int };
        assert(m[k] == gamma_entry(t, GAMMA_2_2));
    }
}

/// The label of a menu entry; a separator has none.
pub open spec fn entry_label(e: MenuEntry) -> Option<MenuLabel> {
    match e {
        MenuEntry::Checkable { label, .. } => Some(label),
        MenuEntry::Item { label, .. } => Some(label),
        MenuEntry::Separator => None,
    }
}

/// Whether the menu entry `e` chooses the gamma `x` and is checked exactly
/// when the mode is that gamma.
pub open spec fn chooses_gamma(e: MenuEntry, mode: Event, x: u32) -> bool {
    e matches MenuEntry::Checkable { checked, event, .. } && event == Event::SetGamma(x) && checked
        == event_eq(mode, Event::SetGamma(x))
}

/// Whether exactly one entry of `m` has the label `l`.
pub open spec fn labelled_once(m: Seq<MenuEntry>, l: MenuLabel) -> bool {
    &&& exists|i: int| 0 <= i < m.len() && entry_label(#[trigger] m[i]) == Some(l)
    &&& forall|i: int, j: int|
        0 <= i < m.len() && 0 <= j < m.len() && entry_label(#[trigger] m[i]) == Some(l)
            && entry_label(#[trigger] m[j]) == Some(l) ==> i == j
}

/// Law: every entry of the menu that shows a gamma, fixed or custom, chooses
/// that very gamma and is checked exactly when it is the mode; the entries
/// of 2.0, 2.2 and 2.4 are each in the menu once.
pub proof fn lemma_gamma_entries_choose_their_gamma(s: TrayState)
    ensures
        forall|i: int, x: u32|
            0 <= i < menu_for(s).len() && (entry_label(menu_for(s)[i]) == Some(
                MenuLabel::Gamma(x),
            ) || entry_label(menu_for(s)[i]) == Some(MenuLabel::CustomGamma(x))) ==> #[trigger] chooses_gamma(
                menu_for(s)[i],
                s.mode,
                x,
            ),
        labelled_once(menu_for(s), MenuLabel::Gamma(0x4000_0000u32)),
        labelled_once(menu_for(s), MenuLabel::Gamma(0x400C_CCCDu32)),
        labelled_once(menu_for(s), MenuLabel::Gamma(0x4019_999Au32)),
{
    let m = menu_for(s);
    let k: int = if s.custom_gamma is Some { 2 } else { 0 };
    assert(m.len() == 9 + k);
    assert(entry_label(m[2 + k]) == Some(MenuLabel::Gamma(0x4000_0000u32)));
    assert(entry_label(m[3 + k]) == Some(MenuLabel::Gamma(0x400C_CCCDu32)));
    assert(entry_label(m[4 + k]) == Some(MenuLabel::Gamma(0x4019_999Au32)));
}

/// Law: the menu offers the gamma given at start as a custom entry exactly
/// when it is none of 2.0, 2.2 and 2.4, and then offers that very gamma.
pub proof fn lemma_custom_gamma_offered(g: u32)
    ensures
        spec_custom_gamma(g) is None <==> (g == 0x4000_0000u32 || g == 0x400C_CCCDu32 || g
            == 0x4019_999Au32),
        spec_custom_gamma(g) is Some ==> spec_custom_gamma(g) == Some(g),
{
}

} // verus!
