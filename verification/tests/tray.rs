use shader_patcher::tray::{custom_gamma, initial_events, same_event, Action, Event, MenuEntry, MenuLabel, TrayState};

fn bits(x: f32) -> u32 {
    x.to_bits()
}

#[test]
fn custom_gamma_is_offered_unless_it_is_a_fixed_one() {
    assert_eq!(custom_gamma(bits(2.0)), None);
    assert_eq!(custom_gamma(bits(2.2)), None);
    assert_eq!(custom_gamma(bits(2.4)), None);
    assert_eq!(custom_gamma(bits(1.8)), Some(bits(1.8)));
}

#[test]
fn patching_at_start_is_queued_unless_skipped() {
    assert_eq!(initial_events(true, bits(2.2)).len(), 0);
    let e = initial_events(false, bits(2.2));
    assert_eq!(e.len(), 1);
    assert!(same_event(e[0], Event::SetGamma(bits(2.2))));
}

#[test]
fn events_lead_to_actions_and_state() {
    let mut s = TrayState::new(bits(1.8), false);
    assert!(!s.is_on());
    assert_eq!(s.handle(Event::SetGamma(bits(2.4))), vec![Action::PatchDwm(bits(2.4)), Action::UpdateTray]);
    assert!(s.is_on());
    assert_eq!(s.gamma, bits(2.4));
    assert_eq!(s.handle(Event::ToggleStartup), vec![Action::RegisterStartup(bits(2.4)), Action::UpdateTray]);
    assert!(s.registration);
    // With the task registered, a new gamma updates it.
    assert_eq!(
        s.handle(Event::SetGamma(bits(2.0))),
        vec![Action::PatchDwm(bits(2.0)), Action::RegisterStartup(bits(2.0)), Action::UpdateTray]
    );
    assert_eq!(s.handle(Event::ToggleStartup), vec![Action::UnregisterStartup, Action::UpdateTray]);
    assert!(!s.registration);
    assert_eq!(s.handle(Event::SetSRGB), vec![Action::KillDwm, Action::UpdateTray]);
    assert!(!s.is_on());
    assert_eq!(s.handle(Event::RightClick), vec![Action::ShowMenu]);
    assert_eq!(s.handle(Event::LeftClick), vec![Action::ShowMenu]);
    assert_eq!(s.handle(Event::Exit), vec![Action::Exit]);
}

#[test]
fn toggling_startup_twice_restores_registration() {
    let mut s = TrayState::new(bits(2.2), true);
    s.handle(Event::ToggleStartup);
    s.handle(Event::ToggleStartup);
    assert!(s.registration);
}

fn checked(entry: &MenuEntry) -> Option<(MenuLabel, bool)> {
    match entry {
        MenuEntry::Checkable { label, checked, .. } => Some((*label, *checked)),
        _ => None,
    }
}

#[test]
fn menu_shows_the_state() {
    let mut s = TrayState::new(bits(1.8), true);
    let m = s.build_menu();
    assert_eq!(m.len(), 11);
    assert_eq!(checked(&m[0]), Some((MenuLabel::SRGB, true)));
    assert_eq!(checked(&m[2]), Some((MenuLabel::CustomGamma(bits(1.8)), false)));
    assert_eq!(checked(&m[4]), Some((MenuLabel::Gamma(bits(2.0)), false)));
    assert_eq!(checked(&m[8]), Some((MenuLabel::Autostart, true)));
    assert!(matches!(m[10], MenuEntry::Item { label: MenuLabel::Exit, .. }));
    s.handle(Event::SetGamma(bits(2.2)));
    let m = s.build_menu();
    assert_eq!(checked(&m[0]), Some((MenuLabel::SRGB, false)));
    assert_eq!(checked(&m[5]), Some((MenuLabel::Gamma(bits(2.2)), true)));
    let plain = TrayState::new(bits(2.2), false).build_menu();
    assert_eq!(plain.len(), 9);
}

#[test]
fn event_equality_follows_float_equality() {
    assert!(same_event(Event::SetGamma(bits(0.0)), Event::SetGamma(bits(-0.0))));
    assert!(!same_event(Event::SetGamma(bits(f32::NAN)), Event::SetGamma(bits(f32::NAN))));
    assert!(!same_event(Event::SetSRGB, Event::Exit));
    assert!(same_event(Event::ToggleStartup, Event::ToggleStartup));
}
