use cool_scroll::motion::{Effect, Settings};

#[test]
fn altitude_and_distortion_are_mutually_exclusive() {
    let mut settings = Settings::default();
    assert!(settings.is_on(Effect::Parallax));

    settings.set(Effect::Altitude, true);
    assert!(settings.is_on(Effect::Altitude));
    assert!(!settings.is_on(Effect::Parallax));
    assert!(!settings.is_on(Effect::Comfort));

    settings.set(Effect::Barrel, true);
    assert!(settings.is_on(Effect::Barrel));
    assert!(!settings.is_on(Effect::Altitude));
}

#[test]
fn the_default_arms_parallax_and_comfort() {
    let settings = Settings::default();
    let armed: Vec<Effect> = Effect::ALL.into_iter().filter(|e| settings.is_on(*e)).collect();
    assert_eq!(armed, vec![Effect::Parallax, Effect::Comfort]);
}

#[test]
fn disarming_touches_only_the_named_effect() {
    let mut settings = Settings::default();
    settings.set(Effect::Gravity, true);
    settings.set(Effect::Parallax, false);
    let armed: Vec<Effect> = Effect::ALL.into_iter().filter(|e| settings.is_on(*e)).collect();
    assert_eq!(armed, vec![Effect::Gravity, Effect::Comfort]);
    settings.set(Effect::Altitude, false);
    let again: Vec<Effect> = Effect::ALL.into_iter().filter(|e| settings.is_on(*e)).collect();
    assert_eq!(again, armed);
}

#[test]
fn arming_altitude_disarms_everything_else_and_back() {
    let mut settings = Settings::default();
    for effect in Effect::ALL {
        settings.set(effect, true);
    }
    // Altitude came last, so it is the only one left.
    let armed: Vec<Effect> = Effect::ALL.into_iter().filter(|e| settings.is_on(*e)).collect();
    assert_eq!(armed, vec![Effect::Altitude]);
    settings.set(Effect::Comfort, true);
    let armed: Vec<Effect> = Effect::ALL.into_iter().filter(|e| settings.is_on(*e)).collect();
    assert_eq!(armed, vec![Effect::Comfort]);
}

#[test]
fn altitude_never_shares_the_panel() {
    // Every sequence of three switches keeps Altitude on its own.
    let mut cases = 0;
    for a in Effect::ALL {
        for b in Effect::ALL {
            for c in Effect::ALL {
                for on in 0..8u8 {
                    let mut settings = Settings::default();
                    settings.set(a, on & 1 != 0);
                    settings.set(b, on & 2 != 0);
                    settings.set(c, on & 4 != 0);
                    if settings.is_on(Effect::Altitude) {
                        let others = Effect::ALL
                            .into_iter()
                            .filter(|e| *e != Effect::Altitude && settings.is_on(*e))
                            .count();
                        assert_eq!(others, 0);
                    }
                    cases += 1;
                }
            }
        }
    }
    assert_eq!(cases, 1000);
}

#[test]
fn every_effect_has_its_own_place() {
    for (position, effect) in Effect::ALL.into_iter().enumerate() {
        assert_eq!(effect.index(), position);
    }
    assert_eq!(Effect::Altitude.index(), 4);
}

#[test]
fn effects_are_named_as_the_panel_shows_them() {
    let keys: Vec<&str> = Effect::ALL.into_iter().map(Effect::key).collect();
    assert_eq!(keys, vec!["parallax", "barrel", "gravity", "comfort", "altitude"]);
    let titles: Vec<&str> = Effect::ALL.into_iter().map(Effect::title).collect();
    assert_eq!(
        titles,
        vec![
            "1. Parallax Horizon",
            "2. Rotating Barrel",
            "3. Black Hole",
            "4. Kinetic Fading (Comfort)",
            "5. Altitude",
        ]
    );
    assert!(Effect::Parallax.description().starts_with("Linear tilt."));
    assert!(Effect::Barrel.description().starts_with("Symmetrical cylinder."));
    assert!(Effect::Gravity.description().starts_with("Kinetic response."));
    assert!(Effect::Comfort.description().starts_with("Washes out large"));
    assert!(Effect::Altitude.description().starts_with("No speed cap, no distortion field."));
    assert!(Effect::Gravity.description().ends_with("which fights itself."));
}

#[test]
fn toggling_lists_the_switches_that_move() {
    let mut settings = Settings::default();
    // Arming Altitude disarms Parallax and Comfort along with it.
    let moved = settings.toggle(Effect::Altitude);
    assert_eq!(moved, vec![Effect::Parallax, Effect::Comfort, Effect::Altitude]);
    assert!(settings.is_on(Effect::Altitude));
    // Arming Barrel disarms Altitude.
    let moved = settings.toggle(Effect::Barrel);
    assert_eq!(moved, vec![Effect::Barrel, Effect::Altitude]);
    // Disarming Barrel moves only Barrel.
    let moved = settings.toggle(Effect::Barrel);
    assert_eq!(moved, vec![Effect::Barrel]);
    assert!(!settings.is_on(Effect::Barrel));
}

#[test]
fn every_toggle_moves_its_own_switch() {
    for first in Effect::ALL {
        for second in Effect::ALL {
            let mut settings = Settings::default();
            settings.toggle(first);
            let before: Vec<bool> = Effect::ALL.iter().map(|e| settings.is_on(*e)).collect();
            let moved = settings.toggle(second);
            assert!(moved.contains(&second));
            for (slot, effect) in Effect::ALL.into_iter().enumerate() {
                assert_eq!(moved.contains(&effect), before[slot] != settings.is_on(effect));
            }
        }
    }
}
