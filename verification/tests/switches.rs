use aether_render::switches::{all_switches, by_env_name, parse_switch_value, RuntimeSwitch};

#[test]
fn a_switch_starts_at_its_default_and_can_be_moved() {
    let mut switch = RuntimeSwitch::new("AETHER_TEST_SWITCH_UNSET_XYZZY", true);
    assert!(switch.enabled(), "starts at its default");
    assert!(!switch.pinned_by_env());

    switch.set(false);
    assert!(!switch.enabled(), "the UI can move an unpinned switch");
    switch.set(true);
    assert!(switch.enabled());
}

#[test]
fn the_environment_pins_a_switch_against_the_ui() {
    let mut switch =
        RuntimeSwitch::new("AETHER_TEST_SWITCH_PINNED_XYZZY", true).with_env_value(Some("0"));

    assert!(switch.pinned_by_env());
    assert!(!switch.enabled(), "the variable wins over the default");
    switch.set(true);
    assert!(!switch.enabled(), "and over the UI");
}

#[test]
fn an_ab_drives_a_switch_even_when_the_environment_pinned_it() {
    let mut switch =
        RuntimeSwitch::new("AETHER_TEST_SWITCH_AB_XYZZY", false).with_env_value(Some("1"));

    assert!(switch.enabled(), "pinned on by the variable");
    assert!(
        switch.set_ab(false),
        "reports that it is overriding the environment"
    );
    assert!(!switch.enabled(), "the A/B wins");
    switch.set_ab(true);
    assert!(switch.enabled());
}

#[test]
fn every_switch_is_findable_by_its_own_variable_name() {
    let all = all_switches();
    for switch in &all {
        assert!(
            std::ptr::eq(
                by_env_name(&all, switch.env_name()).expect("a switch must find itself"),
                switch
            ),
            "{} is not reachable by name",
            switch.env_name()
        );
    }
    assert!(by_env_name(&all, "AETHER_NOT_A_SWITCH").is_none());
    assert!(
        by_env_name(&all, "aether_filter_atlas").is_some(),
        "matched without regard to case, since it is typed by hand"
    );
}

#[test]
fn an_unrecognised_value_is_not_treated_as_an_instruction() {
    let mut switch =
        RuntimeSwitch::new("AETHER_TEST_SWITCH_JUNK_XYZZY", false).with_env_value(Some("maybe"));

    assert!(!switch.pinned_by_env(), "junk does not pin");
    switch.set(true);
    assert!(switch.enabled(), "so the UI still decides");
}

#[test]
fn every_recognised_spelling_is_understood() {
    for off in ["0", "off", "false", "no"] {
        assert_eq!(parse_switch_value(off), Some(false), "{off}");
    }
    for on in ["1", "on", "true", "yes"] {
        assert_eq!(parse_switch_value(on), Some(true), "{on}");
    }
    for junk in ["", "OFF", " 1", "yes please"] {
        assert_eq!(parse_switch_value(junk), None, "{junk}");
    }
}

#[test]
fn the_defaults_match_the_measurements() {
    let all = all_switches();
    let enabled: Vec<bool> = all.iter().map(|s| s.enabled()).collect();
    assert_eq!(enabled, vec![true, true, true, false, false]);
}
