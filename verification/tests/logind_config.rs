use dynamod::logind::config::{parse_bool, parse_duration_sec, Config, HandleAction};
use dynamod::time::Duration;

#[test]
fn parses_handle_actions() {
    let mut cfg = Config::default();
    cfg.merge(
        r#"
            # comment
            [Login]
            HandleLidSwitch=ignore
            HandlePowerKey=poweroff
            HandleSuspendKey=hybrid-sleep
            "#,
    );
    assert_eq!(cfg.handle_lid_switch, HandleAction::Ignore);
    assert_eq!(cfg.handle_power_key, HandleAction::Poweroff);
    assert_eq!(cfg.handle_suspend_key, HandleAction::HybridSleep);
}

#[test]
fn parses_durations() {
    assert_eq!(parse_duration_sec("5"), Some(Duration::from_secs(5)));
    assert_eq!(parse_duration_sec("30s"), Some(Duration::from_secs(30)));
    assert_eq!(parse_duration_sec("2min"), Some(Duration::from_secs(120)));
    assert_eq!(parse_duration_sec("1h"), Some(Duration::from_secs(3600)));
    assert_eq!(parse_duration_sec("garbage"), None);
}

#[test]
fn parses_bools() {
    assert_eq!(parse_bool("yes"), Some(true));
    assert_eq!(parse_bool("NO"), Some(false));
    assert_eq!(parse_bool("on"), Some(true));
    assert_eq!(parse_bool("maybe"), None);
}

#[test]
fn defaults_preserved_on_unknown_value() {
    let mut cfg = Config::default();
    cfg.merge("HandleLidSwitch=banana\nNAutoVTs=4\n");
    assert_eq!(cfg.handle_lid_switch, HandleAction::Suspend);
    assert_eq!(cfg.n_auto_vts, 4);
}

#[test]
fn unknown_keys_are_ignored() {
    let mut cfg = Config::default();
    cfg.merge("NotARealKey=blah\nHandleLidSwitch=ignore\n");
    assert_eq!(cfg.handle_lid_switch, HandleAction::Ignore);
}

#[test]
fn inhibit_what_matches_systemd() {
    assert_eq!(HandleAction::Poweroff.inhibit_what(), "shutdown");
    assert_eq!(HandleAction::Suspend.inhibit_what(), "sleep");
    assert_eq!(HandleAction::Ignore.inhibit_what(), "");
}

#[test]
fn last_of_two_settings_counts() {
    let mut cfg = Config::default();
    cfg.merge("HandlePowerKey=reboot\nHandlePowerKey=halt\n");
    assert_eq!(cfg.handle_power_key, HandleAction::Halt);
    cfg.merge("HandlePowerKey=nonsense\n");
    assert_eq!(cfg.handle_power_key, HandleAction::Halt);
}

#[test]
fn missing_file_leaves_the_defaults() {
    let cfg = Config::load(None);
    assert_eq!(cfg.inhibit_delay_max, Duration::from_secs(5));
    assert_eq!(cfg.handle_lid_switch, HandleAction::Suspend);
    let cfg = Config::load(Some("InhibitDelayMaxSec=2min"));
    assert_eq!(cfg.inhibit_delay_max, Duration::from_secs(120));
}
