use paperwork::config::{ApplicationConfig, Color, Probe};

#[test]
fn probes_are_added_replaced_and_removed() {
    let mut config = ApplicationConfig::default();
    config.add_probe("office".to_string(), "ping -c1 printer".to_string());
    config.add_probe("home".to_string(), "true".to_string());
    config.add_probe("office".to_string(), "ping -c1 gateway".to_string());
    assert_eq!(config.probes.len(), 2);
    assert_eq!(config.probes[0].0, "office");
    assert_eq!(config.probes[0].1, Probe { color: None, command: "ping -c1 gateway".to_string() });
    config.remove_probe("office".to_string());
    assert_eq!(config.probes.len(), 1);
    assert_eq!(config.probes[0].0, "home");
    config.remove_probe("absent".to_string());
    assert_eq!(config.probes.len(), 1);
}

#[test]
fn database_path_joins_the_data_directory() {
    let config = ApplicationConfig::default();
    assert_eq!(config.database_path("/var/data"), "/var/data/paperwork.db");
    assert_eq!(config.database_path("/var/data/"), "/var/data/paperwork.db");
    assert_eq!(config.database_path(""), "paperwork.db");
}

#[test]
fn default_configuration() {
    let config = ApplicationConfig::default();
    assert!(config.probes.is_empty());
    assert!(config.toggl.is_none());
    assert_eq!(config.workweek.default_expected_duration_seconds, 28_800);
    let probe = Probe { color: Some(Color::Green), command: "true".to_string() };
    assert_eq!(probe.clone(), probe);
}
