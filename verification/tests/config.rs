use zenoh_plugin_sequence_detector::{
    config_checker, ConfigCheck, ConfigError, ConfigValue, PluginConfig, SequenceDetectorPlugin,
};

fn text(s: &str) -> ConfigValue {
    ConfigValue::Text(s.to_string())
}

#[test]
fn selector_is_required() {
    let r = SequenceDetectorPlugin::parse_config(
        &ConfigValue::Absent,
        &ConfigValue::Absent,
        &ConfigValue::Absent,
    );
    assert_eq!(r, Err(ConfigError::SelectorMissing));
}

#[test]
fn defaults_for_optional_entries() {
    let c = SequenceDetectorPlugin::parse_config(
        &text("sequenced/**"),
        &ConfigValue::Absent,
        &ConfigValue::Absent,
    )
    .unwrap();
    assert_eq!(
        c,
        PluginConfig {
            selector: "sequenced/**".to_string(),
            stats_interval_secs: 60,
            stats_key: None,
        }
    );
}

#[test]
fn documented_configuration() {
    let c = SequenceDetectorPlugin::parse_config(
        &text("sensors/*/data"),
        &ConfigValue::Number(Some(30)),
        &text("admin/sequence_stats"),
    )
    .unwrap();
    assert_eq!(c.selector, "sensors/*/data");
    assert_eq!(c.stats_interval_secs, 30);
    assert_eq!(c.stats_key, Some("admin/sequence_stats".to_string()));
}

#[test]
fn number_outside_u64_falls_back_to_default() {
    let c = SequenceDetectorPlugin::parse_config(
        &text("a/b"),
        &ConfigValue::Number(None),
        &ConfigValue::Absent,
    )
    .unwrap();
    assert_eq!(c.stats_interval_secs, 60);
}

#[test]
fn selector_must_be_a_string() {
    let r = SequenceDetectorPlugin::parse_config(
        &ConfigValue::Number(Some(3)),
        &ConfigValue::Absent,
        &ConfigValue::Absent,
    );
    assert_eq!(r, Err(ConfigError::SelectorNotString));
}

#[test]
fn invalid_selectors_are_refused() {
    for bad in ["", "a/", "a/#", "a?b", "a//b", "a*b"] {
        let r = SequenceDetectorPlugin::parse_config(
            &text(bad),
            &ConfigValue::Absent,
            &ConfigValue::Absent,
        );
        match r {
            Err(ConfigError::InvalidSelector(m)) => {
                assert!(m.starts_with(&format!("Invalid Key Expr `{bad}`: ")), "{m}")
            }
            other => panic!("{bad}: {other:?}"),
        }
    }
}

#[test]
fn valid_selector_is_kept_verbatim() {
    for good in ["sequenced/**", "a/*/c", "prod/**/metrics", "x"] {
        let c = SequenceDetectorPlugin::parse_config(
            &text(good),
            &ConfigValue::Absent,
            &ConfigValue::Absent,
        )
        .unwrap();
        assert_eq!(c.selector, good);
    }
}

#[test]
fn interval_must_be_a_number() {
    let r = SequenceDetectorPlugin::parse_config(
        &text("a/b"),
        &text("30"),
        &ConfigValue::Absent,
    );
    assert_eq!(r, Err(ConfigError::StatsIntervalNotNumber));
}

#[test]
fn stats_key_must_be_a_valid_string() {
    let r = SequenceDetectorPlugin::parse_config(
        &text("a/b"),
        &ConfigValue::Absent,
        &ConfigValue::Other,
    );
    assert_eq!(r, Err(ConfigError::StatsKeyNotString));
    let r = SequenceDetectorPlugin::parse_config(
        &text("a/b"),
        &ConfigValue::Absent,
        &text("admin/#"),
    );
    match r {
        Err(ConfigError::InvalidStatsKey(m)) => {
            assert!(m.starts_with("Invalid Key Expr `admin/#`: "), "{m}")
        }
        other => panic!("{other:?}"),
    }
}

#[test]
fn first_bad_entry_decides_the_error() {
    let r = SequenceDetectorPlugin::parse_config(&ConfigValue::Other, &ConfigValue::Other, &ConfigValue::Other);
    assert_eq!(r, Err(ConfigError::SelectorNotString));
    let r = SequenceDetectorPlugin::parse_config(&text("a/b"), &ConfigValue::Other, &ConfigValue::Other);
    assert_eq!(r, Err(ConfigError::StatsIntervalNotNumber));
}

#[test]
fn same_selector_needs_no_restart() {
    assert_eq!(config_checker("selector", &text("a/b"), &text("a/b")), Ok(ConfigCheck::Unchanged));
    assert_eq!(config_checker("", &text("a/b"), &text("a/b")), Ok(ConfigCheck::Unchanged));
}

#[test]
fn changed_selector_needs_restart() {
    assert_eq!(
        config_checker("selector", &text("a/b"), &text("a/c")),
        Ok(ConfigCheck::RestartRequired)
    );
    assert_eq!(
        config_checker("", &ConfigValue::Absent, &text("a/c")),
        Ok(ConfigCheck::RestartRequired)
    );
}

#[test]
fn removed_selector_is_accepted() {
    assert_eq!(config_checker("selector", &text("a/b"), &ConfigValue::Absent), Ok(ConfigCheck::Unchanged));
}

#[test]
fn non_string_selector_is_refused() {
    assert_eq!(
        config_checker("selector", &text("a/b"), &ConfigValue::Number(Some(1))),
        Err(ConfigError::SelectorNotString)
    );
}

#[test]
fn other_paths_are_ignored() {
    assert_eq!(
        config_checker("stats_interval_secs", &text("a"), &ConfigValue::Other),
        Ok(ConfigCheck::Unchanged)
    );
}
