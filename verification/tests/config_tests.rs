use mobius_rtsp::config::{
    default_port, infinite, prefix, shared, ConfigError, FaultInjection, MobiusConfig, Overrides,
    DROP_SCALE,
};

fn expect_config(overrides: Overrides) -> MobiusConfig {
    match MobiusConfig::new(overrides) {
        Ok(config) => config,
        Err(error) => panic!("refused: {}", error.message()),
    }
}

fn expect_error(overrides: Overrides) -> ConfigError {
    match MobiusConfig::new(overrides) {
        Ok(config) => panic!("accepted: {:?}", config),
        Err(error) => error,
    }
}

#[test]
fn default_values() {
    assert_eq!(default_port(), 8554);
    assert_eq!(prefix(), "mobius-stream");
    assert!(shared());
    assert!(infinite());
    let faults = FaultInjection::default();
    assert_eq!(faults.min_disconnect_seconds, 10);
    assert_eq!(faults.max_disconnect_seconds, 30);
    assert_eq!(faults.min_break_interval_seconds, 10);
    assert_eq!(faults.max_break_interval_seconds, 30);
    assert_eq!(faults.min_drop_probability, 50_000);
    assert_eq!(faults.max_drop_probability, 900_000);
    assert_eq!(DROP_SCALE, 1_000_000);
}

#[test]
fn empty_environment_gives_the_defaults() {
    let config = expect_config(Overrides::new());
    assert_eq!(config.port, 8554);
    assert_eq!(config.prefix, "mobius-stream");
    assert!(config.shared);
    assert!(config.infinite);
    assert_eq!(config.fault_injection, FaultInjection::default());
}

#[test]
fn named_values_replace_the_defaults() {
    let mut overrides = Overrides::new();
    overrides.port = Some(9000);
    overrides.prefix = Some(String::from("live"));
    overrides.shared = Some(false);
    overrides.infinite = Some(false);
    overrides.min_disconnect_seconds = Some(1);
    overrides.max_disconnect_seconds = Some(2);
    overrides.min_break_interval_seconds = Some(3);
    overrides.max_break_interval_seconds = Some(4);
    overrides.min_drop_probability = Some(5);
    overrides.max_drop_probability = Some(6);
    let config = expect_config(overrides);
    assert_eq!(config.port, 9000);
    assert_eq!(config.prefix, "live");
    assert!(!config.shared);
    assert!(!config.infinite);
    assert_eq!(
        config.fault_injection,
        FaultInjection {
            min_disconnect_seconds: 1,
            max_disconnect_seconds: 2,
            min_break_interval_seconds: 3,
            max_break_interval_seconds: 4,
            min_drop_probability: 5,
            max_drop_probability: 6,
        }
    );
}

#[test]
fn a_single_named_value_leaves_the_other_defaults() {
    let mut overrides = Overrides::new();
    overrides.max_disconnect_seconds = Some(45);
    let config = expect_config(overrides);
    assert_eq!(config.port, 8554);
    assert_eq!(config.fault_injection.min_disconnect_seconds, 10);
    assert_eq!(config.fault_injection.max_disconnect_seconds, 45);
    assert_eq!(config.fault_injection.max_drop_probability, 900_000);
}

#[test]
fn port_bounds() {
    let mut lowest = Overrides::new();
    lowest.port = Some(1);
    assert_eq!(expect_config(lowest).port, 1);
    let mut highest = Overrides::new();
    highest.port = Some(65535);
    assert_eq!(expect_config(highest).port, 65535);
    let mut zero = Overrides::new();
    zero.port = Some(0);
    assert_eq!(expect_error(zero), ConfigError::PortOutOfRange);
    let mut above = Overrides::new();
    above.port = Some(65536);
    assert_eq!(expect_error(above), ConfigError::PortOutOfRange);
    let mut huge = Overrides::new();
    huge.port = Some(u64::MAX);
    assert_eq!(expect_error(huge), ConfigError::PortOutOfRange);
}

#[test]
fn empty_prefix_is_refused() {
    let mut overrides = Overrides::new();
    overrides.prefix = Some(String::new());
    assert_eq!(expect_error(overrides), ConfigError::EmptyPrefix);
}

#[test]
fn disconnect_bounds_out_of_order() {
    let mut overrides = Overrides::new();
    overrides.min_disconnect_seconds = Some(31);
    assert_eq!(expect_error(overrides), ConfigError::DisconnectBounds);
    let mut lowered = Overrides::new();
    lowered.max_disconnect_seconds = Some(9);
    assert_eq!(expect_error(lowered), ConfigError::DisconnectBounds);
}

#[test]
fn break_interval_bounds_out_of_order() {
    let mut overrides = Overrides::new();
    overrides.min_break_interval_seconds = Some(40);
    overrides.max_break_interval_seconds = Some(39);
    assert_eq!(expect_error(overrides), ConfigError::BreakIntervalBounds);
}

#[test]
fn drop_probability_above_certainty() {
    let mut overrides = Overrides::new();
    overrides.max_drop_probability = Some(1_000_001);
    assert_eq!(expect_error(overrides), ConfigError::DropProbabilityOutOfRange);
    let mut certain = Overrides::new();
    certain.max_drop_probability = Some(1_000_000);
    assert_eq!(expect_config(certain).fault_injection.max_drop_probability, 1_000_000);
}

#[test]
fn drop_probability_bounds_out_of_order() {
    let mut overrides = Overrides::new();
    overrides.min_drop_probability = Some(900_001);
    assert_eq!(expect_error(overrides), ConfigError::DropProbabilityBounds);
}

#[test]
fn equal_bounds_are_accepted() {
    let mut overrides = Overrides::new();
    overrides.min_disconnect_seconds = Some(20);
    overrides.max_disconnect_seconds = Some(20);
    overrides.min_break_interval_seconds = Some(0);
    overrides.max_break_interval_seconds = Some(0);
    overrides.min_drop_probability = Some(1_000_000);
    overrides.max_drop_probability = Some(1_000_000);
    let config = expect_config(overrides);
    assert_eq!(config.fault_injection.min_disconnect_seconds, 20);
    assert_eq!(config.fault_injection.max_break_interval_seconds, 0);
    assert_eq!(config.fault_injection.min_drop_probability, 1_000_000);
}

#[test]
fn the_first_broken_rule_is_reported() {
    let mut overrides = Overrides::new();
    overrides.port = Some(0);
    overrides.prefix = Some(String::new());
    overrides.min_disconnect_seconds = Some(100);
    assert_eq!(expect_error(overrides), ConfigError::PortOutOfRange);
    let mut second = Overrides::new();
    second.prefix = Some(String::new());
    second.min_drop_probability = Some(2_000_000);
    second.max_drop_probability = Some(3_000_000);
    assert_eq!(expect_error(second), ConfigError::EmptyPrefix);
    let mut third = Overrides::new();
    third.min_break_interval_seconds = Some(31);
    third.min_drop_probability = Some(2_000_000);
    third.max_drop_probability = Some(3_000_000);
    assert_eq!(expect_error(third), ConfigError::BreakIntervalBounds);
    let mut fourth = Overrides::new();
    fourth.min_drop_probability = Some(3_000_000);
    fourth.max_drop_probability = Some(2_000_000);
    assert_eq!(expect_error(fourth), ConfigError::DropProbabilityOutOfRange);
}

#[test]
fn error_messages() {
    assert_eq!(ConfigError::PortOutOfRange.message(), "port must lie between 1 and 65535");
    assert_eq!(ConfigError::EmptyPrefix.message(), "stream path prefix must not be empty");
    assert_eq!(
        ConfigError::DisconnectBounds.message(),
        "minimum disconnect time exceeds the maximum"
    );
    assert_eq!(
        ConfigError::BreakIntervalBounds.message(),
        "minimum break interval exceeds the maximum"
    );
    assert_eq!(ConfigError::DropProbabilityOutOfRange.message(), "drop probability exceeds 1");
    assert_eq!(
        ConfigError::DropProbabilityBounds.message(),
        "minimum drop probability exceeds the maximum"
    );
}
