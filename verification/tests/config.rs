use kedu::config::{ColorMode, Config, ConfigError, TimeSpan};

#[test]
fn rejects_subsecond_sampling() {
    let mut config = Config::default();
    config.sampling.interval = TimeSpan { secs: 0, nanos: 500_000_000 };
    assert!(config.validate().is_err());
}

#[test]
fn default_config_is_valid_and_documented() {
    let config = Config::default();
    assert_eq!(config.validate(), Ok(()));
    assert_eq!(config.version, 1);
    assert_eq!(config.sampling.interval, TimeSpan::from_secs(5));
    assert_eq!(config.sampling.retention, TimeSpan::from_secs(1800));
    assert_eq!(config.sampling.maximum_samples, 21_600);
    assert_eq!(config.display.top_applications, 7);
    assert_eq!(config.display.maximum_chart_points, 600);
    assert!(config.display.mouse);
    assert_eq!(config.display.color, ColorMode::Auto);
    assert_eq!(config.daemon.log_level, "warn");
    assert!(config.storage.enabled);
}

#[test]
fn each_rule_has_its_error() {
    let mut c = Config::default();
    c.version = 2;
    assert_eq!(c.validate(), Err(ConfigError::UnsupportedVersion(2)));

    let mut c = Config::default();
    c.sampling.interval = TimeSpan::from_secs(1);
    assert_eq!(c.validate(), Ok(()));
    c.sampling.interval = TimeSpan { secs: 0, nanos: 999_999_999 };
    assert_eq!(c.validate(), Err(ConfigError::IntervalTooShort));

    let mut c = Config::default();
    c.sampling.retention = TimeSpan { secs: 4, nanos: 999 };
    assert_eq!(c.validate(), Err(ConfigError::RetentionShorterThanInterval));
    c.sampling.retention = TimeSpan::from_secs(5);
    assert_eq!(c.validate(), Ok(()));

    let mut c = Config::default();
    c.sampling.maximum_samples = 1;
    assert_eq!(c.validate(), Err(ConfigError::TooFewSamples));

    let mut c = Config::default();
    c.display.top_applications = 0;
    assert_eq!(c.validate(), Err(ConfigError::NoTopApplications));

    let mut c = Config::default();
    c.display.maximum_chart_points = 1;
    assert_eq!(c.validate(), Err(ConfigError::TooFewChartPoints));

    let mut c = Config::default();
    c.version = 0;
    c.display.maximum_chart_points = 0;
    assert_eq!(c.validate(), Err(ConfigError::UnsupportedVersion(0)));
}

#[test]
fn spans_count_whole_milliseconds() {
    assert_eq!(TimeSpan { secs: 2, nanos: 1_999_999 }.millis_i64(), 2_001);
    assert_eq!(TimeSpan { secs: u64::MAX, nanos: 0 }.millis_i64(), i64::MAX);
    assert!(TimeSpan { secs: 1, nanos: 5 }.is_shorter_than(&TimeSpan { secs: 1, nanos: 6 }));
    assert!(!TimeSpan { secs: 2, nanos: 0 }.is_shorter_than(&TimeSpan { secs: 1, nanos: 999_999_999 }));
}
