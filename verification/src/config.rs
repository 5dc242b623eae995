//! The configuration: sampling, metrics, display, daemon and storage
//! settings, their defaults and the rules a configuration must satisfy.
use vstd::prelude::*;

verus! {

/// A length of time, held as `std::time::Duration` holds it: whole seconds
/// and the nanoseconds beyond them.
#[derive(Clone, Copy, Debug, PartialEq, Eq, Structural)]
pub struct TimeSpan {
    pub secs: u64,
    pub nanos: u32,
}

/// `a` is shorter than `b`, compared as `Duration` compares: by seconds,
/// then by nanoseconds.
pub open spec fn span_less(a: TimeSpan, b: TimeSpan) -> bool {
    a.secs < b.secs || (a.secs == b.secs && a.nanos < b.nanos)
}

/// The whole milliseconds in a span, as `Duration::as_millis` counts them.
pub open spec fn span_millis(t: TimeSpan) -> int {
    t.secs * 1000 + t.nanos / 1_000_000
}

/// The whole milliseconds in a span, or `i64::MAX` when there are more.
pub open spec fn span_millis_i64(t: TimeSpan) -> i64 {
    if span_millis(t) > i64::MAX {
        i64::MAX
    } else {
        span_millis(t) as i64
    }
}

impl TimeSpan {
    /// A span of whole seconds.
    pub fn from_secs(secs: u64) -> (out: TimeSpan)
        ensures
            out.secs == secs,
            out.nanos == 0,
    {
        TimeSpan { secs, nanos: 0 }
    }

    /// Whether this span is shorter than `other`.
    pub fn is_shorter_than(&self, other: &TimeSpan) -> (out: bool)
        ensures
            out == span_less(*self, *other),
    {
        self.secs < other.secs || (self.secs == other.secs && self.nanos < other.nanos)
    }

    /// The whole milliseconds in this span, at most `i64::MAX`.
    pub fn millis_i64(&self) -> (out: i64)
        ensures
            out == span_millis_i64(*self),
            out >= 0,
    {
        let total: u128 = (self.secs as u128) * 1000 + ((self.nanos / 1_000_000) as u128);
        if total > i64::MAX as u128 {
            i64::MAX
        } else {
            total as i64
        }
    }
}

/// How the terminal interface colours its charts.
#[derive(Clone, Copy, Debug, PartialEq, Eq, Structural)]
pub enum ColorMode {
    Auto,
    Truecolor,
    Ansi256,
    Monochrome,
}

impl Default for ColorMode {
    fn default() -> (out: ColorMode)
        ensures
            out == ColorMode::Auto,
    {
        ColorMode::Auto
    }
}

/// How often to sample and how much history to keep.
#[derive(Clone, Copy, Debug)]
pub struct SamplingConfig {
    pub interval: TimeSpan,
    pub retention: TimeSpan,
    pub maximum_samples: usize,
}

/// Which metrics to record.
#[derive(Clone, Copy, Debug)]
pub struct MetricsConfig {
    pub cpu: bool,
    pub memory: bool,
    pub disk: bool,
    pub network: bool,
}

/// How the terminal interface draws.
#[derive(Clone, Copy, Debug)]
pub struct DisplayConfig {
    pub top_applications: usize,
    pub maximum_chart_points: usize,
    pub mouse: bool,
    pub color: ColorMode,
}

/// Settings of the background service.
#[derive(Debug)]
pub struct DaemonConfig {
    pub log_level: String,
}

/// Whether history is kept on disk.
#[derive(Clone, Copy, Debug)]
pub struct StorageConfig {
    pub enabled: bool,
}

/// The whole configuration.
#[derive(Debug)]
pub struct Config {
    pub version: u32,
    pub sampling: SamplingConfig,
    pub metrics: MetricsConfig,
    pub display: DisplayConfig,
    pub daemon: DaemonConfig,
    pub storage: StorageConfig,
}

impl Default for SamplingConfig {
    /// Every 5 seconds, 30 minutes of history, at most 21600 samples.
    fn default() -> (out: SamplingConfig)
        ensures
            out.interval == (TimeSpan { secs: 5, nanos: 0 }),
            out.retention == (TimeSpan { secs: 1800, nanos: 0 }),
            out.maximum_samples == 21_600,
    {
        SamplingConfig {
            interval: TimeSpan::from_secs(5),
            retention: TimeSpan::from_secs(30 * 60),
            maximum_samples: 21_600,
        }
    }
}

impl Default for MetricsConfig {
    /// Every metric recorded.
    fn default() -> (out: MetricsConfig)
        ensures
            out.cpu && out.memory && out.disk && out.network,
    {
        MetricsConfig { cpu: true, memory: true, disk: true, network: true }
    }
}

impl Default for DisplayConfig {
    /// Seven applications, 600 chart points, mouse on, automatic colour.
    fn default() -> (out: DisplayConfig)
        ensures
            out.top_applications == 7,
            out.maximum_chart_points == 600,
            out.mouse,
            out.color == ColorMode::Auto,
    {
        DisplayConfig {
            top_applications: 7,
            maximum_chart_points: 600,
            mouse: true,
            color: ColorMode::Auto,
        }
    }
}

impl Default for DaemonConfig {
    /// Log level `warn`.
    fn default() -> (out: DaemonConfig)
        ensures
            out.log_level@ == "warn"@,
    {
        DaemonConfig { log_level: "warn".to_owned() }
    }
}

impl Default for StorageConfig {
    /// History kept on disk.
    fn default() -> (out: StorageConfig)
        ensures
            out.enabled,
    {
        StorageConfig { enabled: true }
    }
}

/// The default configuration, as the documentation shows it.
pub open spec fn is_default_config(c: Config) -> bool {
    &&& c.version == 1
    &&& c.sampling.interval == TimeSpan { secs: 5, nanos: 0 }
    &&& c.sampling.retention == TimeSpan { secs: 1800, nanos: 0 }
    &&& c.sampling.maximum_samples == 21_600
    &&& c.metrics.cpu && c.metrics.memory && c.metrics.disk && c.metrics.network
    &&& c.display.top_applications == 7
    &&& c.display.maximum_chart_points == 600
    &&& c.display.mouse
    &&& c.display.color == ColorMode::Auto
    &&& c.daemon.log_level@ == "warn"@
    &&& c.storage.enabled
}

impl Default for Config {
    fn default() -> (out: Config)
        ensures
            is_default_config(out),
    {
        Config {
            version: 1,
            sampling: SamplingConfig::default(),
            metrics: MetricsConfig::default(),
            display: DisplayConfig::default(),
            daemon: DaemonConfig::default(),
            storage: StorageConfig::default(),
        }
    }
}

/// Why a configuration is refused.
#[derive(Clone, Copy, Debug, PartialEq, Eq, Structural)]
pub enum ConfigError {
    /// `version` is not 1.
    UnsupportedVersion(u32),
    /// `sampling.interval` is shorter than one second.
    IntervalTooShort,
    /// `sampling.retention` is shorter than `sampling.interval`.
    RetentionShorterThanInterval,
    /// `sampling.maximum_samples` is below 2.
    TooFewSamples,
    /// `display.top_applications` is 0.
    NoTopApplications,
    /// `display.maximum_chart_points` is below 2.
    TooFewChartPoints,
}

/// The first rule that `c` breaks, checked in this order: version,
/// interval, retention, sample count, top applications, chart points.
pub open spec fn config_error(c: Config) -> Option<ConfigError> {
    if c.version != 1 {
        Some(ConfigError::UnsupportedVersion(c.version))
    } else if span_less(c.sampling.interval, TimeSpan { secs: 1, nanos: 0 }) {
        Some(ConfigError::IntervalTooShort)
    } else if span_less(c.sampling.retention, c.sampling.interval) {
        Some(ConfigError::RetentionShorterThanInterval)
    } else if c.sampling.maximum_samples < 2 {
        Some(ConfigError::TooFewSamples)
    } else if c.display.top_applications == 0 {
        Some(ConfigError::NoTopApplications)
    } else if c.display.maximum_chart_points < 2 {
        Some(ConfigError::TooFewChartPoints)
    } else {
        None
    }
}

impl Config {
    /// Checks the configuration's rules; the error names the first rule
    /// broken.
    pub fn validate(&self) -> (out: Result<(), ConfigError>)
        ensures
            match config_error(*self) {
                Some(e) => out == Err::<(), ConfigError>(e),
                None => out is Ok,
            },
    {
        if self.version != 1 {
            return Err(ConfigError::UnsupportedVersion(self.version));
        }
        if self.sampling.interval.is_shorter_than(&TimeSpan::from_secs(1)) {
            return Err(ConfigError::IntervalTooShort);
        }
        if self.sampling.retention.is_shorter_than(&self.sampling.interval) {
            return Err(ConfigError::RetentionShorterThanInterval);
        }
        if self.sampling.maximum_samples < 2 {
            return Err(ConfigError::TooFewSamples);
        }
        if self.display.top_applications == 0 {
            return Err(ConfigError::NoTopApplications);
        }
        if self.display.maximum_chart_points < 2 {
            return Err(ConfigError::TooFewChartPoints);
        }
        Ok(())
    }
}

} // verus!

verus! {

/// The default configuration passes validation.
pub proof fn lemma_default_config_is_valid(c: Config)
    requires
        is_default_config(c),
    ensures
        config_error(c) is None,
{
}

/// A configuration is accepted exactly when its version is 1, it samples at
/// least once a second, keeps history at least as long as one interval,
/// keeps at least 2 samples, shows at least one application and draws at
/// least 2 chart points; a refused one is refused for the first broken rule
/// in that order.
pub proof fn lemma_validation_rules(c: Config)
    ensures
        config_error(c) is None <==> {
            &&& c.version == 1
            &&& c.sampling.interval.secs >= 1
            &&& (c.sampling.retention.secs > c.sampling.interval.secs || (c.sampling.retention.secs
                == c.sampling.interval.secs && c.sampling.retention.nanos
                >= c.sampling.interval.nanos))
            &&& c.sampling.maximum_samples >= 2
            &&& c.display.top_applications >= 1
            &&& c.display.maximum_chart_points >= 2
        },
        c.version != 1 ==> config_error(c) == Some(ConfigError::UnsupportedVersion(c.version)),
        c.version == 1 && c.sampling.interval.secs == 0 ==> config_error(c) == Some(
            ConfigError::IntervalTooShort,
        ),
        c.version == 1 && c.sampling.interval.secs >= 1 && c.sampling.retention.secs
            < c.sampling.interval.secs ==> config_error(c) == Some(
            ConfigError::RetentionShorterThanInterval,
        ),
        c.version == 1 && c.sampling.interval.secs >= 1 && c.sampling.retention.secs
            > c.sampling.interval.secs && c.sampling.maximum_samples < 2 ==> config_error(c) == Some(
            ConfigError::TooFewSamples,
        ),
{
}

} // verus!
