//! Configuration values and their validation.
//!
//! Override order: defaults, then the config file, then command-line flags.
//! Reading the TOML file is done by the caller; this module holds the
//! sections, their defaults and the checks on their values.

use vstd::prelude::*;
use crate::text::{duration_pattern, regex_is_match, regex_matches};

verus! {

/// Default configuration values
pub const DEFAULT_BOOTSTRAP_SINCE_DAYS: u64 = 45;
pub const DEFAULT_RANKING_SINCE_DAYS: u64 = 30;
pub const DEFAULT_WEIGHT_REVERT: i64 = 10;
pub const DEFAULT_WEIGHT_LINKED_FIX: i64 = 8;
pub const DEFAULT_MIN_EVENTS: u32 = 2;
pub const DEFAULT_MIN_CULPRITS: u32 = 2;
/// Default minimum confidence, in basis points (0.0).
pub const DEFAULT_MIN_CONFIDENCE_BP: u32 = 0;
pub const DEFAULT_WAL_CHECKPOINT_MB: u64 = 64;

/// Scan configuration section.
#[derive(Debug, Clone)]
pub struct ScanConfig {
    /// Duration string for bootstrap scan (e.g., "45d")
    pub bootstrap_since: Option<String>,
}

impl Default for ScanConfig {
    fn default() -> (r: Self)
        ensures
            r.bootstrap_since matches Some(s) && s@ == "45d"@,
    {
        ScanConfig { bootstrap_since: Some("45d".to_string()) }
    }
}

/// Signal weight configuration.
#[derive(Debug, Clone)]
pub struct WeightsConfig {
    /// Weight for revert signals
    pub revert: i64,
    /// Weight for linked-fix signals
    pub linked_fix: i64,
}

impl Default for WeightsConfig {
    fn default() -> (r: Self)
        ensures
            r.revert == DEFAULT_WEIGHT_REVERT,
            r.linked_fix == DEFAULT_WEIGHT_LINKED_FIX,
    {
        WeightsConfig { revert: DEFAULT_WEIGHT_REVERT, linked_fix: DEFAULT_WEIGHT_LINKED_FIX }
    }
}

/// Ranking configuration section.
#[derive(Debug, Clone)]
pub struct RankingConfig {
    /// Default duration for ranking window (e.g., "30d")
    pub default_since: Option<String>,
    /// Signal weights
    pub weights: WeightsConfig,
}

impl Default for RankingConfig {
    fn default() -> (r: Self)
        ensures
            r.default_since matches Some(s) && s@ == "30d"@,
            r.weights.revert == DEFAULT_WEIGHT_REVERT,
            r.weights.linked_fix == DEFAULT_WEIGHT_LINKED_FIX,
    {
        RankingConfig { default_since: Some("30d".to_string()), weights: WeightsConfig::default() }
    }
}

/// Hotspot configuration section.
#[derive(Debug, Clone)]
pub struct HotspotConfig {
    /// Minimum events to qualify as hotspot
    pub min_events: u32,
    /// Minimum culprits to qualify as hotspot
    pub min_culprits: u32,
    /// Minimum confidence threshold, in basis points (10000 is 1.0)
    pub min_confidence_bp: u32,
}

impl Default for HotspotConfig {
    fn default() -> (r: Self)
        ensures
            r.min_events == DEFAULT_MIN_EVENTS,
            r.min_culprits == DEFAULT_MIN_CULPRITS,
            r.min_confidence_bp == DEFAULT_MIN_CONFIDENCE_BP,
    {
        HotspotConfig {
            min_events: DEFAULT_MIN_EVENTS,
            min_culprits: DEFAULT_MIN_CULPRITS,
            min_confidence_bp: DEFAULT_MIN_CONFIDENCE_BP,
        }
    }
}

/// Cache configuration section.
#[derive(Debug, Clone)]
pub struct CacheConfig {
    /// WAL checkpoint threshold in MB
    pub wal_checkpoint_threshold_mb: u64,
}

impl Default for CacheConfig {
    fn default() -> (r: Self)
        ensures
            r.wal_checkpoint_threshold_mb == DEFAULT_WAL_CHECKPOINT_MB,
    {
        CacheConfig { wal_checkpoint_threshold_mb: DEFAULT_WAL_CHECKPOINT_MB }
    }
}

/// Surfaces configuration section.
#[derive(Debug, Clone)]
pub struct SurfacesConfig {
    /// Glob patterns to ignore
    pub ignore_patterns: Vec<String>,
    /// Additional ignore patterns (merged with defaults)
    pub additional_ignore: Vec<String>,
}

impl Default for SurfacesConfig {
    fn default() -> (r: Self)
        ensures
            r.ignore_patterns@.len() == 0,
            r.additional_ignore@.len() == 0,
    {
        SurfacesConfig { ignore_patterns: Vec::new(), additional_ignore: Vec::new() }
    }
}

/// Configuration loaded from TOML file.
#[derive(Debug, Clone)]
pub struct FileConfig {
    pub scan: ScanConfig,
    pub ranking: RankingConfig,
    pub hotspot: HotspotConfig,
    pub cache: CacheConfig,
    pub surfaces: SurfacesConfig,
}

impl Default for FileConfig {
    fn default() -> (r: Self)
        ensures
            r.scan.bootstrap_since matches Some(s) && s@ == "45d"@,
            r.ranking.default_since matches Some(s) && s@ == "30d"@,
            r.ranking.weights.revert == DEFAULT_WEIGHT_REVERT,
            r.ranking.weights.linked_fix == DEFAULT_WEIGHT_LINKED_FIX,
            r.hotspot.min_events == DEFAULT_MIN_EVENTS,
            r.hotspot.min_culprits == DEFAULT_MIN_CULPRITS,
            r.hotspot.min_confidence_bp == DEFAULT_MIN_CONFIDENCE_BP,
            r.cache.wal_checkpoint_threshold_mb == DEFAULT_WAL_CHECKPOINT_MB,
            r.surfaces.ignore_patterns@.len() == 0,
            r.surfaces.additional_ignore@.len() == 0,
    {
        FileConfig {
            scan: ScanConfig::default(),
            ranking: RankingConfig::default(),
            hotspot: HotspotConfig::default(),
            cache: CacheConfig::default(),
            surfaces: SurfacesConfig::default(),
        }
    }
}

/// Why a configuration was refused.
#[derive(Debug, Clone)]
pub enum ConfigError {
    /// A duration field is not digits followed by `h`, `d` or `w`.
    InvalidDuration { field: String, value: String },
    /// `hotspot.min_confidence` is above 1.0 (in basis points).
    InvalidConfidence(u32),
    /// A weight is zero or negative.
    NonPositiveWeight { field: String, value: i64 },
    /// The duration pattern could not be compiled.
    PatternUnavailable,
}

/// A duration text as the configuration accepts it.
pub open spec fn duration_text_ok(s: Seq<char>) -> bool {
    regex_matches(duration_pattern(), s)
}

/// Validate a duration string format (e.g., "30d", "2w", "12h").
pub fn validate_duration(s: &str, field: &str) -> (r: Result<(), ConfigError>)
    ensures
        r is Ok ==> duration_text_ok(s@),
        r matches Err(ConfigError::InvalidDuration { field: f, value: v }) ==> f@ == field@ && v@ == s@
            && !duration_text_ok(s@),
        r is Err ==> (r matches Err(ConfigError::InvalidDuration { .. })) || (r matches Err(
            ConfigError::PatternUnavailable,
        )),
        !(r matches Err(ConfigError::PatternUnavailable)) ==> (r is Ok <==> duration_text_ok(s@)),
        !(r matches Err(ConfigError::PatternUnavailable)),
{
    match regex_is_match("^\\d+[hdw]$", s) {
        Some(true) => Ok(()),
        Some(false) => Err(ConfigError::InvalidDuration { field: field.to_string(), value: s.to_string() }),
        None => Err(ConfigError::PatternUnavailable),
    }
}

/// The checks of `validate_config`, in their order; `true` when all pass.
pub open spec fn config_ok(c: FileConfig) -> bool {
    &&& (c.scan.bootstrap_since matches Some(s) ==> duration_text_ok(s@))
    &&& (c.ranking.default_since matches Some(s) ==> duration_text_ok(s@))
    &&& c.hotspot.min_confidence_bp <= 10000
    &&& c.ranking.weights.revert > 0
    &&& c.ranking.weights.linked_fix > 0
}

/// Validate configuration values: durations, the confidence range and the
/// weights.
pub fn validate_config(config: &FileConfig) -> (r: Result<(), ConfigError>)
    ensures
        r is Ok ==> config_ok(*config),
        !(r matches Err(ConfigError::PatternUnavailable)) ==> (r is Ok <==> config_ok(*config)),
        r matches Err(ConfigError::InvalidConfidence(v)) ==> v == config.hotspot.min_confidence_bp,
        r matches Err(ConfigError::NonPositiveWeight { value, .. }) ==> value <= 0,
        !(r matches Err(ConfigError::PatternUnavailable)),
{
    if let Some(since) = &config.scan.bootstrap_since {
        validate_duration(since.as_str(), "scan.bootstrap_since")?;
    }
    if let Some(since) = &config.ranking.default_since {
        validate_duration(since.as_str(), "ranking.default_since")?;
    }
    if config.hotspot.min_confidence_bp > 10000 {
        return Err(ConfigError::InvalidConfidence(config.hotspot.min_confidence_bp));
    }
    if config.ranking.weights.revert <= 0 {
        return Err(
            ConfigError::NonPositiveWeight {
                field: "ranking.weights.revert".to_string(),
                value: config.ranking.weights.revert,
            },
        );
    }
    if config.ranking.weights.linked_fix <= 0 {
        return Err(
            ConfigError::NonPositiveWeight {
                field: "ranking.weights.linked_fix".to_string(),
                value: config.ranking.weights.linked_fix,
            },
        );
    }
    Ok(())
}

} // verus!
