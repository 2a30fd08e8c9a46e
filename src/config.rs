use vstd::prelude::*;

verus! {

pub struct ServerConfig {
    pub host: String,
    pub port: u16,
    pub workers: usize,
}

pub struct RedisConfig {
    pub url: String,
    pub queue_name: String,
    pub max_connections: u32,
}

pub struct ClickHouseConfig {
    pub url: String,
    pub database: String,
    pub username: String,
    pub password: String,
}

/// Which hard-intel feeds are enabled.
pub struct HardIntelConfig {
    pub google_safe_browsing_api_key: String,
    pub abuse_ch_enabled: bool,
    pub shadowserver_enabled: bool,
    pub spamhaus_enabled: bool,
    pub coinblocker_enabled: bool,
}

/// Featurizer switches and cache lifetimes (seconds).
#[derive(Debug, Clone, Copy, PartialEq, Eq, Structural)]
pub struct FeatureConfig {
    pub check_idn_homoglyphs: bool,
    pub check_typosquatting: bool,
    pub check_dga: bool,
    pub check_nrd: bool,
    pub check_dynamic_dns: bool,
    pub check_parked_domains: bool,
    pub check_cname_cloaking: bool,
    pub feature_cache_ttl: u64,
    pub intel_cache_ttl: u64,
    pub max_dns_lookups: usize,
}

pub struct StudentModelConfig {
    pub path: String,
    pub feature_count: usize,
}

pub struct LoggingConfig {
    pub level: String,
    pub format: String,
}

impl ServerConfig {
    pub fn default_config() -> (r: ServerConfig)
        ensures
            r.host@ == "0.0.0.0"@,
            r.port == 8000,
            r.workers == 4,
    {
        ServerConfig { host: String::from_str("0.0.0.0"), port: 8000, workers: 4 }
    }
}

impl RedisConfig {
    pub fn default_config() -> (r: RedisConfig)
        ensures
            r.url@ == "redis://localhost:6379"@,
            r.queue_name@ == "analyzer_queue"@,
            r.max_connections == 10,
    {
        RedisConfig {
            url: String::from_str("redis://localhost:6379"),
            queue_name: String::from_str("analyzer_queue"),
            max_connections: 10,
        }
    }
}

impl ClickHouseConfig {
    pub fn default_config() -> (r: ClickHouseConfig)
        ensures
            r.url@ == "http://localhost:8123"@,
            r.database@ == "garuda"@,
            r.username@ == "default"@,
            r.password@.len() == 0,
    {
        ClickHouseConfig {
            url: String::from_str("http://localhost:8123"),
            database: String::from_str("garuda"),
            username: String::from_str("default"),
            password: String::new(),
        }
    }
}

impl HardIntelConfig {
    /// Every feed enabled, no Safe Browsing key.
    pub fn default_config() -> (r: HardIntelConfig)
        ensures
            r.google_safe_browsing_api_key@.len() == 0,
            r.abuse_ch_enabled && r.shadowserver_enabled && r.spamhaus_enabled && r.coinblocker_enabled,
    {
        HardIntelConfig {
            google_safe_browsing_api_key: String::new(),
            abuse_ch_enabled: true,
            shadowserver_enabled: true,
            spamhaus_enabled: true,
            coinblocker_enabled: true,
        }
    }
}

impl FeatureConfig {
    /// Every check enabled; features cached 300 s, intel 3600 s.
    pub fn default_config() -> (r: FeatureConfig)
        ensures
            r.check_idn_homoglyphs && r.check_typosquatting && r.check_dga && r.check_nrd,
            r.check_dynamic_dns && r.check_parked_domains && r.check_cname_cloaking,
            r.feature_cache_ttl == 300,
            r.intel_cache_ttl == 3600,
            r.max_dns_lookups == 5,
    {
        FeatureConfig {
            check_idn_homoglyphs: true,
            check_typosquatting: true,
            check_dga: true,
            check_nrd: true,
            check_dynamic_dns: true,
            check_parked_domains: true,
            check_cname_cloaking: true,
            feature_cache_ttl: 300,
            intel_cache_ttl: 3600,
            max_dns_lookups: 5,
        }
    }
}

impl StudentModelConfig {
    pub fn default_config() -> (r: StudentModelConfig)
        ensures
            r.path@ == "models/student.json"@,
            r.feature_count == 50,
    {
        StudentModelConfig { path: String::from_str("models/student.json"), feature_count: 50 }
    }
}

impl LoggingConfig {
    pub fn default_config() -> (r: LoggingConfig)
        ensures
            r.level@ == "info"@,
            r.format@ == "json"@,
    {
        LoggingConfig { level: String::from_str("info"), format: String::from_str("json") }
    }
}

/// The detector switches the featurizer runs with.
pub struct ThreatDetectors {
    pub config: FeatureConfig,
}

impl ThreatDetectors {
    pub fn new(config: &FeatureConfig) -> (r: ThreatDetectors)
        ensures
            r.config == *config,
    {
        ThreatDetectors { config: *config }
    }
}

/// A scoring request: a domain and an optional URL.
pub struct ScoreRequest {
    pub domain: String,
    pub url: Option<String>,
}

/// The answer to a reward submission.
pub struct FeedbackResponse {
    pub success: bool,
    pub message: String,
}

impl FeedbackResponse {
    /// The answer when the reward updated the bandit (`applied`) or was kept
    /// for audit only.
    pub fn for_outcome(applied: bool) -> (r: FeedbackResponse)
        ensures
            r.success,
            applied ==> r.message@ == "reward applied"@,
            !applied ==> r.message@ == "no pending context; reward logged only"@,
    {
        if applied {
            FeedbackResponse { success: true, message: String::from_str("reward applied") }
        } else {
            FeedbackResponse { success: true, message: String::from_str("no pending context; reward logged only") }
        }
    }
}

} // verus!
