//! Server configuration.
//!
//! A configuration starts from defaults; the configuration file, then the
//! environment, then the command line override it in turn:
//! `defaults < file < environment < command line`. A value that does not
//! parse is ignored and leaves the setting as it was.
use vstd::prelude::*;
use crate::utils::text::{blank, is_blank, parse_bool, parse_unsigned, parsed_bool, parsed_unsigned, same_text};

verus! {

/// The settings of the cache server.
#[derive(Debug, Clone)]
pub struct AppConfig {
    /// TCP port of the cache server.
    pub port: u16,
    /// TLS port, when TLS is on.
    pub tls_port: Option<u16>,
    /// UDP port, when UDP is on.
    pub udp_port: Option<u16>,
    /// Memory limit of the cache in megabytes.
    pub memory_mb: usize,
    /// Whether to run in the background.
    pub daemon: bool,
    /// Log level override.
    pub log_level: Option<String>,
    /// Persistence settings.
    pub persistence: PersistenceSection,
    /// Gossip settings.
    pub gossip: GossipSection,
    /// Lifetime of hot-cache entries in seconds.
    pub hot_cache_ttl_secs: Option<u64>,
}

/// Persistence settings.
#[derive(Debug, Clone)]
pub struct PersistenceSection {
    pub enabled: bool,
    pub data_dir: Option<String>,
    pub snapshot_interval: Option<u64>,
    pub wal_disabled: Option<bool>,
    pub wal_max_mb: Option<usize>,
    pub no_compress_snapshots: Option<bool>,
}

/// Gossip settings.
#[derive(Debug, Clone)]
pub struct GossipSection {
    pub enabled: bool,
    pub port: Option<u16>,
    pub interval: Option<u64>,
    pub fanout: Option<usize>,
    pub suspicion_timeout: Option<u64>,
    pub failure_timeout: Option<u64>,
    pub failure_check_interval: Option<u64>,
}

/// The contents of a configuration file, section by section; a missing
/// section or key is `None`.
#[derive(Debug, Clone)]
pub struct FileConfig {
    pub server: Option<ServerFile>,
    pub persistence: Option<PersistenceFile>,
    pub gossip: Option<GossipFile>,
    pub logging: Option<LoggingFile>,
    pub hot_cache: Option<HotCacheFile>,
}

/// The `[server]` section.
#[derive(Debug, Clone)]
pub struct ServerFile {
    pub port: Option<u16>,
    pub memory: Option<usize>,
    pub daemon: Option<bool>,
}

/// The `[persistence]` section.
#[derive(Debug, Clone)]
pub struct PersistenceFile {
    pub enabled: Option<bool>,
    pub data_dir: Option<String>,
    pub snapshot_interval: Option<u64>,
    pub wal_disabled: Option<bool>,
    pub wal_max_mb: Option<usize>,
    pub no_compress_snapshots: Option<bool>,
}

/// The `[gossip]` section.
#[derive(Debug, Clone)]
pub struct GossipFile {
    pub enabled: Option<bool>,
    pub port: Option<u16>,
    pub interval: Option<u64>,
    pub fanout: Option<usize>,
    pub suspicion_timeout: Option<u64>,
    pub failure_timeout: Option<u64>,
    pub failure_check_interval: Option<u64>,
}

/// The `[logging]` section.
#[derive(Debug, Clone)]
pub struct LoggingFile {
    pub level: Option<String>,
}

/// The `[hot_cache]` section.
#[derive(Debug, Clone)]
pub struct HotCacheFile {
    pub ttl_secs: Option<u64>,
}

/// The values of the configuration's environment variables, `None` where a
/// variable is unset.
#[derive(Debug, Clone)]
pub struct EnvSettings {
    /// `BLAZECACHE_PORT`
    pub port: Option<String>,
    /// `BLAZECACHE_UDP_PORT`
    pub udp_port: Option<String>,
    /// `BLAZECACHE_MEMORY_MB`
    pub memory_mb: Option<String>,
    /// `BLAZECACHE_DAEMON`
    pub daemon: Option<String>,
    /// `BLAZECACHE_LOG_LEVEL`
    pub log_level: Option<String>,
    /// `PERSISTENCE_ENABLED`
    pub persistence_enabled: Option<String>,
    /// `PERSISTENCE_DATA_DIR`
    pub persistence_data_dir: Option<String>,
    /// `PERSISTENCE_SNAPSHOT_INTERVAL`
    pub snapshot_interval: Option<String>,
    /// `PERSISTENCE_WAL_DISABLED`
    pub wal_disabled: Option<String>,
    /// `PERSISTENCE_WAL_MAX_MB`
    pub wal_max_mb: Option<String>,
    /// `PERSISTENCE_NO_COMPRESS_SNAPSHOTS`
    pub no_compress_snapshots: Option<String>,
    /// `GOSSIP_ENABLED`
    pub gossip_enabled: Option<String>,
    /// `GOSSIP_PORT`
    pub gossip_port: Option<String>,
    /// `GOSSIP_INTERVAL`
    pub gossip_interval: Option<String>,
    /// `GOSSIP_FANOUT`
    pub gossip_fanout: Option<String>,
    /// `GOSSIP_SUSPICION_TIMEOUT`
    pub gossip_suspicion_timeout: Option<String>,
    /// `GOSSIP_FAILURE_TIMEOUT`
    pub gossip_failure_timeout: Option<String>,
    /// `GOSSIP_FAILURE_CHECK_INTERVAL`
    pub gossip_failure_check_interval: Option<String>,
    /// `HOT_CACHE_TTL_SECS`
    pub hot_cache_ttl_secs: Option<String>,
}

// ---------------------------------------------------------------------------
// Parsing of values.
// ---------------------------------------------------------------------------

/// A `u16` as `str::parse` reads it.
pub open spec fn parsed_u16(s: Seq<char>) -> Option<u16> {
    match parsed_unsigned(s, 0xFFFF) {
        Some(n) => Some(n as u16),
        None => None,
    }
}

/// A `usize` as `str::parse` reads it.
pub open spec fn parsed_usize(s: Seq<char>) -> Option<usize> {
    match parsed_unsigned(s, usize::MAX as nat) {
        Some(n) => Some(n as usize),
        None => None,
    }
}

/// A `u64` as `str::parse` reads it.
pub open spec fn parsed_u64(s: Seq<char>) -> Option<u64> {
    match parsed_unsigned(s, 0xFFFF_FFFF_FFFF_FFFF) {
        Some(n) => Some(n as u64),
        None => None,
    }
}

fn parse_u16(s: &str) -> (r: Option<u16>)
    ensures
        r == parsed_u16(s@),
{
    match parse_unsigned(s, 0xFFFF) {
        Some(n) => Some(n as u16),
        None => None,
    }
}

fn parse_usize(s: &str) -> (r: Option<usize>)
    ensures
        r == parsed_usize(s@),
{
    match parse_unsigned(s, usize::MAX as u64) {
        Some(n) => Some(n as usize),
        None => None,
    }
}

fn parse_u64(s: &str) -> (r: Option<u64>)
    ensures
        r == parsed_u64(s@),
{
    parse_unsigned(s, 0xFFFF_FFFF_FFFF_FFFF)
}

/// `a` if it is there, else `b`.
pub open spec fn first<T>(a: Option<T>, b: Option<T>) -> Option<T> {
    match a {
        Some(x) => Some(x),
        None => b,
    }
}

// ---------------------------------------------------------------------------
// Defaults.
// ---------------------------------------------------------------------------

/// The default persistence settings: off, nothing set.
pub open spec fn default_persistence() -> PersistenceSection {
    PersistenceSection {
        enabled: false,
        data_dir: None,
        snapshot_interval: None,
        wal_disabled: None,
        wal_max_mb: None,
        no_compress_snapshots: None,
    }
}

/// The default gossip settings: off, nothing set.
pub open spec fn default_gossip() -> GossipSection {
    GossipSection {
        enabled: false,
        port: None,
        interval: None,
        fanout: None,
        suspicion_timeout: None,
        failure_timeout: None,
        failure_check_interval: None,
    }
}

/// The default configuration: port 6784, 64 MB, hot-cache entries living
/// one second, everything else off.
pub open spec fn default_config() -> AppConfig {
    AppConfig {
        port: 6784,
        tls_port: None,
        udp_port: None,
        memory_mb: 64,
        daemon: false,
        log_level: None,
        persistence: default_persistence(),
        gossip: default_gossip(),
        hot_cache_ttl_secs: Some(1),
    }
}

impl Default for PersistenceSection {
    fn default() -> (s: Self)
        ensures
            s == default_persistence(),
    {
        PersistenceSection {
            enabled: false,
            data_dir: None,
            snapshot_interval: None,
            wal_disabled: None,
            wal_max_mb: None,
            no_compress_snapshots: None,
        }
    }
}

impl Default for GossipSection {
    fn default() -> (s: Self)
        ensures
            s == default_gossip(),
    {
        GossipSection {
            enabled: false,
            port: None,
            interval: None,
            fanout: None,
            suspicion_timeout: None,
            failure_timeout: None,
            failure_check_interval: None,
        }
    }
}

impl Default for AppConfig {
    fn default() -> (c: Self)
        ensures
            c == default_config(),
    {
        AppConfig {
            port: 6784,
            tls_port: None,
            udp_port: None,
            memory_mb: 64,
            daemon: false,
            log_level: None,
            persistence: PersistenceSection::default(),
            gossip: GossipSection::default(),
            hot_cache_ttl_secs: Some(1),
        }
    }
}

impl FileConfig {
    /// A file with no sections: it changes nothing.
    pub open spec fn empty_spec() -> FileConfig {
        FileConfig { server: None, persistence: None, gossip: None, logging: None, hot_cache: None }
    }

    /// A file with no sections.
    pub fn empty() -> (f: FileConfig)
        ensures
            f == FileConfig::empty_spec(),
    {
        FileConfig { server: None, persistence: None, gossip: None, logging: None, hot_cache: None }
    }
}

impl EnvSettings {
    /// No variable set: the environment changes nothing.
    pub open spec fn empty_spec() -> EnvSettings {
        EnvSettings {
            port: None,
            udp_port: None,
            memory_mb: None,
            daemon: None,
            log_level: None,
            persistence_enabled: None,
            persistence_data_dir: None,
            snapshot_interval: None,
            wal_disabled: None,
            wal_max_mb: None,
            no_compress_snapshots: None,
            gossip_enabled: None,
            gossip_port: None,
            gossip_interval: None,
            gossip_fanout: None,
            gossip_suspicion_timeout: None,
            gossip_failure_timeout: None,
            gossip_failure_check_interval: None,
            hot_cache_ttl_secs: None,
        }
    }

    /// No variable set.
    pub fn empty() -> (e: EnvSettings)
        ensures
            e == EnvSettings::empty_spec(),
    {
        EnvSettings {
            port: None,
            udp_port: None,
            memory_mb: None,
            daemon: None,
            log_level: None,
            persistence_enabled: None,
            persistence_data_dir: None,
            snapshot_interval: None,
            wal_disabled: None,
            wal_max_mb: None,
            no_compress_snapshots: None,
            gossip_enabled: None,
            gossip_port: None,
            gossip_interval: None,
            gossip_fanout: None,
            gossip_suspicion_timeout: None,
            gossip_failure_timeout: None,
            gossip_failure_check_interval: None,
            hot_cache_ttl_secs: None,
        }
    }
}

// ---------------------------------------------------------------------------
// The file.
// ---------------------------------------------------------------------------

/// `cfg` with the `[server]` section applied.
pub open spec fn server_applied(cfg: AppConfig, section: Option<ServerFile>) -> AppConfig {
    match section {
        Some(s) => AppConfig {
            port: match s.port { Some(p) => p, None => cfg.port },
            memory_mb: match s.memory { Some(m) => m, None => cfg.memory_mb },
            daemon: match s.daemon { Some(d) => d, None => cfg.daemon },
            ..cfg
        },
        None => cfg,
    }
}

/// `cfg` with the `[persistence]` section applied.
pub open spec fn persistence_applied(cfg: AppConfig, section: Option<PersistenceFile>) -> AppConfig {
    match section {
        Some(p) => AppConfig {
            persistence: PersistenceSection {
                enabled: match p.enabled { Some(e) => e, None => cfg.persistence.enabled },
                data_dir: first(p.data_dir, cfg.persistence.data_dir),
                snapshot_interval: first(p.snapshot_interval, cfg.persistence.snapshot_interval),
                wal_disabled: first(p.wal_disabled, cfg.persistence.wal_disabled),
                wal_max_mb: first(p.wal_max_mb, cfg.persistence.wal_max_mb),
                no_compress_snapshots: first(p.no_compress_snapshots, cfg.persistence.no_compress_snapshots),
            },
            ..cfg
        },
        None => cfg,
    }
}

/// `cfg` with the `[gossip]` section applied.
pub open spec fn gossip_applied(cfg: AppConfig, section: Option<GossipFile>) -> AppConfig {
    match section {
        Some(g) => AppConfig {
            gossip: GossipSection {
                enabled: match g.enabled { Some(e) => e, None => cfg.gossip.enabled },
                port: first(g.port, cfg.gossip.port),
                interval: first(g.interval, cfg.gossip.interval),
                fanout: first(g.fanout, cfg.gossip.fanout),
                suspicion_timeout: first(g.suspicion_timeout, cfg.gossip.suspicion_timeout),
                failure_timeout: first(g.failure_timeout, cfg.gossip.failure_timeout),
                failure_check_interval: first(g.failure_check_interval, cfg.gossip.failure_check_interval),
            },
            ..cfg
        },
        None => cfg,
    }
}

/// `cfg` with the `[logging]` and `[hot_cache]` sections applied.
pub open spec fn misc_applied(cfg: AppConfig, logging: Option<LoggingFile>, hot: Option<HotCacheFile>) -> AppConfig {
    let c = match logging {
        Some(l) => AppConfig { log_level: first(l.level, cfg.log_level), ..cfg },
        None => cfg,
    };
    match hot {
        Some(h) => AppConfig { hot_cache_ttl_secs: first(h.ttl_secs, c.hot_cache_ttl_secs), ..c },
        None => c,
    }
}

/// `cfg` with the file's settings applied: each key present replaces the
/// setting, each key absent leaves it.
pub open spec fn file_applied(cfg: AppConfig, file: FileConfig) -> AppConfig {
    misc_applied(
        gossip_applied(persistence_applied(server_applied(cfg, file.server), file.persistence), file.gossip),
        file.logging,
        file.hot_cache,
    )
}

fn apply_server_file(cfg: &mut AppConfig, section: &Option<ServerFile>)
    ensures
        *final(cfg) == server_applied(*old(cfg), *section),
{
    if let Some(server) = section {
        if let Some(port) = server.port {
            cfg.port = port;
        }
        if let Some(memory) = server.memory {
            cfg.memory_mb = memory;
        }
        if let Some(daemon) = server.daemon {
            cfg.daemon = daemon;
        }
    }
}

fn apply_persistence_file(cfg: &mut AppConfig, section: &Option<PersistenceFile>)
    ensures
        *final(cfg) == persistence_applied(*old(cfg), *section),
{
    if let Some(p) = section {
        if let Some(enabled) = p.enabled {
            cfg.persistence.enabled = enabled;
        }
        if let Some(dir) = &p.data_dir {
            cfg.persistence.data_dir = Some(dir.clone());
        }
        if let Some(v) = p.snapshot_interval {
            cfg.persistence.snapshot_interval = Some(v);
        }
        if let Some(v) = p.wal_disabled {
            cfg.persistence.wal_disabled = Some(v);
        }
        if let Some(v) = p.wal_max_mb {
            cfg.persistence.wal_max_mb = Some(v);
        }
        if let Some(v) = p.no_compress_snapshots {
            cfg.persistence.no_compress_snapshots = Some(v);
        }
    }
}

fn apply_gossip_file(cfg: &mut AppConfig, section: &Option<GossipFile>)
    ensures
        *final(cfg) == gossip_applied(*old(cfg), *section),
{
    if let Some(g) = section {
        if let Some(enabled) = g.enabled {
            cfg.gossip.enabled = enabled;
        }
        if let Some(v) = g.port {
            cfg.gossip.port = Some(v);
        }
        if let Some(v) = g.interval {
            cfg.gossip.interval = Some(v);
        }
        if let Some(v) = g.fanout {
            cfg.gossip.fanout = Some(v);
        }
        if let Some(v) = g.suspicion_timeout {
            cfg.gossip.suspicion_timeout = Some(v);
        }
        if let Some(v) = g.failure_timeout {
            cfg.gossip.failure_timeout = Some(v);
        }
        if let Some(v) = g.failure_check_interval {
            cfg.gossip.failure_check_interval = Some(v);
        }
    }
}

fn apply_misc_file(cfg: &mut AppConfig, logging: &Option<LoggingFile>, hot: &Option<HotCacheFile>)
    ensures
        *final(cfg) == misc_applied(*old(cfg), *logging, *hot),
{
    if let Some(l) = logging {
        if let Some(level) = &l.level {
            cfg.log_level = Some(level.clone());
        }
    }
    if let Some(h) = hot {
        if let Some(v) = h.ttl_secs {
            cfg.hot_cache_ttl_secs = Some(v);
        }
    }
}

/// Applies the settings of a configuration file.
pub fn apply_file(cfg: &mut AppConfig, file: &FileConfig)
    ensures
        *final(cfg) == file_applied(*old(cfg), *file),
{
    apply_server_file(cfg, &file.server);
    apply_persistence_file(cfg, &file.persistence);
    apply_gossip_file(cfg, &file.gossip);
    apply_misc_file(cfg, &file.logging, &file.hot_cache);
}

// ---------------------------------------------------------------------------
// The environment.
// ---------------------------------------------------------------------------

/// A variable's value read as a `u16`, if set and valid.
pub open spec fn env_u16(v: Option<String>) -> Option<u16> {
    match v { Some(s) => parsed_u16(s@), None => None }
}

/// A variable's value read as a `usize`, if set and valid.
pub open spec fn env_usize(v: Option<String>) -> Option<usize> {
    match v { Some(s) => parsed_usize(s@), None => None }
}

/// A variable's value read as a `u64`, if set and valid.
pub open spec fn env_u64(v: Option<String>) -> Option<u64> {
    match v { Some(s) => parsed_u64(s@), None => None }
}

/// A variable's value read as a `bool`, if set and valid.
pub open spec fn env_bool(v: Option<String>) -> Option<bool> {
    match v { Some(s) => parsed_bool(s@), None => None }
}

/// A variable's value as text, if set and not blank.
pub open spec fn env_text(v: Option<String>) -> Option<String> {
    match v { Some(s) => if blank(s@) { None } else { Some(s) }, None => None }
}

/// `cfg` with the server variables applied.
pub open spec fn env_server_applied(cfg: AppConfig, env: EnvSettings) -> AppConfig {
    AppConfig {
        port: match env_u16(env.port) { Some(p) => p, None => cfg.port },
        udp_port: first(env_u16(env.udp_port), cfg.udp_port),
        memory_mb: match env_usize(env.memory_mb) { Some(m) => m, None => cfg.memory_mb },
        daemon: match env_bool(env.daemon) { Some(d) => d, None => cfg.daemon },
        log_level: first(env_text(env.log_level), cfg.log_level),
        ..cfg
    }
}

/// `cfg` with the persistence variables applied.
pub open spec fn env_persistence_applied(cfg: AppConfig, env: EnvSettings) -> AppConfig {
    AppConfig {
        persistence: PersistenceSection {
            enabled: match env_bool(env.persistence_enabled) { Some(e) => e, None => cfg.persistence.enabled },
            data_dir: first(env_text(env.persistence_data_dir), cfg.persistence.data_dir),
            snapshot_interval: first(env_u64(env.snapshot_interval), cfg.persistence.snapshot_interval),
            wal_disabled: first(env_bool(env.wal_disabled), cfg.persistence.wal_disabled),
            wal_max_mb: first(env_usize(env.wal_max_mb), cfg.persistence.wal_max_mb),
            no_compress_snapshots: first(env_bool(env.no_compress_snapshots), cfg.persistence.no_compress_snapshots),
        },
        ..cfg
    }
}

/// `cfg` with the gossip and hot-cache variables applied.
pub open spec fn env_gossip_applied(cfg: AppConfig, env: EnvSettings) -> AppConfig {
    AppConfig {
        gossip: GossipSection {
            enabled: match env_bool(env.gossip_enabled) { Some(e) => e, None => cfg.gossip.enabled },
            port: first(env_u16(env.gossip_port), cfg.gossip.port),
            interval: first(env_u64(env.gossip_interval), cfg.gossip.interval),
            fanout: first(env_usize(env.gossip_fanout), cfg.gossip.fanout),
            suspicion_timeout: first(env_u64(env.gossip_suspicion_timeout), cfg.gossip.suspicion_timeout),
            failure_timeout: first(env_u64(env.gossip_failure_timeout), cfg.gossip.failure_timeout),
            failure_check_interval: first(env_u64(env.gossip_failure_check_interval), cfg.gossip.failure_check_interval),
        },
        hot_cache_ttl_secs: first(env_u64(env.hot_cache_ttl_secs), cfg.hot_cache_ttl_secs),
        ..cfg
    }
}

/// `cfg` with the environment applied: each variable that is set and
/// valid replaces its setting (a text setting must not be blank).
pub open spec fn env_applied(cfg: AppConfig, env: EnvSettings) -> AppConfig {
    env_gossip_applied(env_persistence_applied(env_server_applied(cfg, env), env), env)
}

fn read_u16(v: &Option<String>) -> (r: Option<u16>)
    ensures
        r == env_u16(*v),
{
    match v { Some(s) => parse_u16(s.as_str()), None => None }
}

fn read_usize(v: &Option<String>) -> (r: Option<usize>)
    ensures
        r == env_usize(*v),
{
    match v { Some(s) => parse_usize(s.as_str()), None => None }
}

fn read_u64(v: &Option<String>) -> (r: Option<u64>)
    ensures
        r == env_u64(*v),
{
    match v { Some(s) => parse_u64(s.as_str()), None => None }
}

fn read_bool(v: &Option<String>) -> (r: Option<bool>)
    ensures
        r == env_bool(*v),
{
    match v { Some(s) => parse_bool(s.as_str()), None => None }
}

fn read_text(v: &Option<String>) -> (r: Option<String>)
    ensures
        r == env_text(*v),
{
    match v {
        Some(s) => if is_blank(s.as_str()) { None } else { Some(s.clone()) },
        None => None,
    }
}

fn apply_env_server(cfg: &mut AppConfig, env: &EnvSettings)
    ensures
        *final(cfg) == env_server_applied(*old(cfg), *env),
{
    if let Some(p) = read_u16(&env.port) {
        cfg.port = p;
    }
    if let Some(p) = read_u16(&env.udp_port) {
        cfg.udp_port = Some(p);
    }
    if let Some(m) = read_usize(&env.memory_mb) {
        cfg.memory_mb = m;
    }
    if let Some(d) = read_bool(&env.daemon) {
        cfg.daemon = d;
    }
    if let Some(level) = read_text(&env.log_level) {
        cfg.log_level = Some(level);
    }
}

fn apply_env_persistence(cfg: &mut AppConfig, env: &EnvSettings)
    ensures
        *final(cfg) == env_persistence_applied(*old(cfg), *env),
{
    if let Some(v) = read_bool(&env.persistence_enabled) {
        cfg.persistence.enabled = v;
    }
    if let Some(dir) = read_text(&env.persistence_data_dir) {
        cfg.persistence.data_dir = Some(dir);
    }
    if let Some(v) = read_u64(&env.snapshot_interval) {
        cfg.persistence.snapshot_interval = Some(v);
    }
    if let Some(v) = read_bool(&env.wal_disabled) {
        cfg.persistence.wal_disabled = Some(v);
    }
    if let Some(v) = read_usize(&env.wal_max_mb) {
        cfg.persistence.wal_max_mb = Some(v);
    }
    if let Some(v) = read_bool(&env.no_compress_snapshots) {
        cfg.persistence.no_compress_snapshots = Some(v);
    }
}

fn apply_env_gossip(cfg: &mut AppConfig, env: &EnvSettings)
    ensures
        *final(cfg) == env_gossip_applied(*old(cfg), *env),
{
    if let Some(v) = read_bool(&env.gossip_enabled) {
        cfg.gossip.enabled = v;
    }
    if let Some(v) = read_u16(&env.gossip_port) {
        cfg.gossip.port = Some(v);
    }
    if let Some(v) = read_u64(&env.gossip_interval) {
        cfg.gossip.interval = Some(v);
    }
    if let Some(v) = read_usize(&env.gossip_fanout) {
        cfg.gossip.fanout = Some(v);
    }
    if let Some(v) = read_u64(&env.gossip_suspicion_timeout) {
        cfg.gossip.suspicion_timeout = Some(v);
    }
    if let Some(v) = read_u64(&env.gossip_failure_timeout) {
        cfg.gossip.failure_timeout = Some(v);
    }
    if let Some(v) = read_u64(&env.gossip_failure_check_interval) {
        cfg.gossip.failure_check_interval = Some(v);
    }
    if let Some(v) = read_u64(&env.hot_cache_ttl_secs) {
        cfg.hot_cache_ttl_secs = Some(v);
    }
}

/// Applies the configuration's environment variables.
pub fn apply_env(cfg: &mut AppConfig, env: &EnvSettings)
    ensures
        *final(cfg) == env_applied(*old(cfg), *env),
{
    apply_env_server(cfg, env);
    apply_env_persistence(cfg, env);
    apply_env_gossip(cfg, env);
}

// ---------------------------------------------------------------------------
// The command line.
// ---------------------------------------------------------------------------

/// The command-line options.
#[derive(Debug, Clone, Copy, PartialEq, Eq, Structural)]
pub enum CliFlag {
    /// `-p` / `--port` N
    Port,
    /// `--tls-port` N
    TlsPort,
    /// `--udp-port` N
    UdpPort,
    /// `-m` / `--memory` MB
    Memory,
    /// `-d` / `--daemon`
    Daemon,
    /// `--gossip`
    Gossip,
    /// `--gossip-port` N
    GossipPort,
    /// `--gossip-interval` S
    GossipInterval,
    /// `--gossip-fanout` N
    GossipFanout,
    /// `--gossip-suspicion-timeout` S
    GossipSuspicionTimeout,
    /// `--gossip-failure-timeout` S
    GossipFailureTimeout,
    /// `--gossip-failure-check-interval` S
    GossipFailureCheckInterval,
    /// `--data-dir` DIR
    DataDir,
    /// `--snapshot-interval` S
    SnapshotInterval,
    /// `--wal-disabled`
    WalDisabled,
    /// `--wal-max-mb` MB
    WalMaxMb,
    /// `--no-compress-snapshots`
    NoCompressSnapshots,
    /// `--hot-cache-ttl` S
    HotCacheTtl,
    /// Anything else, ignored.
    Unknown,
}

/// The option an argument names.
pub open spec fn cli_flag(a: Seq<char>) -> CliFlag {
    if a == "-p"@ || a == "--port"@ {
        CliFlag::Port
    } else if a == "--tls-port"@ {
        CliFlag::TlsPort
    } else if a == "--udp-port"@ {
        CliFlag::UdpPort
    } else if a == "-m"@ || a == "--memory"@ {
        CliFlag::Memory
    } else if a == "-d"@ || a == "--daemon"@ {
        CliFlag::Daemon
    } else if a == "--gossip"@ {
        CliFlag::Gossip
    } else if a == "--gossip-port"@ {
        CliFlag::GossipPort
    } else if a == "--gossip-interval"@ {
        CliFlag::GossipInterval
    } else if a == "--gossip-fanout"@ {
        CliFlag::GossipFanout
    } else if a == "--gossip-suspicion-timeout"@ {
        CliFlag::GossipSuspicionTimeout
    } else if a == "--gossip-failure-timeout"@ {
        CliFlag::GossipFailureTimeout
    } else if a == "--gossip-failure-check-interval"@ {
        CliFlag::GossipFailureCheckInterval
    } else if a == "--data-dir"@ {
        CliFlag::DataDir
    } else if a == "--snapshot-interval"@ {
        CliFlag::SnapshotInterval
    } else if a == "--wal-disabled"@ {
        CliFlag::WalDisabled
    } else if a == "--wal-max-mb"@ {
        CliFlag::WalMaxMb
    } else if a == "--no-compress-snapshots"@ {
        CliFlag::NoCompressSnapshots
    } else if a == "--hot-cache-ttl"@ {
        CliFlag::HotCacheTtl
    } else {
        CliFlag::Unknown
    }
}

/// Whether the option is followed by a value.
pub open spec fn takes_value(f: CliFlag) -> bool {
    !(f is Daemon || f is Gossip || f is WalDisabled || f is NoCompressSnapshots || f is Unknown)
}

/// `cfg` with option `f` given value `v`; a value that does not parse is
/// ignored.
pub open spec fn with_value(cfg: AppConfig, f: CliFlag, v: String) -> AppConfig {
    match f {
        CliFlag::Port => match parsed_u16(v@) { Some(n) => AppConfig { port: n, ..cfg }, None => cfg },
        CliFlag::TlsPort => match parsed_u16(v@) { Some(n) => AppConfig { tls_port: Some(n), ..cfg }, None => cfg },
        CliFlag::UdpPort => match parsed_u16(v@) { Some(n) => AppConfig { udp_port: Some(n), ..cfg }, None => cfg },
        CliFlag::Memory => match parsed_usize(v@) { Some(n) => AppConfig { memory_mb: n, ..cfg }, None => cfg },
        CliFlag::GossipPort => match parsed_u16(v@) {
            Some(n) => AppConfig { gossip: GossipSection { port: Some(n), ..cfg.gossip }, ..cfg },
            None => cfg,
        },
        CliFlag::GossipInterval => match parsed_u64(v@) {
            Some(n) => AppConfig { gossip: GossipSection { interval: Some(n), ..cfg.gossip }, ..cfg },
            None => cfg,
        },
        CliFlag::GossipFanout => match parsed_usize(v@) {
            Some(n) => AppConfig { gossip: GossipSection { fanout: Some(n), ..cfg.gossip }, ..cfg },
            None => cfg,
        },
        CliFlag::GossipSuspicionTimeout => match parsed_u64(v@) {
            Some(n) => AppConfig { gossip: GossipSection { suspicion_timeout: Some(n), ..cfg.gossip }, ..cfg },
            None => cfg,
        },
        CliFlag::GossipFailureTimeout => match parsed_u64(v@) {
            Some(n) => AppConfig { gossip: GossipSection { failure_timeout: Some(n), ..cfg.gossip }, ..cfg },
            None => cfg,
        },
        CliFlag::GossipFailureCheckInterval => match parsed_u64(v@) {
            Some(n) => AppConfig { gossip: GossipSection { failure_check_interval: Some(n), ..cfg.gossip }, ..cfg },
            None => cfg,
        },
        CliFlag::DataDir => AppConfig { persistence: PersistenceSection { data_dir: Some(v), ..cfg.persistence }, ..cfg },
        CliFlag::SnapshotInterval => match parsed_u64(v@) {
            Some(n) => AppConfig { persistence: PersistenceSection { snapshot_interval: Some(n), ..cfg.persistence }, ..cfg },
            None => cfg,
        },
        CliFlag::WalMaxMb => match parsed_usize(v@) {
            Some(n) => AppConfig { persistence: PersistenceSection { wal_max_mb: Some(n), ..cfg.persistence }, ..cfg },
            None => cfg,
        },
        CliFlag::HotCacheTtl => match parsed_u64(v@) { Some(n) => AppConfig { hot_cache_ttl_secs: Some(n), ..cfg }, None => cfg },
        _ => cfg,
    }
}

/// `cfg` with the switch `f` turned on.
pub open spec fn with_switch(cfg: AppConfig, f: CliFlag) -> AppConfig {
    match f {
        CliFlag::Daemon => AppConfig { daemon: true, ..cfg },
        CliFlag::Gossip => AppConfig { gossip: GossipSection { enabled: true, ..cfg.gossip }, ..cfg },
        CliFlag::WalDisabled => AppConfig { persistence: PersistenceSection { wal_disabled: Some(true), ..cfg.persistence }, ..cfg },
        CliFlag::NoCompressSnapshots => AppConfig {
            persistence: PersistenceSection { no_compress_snapshots: Some(true), ..cfg.persistence },
            ..cfg
        },
        _ => cfg,
    }
}

/// `cfg` with the arguments from position `i` on applied, left to right: an
/// option that takes a value consumes the next argument (and is ignored when
/// there is none); unknown arguments are skipped.
pub open spec fn cli_applied(cfg: AppConfig, args: Seq<String>, i: int) -> AppConfig
    decreases args.len() - i,
{
    if i < 0 || i >= args.len() {
        cfg
    } else {
        let f = cli_flag(args[i]@);
        if takes_value(f) {
            if i + 1 < args.len() {
                cli_applied(with_value(cfg, f, args[i + 1]), args, i + 2)
            } else {
                cli_applied(cfg, args, i + 1)
            }
        } else {
            cli_applied(with_switch(cfg, f), args, i + 1)
        }
    }
}

/// Names the option an argument is.
pub fn classify_flag(a: &str) -> (f: CliFlag)
    ensures
        f == cli_flag(a@),
{
    if same_text(a, "-p") || same_text(a, "--port") {
        CliFlag::Port
    } else if same_text(a, "--tls-port") {
        CliFlag::TlsPort
    } else if same_text(a, "--udp-port") {
        CliFlag::UdpPort
    } else if same_text(a, "-m") || same_text(a, "--memory") {
        CliFlag::Memory
    } else if same_text(a, "-d") || same_text(a, "--daemon") {
        CliFlag::Daemon
    } else if same_text(a, "--gossip") {
        CliFlag::Gossip
    } else if same_text(a, "--gossip-port") {
        CliFlag::GossipPort
    } else if same_text(a, "--gossip-interval") {
        CliFlag::GossipInterval
    } else if same_text(a, "--gossip-fanout") {
        CliFlag::GossipFanout
    } else if same_text(a, "--gossip-suspicion-timeout") {
        CliFlag::GossipSuspicionTimeout
    } else if same_text(a, "--gossip-failure-timeout") {
        CliFlag::GossipFailureTimeout
    } else if same_text(a, "--gossip-failure-check-interval") {
        CliFlag::GossipFailureCheckInterval
    } else if same_text(a, "--data-dir") {
        CliFlag::DataDir
    } else if same_text(a, "--snapshot-interval") {
        CliFlag::SnapshotInterval
    } else if same_text(a, "--wal-disabled") {
        CliFlag::WalDisabled
    } else if same_text(a, "--wal-max-mb") {
        CliFlag::WalMaxMb
    } else if same_text(a, "--no-compress-snapshots") {
        CliFlag::NoCompressSnapshots
    } else if same_text(a, "--hot-cache-ttl") {
        CliFlag::HotCacheTtl
    } else {
        CliFlag::Unknown
    }
}

fn flag_takes_value(f: CliFlag) -> (b: bool)
    ensures
        b == takes_value(f),
{
    match f {
        CliFlag::Daemon | CliFlag::Gossip | CliFlag::WalDisabled | CliFlag::NoCompressSnapshots | CliFlag::Unknown => false,
        _ => true,
    }
}

fn set_flag_value(cfg: &mut AppConfig, f: CliFlag, v: &String)
    ensures
        *final(cfg) == with_value(*old(cfg), f, *v),
{
    match f {
        CliFlag::Port => { if let Some(n) = parse_u16(v.as_str()) { cfg.port = n; } },
        CliFlag::TlsPort => { if let Some(n) = parse_u16(v.as_str()) { cfg.tls_port = Some(n); } },
        CliFlag::UdpPort => { if let Some(n) = parse_u16(v.as_str()) { cfg.udp_port = Some(n); } },
        CliFlag::Memory => { if let Some(n) = parse_usize(v.as_str()) { cfg.memory_mb = n; } },
        CliFlag::GossipPort => { if let Some(n) = parse_u16(v.as_str()) { cfg.gossip.port = Some(n); } },
        CliFlag::GossipInterval => { if let Some(n) = parse_u64(v.as_str()) { cfg.gossip.interval = Some(n); } },
        CliFlag::GossipFanout => { if let Some(n) = parse_usize(v.as_str()) { cfg.gossip.fanout = Some(n); } },
        CliFlag::GossipSuspicionTimeout => {
            if let Some(n) = parse_u64(v.as_str()) { cfg.gossip.suspicion_timeout = Some(n); }
        },
        CliFlag::GossipFailureTimeout => {
            if let Some(n) = parse_u64(v.as_str()) { cfg.gossip.failure_timeout = Some(n); }
        },
        CliFlag::GossipFailureCheckInterval => {
            if let Some(n) = parse_u64(v.as_str()) { cfg.gossip.failure_check_interval = Some(n); }
        },
        CliFlag::DataDir => { cfg.persistence.data_dir = Some(v.clone()); },
        CliFlag::SnapshotInterval => {
            if let Some(n) = parse_u64(v.as_str()) { cfg.persistence.snapshot_interval = Some(n); }
        },
        CliFlag::WalMaxMb => { if let Some(n) = parse_usize(v.as_str()) { cfg.persistence.wal_max_mb = Some(n); } },
        CliFlag::HotCacheTtl => { if let Some(n) = parse_u64(v.as_str()) { cfg.hot_cache_ttl_secs = Some(n); } },
        _ => {},
    }
}

fn set_flag_switch(cfg: &mut AppConfig, f: CliFlag)
    ensures
        *final(cfg) == with_switch(*old(cfg), f),
{
    match f {
        CliFlag::Daemon => { cfg.daemon = true; },
        CliFlag::Gossip => { cfg.gossip.enabled = true; },
        CliFlag::WalDisabled => { cfg.persistence.wal_disabled = Some(true); },
        CliFlag::NoCompressSnapshots => { cfg.persistence.no_compress_snapshots = Some(true); },
        _ => {},
    }
}

/// Applies command-line arguments; the first argument, the program's name,
/// is skipped.
pub fn apply_cli(cfg: &mut AppConfig, args: &[String])
    ensures
        *final(cfg) == cli_applied(*old(cfg), args@, 1),
{
    let mut i: usize = 1;
    while i < args.len()
        invariant
            1 <= i <= args@.len() + 1,
            cli_applied(*cfg, args@, i as int) == cli_applied(*old(cfg), args@, 1),
        decreases args@.len() - i,
    {
        let f = classify_flag(args[i].as_str());
        if flag_takes_value(f) {
            if i + 1 < args.len() {
                set_flag_value(cfg, f, &args[i + 1]);
                i = i + 1;
            }
        } else {
            set_flag_switch(cfg, f);
        }
        i = i + 1;
    }
}

impl AppConfig {
    /// The configuration from defaults, overridden by the file, then the
    /// environment, then the command line.
    pub open spec fn loaded(file: FileConfig, env: EnvSettings, args: Seq<String>) -> AppConfig {
        cli_applied(env_applied(file_applied(default_config(), file), env), args, 1)
    }

    /// Builds the configuration: defaults, then the file's settings, then the
    /// environment's, then the command line's.
    pub fn load(file: &FileConfig, env: &EnvSettings, args: &[String]) -> (c: AppConfig)
        ensures
            c == AppConfig::loaded(*file, *env, args@),
    {
        let mut cfg = AppConfig::default();
        apply_file(&mut cfg, file);
        apply_env(&mut cfg, env);
        apply_cli(&mut cfg, args);
        cfg
    }
}

// ---------------------------------------------------------------------------
// Laws of precedence.
// ---------------------------------------------------------------------------

/// A source that sets nothing changes nothing: an empty file, an empty
/// environment and a command line holding only the program's name.
pub proof fn lemma_empty_sources_change_nothing(cfg: AppConfig, args: Seq<String>)
    requires
        args.len() <= 1,
    ensures
        file_applied(cfg, FileConfig::empty_spec()) == cfg,
        env_applied(cfg, EnvSettings::empty_spec()) == cfg,
        cli_applied(cfg, args, 1) == cfg,
{
}

/// Every variable that is set and valid decides its setting, whatever the
/// defaults and the file said before.
pub proof fn lemma_env_overrides_earlier(c1: AppConfig, c2: AppConfig, env: EnvSettings)
    ensures
        env_u16(env.port) is Some ==> env_applied(c1, env).port == env_applied(c2, env).port,
        env_u16(env.udp_port) is Some ==> env_applied(c1, env).udp_port == env_applied(c2, env).udp_port,
        env_usize(env.memory_mb) is Some ==> env_applied(c1, env).memory_mb == env_applied(c2, env).memory_mb,
        env_bool(env.daemon) is Some ==> env_applied(c1, env).daemon == env_applied(c2, env).daemon,
        env_text(env.log_level) is Some ==> env_applied(c1, env).log_level == env_applied(c2, env).log_level,
        env_bool(env.persistence_enabled) is Some ==> env_applied(c1, env).persistence.enabled
            == env_applied(c2, env).persistence.enabled,
        env_text(env.persistence_data_dir) is Some ==> env_applied(c1, env).persistence.data_dir
            == env_applied(c2, env).persistence.data_dir,
        env_u64(env.snapshot_interval) is Some ==> env_applied(c1, env).persistence.snapshot_interval
            == env_applied(c2, env).persistence.snapshot_interval,
        env_bool(env.wal_disabled) is Some ==> env_applied(c1, env).persistence.wal_disabled
            == env_applied(c2, env).persistence.wal_disabled,
        env_usize(env.wal_max_mb) is Some ==> env_applied(c1, env).persistence.wal_max_mb
            == env_applied(c2, env).persistence.wal_max_mb,
        env_bool(env.no_compress_snapshots) is Some ==> env_applied(c1, env).persistence.no_compress_snapshots
            == env_applied(c2, env).persistence.no_compress_snapshots,
        env_bool(env.gossip_enabled) is Some ==> env_applied(c1, env).gossip.enabled == env_applied(c2, env).gossip.enabled,
        env_u16(env.gossip_port) is Some ==> env_applied(c1, env).gossip.port == env_applied(c2, env).gossip.port,
        env_u64(env.gossip_interval) is Some ==> env_applied(c1, env).gossip.interval
            == env_applied(c2, env).gossip.interval,
        env_usize(env.gossip_fanout) is Some ==> env_applied(c1, env).gossip.fanout == env_applied(c2, env).gossip.fanout,
        env_u64(env.gossip_suspicion_timeout) is Some ==> env_applied(c1, env).gossip.suspicion_timeout
            == env_applied(c2, env).gossip.suspicion_timeout,
        env_u64(env.gossip_failure_timeout) is Some ==> env_applied(c1, env).gossip.failure_timeout
            == env_applied(c2, env).gossip.failure_timeout,
        env_u64(env.gossip_failure_check_interval) is Some ==> env_applied(c1, env).gossip.failure_check_interval
            == env_applied(c2, env).gossip.failure_check_interval,
        env_u64(env.hot_cache_ttl_secs) is Some ==> env_applied(c1, env).hot_cache_ttl_secs
            == env_applied(c2, env).hot_cache_ttl_secs,
{
}

/// A port given on the command line (`-p N` or `--port N`) decides the
/// port, whatever the defaults, the file and the environment said.
pub proof fn lemma_cli_port_overrides(cfg: AppConfig, args: Seq<String>)
    requires
        args.len() == 3,
        args[1]@ == "-p"@ || args[1]@ == "--port"@,
        parsed_u16(args[2]@) is Some,
    ensures
        cli_applied(cfg, args, 1).port == parsed_u16(args[2]@).unwrap(),
{
    let c = with_value(cfg, CliFlag::Port, args[2]);
    assert(cli_applied(c, args, 3) == c);
}

/// A value that does not parse leaves the setting as it was.
pub proof fn lemma_bad_value_ignored(cfg: AppConfig, f: CliFlag, v: String)
    requires
        parsed_u16(v@) is None,
        parsed_usize(v@) is None,
        parsed_u64(v@) is None,
        !(f is DataDir),
    ensures
        with_value(cfg, f, v) == cfg,
{
}

/// The option each name gives.
proof fn lemma_option_names(o: Seq<char>)
    ensures
        o == "-p"@ ==> cli_flag(o) == CliFlag::Port,
        o == "--port"@ ==> cli_flag(o) == CliFlag::Port,
        o == "--tls-port"@ ==> cli_flag(o) == CliFlag::TlsPort,
        o == "--udp-port"@ ==> cli_flag(o) == CliFlag::UdpPort,
        o == "-m"@ ==> cli_flag(o) == CliFlag::Memory,
        o == "--memory"@ ==> cli_flag(o) == CliFlag::Memory,
        o == "-d"@ ==> cli_flag(o) == CliFlag::Daemon,
        o == "--daemon"@ ==> cli_flag(o) == CliFlag::Daemon,
        o == "--gossip"@ ==> cli_flag(o) == CliFlag::Gossip,
        o == "--gossip-port"@ ==> cli_flag(o) == CliFlag::GossipPort,
        o == "--gossip-interval"@ ==> cli_flag(o) == CliFlag::GossipInterval,
        o == "--gossip-fanout"@ ==> cli_flag(o) == CliFlag::GossipFanout,
        o == "--gossip-suspicion-timeout"@ ==> cli_flag(o) == CliFlag::GossipSuspicionTimeout,
        o == "--gossip-failure-timeout"@ ==> cli_flag(o) == CliFlag::GossipFailureTimeout,
        o == "--gossip-failure-check-interval"@ ==> cli_flag(o) == CliFlag::GossipFailureCheckInterval,
        o == "--data-dir"@ ==> cli_flag(o) == CliFlag::DataDir,
        o == "--snapshot-interval"@ ==> cli_flag(o) == CliFlag::SnapshotInterval,
        o == "--wal-disabled"@ ==> cli_flag(o) == CliFlag::WalDisabled,
        o == "--wal-max-mb"@ ==> cli_flag(o) == CliFlag::WalMaxMb,
        o == "--no-compress-snapshots"@ ==> cli_flag(o) == CliFlag::NoCompressSnapshots,
        o == "--hot-cache-ttl"@ ==> cli_flag(o) == CliFlag::HotCacheTtl,
{
    if o == "-p"@ {
        reveal_strlit("-p");
    }
    if o == "--port"@ {
        reveal_strlit("--port");
    }
    if o == "--tls-port"@ {
        reveal_strlit("--tls-port");
        reveal_strlit("-p");
        assert("--tls-port"@.len() != "-p"@.len());
        reveal_strlit("--port");
        assert("--tls-port"@.len() != "--port"@.len());
    }
    if o == "--udp-port"@ {
        reveal_strlit("--udp-port");
        reveal_strlit("-p");
        assert("--udp-port"@.len() != "-p"@.len());
        reveal_strlit("--port");
        assert("--udp-port"@.len() != "--port"@.len());
        reveal_strlit("--tls-port");
        assert("--udp-port"@[2] != "--tls-port"@[2]);
    }
    if o == "-m"@ {
        reveal_strlit("-m");
        reveal_strlit("-p");
        assert("-m"@[1] != "-p"@[1]);
        reveal_strlit("--port");
        assert("-m"@.len() != "--port"@.len());
        reveal_strlit("--tls-port");
        assert("-m"@.len() != "--tls-port"@.len());
        reveal_strlit("--udp-port");
        assert("-m"@.len() != "--udp-port"@.len());
    }
    if o == "--memory"@ {
        reveal_strlit("--memory");
        reveal_strlit("-p");
        assert("--memory"@.len() != "-p"@.len());
        reveal_strlit("--port");
        assert("--memory"@.len() != "--port"@.len());
        reveal_strlit("--tls-port");
        assert("--memory"@.len() != "--tls-port"@.len());
        reveal_strlit("--udp-port");
        assert("--memory"@.len() != "--udp-port"@.len());
    }
    if o == "-d"@ {
        reveal_strlit("-d");
        reveal_strlit("-p");
        assert("-d"@[1] != "-p"@[1]);
        reveal_strlit("--port");
        assert("-d"@.len() != "--port"@.len());
        reveal_strlit("--tls-port");
        assert("-d"@.len() != "--tls-port"@.len());
        reveal_strlit("--udp-port");
        assert("-d"@.len() != "--udp-port"@.len());
        reveal_strlit("-m");
        assert("-d"@[1] != "-m"@[1]);
        reveal_strlit("--memory");
        assert("-d"@.len() != "--memory"@.len());
    }
    if o == "--daemon"@ {
        reveal_strlit("--daemon");
        reveal_strlit("-p");
        assert("--daemon"@.len() != "-p"@.len());
        reveal_strlit("--port");
        assert("--daemon"@.len() != "--port"@.len());
        reveal_strlit("--tls-port");
        assert("--daemon"@.len() != "--tls-port"@.len());
        reveal_strlit("--udp-port");
        assert("--daemon"@.len() != "--udp-port"@.len());
        reveal_strlit("-m");
        assert("--daemon"@.len() != "-m"@.len());
        reveal_strlit("--memory");
        assert("--daemon"@[2] != "--memory"@[2]);
    }
    if o == "--gossip"@ {
        reveal_strlit("--gossip");
        reveal_strlit("-p");
        assert("--gossip"@.len() != "-p"@.len());
        reveal_strlit("--port");
        assert("--gossip"@.len() != "--port"@.len());
        reveal_strlit("--tls-port");
        assert("--gossip"@.len() != "--tls-port"@.len());
        reveal_strlit("--udp-port");
        assert("--gossip"@.len() != "--udp-port"@.len());
        reveal_strlit("-m");
        assert("--gossip"@.len() != "-m"@.len());
        reveal_strlit("--memory");
        assert("--gossip"@[2] != "--memory"@[2]);
        reveal_strlit("-d");
        assert("--gossip"@.len() != "-d"@.len());
        reveal_strlit("--daemon");
        assert("--gossip"@[2] != "--daemon"@[2]);
    }
    if o == "--gossip-port"@ {
        reveal_strlit("--gossip-port");
        reveal_strlit("-p");
        assert("--gossip-port"@.len() != "-p"@.len());
        reveal_strlit("--port");
        assert("--gossip-port"@.len() != "--port"@.len());
        reveal_strlit("--tls-port");
        assert("--gossip-port"@.len() != "--tls-port"@.len());
        reveal_strlit("--udp-port");
        assert("--gossip-port"@.len() != "--udp-port"@.len());
        reveal_strlit("-m");
        assert("--gossip-port"@.len() != "-m"@.len());
        reveal_strlit("--memory");
        assert("--gossip-port"@.len() != "--memory"@.len());
        reveal_strlit("-d");
        assert("--gossip-port"@.len() != "-d"@.len());
        reveal_strlit("--daemon");
        assert("--gossip-port"@.len() != "--daemon"@.len());
        reveal_strlit("--gossip");
        assert("--gossip-port"@.len() != "--gossip"@.len());
    }
    if o == "--gossip-interval"@ {
        reveal_strlit("--gossip-interval");
        reveal_strlit("-p");
        assert("--gossip-interval"@.len() != "-p"@.len());
        reveal_strlit("--port");
        assert("--gossip-interval"@.len() != "--port"@.len());
        reveal_strlit("--tls-port");
        assert("--gossip-interval"@.len() != "--tls-port"@.len());
        reveal_strlit("--udp-port");
        assert("--gossip-interval"@.len() != "--udp-port"@.len());
        reveal_strlit("-m");
        assert("--gossip-interval"@.len() != "-m"@.len());
        reveal_strlit("--memory");
        assert("--gossip-interval"@.len() != "--memory"@.len());
        reveal_strlit("-d");
        assert("--gossip-interval"@.len() != "-d"@.len());
        reveal_strlit("--daemon");
        assert("--gossip-interval"@.len() != "--daemon"@.len());
        reveal_strlit("--gossip");
        assert("--gossip-interval"@.len() != "--gossip"@.len());
        reveal_strlit("--gossip-port");
        assert("--gossip-interval"@.len() != "--gossip-port"@.len());
    }
    if o == "--gossip-fanout"@ {
        reveal_strlit("--gossip-fanout");
        reveal_strlit("-p");
        assert("--gossip-fanout"@.len() != "-p"@.len());
        reveal_strlit("--port");
        assert("--gossip-fanout"@.len() != "--port"@.len());
        reveal_strlit("--tls-port");
        assert("--gossip-fanout"@.len() != "--tls-port"@.len());
        reveal_strlit("--udp-port");
        assert("--gossip-fanout"@.len() != "--udp-port"@.len());
        reveal_strlit("-m");
        assert("--gossip-fanout"@.len() != "-m"@.len());
        reveal_strlit("--memory");
        assert("--gossip-fanout"@.len() != "--memory"@.len());
        reveal_strlit("-d");
        assert("--gossip-fanout"@.len() != "-d"@.len());
        reveal_strlit("--daemon");
        assert("--gossip-fanout"@.len() != "--daemon"@.len());
        reveal_strlit("--gossip");
        assert("--gossip-fanout"@.len() != "--gossip"@.len());
        reveal_strlit("--gossip-port");
        assert("--gossip-fanout"@.len() != "--gossip-port"@.len());
        reveal_strlit("--gossip-interval");
        assert("--gossip-fanout"@.len() != "--gossip-interval"@.len());
    }
    if o == "--gossip-suspicion-timeout"@ {
        reveal_strlit("--gossip-suspicion-timeout");
        reveal_strlit("-p");
        assert("--gossip-suspicion-timeout"@.len() != "-p"@.len());
        reveal_strlit("--port");
        assert("--gossip-suspicion-timeout"@.len() != "--port"@.len());
        reveal_strlit("--tls-port");
        assert("--gossip-suspicion-timeout"@.len() != "--tls-port"@.len());
        reveal_strlit("--udp-port");
        assert("--gossip-suspicion-timeout"@.len() != "--udp-port"@.len());
        reveal_strlit("-m");
        assert("--gossip-suspicion-timeout"@.len() != "-m"@.len());
        reveal_strlit("--memory");
        assert("--gossip-suspicion-timeout"@.len() != "--memory"@.len());
        reveal_strlit("-d");
        assert("--gossip-suspicion-timeout"@.len() != "-d"@.len());
        reveal_strlit("--daemon");
        assert("--gossip-suspicion-timeout"@.len() != "--daemon"@.len());
        reveal_strlit("--gossip");
        assert("--gossip-suspicion-timeout"@.len() != "--gossip"@.len());
        reveal_strlit("--gossip-port");
        assert("--gossip-suspicion-timeout"@.len() != "--gossip-port"@.len());
        reveal_strlit("--gossip-interval");
        assert("--gossip-suspicion-timeout"@.len() != "--gossip-interval"@.len());
        reveal_strlit("--gossip-fanout");
        assert("--gossip-suspicion-timeout"@.len() != "--gossip-fanout"@.len());
    }
    if o == "--gossip-failure-timeout"@ {
        reveal_strlit("--gossip-failure-timeout");
        reveal_strlit("-p");
        assert("--gossip-failure-timeout"@.len() != "-p"@.len());
        reveal_strlit("--port");
        assert("--gossip-failure-timeout"@.len() != "--port"@.len());
        reveal_strlit("--tls-port");
        assert("--gossip-failure-timeout"@.len() != "--tls-port"@.len());
        reveal_strlit("--udp-port");
        assert("--gossip-failure-timeout"@.len() != "--udp-port"@.len());
        reveal_strlit("-m");
        assert("--gossip-failure-timeout"@.len() != "-m"@.len());
        reveal_strlit("--memory");
        assert("--gossip-failure-timeout"@.len() != "--memory"@.len());
        reveal_strlit("-d");
        assert("--gossip-failure-timeout"@.len() != "-d"@.len());
        reveal_strlit("--daemon");
        assert("--gossip-failure-timeout"@.len() != "--daemon"@.len());
        reveal_strlit("--gossip");
        assert("--gossip-failure-timeout"@.len() != "--gossip"@.len());
        reveal_strlit("--gossip-port");
        assert("--gossip-failure-timeout"@.len() != "--gossip-port"@.len());
        reveal_strlit("--gossip-interval");
        assert("--gossip-failure-timeout"@.len() != "--gossip-interval"@.len());
        reveal_strlit("--gossip-fanout");
        assert("--gossip-failure-timeout"@.len() != "--gossip-fanout"@.len());
        reveal_strlit("--gossip-suspicion-timeout");
        assert("--gossip-failure-timeout"@.len() != "--gossip-suspicion-timeout"@.len());
    }
    if o == "--gossip-failure-check-interval"@ {
        reveal_strlit("--gossip-failure-check-interval");
        reveal_strlit("-p");
        assert("--gossip-failure-check-interval"@.len() != "-p"@.len());
        reveal_strlit("--port");
        assert("--gossip-failure-check-interval"@.len() != "--port"@.len());
        reveal_strlit("--tls-port");
        assert("--gossip-failure-check-interval"@.len() != "--tls-port"@.len());
        reveal_strlit("--udp-port");
        assert("--gossip-failure-check-interval"@.len() != "--udp-port"@.len());
        reveal_strlit("-m");
        assert("--gossip-failure-check-interval"@.len() != "-m"@.len());
        reveal_strlit("--memory");
        assert("--gossip-failure-check-interval"@.len() != "--memory"@.len());
        reveal_strlit("-d");
        assert("--gossip-failure-check-interval"@.len() != "-d"@.len());
        reveal_strlit("--daemon");
        assert("--gossip-failure-check-interval"@.len() != "--daemon"@.len());
        reveal_strlit("--gossip");
        assert("--gossip-failure-check-interval"@.len() != "--gossip"@.len());
        reveal_strlit("--gossip-port");
        assert("--gossip-failure-check-interval"@.len() != "--gossip-port"@.len());
        reveal_strlit("--gossip-interval");
        assert("--gossip-failure-check-interval"@.len() != "--gossip-interval"@.len());
        reveal_strlit("--gossip-fanout");
        assert("--gossip-failure-check-interval"@.len() != "--gossip-fanout"@.len());
        reveal_strlit("--gossip-suspicion-timeout");
        assert("--gossip-failure-check-interval"@.len() != "--gossip-suspicion-timeout"@.len());
        reveal_strlit("--gossip-failure-timeout");
        assert("--gossip-failure-check-interval"@.len() != "--gossip-failure-timeout"@.len());
    }
    if o == "--data-dir"@ {
        reveal_strlit("--data-dir");
        reveal_strlit("-p");
        assert("--data-dir"@.len() != "-p"@.len());
        reveal_strlit("--port");
        assert("--data-dir"@.len() != "--port"@.len());
        reveal_strlit("--tls-port");
        assert("--data-dir"@[2] != "--tls-port"@[2]);
        reveal_strlit("--udp-port");
        assert("--data-dir"@[2] != "--udp-port"@[2]);
        reveal_strlit("-m");
        assert("--data-dir"@.len() != "-m"@.len());
        reveal_strlit("--memory");
        assert("--data-dir"@.len() != "--memory"@.len());
        reveal_strlit("-d");
        assert("--data-dir"@.len() != "-d"@.len());
        reveal_strlit("--daemon");
        assert("--data-dir"@.len() != "--daemon"@.len());
        reveal_strlit("--gossip");
        assert("--data-dir"@.len() != "--gossip"@.len());
        reveal_strlit("--gossip-port");
        assert("--data-dir"@.len() != "--gossip-port"@.len());
        reveal_strlit("--gossip-interval");
        assert("--data-dir"@.len() != "--gossip-interval"@.len());
        reveal_strlit("--gossip-fanout");
        assert("--data-dir"@.len() != "--gossip-fanout"@.len());
        reveal_strlit("--gossip-suspicion-timeout");
        assert("--data-dir"@.len() != "--gossip-suspicion-timeout"@.len());
        reveal_strlit("--gossip-failure-timeout");
        assert("--data-dir"@.len() != "--gossip-failure-timeout"@.len());
        reveal_strlit("--gossip-failure-check-interval");
        assert("--data-dir"@.len() != "--gossip-failure-check-interval"@.len());
    }
    if o == "--snapshot-interval"@ {
        reveal_strlit("--snapshot-interval");
        reveal_strlit("-p");
        assert("--snapshot-interval"@.len() != "-p"@.len());
        reveal_strlit("--port");
        assert("--snapshot-interval"@.len() != "--port"@.len());
        reveal_strlit("--tls-port");
        assert("--snapshot-interval"@.len() != "--tls-port"@.len());
        reveal_strlit("--udp-port");
        assert("--snapshot-interval"@.len() != "--udp-port"@.len());
        reveal_strlit("-m");
        assert("--snapshot-interval"@.len() != "-m"@.len());
        reveal_strlit("--memory");
        assert("--snapshot-interval"@.len() != "--memory"@.len());
        reveal_strlit("-d");
        assert("--snapshot-interval"@.len() != "-d"@.len());
        reveal_strlit("--daemon");
        assert("--snapshot-interval"@.len() != "--daemon"@.len());
        reveal_strlit("--gossip");
        assert("--snapshot-interval"@.len() != "--gossip"@.len());
        reveal_strlit("--gossip-port");
        assert("--snapshot-interval"@.len() != "--gossip-port"@.len());
        reveal_strlit("--gossip-interval");
        assert("--snapshot-interval"@.len() != "--gossip-interval"@.len());
        reveal_strlit("--gossip-fanout");
        assert("--snapshot-interval"@.len() != "--gossip-fanout"@.len());
        reveal_strlit("--gossip-suspicion-timeout");
        assert("--snapshot-interval"@.len() != "--gossip-suspicion-timeout"@.len());
        reveal_strlit("--gossip-failure-timeout");
        assert("--snapshot-interval"@.len() != "--gossip-failure-timeout"@.len());
        reveal_strlit("--gossip-failure-check-interval");
        assert("--snapshot-interval"@.len() != "--gossip-failure-check-interval"@.len());
        reveal_strlit("--data-dir");
        assert("--snapshot-interval"@.len() != "--data-dir"@.len());
    }
    if o == "--wal-disabled"@ {
        reveal_strlit("--wal-disabled");
        reveal_strlit("-p");
        assert("--wal-disabled"@.len() != "-p"@.len());
        reveal_strlit("--port");
        assert("--wal-disabled"@.len() != "--port"@.len());
        reveal_strlit("--tls-port");
        assert("--wal-disabled"@.len() != "--tls-port"@.len());
        reveal_strlit("--udp-port");
        assert("--wal-disabled"@.len() != "--udp-port"@.len());
        reveal_strlit("-m");
        assert("--wal-disabled"@.len() != "-m"@.len());
        reveal_strlit("--memory");
        assert("--wal-disabled"@.len() != "--memory"@.len());
        reveal_strlit("-d");
        assert("--wal-disabled"@.len() != "-d"@.len());
        reveal_strlit("--daemon");
        assert("--wal-disabled"@.len() != "--daemon"@.len());
        reveal_strlit("--gossip");
        assert("--wal-disabled"@.len() != "--gossip"@.len());
        reveal_strlit("--gossip-port");
        assert("--wal-disabled"@.len() != "--gossip-port"@.len());
        reveal_strlit("--gossip-interval");
        assert("--wal-disabled"@.len() != "--gossip-interval"@.len());
        reveal_strlit("--gossip-fanout");
        assert("--wal-disabled"@.len() != "--gossip-fanout"@.len());
        reveal_strlit("--gossip-suspicion-timeout");
        assert("--wal-disabled"@.len() != "--gossip-suspicion-timeout"@.len());
        reveal_strlit("--gossip-failure-timeout");
        assert("--wal-disabled"@.len() != "--gossip-failure-timeout"@.len());
        reveal_strlit("--gossip-failure-check-interval");
        assert("--wal-disabled"@.len() != "--gossip-failure-check-interval"@.len());
        reveal_strlit("--data-dir");
        assert("--wal-disabled"@.len() != "--data-dir"@.len());
        reveal_strlit("--snapshot-interval");
        assert("--wal-disabled"@.len() != "--snapshot-interval"@.len());
    }
    if o == "--wal-max-mb"@ {
        reveal_strlit("--wal-max-mb");
        reveal_strlit("-p");
        assert("--wal-max-mb"@.len() != "-p"@.len());
        reveal_strlit("--port");
        assert("--wal-max-mb"@.len() != "--port"@.len());
        reveal_strlit("--tls-port");
        assert("--wal-max-mb"@.len() != "--tls-port"@.len());
        reveal_strlit("--udp-port");
        assert("--wal-max-mb"@.len() != "--udp-port"@.len());
        reveal_strlit("-m");
        assert("--wal-max-mb"@.len() != "-m"@.len());
        reveal_strlit("--memory");
        assert("--wal-max-mb"@.len() != "--memory"@.len());
        reveal_strlit("-d");
        assert("--wal-max-mb"@.len() != "-d"@.len());
        reveal_strlit("--daemon");
        assert("--wal-max-mb"@.len() != "--daemon"@.len());
        reveal_strlit("--gossip");
        assert("--wal-max-mb"@.len() != "--gossip"@.len());
        reveal_strlit("--gossip-port");
        assert("--wal-max-mb"@.len() != "--gossip-port"@.len());
        reveal_strlit("--gossip-interval");
        assert("--wal-max-mb"@.len() != "--gossip-interval"@.len());
        reveal_strlit("--gossip-fanout");
        assert("--wal-max-mb"@.len() != "--gossip-fanout"@.len());
        reveal_strlit("--gossip-suspicion-timeout");
        assert("--wal-max-mb"@.len() != "--gossip-suspicion-timeout"@.len());
        reveal_strlit("--gossip-failure-timeout");
        assert("--wal-max-mb"@.len() != "--gossip-failure-timeout"@.len());
        reveal_strlit("--gossip-failure-check-interval");
        assert("--wal-max-mb"@.len() != "--gossip-failure-check-interval"@.len());
        reveal_strlit("--data-dir");
        assert("--wal-max-mb"@.len() != "--data-dir"@.len());
        reveal_strlit("--snapshot-interval");
        assert("--wal-max-mb"@.len() != "--snapshot-interval"@.len());
        reveal_strlit("--wal-disabled");
        assert("--wal-max-mb"@.len() != "--wal-disabled"@.len());
    }
    if o == "--no-compress-snapshots"@ {
        reveal_strlit("--no-compress-snapshots");
        reveal_strlit("-p");
        assert("--no-compress-snapshots"@.len() != "-p"@.len());
        reveal_strlit("--port");
        assert("--no-compress-snapshots"@.len() != "--port"@.len());
        reveal_strlit("--tls-port");
        assert("--no-compress-snapshots"@.len() != "--tls-port"@.len());
        reveal_strlit("--udp-port");
        assert("--no-compress-snapshots"@.len() != "--udp-port"@.len());
        reveal_strlit("-m");
        assert("--no-compress-snapshots"@.len() != "-m"@.len());
        reveal_strlit("--memory");
        assert("--no-compress-snapshots"@.len() != "--memory"@.len());
        reveal_strlit("-d");
        assert("--no-compress-snapshots"@.len() != "-d"@.len());
        reveal_strlit("--daemon");
        assert("--no-compress-snapshots"@.len() != "--daemon"@.len());
        reveal_strlit("--gossip");
        assert("--no-compress-snapshots"@.len() != "--gossip"@.len());
        reveal_strlit("--gossip-port");
        assert("--no-compress-snapshots"@.len() != "--gossip-port"@.len());
        reveal_strlit("--gossip-interval");
        assert("--no-compress-snapshots"@.len() != "--gossip-interval"@.len());
        reveal_strlit("--gossip-fanout");
        assert("--no-compress-snapshots"@.len() != "--gossip-fanout"@.len());
        reveal_strlit("--gossip-suspicion-timeout");
        assert("--no-compress-snapshots"@.len() != "--gossip-suspicion-timeout"@.len());
        reveal_strlit("--gossip-failure-timeout");
        assert("--no-compress-snapshots"@.len() != "--gossip-failure-timeout"@.len());
        reveal_strlit("--gossip-failure-check-interval");
        assert("--no-compress-snapshots"@.len() != "--gossip-failure-check-interval"@.len());
        reveal_strlit("--data-dir");
        assert("--no-compress-snapshots"@.len() != "--data-dir"@.len());
        reveal_strlit("--snapshot-interval");
        assert("--no-compress-snapshots"@.len() != "--snapshot-interval"@.len());
        reveal_strlit("--wal-disabled");
        assert("--no-compress-snapshots"@.len() != "--wal-disabled"@.len());
        reveal_strlit("--wal-max-mb");
        assert("--no-compress-snapshots"@.len() != "--wal-max-mb"@.len());
    }
    if o == "--hot-cache-ttl"@ {
        reveal_strlit("--hot-cache-ttl");
        reveal_strlit("-p");
        assert("--hot-cache-ttl"@.len() != "-p"@.len());
        reveal_strlit("--port");
        assert("--hot-cache-ttl"@.len() != "--port"@.len());
        reveal_strlit("--tls-port");
        assert("--hot-cache-ttl"@.len() != "--tls-port"@.len());
        reveal_strlit("--udp-port");
        assert("--hot-cache-ttl"@.len() != "--udp-port"@.len());
        reveal_strlit("-m");
        assert("--hot-cache-ttl"@.len() != "-m"@.len());
        reveal_strlit("--memory");
        assert("--hot-cache-ttl"@.len() != "--memory"@.len());
        reveal_strlit("-d");
        assert("--hot-cache-ttl"@.len() != "-d"@.len());
        reveal_strlit("--daemon");
        assert("--hot-cache-ttl"@.len() != "--daemon"@.len());
        reveal_strlit("--gossip");
        assert("--hot-cache-ttl"@.len() != "--gossip"@.len());
        reveal_strlit("--gossip-port");
        assert("--hot-cache-ttl"@.len() != "--gossip-port"@.len());
        reveal_strlit("--gossip-interval");
        assert("--hot-cache-ttl"@.len() != "--gossip-interval"@.len());
        reveal_strlit("--gossip-fanout");
        assert("--hot-cache-ttl"@[2] != "--gossip-fanout"@[2]);
        reveal_strlit("--gossip-suspicion-timeout");
        assert("--hot-cache-ttl"@.len() != "--gossip-suspicion-timeout"@.len());
        reveal_strlit("--gossip-failure-timeout");
        assert("--hot-cache-ttl"@.len() != "--gossip-failure-timeout"@.len());
        reveal_strlit("--gossip-failure-check-interval");
        assert("--hot-cache-ttl"@.len() != "--gossip-failure-check-interval"@.len());
        reveal_strlit("--data-dir");
        assert("--hot-cache-ttl"@.len() != "--data-dir"@.len());
        reveal_strlit("--snapshot-interval");
        assert("--hot-cache-ttl"@.len() != "--snapshot-interval"@.len());
        reveal_strlit("--wal-disabled");
        assert("--hot-cache-ttl"@.len() != "--wal-disabled"@.len());
        reveal_strlit("--wal-max-mb");
        assert("--hot-cache-ttl"@.len() != "--wal-max-mb"@.len());
        reveal_strlit("--no-compress-snapshots");
        assert("--hot-cache-ttl"@.len() != "--no-compress-snapshots"@.len());
    }
}

proof fn lemma_cli_one_value(cfg: AppConfig, args: Seq<String>)
    requires
        args.len() == 3,
    ensures
        takes_value(cli_flag(args[1]@)) ==> cli_applied(cfg, args, 1) == with_value(cfg, cli_flag(args[1]@), args[2]),
{
    let f = cli_flag(args[1]@);
    if takes_value(f) {
        assert(cli_applied(with_value(cfg, f, args[2]), args, 3) == with_value(cfg, f, args[2]));
    }
}

/// Each command-line option that takes a value sets exactly the setting it
/// names: after the program name, the option followed by a valid value
/// makes that setting the value and leaves every other setting as it was.
pub proof fn lemma_cli_option_sets_its_setting(cfg: AppConfig, args: Seq<String>)
    requires
        args.len() == 3,
    ensures
        ({
            let o = args[1]@;
            let v = args[2]@;
            let r = cli_applied(cfg, args, 1);
            &&& (o == "-p"@ || o == "--port"@) && parsed_u16(v) is Some ==> r == AppConfig { port: parsed_u16(v).unwrap(), ..cfg }
            &&& o == "--tls-port"@ && parsed_u16(v) is Some ==> r == AppConfig { tls_port: parsed_u16(v), ..cfg }
            &&& o == "--udp-port"@ && parsed_u16(v) is Some ==> r == AppConfig { udp_port: parsed_u16(v), ..cfg }
            &&& (o == "-m"@ || o == "--memory"@) && parsed_usize(v) is Some
                ==> r == AppConfig { memory_mb: parsed_usize(v).unwrap(), ..cfg }
            &&& o == "--gossip-port"@ && parsed_u16(v) is Some
                ==> r == AppConfig { gossip: GossipSection { port: parsed_u16(v), ..cfg.gossip }, ..cfg }
            &&& o == "--gossip-interval"@ && parsed_u64(v) is Some
                ==> r == AppConfig { gossip: GossipSection { interval: parsed_u64(v), ..cfg.gossip }, ..cfg }
            &&& o == "--gossip-fanout"@ && parsed_usize(v) is Some
                ==> r == AppConfig { gossip: GossipSection { fanout: parsed_usize(v), ..cfg.gossip }, ..cfg }
            &&& o == "--gossip-suspicion-timeout"@ && parsed_u64(v) is Some
                ==> r == AppConfig { gossip: GossipSection { suspicion_timeout: parsed_u64(v), ..cfg.gossip }, ..cfg }
            &&& o == "--gossip-failure-timeout"@ && parsed_u64(v) is Some
                ==> r == AppConfig { gossip: GossipSection { failure_timeout: parsed_u64(v), ..cfg.gossip }, ..cfg }
            &&& o == "--gossip-failure-check-interval"@ && parsed_u64(v) is Some
                ==> r == AppConfig { gossip: GossipSection { failure_check_interval: parsed_u64(v), ..cfg.gossip }, ..cfg }
            &&& o == "--data-dir"@
                ==> r == AppConfig { persistence: PersistenceSection { data_dir: Some(args[2]), ..cfg.persistence }, ..cfg }
            &&& o == "--snapshot-interval"@ && parsed_u64(v) is Some
                ==> r == AppConfig { persistence: PersistenceSection { snapshot_interval: parsed_u64(v), ..cfg.persistence }, ..cfg }
            &&& o == "--wal-max-mb"@ && parsed_usize(v) is Some
                ==> r == AppConfig { persistence: PersistenceSection { wal_max_mb: parsed_usize(v), ..cfg.persistence }, ..cfg }
            &&& o == "--hot-cache-ttl"@ && parsed_u64(v) is Some ==> r == AppConfig { hot_cache_ttl_secs: parsed_u64(v), ..cfg }
        }),
{
    lemma_option_names(args[1]@);
    lemma_cli_one_value(cfg, args);
}

/// Each command-line switch turns on exactly the setting it names.
pub proof fn lemma_cli_switch_sets_its_setting(cfg: AppConfig, args: Seq<String>)
    requires
        args.len() == 2,
    ensures
        ({
            let o = args[1]@;
            let r = cli_applied(cfg, args, 1);
            &&& (o == "-d"@ || o == "--daemon"@) ==> r == AppConfig { daemon: true, ..cfg }
            &&& o == "--gossip"@ ==> r == AppConfig { gossip: GossipSection { enabled: true, ..cfg.gossip }, ..cfg }
            &&& o == "--wal-disabled"@
                ==> r == AppConfig { persistence: PersistenceSection { wal_disabled: Some(true), ..cfg.persistence }, ..cfg }
            &&& o == "--no-compress-snapshots"@
                ==> r == AppConfig { persistence: PersistenceSection { no_compress_snapshots: Some(true), ..cfg.persistence }, ..cfg }
        }),
{
    lemma_option_names(args[1]@);
    let f = cli_flag(args[1]@);
    if !takes_value(f) {
        assert(cli_applied(with_switch(cfg, f), args, 2) == with_switch(cfg, f));
    }
}

} // verus!
