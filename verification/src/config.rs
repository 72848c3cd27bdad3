//! Application configuration model and its documented defaults.
use vstd::prelude::*;

verus! {

broadcast use vstd::string::group_string_axioms;

/// Whole application configuration, as read from the TOML file.
pub struct AppConfig {
    pub postgres: PostgresConfig,
    pub logging: LoggingConfig,
    pub execution: ExecutionConfig,
    pub output: OutputConfig,
    pub libgen: LibgenConfig,
}

/// Connection and schema settings for PostgreSQL.
pub struct PostgresConfig {
    pub url: String,
    pub schema_meta: String,
    pub schema_libgen: String,
    pub pool: PostgresPoolConfig,
    pub indexing: PostgresIndexingConfig,
}

/// Default schema for import bookkeeping tables.
pub fn default_schema_meta() -> (r: String)
    ensures
        r@ == "bm_meta"@,
{
    "bm_meta".to_string()
}

/// Default schema for LibGen tables.
pub fn default_schema_libgen() -> (r: String)
    ensures
        r@ == "src_libgen"@,
{
    "src_libgen".to_string()
}

/// Connection pool sizing.
pub struct PostgresPoolConfig {
    pub max_connections: u32,
    pub min_connections: u32,
    pub acquire_timeout_ms: u64,
}

impl Default for PostgresPoolConfig {
    /// All-zero pool settings (the value used when the table is absent).
    fn default() -> (r: Self)
        ensures
            r.max_connections == 0,
            r.min_connections == 0,
            r.acquire_timeout_ms == 0,
    {
        PostgresPoolConfig { max_connections: 0, min_connections: 0, acquire_timeout_ms: 0 }
    }
}

/// Default maximum number of pooled connections.
pub fn default_pool_max_connections() -> (r: u32)
    ensures
        r == 10,
{
    10
}

/// Default time to wait for a pooled connection, in milliseconds.
pub fn default_pool_acquire_timeout_ms() -> (r: u64)
    ensures
        r == 30_000,
{
    30_000
}

/// Index creation policy.
pub struct PostgresIndexingConfig {
    pub create_after_load: bool,
    pub concurrent: bool,
}

impl Default for PostgresIndexingConfig {
    /// Both switches off (the value used when the table is absent).
    fn default() -> (r: Self)
        ensures
            !r.create_after_load,
            !r.concurrent,
    {
        PostgresIndexingConfig { create_after_load: false, concurrent: false }
    }
}

/// Logging settings.
pub struct LoggingConfig {
    pub level: String,
    pub format: LogFormat,
    pub include_target: bool,
    pub include_location: bool,
}

impl Default for LoggingConfig {
    /// Level `info`, human format, no target or location.
    fn default() -> (r: Self)
        ensures
            r.level@ == "info"@,
            r.format == LogFormat::Human,
            !r.include_target,
            !r.include_location,
    {
        LoggingConfig {
            level: default_log_level(),
            format: default_log_format(),
            include_target: false,
            include_location: false,
        }
    }
}

/// Default log level.
pub fn default_log_level() -> (r: String)
    ensures
        r@ == "info"@,
{
    "info".to_string()
}

/// Default log format.
pub fn default_log_format() -> (r: LogFormat)
    ensures
        r == LogFormat::Human,
{
    LogFormat::Human
}

/// Log line format.
#[derive(Debug, Clone, Copy, PartialEq, Eq, Structural)]
pub enum LogFormat {
    Human,
    Json,
}

/// Execution settings.
pub struct ExecutionConfig {
    pub dry_run_default: bool,
    pub concurrency: u32,
    pub batch: BatchConfig,
    pub retry: RetryConfig,
}

impl Default for ExecutionConfig {
    /// No dry run, concurrency 2, default batching and retries.
    fn default() -> (r: Self)
        ensures
            !r.dry_run_default,
            r.concurrency == 2,
            r.batch.max_rows == 25_000,
            r.batch.max_bytes == 64_000_000,
            r.retry.max_attempts == 3,
            r.retry.backoff_ms_initial == 250,
            r.retry.backoff_ms_max == 5_000,
    {
        ExecutionConfig {
            dry_run_default: false,
            concurrency: default_concurrency(),
            batch: BatchConfig::default(),
            retry: RetryConfig::default(),
        }
    }
}

/// Default number of concurrent workers.
pub fn default_concurrency() -> (r: u32)
    ensures
        r == 2,
{
    2
}

/// Batch limits for loading rows.
pub struct BatchConfig {
    pub max_rows: u64,
    pub max_bytes: u64,
}

impl Default for BatchConfig {
    /// 25 000 rows or 64 000 000 bytes per batch.
    fn default() -> (r: Self)
        ensures
            r.max_rows == 25_000,
            r.max_bytes == 64_000_000,
    {
        BatchConfig { max_rows: default_batch_max_rows(), max_bytes: default_batch_max_bytes() }
    }
}

/// Default rows per batch.
pub fn default_batch_max_rows() -> (r: u64)
    ensures
        r == 25_000,
{
    25_000
}

/// Default bytes per batch.
pub fn default_batch_max_bytes() -> (r: u64)
    ensures
        r == 64_000_000,
{
    64_000_000
}

/// Retry policy.
pub struct RetryConfig {
    pub max_attempts: u32,
    pub backoff_ms_initial: u64,
    pub backoff_ms_max: u64,
}

impl Default for RetryConfig {
    /// Three attempts, back-off from 250 ms up to 5 000 ms.
    fn default() -> (r: Self)
        ensures
            r.max_attempts == 3,
            r.backoff_ms_initial == 250,
            r.backoff_ms_max == 5_000,
    {
        RetryConfig {
            max_attempts: default_retry_max_attempts(),
            backoff_ms_initial: default_retry_backoff_ms_initial(),
            backoff_ms_max: default_retry_backoff_ms_max(),
        }
    }
}

/// Default number of attempts.
pub fn default_retry_max_attempts() -> (r: u32)
    ensures
        r == 3,
{
    3
}

/// Default first back-off, in milliseconds.
pub fn default_retry_backoff_ms_initial() -> (r: u64)
    ensures
        r == 250,
{
    250
}

/// Default largest back-off, in milliseconds.
pub fn default_retry_backoff_ms_max() -> (r: u64)
    ensures
        r == 5_000,
{
    5_000
}

/// Report output settings.
pub struct OutputConfig {
    pub format: OutputFormat,
    pub color: OutputColor,
}

impl Default for OutputConfig {
    /// Human format, automatic colour.
    fn default() -> (r: Self)
        ensures
            r.format == OutputFormat::Human,
            r.color == OutputColor::Auto,
    {
        OutputConfig { format: default_output_format(), color: default_output_color() }
    }
}

/// Default output format.
pub fn default_output_format() -> (r: OutputFormat)
    ensures
        r == OutputFormat::Human,
{
    OutputFormat::Human
}

/// Default colour policy.
pub fn default_output_color() -> (r: OutputColor)
    ensures
        r == OutputColor::Auto,
{
    OutputColor::Auto
}

/// Output format.
#[derive(Debug, Clone, Copy, PartialEq, Eq, Structural)]
pub enum OutputFormat {
    Human,
    Json,
}

/// Colour policy.
#[derive(Debug, Clone, Copy, PartialEq, Eq, Structural)]
pub enum OutputColor {
    Auto,
    Always,
    Never,
}

/// LibGen settings.
pub struct LibgenConfig {
    pub dump: LibgenDumpConfig,
}

impl Default for LibgenConfig {
    /// Default dump settings.
    fn default() -> (r: Self)
        ensures
            r.dump.kind is None,
            r.dump.path is None,
            r.dump.dataset_id is None,
    {
        LibgenConfig { dump: LibgenDumpConfig::default() }
    }
}

/// The dump to ingest.
pub struct LibgenDumpConfig {
    pub kind: Option<LibgenDumpKind>,
    pub path: Option<String>,
    pub dataset_id: Option<String>,
}

impl Default for LibgenDumpConfig {
    /// No kind, path or dataset id.
    fn default() -> (r: Self)
        ensures
            r.kind is None,
            r.path is None,
            r.dataset_id is None,
    {
        LibgenDumpConfig { kind: None, path: None, dataset_id: None }
    }
}

/// Which LibGen dump a file is.
#[derive(Debug, Clone, Copy, PartialEq, Eq, Structural)]
pub enum LibgenDumpKind {
    Fiction,
    Compact,
}

/// How rows are sent to PostgreSQL in plain ingest mode.
#[derive(Debug, Clone, Copy, PartialEq, Eq, Structural)]
pub enum LoaderKind {
    Copy,
    Insert,
}

/// Default for switches that are on unless configured off.
pub fn default_true() -> (r: bool)
    ensures
        r,
{
    true
}

} // verus!
