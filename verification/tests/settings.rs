use bulk_merge::cli::{config_path, libgen_op, LibgenCommand, LibgenDumpKindArg};
use bulk_merge::config::{
    default_batch_max_bytes, default_batch_max_rows, default_concurrency, default_log_format,
    default_log_level, default_output_color, default_output_format, default_pool_acquire_timeout_ms,
    default_pool_max_connections, default_retry_backoff_ms_initial, default_retry_backoff_ms_max,
    default_retry_max_attempts, default_schema_libgen, default_schema_meta, default_true,
    BatchConfig, ExecutionConfig, LibgenDumpConfig, LibgenDumpKind, LogFormat, LoggingConfig,
    OutputColor, OutputConfig, OutputFormat, PostgresIndexingConfig, PostgresPoolConfig,
    RetryConfig,
};
use bulk_merge::libgen::mysql_dump::{ColumnDef, TableDef};
use bulk_merge::libgen::provision::{collect_table_defs, ProvisionError};
use bulk_merge::observability::{log_format, log_level};
use bulk_merge::progress::{ProgressConfig, ProgressLine, ProgressTicker};

#[test]
fn documented_defaults() {
    assert_eq!(default_schema_meta(), "bm_meta");
    assert_eq!(default_schema_libgen(), "src_libgen");
    assert_eq!(default_pool_max_connections(), 10);
    assert_eq!(default_pool_acquire_timeout_ms(), 30_000);
    assert_eq!(default_log_level(), "info");
    assert_eq!(default_log_format(), LogFormat::Human);
    assert_eq!(default_concurrency(), 2);
    assert_eq!(default_batch_max_rows(), 25_000);
    assert_eq!(default_batch_max_bytes(), 64_000_000);
    assert_eq!(default_retry_max_attempts(), 3);
    assert_eq!(default_retry_backoff_ms_initial(), 250);
    assert_eq!(default_retry_backoff_ms_max(), 5_000);
    assert_eq!(default_output_format(), OutputFormat::Human);
    assert_eq!(default_output_color(), OutputColor::Auto);
    assert!(default_true());
}

#[test]
fn default_sections() {
    let l = LoggingConfig::default();
    assert_eq!(l.level, "info");
    assert!(!l.include_target && !l.include_location);
    let e = ExecutionConfig::default();
    assert!(!e.dry_run_default);
    assert_eq!(e.concurrency, 2);
    let b = BatchConfig::default();
    assert_eq!((b.max_rows, b.max_bytes), (25_000, 64_000_000));
    let r = RetryConfig::default();
    assert_eq!((r.max_attempts, r.backoff_ms_initial, r.backoff_ms_max), (3, 250, 5_000));
    let o = OutputConfig::default();
    assert_eq!((o.format, o.color), (OutputFormat::Human, OutputColor::Auto));
    let d = LibgenDumpConfig::default();
    assert!(d.kind.is_none() && d.path.is_none() && d.dataset_id.is_none());
    let p = PostgresPoolConfig::default();
    assert_eq!(p.min_connections, 0);
    let i = PostgresIndexingConfig::default();
    assert!(!i.concurrent);
}

#[test]
fn command_line() {
    assert_eq!(LibgenDumpKind::from(LibgenDumpKindArg::Fiction), LibgenDumpKind::Fiction);
    assert_eq!(LibgenDumpKind::from(LibgenDumpKindArg::Compact), LibgenDumpKind::Compact);
    assert_eq!(config_path(None), "config/bulk-merge.toml");
    assert_eq!(config_path(Some("x.toml".to_string())), "x.toml");
    assert_eq!(libgen_op(&LibgenCommand::Stats), None);
    let ingest = LibgenCommand::Ingest {
        kind: LibgenDumpKindArg::Fiction,
        dump: "d".to_string(),
        dataset_id: None,
        dataset_version: None,
    };
    assert_eq!(libgen_op(&ingest), Some("ingest"));
}

#[test]
fn logging_overrides() {
    assert_eq!(log_level(Some("debug".to_string()), &"info".to_string()), "debug");
    assert_eq!(log_level(None, &"info".to_string()), "info");
    assert_eq!(log_format(&Some("json".to_string()), LogFormat::Human), LogFormat::Json);
    assert_eq!(log_format(&Some("human".to_string()), LogFormat::Json), LogFormat::Human);
    assert_eq!(log_format(&Some("xml".to_string()), LogFormat::Json), LogFormat::Json);
    assert_eq!(log_format(&None, LogFormat::Human), LogFormat::Human);
}

#[test]
fn progress_is_rate_limited() {
    let mut t = ProgressTicker::new(ProgressConfig { log_interval_ms: 1000 }, 0);
    assert_eq!(t.maybe_log(999, 5, Some(10)), ProgressLine::Skip);
    assert_eq!(t.maybe_log(1000, 5, Some(10)), ProgressLine::WithTotal { done: 5, total: 10 });
    assert_eq!(t.maybe_log(1500, 6, None), ProgressLine::Skip);
    assert_eq!(t.maybe_log(2000, 7, Some(0)), ProgressLine::Plain { done: 7 });
    assert_eq!(t.maybe_log(2999, 8, None), ProgressLine::Skip);
    assert_eq!(t.maybe_log(5000, 9, None), ProgressLine::Plain { done: 9 });
}

#[test]
fn table_discovery() {
    let stmts = vec![
        "SET NAMES utf8;".to_string(),
        "CREATE TABLE `a` (`x` int);".to_string(),
        "INSERT INTO `a` VALUES (1);".to_string(),
        "CREATE TABLE `b` (`y` text);".to_string(),
    ];
    let defs = collect_table_defs(&stmts).ok().unwrap();
    assert_eq!(
        defs,
        vec![
            TableDef {
                name: "a".to_string(),
                columns: vec![ColumnDef { name: "x".to_string(), mysql_type: "int".to_string() }]
            },
            TableDef {
                name: "b".to_string(),
                columns: vec![ColumnDef { name: "y".to_string(), mysql_type: "text".to_string() }]
            },
        ]
    );
    assert!(matches!(collect_table_defs(&vec!["SELECT 1;".to_string()]), Err(ProvisionError::NoCreateTable)));
    assert!(matches!(
        collect_table_defs(&vec!["CREATE TABLE `a`;".to_string(), "CREATE TABLE `b` (`y` text);".to_string()]),
        Err(ProvisionError::Parse(_))
    ));
}
