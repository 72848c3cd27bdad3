use bulk_merge::config::{LibgenDumpKind, LoaderKind};
use bulk_merge::libgen::ingest::{
    batch_write, checkpoint_key, column_position, delete_key_column, find_table_def, load_columns,
    prepare_row, raw_statement_kind, sanitize_text, should_flush, BatchWrite, IngestMode,
    IngestPlan, IngestPlanError, RawStatementKind, RowBatcher,
};
use bulk_merge::libgen::mysql_dump::{ColumnDef, TableDef, SqlValue};

fn text(s: &str) -> SqlValue {
    SqlValue::Text(s.to_string())
}

fn def(name: &str, cols: &[&str]) -> TableDef {
    TableDef {
        name: name.to_string(),
        columns: cols
            .iter()
            .map(|c| ColumnDef { name: c.to_string(), mysql_type: "int(11)".to_string() })
            .collect(),
    }
}

#[test]
fn sanitize_replaces_nul_only_when_enabled() {
    assert_eq!(sanitize_text(true, "?", "a\0b\0".to_string()), "a?b?");
    assert_eq!(sanitize_text(true, "", "a\0b".to_string()), "ab");
    assert_eq!(sanitize_text(false, "?", "a\0b".to_string()), "a\0b");
    assert_eq!(sanitize_text(true, "?", "plain".to_string()), "plain");
}

#[test]
fn sanitized_text_has_no_nul() {
    let out = sanitize_text(true, " ", "\0\0x\0".to_string());
    assert!(!out.contains('\0'));
    assert_eq!(out, "  x ");
}

#[test]
fn prepare_row_appends_sha256_hex_of_tab_joined_values() {
    let row = vec![text("1"), SqlValue::Null, text("a")];
    let (prepared, bytes) = prepare_row(row, true, "", true, Some(0), 0);
    assert_eq!(prepared.values.len(), 4);
    assert_eq!(prepared.values[0].as_deref(), Some("1"));
    assert_eq!(prepared.values[1], None);
    assert_eq!(prepared.values[2].as_deref(), Some("a"));
    assert_eq!(
        prepared.values[3].as_deref(),
        Some("3fd706008ba566b859cd2bf454bd88aa66f35ed58bd4a9366cc527123413f80e")
    );
    // 1 + 1 text bytes, then the 64 hex characters.
    assert_eq!(bytes, 66);
    assert_eq!(prepared.pk_value.as_deref(), Some("1"));
}

#[test]
fn prepare_row_without_hash_and_null_key() {
    let row = vec![SqlValue::Null, text("héllo")];
    let (prepared, bytes) = prepare_row(row, false, "", false, Some(0), 10);
    assert_eq!(prepared.values, vec![None, Some("héllo".to_string())]);
    assert_eq!(bytes, 16);
    assert_eq!(prepared.pk_value, None);
}

#[test]
fn prepare_row_saturates_byte_count() {
    let (_, bytes) = prepare_row(vec![text("abc")], false, "", false, None, usize::MAX - 1);
    assert_eq!(bytes, usize::MAX);
}

#[test]
fn flush_thresholds() {
    assert!(should_flush(3, 0, 3, 100, 1000));
    assert!(!should_flush(2, 0, 3, 100, 1000));
    assert!(should_flush(1, 100, 3, 100, 1000));
    assert!(should_flush(1, 500, 3, 10_000, 1000));
    assert!(!should_flush(1, 499, 3, 10_000, 1000));
    // Limits of zero count as 1.
    assert!(should_flush(1, 0, 0, 100, 1000));
    assert!(should_flush(0, 0, 5, 5, 0));
}

#[test]
fn delete_key_column_cases() {
    let one = vec!["ID".to_string()];
    let two = vec!["a".to_string(), "b".to_string()];
    assert_eq!(delete_key_column(IngestMode::Ingest, true, &two), Ok(None));
    assert_eq!(delete_key_column(IngestMode::Update, false, &two), Ok(None));
    assert_eq!(delete_key_column(IngestMode::Update, true, &one), Ok(Some("ID".to_string())));
    assert_eq!(
        delete_key_column(IngestMode::Update, true, &two),
        Err(IngestPlanError::DeleteKeyColumns(2))
    );
}

#[test]
fn load_columns_and_positions() {
    let d = def("fiction", &["ID", "Title"]);
    assert_eq!(load_columns(&d, false), vec!["ID".to_string(), "Title".to_string()]);
    let cols = load_columns(&d, true);
    assert_eq!(cols, vec!["ID".to_string(), "Title".to_string(), "_bm_row_hash".to_string()]);
    assert_eq!(column_position(&cols, &"Title".to_string()), Some(1));
    assert_eq!(column_position(&cols, &"Nope".to_string()), None);
}

#[test]
fn batch_write_choices() {
    assert_eq!(batch_write(IngestMode::Ingest, true, LoaderKind::Copy), BatchWrite::InsertSkipSameHash);
    assert_eq!(batch_write(IngestMode::Ingest, false, LoaderKind::Copy), BatchWrite::Copy);
    assert_eq!(batch_write(IngestMode::Ingest, false, LoaderKind::Insert), BatchWrite::Insert);
    assert_eq!(batch_write(IngestMode::Update, true, LoaderKind::Insert), BatchWrite::InsertSkipSameKey);
    assert_eq!(batch_write(IngestMode::Update, false, LoaderKind::Copy), BatchWrite::Upsert);
}

#[test]
fn checkpoint_key_format() {
    assert_eq!(checkpoint_key(LibgenDumpKind::Fiction, "/d/f.sql"), "libgen:fiction:/d/f.sql");
    assert_eq!(checkpoint_key(LibgenDumpKind::Compact, "x"), "libgen:compact:x");
}

#[test]
fn later_table_definition_wins() {
    let defs = vec![def("a", &["x"]), def("b", &["y"]), def("a", &["z"])];
    assert_eq!(find_table_def(&defs, "a"), Some(2));
    assert_eq!(find_table_def(&defs, "b"), Some(1));
    assert_eq!(find_table_def(&defs, "c"), None);
}

#[test]
fn raw_statement_kinds() {
    assert_eq!(raw_statement_kind(false, true, true), None);
    assert_eq!(raw_statement_kind(true, false, true), Some(RawStatementKind::InsertInto));
    assert_eq!(raw_statement_kind(true, false, false), None);
    assert_eq!(raw_statement_kind(true, true, false), Some(RawStatementKind::Other));
    assert_eq!(RawStatementKind::InsertInto.as_str(), "insert_into");
    assert_eq!(RawStatementKind::Other.as_str(), "other");
}

#[test]
fn pg_table_for_mysql_concatenates_prefixes() {
    let plan = IngestPlan {
        kind: LibgenDumpKind::Fiction,
        dump_path: "d".to_string(),
        table_defs: vec![],
        overall_prefix: "lg_".to_string(),
        kind_prefix: "fic_".to_string(),
        mode: IngestMode::Ingest,
        conflict_columns: vec![],
        apply_deletes: false,
        row_hash_enabled: false,
    };
    assert_eq!(plan.pg_table_for_mysql("fiction"), "lg_fic_fiction");
}

#[test]
fn batcher_hands_out_every_row_once_in_order() {
    let mut b = RowBatcher::new(false, String::new(), false, Some(0), 2, 1_000_000, 1_000_000);
    let mut batches = Vec::new();
    for i in 0..5 {
        if let Some(batch) = b.push_row(vec![text(&i.to_string()), SqlValue::Null]) {
            batches.push(batch);
        }
    }
    if let Some(batch) = b.finish() {
        batches.push(batch);
    }
    assert!(b.finish().is_none());
    let sizes: Vec<usize> = batches.iter().map(|x| x.rows.len()).collect();
    assert_eq!(sizes, vec![2, 2, 1]);
    let firsts: Vec<String> = batches
        .iter()
        .flat_map(|x| x.rows.iter().map(|r| r[0].clone().unwrap()))
        .collect();
    assert_eq!(firsts, vec!["0", "1", "2", "3", "4"]);
    let keys: Vec<String> = batches.iter().flat_map(|x| x.seen_pks.clone()).collect();
    assert_eq!(keys, vec!["0", "1", "2", "3", "4"]);
}

#[test]
fn batcher_flushes_on_bytes() {
    let mut b = RowBatcher::new(false, String::new(), false, None, 100, 5, 1_000_000);
    assert!(b.push_row(vec![text("abc")]).is_none());
    let batch = b.push_row(vec![text("de")]).expect("5 bytes reached");
    assert_eq!(batch.rows.len(), 2);
    assert!(batch.seen_pks.is_empty());
    assert!(b.finish().is_none());
}

#[test]
fn prepared_rows_fit_loaded_columns() {
    let d = def("t", &["a", "b"]);
    for hash in [false, true] {
        let (p, _) = prepare_row(vec![text("1"), SqlValue::Null], false, "", hash, None, 0);
        assert_eq!(p.values.len(), load_columns(&d, hash).len());
    }
}

#[test]
fn raw_statement_digest() {
    let d = bulk_merge::libgen::ingest::statement_sha256("abc");
    let hex: String = d.iter().map(|b| format!("{b:02x}")).collect();
    assert_eq!(hex, "ba7816bf8f01cfea414140de5dae2223b00361a396177a9cb410ff61f20015ad");
    assert_eq!(bulk_merge::libgen::ingest::statement_sha256("").len(), 32);
}
