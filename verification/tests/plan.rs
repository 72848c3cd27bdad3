use bulk_merge::config::LibgenDumpKind;
use bulk_merge::libgen::ingest::IngestMode;
use bulk_merge::libgen::mysql_dump::{ColumnDef, TableDef};
use bulk_merge::libgen::plan::{
    check_manifest_match, check_resumable, check_row_count, default_dataset_id, delete_targets,
    dry_run, ingest_mode_for_op, manifest_kind, offline_out_dir, plan_ingest, post_load_indexes,
    prefixed_table, resolve_dataset_id, row_hash_enabled, select_run, summarize_stages,
    unique_index_tables, OfflineLayout, RunPlanError, RunSelection,
};

fn def(name: &str, cols: &[&str]) -> TableDef {
    TableDef {
        name: name.to_string(),
        columns: cols
            .iter()
            .map(|c| ColumnDef { name: c.to_string(), mysql_type: "text".to_string() })
            .collect(),
    }
}

fn strings(v: &[&str]) -> Vec<String> {
    v.iter().map(|s| s.to_string()).collect()
}

#[test]
fn dataset_ids() {
    assert_eq!(
        resolve_dataset_id(Some("given".to_string()), Some("cfg".to_string()), "t-{kind}", LibgenDumpKind::Fiction),
        "given"
    );
    assert_eq!(
        resolve_dataset_id(None, Some("cfg".to_string()), "t-{kind}", LibgenDumpKind::Fiction),
        "cfg"
    );
    assert_eq!(
        resolve_dataset_id(None, None, "libgen-{kind}-{kind}", LibgenDumpKind::Compact),
        "libgen-compact-compact"
    );
    assert_eq!(default_dataset_id(None, None, LibgenDumpKind::Fiction), "libgen-Fiction");
    assert_eq!(default_dataset_id(None, None, LibgenDumpKind::Compact), "libgen-Compact");
    assert_eq!(default_dataset_id(None, Some("c".to_string()), LibgenDumpKind::Compact), "c");
}

#[test]
fn modes_and_switches() {
    assert_eq!(ingest_mode_for_op("update"), IngestMode::Update);
    assert_eq!(ingest_mode_for_op("ingest"), IngestMode::Ingest);
    assert_eq!(ingest_mode_for_op("Update"), IngestMode::Ingest);
    assert!(row_hash_enabled("row_hash", true));
    assert!(!row_hash_enabled("row_hash", false));
    assert!(!row_hash_enabled("pk", true));
    assert!(dry_run(false, true));
    assert!(!dry_run(false, false));
}

#[test]
fn update_needs_keys() {
    let r = plan_ingest(
        LibgenDumpKind::Fiction,
        "d".to_string(),
        vec![],
        String::new(),
        "f_".to_string(),
        "update",
        "pk",
        false,
        vec![],
        false,
    );
    match r {
        Err(e) => {
            assert!(matches!(e, RunPlanError::UpdateWithoutKeys(LibgenDumpKind::Fiction)));
            assert_eq!(
                e.message(),
                "libgen update requires either libgen.incremental.primary_key_columns.Fiction or row_hash enabled"
            );
        }
        Ok(_) => panic!("expected an error"),
    }
}

#[test]
fn update_with_row_hash_matches_on_hash() {
    let plan = plan_ingest(
        LibgenDumpKind::Compact,
        "d".to_string(),
        vec![def("t", &["ID"])],
        "lg_".to_string(),
        "c_".to_string(),
        "update",
        "row_hash",
        true,
        strings(&["ID"]),
        true,
    )
    .ok()
    .unwrap();
    assert_eq!(plan.mode, IngestMode::Update);
    assert!(plan.row_hash_enabled);
    assert_eq!(plan.conflict_columns, strings(&["_bm_row_hash"]));
    assert!(!plan.apply_deletes);
    assert_eq!(unique_index_tables(&plan), vec![0]);
}

#[test]
fn update_with_keys_applies_deletes() {
    let plan = plan_ingest(
        LibgenDumpKind::Fiction,
        "d".to_string(),
        vec![def("a", &["ID", "Title"]), def("b", &["Title"]), def("c", &["ID"])],
        String::new(),
        "f_".to_string(),
        "update",
        "pk",
        true,
        strings(&["ID"]),
        true,
    )
    .ok()
    .unwrap();
    assert!(plan.apply_deletes);
    assert_eq!(unique_index_tables(&plan), vec![0, 2]);
    assert_eq!(delete_targets(&plan).ok().unwrap(), vec![0, 2]);
}

#[test]
fn deletes_need_one_key_column() {
    let plan = plan_ingest(
        LibgenDumpKind::Fiction,
        "d".to_string(),
        vec![def("a", &["ID", "X"])],
        String::new(),
        String::new(),
        "update",
        "pk",
        false,
        strings(&["ID", "X"]),
        true,
    )
    .ok()
    .unwrap();
    match delete_targets(&plan) {
        Err(e) => {
            assert!(matches!(e, RunPlanError::DeleteKeyColumns(2)));
            assert_eq!(e.message(), "apply_deletes requires exactly 1 primary key column, got 2");
        }
        Ok(_) => panic!("expected an error"),
    }
}

#[test]
fn plain_ingest_has_no_unique_index_or_deletes() {
    let plan = plan_ingest(
        LibgenDumpKind::Fiction,
        "d".to_string(),
        vec![def("a", &["ID"])],
        String::new(),
        String::new(),
        "ingest",
        "pk",
        false,
        strings(&["ID"]),
        true,
    )
    .ok()
    .unwrap();
    assert_eq!(plan.mode, IngestMode::Ingest);
    assert!(!plan.apply_deletes);
    assert!(unique_index_tables(&plan).is_empty());
    assert!(delete_targets(&plan).ok().unwrap().is_empty());
}

#[test]
fn post_load_index_lists() {
    let defs = vec![def("a", &["ID", "Title"]), def("b", &["MD5"])];
    let fields = strings(&["MD5", "Title"]);
    let idx = post_load_indexes(&defs, &fields, true);
    assert_eq!(idx, vec![strings(&["Title"]), strings(&["MD5"])]);
    let none = post_load_indexes(&defs, &fields, false);
    assert_eq!(none, vec![Vec::<String>::new(), Vec::new()]);
}

#[test]
fn output_directories() {
    assert_eq!(
        offline_out_dir(Some("x".to_string()), None, OfflineLayout::Flat, LibgenDumpKind::Fiction).ok().unwrap(),
        "x"
    );
    assert_eq!(
        offline_out_dir(None, Some("/c".to_string()), OfflineLayout::KindSubdir, LibgenDumpKind::Compact)
            .ok()
            .unwrap(),
        "/c/compact"
    );
    assert_eq!(
        offline_out_dir(None, Some("/c".to_string()), OfflineLayout::Flat, LibgenDumpKind::Compact).ok().unwrap(),
        "/c"
    );
    match offline_out_dir(None, None, OfflineLayout::Flat, LibgenDumpKind::Compact) {
        Err(e) => assert!(e.message().starts_with("no offline output dir configured")),
        Ok(_) => panic!("expected an error"),
    }
}

#[test]
fn manifest_kinds_and_runs() {
    assert!(matches!(manifest_kind("fiction"), Ok(LibgenDumpKind::Fiction)));
    assert!(matches!(manifest_kind("compact"), Ok(LibgenDumpKind::Compact)));
    match manifest_kind("Fiction") {
        Err(e) => assert_eq!(e.message(), "unknown manifest kind `Fiction` (expected `fiction` or `compact`)"),
        Ok(_) => panic!("expected an error"),
    }
    assert_eq!(select_run(Some(4), true), RunSelection::Given(4));
    assert_eq!(select_run(None, true), RunSelection::ResumeLatest);
    assert_eq!(select_run(None, false), RunSelection::CreateNew);
}

#[test]
fn resumable_statuses() {
    assert!(check_resumable(1, "in_progress").is_ok());
    assert!(check_resumable(1, "failed").is_ok());
    match check_resumable(7, "succeeded") {
        Err(e) => assert_eq!(
            e.message(),
            "import_run_id 7 has status `succeeded`; only in_progress/failed can be resumed"
        ),
        Ok(_) => panic!("expected an error"),
    }
}

#[test]
fn manifest_matching() {
    assert!(check_manifest_match(false, true, 1, "compact", "", "fiction", "a").is_ok());
    assert!(check_manifest_match(true, false, 1, "compact", "", "fiction", "a").is_ok());
    match check_manifest_match(true, true, 3, "compact", "", "fiction", "a") {
        Err(e) => assert_eq!(
            e.message(),
            "resume manifest mismatch: import_run_id 3 expects kind `compact`, but manifest has `fiction`"
        ),
        Ok(_) => panic!("expected an error"),
    }
    assert!(check_manifest_match(true, true, 3, "fiction", "", "fiction", "a").is_ok());
    assert!(check_manifest_match(true, true, 3, "fiction", "a", "fiction", "a").is_ok());
    match check_manifest_match(true, true, 3, "fiction", "b", "fiction", "a") {
        Err(e) => assert_eq!(
            e.message(),
            "resume manifest mismatch: import_run_id 3 expects dump `b`, but manifest has `a`"
        ),
        Ok(_) => panic!("expected an error"),
    }
}

#[test]
fn tables_and_validation() {
    assert_eq!(prefixed_table(&Some("lg_".to_string()), "f_", "fiction"), "lg_f_fiction");
    assert_eq!(prefixed_table(&None, "f_", "fiction"), "f_fiction");
    assert!(check_row_count("t", 5).is_ok());
    match check_row_count("lg_t", 0) {
        Err(e) => assert_eq!(e.message(), "validation failed: `lg_t` has 0 rows"),
        Ok(_) => panic!("expected an error"),
    }
}

#[test]
fn stage_summary_counts() {
    let s = summarize_stages(&strings(&["staged", "swapped", "swapped", "odd", "staged", "swapped"]));
    assert_eq!(s.staged, 2);
    assert_eq!(s.swapped, 3);
    assert_eq!(s.unknown, 1);
    assert_eq!(s.total, 6);
}
