use bulk_merge::config::LibgenDumpKind;
use bulk_merge::db::encode_copy_rows;
use bulk_merge::libgen::mysql_dump::{ColumnDef, TableDef, SqlValue};
use bulk_merge::libgen::offline::{
    convert_statement, index_fields, main_fields_for, next_swap_action, normalize_kind,
    old_table_name, old_tables_to_drop, record_table_def, rows_tsv, should_interrupt,
    staging_schema_name, swap_stage_of, table_file_name, table_has_column, write_row_tsv,
    ConvertAction, ConvertError, OfflineManifest, OfflineState, SwapAction, SwapStage,
};

fn def(name: &str, cols: &[&str]) -> TableDef {
    TableDef {
        name: name.to_string(),
        columns: cols
            .iter()
            .map(|c| ColumnDef { name: c.to_string(), mysql_type: "text".to_string() })
            .collect(),
    }
}

fn manifest(tables: Vec<TableDef>) -> OfflineManifest {
    OfflineManifest {
        kind: "fiction".to_string(),
        dump_path: "/dumps/fiction.sql".to_string(),
        schema: "src_libgen".to_string(),
        overall_prefix: "lg_".to_string(),
        kind_prefix: "f_".to_string(),
        tables,
    }
}

#[test]
fn kind_names_and_file_names() {
    assert_eq!(normalize_kind(LibgenDumpKind::Fiction), "fiction");
    assert_eq!(normalize_kind(LibgenDumpKind::Compact), "compact");
    assert_eq!(table_file_name("updated"), "updated.tsv");
    let st = OfflineState { dump_offset: 42 };
    assert_eq!(st.dump_offset, 42);
}

#[test]
fn tsv_row_quotes_texts_and_marks_null() {
    let mut out = String::from("x");
    let row = vec![
        SqlValue::Text("a\"b".to_string()),
        SqlValue::Null,
        SqlValue::Text("tab\there".to_string()),
        SqlValue::Text("n\0ul".to_string()),
    ];
    write_row_tsv(true, "?", &mut out, &row);
    assert_eq!(out, "x\"a\"\"b\"\t\\N\t\"tab\there\"\t\"n?ul\"\n");
}

#[test]
fn tsv_lines_match_copy_lines() {
    let rows = vec![
        vec![SqlValue::Text("1".to_string()), SqlValue::Null],
        vec![SqlValue::Text("say \"hi\"".to_string()), SqlValue::Text(String::new())],
    ];
    let tsv = rows_tsv(false, "", &rows);
    let copy_rows: Vec<Vec<Option<String>>> = vec![
        vec![Some("1".to_string()), None],
        vec![Some("say \"hi\"".to_string()), Some(String::new())],
    ];
    assert_eq!(tsv, encode_copy_rows(&copy_rows));
    assert_eq!(tsv, "\"1\"\t\\N\n\"say \"\"hi\"\"\"\t\"\"\n");
}

#[test]
fn first_definition_wins_and_names_stay_ordered() {
    let mut defs: Vec<TableDef> = Vec::new();
    assert!(record_table_def(&mut defs, def("m", &["a"])));
    assert!(record_table_def(&mut defs, def("b", &["a"])));
    assert!(record_table_def(&mut defs, def("z", &["a"])));
    assert!(!record_table_def(&mut defs, def("m", &["other"])));
    assert!(record_table_def(&mut defs, def("ma", &["a"])));
    let names: Vec<&str> = defs.iter().map(|d| d.name.as_str()).collect();
    assert_eq!(names, vec!["b", "m", "ma", "z"]);
    assert_eq!(defs[1].columns[0].name, "a");
}

#[test]
fn uppercase_sorts_before_lowercase() {
    let mut defs: Vec<TableDef> = Vec::new();
    record_table_def(&mut defs, def("b", &[]));
    record_table_def(&mut defs, def("B", &[]));
    record_table_def(&mut defs, def("", &[]));
    let names: Vec<&str> = defs.iter().map(|d| d.name.as_str()).collect();
    assert_eq!(names, vec!["", "B", "b"]);
}

#[test]
fn convert_statement_kinds() {
    let mut defs: Vec<TableDef> = Vec::new();
    match convert_statement(&mut defs, "CREATE TABLE `t` (`a` int);", false, "") {
        Ok(ConvertAction::TableDefined { added }) => assert!(added),
        _ => panic!("expected a table definition"),
    }
    match convert_statement(&mut defs, "CREATE TABLE `t` (`b` int);", false, "") {
        Ok(ConvertAction::TableDefined { added }) => assert!(!added),
        _ => panic!("expected a table definition"),
    }
    assert_eq!(defs.len(), 1);
    assert_eq!(defs[0].columns[0].name, "a");
    match convert_statement(&mut defs, "INSERT INTO `t` VALUES (1,'x'),(2,NULL);", false, "") {
        Ok(ConvertAction::Rows { table, lines }) => {
            assert_eq!(table, "t");
            assert_eq!(lines, "\"1\"\t\"x\"\n\"2\"\t\\N\n");
        }
        _ => panic!("expected rows"),
    }
    match convert_statement(&mut defs, "SET NAMES utf8;", false, "") {
        Ok(ConvertAction::Skipped) => {}
        _ => panic!("expected skip"),
    }
    match convert_statement(&mut defs, "CREATE TABLE `u`;", false, "") {
        Err(ConvertError::CreateTable(_)) => {}
        _ => panic!("expected a CREATE TABLE error"),
    }
    match convert_statement(&mut defs, "INSERT INTO `t` (1);", false, "") {
        Err(ConvertError::InsertInto(_)) => {}
        _ => panic!("expected an INSERT error"),
    }
    assert_eq!(defs.len(), 1);
}

#[test]
fn swap_stages_and_actions() {
    assert_eq!(swap_stage_of(&None), SwapStage::Pending);
    assert_eq!(swap_stage_of(&Some("staged".to_string())), SwapStage::Staged);
    assert_eq!(swap_stage_of(&Some("swapped".to_string())), SwapStage::Swapped);
    assert_eq!(swap_stage_of(&Some("weird".to_string())), SwapStage::Pending);
    assert_eq!(next_swap_action(SwapStage::Pending), SwapAction::Stage);
    assert_eq!(next_swap_action(SwapStage::Staged), SwapAction::Swap);
    assert_eq!(next_swap_action(SwapStage::Swapped), SwapAction::Done);
    assert_eq!(SwapStage::Staged.as_str(), Some("staged"));
    assert_eq!(SwapStage::Swapped.as_str(), Some("swapped"));
    assert_eq!(SwapStage::Pending.as_str(), None);
}

#[test]
fn interrupted_load_resumes_to_swapped() {
    // A table staged before an interrupt is swapped on resume, and never staged again.
    let mut stage = SwapStage::Pending;
    let mut actions = Vec::new();
    loop {
        let a = next_swap_action(stage);
        if a == SwapAction::Done {
            break;
        }
        actions.push(a);
        stage = match a {
            SwapAction::Stage => SwapStage::Staged,
            SwapAction::Swap => SwapStage::Swapped,
            SwapAction::Done => stage,
        };
        if actions.len() == 1 {
            // interrupt here and resume from the recorded stage
            stage = swap_stage_of(&Some("staged".to_string()));
        }
    }
    assert_eq!(actions, vec![SwapAction::Stage, SwapAction::Swap]);
    assert_eq!(stage, SwapStage::Swapped);
}

#[test]
fn staging_and_old_names() {
    assert_eq!(staging_schema_name("bm_stage", 17), "bm_stage_17");
    assert_eq!(staging_schema_name("s", -3), "s_-3");
    assert_eq!(old_table_name("lg_f_fiction", 9), "lg_f_fiction__old_9");
    let m = manifest(vec![def("a", &[]), def("b", &[])]);
    assert_eq!(m.pg_table("a"), "lg_f_a");
    assert_eq!(old_tables_to_drop(&m, 5, true, true), vec!["lg_f_a__old_5", "lg_f_b__old_5"]);
    assert!(old_tables_to_drop(&m, 5, true, false).is_empty());
    assert!(old_tables_to_drop(&m, 5, false, true).is_empty());
}

#[test]
fn manifest_columns_and_index_fields() {
    let m = manifest(vec![def("fiction", &["ID", "Title", "Author"])]);
    assert_eq!(m.column_names(0), vec!["ID", "Title", "Author"]);
    let d = &m.tables[0];
    assert!(table_has_column(d, &"Title".to_string()));
    assert!(!table_has_column(d, &"MD5".to_string()));
    let fiction = vec!["Title".to_string(), "MD5".to_string(), "Author".to_string()];
    let compact = vec!["ID".to_string()];
    assert_eq!(index_fields(&fiction, d), vec!["Title", "Author"]);
    assert_eq!(main_fields_for("fiction", &fiction, &compact), &fiction);
    assert_eq!(main_fields_for("compact", &fiction, &compact), &compact);
    assert_eq!(main_fields_for("other", &fiction, &compact), &compact);
}

#[test]
fn interrupt_limit() {
    assert!(!should_interrupt(3, None));
    assert!(should_interrupt(1, Some(1)));
    assert!(!should_interrupt(0, Some(1)));
}
