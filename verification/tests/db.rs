use bulk_merge::db::{
    btree_index_name, check_conflict_columns, check_row_lengths, checkpoint_offset_of,
    checkpoint_value, copy_sql, create_index_sql, create_table_sql, delete_not_seen_sql,
    encode_copy_rows, insert_head_sql, join_strings, map_mysql_type_to_postgres,
    on_conflict_do_nothing_sql, on_conflict_update_sql, qualified_name, quote_all, quote_ident,
    row_count_sql, sample_sql, text_by_pk_sql, unique_index_name, BatchError, ImportRunStatus,
};
use bulk_merge::libgen::mysql_dump::{ColumnDef, TableDef};
use bulk_merge::openlibrary::parser::JsonValue;

fn strings(v: &[&str]) -> Vec<String> {
    v.iter().map(|s| s.to_string()).collect()
}

#[test]
fn statuses() {
    assert_eq!(ImportRunStatus::Pending.as_str(), "pending");
    assert_eq!(ImportRunStatus::InProgress.as_str(), "in_progress");
    assert_eq!(ImportRunStatus::Failed.as_str(), "failed");
    assert_eq!(ImportRunStatus::Succeeded.as_str(), "succeeded");
}

#[test]
fn quoting() {
    assert_eq!(quote_ident("abc"), "\"abc\"");
    assert_eq!(quote_ident("a\"b"), "\"a\"\"b\"");
    assert_ne!(quote_ident("a\"b"), quote_ident("a\"\"b"));
    assert_eq!(qualified_name("s", "t"), "\"s\".\"t\"");
    assert_eq!(quote_all(&strings(&["a", "b"])), strings(&["\"a\"", "\"b\""]));
    assert_eq!(join_strings(&strings(&["a", "b", "c"]), ", "), "a, b, c");
    assert_eq!(join_strings(&vec![], ", "), "");
    assert_eq!(map_mysql_type_to_postgres("int(11)"), "text");
}

#[test]
fn create_table_statement() {
    let def = TableDef {
        name: "fiction".to_string(),
        columns: vec![
            ColumnDef { name: "ID".to_string(), mysql_type: "int(11)".to_string() },
            ColumnDef { name: "Title".to_string(), mysql_type: "varchar(255)".to_string() },
        ],
    };
    assert_eq!(
        create_table_sql("src_libgen", "lg_fiction", &def, false),
        "create table if not exists \"src_libgen\".\"lg_fiction\" (\n    \"ID\" text,\n    \"Title\" text\n)"
    );
    assert_eq!(
        create_table_sql("s", "t", &def, true),
        "create table if not exists \"s\".\"t\" (\n    \"ID\" text,\n    \"Title\" text,\n    \"_bm_row_hash\" text not null\n)"
    );
}

#[test]
fn load_statements() {
    let cols = strings(&["a", "b"]);
    assert_eq!(
        copy_sql("s", "t", &cols),
        "copy \"s\".\"t\" (\"a\", \"b\") from stdin with (format csv, delimiter E'\\t', null '\\\\N', quote '\"', escape '\"')"
    );
    assert_eq!(insert_head_sql("s", "t", &cols), "insert into \"s\".\"t\" (\"a\", \"b\") ");
    assert_eq!(on_conflict_do_nothing_sql(&strings(&["a"])), " on conflict (\"a\") do nothing");
    assert_eq!(
        on_conflict_update_sql(&strings(&["a"]), &cols),
        " on conflict (\"a\") do update set \"a\" = excluded.\"a\", \"b\" = excluded.\"b\""
    );
}

#[test]
fn index_statements() {
    assert_eq!(btree_index_name("t", "c"), "idx_t_c");
    assert_eq!(unique_index_name("t", &strings(&["a", "b"])), "uidx_t_a_b");
    assert_eq!(
        create_index_sql(false, true, "idx_t_c", "s", "t", &strings(&["c"])),
        "create index concurrently \"idx_t_c\" on \"s\".\"t\" (\"c\")"
    );
    assert_eq!(
        create_index_sql(true, false, "u", "s", "t", &strings(&["a", "b"])),
        "create unique index if not exists \"u\" on \"s\".\"t\" (\"a\", \"b\")"
    );
}

#[test]
fn query_statements() {
    assert_eq!(row_count_sql("s", "t"), "select count(*)::bigint from \"s\".\"t\"");
    assert_eq!(
        sample_sql("s", "t", 10),
        "select row_to_json(t) from (select * from \"s\".\"t\" limit 10) t"
    );
    assert_eq!(
        text_by_pk_sql("s", "t", "ID", "Title"),
        "select \"Title\" from \"s\".\"t\" where \"ID\" = $1 limit 1"
    );
    let del = delete_not_seen_sql("s", "t", "ID");
    assert!(del.starts_with("\ndelete from \"s\".\"t\" t\nwhere not exists ("));
    assert!(del.ends_with("and s.pk_value = t.\"ID\"\n)\n"));
}

#[test]
fn batch_checks() {
    let cols = strings(&["a", "b"]);
    let good = vec![vec![None, Some("x".to_string())]];
    let bad = vec![vec![None, None], vec![None]];
    assert_eq!(check_row_lengths(&cols, &good), Ok(()));
    assert_eq!(check_row_lengths(&cols, &bad), Err(BatchError::RowLength { expected: 2, got: 1 }));
    assert_eq!(check_conflict_columns(&cols, &strings(&["a"])), Ok(()));
    assert_eq!(check_conflict_columns(&cols, &vec![]), Err(BatchError::NoConflictColumns));
    assert_eq!(
        check_conflict_columns(&cols, &strings(&["a", "z"])),
        Err(BatchError::ConflictColumnMissing("z".to_string()))
    );
}

#[test]
fn copy_text_encoding() {
    let rows = vec![
        vec![Some("a\"b".to_string()), None],
        vec![Some(String::new()), Some("x\ty".to_string())],
    ];
    assert_eq!(encode_copy_rows(&rows), "\"a\"\"b\"\t\\N\n\"\"\t\"x\ty\"\n");
    assert_eq!(encode_copy_rows(&vec![]), "");
}

#[test]
fn checkpoints_read_back() {
    for n in [0u64, 7, u64::MAX] {
        assert_eq!(checkpoint_offset_of(&checkpoint_value(n)), n);
    }
    let obj = |v: JsonValue| JsonValue::Object(vec![("offset".to_string(), v)]);
    assert_eq!(checkpoint_offset_of(&obj(JsonValue::Int(12))), 12);
    assert_eq!(checkpoint_offset_of(&obj(JsonValue::Int(-1))), 0);
    assert_eq!(checkpoint_offset_of(&obj(JsonValue::Str("3".to_string()))), 0);
    assert_eq!(checkpoint_offset_of(&JsonValue::Null), 0);
}
