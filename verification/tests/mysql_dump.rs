use bulk_merge::libgen::mysql_dump::{
    parse_create_table, parse_insert_into, split_top_level_commas, ColumnDef, MySqlDumpError,
    StatementReader, SqlValue,
};

#[test]
fn parse_create_table_basic() {
    let stmt = r#"
CREATE TABLE `fiction` (
  `ID` int(11) NOT NULL,
  `Title` varchar(255) DEFAULT NULL,
  `Year` int(11) DEFAULT NULL,
  PRIMARY KEY (`ID`),
  KEY `Title` (`Title`)
) ENGINE=MyISAM DEFAULT CHARSET=utf8;
"#;

    let def = parse_create_table(stmt).unwrap().unwrap();
    assert_eq!(def.name, "fiction");
    assert_eq!(
        def.columns,
        vec![
            ColumnDef {
                name: "ID".to_string(),
                mysql_type: "int(11)".to_string()
            },
            ColumnDef {
                name: "Title".to_string(),
                mysql_type: "varchar(255)".to_string()
            },
            ColumnDef {
                name: "Year".to_string(),
                mysql_type: "int(11)".to_string()
            }
        ]
    );
}

#[test]
fn split_commas_respects_parens() {
    let inside = "`a` int(11), `b` decimal(10,2), PRIMARY KEY (`a`,`b`), `c` text";
    let parts = split_top_level_commas(inside);
    assert_eq!(parts.len(), 4);
}

#[test]
fn parse_insert_into_basic() {
    let stmt = "INSERT INTO `fiction` VALUES (1,'hi',NULL),(2,'a\\'b','x');";
    let ins = parse_insert_into(stmt).unwrap().unwrap();
    assert_eq!(ins.table, "fiction");
    assert_eq!(ins.rows.len(), 2);
    assert_eq!(ins.rows[0][0], SqlValue::Text("1".to_string()));
    assert_eq!(ins.rows[0][1], SqlValue::Text("hi".to_string()));
    assert_eq!(ins.rows[0][2], SqlValue::Null);
    assert_eq!(ins.rows[1][1], SqlValue::Text("a'b".to_string()));
}

#[test]
fn statement_reader_emits_statements() {
    let input = b"CREATE TABLE `t` (`a` int);\nINSERT INTO `t` VALUES (1,'x');\n";
    let mut r = StatementReader::new(&input[..], 10_000);
    let s1 = r.next_statement().unwrap().unwrap();
    assert!(s1.to_ascii_uppercase().starts_with("CREATE TABLE"));
    let s2 = r.next_statement().unwrap().unwrap();
    assert!(s2.to_ascii_uppercase().starts_with("INSERT INTO"));
    let s3 = r.next_statement().unwrap();
    assert!(s3.is_none());
}

#[test]
fn statement_reader_enforces_max_size_with_context() {
    let input = b"INSERT INTO `t` VALUES (1,'abcdefghijklmnopqrstuvwxyz');\n";
    let mut r = StatementReader::new(&input[..], 10);
    let err = r.next_statement().expect_err("expected too-large error");
    match err {
        MySqlDumpError::StatementTooLarge {
            max_bytes,
            current_bytes,
            offset_end,
            preview,
        } => {
            assert_eq!(max_bytes, 10);
            assert!(current_bytes > 10);
            assert!(offset_end > 0);
            assert!(!preview.is_empty());
        }
        other => panic!("unexpected error: {other:?}"),
    }
}
