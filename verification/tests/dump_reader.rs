use bulk_merge::config::LibgenDumpKind;
use bulk_merge::libgen::mysql_dump::{
    compute_pg_table_name, parse_create_table, parse_insert_into, parse_insert_into_for_each_row,
    parse_insert_into_values_input, parse_row, split_top_level_commas, statement_preview,
    statement_preview_bytes, table_prefix_for_kind, ColumnDef, MySqlDumpError, StatementReader,
    TableDef, SqlValue,
};

fn parse_message(e: MySqlDumpError) -> String {
    match e {
        MySqlDumpError::Parse(m) => m,
        other => panic!("unexpected error: {other:?}"),
    }
}

#[test]
fn reader_offsets_and_quoted_semicolons() {
    let input = b"-- c\nINSERT INTO `t` VALUES ('a;b');\nINSERT INTO `t` VALUES ('it''s');";
    let mut r = StatementReader::new_with_offset(&input[..], 1_000, 100);
    assert_eq!(r.offset(), 100);
    let s1 = r.next_statement().unwrap().unwrap();
    assert!(s1.contains("'a;b'"));
    let s2 = r.next_statement().unwrap().unwrap();
    assert!(s2.contains("it''s"));
    assert!(r.next_statement().unwrap().is_none());
    assert_eq!(r.offset(), 100 + input.len() as u64);
}

#[test]
fn previews_decode_lossily_and_mark_truncation() {
    assert_eq!(statement_preview_bytes(&[0x61, 0xff, 0x62], 10), "a\u{fffd}b");
    assert_eq!(statement_preview("abcdef", 3), "abc…");
    assert_eq!(statement_preview("abc", 3), "abc");
    assert_eq!(statement_preview("abc", 0), "a…");
}

#[test]
fn table_names_and_prefixes() {
    assert_eq!(table_prefix_for_kind(LibgenDumpKind::Fiction, "f_", "c_"), "f_");
    assert_eq!(table_prefix_for_kind(LibgenDumpKind::Compact, "f_", "c_"), "c_");
    assert_eq!(compute_pg_table_name("lg_", "p_", LibgenDumpKind::Fiction, "fiction"), "lg_p_fiction");
    assert_eq!(compute_pg_table_name("", "", LibgenDumpKind::Fiction, "fiction_hashes"), "fiction_hashes");
    assert_eq!(compute_pg_table_name("", "", LibgenDumpKind::Compact, "updated"), "compact_updated");
}

#[test]
fn create_table_errors_and_skips() {
    assert!(parse_create_table("INSERT INTO `t` VALUES (1);").unwrap().is_none());
    assert_eq!(parse_message(parse_create_table("CREATE TABLE `t`;").unwrap_err()), "missing '('");
    assert_eq!(
        parse_message(parse_create_table("CREATE TABLE `t` (PRIMARY KEY (`a`));").unwrap_err()),
        "no columns parsed from CREATE TABLE"
    );
    // Statements are recognised in any case, but the name is read after an upper-case keyword.
    assert_eq!(
        parse_message(parse_create_table("create table t (a int)").unwrap_err()),
        "failed to parse CREATE TABLE name"
    );
    let def = parse_create_table("/* x */ CREATE TABLE t (a int, b text)").unwrap().unwrap();
    assert_eq!(def.name, "t");
    assert_eq!(def.columns.len(), 2);
}

#[test]
fn insert_values_and_errors() {
    let ins = parse_insert_into("INSERT INTO `t` VALUES (1,'a\\nb',NULL),(2,'\\\\','')").unwrap().unwrap();
    assert_eq!(ins.table, "t");
    assert_eq!(
        ins.rows,
        vec![
            vec![SqlValue::Text("1".to_string()), SqlValue::Text("a\nb".to_string()), SqlValue::Null],
            vec![SqlValue::Text("2".to_string()), SqlValue::Text("\\".to_string()), SqlValue::Text(String::new())],
        ]
    );
    assert_eq!(parse_message(parse_insert_into("INSERT INTO `t` (1);").unwrap_err()), "INSERT INTO without VALUES is not supported");
    assert_eq!(parse_message(parse_insert_into("INSERT INTO `t` VALUES (1,'x").unwrap_err()), "unterminated string");
    assert!(parse_insert_into("SET x = 1;").unwrap().is_none());
    let (table, values) = parse_insert_into_values_input("INSERT INTO `t` VALUES (1);").unwrap().unwrap();
    assert_eq!(table, "t");
    assert!(values.trim_start().starts_with("(1)"));
}

#[test]
fn rows_streamed_one_by_one() {
    let mut seen: Vec<Vec<SqlValue>> = Vec::new();
    let r = parse_insert_into_for_each_row("INSERT INTO `t` VALUES (1),(2),(3);", |row| {
        seen.push(row);
        Ok(())
    })
    .unwrap();
    assert_eq!(r, Some(("t".to_string(), 3)));
    assert_eq!(seen.len(), 3);
    assert_eq!(seen[2], vec![SqlValue::Text("3".to_string())]);
    let stopped = parse_insert_into_for_each_row("INSERT INTO `t` VALUES (1),(2);", |_| {
        Err(MySqlDumpError::Parse("stop".to_string()))
    });
    assert_eq!(parse_message(stopped.unwrap_err()), "stop");
}

#[test]
fn single_row_parse_and_split() {
    let chars: Vec<char> = "(1, 'x' ,NULL) rest".chars().collect();
    let (row, next) = parse_row(&chars, 0).unwrap();
    assert_eq!(row, vec![SqlValue::Text("1".to_string()), SqlValue::Text("x".to_string()), SqlValue::Null]);
    assert_eq!(chars[next..].iter().collect::<String>(), " rest");
    assert_eq!(split_top_level_commas("a, 'b,c', (d,e),  "), vec!["a", " 'b,c'", " (d,e)"]);
}

#[test]
fn split_parts_rejoin_to_input() {
    let s = "`a` int(11), `b` decimal(10,2), PRIMARY KEY (`a`,`b`), `c` text";
    assert_eq!(split_top_level_commas(s).join(","), s);
    let t = "x,'y,z'\\,(1,2),w ,  ";
    let parts = split_top_level_commas(t);
    assert_eq!(format!("{},  ", parts.join(",")), t);
}

struct FailingReader;

impl std::io::Read for FailingReader {
    fn read(&mut self, _buf: &mut [u8]) -> std::io::Result<usize> {
        Err(std::io::Error::new(std::io::ErrorKind::Other, "boom"))
    }
}

#[test]
fn read_errors_are_passed_on() {
    let mut r = StatementReader::new(FailingReader, 100);
    match r.next_statement() {
        Err(MySqlDumpError::Io(e)) => assert_eq!(e.to_string(), "boom"),
        other => panic!("unexpected result: {other:?}"),
    }
}

#[test]
fn each_parse_failure_has_its_message() {
    let insert_err = |s: &str| parse_message(parse_insert_into(s).unwrap_err());
    assert_eq!(parse_message(parse_create_table("CREATE TABLE `t` (`a` int").unwrap_err()), "missing ')'");
    assert_eq!(insert_err("INSERT INTO (1)"), "failed to parse INSERT INTO table name");
    assert_eq!(insert_err("INSERT INTO `t` VALUES ;"), "INSERT INTO parsed but yielded zero rows");
    assert_eq!(insert_err("INSERT INTO `t` VALUES (1"), "unterminated row");
    assert_eq!(insert_err("INSERT INTO `t` VALUES (1 2)"), "unexpected token in row");
    assert_eq!(insert_err("INSERT INTO `t` VALUES ('a\\"), "dangling escape");
    let chars: Vec<char> = "x".chars().collect();
    assert!(parse_row(&chars, 0).is_err());
}

#[test]
fn create_table_with_non_ascii_name() {
    let def = parse_create_table("CREATE TABLE `é` (`a` int)").unwrap().unwrap();
    assert_eq!(
        def,
        TableDef {
            name: "é".to_string(),
            columns: vec![ColumnDef { name: "a".to_string(), mysql_type: "int".to_string() }],
        }
    );
    let def = parse_create_table("CREATE TABLE `ünïcødé` (`ä` varchar(10), `b` int)").unwrap().unwrap();
    assert_eq!(def.name, "ünïcødé");
    assert_eq!(def.columns.len(), 2);
    assert_eq!(def.columns[0].name, "ä");
}

#[test]
fn reader_splits_quoted_semicolons_exactly() {
    let mut r = StatementReader::new(&b"X ('a'';b');Y ('c\\';d');"[..], 10_000);
    assert_eq!(r.next_statement().unwrap(), Some("X ('a'';b');".to_string()));
    assert_eq!(r.next_statement().unwrap(), Some("Y ('c\\';d');".to_string()));
    assert_eq!(r.next_statement().unwrap(), None);
}

#[test]
fn statements_within_the_limit_are_not_rejected() {
    let mut r = StatementReader::new(&b"SELECT 1;SELECT 2;"[..], 10);
    assert_eq!(r.next_statement().unwrap(), Some("SELECT 1;".to_string()));
    assert_eq!(r.next_statement().unwrap(), Some("SELECT 2;".to_string()));
    assert_eq!(r.next_statement().unwrap(), None);
}

#[test]
fn end_of_stream_repeats_and_offset_counts_all_bytes() {
    let input = b"A;  B";
    let mut r = StatementReader::new_with_offset(&input[..], 100, 7);
    assert_eq!(r.next_statement().unwrap(), Some("A;".to_string()));
    assert_eq!(r.next_statement().unwrap(), Some("B".to_string()));
    assert_eq!(r.offset(), 7 + input.len() as u64);
    assert_eq!(r.next_statement().unwrap(), None);
    assert_eq!(r.next_statement().unwrap(), None);
    assert_eq!(r.offset(), 7 + input.len() as u64);
}

#[test]
fn buffered_bytes_decide_without_reading() {
    let mut r = StatementReader::new(&b""[..], 100);
    assert!(r.next_buffered().is_none());
    r.add_bytes(b" ;\n; INSERT INTO t VALUES ('x;").unwrap();
    // A bare terminator is a statement of its own; the quoted `;` ends nothing.
    assert_eq!(r.next_buffered().unwrap().unwrap(), ";");
    assert_eq!(r.next_buffered().unwrap().unwrap(), ";");
    assert!(r.next_buffered().is_none());
    r.add_bytes(b"y');rest").unwrap();
    match r.next_buffered() {
        Some(Ok(s)) => assert_eq!(s, "INSERT INTO t VALUES ('x;y');"),
        other => panic!("unexpected result: {other:?}"),
    }
    assert!(r.next_buffered().is_none());
    assert_eq!(r.end_of_stream(), Some("rest".to_string()));
    assert_eq!(r.end_of_stream(), None);
    assert_eq!(r.offset(), 38);
}

#[test]
fn size_limit_applies_to_the_current_statement() {
    let mut r = StatementReader::new(&b""[..], 5);
    r.add_bytes(b"ab;cdefgh").unwrap();
    assert_eq!(r.next_buffered().unwrap().unwrap(), "ab;");
    match r.next_buffered() {
        Some(Err(MySqlDumpError::StatementTooLarge { max_bytes, current_bytes, offset_end, preview })) => {
            assert_eq!(max_bytes, 5);
            assert_eq!(current_bytes, 6);
            assert_eq!(offset_end, 9);
            assert_eq!(preview, "cdefgh");
        }
        other => panic!("unexpected result: {other:?}"),
    }
    let mut r = StatementReader::new(&b""[..], 5);
    r.add_bytes(b"abcdef;").unwrap();
    match r.next_buffered() {
        Some(Err(MySqlDumpError::StatementTooLarge { current_bytes, preview, .. })) => {
            assert_eq!(current_bytes, 7);
            assert_eq!(preview, "abcdef;");
        }
        other => panic!("unexpected result: {other:?}"),
    }
}

#[test]
fn offset_overflow_is_a_parse_error() {
    let mut r = StatementReader::new_with_offset(&b""[..], 100, u64::MAX - 2);
    r.add_bytes(b"ab").unwrap();
    assert_eq!(parse_message(r.add_bytes(b"cd").unwrap_err()), "dump offset exceeds u64::MAX");
    assert_eq!(r.offset(), u64::MAX);
    assert_eq!(r.end_of_stream(), Some("ab".to_string()));
}

#[test]
fn rows_reach_the_callback_in_order() {
    let stmt = "INSERT INTO `t` VALUES (1,'a'),(2,NULL),(3,'c;d');";
    let mut seen: Vec<Vec<SqlValue>> = Vec::new();
    let res = parse_insert_into_for_each_row(stmt, |row| {
        seen.push(row);
        Ok(())
    });
    let ins = parse_insert_into(stmt).unwrap().unwrap();
    assert_eq!(res.unwrap(), Some((ins.table.clone(), ins.rows.len() as u64)));
    assert_eq!(seen, ins.rows);
}

#[test]
fn callback_error_stops_and_is_returned() {
    let stmt = "INSERT INTO `t` VALUES (1),(2),(3),(4);";
    let mut calls: Vec<Vec<SqlValue>> = Vec::new();
    let res = parse_insert_into_for_each_row(stmt, |row| {
        calls.push(row);
        if calls.len() == 2 {
            Err(MySqlDumpError::Parse("second".to_string()))
        } else {
            Ok(())
        }
    });
    assert_eq!(parse_message(res.unwrap_err()), "second");
    assert_eq!(calls, vec![vec![SqlValue::Text("1".to_string())], vec![SqlValue::Text("2".to_string())]]);
    // Rows before a malformed row are handed over before the parse error.
    let mut count = 0;
    let res = parse_insert_into_for_each_row("INSERT INTO `t` VALUES (1),(2),(3", |_| {
        count += 1;
        Ok(())
    });
    assert_eq!(parse_message(res.unwrap_err()), "unterminated row");
    assert_eq!(count, 2);
    let res = parse_insert_into_for_each_row("UPDATE t SET a = 1", |_| Ok(()));
    assert_eq!(res.unwrap(), None);
}

#[test]
fn short_valid_previews_are_unchanged() {
    assert_eq!(statement_preview("héllo", 6), "héllo");
    assert_eq!(statement_preview("héllo", 2), "h\u{fffd}…");
    assert_eq!(statement_preview_bytes("ü".as_bytes(), 1), "\u{fffd}…");
}

#[test]
fn parts_count_follows_top_level_commas() {
    assert_eq!(split_top_level_commas("a,b,c").len(), 3);
    assert_eq!(split_top_level_commas("f(a,b),'c,d',e").len(), 3);
    assert_eq!(split_top_level_commas("a,b,  ").len(), 2);
    assert_eq!(split_top_level_commas("").len(), 0);
}

#[test]
fn parts_hold_no_top_level_comma() {
    let s = "`a` int(11), `b` decimal(10,2), 'x,y', PRIMARY KEY (`a`,`b`)";
    let parts = split_top_level_commas(s);
    assert_eq!(parts.len(), 4);
    for p in &parts {
        assert_eq!(split_top_level_commas(p).len(), 1);
    }
}

#[test]
fn cut_previews_of_valid_text() {
    assert_eq!(statement_preview("abcdef", 3), "abc…");
    assert_eq!(statement_preview("abc", 3), "abc");
    assert_eq!(statement_preview("abc", 0), "a…");
    assert_eq!(statement_preview("héllo", 3), "hé…");
}
