use bulk_merge::db::PgTargetType;
use bulk_merge::openlibrary::ingest::{
    create_ol_table_sql, drop_ol_table_sql, get_table_definition, ol_checkpoint_key,
    ol_dataset_id, ol_ingest_plans, ol_row, to_pg_array, to_pg_int_array, LineStep, OlLoader,
};
use bulk_merge::openlibrary::parser::{
    parse_dump_time, parse_line, parse_line_fields, record_from_json, split_line,
    with_time, JsonValue, OlParseError,
};

fn s(v: &str) -> JsonValue {
    JsonValue::Str(v.to_string())
}

fn obj(members: Vec<(&str, JsonValue)>) -> JsonValue {
    JsonValue::Object(members.into_iter().map(|(k, v)| (k.to_string(), v)).collect())
}

#[test]
fn header_fields_of_a_line() {
    let line = "/type/work\t/works/OL1W\t3\t2010-04-28T06:54:19.472104\t{\"title\": \"x\"}";
    let l = parse_line_fields(line).ok().unwrap();
    assert_eq!(l.ol_type, "/type/work");
    assert_eq!(l.ol_key, "/works/OL1W");
    assert_eq!(l.revision, 3);
    assert_eq!(l.last_modified, "2010-04-28T06:54:19.472104+00:00");
    assert_eq!(l.json, "{\"title\": \"x\"}");
}

#[test]
fn json_piece_keeps_tabs() {
    let l = parse_line_fields("a\tb\t1\t2010-01-01T00:00:00\t{\"x\":\"\t\"}").ok().unwrap();
    assert_eq!(l.json, "{\"x\":\"\t\"}");
    assert_eq!(l.last_modified, "2010-01-01T00:00:00+00:00");
}

#[test]
fn header_errors() {
    assert_eq!(parse_line_fields("only").err(), Some(OlParseError::MissingKey));
    assert_eq!(parse_line_fields("a\tb").err(), Some(OlParseError::MissingRevision));
    assert_eq!(parse_line_fields("a\tb\t1").err(), Some(OlParseError::MissingLastModified));
    assert_eq!(parse_line_fields("a\tb\t1\tt").err(), Some(OlParseError::MissingJson));
    assert_eq!(parse_line_fields("a\tb\tx\tt\t{}").err(), Some(OlParseError::Revision));
    assert_eq!(parse_line_fields("a\tb\t1\tyesterday\t{}").err(), Some(OlParseError::LastModified));
    assert_eq!(OlParseError::Revision.message(), "failed to parse revision");
}

#[test]
fn dump_times() {
    assert_eq!(parse_dump_time("2020-01-02T03:04:05Z").as_deref(), Some("2020-01-02T03:04:05+00:00"));
    assert_eq!(
        parse_dump_time("2020-01-02T03:04:05+02:00Z"),
        None
    );
    assert_eq!(parse_dump_time("2020-01-02T03:04:05").as_deref(), Some("2020-01-02T03:04:05+00:00"));
    assert_eq!(parse_dump_time("2020-01-02"), None);
}

#[test]
fn record_fields_from_json() {
    let l = parse_line_fields("/type/edition\t/books/OL1M\t7\t2010-01-01T00:00:00\t{}").ok().unwrap();
    let data = obj(vec![
        ("title", s("T")),
        ("name", JsonValue::Int(5)),
        ("authors", JsonValue::Array(vec![
            obj(vec![("key", s("/authors/A"))]),
            obj(vec![("author", obj(vec![("key", s("/authors/B"))]))]),
            obj(vec![("role", s("ed"))]),
        ])),
        ("isbn_10", JsonValue::Array(vec![s("1"), JsonValue::Null, s("2")])),
        ("covers", JsonValue::Array(vec![JsonValue::Int(-1), JsonValue::UInt(u64::MAX), JsonValue::UInt(9)])),
        ("number_of_pages", JsonValue::UInt(300)),
        ("created", obj(vec![("type", s("/type/datetime")), ("value", s("2008-04-01T03:28:50.625462"))])),
    ]);
    let r = record_from_json(l, data);
    assert_eq!(r.ol_key, "/books/OL1M");
    assert_eq!(r.revision, 7);
    assert_eq!(r.title.as_deref(), Some("T"));
    assert_eq!(r.name, None);
    assert_eq!(r.author_keys, vec!["/authors/A", "/authors/B"]);
    assert_eq!(r.isbn_10, vec!["1", "2"]);
    assert!(r.isbn_13.is_empty());
    assert_eq!(r.covers, vec![-1, 9]);
    assert_eq!(r.number_of_pages, Some(300));
    assert_eq!(r.created.as_deref(), Some("2008-04-01T03:28:50.625462+00:00"));

    let row = ol_row("editions", &r);
    let (columns, types) = get_table_definition("editions");
    assert_eq!(row.len(), columns.len());
    assert_eq!(types.len(), columns.len());
    assert_eq!(row[0].as_deref(), Some("/books/OL1M"));
    assert_eq!(row[2].as_deref(), Some("7"));
    assert_eq!(row[5].as_deref(), Some("T"));
    assert_eq!(row[7].as_deref(), Some("{\"1\",\"2\"}"));
    assert_eq!(row[11].as_deref(), Some("300"));
}

#[test]
fn table_definitions() {
    let (c, t) = get_table_definition("authors");
    assert_eq!(c.len(), 10);
    assert_eq!(c[5], "name");
    assert_eq!(t[2], PgTargetType::Int4);
    let (c, t) = get_table_definition("works");
    assert_eq!(c.len(), 14);
    assert_eq!(t[13], PgTargetType::Int8Array);
    let (c, _) = get_table_definition("editions");
    assert_eq!(c.len(), 17);
    let (c, t) = get_table_definition("other");
    assert_eq!(c, vec!["ol_key", "ol_type", "revision", "created", "last_modified"]);
    assert_eq!(t.len(), 5);
}

#[test]
fn array_literals() {
    assert_eq!(to_pg_array(&vec![]), "{}");
    assert_eq!(to_pg_array(&vec!["a".to_string(), "b\"c".to_string()]), "{\"a\",\"b\\\"c\"}");
    assert_eq!(to_pg_int_array(&vec![1, -2, 30]), "{1,-2,30}");
}

#[test]
fn provisioning_sql() {
    let (c, t) = get_table_definition("authors");
    let sql = create_ol_table_sql("ol", "authors", &c, &t);
    assert!(sql.starts_with(
        "CREATE TABLE \"ol\".\"authors\" (\"ol_key\" TEXT PRIMARY KEY, \"ol_type\" TEXT NOT NULL, \"revision\" INTEGER NOT NULL, \"created\" TIMESTAMPTZ, \"last_modified\" TIMESTAMPTZ NOT NULL, \"name\" TEXT"
    ));
    assert!(sql.ends_with("\"website\" TEXT)"));
    assert_eq!(drop_ol_table_sql("ol", "a\"b"), "DROP TABLE IF EXISTS \"ol\".\"a\"\"b\"");
    assert_eq!(ol_checkpoint_key("works", "/d/w.txt"), "openlibrary:works:/d/w.txt");
}

#[test]
fn loader_batches_and_checkpoints() {
    let mut l = OlLoader::new(2, Some(3), 2);
    let mut batches = Vec::new();
    let mut stopped_at = None;
    for line_num in 0..10u64 {
        match l.begin_line(line_num) {
            LineStep::Skip => continue,
            LineStep::Stop => {
                stopped_at = Some(line_num);
                break;
            }
            LineStep::Process => {
                if let Some(b) = l.add_row(vec![Some(line_num.to_string())], line_num) {
                    batches.push(b);
                }
            }
        }
    }
    assert_eq!(stopped_at, Some(5));
    assert_eq!(batches.len(), 1);
    assert_eq!(batches[0].rows, vec![vec![Some("2".to_string())], vec![Some("3".to_string())]]);
    assert_eq!(batches[0].checkpoint, 4);
    let (rest, end) = l.finish();
    assert_eq!(rest, Some(vec![vec![Some("4".to_string())]]));
    assert_eq!(end, 6);
}

#[test]
fn ingest_plans_in_order() {
    assert_eq!(ol_dataset_id(None, None), "openlibrary-default");
    assert_eq!(ol_dataset_id(None, Some("c".to_string())), "c");
    let plans = ol_ingest_plans(
        None,
        Some("/e".to_string()),
        Some("/w".to_string()),
        Some("/a".to_string()),
        Some("/ignored".to_string()),
        None,
        "openlibrary",
    );
    let got: Vec<(String, String)> =
        plans.iter().map(|p| (p.table_name.clone(), p.dump_path.clone())).collect();
    assert_eq!(
        got,
        vec![
            ("authors".to_string(), "/a".to_string()),
            ("editions".to_string(), "/e".to_string()),
            ("works".to_string(), "/w".to_string()),
        ]
    );
    assert!(plans.iter().all(|p| p.schema == "openlibrary" && p.max_records.is_none()));
}

#[test]
fn split_then_read_time() {
    let l = split_line("t\tk\t-4\tnot a time\t{}").ok().unwrap();
    assert_eq!(l.revision, -4);
    assert_eq!(l.last_modified, "not a time");
    assert_eq!(with_time(l, None).err(), Some(OlParseError::LastModified));
    let l = split_line("t\tk\t1\tx\t{}").ok().unwrap();
    let l = with_time(l, Some("T".to_string())).ok().unwrap();
    assert_eq!(l.last_modified, "T");
    assert_eq!(l.json, "{}");
}

#[test]
fn whole_line_to_record() {
    let line = "/type/edition\t/books/OL1M\t4\t2010-04-28T06:54:19Z\t{\"title\": \"T\", \"isbn_13\": [\"978\", 5], \"number_of_pages\": 12, \"authors\": [{\"key\": \"/authors/OL1A\"}]}";
    let rec = parse_line(line).ok().unwrap();
    assert_eq!(rec.ol_type, "/type/edition");
    assert_eq!(rec.ol_key, "/books/OL1M");
    assert_eq!(rec.revision, 4);
    assert_eq!(rec.last_modified, "2010-04-28T06:54:19+00:00");
    assert_eq!(rec.title.as_deref(), Some("T"));
    assert_eq!(rec.isbn_13, vec!["978".to_string()]);
    assert_eq!(rec.number_of_pages, Some(12));
    assert_eq!(rec.author_keys, vec!["/authors/OL1A".to_string()]);
    assert!(rec.name.is_none());
}

#[test]
fn line_errors_in_order() {
    assert_eq!(parse_line("a\tb\t1\t2010-01-01T00:00:00\t{not json").err(), Some(OlParseError::Json));
    assert_eq!(parse_line("a\tb\t1\tyesterday\t{not json").err(), Some(OlParseError::LastModified));
    assert_eq!(parse_line("a\tb").err(), Some(OlParseError::MissingRevision));
    assert_eq!(OlParseError::Json.message(), "failed to parse JSON data");
}

#[test]
fn json_text_to_values() {
    let line = "t\tk\t1\t2010-01-01T00:00:00\t{\"b\": [1, 18446744073709551615, 1.5, -2, null, true, \"x\"], \"a\": {}}";
    let v = parse_line(line).ok().unwrap().data;
    match v {
        JsonValue::Object(m) => {
            assert_eq!(m.len(), 2);
            let (k, items) = &m.iter().find(|(k, _)| k == "b").unwrap();
            assert_eq!(k, "b");
            match items {
                JsonValue::Array(xs) => {
                    assert!(matches!(xs[0], JsonValue::Int(1)));
                    assert!(matches!(xs[1], JsonValue::UInt(18446744073709551615)));
                    assert!(matches!(&xs[2], JsonValue::Float(t) if t == "1.5"));
                    assert!(matches!(xs[3], JsonValue::Int(-2)));
                    assert!(matches!(xs[4], JsonValue::Null));
                    assert!(matches!(xs[5], JsonValue::Bool(true)));
                    assert!(matches!(&xs[6], JsonValue::Str(t) if t == "x"));
                }
                _ => panic!("expected an array"),
            }
        }
        _ => panic!("expected an object"),
    }
    assert!(matches!(parse_line("t\tk\t1\t2010-01-01T00:00:00\t\"s\"").ok().unwrap().data, JsonValue::Str(t) if t == "s"));
    assert_eq!(parse_line("t\tk\t1\t2010-01-01T00:00:00\t[1,").err(), Some(OlParseError::Json));
}
