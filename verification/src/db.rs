//! Database-side logic that does not need a connection: statuses, identifier quoting,
//! the SQL text of the statements issued, checks on row batches, and the text format
//! streamed to `COPY`.
use crate::libgen::ingest::strings_view;
use crate::libgen::mysql_dump::{ColumnDef, TableDef};
use crate::openlibrary::parser::{get_member, json_get, JsonValue};
use crate::text::{int_text, str_chars, string_from_chars, u64_text};
use vstd::prelude::*;
use vstd::string::StringExecFns;

verus! {

broadcast use vstd::string::group_string_axioms;

/// Status of an import run.
#[derive(Debug, Clone, Copy, PartialEq, Eq, Structural)]
pub enum ImportRunStatus {
    Pending,
    InProgress,
    Failed,
    Succeeded,
}

impl ImportRunStatus {
    /// The status as stored in `bm_meta.import_run.status`.
    pub open spec fn spec_as_str(self) -> Seq<char> {
        match self {
            ImportRunStatus::Pending => "pending"@,
            ImportRunStatus::InProgress => "in_progress"@,
            ImportRunStatus::Failed => "failed"@,
            ImportRunStatus::Succeeded => "succeeded"@,
        }
    }

    /// The status as stored in `bm_meta.import_run.status`.
    pub fn as_str(self) -> (r: &'static str)
        ensures
            r@ == self.spec_as_str(),
    {
        match self {
            ImportRunStatus::Pending => "pending",
            ImportRunStatus::InProgress => "in_progress",
            ImportRunStatus::Failed => "failed",
            ImportRunStatus::Succeeded => "succeeded",
        }
    }
}

/// Column types of tables created for loaded data.
#[derive(Debug, Clone, Copy, PartialEq, Eq, Structural)]
pub enum PgTargetType {
    Text,
    Int4,
    Int8,
    Numeric,
    Float8,
    Bool,
    Timestamp,
    Date,
    Timestamptz,
    Jsonb,
    TextArray,
    Int8Array,
}

// ---------------------------------------------------------------------------
// Identifier quoting
// ---------------------------------------------------------------------------

/// `s` with every `"` doubled.
pub open spec fn double_quotes(s: Seq<char>) -> Seq<char>
    decreases s.len(),
{
    if s.len() == 0 {
        Seq::empty()
    } else {
        double_quotes(s.drop_last()) + if s.last() == '"' {
            seq!['"', '"']
        } else {
            seq![s.last()]
        }
    }
}

/// A PostgreSQL quoted identifier: `"` + the name with `"` doubled + `"`.
pub open spec fn spec_quote_ident(ident: Seq<char>) -> Seq<char> {
    seq!['"'] + double_quotes(ident) + seq!['"']
}

/// `s` with every `"` doubled, as characters.
pub fn double_quotes_exec(s: &[char]) -> (r: Vec<char>)
    ensures
        r@ == double_quotes(s@),
{
    let mut out: Vec<char> = Vec::new();
    let mut i: usize = 0;
    while i < s.len()
        invariant
            i <= s@.len(),
            out@ == double_quotes(s@.take(i as int)),
        decreases s@.len() - i,
    {
        let ghost before = out@;
        if s[i] == '"' {
            out.push('"');
            out.push('"');
        } else {
            out.push(s[i]);
        }
        assert(s@.take(i + 1).drop_last() =~= s@.take(i as int));
        assert(out@ =~= double_quotes(s@.take(i + 1)));
        i += 1;
    }
    assert(s@.take(i as int) =~= s@);
    out
}

/// Quotes an identifier for use in SQL text.
pub fn quote_ident(ident: &str) -> (r: String)
    ensures
        r@ == spec_quote_ident(ident@),
{
    let chars = str_chars(ident);
    let mut out: Vec<char> = Vec::new();
    out.push('"');
    let mut body = double_quotes_exec(chars.as_slice());
    out.append(&mut body);
    out.push('"');
    assert(out@ =~= spec_quote_ident(ident@));
    string_from_chars(out.as_slice())
}

pub proof fn lemma_double_quotes_len(s: Seq<char>)
    ensures
        double_quotes(s).len() >= s.len(),
    decreases s.len(),
{
    if s.len() > 0 {
        lemma_double_quotes_len(s.drop_last());
    }
}

/// Splitting off the last character of a doubled text.
proof fn lemma_double_quotes_last(a: Seq<char>, b: Seq<char>)
    requires
        a.len() > 0,
        b.len() > 0,
        double_quotes(a) == double_quotes(b),
    ensures
        a.last() == b.last(),
        double_quotes(a.drop_last()) == double_quotes(b.drop_last()),
{
    let da = double_quotes(a.drop_last());
    let db = double_quotes(b.drop_last());
    let d = double_quotes(a);
    if a.last() == '"' && b.last() != '"' {
        assert(d.last() == b.last());
        assert(d.last() == '"');
    } else if a.last() != '"' && b.last() == '"' {
        assert(d.last() == a.last());
        assert(d.last() == '"');
    } else if a.last() == '"' {
        assert(da =~= d.subrange(0, d.len() - 2));
        assert(db =~= d.subrange(0, d.len() - 2));
    } else {
        assert(d.last() == a.last());
        assert(d.last() == b.last());
        assert(da =~= d.drop_last());
        assert(db =~= d.drop_last());
    }
}

pub proof fn lemma_double_quotes_injective(a: Seq<char>, b: Seq<char>)
    requires
        double_quotes(a) == double_quotes(b),
    ensures
        a == b,
    decreases a.len() + b.len(),
{
    if a.len() == 0 || b.len() == 0 {
        lemma_double_quotes_len(a);
        lemma_double_quotes_len(b);
        if a.len() > 0 {
            assert(double_quotes(a).len() > 0);
        }
        if b.len() > 0 {
            assert(double_quotes(b).len() > 0);
        }
        assert(a =~= b);
    } else {
        lemma_double_quotes_last(a, b);
        lemma_double_quotes_injective(a.drop_last(), b.drop_last());
        assert(a =~= a.drop_last().push(a.last()));
        assert(b =~= b.drop_last().push(b.last()));
    }
}

/// Distinct names never quote to the same SQL text, so quoting never merges two
/// identifiers (nor lets a name close its quotes early and inject SQL).
pub proof fn lemma_quote_ident_injective(a: Seq<char>, b: Seq<char>)
    requires
        spec_quote_ident(a) == spec_quote_ident(b),
    ensures
        a == b,
{
    let qa = spec_quote_ident(a);
    assert(double_quotes(a) =~= qa.subrange(1, qa.len() - 1));
    assert(double_quotes(b) =~= qa.subrange(1, qa.len() - 1));
    lemma_double_quotes_injective(a, b);
}

/// The PostgreSQL type used for a MySQL column type: everything is stored as text.
pub fn map_mysql_type_to_postgres(mysql: &str) -> (r: &'static str)
    ensures
        r@ == "text"@,
{
    "text"
}

// ---------------------------------------------------------------------------
// SQL text
// ---------------------------------------------------------------------------

/// `items` joined with `sep`.
pub open spec fn join(items: Seq<Seq<char>>, sep: Seq<char>) -> Seq<char>
    decreases items.len(),
{
    if items.len() == 0 {
        Seq::empty()
    } else if items.len() == 1 {
        items[0]
    } else {
        join(items.drop_last(), sep) + sep + items.last()
    }
}

/// Joins strings with a separator.
pub fn join_strings(items: &Vec<String>, sep: &str) -> (r: String)
    ensures
        r@ == join(strings_view(items@), sep@),
{
    let mut out = String::new();
    let mut i: usize = 0;
    while i < items.len()
        invariant
            i <= items@.len(),
            out@ == join(strings_view(items@).take(i as int), sep@),
        decreases items@.len() - i,
    {
        proof {
            let t = strings_view(items@).take(i + 1);
            assert(t.drop_last() =~= strings_view(items@).take(i as int));
        }
        if i > 0 {
            out.append(sep);
        }
        out.append(items[i].as_str());
        i += 1;
    }
    assert(strings_view(items@).take(i as int) =~= strings_view(items@));
    out
}

/// Each name quoted.
pub open spec fn quoted_all(names: Seq<Seq<char>>) -> Seq<Seq<char>> {
    names.map_values(|n: Seq<char>| spec_quote_ident(n))
}

/// Quotes each identifier.
pub fn quote_all(names: &Vec<String>) -> (r: Vec<String>)
    ensures
        strings_view(r@) == quoted_all(strings_view(names@)),
{
    let mut out: Vec<String> = Vec::new();
    let mut i: usize = 0;
    while i < names.len()
        invariant
            i <= names@.len(),
            strings_view(out@) == quoted_all(strings_view(names@)).take(i as int),
        decreases names@.len() - i,
    {
        let ghost before = strings_view(out@);
        let q = quote_ident(names[i].as_str());
        let ghost qv = q@;
        out.push(q);
        assert(strings_view(out@) =~= before.push(qv));
        assert(quoted_all(strings_view(names@))[i as int] == qv);
        assert(quoted_all(strings_view(names@)).take(i + 1) =~= quoted_all(strings_view(names@)).take(
            i as int,
        ).push(qv));
        i += 1;
    }
    assert(quoted_all(strings_view(names@)).take(i as int) =~= quoted_all(strings_view(names@)));
    out
}

/// `"schema"."table"`.
pub open spec fn qualified(schema: Seq<char>, table: Seq<char>) -> Seq<char> {
    spec_quote_ident(schema) + "."@ + spec_quote_ident(table)
}

/// The quoted, qualified name of a table.
pub fn qualified_name(schema: &str, table: &str) -> (r: String)
    ensures
        r@ == qualified(schema@, table@),
{
    let mut out = quote_ident(schema);
    out.append(".");
    let t = quote_ident(table);
    out.append(t.as_str());
    out
}

/// The column definitions of a table created from a dump: each column as `text`, then
/// the row hash column when asked for.
pub open spec fn column_sql(cols: Seq<ColumnDef>, include_row_hash: bool) -> Seq<Seq<char>> {
    let base = cols.map_values(|c: ColumnDef| spec_quote_ident(c.name@) + " text"@);
    if include_row_hash {
        base.push(spec_quote_ident("_bm_row_hash"@) + " text not null"@)
    } else {
        base
    }
}

/// `create table if not exists "schema"."table" (...)` for a table of a dump.
pub open spec fn spec_create_table_sql(
    schema: Seq<char>,
    table: Seq<char>,
    cols: Seq<ColumnDef>,
    include_row_hash: bool,
) -> Seq<char> {
    "create table if not exists "@ + qualified(schema, table) + " (\n    "@ + join(
        column_sql(cols, include_row_hash),
        ",\n    "@,
    ) + "\n)"@
}

/// The statement that creates a table for a dump's table definition.
pub fn create_table_sql(schema: &str, table: &str, def: &TableDef, include_row_hash: bool) -> (r:
    String)
    ensures
        r@ == spec_create_table_sql(schema@, table@, def.columns@, include_row_hash),
{
    let mut cols_sql: Vec<String> = Vec::new();
    let mut i: usize = 0;
    while i < def.columns.len()
        invariant
            i <= def.columns@.len(),
            strings_view(cols_sql@) == column_sql(def.columns@, false).take(i as int),
        decreases def.columns@.len() - i,
    {
        let mut c = quote_ident(def.columns[i].name.as_str());
        let ty = map_mysql_type_to_postgres(def.columns[i].mysql_type.as_str());
        c.append(" ");
        c.append(ty);
        proof {
            reveal_strlit(" text");
            reveal_strlit(" ");
            reveal_strlit("text");
        }
        let ghost before = strings_view(cols_sql@);
        let ghost cv = c@;
        assert(cv =~= spec_quote_ident(def.columns@[i as int].name@) + " text"@);
        cols_sql.push(c);
        assert(strings_view(cols_sql@) =~= before.push(cv));
        assert(column_sql(def.columns@, false)[i as int] == cv);
        assert(column_sql(def.columns@, false).take(i + 1) =~= column_sql(def.columns@, false).take(
            i as int,
        ).push(cv));
        i += 1;
    }
    assert(column_sql(def.columns@, false).take(i as int) =~= column_sql(def.columns@, false));
    if include_row_hash {
        let mut h = quote_ident("_bm_row_hash");
        h.append(" text not null");
        let ghost before = strings_view(cols_sql@);
        cols_sql.push(h);
        assert(strings_view(cols_sql@) =~= column_sql(def.columns@, true));
    }
    let mut out = "create table if not exists ".to_string();
    let q = qualified_name(schema, table);
    out.append(q.as_str());
    out.append(" (\n    ");
    let body = join_strings(&cols_sql, ",\n    ");
    out.append(body.as_str());
    out.append("\n)");
    out
}

/// `copy "schema"."table" ("c1", ...) from stdin with (...)`, reading the text format of
/// `encode_copy_rows`.
pub open spec fn spec_copy_sql(schema: Seq<char>, table: Seq<char>, columns: Seq<Seq<char>>) -> Seq<
    char,
> {
    "copy "@ + qualified(schema, table) + " ("@ + join(quoted_all(columns), ", "@)
        + ") from stdin with (format csv, delimiter E'\\t', null '\\\\N', quote '\"', escape '\"')"@
}

/// The `COPY` statement for loading rows into a table.
pub fn copy_sql(schema: &str, table: &str, columns: &Vec<String>) -> (r: String)
    ensures
        r@ == spec_copy_sql(schema@, table@, strings_view(columns@)),
{
    let mut out = "copy ".to_string();
    let q = qualified_name(schema, table);
    out.append(q.as_str());
    out.append(" (");
    let cols = quote_all(columns);
    let joined = join_strings(&cols, ", ");
    out.append(joined.as_str());
    out.append(
        ") from stdin with (format csv, delimiter E'\\t', null '\\\\N', quote '\"', escape '\"')",
    );
    out
}

/// `insert into "schema"."table" ("c1", ...) `, to which the value rows are added.
pub open spec fn spec_insert_head(schema: Seq<char>, table: Seq<char>, columns: Seq<Seq<char>>) -> Seq<
    char,
> {
    "insert into "@ + qualified(schema, table) + " ("@ + join(quoted_all(columns), ", "@) + ") "@
}

/// The head of an `INSERT` of rows.
pub fn insert_head_sql(schema: &str, table: &str, columns: &Vec<String>) -> (r: String)
    ensures
        r@ == spec_insert_head(schema@, table@, strings_view(columns@)),
{
    let mut out = "insert into ".to_string();
    let q = qualified_name(schema, table);
    out.append(q.as_str());
    out.append(" (");
    let cols = quote_all(columns);
    let joined = join_strings(&cols, ", ");
    out.append(joined.as_str());
    out.append(") ");
    out
}

/// ` on conflict ("k1", ...) do nothing`.
pub open spec fn spec_on_conflict_do_nothing(conflict: Seq<Seq<char>>) -> Seq<char> {
    " on conflict ("@ + join(quoted_all(conflict), ", "@) + ") do nothing"@
}

/// The tail that skips rows whose key is already present.
pub fn on_conflict_do_nothing_sql(conflict: &Vec<String>) -> (r: String)
    ensures
        r@ == spec_on_conflict_do_nothing(strings_view(conflict@)),
{
    let mut out = " on conflict (".to_string();
    let cols = quote_all(conflict);
    let joined = join_strings(&cols, ", ");
    out.append(joined.as_str());
    out.append(") do nothing");
    out
}

/// `"c" = excluded."c"` for each column.
pub open spec fn update_assignments(columns: Seq<Seq<char>>) -> Seq<Seq<char>> {
    columns.map_values(|c: Seq<char>| spec_quote_ident(c) + " = excluded."@ + spec_quote_ident(c))
}

/// ` on conflict ("k1", ...) do update set "c1" = excluded."c1", ...`.
pub open spec fn spec_on_conflict_update(conflict: Seq<Seq<char>>, columns: Seq<Seq<char>>) -> Seq<
    char,
> {
    " on conflict ("@ + join(quoted_all(conflict), ", "@) + ") do update set "@ + join(
        update_assignments(columns),
        ", "@,
    )
}

/// The tail that turns an insert into an upsert on the key columns.
pub fn on_conflict_update_sql(conflict: &Vec<String>, columns: &Vec<String>) -> (r: String)
    ensures
        r@ == spec_on_conflict_update(strings_view(conflict@), strings_view(columns@)),
{
    let mut out = " on conflict (".to_string();
    let keys = quote_all(conflict);
    let joined = join_strings(&keys, ", ");
    out.append(joined.as_str());
    out.append(") do update set ");
    let mut sets: Vec<String> = Vec::new();
    let mut i: usize = 0;
    while i < columns.len()
        invariant
            i <= columns@.len(),
            strings_view(sets@) == update_assignments(strings_view(columns@)).take(i as int),
        decreases columns@.len() - i,
    {
        let mut s = quote_ident(columns[i].as_str());
        s.append(" = excluded.");
        let q = quote_ident(columns[i].as_str());
        s.append(q.as_str());
        let ghost before = strings_view(sets@);
        let ghost sv = s@;
        sets.push(s);
        assert(strings_view(sets@) =~= before.push(sv));
        assert(update_assignments(strings_view(columns@))[i as int] == sv);
        assert(update_assignments(strings_view(columns@)).take(i + 1) =~= update_assignments(
            strings_view(columns@),
        ).take(i as int).push(sv));
        i += 1;
    }
    assert(update_assignments(strings_view(columns@)).take(i as int) =~= update_assignments(
        strings_view(columns@),
    ));
    let joined_sets = join_strings(&sets, ", ");
    out.append(joined_sets.as_str());
    out
}

/// The name of the b-tree index on a column: `idx_<table>_<column>`.
pub open spec fn spec_btree_index_name(table: Seq<char>, column: Seq<char>) -> Seq<char> {
    "idx_"@ + table + "_"@ + column
}

/// The name of the b-tree index on a column.
pub fn btree_index_name(table: &str, column: &str) -> (r: String)
    ensures
        r@ == spec_btree_index_name(table@, column@),
{
    let mut out = "idx_".to_string();
    out.append(table);
    out.append("_");
    out.append(column);
    out
}

/// The name of the unique index on key columns: `uidx_<table>_<c1>_<c2>...`.
pub open spec fn spec_unique_index_name(table: Seq<char>, columns: Seq<Seq<char>>) -> Seq<char> {
    "uidx_"@ + table + "_"@ + join(columns, "_"@)
}

/// The name of the unique index on key columns.
pub fn unique_index_name(table: &str, columns: &Vec<String>) -> (r: String)
    ensures
        r@ == spec_unique_index_name(table@, strings_view(columns@)),
{
    let mut out = "uidx_".to_string();
    out.append(table);
    out.append("_");
    let joined = join_strings(columns, "_");
    out.append(joined.as_str());
    out
}

/// `create [unique] index [concurrently | if not exists] "idx" on "schema"."table" (cols)`.
pub open spec fn spec_create_index_sql(
    unique: bool,
    concurrent: bool,
    index: Seq<char>,
    schema: Seq<char>,
    table: Seq<char>,
    columns: Seq<Seq<char>>,
) -> Seq<char> {
    (if unique {
        "create unique index "@
    } else {
        "create index "@
    }) + (if concurrent {
        "concurrently "@
    } else {
        "if not exists "@
    }) + spec_quote_ident(index) + " on "@ + qualified(schema, table) + " ("@ + join(
        quoted_all(columns),
        ", "@,
    ) + ")"@
}

/// The statement creating an index.
pub fn create_index_sql(
    unique: bool,
    concurrent: bool,
    index: &str,
    schema: &str,
    table: &str,
    columns: &Vec<String>,
) -> (r: String)
    ensures
        r@ == spec_create_index_sql(unique, concurrent, index@, schema@, table@, strings_view(columns@)),
{
    let mut out = if unique {
        "create unique index ".to_string()
    } else {
        "create index ".to_string()
    };
    if concurrent {
        out.append("concurrently ");
    } else {
        out.append("if not exists ");
    }
    let qi = quote_ident(index);
    out.append(qi.as_str());
    out.append(" on ");
    let q = qualified_name(schema, table);
    out.append(q.as_str());
    out.append(" (");
    let cols = quote_all(columns);
    let joined = join_strings(&cols, ", ");
    out.append(joined.as_str());
    out.append(")");
    out
}

/// `select count(*)::bigint from "schema"."table"`.
pub fn row_count_sql(schema: &str, table: &str) -> (r: String)
    ensures
        r@ == "select count(*)::bigint from "@ + qualified(schema@, table@),
{
    let mut out = "select count(*)::bigint from ".to_string();
    let q = qualified_name(schema, table);
    out.append(q.as_str());
    out
}

/// The query returning up to `limit` rows of a table as JSON objects.
pub fn sample_sql(schema: &str, table: &str, limit: u32) -> (r: String)
    ensures
        r@ == "select row_to_json(t) from (select * from "@ + qualified(schema@, table@)
            + " limit "@ + int_text(limit as int) + ") t"@,
{
    let mut out = "select row_to_json(t) from (select * from ".to_string();
    let q = qualified_name(schema, table);
    out.append(q.as_str());
    out.append(" limit ");
    let n = u64_text(limit as u64);
    out.append(n.as_str());
    out.append(") t");
    out
}

/// The query reading one text column of the row whose key column equals `$1`.
pub fn text_by_pk_sql(schema: &str, table: &str, pk_column: &str, target_column: &str) -> (r: String)
    ensures
        r@ == "select "@ + spec_quote_ident(target_column@) + " from "@ + qualified(schema@, table@)
            + " where "@ + spec_quote_ident(pk_column@) + " = $1 limit 1"@,
{
    let mut out = "select ".to_string();
    let t = quote_ident(target_column);
    out.append(t.as_str());
    out.append(" from ");
    let q = qualified_name(schema, table);
    out.append(q.as_str());
    out.append(" where ");
    let p = quote_ident(pk_column);
    out.append(p.as_str());
    out.append(" = $1 limit 1");
    out
}

/// The statement deleting the rows of a table whose key value was not seen in the
/// import run `$1` for the MySQL table `$2` and key column `$3`.
pub open spec fn spec_delete_not_seen_sql(schema: Seq<char>, table: Seq<char>, pk_column: Seq<char>) -> Seq<char> {
    "\ndelete from "@ + qualified(schema, table)
        + " t\nwhere not exists (\n  select 1\n  from src_libgen.seen_pk s\n  where s.import_run_id = $1\n    and s.table_name = $2\n    and s.pk_column = $3\n    and s.pk_value = t."@
        + spec_quote_ident(pk_column) + "\n)\n"@
}

/// The statement deleting rows not seen in the newer dump.
pub fn delete_not_seen_sql(schema: &str, table: &str, pk_column: &str) -> (r: String)
    ensures
        r@ == spec_delete_not_seen_sql(schema@, table@, pk_column@),
{
    let mut out = "\ndelete from ".to_string();
    let q = qualified_name(schema, table);
    out.append(q.as_str());
    out.append(" t\nwhere not exists (\n  select 1\n  from src_libgen.seen_pk s\n  where s.import_run_id = $1\n    and s.table_name = $2\n    and s.pk_column = $3\n    and s.pk_value = t.");
    let p = quote_ident(pk_column);
    out.append(p.as_str());
    out.append("\n)\n");
    out
}

// ---------------------------------------------------------------------------
// Checkpoints
// ---------------------------------------------------------------------------

/// `serde_json::Value::as_u64`: a non-negative integer.
pub open spec fn json_u64(v: JsonValue) -> Option<u64> {
    match v {
        JsonValue::Int(i) => if i >= 0 {
            Some(i as u64)
        } else {
            None
        },
        JsonValue::UInt(u) => Some(u),
        _ => None,
    }
}

/// The offset recorded in a checkpoint value: its `offset` member, or 0 when that is
/// missing or not a non-negative integer.
pub open spec fn spec_checkpoint_offset(v: JsonValue) -> u64 {
    match json_get(v, "offset"@) {
        Some(x) => match json_u64(x) {
            Some(n) => n,
            None => 0,
        },
        None => 0,
    }
}

/// The value stored for a checkpoint: `{"offset": <offset>}`.
pub fn checkpoint_value(offset: u64) -> (r: JsonValue)
    ensures
        match r {
            JsonValue::Object(m) => m@.len() == 1 && m@[0].0@ == "offset"@ && m@[0].1 == JsonValue::UInt(offset),
            _ => false,
        },
{
    let mut m: Vec<(String, JsonValue)> = Vec::new();
    m.push(("offset".to_string(), JsonValue::UInt(offset)));
    JsonValue::Object(m)
}

/// Reads the offset of a stored checkpoint value.
pub fn checkpoint_offset_of(value: &JsonValue) -> (r: u64)
    ensures
        r == spec_checkpoint_offset(*value),
{
    match get_member(value, "offset") {
        Some(JsonValue::Int(i)) => if *i >= 0 {
            *i as u64
        } else {
            0
        },
        Some(JsonValue::UInt(u)) => *u,
        _ => 0,
    }
}

/// A checkpoint reads back as the offset it was written with.
pub proof fn lemma_checkpoint_round_trip(offset: u64, v: JsonValue)
    requires
        match v {
            JsonValue::Object(m) => m@.len() == 1 && m@[0].0@ == "offset"@ && m@[0].1 == JsonValue::UInt(offset),
            _ => false,
        },
    ensures
        spec_checkpoint_offset(v) == offset,
{
}

// ---------------------------------------------------------------------------
// Checks on row batches
// ---------------------------------------------------------------------------

/// Why a batch cannot be written.
#[derive(Debug, Clone, PartialEq, Eq)]
pub enum BatchError {
    /// A row does not have one value per column: the expected and actual counts.
    RowLength { expected: usize, got: usize },
    /// A key column for `ON CONFLICT` is missing.
    NoConflictColumns,
    /// A key column is not among the loaded columns.
    ConflictColumnMissing(String),
}

/// Checks that every row has one value per column; reports the first row that does not.
pub fn check_row_lengths(columns: &Vec<String>, rows: &Vec<Vec<Option<String>>>) -> (r: Result<
    (),
    BatchError,
>)
    ensures
        r is Ok <==> forall|i: int| 0 <= i < rows@.len() ==> #[trigger] rows@[i]@.len()
            == columns@.len(),
        r matches Err(BatchError::RowLength { expected, got }) ==> expected == columns@.len()
            && exists|i: int|
            0 <= i < rows@.len() && #[trigger] rows@[i]@.len() == got && got != expected && forall|
                j: int,
            |
                0 <= j < i ==> #[trigger] rows@[j]@.len() == columns@.len(),
        r is Err ==> r matches Err(BatchError::RowLength { .. }),
{
    let expected = columns.len();
    let mut i: usize = 0;
    while i < rows.len()
        invariant
            i <= rows@.len(),
            expected == columns@.len(),
            forall|j: int| 0 <= j < i ==> #[trigger] rows@[j]@.len() == columns@.len(),
        decreases rows@.len() - i,
    {
        if rows[i].len() != expected {
            return Err(BatchError::RowLength { expected, got: rows[i].len() });
        }
        i += 1;
    }
    Ok(())
}

/// Checks that there are key columns and that each is among the loaded columns;
/// reports the first that is not.
pub fn check_conflict_columns(columns: &Vec<String>, conflict_columns: &Vec<String>) -> (r: Result<
    (),
    BatchError,
>)
    ensures
        r is Ok <==> conflict_columns@.len() > 0 && forall|k: int|
            0 <= k < conflict_columns@.len() ==> strings_view(columns@).contains(
                #[trigger] conflict_columns@[k]@,
            ),
        conflict_columns@.len() == 0 ==> r == Err::<(), _>(BatchError::NoConflictColumns),
        r matches Err(BatchError::ConflictColumnMissing(c)) ==> !strings_view(columns@).contains(
            c@,
        ) && strings_view(conflict_columns@).contains(c@),
        r is Err && conflict_columns@.len() > 0 ==> r matches Err(
            BatchError::ConflictColumnMissing(_),
        ),
{
    if conflict_columns.len() == 0 {
        return Err(BatchError::NoConflictColumns);
    }
    let mut k: usize = 0;
    while k < conflict_columns.len()
        invariant
            k <= conflict_columns@.len(),
            forall|m: int|
                0 <= m < k ==> strings_view(columns@).contains(#[trigger] conflict_columns@[m]@),
        decreases conflict_columns@.len() - k,
    {
        let mut found = false;
        let mut i: usize = 0;
        while i < columns.len()
            invariant
                i <= columns@.len(),
                k < conflict_columns@.len(),
                found ==> strings_view(columns@).contains(conflict_columns@[k as int]@),
                !found ==> forall|j: int| 0 <= j < i ==> columns@[j]@ != conflict_columns@[k as int]@,
            decreases columns@.len() - i,
        {
            if columns[i] == conflict_columns[k] {
                found = true;
                assert(strings_view(columns@)[i as int] == conflict_columns@[k as int]@);
            }
            i += 1;
        }
        if !found {
            assert(strings_view(conflict_columns@)[k as int] == conflict_columns@[k as int]@);
            assert forall|j: int| 0 <= j < strings_view(columns@).len() implies strings_view(
                columns@,
            )[j] != conflict_columns@[k as int]@ by {}
            return Err(BatchError::ConflictColumnMissing(conflict_columns[k].clone()));
        }
        k += 1;
    }
    Ok(())
}

// ---------------------------------------------------------------------------
// The text streamed to COPY
// ---------------------------------------------------------------------------

/// A field of the `COPY` text: `\N` for `NULL`, the text in double quotes with `"`
/// doubled otherwise.
pub open spec fn copy_field(v: Option<Seq<char>>) -> Seq<char> {
    match v {
        None => seq!['\\', 'N'],
        Some(s) => seq!['"'] + double_quotes(s) + seq!['"'],
    }
}

/// A line of the `COPY` text: the fields joined by tabs, then a newline.
pub open spec fn copy_line(row: Seq<Option<Seq<char>>>) -> Seq<char> {
    join(row.map_values(|v: Option<Seq<char>>| copy_field(v)), seq!['\t']) + seq!['\n']
}

/// The `COPY` text of rows: one line per row.
pub open spec fn copy_text(rows: Seq<Seq<Option<Seq<char>>>>) -> Seq<char>
    decreases rows.len(),
{
    if rows.len() == 0 {
        Seq::empty()
    } else {
        copy_text(rows.drop_last()) + copy_line(rows.last())
    }
}

/// Distinct texts are distinct fields, and no text is written like `NULL`.
pub proof fn lemma_copy_field_injective(a: Option<Seq<char>>, b: Option<Seq<char>>)
    requires
        copy_field(a) == copy_field(b),
    ensures
        a == b,
{
    match (a, b) {
        (Some(x), Some(y)) => {
            let f = copy_field(a);
            assert(double_quotes(x) =~= f.subrange(1, f.len() - 1));
            assert(double_quotes(y) =~= f.subrange(1, f.len() - 1));
            lemma_double_quotes_injective(x, y);
        },
        (Some(x), None) => {
            assert(copy_field(a)[0] == '"');
            assert(copy_field(b)[0] == '\\');
        },
        (None, Some(y)) => {
            assert(copy_field(a)[0] == '\\');
            assert(copy_field(b)[0] == '"');
        },
        (None, None) => {},
    }
}

/// Appends the `COPY` field of a value.
fn push_copy_field(out: &mut Vec<char>, v: &Option<String>)
    ensures
        final(out)@ == old(out)@ + copy_field(
            match v {
                Some(s) => Some(s@),
                None => None,
            },
        ),
{
    match v {
        None => {
            out.push('\\');
            out.push('N');
        },
        Some(s) => {
            let chars = str_chars(s.as_str());
            out.push('"');
            let mut d = double_quotes_exec(chars.as_slice());
            out.append(&mut d);
            out.push('"');
        },
    }
    assert(final(out)@ =~= old(out)@ + copy_field(
        match v {
            Some(s) => Some(s@),
            None => None,
        },
    ));
}

/// The view of a row of optional texts.
pub open spec fn opt_strings_view(r: Seq<Option<String>>) -> Seq<Option<Seq<char>>> {
    r.map_values(
        |o: Option<String>|
            match o {
                Some(s) => Some(s@),
                None => None,
            },
    )
}

/// Appends the `COPY` line of a row.
fn push_copy_line(out: &mut Vec<char>, row: &Vec<Option<String>>)
    ensures
        final(out)@ == old(out)@ + copy_line(opt_strings_view(row@)),
{
    let ghost start = out@;
    let ghost fields = opt_strings_view(row@).map_values(|v: Option<Seq<char>>| copy_field(v));
    let mut i: usize = 0;
    while i < row.len()
        invariant
            i <= row@.len(),
            fields == opt_strings_view(row@).map_values(|v: Option<Seq<char>>| copy_field(v)),
            out@ == start + join(fields.take(i as int), seq!['\t']),
        decreases row@.len() - i,
    {
        proof {
            assert(fields.take(i + 1).drop_last() =~= fields.take(i as int));
        }
        if i > 0 {
            out.push('\t');
        }
        push_copy_field(out, &row[i]);
        proof {
            assert(fields.take(i + 1).last() == fields[i as int]);
            if i == 0 {
                assert(out@ =~= start + join(fields.take(i + 1), seq!['\t']));
            } else {
                assert(out@ =~= start + join(fields.take(i + 1), seq!['\t']));
            }
        }
        i += 1;
    }
    assert(fields.take(i as int) =~= fields);
    out.push('\n');
    assert(out@ =~= start + copy_line(opt_strings_view(row@)));
}

/// The `COPY` text for a batch of rows.
pub fn encode_copy_rows(rows: &Vec<Vec<Option<String>>>) -> (r: String)
    ensures
        r@ == copy_text(rows@.map_values(|row: Vec<Option<String>>| opt_strings_view(row@))),
{
    let ghost views = rows@.map_values(|row: Vec<Option<String>>| opt_strings_view(row@));
    let mut out: Vec<char> = Vec::new();
    let mut i: usize = 0;
    while i < rows.len()
        invariant
            i <= rows@.len(),
            views == rows@.map_values(|row: Vec<Option<String>>| opt_strings_view(row@)),
            out@ == copy_text(views.take(i as int)),
        decreases rows@.len() - i,
    {
        push_copy_line(&mut out, &rows[i]);
        assert(views.take(i + 1).drop_last() =~= views.take(i as int));
        i += 1;
    }
    assert(views.take(i as int) =~= views);
    string_from_chars(out.as_slice())
}

} // verus!
