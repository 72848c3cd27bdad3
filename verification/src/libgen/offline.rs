//! Offline path: a dump is converted once into one TSV file per table (in the CSV dialect
//! that `COPY ... (FORMAT csv, DELIMITER E'\t', NULL '\N')` reads) plus a manifest, and
//! the files are later loaded through a staging schema and swapped into place.
//! Reading and writing files and talking to the database are left to the caller.
use crate::config::LibgenDumpKind;
use crate::db::{copy_line, double_quotes, double_quotes_exec, join, lemma_double_quotes_injective};
use crate::libgen::ingest::{sanitize_text, sanitized, stored_values, strings_view};
use crate::libgen::mysql_dump::{
    failure_text, kind_name, parse_create_table, parse_insert_into, row_view,
    spec_parse_create_table, spec_parse_insert_into, MySqlDumpError, TableDef, SqlValue,
};
use crate::text::{
    int_text, i64_text, lemma_text_lt_irreflexive, lemma_text_lt_total, lemma_text_lt_transitive,
    str_chars, string_from_chars, text_less, text_lt,
};
use vstd::prelude::*;
use vstd::string::StringExecFns;

verus! {

broadcast use vstd::string::group_string_axioms;

/// What a conversion produced: where the dump came from, where its tables go, and the
/// table definitions found, ordered by table name.
pub struct OfflineManifest {
    pub kind: String,
    pub dump_path: String,
    pub schema: String,
    pub overall_prefix: String,
    pub kind_prefix: String,
    pub tables: Vec<TableDef>,
}

/// How far a conversion got: the dump offset after the last statement handled.
#[derive(Debug, Clone, Copy, PartialEq, Eq, Structural)]
pub struct OfflineState {
    pub dump_offset: u64,
}

/// The name of a dump kind as the manifest records it.
pub fn normalize_kind(kind: LibgenDumpKind) -> (r: &'static str)
    ensures
        r@ == kind_name(kind),
{
    match kind {
        LibgenDumpKind::Fiction => "fiction",
        LibgenDumpKind::Compact => "compact",
    }
}

/// The file that holds the rows of a MySQL table: `<table>.tsv`.
pub fn table_file_name(mysql_table: &str) -> (r: String)
    ensures
        r@ == mysql_table@ + ".tsv"@,
{
    let mut out = mysql_table.to_string();
    out.append(".tsv");
    out
}

// ---------------------------------------------------------------------------
// TSV rows
// ---------------------------------------------------------------------------

/// One value in the file: `NULL` as `\N`; a text (sanitised) in double quotes, with each
/// `"` doubled.
pub open spec fn tsv_field(enabled: bool, rep: Seq<char>, v: Option<Seq<char>>) -> Seq<char> {
    match v {
        None => seq!['\\', 'N'],
        Some(s) => seq!['"'] + double_quotes(sanitized(enabled, rep, s)) + seq!['"'],
    }
}

/// The fields of a row.
pub open spec fn tsv_fields(enabled: bool, rep: Seq<char>, row: Seq<Option<Seq<char>>>) -> Seq<
    Seq<char>,
> {
    row.map_values(|v: Option<Seq<char>>| tsv_field(enabled, rep, v))
}

/// One line of the file: the fields joined by tabs, then a newline.
pub open spec fn tsv_line(enabled: bool, rep: Seq<char>, row: Seq<Option<Seq<char>>>) -> Seq<char> {
    join(tsv_fields(enabled, rep, row), seq!['\t']) + seq!['\n']
}

/// The lines of several rows, in order.
pub open spec fn tsv_text(enabled: bool, rep: Seq<char>, rows: Seq<Seq<Option<Seq<char>>>>) -> Seq<
    char,
>
    decreases rows.len(),
{
    if rows.len() == 0 {
        Seq::empty()
    } else {
        tsv_text(enabled, rep, rows.drop_last()) + tsv_line(enabled, rep, rows.last())
    }
}

/// Different values are written as different fields: `NULL` never reads as a text, and
/// the quoting of texts loses nothing (the sanitising itself aside).
pub proof fn lemma_tsv_field_injective(
    enabled: bool,
    rep: Seq<char>,
    a: Option<Seq<char>>,
    b: Option<Seq<char>>,
)
    requires
        tsv_field(enabled, rep, a) == tsv_field(enabled, rep, b),
    ensures
        match (a, b) {
            (None, None) => true,
            (Some(x), Some(y)) => sanitized(enabled, rep, x) == sanitized(enabled, rep, y),
            _ => false,
        },
{
    let fa = tsv_field(enabled, rep, a);
    match (a, b) {
        (Some(x), Some(y)) => {
            let qx = double_quotes(sanitized(enabled, rep, x));
            let qy = double_quotes(sanitized(enabled, rep, y));
            assert(qx =~= fa.subrange(1, fa.len() - 1));
            assert(qy =~= fa.subrange(1, fa.len() - 1));
            lemma_double_quotes_injective(sanitized(enabled, rep, x), sanitized(enabled, rep, y));
        },
        (None, Some(y)) => {
            assert(fa[0] == '\\');
            assert(tsv_field(enabled, rep, b)[0] == '"');
        },
        (Some(x), None) => {
            assert(fa[0] == '"');
            assert(tsv_field(enabled, rep, b)[0] == '\\');
        },
        (None, None) => {},
    }
}

/// A converted file holds exactly what a direct `COPY` load streams: the line written
/// for a parsed row is the `COPY` line of the row as stored (texts sanitised).
pub proof fn lemma_tsv_line_is_copy_line(enabled: bool, rep: Seq<char>, row: Seq<Option<Seq<char>>>)
    ensures
        tsv_line(enabled, rep, row) == copy_line(stored_values(enabled, rep, row)),
{
    assert(tsv_fields(enabled, rep, row) =~= stored_values(enabled, rep, row).map_values(
        |v: Option<Seq<char>>| crate::db::copy_field(v),
    ));
}

/// Appends the line of `row` to `out`.
pub fn write_row_tsv(sanitize_nul_bytes: bool, nul_replacement: &str, out: &mut String, row: &Vec<SqlValue>)
    ensures
        final(out)@ == old(out)@ + tsv_line(sanitize_nul_bytes, nul_replacement@, row_view(*row)),
{
    let ghost fields = tsv_fields(sanitize_nul_bytes, nul_replacement@, row_view(*row));
    let mut buf: Vec<char> = Vec::new();
    let mut i: usize = 0;
    while i < row.len()
        invariant
            i <= row@.len(),
            fields == tsv_fields(sanitize_nul_bytes, nul_replacement@, row_view(*row)),
            buf@ == join(fields.take(i as int), seq!['\t']),
        decreases row@.len() - i,
    {
        proof {
            assert(fields.take(i + 1).drop_last() =~= fields.take(i as int));
        }
        if i > 0 {
            buf.push('\t');
        }
        match &row[i] {
            SqlValue::Null => {
                buf.push('\\');
                buf.push('N');
            },
            SqlValue::Text(s) => {
                let t = sanitize_text(sanitize_nul_bytes, nul_replacement, s.clone());
                let tc = str_chars(t.as_str());
                let mut q = double_quotes_exec(tc.as_slice());
                buf.push('"');
                buf.append(&mut q);
                buf.push('"');
            },
        }
        proof {
            assert(fields[i as int] == tsv_field(
                sanitize_nul_bytes,
                nul_replacement@,
                row_view(*row)[i as int],
            ));
            if i == 0 {
                assert(buf@ =~= join(fields.take(1), seq!['\t']));
            } else {
                assert(buf@ =~= join(fields.take(i as int), seq!['\t']) + seq!['\t'] + fields[i as int]);
            }
        }
        i += 1;
    }
    assert(fields.take(i as int) =~= fields);
    buf.push('\n');
    let line = string_from_chars(buf.as_slice());
    out.append(line.as_str());
}

/// The lines of all rows of an INSERT statement.
pub fn rows_tsv(sanitize_nul_bytes: bool, nul_replacement: &str, rows: &Vec<Vec<SqlValue>>) -> (r: String)
    ensures
        r@ == tsv_text(
            sanitize_nul_bytes,
            nul_replacement@,
            rows@.map_values(|r: Vec<SqlValue>| row_view(r)),
        ),
{
    let ghost views = rows@.map_values(|r: Vec<SqlValue>| row_view(r));
    let mut out = String::new();
    let mut i: usize = 0;
    while i < rows.len()
        invariant
            i <= rows@.len(),
            views == rows@.map_values(|r: Vec<SqlValue>| row_view(r)),
            out@ == tsv_text(sanitize_nul_bytes, nul_replacement@, views.take(i as int)),
        decreases rows@.len() - i,
    {
        write_row_tsv(sanitize_nul_bytes, nul_replacement, &mut out, &rows[i]);
        assert(views.take(i + 1).drop_last() =~= views.take(i as int));
        i += 1;
    }
    assert(views.take(i as int) =~= views);
    out
}

// ---------------------------------------------------------------------------
// Table definitions found while converting
// ---------------------------------------------------------------------------

/// Table definitions kept in the order of their names, each name once.
pub open spec fn names_ordered(defs: Seq<TableDef>) -> bool {
    forall|i: int, j: int| 0 <= i < j < defs.len() ==> text_lt(#[trigger] defs[i].name@, #[trigger] defs[j].name@)
}

/// Whether a definition of `name` is among `defs`.
pub open spec fn has_table(defs: Seq<TableDef>, name: Seq<char>) -> bool {
    exists|i: int| 0 <= i < defs.len() && #[trigger] defs[i].name@ == name
}

/// Records a table definition found in the dump. The first definition of a name is kept
/// and later ones are ignored; the definitions stay ordered by name. Returns whether
/// `def` was added.
pub fn record_table_def(defs: &mut Vec<TableDef>, def: TableDef) -> (added: bool)
    requires
        names_ordered(old(defs)@),
    ensures
        names_ordered(final(defs)@),
        added == !has_table(old(defs)@, def.name@),
        !added ==> final(defs)@ == old(defs)@,
        added ==> exists|k: int|
            0 <= k <= old(defs)@.len() && final(defs)@ == old(defs)@.insert(k, def) && (forall|j: int|
                0 <= j < k ==> text_lt(#[trigger] old(defs)@[j].name@, def.name@)) && (forall|j: int|
                k <= j < old(defs)@.len() ==> text_lt(def.name@, #[trigger] old(defs)@[j].name@)),
{
    let name = str_chars(def.name.as_str());
    let mut k: usize = 0;
    while k < defs.len()
        invariant
            k <= defs@.len(),
            defs@ == old(defs)@,
            names_ordered(defs@),
            name@ == def.name@,
            forall|j: int| 0 <= j < k ==> text_lt(#[trigger] defs@[j].name@, def.name@),
        ensures
            k <= defs@.len(),
            defs@ == old(defs)@,
            names_ordered(defs@),
            name@ == def.name@,
            forall|j: int| 0 <= j < k ==> text_lt(#[trigger] defs@[j].name@, def.name@),
            k < defs@.len() ==> !text_lt(defs@[k as int].name@, def.name@),
        decreases defs@.len() - k,
    {
        let other = str_chars(defs[k].name.as_str());
        if !text_less(other.as_slice(), name.as_slice()) {
            break;
        }
        k += 1;
    }
    if k < defs.len() {
        let other = str_chars(defs[k].name.as_str());
        if !text_less(name.as_slice(), other.as_slice()) {
            proof {
                lemma_text_lt_total(defs@[k as int].name@, def.name@);
                assert(defs@[k as int].name@ == def.name@);
            }
            return false;
        }
    }
    proof {
        // Everything from `k` on comes after the new name.
        assert forall|j: int| k <= j < defs@.len() implies text_lt(def.name@, #[trigger] defs@[j].name@) by {
            if j > k {
                lemma_text_lt_transitive(def.name@, defs@[k as int].name@, defs@[j].name@);
            }
        }
        assert forall|j: int| 0 <= j < defs@.len() implies #[trigger] defs@[j].name@ != def.name@ by {
            if j < k {
                lemma_text_lt_irreflexive(def.name@);
            } else {
                lemma_text_lt_irreflexive(def.name@);
            }
        }
    }
    let ghost before = defs@;
    defs.insert(k, def);
    proof {
        assert forall|i: int, j: int| 0 <= i < j < defs@.len() implies text_lt(
            #[trigger] defs@[i].name@,
            #[trigger] defs@[j].name@,
        ) by {
            if i < k && j == k {
            } else if i < k && j > k {
                assert(defs@[j] == before[j - 1]);
                lemma_text_lt_transitive(before[i].name@, defs@[k as int].name@, before[j - 1].name@);
            } else if i == k {
                assert(defs@[j] == before[j - 1]);
            } else if i > k {
                assert(defs@[i] == before[i - 1]);
                assert(defs@[j] == before[j - 1]);
            } else {
                assert(defs@[i] == before[i]);
                assert(defs@[j] == before[j]);
            }
        }
    }
    true
}

// ---------------------------------------------------------------------------
// Converting one statement
// ---------------------------------------------------------------------------

/// What converting a statement produced.
pub enum ConvertAction {
    /// A `CREATE TABLE` statement; whether its definition was new.
    TableDefined { added: bool },
    /// An `INSERT INTO` statement: the lines to append to the table's file.
    Rows { table: String, lines: String },
    /// Any other statement.
    Skipped,
}

/// A statement that could not be converted, with the parser's error.
pub enum ConvertError {
    CreateTable(MySqlDumpError),
    InsertInto(MySqlDumpError),
}

/// Handles one statement of the dump: a `CREATE TABLE` records its definition (the first
/// definition of a name wins), an `INSERT INTO` gives the TSV lines of its rows, anything
/// else is skipped. A statement that starts like one of the two but does not parse is an
/// error, and `defs` is then left as it was.
pub fn convert_statement(
    defs: &mut Vec<TableDef>,
    stmt: &str,
    sanitize_nul_bytes: bool,
    nul_replacement: &str,
) -> (r: Result<ConvertAction, ConvertError>)
    requires
        names_ordered(old(defs)@),
    ensures
        names_ordered(final(defs)@),
        match spec_parse_create_table(stmt@) {
            Err(f) => final(defs)@ == old(defs)@ && (r matches Err(ConvertError::CreateTable(
                MySqlDumpError::Parse(m),
            )) && m@ == failure_text(f)),
            Ok(Some((name, cols))) => {
                &&& r matches Ok(ConvertAction::TableDefined { added })
                &&& added == !has_table(old(defs)@, name)
                &&& !added ==> final(defs)@ == old(defs)@
                &&& added ==> exists|k: int|
                    0 <= k <= old(defs)@.len() && final(defs)@.len() == old(defs)@.len() + 1
                        && final(defs)@[k]@ == (name, cols) && final(defs)@.remove(k) == old(defs)@
            },
            Ok(None) => final(defs)@ == old(defs)@ && (match spec_parse_insert_into(stmt@) {
                Err(f) => (r matches Err(ConvertError::InsertInto(MySqlDumpError::Parse(m)))
                    && m@ == failure_text(f)),
                Ok(None) => r matches Ok(ConvertAction::Skipped),
                Ok(Some((table, rows))) => (r matches Ok(ConvertAction::Rows { table: t, lines })
                    && t@ == table && lines@ == tsv_text(
                    sanitize_nul_bytes,
                    nul_replacement@,
                    rows,
                )),
            }),
        },
{
    match parse_create_table(stmt) {
        Err(e) => {
            return Err(ConvertError::CreateTable(e));
        },
        Ok(Some(def)) => {
            let ghost d = def;
            let added = record_table_def(defs, def);
            proof {
                if added {
                    let k = choose|k: int|
                        0 <= k <= old(defs)@.len() && defs@ == old(defs)@.insert(k, d) && (forall|
                            j: int,
                        |
                            0 <= j < k ==> text_lt(#[trigger] old(defs)@[j].name@, d.name@)) && (
                        forall|j: int|
                            k <= j < old(defs)@.len() ==> text_lt(
                                d.name@,
                                #[trigger] old(defs)@[j].name@,
                            ));
                    assert(defs@[k]@ == d@);
                    assert(defs@.remove(k) =~= old(defs)@);
                }
            }
            return Ok(ConvertAction::TableDefined { added });
        },
        Ok(None) => {},
    }
    match parse_insert_into(stmt) {
        Err(e) => Err(ConvertError::InsertInto(e)),
        Ok(None) => Ok(ConvertAction::Skipped),
        Ok(Some(ins)) => {
            let lines = rows_tsv(sanitize_nul_bytes, nul_replacement, &ins.rows);
            Ok(ConvertAction::Rows { table: ins.table, lines })
        },
    }
}

// ---------------------------------------------------------------------------
// Staging-swap load
// ---------------------------------------------------------------------------

/// How far the load of a table got, as recorded for an import run.
#[derive(Debug, Clone, Copy, PartialEq, Eq, Structural)]
pub enum SwapStage {
    /// Nothing recorded (or a stage that is not known).
    Pending,
    /// Loaded into the staging schema and indexed.
    Staged,
    /// Moved into the live schema.
    Swapped,
}

/// The stage of a recorded stage name: `staged` and `swapped` are known, anything else
/// (or nothing) counts as not started.
pub fn swap_stage_of(recorded: &Option<String>) -> (r: SwapStage)
    ensures
        r == match recorded {
            Some(s) => if s@ == "staged"@ {
                SwapStage::Staged
            } else if s@ == "swapped"@ {
                SwapStage::Swapped
            } else {
                SwapStage::Pending
            },
            None => SwapStage::Pending,
        },
{
    match recorded {
        Some(s) => {
            let staged = "staged".to_string();
            let swapped = "swapped".to_string();
            if *s == staged {
                SwapStage::Staged
            } else if *s == swapped {
                SwapStage::Swapped
            } else {
                SwapStage::Pending
            }
        },
        None => SwapStage::Pending,
    }
}

impl SwapStage {
    /// The stage name as recorded.
    pub fn as_str(self) -> (r: Option<&'static str>)
        ensures
            match self {
                SwapStage::Pending => r is None,
                SwapStage::Staged => r matches Some(t) && t@ == "staged"@,
                SwapStage::Swapped => r matches Some(t) && t@ == "swapped"@,
            },
    {
        match self {
            SwapStage::Pending => None,
            SwapStage::Staged => Some("staged"),
            SwapStage::Swapped => Some("swapped"),
        }
    }
}

/// The next step of loading a table.
#[derive(Debug, Clone, Copy, PartialEq, Eq, Structural)]
pub enum SwapAction {
    /// Create the table in the staging schema, copy its file in, index it, record `staged`.
    Stage,
    /// Move the staged table into the live schema, record `swapped`.
    Swap,
    /// Nothing left to do.
    Done,
}

/// The step to take for a table at a recorded stage: a table not yet staged is staged, a
/// staged one is swapped, a swapped one is left alone.
pub fn next_swap_action(stage: SwapStage) -> (r: SwapAction)
    ensures
        r == match stage {
            SwapStage::Pending => SwapAction::Stage,
            SwapStage::Staged => SwapAction::Swap,
            SwapStage::Swapped => SwapAction::Done,
        },
{
    match stage {
        SwapStage::Pending => SwapAction::Stage,
        SwapStage::Staged => SwapAction::Swap,
        SwapStage::Swapped => SwapAction::Done,
    }
}

/// The stage recorded once a step has been carried out.
pub open spec fn stage_after(stage: SwapStage, action: SwapAction) -> SwapStage {
    match action {
        SwapAction::Stage => SwapStage::Staged,
        SwapAction::Swap => SwapStage::Swapped,
        SwapAction::Done => stage,
    }
}

/// The step for a recorded stage, as `next_swap_action` computes it.
pub open spec fn spec_next_swap_action(stage: SwapStage) -> SwapAction {
    match stage {
        SwapStage::Pending => SwapAction::Stage,
        SwapStage::Staged => SwapAction::Swap,
        SwapStage::Swapped => SwapAction::Done,
    }
}

/// A load that is interrupted and resumed, from whatever stage was recorded, ends with
/// the table swapped after at most two steps; a table is staged only when nothing was
/// recorded for it, and a swapped table is left alone.
pub proof fn lemma_swap_resumes_to_swapped(stage: SwapStage)
    ensures
        ({
            let a1 = spec_next_swap_action(stage);
            let s1 = stage_after(stage, a1);
            let a2 = spec_next_swap_action(s1);
            let s2 = stage_after(s1, a2);
            &&& s2 == SwapStage::Swapped
            &&& spec_next_swap_action(s2) == SwapAction::Done
            &&& (a1 == SwapAction::Stage <==> stage == SwapStage::Pending)
            &&& a2 != SwapAction::Stage
            &&& (stage == SwapStage::Swapped ==> a1 == SwapAction::Done && a2 == SwapAction::Done)
        }),
{
}

/// The staging schema of an import run: `<prefix>_<run id>`.
pub fn staging_schema_name(prefix: &str, import_run_id: i64) -> (r: String)
    ensures
        r@ == prefix@ + "_"@ + int_text(import_run_id as int),
{
    let mut out = prefix.to_string();
    out.append("_");
    let id = i64_text(import_run_id);
    out.append(id.as_str());
    out
}

/// The name a replaced live table is kept under: `<table>__old_<run id>`.
pub fn old_table_name(pg_table: &str, import_run_id: i64) -> (r: String)
    ensures
        r@ == pg_table@ + "__old_"@ + int_text(import_run_id as int),
{
    let mut out = pg_table.to_string();
    out.append("__old_");
    let id = i64_text(import_run_id);
    out.append(id.as_str());
    out
}

impl OfflineManifest {
    /// The PostgreSQL table of a MySQL table of the manifest.
    pub fn pg_table(&self, mysql_table: &str) -> (r: String)
        ensures
            r@ == self.overall_prefix@ + self.kind_prefix@ + mysql_table@,
    {
        let mut out = self.overall_prefix.clone();
        out.append(self.kind_prefix.as_str());
        out.append(mysql_table);
        out
    }

    /// The column names of table `i`, in order.
    pub fn column_names(&self, i: usize) -> (r: Vec<String>)
        requires
            i < self.tables@.len(),
        ensures
            strings_view(r@) == self.tables@[i as int].columns@.map_values(|c: crate::libgen::mysql_dump::ColumnDef| c.name@),
    {
        let def = &self.tables[i];
        let mut out: Vec<String> = Vec::new();
        let mut j: usize = 0;
        while j < def.columns.len()
            invariant
                j <= def.columns@.len(),
                strings_view(out@) == def.columns@.take(j as int).map_values(|c: crate::libgen::mysql_dump::ColumnDef| c.name@),
            decreases def.columns@.len() - j,
        {
            out.push(def.columns[j].name.clone());
            assert(def.columns@.take(j + 1).map_values(|c: crate::libgen::mysql_dump::ColumnDef| c.name@) =~= def.columns@.take(j as int).map_values(|c: crate::libgen::mysql_dump::ColumnDef| c.name@).push(def.columns@[j as int].name@));
            assert(strings_view(out@) =~= def.columns@.take(j + 1).map_values(|c: crate::libgen::mysql_dump::ColumnDef| c.name@));
            j += 1;
        }
        assert(def.columns@.take(j as int) =~= def.columns@);
        out
    }
}

/// Whether a table has a column named `name`.
pub open spec fn has_column(def: TableDef, name: Seq<char>) -> bool {
    exists|j: int| 0 <= j < def.columns@.len() && #[trigger] def.columns@[j].name@ == name
}

/// The fields, in the configured order, that are indexed after a load: those of the
/// list for the manifest's kind (`fiction`, else compact) that are columns of the table.
pub open spec fn spec_index_fields(fields: Seq<Seq<char>>, def: TableDef) -> Seq<Seq<char>> {
    fields.filter(column_test(def))
}

/// The test "is a column of `def`".
pub open spec fn column_test(def: TableDef) -> spec_fn(Seq<char>) -> bool {
    |f: Seq<char>| has_column(def, f)
}

/// Whether `def` has a column named `name`.
pub fn table_has_column(def: &TableDef, name: &String) -> (r: bool)
    ensures
        r == has_column(*def, name@),
{
    let mut j: usize = 0;
    while j < def.columns.len()
        invariant
            j <= def.columns@.len(),
            forall|k: int| 0 <= k < j ==> #[trigger] def.columns@[k].name@ != name@,
        decreases def.columns@.len() - j,
    {
        if def.columns[j].name == *name {
            return true;
        }
        j += 1;
    }
    false
}

/// The fields to index on a table, in order.
pub fn index_fields(fields: &Vec<String>, def: &TableDef) -> (r: Vec<String>)
    ensures
        strings_view(r@) == spec_index_fields(strings_view(fields@), *def),
{
    let ghost all = strings_view(fields@);
    let mut out: Vec<String> = Vec::new();
    let mut i: usize = 0;
    while i < fields.len()
        invariant
            i <= fields@.len(),
            all == strings_view(fields@),
            strings_view(out@) == spec_index_fields(all.take(i as int), *def),
        decreases fields@.len() - i,
    {
        proof {
            assert(all.take(i + 1).drop_last() =~= all.take(i as int));
            vstd::seq_lib::lemma_seq_take_len(all, i + 1);
        }
        let ghost before = strings_view(out@);
        if table_has_column(def, &fields[i]) {
            out.push(fields[i].clone());
            assert(strings_view(out@) =~= before.push(all[i as int]));
        }
        proof {
            let t = all.take(i + 1);
            assert(t.drop_last() =~= all.take(i as int));
            assert(t.last() == all[i as int]);
            assert(all[i as int] == fields@[i as int]@);
            all.take(i as int).lemma_filter_push(all[i as int], column_test(*def));
            assert(all.take(i as int).push(all[i as int]) =~= t);
            assert(spec_index_fields(t, *def) == (if has_column(*def, t.last()) {
                spec_index_fields(t.drop_last(), *def).push(t.last())
            } else {
                spec_index_fields(t.drop_last(), *def)
            }));
            assert(strings_view(out@) =~= spec_index_fields(t, *def));
        }
        i += 1;
    }
    assert(all.take(i as int) =~= all);
    out
}

/// The index fields configured for the manifest's kind.
pub fn main_fields_for<'a>(manifest_kind: &str, fiction: &'a Vec<String>, compact: &'a Vec<String>) -> (r: &'a Vec<String>)
    ensures
        r == (if manifest_kind@ == "fiction"@ {
            fiction
        } else {
            compact
        }),
{
    let f = "fiction".to_string();
    let k = manifest_kind.to_string();
    if k == f {
        fiction
    } else {
        compact
    }
}

/// Whether a load is stopped on purpose after `staged` tables were staged in this run.
pub fn should_interrupt(staged: usize, limit: Option<usize>) -> (r: bool)
    ensures
        r == (limit matches Some(l) && staged >= l),
{
    match limit {
        Some(l) => staged >= l,
        None => false,
    }
}

/// The replaced live tables to drop once a load succeeded: with old tables kept and
/// dropping on success on, the old name of every table of the manifest, in order;
/// otherwise none.
pub fn old_tables_to_drop(
    manifest: &OfflineManifest,
    import_run_id: i64,
    drop_old_tables_on_success: bool,
    keep_old_tables: bool,
) -> (r: Vec<String>)
    ensures
        !(drop_old_tables_on_success && keep_old_tables) ==> r@.len() == 0,
        drop_old_tables_on_success && keep_old_tables ==> strings_view(r@) == manifest.tables@.map_values(
            |d: TableDef|
                manifest.overall_prefix@ + manifest.kind_prefix@ + d.name@ + "__old_"@ + int_text(
                    import_run_id as int,
                ),
        ),
{
    let mut out: Vec<String> = Vec::new();
    if !(drop_old_tables_on_success && keep_old_tables) {
        return out;
    }
    let ghost want = manifest.tables@.map_values(
        |d: TableDef|
            manifest.overall_prefix@ + manifest.kind_prefix@ + d.name@ + "__old_"@ + int_text(
                import_run_id as int,
            ),
    );
    let mut i: usize = 0;
    while i < manifest.tables.len()
        invariant
            i <= manifest.tables@.len(),
            want == manifest.tables@.map_values(
                |d: TableDef|
                    manifest.overall_prefix@ + manifest.kind_prefix@ + d.name@ + "__old_"@
                        + int_text(import_run_id as int),
            ),
            strings_view(out@) == want.take(i as int),
        decreases manifest.tables@.len() - i,
    {
        let t = manifest.pg_table(manifest.tables[i].name.as_str());
        let o = old_table_name(t.as_str(), import_run_id);
        let ghost before = strings_view(out@);
        out.push(o);
        proof {
            assert(want[i as int] == manifest.overall_prefix@ + manifest.kind_prefix@
                + manifest.tables@[i as int].name@ + "__old_"@ + int_text(import_run_id as int));
            assert(o@ =~= want[i as int]);
            assert(strings_view(out@) =~= before.push(o@));
            assert(want.take(i + 1) =~= want.take(i as int).push(want[i as int]));
        }
        i += 1;
    }
    assert(want.take(i as int) =~= want);
    out
}

} // verus!
