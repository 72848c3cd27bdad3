//! Decisions of the LibGen row ingestion: how each parsed row is turned into a row for
//! PostgreSQL, when a batch is flushed, how it is written, and where progress is kept.
//! The database calls themselves are made by the caller.
use crate::config::{LibgenDumpKind, LoaderKind};
use crate::libgen::mysql_dump::{kind_name, row_view, ColumnDef, TableDef, SqlValue};
use crate::text::{str_chars, string_from_chars};
use vstd::prelude::*;
use vstd::string::{StrSliceExecFns, StringExecFns, StringSliceAdditionalSpecFns};
use vstd::utf8::encode_utf8;

verus! {

broadcast use vstd::string::group_string_axioms;

/// What to ingest from one dump and how.
pub struct IngestPlan {
    pub kind: LibgenDumpKind,
    pub dump_path: String,
    pub table_defs: Vec<TableDef>,
    pub overall_prefix: String,
    pub kind_prefix: String,
    pub mode: IngestMode,
    pub conflict_columns: Vec<String>,
    pub apply_deletes: bool,
    pub row_hash_enabled: bool,
}

impl IngestPlan {
    /// The PostgreSQL table that receives the rows of a MySQL table.
    pub fn pg_table_for_mysql(&self, mysql_table: &str) -> (r: String)
        ensures
            r@ == self.overall_prefix@ + self.kind_prefix@ + mysql_table@,
    {
        let mut out = self.overall_prefix.clone();
        out.append(self.kind_prefix.as_str());
        out.append(mysql_table);
        out
    }
}

/// First load of a dump, or update of loaded tables from a newer dump.
#[derive(Debug, Clone, Copy, PartialEq, Eq, Structural)]
pub enum IngestMode {
    Ingest,
    Update,
}

/// Why a plan cannot be carried out.
#[derive(Debug, Clone, Copy, PartialEq, Eq, Structural)]
pub enum IngestPlanError {
    /// Deletes need exactly one primary key column; the number configured.
    DeleteKeyColumns(usize),
}

// ---------------------------------------------------------------------------
// Text sanitising
// ---------------------------------------------------------------------------

/// Every NUL character of `s` replaced by `rep`.
pub open spec fn replace_nul(s: Seq<char>, rep: Seq<char>) -> Seq<char>
    decreases s.len(),
{
    if s.len() == 0 {
        Seq::empty()
    } else {
        replace_nul(s.drop_last(), rep) + if s.last() == '\0' {
            rep
        } else {
            seq![s.last()]
        }
    }
}

/// The text stored for a value: NUL characters replaced when sanitising is on.
pub open spec fn sanitized(enabled: bool, rep: Seq<char>, s: Seq<char>) -> Seq<char> {
    if enabled {
        replace_nul(s, rep)
    } else {
        s
    }
}

/// With sanitising on and a replacement without NUL, a stored text holds no NUL (which
/// PostgreSQL text cannot hold).
pub proof fn lemma_sanitized_has_no_nul(rep: Seq<char>, s: Seq<char>)
    requires
        forall|i: int| 0 <= i < rep.len() ==> rep[i] != '\0',
    ensures
        forall|i: int| 0 <= i < sanitized(true, rep, s).len() ==> #[trigger] sanitized(true, rep, s)[i] != '\0',
    decreases s.len(),
{
    if s.len() > 0 {
        lemma_sanitized_has_no_nul(rep, s.drop_last());
        let a = replace_nul(s.drop_last(), rep);
        let b = if s.last() == '\0' {
            rep
        } else {
            seq![s.last()]
        };
        assert forall|i: int| 0 <= i < (a + b).len() implies #[trigger] (a + b)[i] != '\0' by {
            if i < a.len() {
                assert(sanitized(true, rep, s.drop_last())[i] == a[i]);
            } else {
                assert((a + b)[i] == b[i - a.len()]);
            }
        }
    }
}

/// Replaces NUL characters (which PostgreSQL text cannot hold) when sanitising is on.
pub fn sanitize_text(sanitize_nul_bytes: bool, nul_replacement: &str, s: String) -> (r: String)
    ensures
        r@ == sanitized(sanitize_nul_bytes, nul_replacement@, s@),
{
    if !sanitize_nul_bytes {
        return s;
    }
    let chars = str_chars(s.as_str());
    let rep = str_chars(nul_replacement);
    let mut out: Vec<char> = Vec::new();
    let mut i: usize = 0;
    while i < chars.len()
        invariant
            i <= chars@.len(),
            chars@ == s@,
            rep@ == nul_replacement@,
            out@ == replace_nul(chars@.take(i as int), rep@),
        decreases chars@.len() - i,
    {
        let ghost before = out@;
        if chars[i] == '\0' {
            let mut k: usize = 0;
            while k < rep.len()
                invariant
                    k <= rep@.len(),
                    out@ == before + rep@.take(k as int),
                decreases rep@.len() - k,
            {
                out.push(rep[k]);
                assert(rep@.take(k + 1) =~= rep@.take(k as int).push(rep@[k as int]));
                k += 1;
            }
            assert(rep@.take(k as int) =~= rep@);
        } else {
            out.push(chars[i]);
        }
        assert(chars@.take(i + 1).drop_last() =~= chars@.take(i as int));
        i += 1;
    }
    assert(chars@.take(i as int) =~= chars@);
    string_from_chars(out.as_slice())
}

// ---------------------------------------------------------------------------
// Row hashing
// ---------------------------------------------------------------------------

/// A name for SHA-256 as `sha2` computes it.
pub uninterp spec fn spec_sha256(data: Seq<u8>) -> Seq<u8>;

/// `sha2::Sha256::digest`: the SHA-256 digest of `data`, 32 bytes.
#[verifier::external_body]
fn sha256(data: &[u8]) -> (r: Vec<u8>)
    ensures
        r@ == spec_sha256(data@),
        r@.len() == 32,
{
    <sha2::Sha256 as sha2::Digest>::digest(data).to_vec()
}

/// The SHA-256 digest of a raw statement's UTF-8 bytes, as stored beside the statement.
pub fn statement_sha256(payload: &str) -> (r: Vec<u8>)
    ensures
        r@ == spec_sha256(payload.spec_bytes()),
        r@.len() == 32,
{
    sha256(payload.as_bytes())
}

/// The lowercase hexadecimal digit for `n < 16`.
pub open spec fn hex_digit(n: int) -> char {
    if n < 10 {
        (48 + n) as char
    } else {
        (87 + n) as char
    }
}

/// Lowercase hexadecimal text of `b`, two digits per byte.
pub open spec fn hex_lower(b: Seq<u8>) -> Seq<char>
    decreases b.len(),
{
    if b.len() == 0 {
        Seq::empty()
    } else {
        hex_lower(b.drop_last()) + seq![hex_digit(b.last() as int / 16), hex_digit(b.last() as int % 16)]
    }
}

/// `hex::encode`: lowercase hexadecimal text of `bytes`, two digits per byte.
#[verifier::external_body]
fn hex_encode(bytes: &[u8]) -> (r: String)
    ensures
        r@ == hex_lower(bytes@),
{
    hex::encode(bytes)
}

/// The bytes hashed for a value: `\N` for `NULL`, the UTF-8 text otherwise.
pub open spec fn field_bytes(v: Option<Seq<char>>) -> Seq<u8> {
    match v {
        None => seq![0x5cu8, 0x4eu8],
        Some(s) => encode_utf8(s),
    }
}

/// The bytes hashed for a row: its values joined by tabs.
pub open spec fn hash_input(row: Seq<Option<Seq<char>>>) -> Seq<u8>
    decreases row.len(),
{
    if row.len() == 0 {
        Seq::empty()
    } else if row.len() == 1 {
        field_bytes(row[0])
    } else {
        hash_input(row.drop_last()) + seq![0x09u8] + field_bytes(row.last())
    }
}

/// The view of a row prepared for PostgreSQL.
pub open spec fn opt_row_view(r: Seq<Option<String>>) -> Seq<Option<Seq<char>>> {
    r.map_values(
        |o: Option<String>|
            match o {
                Some(s) => Some(s@),
                None => None,
            },
    )
}

/// The values of a parsed row as stored: `NULL` kept, texts sanitised.
pub open spec fn stored_values(enabled: bool, rep: Seq<char>, row: Seq<Option<Seq<char>>>) -> Seq<
    Option<Seq<char>>,
> {
    row.map_values(
        |v: Option<Seq<char>>|
            match v {
                Some(s) => Some(sanitized(enabled, rep, s)),
                None => None,
            },
    )
}

/// A stored row, with its hash appended when row hashing is on.
pub open spec fn prepared_values(
    enabled: bool,
    rep: Seq<char>,
    hash: bool,
    row: Seq<Option<Seq<char>>>,
) -> Seq<Option<Seq<char>>> {
    let base = stored_values(enabled, rep, row);
    if hash {
        base.push(Some(hex_lower(spec_sha256(hash_input(base)))))
    } else {
        base
    }
}

/// The number of UTF-8 bytes of the texts of a row (each length as `str::len` reports it).
pub open spec fn text_bytes(row: Seq<Option<Seq<char>>>) -> int
    decreases row.len(),
{
    if row.len() == 0 {
        0
    } else {
        text_bytes(row.drop_last()) + match row.last() {
            Some(s) => (encode_utf8(s).len() as usize) as int,
            None => 0int,
        }
    }
}

/// `a + b`, saturating at `usize::MAX`.
pub open spec fn sat_add(a: int, b: int) -> int {
    if a + b > usize::MAX {
        usize::MAX as int
    } else {
        a + b
    }
}

/// A row prepared for loading, and the key value to remember for deletes.
pub struct PreparedRow {
    pub values: Vec<Option<String>>,
    pub pk_value: Option<String>,
}

/// The bytes hashed for a row.
fn row_hash_bytes(row: &Vec<Option<String>>) -> (r: Vec<u8>)
    ensures
        r@ == hash_input(opt_row_view(row@)),
{
    let mut out: Vec<u8> = Vec::new();
    let mut i: usize = 0;
    while i < row.len()
        invariant
            i <= row@.len(),
            out@ == hash_input(opt_row_view(row@).take(i as int)),
        decreases row@.len() - i,
    {
        let ghost before = out@;
        let ghost v = opt_row_view(row@)[i as int];
        if i > 0 {
            out.push(0x09u8);
        }
        let mut piece = match &row[i] {
            None => vec![0x5cu8, 0x4eu8],
            Some(s) => vstd::slice::slice_to_vec(s.as_str().as_bytes()),
        };
        assert(piece@ =~= field_bytes(v));
        out.append(&mut piece);
        proof {
            let t = opt_row_view(row@).take(i + 1);
            assert(t.drop_last() =~= opt_row_view(row@).take(i as int));
            if i == 0 {
                assert(out@ =~= field_bytes(t[0]));
            } else {
                assert(out@ =~= hash_input(t.drop_last()) + seq![0x09u8] + field_bytes(t.last()));
            }
        }
        i += 1;
    }
    assert(opt_row_view(row@).take(i as int) =~= opt_row_view(row@));
    out
}

/// Turns a parsed row into the row loaded into PostgreSQL: `NULL` stays `NULL`, texts are
/// sanitised, and with row hashing on the lowercase hex SHA-256 of the values (joined by
/// tabs, `NULL` as `\N`) is appended. Also returns the batch byte count grown by the
/// bytes of the row's texts (saturating), and the value at `pk_index`, if it is a text.
pub fn prepare_row(
    row: Vec<SqlValue>,
    sanitize_nul_bytes: bool,
    nul_replacement: &str,
    row_hash_enabled: bool,
    pk_index: Option<usize>,
    chunk_bytes: usize,
) -> (r: (PreparedRow, usize))
    ensures
        opt_row_view(r.0.values@) == prepared_values(
            sanitize_nul_bytes,
            nul_replacement@,
            row_hash_enabled,
            row_view(row),
        ),
        r.1 == sat_add(chunk_bytes as int, text_bytes(opt_row_view(r.0.values@))),
        match pk_index {
            Some(i) => match r.0.pk_value {
                Some(v) => i < r.0.values@.len() && opt_row_view(r.0.values@)[i as int] == Some(
                    v@,
                ),
                None => i >= r.0.values@.len() || opt_row_view(r.0.values@)[i as int] is None,
            },
            None => r.0.pk_value is None,
        },
{
    let ghost base = stored_values(sanitize_nul_bytes, nul_replacement@, row_view(row));
    let mut out: Vec<Option<String>> = Vec::new();
    let mut bytes = chunk_bytes;
    let mut i: usize = 0;
    while i < row.len()
        invariant
            i <= row@.len(),
            base == stored_values(sanitize_nul_bytes, nul_replacement@, row_view(row)),
            opt_row_view(out@) == base.take(i as int),
            bytes == sat_add(chunk_bytes as int, text_bytes(opt_row_view(out@))),
        decreases row@.len() - i,
    {
        let ghost before = opt_row_view(out@);
        let v = match &row[i] {
            SqlValue::Null => None,
            SqlValue::Text(s) => {
                let t = sanitize_text(sanitize_nul_bytes, nul_replacement, s.clone());
                bytes = bytes.saturating_add(t.as_str().len());
                Some(t)
            },
        };
        out.push(v);
        proof {
            assert(opt_row_view(out@).drop_last() =~= before);
            assert(opt_row_view(out@) =~= base.take(i + 1));
            assert(text_bytes(opt_row_view(out@)) == text_bytes(before) + match opt_row_view(
                out@,
            ).last() {
                Some(s) => (encode_utf8(s).len() as usize) as int,
                None => 0int,
            });
        }
        i += 1;
    }
    assert(base.take(i as int) =~= base);
    if row_hash_enabled {
        let input = row_hash_bytes(&out);
        let digest = sha256(input.as_slice());
        let hex = hex_encode(digest.as_slice());
        let ghost before = opt_row_view(out@);
        bytes = bytes.saturating_add(hex.as_str().len());
        out.push(Some(hex));
        proof {
            assert(opt_row_view(out@).drop_last() =~= before);
            assert(opt_row_view(out@) =~= before.push(Some(hex@)));
            assert(text_bytes(opt_row_view(out@)) == text_bytes(before) + (encode_utf8(hex@).len() as usize) as int);
        }
    }
    let pk_value = match pk_index {
        Some(idx) => {
            if idx < out.len() {
                match &out[idx] {
                    Some(v) => Some(v.clone()),
                    None => None,
                }
            } else {
                None
            }
        },
        None => None,
    };
    (PreparedRow { values: out, pk_value }, bytes)
}

// ---------------------------------------------------------------------------
// Batching and loading decisions
// ---------------------------------------------------------------------------

/// A batch is flushed once it holds `max_rows` rows or `max_bytes` bytes, or half of the
/// memory limit (each limit taken as at least 1).
pub open spec fn spec_should_flush(rows: int, bytes: int, max_rows: int, max_bytes: int, memory_limit: int) -> bool {
    let r = if max_rows < 1 {
        1
    } else {
        max_rows
    };
    let b = if max_bytes < 1 {
        1
    } else {
        max_bytes
    };
    let m = if memory_limit < 1 {
        1
    } else {
        memory_limit
    };
    rows >= r || bytes >= b || bytes >= m / 2
}

/// Whether the current batch must be written now.
pub fn should_flush(
    chunk_rows: usize,
    chunk_bytes: usize,
    batch_max_rows: u64,
    batch_max_bytes: u64,
    memory_hard_limit_bytes: u64,
) -> (r: bool)
    ensures
        r == spec_should_flush(
            chunk_rows as int,
            chunk_bytes as int,
            batch_max_rows as int,
            batch_max_bytes as int,
            memory_hard_limit_bytes as int,
        ),
{
    let max_rows = if batch_max_rows < 1 {
        1
    } else {
        batch_max_rows
    };
    let max_bytes = if batch_max_bytes < 1 {
        1
    } else {
        batch_max_bytes
    };
    let mem = if memory_hard_limit_bytes < 1 {
        1
    } else {
        memory_hard_limit_bytes
    };
    chunk_rows as u64 >= max_rows || chunk_bytes as u64 >= max_bytes || chunk_bytes as u64 >= mem
        / 2
}

/// The key column whose values are remembered so that rows missing from a newer dump can
/// be deleted: only in update mode with deletes on, and only for a single-column key.
pub fn delete_key_column(mode: IngestMode, apply_deletes: bool, conflict_columns: &Vec<String>) -> (r:
    Result<Option<String>, IngestPlanError>)
    ensures
        !(mode == IngestMode::Update && apply_deletes) ==> r == Ok::<
            Option<String>,
            IngestPlanError,
        >(None),
        mode == IngestMode::Update && apply_deletes && conflict_columns@.len() != 1 ==> r == Err::<
            Option<String>,
            _,
        >(IngestPlanError::DeleteKeyColumns(conflict_columns@.len() as usize)),
        mode == IngestMode::Update && apply_deletes && conflict_columns@.len() == 1 ==> (r matches Ok(
            Some(c),
        ) && c@ == conflict_columns@[0]@),
{
    if mode == IngestMode::Update && apply_deletes {
        if conflict_columns.len() != 1 {
            return Err(IngestPlanError::DeleteKeyColumns(conflict_columns.len()));
        }
        Ok(Some(conflict_columns[0].clone()))
    } else {
        Ok(None)
    }
}

/// The name of the column holding a row's hash.
pub open spec fn row_hash_column() -> Seq<char> {
    "_bm_row_hash"@
}

/// The columns loaded for a table: its columns, then the hash column when hashing is on.
pub open spec fn spec_load_columns(cols: Seq<ColumnDef>, hash: bool) -> Seq<Seq<char>> {
    let names = cols.map_values(|c: ColumnDef| c.name@);
    if hash {
        names.push(row_hash_column())
    } else {
        names
    }
}

/// A row with one value per column of its table is prepared into a row with one value per
/// loaded column (the hash column included when hashing is on).
pub proof fn lemma_prepared_row_fits_columns(
    enabled: bool,
    rep: Seq<char>,
    hash: bool,
    cols: Seq<ColumnDef>,
    row: Seq<Option<Seq<char>>>,
)
    requires
        row.len() == cols.len(),
    ensures
        prepared_values(enabled, rep, hash, row).len() == spec_load_columns(cols, hash).len(),
{
}

/// The views of a list of strings.
pub open spec fn strings_view(v: Seq<String>) -> Seq<Seq<char>> {
    v.map_values(|s: String| s@)
}

/// The columns loaded for a table.
pub fn load_columns(def: &TableDef, row_hash_enabled: bool) -> (r: Vec<String>)
    ensures
        strings_view(r@) == spec_load_columns(def.columns@, row_hash_enabled),
{
    let mut out: Vec<String> = Vec::new();
    let mut i: usize = 0;
    while i < def.columns.len()
        invariant
            i <= def.columns@.len(),
            strings_view(out@) == def.columns@.take(i as int).map_values(|c: ColumnDef| c.name@),
        decreases def.columns@.len() - i,
    {
        let ghost before = strings_view(out@);
        out.push(def.columns[i].name.clone());
        assert(strings_view(out@) =~= before.push(def.columns@[i as int].name@));
        assert(def.columns@.take(i + 1).map_values(|c: ColumnDef| c.name@) =~= def.columns@.take(
            i as int,
        ).map_values(|c: ColumnDef| c.name@).push(def.columns@[i as int].name@));
        i += 1;
    }
    assert(def.columns@.take(i as int) =~= def.columns@);
    if row_hash_enabled {
        let ghost before = strings_view(out@);
        let h = "_bm_row_hash".to_string();
        out.push(h);
        assert(strings_view(out@) =~= before.push(row_hash_column()));
    }
    out
}

/// The index of the first column named `name`.
pub fn column_position(cols: &Vec<String>, name: &String) -> (r: Option<usize>)
    ensures
        match r {
            Some(i) => i < cols@.len() && cols@[i as int]@ == name@ && forall|j: int|
                0 <= j < i ==> cols@[j]@ != name@,
            None => forall|j: int| 0 <= j < cols@.len() ==> cols@[j]@ != name@,
        },
{
    let mut i: usize = 0;
    while i < cols.len()
        invariant
            i <= cols@.len(),
            forall|j: int| 0 <= j < i ==> cols@[j]@ != name@,
        decreases cols@.len() - i,
    {
        if cols[i] == *name {
            return Some(i);
        }
        i += 1;
    }
    None
}

/// How a batch is written.
#[derive(Debug, Clone, Copy, PartialEq, Eq, Structural)]
pub enum BatchWrite {
    /// `INSERT ... ON CONFLICT (_bm_row_hash) DO NOTHING`.
    InsertSkipSameHash,
    /// `INSERT ... ON CONFLICT (key columns) DO NOTHING`.
    InsertSkipSameKey,
    /// `COPY ... FROM STDIN`.
    Copy,
    /// Plain `INSERT`.
    Insert,
    /// `INSERT ... ON CONFLICT (key columns) DO UPDATE`.
    Upsert,
}

/// How batches are written: with row hashing, rows already present are skipped (by hash
/// when ingesting, by the plan's key columns when updating); otherwise ingesting uses the
/// configured loader and updating upserts on the key columns.
pub fn batch_write(mode: IngestMode, row_hash_enabled: bool, loader: LoaderKind) -> (r: BatchWrite)
    ensures
        r == match (mode, row_hash_enabled) {
            (IngestMode::Ingest, true) => BatchWrite::InsertSkipSameHash,
            (IngestMode::Ingest, false) => match loader {
                LoaderKind::Copy => BatchWrite::Copy,
                LoaderKind::Insert => BatchWrite::Insert,
            },
            (IngestMode::Update, true) => BatchWrite::InsertSkipSameKey,
            (IngestMode::Update, false) => BatchWrite::Upsert,
        },
{
    match mode {
        IngestMode::Ingest => {
            if row_hash_enabled {
                BatchWrite::InsertSkipSameHash
            } else {
                match loader {
                    LoaderKind::Copy => BatchWrite::Copy,
                    LoaderKind::Insert => BatchWrite::Insert,
                }
            }
        },
        IngestMode::Update => {
            if row_hash_enabled {
                BatchWrite::InsertSkipSameKey
            } else {
                BatchWrite::Upsert
            }
        },
    }
}

/// The key under which the dump offset of an ingest is checkpointed.
pub open spec fn spec_checkpoint_key(kind: LibgenDumpKind, dump_path: Seq<char>) -> Seq<char> {
    "libgen:"@ + kind_name(kind) + ":"@ + dump_path
}

/// The checkpoint key of an ingest: `libgen:<kind>:<dump path>`.
pub fn checkpoint_key(kind: LibgenDumpKind, dump_path: &str) -> (r: String)
    ensures
        r@ == spec_checkpoint_key(kind, dump_path@),
{
    let mut out = "libgen:".to_string();
    match kind {
        LibgenDumpKind::Fiction => out.append("fiction"),
        LibgenDumpKind::Compact => out.append("compact"),
    }
    out.append(":");
    out.append(dump_path);
    out
}


// ---------------------------------------------------------------------------
// Batching the rows of one INSERT statement
// ---------------------------------------------------------------------------

/// The views of a list of rows.
pub open spec fn rows_view(rows: Seq<Vec<Option<String>>>) -> Seq<Seq<Option<Seq<char>>>> {
    rows.map_values(|r: Vec<Option<String>>| opt_row_view(r@))
}

/// The byte count that the batching keeps for a list of rows: the text bytes of each row,
/// added one row after the other, saturating at `usize::MAX`.
pub open spec fn batch_bytes(rows: Seq<Seq<Option<Seq<char>>>>) -> int
    decreases rows.len(),
{
    if rows.len() == 0 {
        0
    } else {
        sat_add(batch_bytes(rows.drop_last()), text_bytes(rows.last()))
    }
}

/// The key value of a row to remember for deletes: the text at `pk_index`, if any.
pub open spec fn row_key(row: Seq<Option<Seq<char>>>, pk_index: Option<usize>) -> Seq<Seq<char>> {
    match pk_index {
        Some(i) => if i < row.len() {
            match row[i as int] {
                Some(v) => seq![v],
                None => Seq::empty(),
            }
        } else {
            Seq::empty()
        },
        None => Seq::empty(),
    }
}

/// The key values of a list of rows, in order.
pub open spec fn rows_keys(rows: Seq<Seq<Option<Seq<char>>>>, pk_index: Option<usize>) -> Seq<Seq<char>>
    decreases rows.len(),
{
    if rows.len() == 0 {
        Seq::empty()
    } else {
        rows_keys(rows.drop_last(), pk_index) + row_key(rows.last(), pk_index)
    }
}

/// Keys recorded batch by batch are the keys of all the rows: the keys of rows split into
/// consecutive batches are the keys of each batch, in order. With `push_row` and
/// `finish` handing out batches whose rows follow each other, every key of every loaded
/// row is recorded as seen, so deletes only remove rows missing from the dump.
pub proof fn lemma_rows_keys_append(
    a: Seq<Seq<Option<Seq<char>>>>,
    b: Seq<Seq<Option<Seq<char>>>>,
    pk_index: Option<usize>,
)
    ensures
        rows_keys(a + b, pk_index) == rows_keys(a, pk_index) + rows_keys(b, pk_index),
    decreases b.len(),
{
    if b.len() == 0 {
        assert(a + b =~= a);
        assert(rows_keys(a, pk_index) + rows_keys(b, pk_index) =~= rows_keys(a, pk_index));
    } else {
        lemma_rows_keys_append(a, b.drop_last(), pk_index);
        assert((a + b).drop_last() =~= a + b.drop_last());
        assert((a + b).last() == b.last());
        assert(rows_keys(a, pk_index) + rows_keys(b, pk_index) =~= rows_keys(a, pk_index)
            + rows_keys(b.drop_last(), pk_index) + row_key(b.last(), pk_index));
    }
}

/// A batch of rows to write, with the key values of those rows to remember for deletes.
pub struct InsertBatch {
    pub rows: Vec<Vec<Option<String>>>,
    pub seen_pks: Vec<String>,
}

/// Collects the prepared rows of one INSERT statement into batches. A batch is handed out
/// as soon as it reaches a limit (see `spec_should_flush`), and the rest when the
/// statement ends.
pub struct RowBatcher {
    sanitize_nul_bytes: bool,
    nul_replacement: String,
    row_hash_enabled: bool,
    pk_index: Option<usize>,
    max_rows: u64,
    max_bytes: u64,
    memory_limit: u64,
    chunk: Vec<Vec<Option<String>>>,
    chunk_bytes: usize,
    seen_pks: Vec<String>,
    pushed: Ghost<Seq<Seq<Option<Seq<char>>>>>,
    emitted: Ghost<Seq<Seq<Option<Seq<char>>>>>,
}

impl RowBatcher {
    /// Every prepared row pushed so far, in order.
    pub closed spec fn pushed(&self) -> Seq<Seq<Option<Seq<char>>>> {
        self.pushed@
    }

    /// The rows of every batch handed out so far, in order.
    pub closed spec fn emitted(&self) -> Seq<Seq<Option<Seq<char>>>> {
        self.emitted@
    }

    /// The rows waiting in the current batch.
    pub closed spec fn pending(&self) -> Seq<Seq<Option<Seq<char>>>> {
        rows_view(self.chunk@)
    }

    pub closed spec fn sanitizes(&self) -> bool {
        self.sanitize_nul_bytes
    }

    pub closed spec fn replacement(&self) -> Seq<char> {
        self.nul_replacement@
    }

    pub closed spec fn hashes(&self) -> bool {
        self.row_hash_enabled
    }

    pub closed spec fn key_index(&self) -> Option<usize> {
        self.pk_index
    }

    /// The most rows a batch holds: the configured maximum, at least 1.
    pub closed spec fn row_limit(&self) -> int {
        if self.max_rows < 1 {
            1
        } else {
            self.max_rows as int
        }
    }

    /// Whether `rows` would be handed out as a batch under this batcher's limits.
    pub closed spec fn full(&self, rows: Seq<Seq<Option<Seq<char>>>>) -> bool {
        spec_should_flush(
            rows.len() as int,
            batch_bytes(rows),
            self.max_rows as int,
            self.max_bytes as int,
            self.memory_limit as int,
        )
    }

    /// What every batcher keeps: the rows handed out followed by the pending rows are the
    /// rows pushed; a non-empty pending batch is below its limits; the byte count and the
    /// remembered keys are those of the pending rows.
    pub closed spec fn wf(&self) -> bool {
        &&& self.emitted@ + rows_view(self.chunk@) == self.pushed@
        &&& self.chunk@.len() > 0 ==> !self.full(rows_view(self.chunk@))
        &&& self.chunk_bytes == batch_bytes(rows_view(self.chunk@))
        &&& strings_view(self.seen_pks@) == rows_keys(rows_view(self.chunk@), self.pk_index)
    }

    /// An empty batcher.
    pub fn new(
        sanitize_nul_bytes: bool,
        nul_replacement: String,
        row_hash_enabled: bool,
        pk_index: Option<usize>,
        batch_max_rows: u64,
        batch_max_bytes: u64,
        memory_hard_limit_bytes: u64,
    ) -> (b: Self)
        ensures
            b.wf(),
            b.pushed().len() == 0,
            b.emitted().len() == 0,
            b.pending().len() == 0,
            b.sanitizes() == sanitize_nul_bytes,
            b.replacement() == nul_replacement@,
            b.hashes() == row_hash_enabled,
            b.key_index() == pk_index,
            b.row_limit() == (if batch_max_rows < 1 {
                1
            } else {
                batch_max_rows as int
            }),
            forall|rows: Seq<Seq<Option<Seq<char>>>>|
                #![trigger b.full(rows)]
                b.full(rows) == spec_should_flush(
                    rows.len() as int,
                    batch_bytes(rows),
                    batch_max_rows as int,
                    batch_max_bytes as int,
                    memory_hard_limit_bytes as int,
                ),
    {
        let b = RowBatcher {
            sanitize_nul_bytes,
            nul_replacement,
            row_hash_enabled,
            pk_index,
            max_rows: batch_max_rows,
            max_bytes: batch_max_bytes,
            memory_limit: memory_hard_limit_bytes,
            chunk: Vec::new(),
            chunk_bytes: 0,
            seen_pks: Vec::new(),
            pushed: Ghost(Seq::empty()),
            emitted: Ghost(Seq::empty()),
        };
        assert(rows_view(b.chunk@) =~= Seq::<Seq<Option<Seq<char>>>>::empty());
        assert(strings_view(b.seen_pks@) =~= Seq::<Seq<char>>::empty());
        b
    }

    /// Prepares `row` (see `prepare_row`) and adds it to the pending batch. When the batch
    /// then reaches a limit it is handed out, with the key values of its rows.
    pub fn push_row(&mut self, row: Vec<SqlValue>) -> (r: Option<InsertBatch>)
        requires
            old(self).wf(),
        ensures
            final(self).wf(),
            final(self).sanitizes() == old(self).sanitizes(),
            final(self).replacement() == old(self).replacement(),
            final(self).hashes() == old(self).hashes(),
            final(self).key_index() == old(self).key_index(),
            final(self).row_limit() == old(self).row_limit(),
            forall|rows: Seq<Seq<Option<Seq<char>>>>|
                #![trigger final(self).full(rows)]
                final(self).full(rows) == old(self).full(rows),
            r matches Some(b) ==> b.rows@.len() <= old(self).row_limit(),
            final(self).pushed() == old(self).pushed().push(
                prepared_values(
                    old(self).sanitizes(),
                    old(self).replacement(),
                    old(self).hashes(),
                    row_view(row),
                ),
            ),
            ({
                let full = old(self).pending().push(
                    prepared_values(
                        old(self).sanitizes(),
                        old(self).replacement(),
                        old(self).hashes(),
                        row_view(row),
                    ),
                );
                if old(self).full(full) {
                    &&& r matches Some(b) && rows_view(b.rows@) == full && strings_view(b.seen_pks@)
                        == rows_keys(full, old(self).key_index())
                    &&& final(self).pending().len() == 0
                    &&& final(self).emitted() == old(self).emitted() + full
                } else {
                    &&& r is None
                    &&& final(self).pending() == full
                    &&& final(self).emitted() == old(self).emitted()
                }
            }),
    {
        let ghost old_pending = rows_view(self.chunk@);
        let (prepared, bytes) = prepare_row(
            row,
            self.sanitize_nul_bytes,
            self.nul_replacement.as_str(),
            self.row_hash_enabled,
            self.pk_index,
            self.chunk_bytes,
        );
        let ghost p = opt_row_view(prepared.values@);
        match prepared.pk_value {
            Some(v) => {
                self.seen_pks.push(v);
            },
            None => {},
        }
        self.chunk.push(prepared.values);
        self.chunk_bytes = bytes;
        proof {
            let full = old_pending.push(p);
            assert(rows_view(self.chunk@) =~= full);
            assert(full.drop_last() =~= old_pending);
            assert(row_key(p, self.pk_index) =~= match prepared.pk_value {
                Some(v) => seq![v@],
                None => Seq::<Seq<char>>::empty(),
            });
            assert(strings_view(self.seen_pks@) =~= rows_keys(full, self.pk_index));
            self.pushed@ = self.pushed@.push(p);
            assert(self.emitted@ + full =~= self.pushed@);
        }
        if should_flush(self.chunk.len(), self.chunk_bytes, self.max_rows, self.max_bytes, self.memory_limit) {
            let mut rows: Vec<Vec<Option<String>>> = Vec::new();
            let mut pks: Vec<String> = Vec::new();
            std::mem::swap(&mut rows, &mut self.chunk);
            std::mem::swap(&mut pks, &mut self.seen_pks);
            self.chunk_bytes = 0;
            proof {
                self.emitted@ = self.emitted@ + rows_view(rows@);
                assert(rows_view(self.chunk@) =~= Seq::<Seq<Option<Seq<char>>>>::empty());
                assert(strings_view(self.seen_pks@) =~= Seq::<Seq<char>>::empty());
                assert(self.emitted@ + rows_view(self.chunk@) =~= self.pushed@);
            }
            Some(InsertBatch { rows, seen_pks: pks })
        } else {
            None
        }
    }

    /// Hands out the pending rows, if any, as the last batch of the statement.
    pub fn finish(&mut self) -> (r: Option<InsertBatch>)
        requires
            old(self).wf(),
        ensures
            final(self).wf(),
            final(self).sanitizes() == old(self).sanitizes(),
            final(self).replacement() == old(self).replacement(),
            final(self).hashes() == old(self).hashes(),
            final(self).key_index() == old(self).key_index(),
            forall|rows: Seq<Seq<Option<Seq<char>>>>|
                #![trigger final(self).full(rows)]
                final(self).full(rows) == old(self).full(rows),
            final(self).row_limit() == old(self).row_limit(),
            r matches Some(b) ==> b.rows@.len() <= old(self).row_limit(),
            final(self).pushed() == old(self).pushed(),
            final(self).pending().len() == 0,
            final(self).emitted() == final(self).pushed(),
            old(self).pending().len() == 0 ==> r is None,
            old(self).pending().len() > 0 ==> (r matches Some(b) && rows_view(b.rows@) == old(
                self,
            ).pending() && strings_view(b.seen_pks@) == rows_keys(
                old(self).pending(),
                old(self).key_index(),
            )),
    {
        if self.chunk.len() == 0 {
            assert(self.emitted@ =~= self.pushed@);
            return None;
        }
        let mut rows: Vec<Vec<Option<String>>> = Vec::new();
        let mut pks: Vec<String> = Vec::new();
        std::mem::swap(&mut rows, &mut self.chunk);
        std::mem::swap(&mut pks, &mut self.seen_pks);
        self.chunk_bytes = 0;
        proof {
            self.emitted@ = self.emitted@ + rows_view(rows@);
            assert(rows_view(self.chunk@) =~= Seq::<Seq<Option<Seq<char>>>>::empty());
            assert(strings_view(self.seen_pks@) =~= Seq::<Seq<char>>::empty());
            assert(self.emitted@ + rows_view(self.chunk@) =~= self.pushed@);
        }
        Some(InsertBatch { rows, seen_pks: pks })
    }
}

/// Every row pushed into a batcher is handed out exactly once, in order: once the batcher
/// holds no pending rows, the rows of all batches handed out are the rows pushed.
pub proof fn lemma_batches_cover_rows(b: &RowBatcher)
    requires
        b.wf(),
        b.pending().len() == 0,
    ensures
        b.emitted() == b.pushed(),
{
    assert(b.emitted() + b.pending() =~= b.emitted());
}

/// A batch is only held back while it is below its limits: no non-empty pending batch
/// of a batcher is full.
pub proof fn lemma_pending_below_limits(b: &RowBatcher)
    requires
        b.wf(),
        b.pending().len() > 0,
    ensures
        !b.full(b.pending()),
{
}

/// The definition used for the rows of `name`: the plan's definitions are looked up by
/// table name, a later definition of a name replacing an earlier one.
pub fn find_table_def(defs: &Vec<TableDef>, name: &str) -> (r: Option<usize>)
    ensures
        match r {
            Some(i) => i < defs@.len() && defs@[i as int].name@ == name@ && forall|j: int|
                i < j < defs@.len() ==> defs@[j].name@ != name@,
            None => forall|j: int| 0 <= j < defs@.len() ==> defs@[j].name@ != name@,
        },
{
    let target = name.to_string();
    let mut i: usize = defs.len();
    while i > 0
        invariant
            i <= defs@.len(),
            target@ == name@,
            forall|j: int| i <= j < defs@.len() ==> defs@[j].name@ != name@,
        decreases i,
    {
        i -= 1;
        if defs[i].name == target {
            return Some(i);
        }
    }
    None
}

/// What is kept of a dump statement in the raw statement table.
#[derive(Debug, Clone, Copy, PartialEq, Eq, Structural)]
pub enum RawStatementKind {
    /// An `INSERT INTO` statement, stored with its table name.
    InsertInto,
    /// Any other statement.
    Other,
}

/// Whether a statement is stored raw, and as what: with raw storage on, every INSERT is
/// stored, and other statements only when that is asked for too.
pub fn raw_statement_kind(raw_enabled: bool, store_other_statements: bool, is_insert: bool) -> (r:
    Option<RawStatementKind>)
    ensures
        r == (if !raw_enabled {
            None
        } else if is_insert {
            Some(RawStatementKind::InsertInto)
        } else if store_other_statements {
            Some(RawStatementKind::Other)
        } else {
            None
        }),
{
    if !raw_enabled {
        None
    } else if is_insert {
        Some(RawStatementKind::InsertInto)
    } else if store_other_statements {
        Some(RawStatementKind::Other)
    } else {
        None
    }
}

impl RawStatementKind {
    /// The kind as stored in the raw statement table.
    pub fn as_str(self) -> (r: &'static str)
        ensures
            r@ == (match self {
                RawStatementKind::InsertInto => "insert_into"@,
                RawStatementKind::Other => "other"@,
            }),
    {
        match self {
            RawStatementKind::InsertInto => "insert_into",
            RawStatementKind::Other => "other",
        }
    }
}

} // verus!
