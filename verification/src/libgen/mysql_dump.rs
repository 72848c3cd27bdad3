//! Reading MySQL dump files: splitting the byte stream into SQL statements and
//! parsing the `CREATE TABLE` and `INSERT INTO ... VALUES` statements it holds.
use crate::config::LibgenDumpKind;
use crate::db::join;
use crate::text::{
    ascii_upper, char_is_ascii_whitespace, char_is_whitespace, char_upper, find_char,
    find_char_from, find_seq, find_seq_from, find_upper_seq_from, is_ascii_ws, is_ws, lemma_find_char, lemma_find_seq,
    lemma_trim_start_len, lemma_ws_skip, skip_ws_from,
    spec_utf8_lossy, starts_with, starts_with_at, str_chars, utf8_lossy, string_from_chars, trim, trim_end, trim_end_to,
    trim_start, trim_str, upper_char, upper_starts_with_at, ws_skip,
};
use std::io::BufRead;
use vstd::prelude::*;
use vstd::string::{StrSliceExecFns, StringExecFns, StringSliceAdditionalSpecFns};

verus! {

broadcast use vstd::string::group_string_axioms;

/// A column of a `CREATE TABLE` statement: its name and its MySQL type token.
#[derive(Debug, Clone, PartialEq, Eq)]
pub struct ColumnDef {
    pub name: String,
    pub mysql_type: String,
}

impl View for ColumnDef {
    type V = (Seq<char>, Seq<char>);

    open spec fn view(&self) -> (Seq<char>, Seq<char>) {
        (self.name@, self.mysql_type@)
    }
}

/// A table of a `CREATE TABLE` statement.
#[derive(Debug, Clone, PartialEq, Eq)]
pub struct TableDef {
    pub name: String,
    pub columns: Vec<ColumnDef>,
}

impl View for TableDef {
    type V = (Seq<char>, Seq<(Seq<char>, Seq<char>)>);

    open spec fn view(&self) -> (Seq<char>, Seq<(Seq<char>, Seq<char>)>) {
        (self.name@, self.columns@.map_values(|c: ColumnDef| c@))
    }
}

/// `std::io::Error`, carried through unchanged.
#[verifier::external_type_specification]
#[verifier::external_body]
pub struct ExIoError(std::io::Error);

/// Errors while reading or parsing a dump.
#[derive(Debug)]
pub enum MySqlDumpError {
    StatementTooLarge { max_bytes: u64, current_bytes: u64, offset_end: u64, preview: String },
    Io(std::io::Error),
    Parse(String),
}

/// A value of an `INSERT INTO` row.
#[derive(Debug, Clone, PartialEq, Eq)]
pub enum SqlValue {
    Null,
    Text(String),
}

impl View for SqlValue {
    /// `None` for `NULL`, the text otherwise.
    type V = Option<Seq<char>>;

    open spec fn view(&self) -> Option<Seq<char>> {
        match self {
            SqlValue::Null => None,
            SqlValue::Text(s) => Some(s@),
        }
    }
}

/// The view of a parsed row.
pub open spec fn row_view(r: Vec<SqlValue>) -> Seq<Option<Seq<char>>> {
    r@.map_values(|v: SqlValue| v@)
}

/// An `INSERT INTO` statement: the table and its rows.
#[derive(Debug, Clone, PartialEq, Eq)]
pub struct InsertStatement {
    pub table: String,
    pub rows: Vec<Vec<SqlValue>>,
}

impl View for InsertStatement {
    type V = (Seq<char>, Seq<Seq<Option<Seq<char>>>>);

    open spec fn view(&self) -> (Seq<char>, Seq<Seq<Option<Seq<char>>>>) {
        (self.table@, self.rows@.map_values(|r: Vec<SqlValue>| row_view(r)))
    }
}

/// Why a statement could not be parsed.
#[derive(Debug, Clone, Copy, PartialEq, Eq, Structural)]
pub enum ParseFailure {
    CreateTableName,
    MissingOpenParen,
    MissingCloseParen,
    NoColumns,
    InsertTableName,
    InsertWithoutValues,
    ZeroRows,
    ExpectedOpenParen,
    UnterminatedRow,
    UnexpectedToken,
    UnexpectedEnd,
    DanglingEscape,
    UnterminatedString,
}

/// The message carried by `MySqlDumpError::Parse` for each failure.
pub open spec fn failure_text(f: ParseFailure) -> Seq<char> {
    match f {
        ParseFailure::CreateTableName => "failed to parse CREATE TABLE name"@,
        ParseFailure::MissingOpenParen => "missing '('"@,
        ParseFailure::MissingCloseParen => "missing ')'"@,
        ParseFailure::NoColumns => "no columns parsed from CREATE TABLE"@,
        ParseFailure::InsertTableName => "failed to parse INSERT INTO table name"@,
        ParseFailure::InsertWithoutValues => "INSERT INTO without VALUES is not supported"@,
        ParseFailure::ZeroRows => "INSERT INTO parsed but yielded zero rows"@,
        ParseFailure::ExpectedOpenParen => "expected '('"@,
        ParseFailure::UnterminatedRow => "unterminated row"@,
        ParseFailure::UnexpectedToken => "unexpected token in row"@,
        ParseFailure::UnexpectedEnd => "unexpected end"@,
        ParseFailure::DanglingEscape => "dangling escape"@,
        ParseFailure::UnterminatedString => "unterminated string"@,
    }
}

/// The error value for a parse failure.
pub fn parse_error(f: ParseFailure) -> (e: MySqlDumpError)
    ensures
        e matches MySqlDumpError::Parse(m) && m@ == failure_text(f),
{
    let m = match f {
        ParseFailure::CreateTableName => "failed to parse CREATE TABLE name".to_string(),
        ParseFailure::MissingOpenParen => "missing '('".to_string(),
        ParseFailure::MissingCloseParen => "missing ')'".to_string(),
        ParseFailure::NoColumns => "no columns parsed from CREATE TABLE".to_string(),
        ParseFailure::InsertTableName => "failed to parse INSERT INTO table name".to_string(),
        ParseFailure::InsertWithoutValues => "INSERT INTO without VALUES is not supported".to_string(),
        ParseFailure::ZeroRows => "INSERT INTO parsed but yielded zero rows".to_string(),
        ParseFailure::ExpectedOpenParen => "expected '('".to_string(),
        ParseFailure::UnterminatedRow => "unterminated row".to_string(),
        ParseFailure::UnexpectedToken => "unexpected token in row".to_string(),
        ParseFailure::UnexpectedEnd => "unexpected end".to_string(),
        ParseFailure::DanglingEscape => "dangling escape".to_string(),
        ParseFailure::UnterminatedString => "unterminated string".to_string(),
    };
    MySqlDumpError::Parse(m)
}

// ---------------------------------------------------------------------------
// Specification of statement parsing
// ---------------------------------------------------------------------------

pub open spec fn kw_insert_into() -> Seq<char> {
    seq!['I', 'N', 'S', 'E', 'R', 'T', ' ', 'I', 'N', 'T', 'O']
}

pub open spec fn kw_create_table() -> Seq<char> {
    seq!['C', 'R', 'E', 'A', 'T', 'E', ' ', 'T', 'A', 'B', 'L', 'E']
}

pub open spec fn kw_if_not_exists() -> Seq<char> {
    seq!['I', 'F', ' ', 'N', 'O', 'T', ' ', 'E', 'X', 'I', 'S', 'T', 'S']
}

pub open spec fn kw_values() -> Seq<char> {
    seq!['V', 'A', 'L', 'U', 'E', 'S']
}

pub open spec fn kw_null() -> Seq<char> {
    seq!['N', 'U', 'L', 'L']
}

pub open spec fn kw_backslash_n() -> Seq<char> {
    seq!['\\', 'N']
}

pub open spec fn kw_line_comment() -> Seq<char> {
    seq!['-', '-']
}

pub open spec fn kw_block_open() -> Seq<char> {
    seq!['/', '*']
}

pub open spec fn kw_block_close() -> Seq<char> {
    seq!['*', '/']
}

/// The prefixes (after ASCII uppercasing) of `CREATE TABLE` items that are not columns.
pub open spec fn is_key_item(up: Seq<char>) -> bool {
    ||| starts_with(up, seq!['P', 'R', 'I', 'M', 'A', 'R', 'Y', ' ', 'K', 'E', 'Y'])
    ||| starts_with(up, seq!['U', 'N', 'I', 'Q', 'U', 'E', ' ', 'K', 'E', 'Y'])
    ||| starts_with(up, seq!['K', 'E', 'Y', ' '])
    ||| starts_with(up, seq!['C', 'O', 'N', 'S', 'T', 'R', 'A', 'I', 'N', 'T'])
    ||| starts_with(up, seq!['F', 'U', 'L', 'L', 'T', 'E', 'X', 'T', ' ', 'K', 'E', 'Y'])
}

/// Leading whitespace and `--` line comments / `/* */` block comments removed.
pub open spec fn strip_comments(s: Seq<char>) -> Seq<char>
    decreases s.len(),
{
    let t = trim_start(s);
    if starts_with(t, kw_line_comment()) && find_char(t, '\n') is Some {
        proof {
            lemma_trim_start_len(s);
            lemma_find_char(t, '\n');
        }
        strip_comments(t.skip(find_char(t, '\n')->0 + 1))
    } else if starts_with(t, kw_block_open()) && find_seq(t, kw_block_close()) is Some {
        proof {
            lemma_trim_start_len(s);
            lemma_find_seq(t, kw_block_close());
        }
        strip_comments(t.skip(find_seq(t, kw_block_close())->0 + 2))
    } else {
        t
    }
}

/// A statement with comments stripped and surrounding whitespace trimmed.
pub open spec fn statement_body(stmt: Seq<char>) -> Seq<char> {
    trim(strip_comments(stmt))
}

/// End of the identifier that starts at `i`: the first whitespace or `(`.
pub open spec fn ident_end(s: Seq<char>, i: int) -> int
    decreases s.len() - i,
{
    if 0 <= i < s.len() && !is_ws(s[i]) && s[i] != '(' {
        ident_end(s, i + 1)
    } else {
        i
    }
}

/// End of the whitespace-free word that starts at `i`.
pub open spec fn word_end(s: Seq<char>, i: int) -> int
    decreases s.len() - i,
{
    if 0 <= i < s.len() && !is_ws(s[i]) {
        word_end(s, i + 1)
    } else {
        i
    }
}

/// An identifier (backquoted, or up to whitespace or `(`) after optional whitespace at `i`:
/// its name and the index just after it.
pub open spec fn identifier_at(s: Seq<char>, i: int) -> Option<(Seq<char>, int)> {
    let t = ws_skip(s, i);
    if t < s.len() && s[t] == '`' {
        match find_char(s.skip(t + 1), '`') {
            Some(e) => Some((s.subrange(t + 1, t + 1 + e), t + 2 + e)),
            None => None,
        }
    } else {
        let end = ident_end(s, t);
        if end == t {
            None
        } else {
            Some((s.subrange(t, end), end))
        }
    }
}

/// The index of the `)` that closes the first `(` met when scanning `s` from `k`
/// with nesting depth `depth`, skipping single-quoted text (with backslash escapes).
pub open spec fn paren_match(s: Seq<char>, k: int, depth: int, q: bool, bs: bool) -> Option<int>
    decreases s.len() - k,
{
    if k < 0 || k >= s.len() {
        None
    } else if q {
        if bs {
            paren_match(s, k + 1, depth, true, false)
        } else if s[k] == '\\' {
            paren_match(s, k + 1, depth, true, true)
        } else if s[k] == '\'' {
            paren_match(s, k + 1, depth, false, false)
        } else {
            paren_match(s, k + 1, depth, true, false)
        }
    } else if s[k] == '\'' {
        paren_match(s, k + 1, depth, true, false)
    } else if s[k] == '(' {
        paren_match(s, k + 1, depth + 1, false, false)
    } else if s[k] == ')' {
        if depth - 1 == 0 {
            Some(k)
        } else {
            paren_match(s, k + 1, depth - 1, false, false)
        }
    } else {
        paren_match(s, k + 1, depth, false, false)
    }
}

/// The state of the comma splitter: finished parts, current part, paren depth,
/// inside single quotes, previous character was a backslash inside quotes.
pub struct SplitState {
    pub parts: Seq<Seq<char>>,
    pub cur: Seq<char>,
    pub depth: int,
    pub q: bool,
    pub bs: bool,
}

/// One character of the comma splitter.
pub open spec fn split_step(st: SplitState, ch: char) -> SplitState {
    if st.q {
        if st.bs {
            SplitState { cur: st.cur.push(ch), bs: false, ..st }
        } else if ch == '\\' {
            SplitState { cur: st.cur.push(ch), bs: true, ..st }
        } else if ch == '\'' {
            SplitState { cur: st.cur.push(ch), q: false, ..st }
        } else {
            SplitState { cur: st.cur.push(ch), ..st }
        }
    } else if ch == '\'' {
        SplitState { cur: st.cur.push(ch), q: true, ..st }
    } else if ch == '(' {
        SplitState { cur: st.cur.push(ch), depth: st.depth + 1, ..st }
    } else if ch == ')' {
        SplitState { cur: st.cur.push(ch), depth: st.depth - 1, ..st }
    } else if ch == ',' && st.depth == 0 {
        SplitState { parts: st.parts.push(st.cur), cur: Seq::empty(), ..st }
    } else {
        SplitState { cur: st.cur.push(ch), ..st }
    }
}

/// The splitter state after the first `n` characters of `s`.
pub open spec fn split_state(s: Seq<char>, n: int) -> SplitState
    decreases n,
{
    if n <= 0 {
        SplitState { parts: Seq::empty(), cur: Seq::empty(), depth: 0, q: false, bs: false }
    } else {
        split_step(split_state(s, n - 1), s[n - 1])
    }
}

/// `s` split at commas that are outside parentheses and quotes; a last part that is
/// only whitespace is dropped.
pub open spec fn split_commas(s: Seq<char>) -> Seq<Seq<char>> {
    let st = split_state(s, s.len() as int);
    if trim(st.cur).len() != 0 {
        st.parts.push(st.cur)
    } else {
        st.parts
    }
}

/// The column an item of a `CREATE TABLE` body defines, if any.
pub open spec fn column_of(part: Seq<char>) -> Option<(Seq<char>, Seq<char>)> {
    let item = trim(part);
    if item.len() == 0 || is_key_item(ascii_upper(item)) {
        None
    } else {
        match identifier_at(item, 0) {
            None => None,
            Some((name, e)) => {
                let t = ws_skip(item, e);
                let ty = item.subrange(t, word_end(item, t));
                if ty.len() == 0 {
                    None
                } else {
                    Some((name, ty))
                }
            },
        }
    }
}

/// The columns of the first `n` parts.
pub open spec fn columns_of_parts(parts: Seq<Seq<char>>, n: int) -> Seq<(Seq<char>, Seq<char>)>
    decreases n,
{
    if n <= 0 {
        Seq::empty()
    } else {
        let prev = columns_of_parts(parts, n - 1);
        match column_of(parts[n - 1]) {
            Some(c) => prev.push(c),
            None => prev,
        }
    }
}

/// The columns of the first `n` parts do not depend on the parts after them.
proof fn lemma_columns_of_parts_prefix(parts: Seq<Seq<char>>, item: Seq<char>, n: int)
    requires
        0 <= n <= parts.len(),
    ensures
        columns_of_parts(parts.push(item), n) == columns_of_parts(parts, n),
    decreases n,
{
    if n > 0 {
        assert(parts.push(item)[n - 1] == parts[n - 1]);
        lemma_columns_of_parts_prefix(parts, item, n - 1);
    }
}

/// Index and constraint items of a `CREATE TABLE` body (`PRIMARY KEY`, `UNIQUE KEY`,
/// `KEY`, `CONSTRAINT`, `FULLTEXT KEY`, in any ASCII case) define no column: adding one to
/// the items leaves the columns as they were.
pub proof fn lemma_index_items_add_no_column(parts: Seq<Seq<char>>, item: Seq<char>)
    requires
        ({
            let up = ascii_upper(trim(item));
            ||| starts_with(up, "PRIMARY KEY"@)
            ||| starts_with(up, "UNIQUE KEY"@)
            ||| starts_with(up, "KEY "@)
            ||| starts_with(up, "CONSTRAINT"@)
            ||| starts_with(up, "FULLTEXT KEY"@)
        }),
    ensures
        columns_of_parts(parts.push(item), parts.len() + 1int) == columns_of_parts(
            parts,
            parts.len() as int,
        ),
{
    reveal_strlit("PRIMARY KEY");
    reveal_strlit("UNIQUE KEY");
    reveal_strlit("KEY ");
    reveal_strlit("CONSTRAINT");
    reveal_strlit("FULLTEXT KEY");
    assert("PRIMARY KEY"@ =~= seq!['P', 'R', 'I', 'M', 'A', 'R', 'Y', ' ', 'K', 'E', 'Y']);
    assert("UNIQUE KEY"@ =~= seq!['U', 'N', 'I', 'Q', 'U', 'E', ' ', 'K', 'E', 'Y']);
    assert("KEY "@ =~= seq!['K', 'E', 'Y', ' ']);
    assert("CONSTRAINT"@ =~= seq!['C', 'O', 'N', 'S', 'T', 'R', 'A', 'I', 'N', 'T']);
    assert("FULLTEXT KEY"@ =~= seq!['F', 'U', 'L', 'L', 'T', 'E', 'X', 'T', ' ', 'K', 'E', 'Y']);
    let up = ascii_upper(trim(item));
    assert(up.len() == trim(item).len());
    assert(trim(item).len() != 0);
    assert(is_key_item(up));
    assert(column_of(item) is None);
    assert(parts.push(item)[parts.len() as int] == item);
    lemma_columns_of_parts_prefix(parts, item, parts.len() as int);
}

/// The columns of a `CREATE TABLE` body `s`: the items between the first `(` and the
/// `)` that closes it.
pub open spec fn table_columns(s: Seq<char>) -> Result<Seq<(Seq<char>, Seq<char>)>, ParseFailure> {
    match find_char(s, '(') {
        None => Err(ParseFailure::MissingOpenParen),
        Some(c0) => match paren_match(s, c0, 0, false, false) {
            None => Err(ParseFailure::MissingCloseParen),
            Some(m) => {
                let parts = split_commas(s.subrange(c0 + 1, m));
                let cols = columns_of_parts(parts, parts.len() as int);
                if cols.len() == 0 {
                    Err(ParseFailure::NoColumns)
                } else {
                    Ok(cols)
                }
            },
        },
    }
}

/// The table name of a `CREATE TABLE [IF NOT EXISTS] name` statement body.
pub open spec fn create_table_name(s: Seq<char>) -> Option<Seq<char>> {
    let r0 = ws_skip(s, 0);
    if !starts_with(s.skip(r0), kw_create_table()) {
        None
    } else {
        let r = ws_skip(s, r0 + 12);
        let r2 = if starts_with(ascii_upper(s.skip(r)), kw_if_not_exists()) {
            ws_skip(s, r + 13)
        } else {
            r
        };
        match identifier_at(s, r2) {
            Some((name, _)) => Some(name),
            None => None,
        }
    }
}

/// The first `c` of `n + [c] + rest` is the one after `n` when `n` holds none.
proof fn lemma_find_char_after(n: Seq<char>, c: char, rest: Seq<char>)
    requires
        forall|j: int| 0 <= j < n.len() ==> n[j] != c,
    ensures
        find_char(n + seq![c] + rest, c) == Some(n.len() as int),
    decreases n.len(),
{
    let x = n + seq![c] + rest;
    if n.len() == 0 {
        assert(x[0] == c);
    } else {
        assert(x[0] == n[0]);
        assert(x.drop_first() =~= n.drop_first() + seq![c] + rest);
        lemma_find_char_after(n.drop_first(), c, rest);
    }
}

/// The name of a `CREATE TABLE` statement is its backquoted identifier, whether or not
/// `IF NOT EXISTS` stands before it: the optional words never become the name.
pub proof fn lemma_create_table_name_skips_if_not_exists(n: Seq<char>, rest: Seq<char>)
    requires
        forall|j: int| 0 <= j < n.len() ==> n[j] != '`',
    ensures
        create_table_name("CREATE TABLE IF NOT EXISTS `"@ + n + "`"@ + rest) == Some(n),
        create_table_name("CREATE TABLE `"@ + n + "`"@ + rest) == Some(n),
        create_table_name("CREATE TABLE if not exists `"@ + n + "`"@ + rest) == Some(n),
{
    reveal_strlit("CREATE TABLE IF NOT EXISTS `");
    reveal_strlit("CREATE TABLE `");
    reveal_strlit("`");
    lemma_find_char_after(n, '`', rest);
    let s = "CREATE TABLE IF NOT EXISTS `"@ + n + "`"@ + rest;
    assert(s[0] == 'C');
    assert(ws_skip(s, 0) == 0);
    assert(s.skip(0).take(12) =~= kw_create_table());
    assert(s[12] == ' ' && s[13] == 'I');
    assert(ws_skip(s, 13) == 13);
    assert(ws_skip(s, 12) == 13);
    assert(ascii_upper(s.skip(13)).take(13) =~= kw_if_not_exists());
    assert(s[26] == ' ' && s[27] == '`');
    assert(ws_skip(s, 27) == 27);
    assert(ws_skip(s, 26) == 27);
    assert(s.skip(28) =~= n + seq!['`'] + rest);
    assert(s.subrange(28, 28 + n.len() as int) =~= n);
    let u = "CREATE TABLE `"@ + n + "`"@ + rest;
    assert(u[0] == 'C');
    assert(ws_skip(u, 0) == 0);
    assert(u.skip(0).take(12) =~= kw_create_table());
    assert(u[12] == ' ' && u[13] == '`');
    assert(ws_skip(u, 13) == 13);
    assert(ws_skip(u, 12) == 13);
    assert(ascii_upper(u.skip(13))[0] == '`');
    assert(!starts_with(ascii_upper(u.skip(13)), kw_if_not_exists()));
    assert(u.skip(14) =~= n + seq!['`'] + rest);
    assert(u.subrange(14, 14 + n.len() as int) =~= n);
    reveal_strlit("CREATE TABLE if not exists `");
    let w = "CREATE TABLE if not exists `"@ + n + "`"@ + rest;
    assert(w[0] == 'C');
    assert(ws_skip(w, 0) == 0);
    assert(w.skip(0).take(12) =~= kw_create_table());
    assert(w[12] == ' ' && w[13] == 'i');
    assert(ws_skip(w, 13) == 13);
    assert(ws_skip(w, 12) == 13);
    assert(ascii_upper(w.skip(13)).take(13) =~= kw_if_not_exists());
    assert(w[26] == ' ' && w[27] == '`');
    assert(ws_skip(w, 27) == 27);
    assert(ws_skip(w, 26) == 27);
    assert(w.skip(28) =~= n + seq!['`'] + rest);
    assert(w.subrange(28, 28 + n.len() as int) =~= n);
}

/// `parse_create_table`: `None` for statements that are not `CREATE TABLE`.
pub open spec fn spec_parse_create_table(stmt: Seq<char>) -> Result<
    Option<(Seq<char>, Seq<(Seq<char>, Seq<char>)>)>,
    ParseFailure,
> {
    let s = statement_body(stmt);
    if s.len() == 0 || !starts_with(ascii_upper(s), kw_create_table()) {
        Ok(None)
    } else {
        match create_table_name(s) {
            None => Err(ParseFailure::CreateTableName),
            Some(name) => match table_columns(s) {
                Err(f) => Err(f),
                Ok(cols) => Ok(Some((name, cols))),
            },
        }
    }
}

/// End of an unquoted token starting at `i`: the first `,`, `)` or ASCII whitespace.
pub open spec fn token_end(s: Seq<char>, i: int) -> int
    decreases s.len() - i,
{
    if 0 <= i < s.len() && s[i] != ',' && s[i] != ')' && !is_ascii_ws(s[i]) {
        token_end(s, i + 1)
    } else {
        i
    }
}

/// First index at or after `i` that is not ASCII whitespace.
pub open spec fn ascii_ws_skip(s: Seq<char>, i: int) -> int
    decreases s.len() - i,
{
    if 0 <= i < s.len() && is_ascii_ws(s[i]) {
        ascii_ws_skip(s, i + 1)
    } else {
        i
    }
}

/// The character a backslash escape stands for.
pub open spec fn unescape(c: char) -> char {
    if c == '0' {
        '\0'
    } else if c == 'b' {
        '\x08'
    } else if c == 'n' {
        '\n'
    } else if c == 'r' {
        '\r'
    } else if c == 't' {
        '\t'
    } else if c == 'Z' {
        '\x1a'
    } else {
        c
    }
}

/// The rest of a single-quoted string from `i` (just after the opening quote), with the
/// text read so far in `acc`: the text and the index just after the closing quote.
pub open spec fn quoted_text(s: Seq<char>, i: int, acc: Seq<char>) -> Result<
    (Seq<char>, int),
    ParseFailure,
>
    decreases s.len() - i,
{
    if i < 0 || i >= s.len() {
        Err(ParseFailure::UnterminatedString)
    } else if s[i] == '\\' {
        if i + 1 >= s.len() {
            Err(ParseFailure::DanglingEscape)
        } else {
            quoted_text(s, i + 2, acc.push(unescape(s[i + 1])))
        }
    } else if s[i] == '\'' {
        if i + 1 < s.len() && s[i + 1] == '\'' {
            quoted_text(s, i + 2, acc.push('\''))
        } else {
            Ok((acc, i + 1))
        }
    } else {
        quoted_text(s, i + 1, acc.push(s[i]))
    }
}

/// A value of a row starting at `i`: `None` for `NULL`/`\N`, and the index after it.
pub open spec fn value_at(s: Seq<char>, i: int) -> Result<(Option<Seq<char>>, int), ParseFailure> {
    if i < 0 || i >= s.len() {
        Err(ParseFailure::UnexpectedEnd)
    } else if s[i] == '\'' {
        match quoted_text(s, i + 1, Seq::empty()) {
            Ok((t, e)) => Ok((Some(t), e)),
            Err(f) => Err(f),
        }
    } else if s[i] == '\\' && starts_with(s.skip(i), kw_backslash_n()) {
        Ok((None, i + 2))
    } else if (s[i] == 'N' || s[i] == 'n') && starts_with(ascii_upper(s.skip(i)), kw_null()) {
        Ok((None, i + 4))
    } else {
        Ok((Some(s.subrange(i, token_end(s, i))), token_end(s, i)))
    }
}

/// How `c` is written inside a single-quoted MySQL string by an escaping writer: the
/// control characters NUL, backspace, newline, carriage return, tab and Ctrl-Z as
/// `\0`, `\b`, `\n`, `\r`, `\t`, `\Z`, a backslash and a quote behind a backslash, and
/// any other character as itself.
pub open spec fn mysql_escape_char(c: char) -> Seq<char> {
    if c == '\u{0}' {
        seq!['\\', '0']
    } else if c == '\u{8}' {
        seq!['\\', 'b']
    } else if c == '\u{a}' {
        seq!['\\', 'n']
    } else if c == '\u{d}' {
        seq!['\\', 'r']
    } else if c == '\u{9}' {
        seq!['\\', 't']
    } else if c == '\u{1a}' {
        seq!['\\', 'Z']
    } else if c == '\\' {
        seq!['\\', '\\']
    } else if c == '\'' {
        seq!['\\', '\'']
    } else {
        seq![c]
    }
}

/// The text `t` written with every character escaped as `mysql_escape_char` does.
pub open spec fn mysql_escape(t: Seq<char>) -> Seq<char>
    decreases t.len(),
{
    if t.len() == 0 {
        Seq::empty()
    } else {
        mysql_escape_char(t[0]) + mysql_escape(t.drop_first())
    }
}

proof fn lemma_quoted_text_reads_escaped(s: Seq<char>, i: int, t: Seq<char>, acc: Seq<char>)
    requires
        0 <= i,
        i + mysql_escape(t).len() < s.len(),
        s.subrange(i, i + mysql_escape(t).len()) == mysql_escape(t),
        s[i + mysql_escape(t).len()] == '\'',
        i + mysql_escape(t).len() + 1 < s.len() ==> s[i + mysql_escape(t).len() + 1] != '\'',
    ensures
        quoted_text(s, i, acc) == Ok::<_, ParseFailure>((acc + t, i + mysql_escape(t).len() + 1int)),
    decreases t.len(),
{
    let e = mysql_escape(t);
    if t.len() == 0 {
        assert(acc + t =~= acc);
    } else {
        let c = t[0];
        let h = mysql_escape_char(c);
        let rest = mysql_escape(t.drop_first());
        assert(e == h + rest);
        assert(s.subrange(i + h.len(), i + h.len() + rest.len()) =~= e.subrange(
            h.len() as int,
            e.len() as int,
        ));
        assert(e.subrange(h.len() as int, e.len() as int) =~= rest);
        assert(acc.push(c) + t.drop_first() =~= acc + t);
        assert(s[i] == e[0]);
        if h.len() == 2 {
            assert(s[i + 1] == e[1]);
            lemma_quoted_text_reads_escaped(s, i + 2, t.drop_first(), acc.push(c));
        } else {
            lemma_quoted_text_reads_escaped(s, i + 1, t.drop_first(), acc.push(c));
        }
    }
}

/// Every text survives being written as an escaped MySQL string and read back: each
/// backslash escape decodes to the character it was written for (`\r` to a carriage
/// return, `\n` to a newline, `\0` to NUL, `\b` to backspace, `\t` to a tab, `\Z` to
/// Ctrl-Z, `\\` and `\'` to the backslash and the quote).
pub proof fn lemma_escaped_value_reads_back(pre: Seq<char>, t: Seq<char>, rest: Seq<char>)
    requires
        rest.len() > 0 ==> rest[0] != '\'',
    ensures
        value_at(pre + seq!['\''] + mysql_escape(t) + seq!['\''] + rest, pre.len() as int) == Ok::<
            _,
            ParseFailure,
        >((Some(t), pre.len() + mysql_escape(t).len() + 2int)),
{
    let s = pre + seq!['\''] + mysql_escape(t) + seq!['\''] + rest;
    let i: int = pre.len() as int + 1;
    let n: int = mysql_escape(t).len() as int;
    assert(s[pre.len() as int] == '\'');
    assert(s.subrange(i, i + n) =~= mysql_escape(t));
    assert(s[i + n] == '\'');
    if i + n + 1 < s.len() {
        assert(s[i + n + 1] == rest[0]);
    }
    lemma_quoted_text_reads_escaped(s, i, t, Seq::empty());
    assert(Seq::<char>::empty() + t =~= t);
}

/// A backslash before any character other than `0`, `b`, `n`, `r`, `t` and `Z` stands for
/// that character itself: `\\c` in a quoted value reads as `c`.
pub proof fn lemma_other_escapes_read_as_themselves(pre: Seq<char>, c: char, rest: Seq<char>)
    requires
        c != '0' && c != 'b' && c != 'n' && c != 'r' && c != 't' && c != 'Z',
        rest.len() > 0 ==> rest[0] != '\'',
    ensures
        value_at(pre + seq!['\'', '\\', c, '\''] + rest, pre.len() as int) == Ok::<
            _,
            ParseFailure,
        >((Some(seq![c]), pre.len() + 4int)),
{
    let s = pre + seq!['\'', '\\', c, '\''] + rest;
    let i: int = pre.len() as int;
    assert(s[i] == '\'' && s[i + 1] == '\\' && s[i + 2] == c && s[i + 3] == '\'');
    if i + 4 < s.len() {
        assert(s[i + 4] == rest[0]);
    }
    assert(Seq::<char>::empty().push(c) =~= seq![c]);
    assert(unescape(c) == c);
    assert(quoted_text(s, i + 3, seq![c]) == Ok::<_, ParseFailure>((seq![c], i + 4)));
    assert(quoted_text(s, i + 1, Seq::empty()) == Ok::<_, ParseFailure>((seq![c], i + 4)));
}

/// The values of a row from `i` (after its `(`), with the values read so far in `acc`:
/// the values and the index just after the closing `)`.
pub open spec fn row_values(s: Seq<char>, i: int, acc: Seq<Option<Seq<char>>>) -> Result<
    (Seq<Option<Seq<char>>>, int),
    ParseFailure,
>
    decreases s.len() - i,
{
    let j = ascii_ws_skip(s, i);
    if i < 0 || j >= s.len() {
        Err(ParseFailure::UnterminatedRow)
    } else if s[j] == ')' {
        Ok((acc, j + 1))
    } else {
        match value_at(s, j) {
            Err(f) => Err(f),
            Ok((v, next)) => {
                let k = ascii_ws_skip(s, next);
                if k >= s.len() {
                    Err(ParseFailure::UnterminatedRow)
                } else if s[k] == ',' {
                    proof {
                        lemma_ascii_ws_skip(s, i);
                        lemma_value_at_advances(s, j);
                        lemma_ascii_ws_skip(s, next);
                    }
                    row_values(s, k + 1, acc.push(v))
                } else if s[k] == ')' {
                    Ok((acc.push(v), k + 1))
                } else {
                    Err(ParseFailure::UnexpectedToken)
                }
            },
        }
    }
}

/// A parenthesised row after optional whitespace at `i`: its values and the index after it.
pub open spec fn row_at(s: Seq<char>, i: int) -> Result<(Seq<Option<Seq<char>>>, int), ParseFailure> {
    let t = ws_skip(s, i);
    if t < 0 || t >= s.len() || s[t] != '(' {
        Err(ParseFailure::ExpectedOpenParen)
    } else {
        row_values(s, t + 1, Seq::empty())
    }
}

/// The rows of a `VALUES` list from `i`, with the rows read so far in `acc`.
pub open spec fn rows_from(s: Seq<char>, i: int, acc: Seq<Seq<Option<Seq<char>>>>) -> Result<
    Seq<Seq<Option<Seq<char>>>>,
    ParseFailure,
>
    decreases s.len() - i,
{
    if i < 0 || i >= s.len() {
        Ok(acc)
    } else {
        let t = ws_skip(s, i);
        if t < s.len() && s[t] == ';' {
            Ok(acc)
        } else if t < s.len() && s[t] == ',' {
            proof {
                lemma_ws_skip(s, i);
                lemma_ws_skip(s, t + 1);
            }
            rows_from(s, ws_skip(s, t + 1), acc)
        } else if !(t < s.len() && s[t] == '(') {
            Ok(acc)
        } else {
            match row_at(s, t) {
                Err(f) => Err(f),
                Ok((row, e)) => {
                    let r = ws_skip(s, e);
                    if r < s.len() && s[r] == ';' {
                        Ok(acc.push(row))
                    } else {
                        proof {
                            lemma_ws_skip(s, i);
                            lemma_row_at_advances(s, t);
                            lemma_ws_skip(s, e);
                        }
                        rows_from(s, r, acc.push(row))
                    }
                },
            }
        }
    }
}

/// The table of an `INSERT INTO table ... VALUES` statement body and the index where the
/// value list starts; `None` for statements that are not `INSERT INTO`.
pub open spec fn insert_header(s: Seq<char>) -> Result<Option<(Seq<char>, int)>, ParseFailure> {
    if s.len() == 0 || !starts_with(ascii_upper(s), kw_insert_into()) {
        Ok(None)
    } else {
        let r = ws_skip(s, ws_skip(s, 0) + 11);
        match identifier_at(s, r) {
            None => Err(ParseFailure::InsertTableName),
            Some((table, after)) => match find_seq(ascii_upper(s.skip(after)), kw_values()) {
                None => Err(ParseFailure::InsertWithoutValues),
                Some(p) => Ok(Some((table, ws_skip(s, after + p + 6)))),
            },
        }
    }
}

/// `parse_insert_into_values_input`: the table and the text after `VALUES`.
pub open spec fn spec_values_input(stmt: Seq<char>) -> Result<
    Option<(Seq<char>, Seq<char>)>,
    ParseFailure,
> {
    let s = statement_body(stmt);
    match insert_header(s) {
        Err(f) => Err(f),
        Ok(None) => Ok(None),
        Ok(Some((table, v))) => Ok(Some((table, s.skip(v)))),
    }
}

/// The rows of the value list `v` of an `INSERT INTO`; no rows is a failure.
pub open spec fn insert_rows(v: Seq<char>) -> Result<Seq<Seq<Option<Seq<char>>>>, ParseFailure> {
    match rows_from(v, 0, Seq::empty()) {
        Err(f) => Err(f),
        Ok(rows) => if rows.len() == 0 {
            Err(ParseFailure::ZeroRows)
        } else {
            Ok(rows)
        },
    }
}

/// `parse_insert_into_for_each_row`: the statement's table and rows.
pub open spec fn spec_insert_rows(stmt: Seq<char>) -> Result<
    Option<(Seq<char>, Seq<Seq<Option<Seq<char>>>>)>,
    ParseFailure,
> {
    match spec_values_input(stmt) {
        Err(f) => Err(f),
        Ok(None) => Ok(None),
        Ok(Some((table, v))) => match insert_rows(v) {
            Err(f) => Err(f),
            Ok(rows) => Ok(Some((table, rows))),
        },
    }
}

/// The rows of the value list `s` from `i` on that parse before the first failure, after
/// `acc`: the rows a row-by-row reader has seen when it stops.
pub open spec fn rows_parsed(s: Seq<char>, i: int, acc: Seq<Seq<Option<Seq<char>>>>) -> Seq<
    Seq<Option<Seq<char>>>,
>
    decreases s.len() - i,
{
    if i < 0 || i >= s.len() {
        acc
    } else {
        let t = ws_skip(s, i);
        if t < s.len() && s[t] == ';' {
            acc
        } else if t < s.len() && s[t] == ',' {
            proof {
                lemma_ws_skip(s, i);
                lemma_ws_skip(s, t + 1);
            }
            rows_parsed(s, ws_skip(s, t + 1), acc)
        } else if !(t < s.len() && s[t] == '(') {
            acc
        } else {
            match row_at(s, t) {
                Err(_) => acc,
                Ok((row, e)) => {
                    let r = ws_skip(s, e);
                    if r < s.len() && s[r] == ';' {
                        acc.push(row)
                    } else {
                        proof {
                            lemma_ws_skip(s, i);
                            lemma_row_at_advances(s, t);
                            lemma_ws_skip(s, e);
                        }
                        rows_parsed(s, r, acc.push(row))
                    }
                },
            }
        }
    }
}

/// The rows of an `INSERT INTO` statement that parse before its first failure (all of
/// them when it parses).
pub open spec fn insert_rows_before_failure(stmt: Seq<char>) -> Seq<Seq<Option<Seq<char>>>> {
    match spec_values_input(stmt) {
        Ok(Some((_, v))) => rows_parsed(v, 0, Seq::empty()),
        _ => Seq::empty(),
    }
}

/// `on_row` can give `res` for a row whose view is `row`.
pub open spec fn row_call<F: FnMut(Vec<SqlValue>) -> Result<(), MySqlDumpError>>(
    on_row: F,
    row: Seq<Option<Seq<char>>>,
    res: Result<(), MySqlDumpError>,
) -> bool {
    exists|v: Vec<SqlValue>| row_view(v) == row && #[trigger] call_ensures(on_row, (v,), res)
}

/// `on_row` can succeed for a row whose view is `row`.
pub open spec fn row_accepted<F: FnMut(Vec<SqlValue>) -> Result<(), MySqlDumpError>>(
    on_row: F,
    row: Seq<Option<Seq<char>>>,
) -> bool {
    exists|res: Result<(), MySqlDumpError>| res is Ok && #[trigger] row_call(on_row, row, res)
}

/// `on_row` accepted each of the first `n` rows of `rows`, in order.
pub open spec fn rows_accepted<F: FnMut(Vec<SqlValue>) -> Result<(), MySqlDumpError>>(
    on_row: F,
    rows: Seq<Seq<Option<Seq<char>>>>,
    n: int,
) -> bool {
    forall|j: int| 0 <= j < n ==> #[trigger] row_accepted(on_row, rows[j])
}

/// The rows parsed from `i` on come after `acc`.
pub proof fn lemma_rows_parsed_prefix(s: Seq<char>, i: int, acc: Seq<Seq<Option<Seq<char>>>>)
    ensures
        acc.len() <= rows_parsed(s, i, acc).len(),
        rows_parsed(s, i, acc).take(acc.len() as int) == acc,
    decreases s.len() - i,
{
    if 0 <= i < s.len() {
        let t = ws_skip(s, i);
        lemma_ws_skip(s, i);
        if t < s.len() && s[t] == ';' {
        } else if t < s.len() && s[t] == ',' {
            lemma_ws_skip(s, t + 1);
            lemma_rows_parsed_prefix(s, ws_skip(s, t + 1), acc);
        } else if !(t < s.len() && s[t] == '(') {
        } else {
            match row_at(s, t) {
                Err(_) => {},
                Ok((row, e)) => {
                    let r = ws_skip(s, e);
                    if !(r < s.len() && s[r] == ';') {
                        lemma_row_at_advances(s, t);
                        lemma_ws_skip(s, e);
                        lemma_rows_parsed_prefix(s, r, acc.push(row));
                        assert(rows_parsed(s, r, acc.push(row)).take(acc.len() as int) =~= acc.push(
                            row,
                        ).take(acc.len() as int));
                    }
                    assert(acc.push(row).take(acc.len() as int) =~= acc);
                },
            }
        }
    }
    assert(acc.take(acc.len() as int) =~= acc);
}

/// The rows parsed by `rows_from` are those `rows_parsed` reports.
pub proof fn lemma_rows_parsed(s: Seq<char>, i: int, acc: Seq<Seq<Option<Seq<char>>>>)
    ensures
        rows_from(s, i, acc) matches Ok(x) ==> rows_parsed(s, i, acc) == x,
    decreases s.len() - i,
{
    if 0 <= i < s.len() {
        let t = ws_skip(s, i);
        lemma_ws_skip(s, i);
        if t < s.len() && s[t] == ';' {
        } else if t < s.len() && s[t] == ',' {
            lemma_ws_skip(s, t + 1);
            lemma_rows_parsed(s, ws_skip(s, t + 1), acc);
        } else if !(t < s.len() && s[t] == '(') {
        } else {
            match row_at(s, t) {
                Err(_) => {},
                Ok((row, e)) => {
                    let r = ws_skip(s, e);
                    if !(r < s.len() && s[r] == ';') {
                        lemma_row_at_advances(s, t);
                        lemma_ws_skip(s, e);
                        lemma_rows_parsed(s, r, acc.push(row));
                    }
                },
            }
        }
    }
}

/// `parse_insert_into`: the statement body is checked for `INSERT INTO` and then parsed
/// with `spec_insert_rows`.
pub open spec fn spec_parse_insert_into(stmt: Seq<char>) -> Result<
    Option<(Seq<char>, Seq<Seq<Option<Seq<char>>>>)>,
    ParseFailure,
> {
    let s = statement_body(stmt);
    if s.len() == 0 || !starts_with(ascii_upper(s), kw_insert_into()) {
        Ok(None)
    } else {
        spec_insert_rows(s)
    }
}

// ---------------------------------------------------------------------------
// Lemmas about the parsing specification
// ---------------------------------------------------------------------------

pub proof fn lemma_ascii_ws_skip(s: Seq<char>, i: int)
    requires
        0 <= i,
    ensures
        i <= ascii_ws_skip(s, i),
        i <= s.len() ==> ascii_ws_skip(s, i) <= s.len(),
    decreases s.len() - i,
{
    if 0 <= i < s.len() && is_ascii_ws(s[i]) {
        lemma_ascii_ws_skip(s, i + 1);
    }
}

pub proof fn lemma_token_end(s: Seq<char>, i: int)
    requires
        0 <= i <= s.len(),
    ensures
        i <= token_end(s, i) <= s.len(),
    decreases s.len() - i,
{
    if 0 <= i < s.len() && s[i] != ',' && s[i] != ')' && !is_ascii_ws(s[i]) {
        lemma_token_end(s, i + 1);
    }
}

pub proof fn lemma_quoted_text_advances(s: Seq<char>, i: int, acc: Seq<char>)
    requires
        0 <= i,
    ensures
        quoted_text(s, i, acc) matches Ok((_, e)) ==> i < e <= s.len(),
    decreases s.len() - i,
{
    if i < s.len() {
        if s[i] == '\\' {
            if i + 1 < s.len() {
                lemma_quoted_text_advances(s, i + 2, acc.push(unescape(s[i + 1])));
            }
        } else if s[i] == '\'' {
            if i + 1 < s.len() && s[i + 1] == '\'' {
                lemma_quoted_text_advances(s, i + 2, acc.push('\''));
            }
        } else {
            lemma_quoted_text_advances(s, i + 1, acc.push(s[i]));
        }
    }
}

pub proof fn lemma_value_at_advances(s: Seq<char>, i: int)
    requires
        0 <= i,
    ensures
        value_at(s, i) matches Ok((_, e)) ==> i <= e <= s.len(),
{
    if 0 <= i < s.len() {
        lemma_quoted_text_advances(s, i + 1, Seq::empty());
        lemma_token_end(s, i);
    }
}

pub proof fn lemma_row_values_advances(s: Seq<char>, i: int, acc: Seq<Option<Seq<char>>>)
    requires
        0 <= i,
    ensures
        row_values(s, i, acc) matches Ok((_, e)) ==> i < e <= s.len(),
    decreases s.len() - i,
{
    let j = ascii_ws_skip(s, i);
    lemma_ascii_ws_skip(s, i);
    if j < s.len() && s[j] != ')' {
        lemma_value_at_advances(s, j);
        if let Ok((v, next)) = value_at(s, j) {
            lemma_ascii_ws_skip(s, next);
            let k = ascii_ws_skip(s, next);
            if k < s.len() && s[k] == ',' {
                lemma_row_values_advances(s, k + 1, acc.push(v));
            }
        }
    }
}

pub proof fn lemma_row_at_advances(s: Seq<char>, i: int)
    requires
        0 <= i <= s.len(),
    ensures
        row_at(s, i) matches Ok((_, e)) ==> i < e <= s.len(),
{
    lemma_ws_skip(s, i);
    let t = ws_skip(s, i);
    if t < s.len() && s[t] == '(' {
        lemma_row_values_advances(s, t + 1, Seq::empty());
    }
}

// ---------------------------------------------------------------------------
// Executable parsing
// ---------------------------------------------------------------------------

fn kw(which: u8) -> (v: Vec<char>)
    ensures
        which == 0 ==> v@ == kw_insert_into(),
        which == 1 ==> v@ == kw_create_table(),
        which == 2 ==> v@ == kw_if_not_exists(),
        which == 3 ==> v@ == kw_values(),
        which == 4 ==> v@ == kw_null(),
        which == 5 ==> v@ == kw_backslash_n(),
        which == 6 ==> v@ == kw_line_comment(),
        which == 7 ==> v@ == kw_block_open(),
        which == 8 ==> v@ == kw_block_close(),
{
    let v = if which == 0 {
        vec!['I', 'N', 'S', 'E', 'R', 'T', ' ', 'I', 'N', 'T', 'O']
    } else if which == 1 {
        vec!['C', 'R', 'E', 'A', 'T', 'E', ' ', 'T', 'A', 'B', 'L', 'E']
    } else if which == 2 {
        vec!['I', 'F', ' ', 'N', 'O', 'T', ' ', 'E', 'X', 'I', 'S', 'T', 'S']
    } else if which == 3 {
        vec!['V', 'A', 'L', 'U', 'E', 'S']
    } else if which == 4 {
        vec!['N', 'U', 'L', 'L']
    } else if which == 5 {
        vec!['\\', 'N']
    } else if which == 6 {
        vec!['-', '-']
    } else if which == 7 {
        vec!['/', '*']
    } else {
        vec!['*', '/']
    };
    assert(which == 0 ==> v@ =~= kw_insert_into());
    assert(which == 1 ==> v@ =~= kw_create_table());
    assert(which == 2 ==> v@ =~= kw_if_not_exists());
    assert(which == 3 ==> v@ =~= kw_values());
    assert(which == 4 ==> v@ =~= kw_null());
    assert(which == 5 ==> v@ =~= kw_backslash_n());
    assert(which == 6 ==> v@ =~= kw_line_comment());
    assert(which == 7 ==> v@ =~= kw_block_open());
    assert(which == 8 ==> v@ =~= kw_block_close());
    v
}

/// First index at or after `idx` that is not ASCII whitespace.
fn skip_ws(s: &[char], idx: usize) -> (r: usize)
    requires
        idx <= s@.len(),
    ensures
        r == ascii_ws_skip(s@, idx as int),
        idx <= r <= s@.len(),
{
    let mut j = idx;
    while j < s.len() && char_is_ascii_whitespace(s[j])
        invariant
            idx <= j <= s@.len(),
            ascii_ws_skip(s@, j as int) == ascii_ws_skip(s@, idx as int),
        decreases s@.len() - j,
    {
        j += 1;
    }
    j
}

fn token_end_at(s: &[char], start: usize) -> (r: usize)
    requires
        start <= s@.len(),
    ensures
        r == token_end(s@, start as int),
        start <= r <= s@.len(),
{
    let mut end = start;
    while end < s.len() && s[end] != ',' && s[end] != ')' && !char_is_ascii_whitespace(s[end])
        invariant
            start <= end <= s@.len(),
            token_end(s@, end as int) == token_end(s@, start as int),
        decreases s@.len() - end,
    {
        end += 1;
    }
    end
}

fn ident_end_at(s: &[char], start: usize) -> (r: usize)
    requires
        start <= s@.len(),
    ensures
        r == ident_end(s@, start as int),
        start <= r <= s@.len(),
{
    let mut end = start;
    while end < s.len() && !char_is_whitespace(s[end]) && s[end] != '('
        invariant
            start <= end <= s@.len(),
            ident_end(s@, end as int) == ident_end(s@, start as int),
        decreases s@.len() - end,
    {
        end += 1;
    }
    end
}

fn word_end_at(s: &[char], start: usize) -> (r: usize)
    requires
        start <= s@.len(),
    ensures
        r == word_end(s@, start as int),
        start <= r <= s@.len(),
{
    let mut end = start;
    while end < s.len() && !char_is_whitespace(s[end])
        invariant
            start <= end <= s@.len(),
            word_end(s@, end as int) == word_end(s@, start as int),
        decreases s@.len() - end,
    {
        end += 1;
    }
    end
}

/// The unquoted token starting at `start`, up to `,`, `)` or ASCII whitespace.
fn read_token(s: &[char], start: usize) -> (r: (String, usize))
    requires
        start <= s@.len(),
    ensures
        r.1 == token_end(s@, start as int),
        r.0@ == s@.subrange(start as int, r.1 as int),
{
    let end = token_end_at(s, start);
    (string_from_chars(&s[start..end]), end)
}

fn unescape_char(c: char) -> (r: char)
    ensures
        r == unescape(c),
{
    if c == '0' {
        '\0'
    } else if c == 'b' {
        '\x08'
    } else if c == 'n' {
        '\n'
    } else if c == 'r' {
        '\r'
    } else if c == 't' {
        '\t'
    } else if c == 'Z' {
        '\x1a'
    } else {
        c
    }
}

/// A row value starting at `start`.
fn parse_value(s: &[char], start: usize) -> (r: Result<(SqlValue, usize), ParseFailure>)
    ensures
        match r {
            Ok((v, e)) => value_at(s@, start as int) == Ok::<_, ParseFailure>((v@, e as int)),
            Err(f) => value_at(s@, start as int) == Err::<(Option<Seq<char>>, int), _>(f),
        },
{
    if start >= s.len() {
        return Err(ParseFailure::UnexpectedEnd);
    }
    let c = s[start];
    if c == '\'' {
        let mut out: Vec<char> = Vec::new();
        let mut i = start + 1;
        while i < s.len()
            invariant
                start + 1 <= i <= s@.len(),
                start < s@.len(),
                s@[start as int] == '\'',
                quoted_text(s@, i as int, out@) == quoted_text(s@, start + 1, Seq::empty()),
            decreases s@.len() - i,
        {
            let b = s[i];
            if b == '\\' {
                if i + 1 >= s.len() {
                    return Err(ParseFailure::DanglingEscape);
                }
                let esc = s[i + 1];
                out.push(unescape_char(esc));
                i += 2;
            } else if b == '\'' {
                if i + 1 < s.len() && s[i + 1] == '\'' {
                    out.push('\'');
                    i += 2;
                } else {
                    let text = string_from_chars(out.as_slice());
                    return Ok((SqlValue::Text(text), i + 1));
                }
            } else {
                out.push(b);
                i += 1;
            }
        }
        return Err(ParseFailure::UnterminatedString);
    }
    if c == '\\' && starts_with_at(s, start, kw(5).as_slice()) {
        return Ok((SqlValue::Null, start + 2));
    }
    if (c == 'N' || c == 'n') && upper_starts_with_at(s, start, kw(4).as_slice()) {
        return Ok((SqlValue::Null, start + 4));
    }
    let (tok, end) = read_token(s, start);
    Ok((SqlValue::Text(tok), end))
}

/// The views of the rows read so far.
pub open spec fn rows_view(rows: Seq<Vec<SqlValue>>) -> Seq<Seq<Option<Seq<char>>>> {
    rows.map_values(|r: Vec<SqlValue>| row_view(r))
}

/// A parenthesised row after optional whitespace at `i`: its values and the index after it.
pub fn parse_row(s: &[char], i: usize) -> (r: Result<(Vec<SqlValue>, usize), ParseFailure>)
    requires
        i <= s@.len(),
    ensures
        match r {
            Ok((vals, e)) => row_at(s@, i as int) == Ok::<_, ParseFailure>(
                (row_view(vals), e as int),
            ),
            Err(f) => row_at(s@, i as int) == Err::<(Seq<Option<Seq<char>>>, int), _>(f),
        },
{
    let t = skip_ws_from(s, i);
    if t >= s.len() || s[t] != '(' {
        return Err(ParseFailure::ExpectedOpenParen);
    }
    let mut idx = t + 1;
    let mut values: Vec<SqlValue> = Vec::new();
    assert(row_view(values) =~= Seq::empty());
    loop
        invariant
            t + 1 <= idx <= s@.len(),
            row_at(s@, i as int) == row_values(s@, t + 1, Seq::empty()),
            row_values(s@, idx as int, row_view(values)) == row_values(s@, t + 1, Seq::empty()),
        decreases s@.len() - idx,
    {
        let j = skip_ws(s, idx);
        if j >= s.len() {
            return Err(ParseFailure::UnterminatedRow);
        }
        if s[j] == ')' {
            return Ok((values, j + 1));
        }
        let (val, next) = match parse_value(s, j) {
            Ok(x) => x,
            Err(f) => {
                return Err(f);
            },
        };
        proof {
            lemma_value_at_advances(s@, j as int);
        }
        let k = skip_ws(s, next);
        if k >= s.len() {
            return Err(ParseFailure::UnterminatedRow);
        }
        let ghost old_view = row_view(values);
        if s[k] == ',' {
            values.push(val);
            assert(row_view(values) =~= old_view.push(val@));
            idx = k + 1;
        } else if s[k] == ')' {
            values.push(val);
            assert(row_view(values) =~= old_view.push(val@));
            return Ok((values, k + 1));
        } else {
            return Err(ParseFailure::UnexpectedToken);
        }
    }
}

/// The rows of a value list starting at `i`.
fn parse_rows(s: &[char], i: usize) -> (r: Result<Vec<Vec<SqlValue>>, ParseFailure>)
    requires
        i <= s@.len(),
    ensures
        match r {
            Ok(rows) => rows_from(s@, i as int, Seq::empty()) == Ok::<_, ParseFailure>(
                rows_view(rows@),
            ),
            Err(f) => rows_from(s@, i as int, Seq::empty()) == Err::<
                Seq<Seq<Option<Seq<char>>>>,
                _,
            >(f),
        },
{
    let mut rows: Vec<Vec<SqlValue>> = Vec::new();
    let mut idx = i;
    assert(rows_view(rows@) =~= Seq::empty());
    loop
        invariant
            idx <= s@.len(),
            rows_from(s@, idx as int, rows_view(rows@)) == rows_from(s@, i as int, Seq::empty()),
        decreases s@.len() - idx,
    {
        if idx >= s.len() {
            return Ok(rows);
        }
        let t = skip_ws_from(s, idx);
        if t < s.len() && s[t] == ';' {
            return Ok(rows);
        }
        if t < s.len() && s[t] == ',' {
            idx = skip_ws_from(s, t + 1);
        } else if !(t < s.len() && s[t] == '(') {
            return Ok(rows);
        } else {
            let (row, e) = match parse_row(s, t) {
                Ok(x) => x,
                Err(f) => {
                    return Err(f);
                },
            };
            proof {
                lemma_row_at_advances(s@, t as int);
            }
            let ghost old_view = rows_view(rows@);
            rows.push(row);
            assert(rows_view(rows@) =~= old_view.push(row_view(row)));
            let r = skip_ws_from(s, e);
            if r < s.len() && s[r] == ';' {
                return Ok(rows);
            }
            idx = r;
        }
    }
}

/// Index after leading whitespace and comments: `s[c..]` is `strip_comments(s)`.
fn strip_leading_comments(s: &[char]) -> (c: usize)
    ensures
        c <= s@.len(),
        s@.skip(c as int) == strip_comments(s@),
{
    let line = kw(6);
    let open = kw(7);
    let close = kw(8);
    let mut c: usize = 0;
    assert(s@.skip(0) =~= s@);
    loop
        invariant
            c <= s@.len(),
            strip_comments(s@.skip(c as int)) == strip_comments(s@),
            line@ == kw_line_comment(),
            open@ == kw_block_open(),
            close@ == kw_block_close(),
        decreases s@.len() - c,
    {
        let n = s.len();
        let t = skip_ws_from(s, c);
        if starts_with_at(s, t, line.as_slice()) {
            if let Some(p) = find_char_from(s, t, '\n') {
                assert(s@.skip(t as int).skip(p + 1) =~= s@.skip(t + p + 1));
                c = t + p + 1;
                continue;
            }
        }
        if starts_with_at(s, t, open.as_slice()) {
            if let Some(p) = find_seq_from(s, t, close.as_slice()) {
                assert(s@.skip(t as int).skip(p + 2) =~= s@.skip(t + p + 2));
                c = t + p + 2;
                continue;
            }
        }
        return t;
    }
}

/// An identifier after optional whitespace at `i`.
fn parse_identifier(s: &[char], i: usize) -> (r: Option<(String, usize)>)
    requires
        i <= s@.len(),
    ensures
        match r {
            Some((n, e)) => identifier_at(s@, i as int) == Some((n@, e as int)) && e <= s@.len(),
            None => identifier_at(s@, i as int) is None,
        },
{
    let t = skip_ws_from(s, i);
    if t < s.len() && s[t] == '`' {
        match find_char_from(s, t + 1, '`') {
            Some(e) => {
                let name = string_from_chars(&s[t + 1..t + 1 + e]);
                Some((name, t + 2 + e))
            },
            None => None,
        }
    } else {
        let end = ident_end_at(s, t);
        if end == t {
            None
        } else {
            Some((string_from_chars(&s[t..end]), end))
        }
    }
}

/// The table name of a `CREATE TABLE` statement body.
fn extract_create_table_name(s: &[char]) -> (r: Option<String>)
    ensures
        match r {
            Some(n) => create_table_name(s@) == Some(n@),
            None => create_table_name(s@) is None,
        },
{
    let n = s.len();
    let r0 = skip_ws_from(s, 0);
    if !starts_with_at(s, r0, kw(1).as_slice()) {
        return None;
    }
    let r = skip_ws_from(s, r0 + 12);
    let r2 = if upper_starts_with_at(s, r, kw(2).as_slice()) {
        skip_ws_from(s, r + 13)
    } else {
        r
    };
    match parse_identifier(s, r2) {
        Some((n, _)) => Some(n),
        None => None,
    }
}


/// Bounds of what `paren_match` returns.
pub proof fn lemma_paren_match(s: Seq<char>, k: int, depth: int, q: bool, bs: bool)
    ensures
        paren_match(s, k, depth, q, bs) matches Some(m) ==> 0 <= k <= m < s.len() && s[m] == ')',
        k >= s.len() ==> paren_match(s, k, depth, q, bs) is None,
    decreases s.len() - k,
{
    if 0 <= k < s.len() {
        if q {
            if bs {
                lemma_paren_match(s, k + 1, depth, true, false);
            } else if s[k] == '\\' {
                lemma_paren_match(s, k + 1, depth, true, true);
            } else if s[k] == '\'' {
                lemma_paren_match(s, k + 1, depth, false, false);
            } else {
                lemma_paren_match(s, k + 1, depth, true, false);
            }
        } else if s[k] == '\'' {
            lemma_paren_match(s, k + 1, depth, true, false);
        } else if s[k] == '(' {
            lemma_paren_match(s, k + 1, depth + 1, false, false);
        } else if s[k] == ')' {
            lemma_paren_match(s, k + 1, depth - 1, false, false);
        } else {
            lemma_paren_match(s, k + 1, depth, false, false);
        }
    }
}

/// Index of the `)` matching the first `(` met when scanning from character `open_index`.
fn find_matching_paren(s: &[char], open_index: usize) -> (r: Option<usize>)
    ensures
        match r {
            Some(m) => paren_match(s@, open_index as int, 0, false, false) == Some(m as int),
            None => paren_match(s@, open_index as int, 0, false, false) is None,
        },
{
    if open_index >= s.len() {
        return None;
    }
    let mut k = open_index;
    let mut up: usize = 0;
    let mut down: usize = 0;
    let mut in_single = false;
    let mut prev_backslash = false;
    while k < s.len()
        invariant
            open_index <= k <= s@.len(),
            up <= k,
            down <= k,
            !in_single ==> !prev_backslash,
            paren_match(s@, k as int, up - down, in_single, prev_backslash) == paren_match(
                s@,
                open_index as int,
                0,
                false,
                false,
            ),
        decreases s@.len() - k,
    {
        let ch = s[k];
        if in_single {
            if prev_backslash {
                prev_backslash = false;
            } else if ch == '\\' {
                prev_backslash = true;
            } else if ch == '\'' {
                in_single = false;
            }
        } else if ch == '\'' {
            in_single = true;
        } else if ch == '(' {
            up += 1;
        } else if ch == ')' {
            down += 1;
            if up == down {
                return Some(k);
            }
        }
        k += 1;
    }
    None
}

/// The views of split parts.
pub open spec fn parts_view(parts: Seq<Vec<char>>) -> Seq<Seq<char>> {
    parts.map_values(|p: Vec<char>| p@)
}

/// Splits `s` at commas outside parentheses and quotes.
fn split_chars(s: &[char]) -> (r: Vec<Vec<char>>)
    ensures
        parts_view(r@) == split_commas(s@),
{
    let mut parts: Vec<Vec<char>> = Vec::new();
    let mut cur: Vec<char> = Vec::new();
    let mut up: usize = 0;
    let mut down: usize = 0;
    let mut in_single = false;
    let mut prev_backslash = false;
    let mut n: usize = 0;
    assert(parts_view(parts@) =~= Seq::empty());
    assert(cur@ =~= Seq::<char>::empty());
    while n < s.len()
        invariant
            n <= s@.len(),
            up <= n,
            down <= n,
            ({
                let st = split_state(s@, n as int);
                &&& parts_view(parts@) == st.parts
                &&& cur@ == st.cur
                &&& up - down == st.depth
                &&& in_single == st.q
                &&& prev_backslash == st.bs
            }),
        decreases s@.len() - n,
    {
        let ch = s[n];
        let ghost old_parts = parts_view(parts@);
        if in_single {
            cur.push(ch);
            if prev_backslash {
                prev_backslash = false;
            } else if ch == '\\' {
                prev_backslash = true;
            } else if ch == '\'' {
                in_single = false;
            }
        } else if ch == '\'' {
            in_single = true;
            cur.push(ch);
        } else if ch == '(' {
            up += 1;
            cur.push(ch);
        } else if ch == ')' {
            down += 1;
            cur.push(ch);
        } else if ch == ',' && up == down {
            let done = cur;
            let ghost done_view = done@;
            parts.push(done);
            assert(parts_view(parts@) =~= old_parts.push(done_view));
            cur = Vec::new();
            assert(cur@ =~= Seq::<char>::empty());
        } else {
            cur.push(ch);
        }
        n += 1;
    }
    let a = skip_ws_from(cur.as_slice(), 0);
    let b = trim_end_to(cur.as_slice(), a, cur.len());
    proof {
        assert(cur@.skip(0) =~= cur@);
        assert(cur@.subrange(a as int, cur@.len() as int) =~= cur@.skip(a as int));
        assert(s@.len() == n);
    }
    if b > a {
        let ghost old_parts = parts_view(parts@);
        let ghost cur_view = cur@;
        parts.push(cur);
        assert(parts_view(parts@) =~= old_parts.push(cur_view));
    }
    parts
}

proof fn lemma_join_push_last(items: Seq<Seq<char>>, last: Seq<char>, c: char, sep: Seq<char>)
    ensures
        join(items.push(last.push(c)), sep) == join(items.push(last), sep).push(c),
{
    let a = items.push(last.push(c));
    let b = items.push(last);
    assert(a.drop_last() =~= items);
    assert(b.drop_last() =~= items);
    if items.len() == 0 {
        assert(a[0] == last.push(c));
        assert(b[0] == last);
    } else {
        assert(join(a, sep) == join(items, sep) + sep + last.push(c));
        assert(join(b, sep) == join(items, sep) + sep + last);
        assert(join(items, sep) + sep + last.push(c) =~= (join(items, sep) + sep + last).push(c));
    }
}

/// The comma splitter only cuts: the finished parts and the current part, joined again
/// with commas, are the characters read so far.
pub proof fn lemma_split_state_rejoins(s: Seq<char>, n: int)
    requires
        0 <= n <= s.len(),
    ensures
        join(split_state(s, n).parts.push(split_state(s, n).cur), seq![',']) == s.take(n),
    decreases n,
{
    if n == 0 {
        assert(Seq::<Seq<char>>::empty().push(Seq::<char>::empty())[0] == Seq::<char>::empty());
        assert(s.take(0) =~= Seq::<char>::empty());
    } else {
        lemma_split_state_rejoins(s, n - 1);
        let st = split_state(s, n - 1);
        let c = s[n - 1];
        assert(s.take(n) =~= s.take(n - 1).push(c));
        if !st.q && c == ',' && st.depth == 0 {
            let items = st.parts.push(st.cur).push(Seq::<char>::empty());
            assert(items.drop_last() =~= st.parts.push(st.cur));
            assert(join(items, seq![',']) =~= join(st.parts.push(st.cur), seq![',']) + seq![','] + Seq::<char>::empty());
        } else {
            lemma_join_push_last(st.parts, st.cur, c, seq![',']);
        }
    }
}

/// Splitting at top-level commas loses nothing but those commas (and a blank last
/// part): the parts joined with commas give back the text, followed by the dropped
/// blank remainder.
pub proof fn lemma_split_commas_rejoins(s: Seq<char>)
    ensures
        ({
            let st = split_state(s, s.len() as int);
            &&& trim(st.cur).len() != 0 ==> join(split_commas(s), seq![',']) == s
            &&& trim(st.cur).len() == 0 ==> join(split_commas(s).push(st.cur), seq![',']) == s
        }),
{
    lemma_split_state_rejoins(s, s.len() as int);
    assert(s.take(s.len() as int) =~= s);
}

/// The number of commas among the first `n` characters of `s` that stand outside
/// parentheses and single quotes.
pub open spec fn top_level_commas(s: Seq<char>, n: int) -> nat
    decreases n,
{
    if n <= 0 {
        0
    } else {
        let st = split_state(s, n - 1);
        top_level_commas(s, n - 1) + if !st.q && s[n - 1] == ',' && st.depth == 0 {
            1nat
        } else {
            0nat
        }
    }
}

proof fn lemma_split_state_parts_count(s: Seq<char>, n: int)
    requires
        0 <= n <= s.len(),
    ensures
        split_state(s, n).parts.len() == top_level_commas(s, n),
    decreases n,
{
    if n > 0 {
        lemma_split_state_parts_count(s, n - 1);
    }
}

/// Splitting cuts exactly at the top-level commas: there is one part more than there are
/// such commas, one fewer when the blank last part is dropped.
pub proof fn lemma_split_commas_count(s: Seq<char>)
    ensures
        split_commas(s).len() == top_level_commas(s, s.len() as int) + if trim(
            split_state(s, s.len() as int).cur,
        ).len() != 0 {
            1int
        } else {
            0int
        },
{
    lemma_split_state_parts_count(s, s.len() as int);
}

/// The splitter state after `n` characters depends on those characters only.
proof fn lemma_split_state_prefix(s: Seq<char>, t: Seq<char>, n: int)
    requires
        0 <= n <= s.len(),
        n <= t.len(),
        s.take(n) == t.take(n),
    ensures
        split_state(s, n) == split_state(t, n),
    decreases n,
{
    if n > 0 {
        assert(s[n - 1] == s.take(n)[n - 1]);
        assert(t[n - 1] == t.take(n)[n - 1]);
        assert(s.take(n - 1) =~= s.take(n).take(n - 1));
        assert(t.take(n - 1) =~= t.take(n).take(n - 1));
        lemma_split_state_prefix(s, t, n - 1);
    }
}

/// Every part is cut where the splitter stood outside parentheses and quotes, so each
/// part, split on its own, runs through the same states as within `s` and is never cut.
proof fn lemma_split_parts_uncut(s: Seq<char>, n: int)
    requires
        0 <= n <= s.len(),
    ensures
        ({
            let st = split_state(s, n);
            let own = split_state(st.cur, st.cur.len() as int);
            &&& !st.q ==> !st.bs
            &&& own.parts.len() == 0
            &&& own.cur == st.cur
            &&& own.depth == st.depth
            &&& own.q == st.q
            &&& own.bs == st.bs
            &&& forall|j: int|
                0 <= j < st.parts.len() ==> (#[trigger] split_state(
                    st.parts[j],
                    st.parts[j].len() as int,
                )).parts.len() == 0
        }),
    decreases n,
{
    if n > 0 {
        lemma_split_parts_uncut(s, n - 1);
        let st = split_state(s, n - 1);
        let c = s[n - 1];
        let st2 = split_state(s, n);
        if !st.q && c == ',' && st.depth == 0 {
            assert(st2.cur == Seq::<char>::empty());
            assert forall|j: int| 0 <= j < st2.parts.len() implies (#[trigger] split_state(
                st2.parts[j],
                st2.parts[j].len() as int,
            )).parts.len() == 0 by {
                if j < st.parts.len() {
                    assert(st2.parts[j] == st.parts[j]);
                } else {
                    assert(st2.parts[j] == st.cur);
                }
            }
        } else {
            let cur2 = st.cur.push(c);
            assert(st2.cur == cur2);
            assert(cur2.take(st.cur.len() as int) =~= st.cur.take(st.cur.len() as int));
            lemma_split_state_prefix(cur2, st.cur, st.cur.len() as int);
            assert(cur2[st.cur.len() as int] == c);
            assert forall|j: int| 0 <= j < st2.parts.len() implies (#[trigger] split_state(
                st2.parts[j],
                st2.parts[j].len() as int,
            )).parts.len() == 0 by {
                assert(st2.parts[j] == st.parts[j]);
            }
        }
    }
}

/// No part of a split holds a comma that stands outside parentheses and quotes.
pub proof fn lemma_split_parts_have_no_top_level_comma(s: Seq<char>)
    ensures
        forall|j: int|
            0 <= j < split_commas(s).len() ==> top_level_commas(
                #[trigger] split_commas(s)[j],
                split_commas(s)[j].len() as int,
            ) == 0,
{
    lemma_split_parts_uncut(s, s.len() as int);
    let st = split_state(s, s.len() as int);
    assert forall|j: int| 0 <= j < split_commas(s).len() implies top_level_commas(
        #[trigger] split_commas(s)[j],
        split_commas(s)[j].len() as int,
    ) == 0 by {
        let p = split_commas(s)[j];
        lemma_split_state_parts_count(p, p.len() as int);
        if j < st.parts.len() {
            assert(p == st.parts[j]);
            assert(split_state(st.parts[j], st.parts[j].len() as int).parts.len() == 0);
        } else {
            assert(p == st.cur);
        }
    }
}

/// `s` split at commas that are outside parentheses and single quotes.
pub fn split_top_level_commas(s: &str) -> (r: Vec<String>)
    ensures
        r@.map_values(|x: String| x@) == split_commas(s@),
{
    let chars = str_chars(s);
    let parts = split_chars(chars.as_slice());
    let mut out: Vec<String> = Vec::new();
    let mut k: usize = 0;
    while k < parts.len()
        invariant
            k <= parts@.len(),
            parts_view(parts@) == split_commas(s@),
            out@.map_values(|x: String| x@) == parts_view(parts@).take(k as int),
        decreases parts@.len() - k,
    {
        let ghost old_out = out@.map_values(|x: String| x@);
        let p = string_from_chars(parts[k].as_slice());
        out.push(p);
        assert(out@.map_values(|x: String| x@) =~= old_out.push(parts[k as int]@));
        assert(parts_view(parts@).take(k + 1) =~= parts_view(parts@).take(k as int).push(
            parts[k as int]@,
        ));
        k += 1;
    }
    assert(parts_view(parts@).take(k as int) =~= parts_view(parts@));
    out
}

fn key_prefix(which: u8) -> (v: Vec<char>)
    ensures
        which == 0 ==> v@ == seq!['P', 'R', 'I', 'M', 'A', 'R', 'Y', ' ', 'K', 'E', 'Y'],
        which == 1 ==> v@ == seq!['U', 'N', 'I', 'Q', 'U', 'E', ' ', 'K', 'E', 'Y'],
        which == 2 ==> v@ == seq!['K', 'E', 'Y', ' '],
        which == 3 ==> v@ == seq!['C', 'O', 'N', 'S', 'T', 'R', 'A', 'I', 'N', 'T'],
        which == 4 ==> v@ == seq!['F', 'U', 'L', 'L', 'T', 'E', 'X', 'T', ' ', 'K', 'E', 'Y'],
{
    let v = if which == 0 {
        vec!['P', 'R', 'I', 'M', 'A', 'R', 'Y', ' ', 'K', 'E', 'Y']
    } else if which == 1 {
        vec!['U', 'N', 'I', 'Q', 'U', 'E', ' ', 'K', 'E', 'Y']
    } else if which == 2 {
        vec!['K', 'E', 'Y', ' ']
    } else if which == 3 {
        vec!['C', 'O', 'N', 'S', 'T', 'R', 'A', 'I', 'N', 'T']
    } else {
        vec!['F', 'U', 'L', 'L', 'T', 'E', 'X', 'T', ' ', 'K', 'E', 'Y']
    };
    assert(which == 0 ==> v@ =~= seq!['P', 'R', 'I', 'M', 'A', 'R', 'Y', ' ', 'K', 'E', 'Y']);
    assert(which == 1 ==> v@ =~= seq!['U', 'N', 'I', 'Q', 'U', 'E', ' ', 'K', 'E', 'Y']);
    assert(which == 2 ==> v@ =~= seq!['K', 'E', 'Y', ' ']);
    assert(which == 3 ==> v@ =~= seq!['C', 'O', 'N', 'S', 'T', 'R', 'A', 'I', 'N', 'T']);
    assert(which == 4 ==> v@ =~= seq!['F', 'U', 'L', 'L', 'T', 'E', 'X', 'T', ' ', 'K', 'E', 'Y']);
    v
}

/// Whether a `CREATE TABLE` item is a key or constraint rather than a column.
fn is_key_item_exec(item: &[char]) -> (r: bool)
    ensures
        r == is_key_item(ascii_upper(item@)),
{
    assert(item@.skip(0) =~= item@);
    upper_starts_with_at(item, 0, key_prefix(0).as_slice()) || upper_starts_with_at(
        item,
        0,
        key_prefix(1).as_slice(),
    ) || upper_starts_with_at(item, 0, key_prefix(2).as_slice()) || upper_starts_with_at(
        item,
        0,
        key_prefix(3).as_slice(),
    ) || upper_starts_with_at(item, 0, key_prefix(4).as_slice())
}

/// The window `[a, b)` of `s` that is `trim(s)`.
fn trim_window(s: &[char]) -> (r: (usize, usize))
    ensures
        r.0 <= r.1 <= s@.len(),
        s@.subrange(r.0 as int, r.1 as int) == trim(s@),
{
    let a = skip_ws_from(s, 0);
    let b = trim_end_to(s, a, s.len());
    proof {
        assert(s@.skip(0) =~= s@);
        assert(s@.subrange(a as int, s@.len() as int) =~= s@.skip(a as int));
    }
    (a, b)
}

/// The column an item of a `CREATE TABLE` body defines, if any.
fn column_of_part(part: &[char]) -> (r: Option<ColumnDef>)
    ensures
        match r {
            Some(c) => column_of(part@) == Some(c@),
            None => column_of(part@) is None,
        },
{
    let (a, b) = trim_window(part);
    let item = &part[a..b];
    if item.len() == 0 {
        return None;
    }
    if is_key_item_exec(item) {
        return None;
    }
    match parse_identifier(item, 0) {
        None => None,
        Some((name, e)) => {
            let t = skip_ws_from(item, e);
            let w = word_end_at(item, t);
            if w == t {
                None
            } else {
                Some(ColumnDef { name, mysql_type: string_from_chars(&item[t..w]) })
            }
        },
    }
}

/// The views of parsed columns.
pub open spec fn columns_view(cols: Seq<ColumnDef>) -> Seq<(Seq<char>, Seq<char>)> {
    cols.map_values(|c: ColumnDef| c@)
}

/// The columns of a `CREATE TABLE` statement body.
fn extract_columns(s: &[char]) -> (r: Result<Vec<ColumnDef>, ParseFailure>)
    ensures
        match r {
            Ok(cols) => table_columns(s@) == Ok::<_, ParseFailure>(columns_view(cols@)),
            Err(f) => table_columns(s@) == Err::<Seq<(Seq<char>, Seq<char>)>, _>(f),
        },
{
    let c0 = match find_char_from(s, 0, '(') {
        None => {
            assert(s@.skip(0) =~= s@);
            return Err(ParseFailure::MissingOpenParen);
        },
        Some(c) => c,
    };
    proof {
        assert(s@.skip(0) =~= s@);
        lemma_find_char(s@, '(');
    }
    let m = match find_matching_paren(s, c0) {
        None => {
            return Err(ParseFailure::MissingCloseParen);
        },
        Some(m) => m,
    };
    proof {
        lemma_paren_match(s@, c0 as int, 0, false, false);
    }
    let parts = split_chars(&s[c0 + 1..m]);
    let mut cols: Vec<ColumnDef> = Vec::new();
    let mut k: usize = 0;
    assert(columns_view(cols@) =~= Seq::empty());
    while k < parts.len()
        invariant
            k <= parts@.len(),
            columns_view(cols@) == columns_of_parts(parts_view(parts@), k as int),
        decreases parts@.len() - k,
    {
        let ghost old_cols = columns_view(cols@);
        assert(parts_view(parts@)[k as int] == parts[k as int]@);
        match column_of_part(parts[k].as_slice()) {
            Some(c) => {
                let ghost cv = c@;
                cols.push(c);
                assert(columns_view(cols@) =~= old_cols.push(cv));
            },
            None => {},
        }
        k += 1;
    }
    if cols.len() == 0 {
        Err(ParseFailure::NoColumns)
    } else {
        Ok(cols)
    }
}

/// The window of `s` that is its statement body (comments stripped, trimmed).
fn body_window(s: &[char]) -> (r: (usize, usize))
    ensures
        r.0 <= r.1 <= s@.len(),
        s@.subrange(r.0 as int, r.1 as int) == statement_body(s@),
{
    let c = strip_leading_comments(s);
    let a = skip_ws_from(s, c);
    let b = trim_end_to(s, a, s.len());
    proof {
        assert(s@.subrange(a as int, s@.len() as int) =~= s@.skip(a as int));
    }
    (a, b)
}

/// What a parser's result says about the specification's verdict `spec`.
pub open spec fn parsed_as<T, V>(r: Result<T, MySqlDumpError>, spec: Result<V, ParseFailure>, view: spec_fn(T) -> V) -> bool {
    match r {
        Ok(v) => spec == Ok::<V, ParseFailure>(view(v)),
        Err(MySqlDumpError::Parse(m)) => spec is Err && m@ == failure_text(spec->Err_0),
        Err(_) => false,
    }
}

/// Parses a `CREATE TABLE` statement into its table name and columns. Leading comments
/// and whitespace are skipped; any other statement gives `Ok(None)`.
pub fn parse_create_table(stmt: &str) -> (r: Result<Option<TableDef>, MySqlDumpError>)
    ensures
        parsed_as(r, spec_parse_create_table(stmt@), |d: Option<TableDef>| match d {
            Some(t) => Some(t@),
            None => None,
        }),
{
    let chars = str_chars(stmt);
    let (a, b) = body_window(chars.as_slice());
    let s = &chars.as_slice()[a..b];
    if s.len() == 0 {
        return Ok(None);
    }
    assert(s@.skip(0) =~= s@);
    if !upper_starts_with_at(s, 0, kw(1).as_slice()) {
        return Ok(None);
    }
    let name = match extract_create_table_name(s) {
        None => {
            return Err(parse_error(ParseFailure::CreateTableName));
        },
        Some(n) => n,
    };
    let columns = match extract_columns(s) {
        Err(f) => {
            return Err(parse_error(f));
        },
        Ok(c) => c,
    };
    let d = TableDef { name, columns };
    assert(d@.1 =~= columns_view(d.columns@));
    Ok(Some(d))
}


/// The table of an `INSERT INTO` statement body and the index where its value list starts.
fn insert_header_exec(s: &[char]) -> (r: Result<Option<(String, usize)>, ParseFailure>)
    ensures
        match r {
            Ok(Some((t, v))) => insert_header(s@) == Ok::<_, ParseFailure>(Some((t@, v as int)))
                && v <= s@.len(),
            Ok(None) => insert_header(s@) == Ok::<Option<(Seq<char>, int)>, ParseFailure>(None),
            Err(f) => insert_header(s@) == Err::<Option<(Seq<char>, int)>, _>(f),
        },
{
    let n = s.len();
    if s.len() == 0 {
        return Ok(None);
    }
    assert(s@.skip(0) =~= s@);
    if !upper_starts_with_at(s, 0, kw(0).as_slice()) {
        return Ok(None);
    }
    assert(ascii_upper(s@)[0] == 'I');
    let r0 = skip_ws_from(s, 0);
    assert(r0 == 0);
    let r = skip_ws_from(s, r0 + 11);
    match parse_identifier(s, r) {
        None => Err(ParseFailure::InsertTableName),
        Some((table, after)) => match find_upper_seq_from(s, after, kw(3).as_slice()) {
            None => Err(ParseFailure::InsertWithoutValues),
            Some(p) => {
                let v = skip_ws_from(s, after + p + 6);
                Ok(Some((table, v)))
            },
        },
    }
}

/// Splits an `INSERT INTO` statement into its table name and the text after `VALUES`
/// (with leading whitespace removed). Any other statement gives `Ok(None)`.
pub fn parse_insert_into_values_input<'a>(stmt: &'a str) -> (r: Result<
    Option<(String, &'a str)>,
    MySqlDumpError,
>)
    ensures
        match r {
            Ok(Some((t, rest))) => spec_values_input(stmt@) == Ok::<_, ParseFailure>(
                Some((t@, rest@)),
            ),
            Ok(None) => spec_values_input(stmt@) == Ok::<
                Option<(Seq<char>, Seq<char>)>,
                ParseFailure,
            >(None),
            Err(MySqlDumpError::Parse(m)) => spec_values_input(stmt@) is Err && m@
                == failure_text(spec_values_input(stmt@)->Err_0),
            Err(_) => false,
        },
{
    let chars = str_chars(stmt);
    let (a, b) = body_window(chars.as_slice());
    let s = &chars.as_slice()[a..b];
    match insert_header_exec(s) {
        Err(f) => Err(parse_error(f)),
        Ok(None) => Ok(None),
        Ok(Some((table, v))) => {
            let rest = stmt.substring_char(a + v, b);
            assert(rest@ =~= s@.skip(v as int));
            Ok(Some((table, rest)))
        },
    }
}

/// Parses an `INSERT INTO table VALUES (...),(...);` statement into its table name and
/// rows; any other statement gives `Ok(None)`. A statement without rows is an error.
pub fn parse_insert_into(stmt: &str) -> (r: Result<Option<InsertStatement>, MySqlDumpError>)
    ensures
        parsed_as(r, spec_parse_insert_into(stmt@), |x: Option<InsertStatement>| match x {
            Some(i) => Some(i@),
            None => None,
        }),
{
    let chars = str_chars(stmt);
    let (a, b) = body_window(chars.as_slice());
    let s = &chars.as_slice()[a..b];
    if s.len() == 0 {
        return Ok(None);
    }
    assert(s@.skip(0) =~= s@);
    if !upper_starts_with_at(s, 0, kw(0).as_slice()) {
        return Ok(None);
    }
    let (a2, b2) = body_window(s);
    let s2 = &s[a2..b2];
    let (table, v) = match insert_header_exec(s2) {
        Err(f) => {
            return Err(parse_error(f));
        },
        Ok(None) => {
            return Ok(None);
        },
        Ok(Some(x)) => x,
    };
    let values = &s2[v..s2.len()];
    assert(values@ =~= s2@.skip(v as int));
    let rows = match parse_rows(values, 0) {
        Err(f) => {
            return Err(parse_error(f));
        },
        Ok(rows) => rows,
    };
    if rows.len() == 0 {
        return Err(parse_error(ParseFailure::ZeroRows));
    }
    let ins = InsertStatement { table, rows };
    assert(ins@.1 =~= rows_view(ins.rows@));
    Ok(Some(ins))
}


/// Parses the rows of an `INSERT INTO` statement and hands each row, in order, to
/// `on_row`, without collecting them. Returns the table name and the number of rows;
/// any other statement gives `Ok(None)`. An error from `on_row` stops the parse and is
/// returned as it is.
pub fn parse_insert_into_for_each_row<F>(stmt: &str, on_row: F) -> (r: Result<
    Option<(String, u64)>,
    MySqlDumpError,
>) where F: FnMut(Vec<SqlValue>) -> Result<(), MySqlDumpError>
    requires
        forall|row: Vec<SqlValue>| #[trigger] call_requires(on_row, (row,)),
    ensures
        (r matches Ok(None)) <==> spec_insert_rows(stmt@) == Ok::<
            Option<(Seq<char>, Seq<Seq<Option<Seq<char>>>>)>,
            ParseFailure,
        >(None),
        r matches Ok(Some((t, n))) ==> (spec_insert_rows(stmt@) matches Ok(Some((t2, rows))) && t@
            == t2 && n == rows.len() && rows_accepted(on_row, rows, rows.len() as int)),
        spec_insert_rows(stmt@) is Err ==> r is Err,
        r matches Err(e) ==> ({
            let parsed = insert_rows_before_failure(stmt@);
            ||| (spec_insert_rows(stmt@) is Err && (e matches MySqlDumpError::Parse(m) && m@
                == failure_text(spec_insert_rows(stmt@)->Err_0)) && rows_accepted(
                on_row,
                parsed,
                parsed.len() as int,
            ))
            ||| exists|i: int|
                0 <= i < parsed.len() && rows_accepted(on_row, parsed, i) && #[trigger] row_call(
                    on_row,
                    parsed[i],
                    Err(e),
                )
        }),
{
    let mut f = on_row;
    let chars = str_chars(stmt);
    let (a, b) = body_window(chars.as_slice());
    let s = &chars.as_slice()[a..b];
    let (table, v) = match insert_header_exec(s) {
        Err(f) => {
            return Err(parse_error(f));
        },
        Ok(None) => {
            return Ok(None);
        },
        Ok(Some(x)) => x,
    };
    let values = &s[v..s.len()];
    assert(values@ =~= s@.skip(v as int));
    let ghost mut seen: Seq<Seq<Option<Seq<char>>>> = Seq::empty();
    let mut rows_seen: u64 = 0;
    let mut idx: usize = 0;
    assert(spec_values_input(stmt@) == Ok::<_, ParseFailure>(Some((table@, values@))));
    assert(insert_rows_before_failure(stmt@) == rows_parsed(values@, 0, Seq::empty()));
    loop
        invariant_except_break
            idx <= values@.len(),
            rows_seen == seen.len(),
            rows_seen <= idx,
            forall|row: Vec<SqlValue>| #[trigger] call_requires(f, (row,)),
            rows_from(values@, idx as int, seen) == rows_from(values@, 0, Seq::empty()),
            rows_parsed(values@, idx as int, seen) == rows_parsed(values@, 0, Seq::empty()),
        invariant
            f == on_row,
            spec_values_input(stmt@) == Ok::<_, ParseFailure>(Some((table@, values@))),
            insert_rows_before_failure(stmt@) == rows_parsed(values@, 0, Seq::empty()),
            rows_accepted(on_row, seen, seen.len() as int),
            seen.len() <= rows_parsed(values@, 0, Seq::empty()).len(),
            seen == rows_parsed(values@, 0, Seq::empty()).take(seen.len() as int),
        ensures
            rows_seen == seen.len(),
            rows_from(values@, 0, Seq::empty()) == Ok::<_, ParseFailure>(seen),
        decreases values@.len() - idx,
    {
        if idx >= values.len() {
            break;
        }
        let t = skip_ws_from(values, idx);
        if t < values.len() && values[t] == ';' {
            break;
        }
        if t < values.len() && values[t] == ',' {
            idx = skip_ws_from(values, t + 1);
        } else if !(t < values.len() && values[t] == '(') {
            break;
        } else {
            let (row, e) = match parse_row(values, t) {
                Ok(x) => x,
                Err(f) => {
                    proof {
                        assert(rows_from(values@, idx as int, seen) == Err::<
                            Seq<Seq<Option<Seq<char>>>>,
                            ParseFailure,
                        >(f));
                        assert(spec_insert_rows(stmt@) == Err::<
                            Option<(Seq<char>, Seq<Seq<Option<Seq<char>>>>)>,
                            ParseFailure,
                        >(f));
                        assert(rows_parsed(values@, idx as int, seen) == seen);
                        let parsed = insert_rows_before_failure(stmt@);
                        assert(parsed == seen);
                        assert(rows_accepted(on_row, parsed, parsed.len() as int));
                    }
                    let pe = parse_error(f);
                    assert(pe matches MySqlDumpError::Parse(m) && m@ == failure_text(
                        spec_insert_rows(stmt@)->Err_0,
                    ));
                    return Err(pe);
                },
            };
            let ghost before = seen;
            let ghost rv = row;
            proof {
                lemma_row_at_advances(values@, t as int);
                seen = seen.push(row_view(row));
                lemma_ws_skip(values@, e as int);
                let rr = ws_skip(values@, e as int);
                lemma_rows_parsed_prefix(values@, rr, seen);
                assert(row_at(values@, t as int) == Ok::<_, ParseFailure>((row_view(row), e as int)));
                assert(rows_parsed(values@, idx as int, before) == (if rr < values@.len()
                    && values@[rr] == ';' {
                    seen
                } else {
                    rows_parsed(values@, rr, seen)
                }));
                assert(seen.take(seen.len() as int) =~= seen);
                assert(rows_parsed(values@, idx as int, before).take(seen.len() as int) == seen);
                assert(rows_parsed(values@, idx as int, before) == rows_parsed(values@, 0, Seq::empty()));
            }
            let res = (&mut f)(row);
            proof {
                broadcast use vstd::function::group_function_axioms;

            }
            proof {
                let parsed = rows_parsed(values@, 0, Seq::empty());
                assert(seen == parsed.take(seen.len() as int));
                assert(seen[before.len() as int] == row_view(rv));
                assert(parsed.take(seen.len() as int)[before.len() as int] == parsed[before.len() as int]);
                assert(parsed[before.len() as int] == row_view(rv));
                assert(row_call(on_row, parsed[before.len() as int], res));
                assert forall|j: int| 0 <= j < before.len() implies #[trigger] row_accepted(
                    on_row,
                    parsed[j],
                ) by {
                    assert(parsed[j] == before[j]);
                    assert(row_accepted(on_row, before[j]));
                }
                assert(rows_accepted(on_row, parsed, before.len() as int));
            }
            match res {
                Ok(()) => {
                    proof {
                        assert(row_call(on_row, row_view(rv), res));
                        assert(row_accepted(on_row, row_view(rv)));
                    }
                },
                Err(err) => {
                    proof {
                        let parsed = insert_rows_before_failure(stmt@);
                        let i = before.len() as int;
                        assert(row_call(on_row, parsed[i], Err(err)));
                        assert(rows_accepted(on_row, parsed, i));
                        assert(0 <= i < parsed.len());
                    }
                    return Err(err);
                },
            }
            proof {
                assert forall|j: int| 0 <= j < seen.len() implies #[trigger] row_accepted(
                    on_row,
                    seen[j],
                ) by {
                    if j < before.len() {
                        assert(seen[j] == before[j]);
                        assert(row_accepted(on_row, before[j]));
                    } else {
                        assert(seen[j] == row_view(rv));
                        assert(row_accepted(on_row, row_view(rv)));
                    }
                }
            }
            rows_seen += 1;
            let r = skip_ws_from(values, e);
            if r < values.len() && values[r] == ';' {
                break;
            }
            idx = r;
        }
    }
    proof {
        lemma_rows_parsed(values@, 0, Seq::empty());
    }
    if rows_seen == 0 {
        assert(spec_insert_rows(stmt@) == Err::<
            Option<(Seq<char>, Seq<Seq<Option<Seq<char>>>>)>,
            ParseFailure,
        >(ParseFailure::ZeroRows));
        return Err(parse_error(ParseFailure::ZeroRows));
    }
    assert(spec_insert_rows(stmt@) == Ok::<_, ParseFailure>(Some((table@, seen))));
    assert(rows_accepted(on_row, seen, seen.len() as int));
    assert(rows_accepted(on_row, seen, rows_seen as int));
    Ok(Some((table, rows_seen)))
}


// ---------------------------------------------------------------------------
// Naming tables
// ---------------------------------------------------------------------------

/// The lowercase name of a dump kind.
pub open spec fn kind_name(kind: LibgenDumpKind) -> Seq<char> {
    match kind {
        LibgenDumpKind::Fiction => "fiction"@,
        LibgenDumpKind::Compact => "compact"@,
    }
}

/// The table prefix configured for a dump kind.
pub fn table_prefix_for_kind(kind: LibgenDumpKind, fiction_prefix: &str, compact_prefix: &str) -> (r:
    String)
    ensures
        r@ == match kind {
            LibgenDumpKind::Fiction => fiction_prefix@,
            LibgenDumpKind::Compact => compact_prefix@,
        },
{
    match kind {
        LibgenDumpKind::Fiction => fiction_prefix.to_string(),
        LibgenDumpKind::Compact => compact_prefix.to_string(),
    }
}

/// The PostgreSQL table for a MySQL table: `overall + kind_prefix + mysql_table` when the
/// MySQL name already is the kind's name or starts with it and `_`, and
/// `overall + kind_prefix + kind + "_" + mysql_table` otherwise.
pub open spec fn spec_pg_table_name(
    overall: Seq<char>,
    kind_prefix: Seq<char>,
    kind: LibgenDumpKind,
    mysql_table: Seq<char>,
) -> Seq<char> {
    let k = kind_name(kind);
    if mysql_table == k || starts_with(mysql_table, k.push('_')) {
        overall + kind_prefix + mysql_table
    } else {
        overall + kind_prefix + k.push('_') + mysql_table
    }
}

fn kind_str(kind: LibgenDumpKind) -> (r: &'static str)
    ensures
        r@ == kind_name(kind),
{
    match kind {
        LibgenDumpKind::Fiction => "fiction",
        LibgenDumpKind::Compact => "compact",
    }
}

/// The PostgreSQL table name for a MySQL table of a dump of the given kind.
pub fn compute_pg_table_name(
    overall_prefix: &str,
    kind_prefix: &str,
    kind: LibgenDumpKind,
    mysql_table: &str,
) -> (r: String)
    ensures
        r@ == spec_pg_table_name(overall_prefix@, kind_prefix@, kind, mysql_table@),
{
    let k = kind_str(kind);
    let mut k_us = k.to_string();
    k_us.append("_");
    proof {
        reveal_strlit("_");
    }
    let t = str_chars(mysql_table);
    let kc = str_chars(k);
    let kus = str_chars(k_us.as_str());
    assert(kus@ =~= kind_name(kind).push('_'));
    let same = t.len() == kc.len() && starts_with_at(t.as_slice(), 0, kc.as_slice());
    assert(t@.skip(0) =~= t@);
    assert(same ==> t@ =~= kind_name(kind));
    assert(t@ == kind_name(kind) ==> same);
    let mut out = overall_prefix.to_string();
    out.append(kind_prefix);
    if same || starts_with_at(t.as_slice(), 0, kus.as_slice()) {
        out.append(mysql_table);
    } else {
        out.append(k_us.as_str());
        out.append(mysql_table);
    }
    out
}

// ---------------------------------------------------------------------------
// Statement previews
// ---------------------------------------------------------------------------

/// A preview of at most `max_bytes` (at least 1) bytes, decoded lossily, followed by `…`
/// when bytes were cut off.
pub open spec fn preview_text(bytes: Seq<u8>, max_bytes: int) -> Seq<char> {
    let limit = if max_bytes < 1 {
        1
    } else {
        max_bytes
    };
    let n = if bytes.len() < limit {
        bytes.len() as int
    } else {
        limit
    };
    let t = spec_utf8_lossy(bytes.take(n));
    if bytes.len() > n {
        t.push('…')
    } else {
        t
    }
}

/// When the bytes a preview keeps are valid UTF-8, `t` is their text, followed by `…`
/// when bytes were cut off.
pub open spec fn valid_prefix_preview(bytes: Seq<u8>, max_bytes: int, t: Seq<char>) -> bool {
    let limit = if max_bytes < 1 {
        1
    } else {
        max_bytes
    };
    let n = if bytes.len() < limit {
        bytes.len() as int
    } else {
        limit
    };
    vstd::utf8::valid_utf8(bytes.take(n)) ==> t == if bytes.len() > n {
        vstd::utf8::decode_utf8(bytes.take(n)).push('…')
    } else {
        vstd::utf8::decode_utf8(bytes.take(n))
    }
}

/// A preview of a statement for error messages.
pub fn statement_preview(stmt: &str, max_bytes: usize) -> (r: String)
    ensures
        r@ == preview_text(stmt.spec_bytes(), max_bytes as int),
        stmt.spec_bytes().len() <= (if max_bytes < 1 {
            1
        } else {
            max_bytes
        }) ==> r@ == stmt@,
        valid_prefix_preview(stmt.spec_bytes(), max_bytes as int, r@),
{
    proof {
        vstd::utf8::encode_utf8_valid_utf8(stmt@);
        vstd::utf8::encode_utf8_decode_utf8(stmt@);
    }
    statement_preview_bytes(stmt.as_bytes(), max_bytes)
}

/// A preview of raw statement bytes for error messages.
pub fn statement_preview_bytes(bytes: &[u8], max_bytes: usize) -> (r: String)
    ensures
        r@ == preview_text(bytes@, max_bytes as int),
        vstd::utf8::valid_utf8(bytes@) && bytes@.len() <= (if max_bytes < 1 {
            1
        } else {
            max_bytes
        }) ==> r@ == vstd::utf8::decode_utf8(bytes@),
        valid_prefix_preview(bytes@, max_bytes as int, r@),
{
    let limit = if max_bytes < 1 {
        1
    } else {
        max_bytes
    };
    let n = if bytes.len() < limit {
        bytes.len()
    } else {
        limit
    };
    let head = &bytes[0..n];
    assert(head@ =~= bytes@.take(n as int));
    assert(n == bytes@.len() ==> head@ =~= bytes@);
    let mut s = utf8_lossy(head);
    if bytes.len() > n {
        s.append("…");
        proof {
            reveal_strlit("…");
        }
        assert(s@ =~= preview_text(bytes@, max_bytes as int));
    }
    s
}


// ---------------------------------------------------------------------------
// Splitting a byte stream into statements
// ---------------------------------------------------------------------------

/// The position of the `;` that ends the statement, scanning `b` from `i` with `q`
/// (inside single quotes) and `bs` (previous byte a backslash inside quotes). Inside
/// quotes a backslash escapes the next byte and `''` is an escaped quote. `None` when no
/// terminator is found, or when a backslash or quote inside quotes is the last byte, so
/// that the next byte is needed to decide.
pub open spec fn term_from(b: Seq<u8>, i: int, q: bool, bs: bool) -> Option<int>
    decreases b.len() - i,
{
    if i < 0 || i >= b.len() {
        None
    } else if q {
        if bs {
            term_from(b, i + 1, true, false)
        } else if b[i] == 0x5c {
            if i + 1 >= b.len() {
                None
            } else {
                term_from(b, i + 1, true, true)
            }
        } else if b[i] == 0x27 {
            if i + 1 >= b.len() {
                None
            } else if b[i + 1] == 0x27 {
                term_from(b, i + 2, true, false)
            } else {
                term_from(b, i + 1, false, false)
            }
        } else {
            term_from(b, i + 1, true, false)
        }
    } else if b[i] == 0x27 {
        term_from(b, i + 1, true, false)
    } else if b[i] == 0x3b {
        Some(i)
    } else {
        term_from(b, i + 1, false, false)
    }
}

/// The position of the `;` that ends the first statement of `b`.
pub open spec fn statement_end(b: Seq<u8>) -> Option<int> {
    term_from(b, 0, false, false)
}

/// The text of a statement's bytes: decoded lossily and trimmed.
pub open spec fn statement_text(b: Seq<u8>) -> Seq<char> {
    trim(spec_utf8_lossy(b))
}

pub proof fn lemma_term_from_bounds(b: Seq<u8>, i: int, q: bool, bs: bool)
    ensures
        term_from(b, i, q, bs) matches Some(p) ==> 0 <= i <= p < b.len() && b[p] == 0x3b,
    decreases b.len() - i,
{
    if 0 <= i < b.len() {
        if q {
            if bs {
                lemma_term_from_bounds(b, i + 1, true, false);
            } else if b[i] == 0x5c {
                lemma_term_from_bounds(b, i + 1, true, true);
            } else if b[i] == 0x27 {
                if i + 1 < b.len() {
                    lemma_term_from_bounds(b, i + 2, true, false);
                    lemma_term_from_bounds(b, i + 1, false, false);
                }
            } else {
                lemma_term_from_bounds(b, i + 1, true, false);
            }
        } else if b[i] == 0x27 {
            lemma_term_from_bounds(b, i + 1, true, false);
        } else if b[i] != 0x3b {
            lemma_term_from_bounds(b, i + 1, false, false);
        }
    }
}

/// The statements of a whole stream: the texts of its `;`-terminated pieces and of the
/// unterminated rest, leaving out those that are empty after trimming.
pub open spec fn statements(s: Seq<u8>) -> Seq<Seq<char>>
    decreases s.len(),
{
    match statement_end(s) {
        Some(p) => {
            proof {
                lemma_term_from_bounds(s, 0, false, false);
            }
            let t = statement_text(s.take(p + 1));
            let rest = statements(s.skip(p + 1));
            if t.len() == 0 {
                rest
            } else {
                seq![t] + rest
            }
        },
        None => {
            if s.len() == 0 || statement_text(s).len() == 0 {
                Seq::empty()
            } else {
                seq![statement_text(s)]
            }
        },
    }
}

/// A scan state `(i, q, bs)` over `b` summarises the bytes before `i`: for every way the
/// stream may continue, finding the terminator from that state gives the same result as
/// scanning from the start.
pub open spec fn scan_inv(b: Seq<u8>, i: int, q: bool, bs: bool) -> bool {
    &&& 0 <= i <= b.len()
    &&& forall|e: Seq<u8>| #[trigger] statement_end(b + e) == term_from(b + e, i, q, bs)
}

/// The statements of a stream whose first piece ends at `p`.
pub proof fn lemma_statements_drain(buf: Seq<u8>, p: int, e: Seq<u8>)
    requires
        0 <= p < buf.len(),
        statement_end(buf + e) == Some(p),
    ensures
        statements(buf + e) == (if statement_text(buf.take(p + 1)).len() == 0 {
            Seq::empty()
        } else {
            seq![statement_text(buf.take(p + 1))]
        }) + statements(buf.skip(p + 1) + e),
{
    assert((buf + e).take(p + 1) =~= buf.take(p + 1));
    assert((buf + e).skip(p + 1) =~= buf.skip(p + 1) + e);
    let t = statement_text(buf.take(p + 1));
    if t.len() == 0 {
        assert(Seq::<Seq<char>>::empty() + statements(buf.skip(p + 1) + e) =~= statements(
            buf.skip(p + 1) + e,
        ));
    }
}

/// What the bytes already buffered decide about the next statement.
pub enum BufferedOutcome {
    /// The next statement is complete: its text, and the bytes left after it.
    Statement { text: Seq<char>, rest: Seq<u8> },
    /// The statement that `pending` starts with has grown to `size` bytes, past the limit.
    TooLarge { size: int, pending: Seq<u8> },
    /// More bytes are needed; `pending` holds no terminated statement.
    NeedMore { pending: Seq<u8> },
}

/// The outcome for buffered bytes `b` under the size limit `max`: pieces that are empty
/// after trimming are dropped, and a statement is too large when its bytes up to and
/// including its `;` (or, while unterminated, all its bytes so far) exceed `max`.
pub open spec fn buffered_outcome(b: Seq<u8>, max: int) -> BufferedOutcome
    decreases b.len(),
{
    match statement_end(b) {
        Some(p) => {
            proof {
                lemma_term_from_bounds(b, 0, false, false);
            }
            if p + 1 > max {
                BufferedOutcome::TooLarge { size: p + 1, pending: b }
            } else if statement_text(b.take(p + 1)).len() == 0 {
                buffered_outcome(b.skip(p + 1), max)
            } else {
                BufferedOutcome::Statement { text: statement_text(b.take(p + 1)), rest: b.skip(p + 1) }
            }
        },
        None => if b.len() > max {
            BufferedOutcome::TooLarge { size: b.len() as int, pending: b }
        } else {
            BufferedOutcome::NeedMore { pending: b }
        },
    }
}

/// The last statement of a stream whose unterminated rest is `b`.
pub open spec fn last_statement(b: Seq<u8>) -> Option<Seq<char>> {
    if b.len() == 0 || statement_text(b).len() == 0 {
        None
    } else {
        Some(statement_text(b))
    }
}

/// A terminator found in `b` is found at the same place whatever follows `b`.
pub proof fn lemma_term_from_extend(b: Seq<u8>, i: int, q: bool, bs: bool, e: Seq<u8>)
    ensures
        term_from(b, i, q, bs) matches Some(p) ==> term_from(b + e, i, q, bs) == Some(p),
    decreases b.len() - i,
{
    if 0 <= i < b.len() {
        assert((b + e)[i] == b[i]);
        if q {
            if bs {
                lemma_term_from_extend(b, i + 1, true, false, e);
            } else if b[i] == 0x5c {
                lemma_term_from_extend(b, i + 1, true, true, e);
            } else if b[i] == 0x27 {
                if i + 1 < b.len() {
                    assert((b + e)[i + 1] == b[i + 1]);
                    lemma_term_from_extend(b, i + 2, true, false, e);
                    lemma_term_from_extend(b, i + 1, false, false, e);
                }
            } else {
                lemma_term_from_extend(b, i + 1, true, false, e);
            }
        } else if b[i] == 0x27 {
            lemma_term_from_extend(b, i + 1, true, false, e);
        } else if b[i] != 0x3b {
            lemma_term_from_extend(b, i + 1, false, false, e);
        }
    }
}

/// When the buffered bytes `b` need more input, the empty pieces they begin with decide
/// nothing: the outcome after any continuation `e` is that of what is left, followed by `e`.
pub proof fn lemma_need_more_continues(b: Seq<u8>, max: int, e: Seq<u8>)
    requires
        buffered_outcome(b, max) is NeedMore,
    ensures
        ({
            let rest = buffered_outcome(b, max)->NeedMore_pending;
            &&& statement_end(rest) is None
            &&& rest.len() <= max
            &&& buffered_outcome(rest, max) == buffered_outcome(b, max)
            &&& buffered_outcome(b + e, max) == buffered_outcome(rest + e, max)
        }),
    decreases b.len(),
{
    lemma_term_from_bounds(b, 0, false, false);
    if let Some(p) = statement_end(b) {
        lemma_term_from_extend(b, 0, false, false, e);
        assert((b + e).take(p + 1) =~= b.take(p + 1));
        assert((b + e).skip(p + 1) =~= b.skip(p + 1) + e);
        lemma_need_more_continues(b.skip(p + 1), max, e);
    }
}

/// `BufReader`, carried through unchanged.
#[verifier::external_type_specification]
#[verifier::external_body]
#[verifier::reject_recursive_types(R)]
pub struct ExBufReader<R: ?Sized>(std::io::BufReader<R>);

/// `BufReader::new`: a buffered reader over `inner`.
#[verifier::external_body]
fn buf_reader_new<R: std::io::Read>(inner: R) -> std::io::BufReader<R> {
    std::io::BufReader::new(inner)
}

/// `BufRead::fill_buf`: the next buffered bytes of the stream, empty at its end.
/// What the bytes are depends on the stream; nothing is stated of them.
#[verifier::external_body]
fn fill_buf<R: std::io::Read>(reader: &mut std::io::BufReader<R>) -> std::io::Result<&[u8]> {
    reader.fill_buf()
}

/// `BufRead::consume`: marks `amt` buffered bytes as read.
#[verifier::external_body]
fn consume<R: std::io::Read>(reader: &mut std::io::BufReader<R>, amt: usize) {
    reader.consume(amt)
}

/// Splits a MySQL dump stream into statements, holding at most about
/// `max_statement_bytes` bytes of an unfinished statement.
#[verifier::reject_recursive_types(R)]
pub struct StatementReader<R> {
    reader: std::io::BufReader<R>,
    max_statement_bytes: u64,
    offset: u64,
    buf: Vec<u8>,
    in_single_quote: bool,
    prev_was_backslash: bool,
    scan_pos: usize,
    start_offset: Ghost<u64>,
    stream: Ghost<Seq<u8>>,
    emitted: Ghost<Seq<Seq<char>>>,
    ended: Ghost<bool>,
    clean: Ghost<bool>,
}

impl<R: std::io::Read> StatementReader<R> {
    /// Every byte read from the stream so far.
    pub closed spec fn stream(&self) -> Seq<u8> {
        self.stream@
    }

    /// Every statement returned so far.
    pub closed spec fn emitted(&self) -> Seq<Seq<char>> {
        self.emitted@
    }

    /// Bytes read but not yet returned as part of a statement.
    pub closed spec fn pending(&self) -> Seq<u8> {
        self.buf@
    }

    /// The size limit for an unfinished statement.
    pub closed spec fn max_bytes(&self) -> u64 {
        self.max_statement_bytes
    }

    /// The stream offset the reader was created at.
    pub closed spec fn start_offset(&self) -> u64 {
        self.start_offset@
    }

    /// The current stream offset.
    pub closed spec fn offset_spec(&self) -> u64 {
        self.offset
    }

    /// The end of the stream was handled: its unterminated rest, if any, was returned.
    pub closed spec fn ended(&self) -> bool {
        self.ended@
    }

    /// No bytes arrived after the end of the stream was handled.
    pub closed spec fn clean(&self) -> bool {
        self.clean@
    }

    /// The reader's internal state is consistent.
    pub closed spec fn wf(&self) -> bool {
        &&& scan_inv(self.buf@, self.scan_pos as int, self.in_single_quote, self.prev_was_backslash)
        &&& !self.in_single_quote ==> !self.prev_was_backslash
        &&& self.offset == self.start_offset@ + self.stream@.len()
        &&& self.clean@ && !self.ended@ ==> forall|e: Seq<u8>|
            #[trigger] statements(self.stream@ + e) == self.emitted@ + statements(self.buf@ + e)
        &&& self.clean@ && self.ended@ ==> self.buf@.len() == 0 && statements(self.stream@)
            == self.emitted@
        &&& forall|i: int| 0 <= i < self.emitted@.len() ==> #[trigger] self.emitted@[i].len() > 0
    }

    /// The statements returned so far, followed by those of the pending bytes and any
    /// continuation, are the statements of the whole stream: how the stream arrived in
    /// chunks does not change how it is split.
    pub proof fn lemma_statements_follow_stream(&self, e: Seq<u8>)
        requires
            self.wf(),
            self.clean(),
            !self.ended(),
        ensures
            statements(self.stream() + e) == self.emitted() + statements(self.pending() + e),
    {
    }

    /// After the end of the stream was handled on a clean reader, nothing is buffered and
    /// the buffered bytes decide nothing, and the stream's statements are those returned:
    /// a later `next_statement` that reads no byte returns `Ok(None)` (or the reader's
    /// error) and leaves the offset where it was.
    pub proof fn lemma_end_is_stable(&self)
        requires
            self.wf(),
            self.clean(),
            self.ended(),
        ensures
            self.pending() == Seq::<u8>::empty(),
            buffered_outcome(self.pending(), self.max_bytes() as int) == (BufferedOutcome::NeedMore {
                pending: Seq::<u8>::empty(),
            }),
            last_statement(self.pending()) is None,
            statements(self.stream()) == self.emitted(),
    {
        assert(self.buf@ =~= Seq::<u8>::empty());
        assert(statement_end(Seq::<u8>::empty()) is None);
    }

    /// A reader over `inner` that starts at offset 0.
    pub fn new(inner: R, max_statement_bytes: u64) -> (r: Self)
        ensures
            r.wf(),
            r.stream() == Seq::<u8>::empty(),
            r.emitted() == Seq::<Seq<char>>::empty(),
            r.pending() == Seq::<u8>::empty(),
            r.max_bytes() == max_statement_bytes,
            r.start_offset() == 0,
            r.offset_spec() == 0,
            r.clean(),
            !r.ended(),
    {
        Self::new_with_offset(inner, max_statement_bytes, 0)
    }

    /// A reader over `inner` whose first byte is at `initial_offset` of the dump.
    pub fn new_with_offset(inner: R, max_statement_bytes: u64, initial_offset: u64) -> (r: Self)
        ensures
            r.wf(),
            r.stream() == Seq::<u8>::empty(),
            r.emitted() == Seq::<Seq<char>>::empty(),
            r.pending() == Seq::<u8>::empty(),
            r.max_bytes() == max_statement_bytes,
            r.start_offset() == initial_offset,
            r.offset_spec() == initial_offset,
            r.clean(),
            !r.ended(),
    {
        let r = StatementReader {
            reader: buf_reader_new(inner),
            max_statement_bytes,
            offset: initial_offset,
            buf: Vec::new(),
            in_single_quote: false,
            prev_was_backslash: false,
            scan_pos: 0,
            start_offset: Ghost(initial_offset),
            stream: Ghost(Seq::empty()),
            emitted: Ghost(Seq::empty()),
            ended: Ghost(false),
            clean: Ghost(true),
        };
        proof {
            assert forall|e: Seq<u8>| #[trigger]
                statements(r.stream@ + e) == r.emitted@ + statements(r.buf@ + e) by {
                assert(r.stream@ + e =~= e);
                assert(r.buf@ + e =~= e);
                assert(r.emitted@ + statements(e) =~= statements(e));
            }
        }
        r
    }

    /// The offset in the dump just after the last byte read.
    pub fn offset(&self) -> (r: u64)
        ensures
            r == self.offset_spec(),
    {
        self.offset
    }

    /// Finds the terminator of the first statement in the buffer, resuming the scan where
    /// the last call stopped.
    fn find_statement_terminator_pos(&mut self) -> (r: Option<usize>)
        requires
            scan_inv(
                old(self).buf@,
                old(self).scan_pos as int,
                old(self).in_single_quote,
                old(self).prev_was_backslash,
            ),
            !old(self).in_single_quote ==> !old(self).prev_was_backslash,
        ensures
            final(self).buf == old(self).buf,
            final(self).reader == old(self).reader,
            final(self).max_statement_bytes == old(self).max_statement_bytes,
            final(self).offset == old(self).offset,
            final(self).start_offset == old(self).start_offset,
            final(self).stream == old(self).stream,
            final(self).emitted == old(self).emitted,
            final(self).ended == old(self).ended,
            final(self).clean == old(self).clean,
            match r {
                Some(p) => p < final(self).buf@.len() && forall|e: Seq<u8>| #[trigger]
                    statement_end(final(self).buf@ + e) == Some(p as int),
                None => scan_inv(
                    final(self).buf@,
                    final(self).scan_pos as int,
                    final(self).in_single_quote,
                    final(self).prev_was_backslash,
                ) && (!final(self).in_single_quote ==> !final(self).prev_was_backslash)
                    && statement_end(final(self).buf@) is None,
            },
    {
        let ghost b = self.buf@;
        let ghost i0 = self.scan_pos as int;
        let ghost q0 = self.in_single_quote;
        let ghost bs0 = self.prev_was_backslash;
        let len = self.buf.len();
        let mut idx: usize = if self.scan_pos < len {
            self.scan_pos
        } else {
            len
        };
        let mut q = self.in_single_quote;
        let mut bs = self.prev_was_backslash;
        while idx < len
            invariant
                len == b.len(),
                b == self.buf@,
                self.buf == old(self).buf,
                self.reader == old(self).reader,
                self.max_statement_bytes == old(self).max_statement_bytes,
                self.offset == old(self).offset,
                self.start_offset == old(self).start_offset,
                self.stream == old(self).stream,
                self.emitted == old(self).emitted,
                self.ended == old(self).ended,
                self.clean == old(self).clean,
                idx <= len,
                !q ==> !bs,
                forall|e: Seq<u8>| #[trigger]
                    statement_end(b + e) == term_from(b + e, idx as int, q, bs),
            decreases len - idx,
        {
            let c = self.buf[idx];
            if q {
                if bs {
                    assert forall|e: Seq<u8>| #[trigger] statement_end(b + e) == term_from(
                        b + e,
                        idx + 1,
                        true,
                        false,
                    ) by {
                        assert(term_from(b + e, idx as int, q, bs) == term_from(
                            b + e,
                            idx + 1,
                            true,
                            false,
                        ));
                    }
                    bs = false;
                    idx += 1;
                } else if c == 0x5c {
                    if idx + 1 >= len {
                        self.scan_pos = idx;
                        self.in_single_quote = q;
                        self.prev_was_backslash = bs;
                        proof {
                            assert(b + Seq::<u8>::empty() =~= b);
                        }
                        return None;
                    }
                    assert forall|e: Seq<u8>| #[trigger] statement_end(b + e) == term_from(
                        b + e,
                        idx + 1,
                        true,
                        true,
                    ) by {
                        assert((b + e)[idx as int] == c);
                    }
                    bs = true;
                    idx += 1;
                } else if c == 0x27 {
                    if idx + 1 >= len {
                        self.scan_pos = idx;
                        self.in_single_quote = q;
                        self.prev_was_backslash = bs;
                        proof {
                            assert(b + Seq::<u8>::empty() =~= b);
                        }
                        return None;
                    }
                    if self.buf[idx + 1] == 0x27 {
                        assert forall|e: Seq<u8>| #[trigger] statement_end(b + e) == term_from(
                            b + e,
                            idx + 2,
                            true,
                            false,
                        ) by {
                            assert((b + e)[idx as int] == c);
                            assert((b + e)[idx + 1] == b[idx + 1]);
                        }
                        idx += 2;
                    } else {
                        assert forall|e: Seq<u8>| #[trigger] statement_end(b + e) == term_from(
                            b + e,
                            idx + 1,
                            false,
                            false,
                        ) by {
                            assert((b + e)[idx as int] == c);
                            assert((b + e)[idx + 1] == b[idx + 1]);
                        }
                        q = false;
                        idx += 1;
                    }
                } else {
                    assert forall|e: Seq<u8>| #[trigger] statement_end(b + e) == term_from(
                        b + e,
                        idx + 1,
                        true,
                        false,
                    ) by {
                        assert((b + e)[idx as int] == c);
                    }
                    idx += 1;
                }
            } else if c == 0x27 {
                assert forall|e: Seq<u8>| #[trigger] statement_end(b + e) == term_from(
                    b + e,
                    idx + 1,
                    true,
                    false,
                ) by {
                    assert((b + e)[idx as int] == c);
                }
                q = true;
                idx += 1;
            } else if c == 0x3b {
                self.scan_pos = idx;
                self.in_single_quote = q;
                self.prev_was_backslash = bs;
                assert forall|e: Seq<u8>| #[trigger] statement_end(b + e) == Some(idx as int) by {
                    assert((b + e)[idx as int] == c);
                }
                return Some(idx);
            } else {
                assert forall|e: Seq<u8>| #[trigger] statement_end(b + e) == term_from(
                    b + e,
                    idx + 1,
                    false,
                    false,
                ) by {
                    assert((b + e)[idx as int] == c);
                }
                idx += 1;
            }
        }
        self.scan_pos = idx;
        self.in_single_quote = q;
        self.prev_was_backslash = bs;
        proof {
            assert(b + Seq::<u8>::empty() =~= b);
            assert(statement_end(b + Seq::<u8>::empty()) == term_from(
                b + Seq::<u8>::empty(),
                idx as int,
                q,
                bs,
            ));
        }
        None
    }

    /// Decides the next statement from the bytes already buffered, without reading: the
    /// next non-empty statement, the size error for a statement past the limit, or `None`
    /// when more bytes are needed. Empty pieces it passes over are dropped.
    pub fn next_buffered(&mut self) -> (r: Option<Result<String, MySqlDumpError>>)
        requires
            old(self).wf(),
        ensures
            final(self).wf(),
            final(self).max_bytes() == old(self).max_bytes(),
            final(self).start_offset() == old(self).start_offset(),
            final(self).stream() == old(self).stream(),
            final(self).offset_spec() == old(self).offset_spec(),
            final(self).ended() == old(self).ended(),
            final(self).clean() == old(self).clean(),
            match buffered_outcome(old(self).pending(), old(self).max_bytes() as int) {
                BufferedOutcome::Statement { text, rest } => r matches Some(Ok(t)) && t@ == text
                    && final(self).pending() == rest && final(self).emitted() == old(self).emitted().push(text),
                BufferedOutcome::TooLarge { size, pending } => r matches Some(
                    Err(MySqlDumpError::StatementTooLarge { max_bytes, current_bytes, offset_end, preview }),
                ) && max_bytes == old(self).max_bytes() && current_bytes == size && offset_end
                    == old(self).offset_spec() && preview@ == preview_text(pending.take(size), 256)
                    && final(self).pending() == pending && final(self).emitted() == old(self).emitted(),
                BufferedOutcome::NeedMore { pending } => r is None && final(self).pending()
                    == pending && final(self).emitted() == old(self).emitted(),
            },
    {
        let ghost max = self.max_statement_bytes as int;
        loop
            invariant
                self.wf(),
                self.max_statement_bytes == old(self).max_statement_bytes,
                self.start_offset == old(self).start_offset,
                self.stream == old(self).stream,
                self.offset == old(self).offset,
                self.emitted == old(self).emitted,
                self.ended == old(self).ended,
                self.clean == old(self).clean,
                max == self.max_statement_bytes as int,
                buffered_outcome(old(self).buf@, max) == buffered_outcome(self.buf@, max),
            decreases self.buf@.len(),
        {
            let ghost old_buf = self.buf@;
            match self.find_statement_terminator_pos() {
                Some(pos) => {
                    let blen = self.buf.len();
                    assert(pos < blen);
                    proof {
                        assert(old_buf + Seq::<u8>::empty() =~= old_buf);
                        assert(statement_end(old_buf + Seq::<u8>::empty()) == Some(pos as int));
                    }
                    if pos as u64 >= self.max_statement_bytes {
                        let whole = self.buf.as_slice();
                        let head = &whole[0..pos + 1];
                        assert(head@ =~= old_buf.take(pos + 1));
                        let preview = statement_preview_bytes(head, 256);
                        self.in_single_quote = false;
                        self.prev_was_backslash = false;
                        self.scan_pos = 0;
                        return Some(
                            Err(
                                MySqlDumpError::StatementTooLarge {
                                    max_bytes: self.max_statement_bytes,
                                    current_bytes: pos as u64 + 1,
                                    offset_end: self.offset,
                                    preview,
                                },
                            ),
                        );
                    }
                    let mut stmt_bytes = self.buf.split_off(pos + 1);
                    std::mem::swap(&mut stmt_bytes, &mut self.buf);
                    let text = utf8_lossy(stmt_bytes.as_slice());
                    let stmt = trim_str(text.as_str());
                    self.in_single_quote = false;
                    self.prev_was_backslash = false;
                    self.scan_pos = 0;
                    proof {
                        assert(stmt_bytes@ == old_buf.take(pos + 1));
                        assert(self.buf@ == old_buf.skip(pos + 1));
                        if self.clean@ && !self.ended@ {
                            assert forall|e: Seq<u8>| #[trigger]
                                statements(self.stream@ + e) == (if stmt@.len() == 0 {
                                    self.emitted@
                                } else {
                                    self.emitted@.push(stmt@)
                                }) + statements(self.buf@ + e) by {
                                lemma_statements_drain(old_buf, pos as int, e);
                                if stmt@.len() == 0 {
                                    assert(Seq::<Seq<char>>::empty() + statements(self.buf@ + e)
                                        =~= statements(self.buf@ + e));
                                } else {
                                    assert(self.emitted@ + (seq![stmt@] + statements(
                                        self.buf@ + e,
                                    )) =~= self.emitted@.push(stmt@) + statements(self.buf@ + e));
                                }
                            }
                        }
                    }
                    if stmt.as_str().is_empty() {
                        continue;
                    }
                    proof {
                        self.emitted@ = self.emitted@.push(stmt@);
                    }
                    return Some(Ok(stmt));
                },
                None => {
                    proof {
                        assert(old_buf + Seq::<u8>::empty() =~= old_buf);
                    }
                    if self.buf.len() as u64 > self.max_statement_bytes {
                        let preview = statement_preview_bytes(self.buf.as_slice(), 256);
                        assert(self.buf@.take(self.buf@.len() as int) =~= self.buf@);
                        return Some(
                            Err(
                                MySqlDumpError::StatementTooLarge {
                                    max_bytes: self.max_statement_bytes,
                                    current_bytes: self.buf.len() as u64,
                                    offset_end: self.offset,
                                    preview,
                                },
                            ),
                        );
                    }
                    return None;
                },
            }
        }
    }

    /// Appends bytes read from the stream. The offset grows by their number; an offset
    /// past `u64::MAX` is a parse error and leaves the reader unchanged.
    pub fn add_bytes(&mut self, bytes: &[u8]) -> (r: Result<(), MySqlDumpError>)
        requires
            old(self).wf(),
        ensures
            final(self).wf(),
            final(self).max_bytes() == old(self).max_bytes(),
            final(self).start_offset() == old(self).start_offset(),
            final(self).emitted() == old(self).emitted(),
            final(self).ended() == old(self).ended(),
            final(self).clean() ==> old(self).clean(),
            old(self).clean() && !old(self).ended() ==> final(self).clean(),
            match r {
                Ok(()) => old(self).offset_spec() + bytes@.len() <= u64::MAX && final(self).stream()
                    == old(self).stream() + bytes@ && final(self).pending() == old(self).pending()
                    + bytes@,
                Err(e) => old(self).offset_spec() + bytes@.len() > u64::MAX && (e matches MySqlDumpError::Parse(
                    m,
                ) && m@ == "dump offset exceeds u64::MAX"@) && final(self).stream() == old(self).stream() && final(self).pending() == old(self).pending(),
            },
    {
        let len = bytes.len();
        if self.offset > u64::MAX - (len as u64) {
            return Err(MySqlDumpError::Parse("dump offset exceeds u64::MAX".to_string()));
        }
        let mut chunk = vstd::slice::slice_to_vec(bytes);
        let ghost old_buf = self.buf@;
        let ghost old_stream = self.stream@;
        let ghost c = chunk@;
        self.buf.append(&mut chunk);
        self.offset = self.offset + len as u64;
        proof {
            self.stream@ = old_stream + c;
            assert forall|e: Seq<u8>| #[trigger] statement_end(self.buf@ + e) == term_from(
                self.buf@ + e,
                self.scan_pos as int,
                self.in_single_quote,
                self.prev_was_backslash,
            ) by {
                assert(self.buf@ + e =~= old_buf + (c + e));
                assert(statement_end(old_buf + (c + e)) == term_from(
                    old_buf + (c + e),
                    self.scan_pos as int,
                    self.in_single_quote,
                    self.prev_was_backslash,
                ));
            }
            if self.clean@ && !self.ended@ {
                assert forall|e: Seq<u8>| #[trigger]
                    statements(self.stream@ + e) == self.emitted@ + statements(self.buf@ + e) by {
                    assert(self.buf@ + e =~= old_buf + (c + e));
                    assert(self.stream@ + e =~= old_stream + (c + e));
                    assert(statements(old_stream + (c + e)) == self.emitted@ + statements(
                        old_buf + (c + e),
                    ));
                }
            }
            if self.ended@ && c.len() > 0 {
                self.clean@ = false;
            }
            if self.ended@ && c.len() == 0 {
                assert(self.buf@ =~= old_buf);
                assert(self.stream@ =~= old_stream);
            }
        }
        Ok(())
    }

    /// Handles the end of the stream when the buffered bytes hold no terminated statement:
    /// what is left is the last statement, unless it is empty after trimming.
    pub fn end_of_stream(&mut self) -> (r: Option<String>)
        requires
            old(self).wf(),
            statement_end(old(self).pending()) is None,
        ensures
            final(self).wf(),
            final(self).max_bytes() == old(self).max_bytes(),
            final(self).start_offset() == old(self).start_offset(),
            final(self).stream() == old(self).stream(),
            final(self).offset_spec() == old(self).offset_spec(),
            final(self).pending() == Seq::<u8>::empty(),
            final(self).clean() == old(self).clean(),
            final(self).clean() ==> final(self).ended(),
            match r {
                Some(t) => last_statement(old(self).pending()) == Some(t@) && final(self).emitted()
                    == old(self).emitted().push(t@),
                None => last_statement(old(self).pending()) is None && final(self).emitted() == old(self).emitted(),
            },
    {
        let ghost old_buf = self.buf@;
        let was_empty = self.buf.len() == 0;
        let text = utf8_lossy(self.buf.as_slice());
        let stmt = trim_str(text.as_str());
        self.buf.clear();
        self.in_single_quote = false;
        self.prev_was_backslash = false;
        self.scan_pos = 0;
        let empty = was_empty || stmt.as_str().is_empty();
        proof {
            if self.clean@ && !self.ended@ {
                assert(self.stream@ + Seq::<u8>::empty() =~= self.stream@);
                assert(old_buf + Seq::<u8>::empty() =~= old_buf);
                assert(statements(self.stream@ + Seq::<u8>::empty()) == self.emitted@ + statements(
                    old_buf + Seq::<u8>::empty(),
                ));
                if empty {
                    assert(self.emitted@ + statements(old_buf) =~= self.emitted@);
                } else {
                    assert(self.emitted@ + statements(old_buf) =~= self.emitted@.push(stmt@));
                }
                self.ended@ = true;
            }
            if !empty {
                self.emitted@ = self.emitted@.push(stmt@);
            }
            assert forall|e: Seq<u8>| #[trigger] statement_end(self.buf@ + e) == term_from(
                self.buf@ + e,
                0,
                false,
                false,
            ) by {}
        }
        if empty {
            return None;
        }
        Some(stmt)
    }

    /// The next non-empty statement of the stream, trimmed; `None` at the end of the
    /// stream. A statement is the text up to and including a `;` outside single quotes,
    /// or the rest of the stream at its end. A statement whose bytes exceed
    /// `max_statement_bytes` (counted up to its `;`, or so far while it is unfinished) is
    /// an error that reports its size, the offset reached and a preview of its first 256
    /// bytes. Bytes are read only while the buffered ones do not decide.
    pub fn next_statement(&mut self) -> (r: Result<Option<String>, MySqlDumpError>)
        requires
            old(self).wf(),
        ensures
            final(self).wf(),
            final(self).max_bytes() == old(self).max_bytes(),
            final(self).start_offset() == old(self).start_offset(),
            old(self).stream().len() <= final(self).stream().len(),
            final(self).stream().take(old(self).stream().len() as int) == old(self).stream(),
            final(self).offset_spec() == final(self).start_offset() + final(self).stream().len(),
            old(self).clean() && !old(self).ended() ==> final(self).clean(),
            !(buffered_outcome(old(self).pending(), old(self).max_bytes() as int) is NeedMore)
                ==> final(self).stream() == old(self).stream(),
            ({
                let read = final(self).stream().skip(old(self).stream().len() as int);
                let outcome = buffered_outcome(
                    old(self).pending() + read,
                    old(self).max_bytes() as int,
                );
                match r {
                    Ok(Some(stmt)) => final(self).emitted() == old(self).emitted().push(stmt@) && match outcome {
                        BufferedOutcome::Statement { text, rest } => stmt@ == text
                            && final(self).pending() == rest,
                        BufferedOutcome::NeedMore { pending } => last_statement(pending) == Some(
                            stmt@,
                        ) && final(self).pending().len() == 0,
                        BufferedOutcome::TooLarge { .. } => false,
                    },
                    Ok(None) => final(self).emitted() == old(self).emitted() && (outcome matches BufferedOutcome::NeedMore {
                        pending,
                    } && last_statement(pending) is None) && final(self).pending().len() == 0 && (
                    final(self).clean() ==> final(self).ended()) && (
                    final(self).clean() ==> statements(final(self).stream()) == final(self).emitted()),
                    Err(MySqlDumpError::StatementTooLarge {
                        max_bytes,
                        current_bytes,
                        offset_end,
                        preview,
                    }) => final(self).emitted() == old(self).emitted() && outcome
                        == BufferedOutcome::TooLarge {
                        size: current_bytes as int,
                        pending: final(self).pending(),
                    } && max_bytes == final(self).max_bytes() && offset_end == final(self).offset_spec() && preview@ == preview_text(
                        final(self).pending().take(current_bytes as int),
                        256,
                    ),
                    Err(MySqlDumpError::Parse(m)) => final(self).emitted() == old(self).emitted()
                        && outcome is NeedMore && m@ == "dump offset exceeds u64::MAX"@,
                    Err(MySqlDumpError::Io(_)) => final(self).emitted() == old(self).emitted()
                        && outcome is NeedMore,
                }
            }),
            old(self).clean() && !old(self).ended() ==> (r matches Ok(Some(stmt)) ==> (
            final(self).ended() ==> statements(final(self).stream()) == old(self).emitted().push(
                stmt@,
            )) && (!final(self).ended() ==> forall|e: Seq<u8>| #[trigger]
                statements(final(self).stream() + e) == old(self).emitted().push(stmt@)
                + statements(final(self).pending() + e))),
    {
        let ghost s0 = self.stream@;
        let ghost p0 = self.buf@;
        let ghost max = self.max_statement_bytes as int;
        loop
            invariant
                self.wf(),
                self.max_statement_bytes == old(self).max_statement_bytes,
                max == self.max_statement_bytes as int,
                self.start_offset == old(self).start_offset,
                s0 == old(self).stream@,
                p0 == old(self).buf@,
                s0.len() <= self.stream@.len(),
                self.stream@.take(s0.len() as int) == s0,
                self.emitted == old(self).emitted,
                self.ended == old(self).ended,
                old(self).clean@ && !old(self).ended@ ==> self.clean@,
                forall|e: Seq<u8>| #[trigger]
                    buffered_outcome(p0 + self.stream@.skip(s0.len() as int) + e, max)
                        == buffered_outcome(self.buf@ + e, max),
                self.stream@.len() > s0.len() ==> buffered_outcome(p0, max) is NeedMore,
            decreases u64::MAX - self.offset,
        {
            let ghost c = self.stream@.skip(s0.len() as int);
            let ghost b0 = self.buf@;
            proof {
                assert(p0 + c + Seq::<u8>::empty() =~= p0 + c);
                assert(b0 + Seq::<u8>::empty() =~= b0);
                assert(buffered_outcome(p0 + c + Seq::<u8>::empty(), max) == buffered_outcome(
                    b0 + Seq::<u8>::empty(),
                    max,
                ));
                if self.stream@.len() == s0.len() {
                    assert(c =~= Seq::<u8>::empty());
                    assert(p0 + c =~= p0);
                    assert(self.stream@ =~= s0);
                }
            }
            match self.next_buffered() {
                Some(Ok(stmt)) => {
                    return Ok(Some(stmt));
                },
                Some(Err(e)) => {
                    return Err(e);
                },
                None => {},
            }
            let ghost b1 = self.buf@;
            proof {
                assert forall|e: Seq<u8>| #[trigger]
                    buffered_outcome(p0 + c + e, max) == buffered_outcome(b1 + e, max) by {
                    lemma_need_more_continues(b0, max, e);
                }
                lemma_need_more_continues(b0, max, Seq::<u8>::empty());
            }
            let available = match fill_buf(&mut self.reader) {
                Ok(a) => a,
                Err(e) => {
                    return Err(MySqlDumpError::Io(e));
                },
            };
            if available.len() == 0 {
                let last = self.end_of_stream();
                return Ok(last);
            }
            let chunk = vstd::slice::slice_to_vec(available);
            let len = chunk.len();
            consume(&mut self.reader, len);
            let ghost st1 = self.stream@;
            match self.add_bytes(chunk.as_slice()) {
                Err(e) => {
                    return Err(e);
                },
                Ok(()) => {},
            }
            proof {
                let c2 = chunk@;
                assert(self.stream@ =~= st1 + c2);
                assert(self.stream@.skip(s0.len() as int) =~= c + c2);
                assert(self.stream@.take(s0.len() as int) =~= st1.take(s0.len() as int));
                assert forall|e: Seq<u8>| #[trigger]
                    buffered_outcome(p0 + self.stream@.skip(s0.len() as int) + e, max)
                        == buffered_outcome(self.buf@ + e, max) by {
                    assert(p0 + self.stream@.skip(s0.len() as int) + e =~= p0 + c + (c2 + e));
                    assert(self.buf@ + e =~= b1 + (c2 + e));
                    assert(buffered_outcome(p0 + c + (c2 + e), max) == buffered_outcome(
                        b1 + (c2 + e),
                        max,
                    ));
                }
            }
        }
    }
}


} // verus!
