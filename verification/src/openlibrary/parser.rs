//! Lines of an Open Library dump: `type \t key \t revision \t last_modified \t json`.
//! The line is split and its header fields read here; the JSON text is parsed by
//! `serde_json` into a `JsonValue`, from which the record's fields are taken.
use crate::literals::{i32_literal, parse_i32};
use crate::libgen::ingest::strings_view;
use crate::text::{find_char, lemma_find_char, str_chars, string_from_chars};
use crate::time_text::{chrono_naive_datetime, chrono_rfc3339_utc, parse_naive_datetime, parse_rfc3339_utc};
use vstd::prelude::*;
use vstd::string::StringExecFns;

verus! {

broadcast use vstd::string::group_string_axioms;

/// A JSON value, as the record extraction reads it.
pub enum JsonValue {
    Null,
    Bool(bool),
    /// A number that is an `i64`.
    Int(i64),
    /// A non-negative number that is a `u64`.
    UInt(u64),
    /// Any other number, as text.
    Float(String),
    Str(String),
    Array(Vec<JsonValue>),
    /// The members of an object, each key once.
    Object(Vec<(String, JsonValue)>),
}

/// The header fields of a dump line, with the JSON text still unparsed.
pub struct OlLine {
    pub ol_type: String,
    pub ol_key: String,
    pub revision: i32,
    /// The last modification time, in RFC 3339 form in UTC.
    pub last_modified: String,
    pub json: String,
}

/// Why a dump line was refused.
#[derive(Debug, Clone, Copy, PartialEq, Eq, Structural)]
pub enum OlParseError {
    MissingType,
    MissingKey,
    MissingRevision,
    MissingLastModified,
    MissingJson,
    Revision,
    LastModified,
    Json,
}

impl OlParseError {
    /// The message reported.
    pub fn message(self) -> (r: &'static str)
        ensures
            r@ == match self {
                OlParseError::MissingType => "missing type"@,
                OlParseError::MissingKey => "missing key"@,
                OlParseError::MissingRevision => "missing revision"@,
                OlParseError::MissingLastModified => "missing last_modified"@,
                OlParseError::MissingJson => "missing json"@,
                OlParseError::Revision => "failed to parse revision"@,
                OlParseError::LastModified => "failed to parse last_modified"@,
                OlParseError::Json => "failed to parse JSON data"@,
            },
    {
        match self {
            OlParseError::MissingType => "missing type",
            OlParseError::MissingKey => "missing key",
            OlParseError::MissingRevision => "missing revision",
            OlParseError::MissingLastModified => "missing last_modified",
            OlParseError::MissingJson => "missing json",
            OlParseError::Revision => "failed to parse revision",
            OlParseError::LastModified => "failed to parse last_modified",
            OlParseError::Json => "failed to parse JSON data",
        }
    }
}

// ---------------------------------------------------------------------------
// Splitting a line
// ---------------------------------------------------------------------------

/// `str::splitn(n, '\t')`: at most `n` pieces, the last holding the rest of the line.
pub open spec fn split_tabs(s: Seq<char>, n: nat) -> Seq<Seq<char>>
    decreases n,
{
    if n <= 1 {
        seq![s]
    } else {
        match find_char(s, '\t') {
            None => seq![s],
            Some(i) => seq![s.take(i)] + split_tabs(s.skip(i + 1), (n - 1) as nat),
        }
    }
}

/// A time of the dump in RFC 3339 form in UTC: with a trailing `Z` it is read as RFC
/// 3339, otherwise as a UTC time with, then without, fractional seconds.
pub open spec fn dump_time(s: Seq<char>) -> Option<Seq<char>> {
    if s.len() > 0 && s.last() == 'Z' {
        chrono_rfc3339_utc(s)
    } else {
        match chrono_naive_datetime(s, "%Y-%m-%dT%H:%M:%S%.f"@) {
            Some((_, utc)) => Some(utc),
            None => match chrono_naive_datetime(s, "%Y-%m-%dT%H:%M:%S"@) {
                Some((_, utc)) => Some(utc),
                None => None,
            },
        }
    }
}

/// Reads a time of the dump (see `dump_time`).
pub fn parse_dump_time(s: &str) -> (r: Option<String>)
    ensures
        match r {
            Some(t) => dump_time(s@) == Some(t@),
            None => dump_time(s@) is None,
        },
{
    let c = str_chars(s);
    if c.len() > 0 && c[c.len() - 1] == 'Z' {
        return parse_rfc3339_utc(s);
    }
    proof {
        reveal_strlit("%Y-%m-%dT%H:%M:%S%.f");
        reveal_strlit("%Y-%m-%dT%H:%M:%S");
    }
    match parse_naive_datetime(s, "%Y-%m-%dT%H:%M:%S%.f") {
        Some((_, utc)) => Some(utc),
        None => match parse_naive_datetime(s, "%Y-%m-%dT%H:%M:%S") {
            Some((_, utc)) => Some(utc),
            None => None,
        },
    }
}

/// The pieces of `s[from..]` split at tabs, at most `n` of them.
fn split_tabs_from(c: &[char], from: usize, n: usize) -> (r: Vec<String>)
    requires
        from <= c@.len(),
        n >= 1,
    ensures
        strings_view(r@) == split_tabs(c@.skip(from as int), n as nat),
    decreases n,
{
    let ghost s = c@.skip(from as int);
    let len = c.len();
    let found = if n <= 1 {
        None
    } else {
        crate::text::find_char_from(c, from, '\t')
    };
    match found {
        None => {
            let mut v: Vec<String> = Vec::new();
            v.push(string_from_chars(&c[from..c.len()]));
            assert(c@.subrange(from as int, c@.len() as int) =~= s);
            assert(strings_view(v@) =~= seq![s]);
            v
        },
        Some(i) => {
            proof {
                lemma_find_char(s, '\t');
            }
            let head = string_from_chars(&c[from..from + i]);
            let rest = split_tabs_from(c, from + i + 1, n - 1);
            let mut v: Vec<String> = Vec::new();
            v.push(head);
            let ghost before = strings_view(v@);
            let mut rest = rest;
            v.append(&mut rest);
            proof {
                assert(c@.subrange(from as int, from + i) =~= s.take(i as int));
                assert(c@.skip(from + i + 1) =~= s.skip(i + 1));
                assert(strings_view(v@) =~= seq![s.take(i as int)] + split_tabs(
                    s.skip(i + 1),
                    (n - 1) as nat,
                ));
            }
            v
        },
    }
}

proof fn lemma_split_tabs_len(s: Seq<char>, n: nat)
    requires
        n >= 1,
    ensures
        1 <= split_tabs(s, n).len() <= n,
    decreases n,
{
    if n > 1 {
        match find_char(s, '\t') {
            None => {},
            Some(i) => {
                lemma_split_tabs_len(s.skip(i + 1), (n - 1) as nat);
            },
        }
    }
}

/// The header fields of a line as `spec_parse_line_fields` reads them.
pub open spec fn line_fields_view(l: OlLine) -> (Seq<char>, Seq<char>, i32, Seq<char>, Seq<char>) {
    (l.ol_type@, l.ol_key@, l.revision, l.last_modified@, l.json@)
}

/// Splits a dump line into at most five tab-separated pieces and reads the revision as an
/// `i32`; the time is left as text. Missing pieces are reported first (in order), then a
/// bad revision.
pub open spec fn spec_split_line(line: Seq<char>) -> Result<
    (Seq<char>, Seq<char>, i32, Seq<char>, Seq<char>),
    OlParseError,
> {
    let p = split_tabs(line, 5);
    if p.len() < 1 {
        Err(OlParseError::MissingType)
    } else if p.len() < 2 {
        Err(OlParseError::MissingKey)
    } else if p.len() < 3 {
        Err(OlParseError::MissingRevision)
    } else if p.len() < 4 {
        Err(OlParseError::MissingLastModified)
    } else if p.len() < 5 {
        Err(OlParseError::MissingJson)
    } else {
        match i32_literal(p[2]) {
            None => Err(OlParseError::Revision),
            Some(rev) => Ok((p[0], p[1], rev, p[3], p[4])),
        }
    }
}

/// The header of a dump line: split as `spec_split_line` does, then the modification
/// time read as a dump time (a bad time is reported last).
pub open spec fn spec_parse_line_fields(line: Seq<char>) -> Result<
    (Seq<char>, Seq<char>, i32, Seq<char>, Seq<char>),
    OlParseError,
> {
    match spec_split_line(line) {
        Err(e) => Err(e),
        Ok(v) => match dump_time(v.3) {
            None => Err(OlParseError::LastModified),
            Some(t) => Ok((v.0, v.1, v.2, t, v.4)),
        },
    }
}

/// Splits a dump line (see `spec_split_line`); the `last_modified` of the result is still
/// the text of the line.
pub fn split_line(line: &str) -> (r: Result<OlLine, OlParseError>)
    ensures
        match spec_split_line(line@) {
            Ok(v) => r matches Ok(l) && line_fields_view(l) == v,
            Err(e) => r matches Err(x) && x == e,
        },
{
    let c = str_chars(line);
    let mut parts = split_tabs_from(c.as_slice(), 0, 5);
    assert(c@.skip(0) =~= line@);
    proof {
        lemma_split_tabs_len(line@, 5);
    }
    let n = parts.len();
    if n < 1 {
        return Err(OlParseError::MissingType);
    }
    if n < 2 {
        return Err(OlParseError::MissingKey);
    }
    if n < 3 {
        return Err(OlParseError::MissingRevision);
    }
    if n < 4 {
        return Err(OlParseError::MissingLastModified);
    }
    if n < 5 {
        return Err(OlParseError::MissingJson);
    }
    let ghost pv = strings_view(parts@);
    assert(pv[2] == parts@[2]@);
    let revision = match parse_i32(parts[2].as_str()) {
        Some(v) => v,
        None => {
            return Err(OlParseError::Revision);
        },
    };
    let json = parts.pop().unwrap();
    let last_modified = parts.pop().unwrap();
    let _ = parts.pop();
    let ol_key = parts.pop().unwrap();
    let ol_type = parts.pop().unwrap();
    assert(json@ == pv[4]);
    assert(last_modified@ == pv[3]);
    assert(ol_key@ == pv[1]);
    assert(ol_type@ == pv[0]);
    Ok(OlLine { ol_type, ol_key, revision, last_modified, json })
}

/// A split line with its time replaced by the reading of it: an error when the time could
/// not be read.
pub fn with_time(line: OlLine, time: Option<String>) -> (r: Result<OlLine, OlParseError>)
    ensures
        match time {
            None => r matches Err(OlParseError::LastModified),
            Some(t) => r matches Ok(l) && line_fields_view(l) == (
                line.ol_type@,
                line.ol_key@,
                line.revision,
                t@,
                line.json@,
            ),
        },
{
    match time {
        None => Err(OlParseError::LastModified),
        Some(t) => Ok(OlLine { last_modified: t, ..line }),
    }
}

/// Reads the header of a dump line (see `spec_parse_line_fields`).
pub fn parse_line_fields(line: &str) -> (r: Result<OlLine, OlParseError>)
    ensures
        match spec_parse_line_fields(line@) {
            Ok(v) => r matches Ok(l) && line_fields_view(l) == v,
            Err(e) => r matches Err(x) && x == e,
        },
{
    let split = split_line(line)?;
    let time = parse_dump_time(split.last_modified.as_str());
    with_time(split, time)
}

// ---------------------------------------------------------------------------
// Reading the JSON data
// ---------------------------------------------------------------------------

/// The value of the first member named `key` of `members`.
pub open spec fn first_member(members: Seq<(String, JsonValue)>, key: Seq<char>) -> Option<JsonValue>
    decreases members.len(),
{
    if members.len() == 0 {
        None
    } else if members[0].0@ == key {
        Some(members[0].1)
    } else {
        first_member(members.drop_first(), key)
    }
}

/// `serde_json::Value::get(key)`: the member `key` of an object; `None` for anything else.
pub open spec fn json_get(v: JsonValue, key: Seq<char>) -> Option<JsonValue> {
    match v {
        JsonValue::Object(m) => first_member(m@, key),
        _ => None,
    }
}

/// `serde_json::Value::as_str`.
pub open spec fn json_str(v: JsonValue) -> Option<Seq<char>> {
    match v {
        JsonValue::Str(s) => Some(s@),
        _ => None,
    }
}

/// `serde_json::Value::as_i64`: an integer that fits in an `i64`.
pub open spec fn json_i64(v: JsonValue) -> Option<i64> {
    match v {
        JsonValue::Int(i) => Some(i),
        JsonValue::UInt(u) => if u <= i64::MAX {
            Some(u as i64)
        } else {
            None
        },
        _ => None,
    }
}

/// The text of member `key`, if it is a string.
pub open spec fn str_field(v: JsonValue, key: Seq<char>) -> Option<Seq<char>> {
    match json_get(v, key) {
        Some(x) => json_str(x),
        None => None,
    }
}

/// The strings among `items`, in order.
pub open spec fn strs_of(items: Seq<JsonValue>) -> Seq<Seq<char>>
    decreases items.len(),
{
    if items.len() == 0 {
        Seq::empty()
    } else {
        strs_of(items.drop_last()) + match json_str(items.last()) {
            Some(s) => seq![s],
            None => Seq::empty(),
        }
    }
}

/// The `i64` integers among `items`, in order.
pub open spec fn ints_of(items: Seq<JsonValue>) -> Seq<i64>
    decreases items.len(),
{
    if items.len() == 0 {
        Seq::empty()
    } else {
        ints_of(items.drop_last()) + match json_i64(items.last()) {
            Some(i) => seq![i],
            None => Seq::empty(),
        }
    }
}

/// The strings of the array member `key` (none when it is not an array).
pub open spec fn str_list(v: JsonValue, key: Seq<char>) -> Seq<Seq<char>> {
    match json_get(v, key) {
        Some(JsonValue::Array(items)) => strs_of(items@),
        _ => Seq::empty(),
    }
}

/// The integers of the array member `key` (none when it is not an array).
pub open spec fn int_list(v: JsonValue, key: Seq<char>) -> Seq<i64> {
    match json_get(v, key) {
        Some(JsonValue::Array(items)) => ints_of(items@),
        _ => Seq::empty(),
    }
}

/// The key of an author entry: its own `key`, else the `key` of its `author`.
pub open spec fn author_key(a: JsonValue) -> Option<Seq<char>> {
    match str_field(a, "key"@) {
        Some(k) => Some(k),
        None => match json_get(a, "author"@) {
            Some(au) => str_field(au, "key"@),
            None => None,
        },
    }
}

/// The author keys of a list of author entries, in order.
pub open spec fn authors_of(items: Seq<JsonValue>) -> Seq<Seq<char>>
    decreases items.len(),
{
    if items.len() == 0 {
        Seq::empty()
    } else {
        authors_of(items.drop_last()) + match author_key(items.last()) {
            Some(k) => seq![k],
            None => Seq::empty(),
        }
    }
}

/// The author keys of a record's data.
pub open spec fn author_keys(v: JsonValue) -> Seq<Seq<char>> {
    match json_get(v, "authors"@) {
        Some(JsonValue::Array(items)) => authors_of(items@),
        _ => Seq::empty(),
    }
}

/// The creation time of a record: the `value` of its `created` member, read as a dump
/// time.
pub open spec fn created_time(v: JsonValue) -> Option<Seq<char>> {
    match json_get(v, "created"@) {
        Some(c) => match str_field(c, "value"@) {
            Some(t) => dump_time(t),
            None => None,
        },
        None => None,
    }
}

/// The member `key` of `v`, if `v` is an object that has it.
pub fn get_member<'a>(v: &'a JsonValue, key: &str) -> (r: Option<&'a JsonValue>)
    ensures
        match r {
            Some(x) => json_get(*v, key@) == Some(*x),
            None => json_get(*v, key@) is None,
        },
{
    match v {
        JsonValue::Object(m) => {
            let k = key.to_string();
            let mut i: usize = 0;
            assert(m@.skip(0) =~= m@);
            while i < m.len()
                invariant
                    i <= m@.len(),
                    k@ == key@,
                    first_member(m@, key@) == first_member(m@.skip(i as int), key@),
                    json_get(*v, key@) == first_member(m@, key@),
                decreases m@.len() - i,
            {
                assert(m@.skip(i as int)[0] == m@[i as int]);
                if m[i].0 == k {
                    return Some(&m[i].1);
                }
                assert(m@.skip(i as int).drop_first() =~= m@.skip(i + 1));
                i += 1;
            }
            None
        },
        _ => None,
    }
}

/// The text of member `key`, if it is a string.
pub fn str_member(v: &JsonValue, key: &str) -> (r: Option<String>)
    ensures
        match r {
            Some(s) => str_field(*v, key@) == Some(s@),
            None => str_field(*v, key@) is None,
        },
{
    match get_member(v, key) {
        Some(JsonValue::Str(s)) => Some(s.clone()),
        _ => None,
    }
}

/// The strings of the array member `key`.
pub fn str_list_member(v: &JsonValue, key: &str) -> (r: Vec<String>)
    ensures
        strings_view(r@) == str_list(*v, key@),
{
    let mut out: Vec<String> = Vec::new();
    match get_member(v, key) {
        Some(JsonValue::Array(items)) => {
            let mut i: usize = 0;
            while i < items.len()
                invariant
                    i <= items@.len(),
                    strings_view(out@) == strs_of(items@.take(i as int)),
                decreases items@.len() - i,
            {
                assert(items@.take(i + 1).drop_last() =~= items@.take(i as int));
                let ghost before = strings_view(out@);
                match &items[i] {
                    JsonValue::Str(s) => {
                        out.push(s.clone());
                        assert(strings_view(out@) =~= before.push(s@));
                    },
                    _ => {},
                }
                assert(strings_view(out@) =~= strs_of(items@.take(i + 1)));
                i += 1;
            }
            assert(items@.take(i as int) =~= items@);
            out
        },
        _ => {
            assert(strings_view(out@) =~= Seq::<Seq<char>>::empty());
            out
        },
    }
}

fn as_i64(v: &JsonValue) -> (r: Option<i64>)
    ensures
        r == json_i64(*v),
{
    match v {
        JsonValue::Int(i) => Some(*i),
        JsonValue::UInt(u) => if *u <= 0x7fff_ffff_ffff_ffff {
            Some(*u as i64)
        } else {
            None
        },
        _ => None,
    }
}

/// The integers of the array member `key`.
pub fn int_list_member(v: &JsonValue, key: &str) -> (r: Vec<i64>)
    ensures
        r@ == int_list(*v, key@),
{
    let mut out: Vec<i64> = Vec::new();
    match get_member(v, key) {
        Some(JsonValue::Array(items)) => {
            let mut i: usize = 0;
            while i < items.len()
                invariant
                    i <= items@.len(),
                    out@ == ints_of(items@.take(i as int)),
                decreases items@.len() - i,
            {
                assert(items@.take(i + 1).drop_last() =~= items@.take(i as int));
                match as_i64(&items[i]) {
                    Some(x) => out.push(x),
                    None => {},
                }
                assert(out@ =~= ints_of(items@.take(i + 1)));
                i += 1;
            }
            assert(items@.take(i as int) =~= items@);
            out
        },
        _ => out,
    }
}

/// The author keys of a record's data.
pub fn author_keys_member(v: &JsonValue) -> (r: Vec<String>)
    ensures
        strings_view(r@) == author_keys(*v),
{
    let mut out: Vec<String> = Vec::new();
    match get_member(v, "authors") {
        Some(JsonValue::Array(items)) => {
            let mut i: usize = 0;
            while i < items.len()
                invariant
                    i <= items@.len(),
                    strings_view(out@) == authors_of(items@.take(i as int)),
                decreases items@.len() - i,
            {
                assert(items@.take(i + 1).drop_last() =~= items@.take(i as int));
                let ghost before = strings_view(out@);
                let a = &items[i];
                let k = match str_member(a, "key") {
                    Some(k) => Some(k),
                    None => match get_member(a, "author") {
                        Some(au) => str_member(au, "key"),
                        None => None,
                    },
                };
                match k {
                    Some(k) => {
                        out.push(k);
                    },
                    None => {},
                }
                assert(strings_view(out@) =~= authors_of(items@.take(i + 1)));
                i += 1;
            }
            assert(items@.take(i as int) =~= items@);
            out
        },
        _ => {
            assert(strings_view(out@) =~= Seq::<Seq<char>>::empty());
            out
        },
    }
}

/// A record of the dump: its header and what is read from its JSON data.
pub struct OlRecord {
    pub ol_type: String,
    pub ol_key: String,
    pub revision: i32,
    /// In RFC 3339 form, UTC.
    pub last_modified: String,
    /// In RFC 3339 form, UTC.
    pub created: Option<String>,
    pub data: JsonValue,
    pub title: Option<String>,
    pub subtitle: Option<String>,
    pub name: Option<String>,
    pub birth_date: Option<String>,
    pub death_date: Option<String>,
    pub bio: Option<String>,
    pub website: Option<String>,
    pub description: Option<String>,
    pub publish_date: Option<String>,
    pub physical_format: Option<String>,
    pub notes: Option<String>,
    pub number_of_pages: Option<i64>,
    pub author_keys: Vec<String>,
    pub isbn_10: Vec<String>,
    pub isbn_13: Vec<String>,
    pub publishers: Vec<String>,
    pub subjects: Vec<String>,
    pub subject_people: Vec<String>,
    pub subject_places: Vec<String>,
    pub subject_times: Vec<String>,
    pub languages: Vec<String>,
    pub lc_classifications: Vec<String>,
    pub dewey_decimal_class: Vec<String>,
    pub covers: Vec<i64>,
}

/// The view of an optional string.
pub open spec fn opt_text(o: Option<String>) -> Option<Seq<char>> {
    match o {
        Some(s) => Some(s@),
        None => None,
    }
}

/// The record of a line: the header as read, text members as strings when they are
/// strings, list members as their string (or integer) items, the author keys of the
/// author entries, and the creation time from `created.value`.
pub open spec fn record_matches(r: OlRecord, line: (Seq<char>, Seq<char>, i32, Seq<char>, Seq<char>), data: JsonValue) -> bool {
    &&& r.ol_type@ == line.0
    &&& r.ol_key@ == line.1
    &&& r.revision == line.2
    &&& r.last_modified@ == line.3
    &&& r.data == data
    &&& opt_text(r.created) == created_time(data)
    &&& opt_text(r.title) == str_field(data, "title"@)
    &&& opt_text(r.subtitle) == str_field(data, "subtitle"@)
    &&& opt_text(r.name) == str_field(data, "name"@)
    &&& opt_text(r.birth_date) == str_field(data, "birth_date"@)
    &&& opt_text(r.death_date) == str_field(data, "death_date"@)
    &&& opt_text(r.bio) == str_field(data, "bio"@)
    &&& opt_text(r.website) == str_field(data, "website"@)
    &&& opt_text(r.description) == str_field(data, "description"@)
    &&& opt_text(r.publish_date) == str_field(data, "publish_date"@)
    &&& opt_text(r.physical_format) == str_field(data, "physical_format"@)
    &&& opt_text(r.notes) == str_field(data, "notes"@)
    &&& r.number_of_pages == match json_get(data, "number_of_pages"@) {
        Some(x) => json_i64(x),
        None => None,
    }
    &&& strings_view(r.author_keys@) == author_keys(data)
    &&& strings_view(r.isbn_10@) == str_list(data, "isbn_10"@)
    &&& strings_view(r.isbn_13@) == str_list(data, "isbn_13"@)
    &&& strings_view(r.publishers@) == str_list(data, "publishers"@)
    &&& strings_view(r.subjects@) == str_list(data, "subjects"@)
    &&& strings_view(r.subject_people@) == str_list(data, "subject_people"@)
    &&& strings_view(r.subject_places@) == str_list(data, "subject_places"@)
    &&& strings_view(r.subject_times@) == str_list(data, "subject_times"@)
    &&& strings_view(r.languages@) == str_list(data, "languages"@)
    &&& strings_view(r.lc_classifications@) == str_list(data, "lc_classifications"@)
    &&& strings_view(r.dewey_decimal_class@) == str_list(data, "dewey_decimal_class"@)
    &&& r.covers@ == int_list(data, "covers"@)
}

/// `serde_json::Value`, carried through unchanged.
#[verifier::external_type_specification]
#[verifier::external_body]
pub struct ExSerdeJsonValue(serde_json::Value);

/// A name for what `serde_json::from_str` makes of a JSON text, as a `JsonValue`; `None`
/// when the text is not JSON.
pub uninterp spec fn serde_json_value(text: Seq<char>) -> Option<JsonValue>;

/// Converts `serde_json`'s value into the library's, one arm per variant: numbers that
/// are `i64` or `u64` as such, other numbers as their text, object members in
/// `serde_json`'s order.
#[verifier::external_body]
fn json_from_serde(v: &serde_json::Value) -> JsonValue {
    match v {
        serde_json::Value::Null => JsonValue::Null,
        serde_json::Value::Bool(b) => JsonValue::Bool(*b),
        serde_json::Value::Number(n) => n.as_i64().map(JsonValue::Int).or(n.as_u64().map(JsonValue::UInt))
            .unwrap_or_else(|| JsonValue::Float(n.to_string())),
        serde_json::Value::String(s) => JsonValue::Str(s.clone()),
        serde_json::Value::Array(a) => JsonValue::Array(a.iter().map(json_from_serde).collect()),
        serde_json::Value::Object(m) => JsonValue::Object(m.iter().map(|(k, x)| (k.clone(), json_from_serde(x))).collect()),
    }
}

/// `serde_json::from_str`: the JSON value of `text`, or `None` when it is not JSON. The
/// contract names the result; what JSON `serde_json` accepts is left to the name.
#[verifier::external_body]
pub(crate) fn parse_json(text: &str) -> (r: Option<JsonValue>)
    ensures
        r == serde_json_value(text@),
{
    match serde_json::from_str::<serde_json::Value>(text) {
        Ok(v) => Some(json_from_serde(&v)),
        Err(_) => None,
    }
}

/// The record of a dump line: the header read as `spec_parse_line_fields` reads it, then
/// the JSON data parsed; a line whose data is not JSON is refused with `Json`.
pub fn parse_line(line: &str) -> (r: Result<OlRecord, OlParseError>)
    ensures
        match spec_parse_line_fields(line@) {
            Err(e) => r == Err::<OlRecord, OlParseError>(e),
            Ok(v) => match serde_json_value(v.4) {
                None => r == Err::<OlRecord, OlParseError>(OlParseError::Json),
                Some(data) => r matches Ok(rec) && record_matches(rec, v, data),
            },
        },
{
    let fields = parse_line_fields(line)?;
    match parse_json(fields.json.as_str()) {
        None => Err(OlParseError::Json),
        Some(data) => Ok(record_from_json(fields, data)),
    }
}

/// Builds the record of a line from its header and its parsed JSON data.
pub fn record_from_json(line: OlLine, data: JsonValue) -> (r: OlRecord)
    ensures
        record_matches(r, line_fields_view(line), data),
{
    let created = match get_member(&data, "created") {
        Some(c) => match str_member(c, "value") {
            Some(t) => parse_dump_time(t.as_str()),
            None => None,
        },
        None => None,
    };
    let number_of_pages = match get_member(&data, "number_of_pages") {
        Some(x) => as_i64(x),
        None => None,
    };
    let title = str_member(&data, "title");
    let subtitle = str_member(&data, "subtitle");
    let name = str_member(&data, "name");
    let birth_date = str_member(&data, "birth_date");
    let death_date = str_member(&data, "death_date");
    let bio = str_member(&data, "bio");
    let website = str_member(&data, "website");
    let description = str_member(&data, "description");
    let publish_date = str_member(&data, "publish_date");
    let physical_format = str_member(&data, "physical_format");
    let notes = str_member(&data, "notes");
    let author_keys = author_keys_member(&data);
    let isbn_10 = str_list_member(&data, "isbn_10");
    let isbn_13 = str_list_member(&data, "isbn_13");
    let publishers = str_list_member(&data, "publishers");
    let subjects = str_list_member(&data, "subjects");
    let subject_people = str_list_member(&data, "subject_people");
    let subject_places = str_list_member(&data, "subject_places");
    let subject_times = str_list_member(&data, "subject_times");
    let languages = str_list_member(&data, "languages");
    let lc_classifications = str_list_member(&data, "lc_classifications");
    let dewey_decimal_class = str_list_member(&data, "dewey_decimal_class");
    let covers = int_list_member(&data, "covers");
    OlRecord {
        ol_type: line.ol_type,
        ol_key: line.ol_key,
        revision: line.revision,
        last_modified: line.last_modified,
        created,
        data,
        title,
        subtitle,
        name,
        birth_date,
        death_date,
        bio,
        website,
        description,
        publish_date,
        physical_format,
        notes,
        number_of_pages,
        author_keys,
        isbn_10,
        isbn_13,
        publishers,
        subjects,
        subject_people,
        subject_places,
        subject_times,
        languages,
        lc_classifications,
        dewey_decimal_class,
        covers,
    }
}

} // verus!
