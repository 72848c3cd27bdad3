//! Best-effort conversion of dump text into the text of a typed PostgreSQL value.
//! Integers and the float grammar are checked here; dates and times are read and
//! written by chrono (see `time_text`); the text of a `float8` is computed by the caller.
use crate::db::PgTargetType;
use crate::literals::{ascii_lower, lower_char, float_literal, i32_literal, i64_literal, is_float_literal, parse_i32, parse_i64};
use crate::text::{find_char, int_text, i64_text, str_chars, trim, trim_str};
use crate::time_text::{chrono_naive_date, chrono_naive_datetime, parse_naive_date, parse_naive_datetime};
use vstd::prelude::*;
use vstd::string::StringExecFns;

verus! {

broadcast use vstd::string::group_string_axioms;

/// What happens to a value that cannot be represented in its column's type.
#[derive(Debug, Clone, Copy, PartialEq, Eq, Structural)]
pub enum LibgenUnrepresentablePolicy {
    /// Store `NULL`.
    Null,
    /// Store the text as given.
    Text,
    /// Refuse the value.
    Error,
}

/// A value refused under the `Error` policy: the text as given and the column type.
pub struct CoerceError {
    pub value: String,
    pub ty: PgTargetType,
}

/// The first text of a chrono result.
pub open spec fn written(r: Option<(Seq<char>, Seq<char>)>) -> Option<Seq<char>> {
    match r {
        Some((a, _)) => Some(a),
        None => None,
    }
}

/// The second text of a chrono result.
pub open spec fn written_second(r: Option<(Seq<char>, Seq<char>)>) -> Option<Seq<char>> {
    match r {
        Some((_, b)) => Some(b),
        None => None,
    }
}

// ---------------------------------------------------------------------------
// The conversion
// ---------------------------------------------------------------------------

/// The texts that mean `NULL` in a non-text column.
pub open spec fn null_token(t: Seq<char>) -> bool {
    t == "\\N"@ || t == "N"@ || t == "NULL"@ || t == "\\\\N"@
}

/// The date and time types.
pub open spec fn is_temporal(ty: PgTargetType) -> bool {
    ty == PgTargetType::Timestamp || ty == PgTargetType::Date || ty == PgTargetType::Timestamptz
}

/// The texts that a date or time column stores as `NULL`: MySQL zero dates, `N`, `\N`,
/// and anything with a backslash.
pub open spec fn temporal_null(t: Seq<char>) -> bool {
    t == "N"@ || t == "\\N"@ || t == "0000-00-00 00:00:00"@ || t == "0000-00-00"@ || find_char(
        t,
        '\\',
    ) is Some
}

/// The lowercase spellings of `true` and `false`.
pub open spec fn bool_text(t: Seq<char>) -> Option<Seq<char>> {
    let u = ascii_lower(t);
    if u == "1"@ || u == "true"@ || u == "t"@ || u == "yes"@ || u == "y"@ {
        Some("true"@)
    } else if u == "0"@ || u == "false"@ || u == "f"@ || u == "no"@ || u == "n"@ {
        Some("false"@)
    } else {
        None
    }
}

/// How chrono reads the trimmed text `t` for a date or time column: for a timestamp, the
/// datetime (whole, then fractional seconds) written back, else midnight of the date;
/// for a date, the date written back. `None` for other types.
pub open spec fn chrono_reading(ty: PgTargetType, t: Seq<char>) -> Option<Seq<char>> {
    match ty {
        PgTargetType::Timestamp => if chrono_naive_datetime(t, "%Y-%m-%d %H:%M:%S"@) is Some {
            written(chrono_naive_datetime(t, "%Y-%m-%d %H:%M:%S"@))
        } else if chrono_naive_datetime(t, "%Y-%m-%d %H:%M:%S%.f"@) is Some {
            written(chrono_naive_datetime(t, "%Y-%m-%d %H:%M:%S%.f"@))
        } else {
            written_second(chrono_naive_date(t))
        },
        PgTargetType::Date => written(chrono_naive_date(t)),
        _ => None,
    }
}

/// The typed text of `s` (trimmed `t`), or `None` when it is not representable; `float8`
/// is the text of `t` as an `f64` (if it parses), `time` its date or time reading.
pub open spec fn typed_text(
    ty: PgTargetType,
    s: Seq<char>,
    t: Seq<char>,
    float8: Option<Seq<char>>,
    time: Option<Seq<char>>,
) -> Option<Seq<char>> {
    match ty {
        PgTargetType::Text => Some(s),
        PgTargetType::Int4 => match i32_literal(t) {
            Some(v) => Some(int_text(v as int)),
            None => None,
        },
        PgTargetType::Int8 => match i64_literal(t) {
            Some(v) => Some(int_text(v as int)),
            None => None,
        },
        PgTargetType::Numeric => if float_literal(t) {
            Some(t)
        } else {
            None
        },
        PgTargetType::Float8 => float8,
        PgTargetType::Bool => bool_text(t),
        PgTargetType::Timestamp => if t == "0000-00-00 00:00:00"@ || t == "0000-00-00"@ {
            None
        } else {
            time
        },
        PgTargetType::Date => if t == "0000-00-00"@ {
            None
        } else {
            time
        },
        PgTargetType::Timestamptz => Some(s),
        PgTargetType::Jsonb => Some(s),
        PgTargetType::TextArray => Some(s),
        PgTargetType::Int8Array => Some(s),
    }
}

/// The value stored for text `s` in a column of type `ty`: `NULL` for blank text, for
/// the `NULL` spellings in non-text columns and for zero or escaped dates; otherwise the
/// typed text, and when there is none, what the policy says.
pub open spec fn spec_coerce(
    ty: PgTargetType,
    s: Seq<char>,
    policy: LibgenUnrepresentablePolicy,
    float8: Option<Seq<char>>,
    time: Option<Seq<char>>,
) -> Result<Option<Seq<char>>, ()> {
    let t = trim(s);
    if t.len() == 0 {
        Ok(None)
    } else if ty != PgTargetType::Text && null_token(t) {
        Ok(None)
    } else if is_temporal(ty) && temporal_null(t) {
        Ok(None)
    } else {
        match typed_text(ty, s, t, float8, time) {
            Some(v) => Ok(Some(v)),
            None => match policy {
                LibgenUnrepresentablePolicy::Null => Ok(None),
                LibgenUnrepresentablePolicy::Text => Ok(Some(s)),
                LibgenUnrepresentablePolicy::Error => Err(()),
            },
        }
    }
}

/// A boolean column reads a boolean back from either of its usual stored forms: the MySQL
/// `tinyint` value `1`/`0` (as its decimal text, surrounded by any whitespace) and the
/// PostgreSQL spelling `true`/`false` both give that boolean, whatever the policy.
pub proof fn lemma_bool_reads_stored_booleans(
    s: Seq<char>,
    b: bool,
    policy: LibgenUnrepresentablePolicy,
    float8: Option<Seq<char>>,
    time: Option<Seq<char>>,
)
    ensures
        trim(s) == int_text(if b {
            1int
        } else {
            0int
        }) ==> spec_coerce(PgTargetType::Bool, s, policy, float8, time) == Ok::<_, ()>(
            Some(if b {
                "true"@
            } else {
                "false"@
            }),
        ),
        trim(s) == (if b {
            "true"@
        } else {
            "false"@
        }) ==> spec_coerce(PgTargetType::Bool, s, policy, float8, time) == Ok::<_, ()>(
            Some(if b {
                "true"@
            } else {
                "false"@
            }),
        ),
{
    reveal_strlit("1");
    reveal_strlit("0");
    reveal_strlit("true");
    reveal_strlit("false");
    reveal_strlit("t");
    reveal_strlit("yes");
    reveal_strlit("y");
    reveal_strlit("f");
    reveal_strlit("no");
    reveal_strlit("n");
    reveal_strlit("\\N");
    reveal_strlit("N");
    reveal_strlit("NULL");
    reveal_strlit("\\\\N");
    let one = int_text(1);
    let zero = int_text(0);
    assert(one =~= seq!['1']);
    assert(zero =~= seq!['0']);
    assert(ascii_lower(seq!['1']) =~= seq!['1']);
    assert(ascii_lower(seq!['0']) =~= seq!['0']);
    assert("1"@ =~= seq!['1']);
    assert("0"@ =~= seq!['0']);
    if trim(s) == one {
        assert(ascii_lower(trim(s)) == "1"@);
        assert(!null_token(trim(s)));
        assert(bool_text(trim(s)) == Some("true"@));
    }
    if trim(s) == zero {
        assert(ascii_lower(trim(s)) == "0"@);
        assert(!null_token(trim(s)));
        assert(ascii_lower(trim(s)) != "1"@);
        assert(bool_text(trim(s)) == Some("false"@));
    }
    let tr = "true"@;
    let fa = "false"@;
    assert(ascii_lower(tr) =~= tr);
    assert(ascii_lower(fa) =~= fa);
}

/// The words for a boolean are read in any ASCII case: `true`, `t`, `yes`, `y` and `1`
/// give `true`; `false`, `f`, `no`, `n` and `0` give `false` (an upper-case `N` alone
/// stays the `NULL` spelling of a dump).
pub proof fn lemma_bool_words(
    s: Seq<char>,
    policy: LibgenUnrepresentablePolicy,
    float8: Option<Seq<char>>,
    time: Option<Seq<char>>,
)
    ensures
        ({
            let w = ascii_lower(trim(s));
            w == "true"@ || w == "t"@ || w == "yes"@ || w == "y"@ || w == "1"@
        }) ==> spec_coerce(PgTargetType::Bool, s, policy, float8, time) == Ok::<_, ()>(
            Some("true"@),
        ),
        ({
            let w = ascii_lower(trim(s));
            w == "false"@ || w == "f"@ || w == "no"@ || (w == "n"@ && trim(s) != "N"@) || w
                == "0"@
        }) ==> spec_coerce(PgTargetType::Bool, s, policy, float8, time) == Ok::<_, ()>(
            Some("false"@),
        ),
{
    reveal_strlit("1");
    reveal_strlit("0");
    reveal_strlit("true");
    reveal_strlit("false");
    reveal_strlit("t");
    reveal_strlit("yes");
    reveal_strlit("y");
    reveal_strlit("f");
    reveal_strlit("no");
    reveal_strlit("n");
    reveal_strlit("\\N");
    reveal_strlit("N");
    reveal_strlit("NULL");
    reveal_strlit("\\\\N");
    let t = trim(s);
    let w = ascii_lower(t);
    assert(w.len() == t.len());
    assert("true"@.len() == 4 && "false"@.len() == 5 && "yes"@.len() == 3 && "no"@.len() == 2);
    assert("t"@[0] == 't' && "y"@[0] == 'y' && "f"@[0] == 'f' && "n"@[0] == 'n');
    assert("1"@[0] == '1' && "0"@[0] == '0' && "N"@[0] == 'N');
    assert("NULL"@.len() == 4 && "NULL"@[0] == 'N' && "true"@[0] == 't');
    assert("\\N"@.len() == 2 && "\\N"@[0] == '\\' && "no"@[0] == 'n');
    assert("\\\\N"@.len() == 3 && "\\\\N"@[0] == '\\' && "yes"@[0] == 'y');
    if t.len() > 0 {
        assert(w[0] == lower_char(t[0]));
    }
    if t.len() == 1 && w == "n"@ {
        assert(t[0] == 'n' || t[0] == 'N');
        if t[0] == 'N' {
            assert(t =~= "N"@);
        }
    }
}

fn eq_lit(t: &String, lit: &str) -> (r: bool)
    ensures
        r == (t@ == lit@),
{
    let l = lit.to_string();
    *t == l
}

fn has_backslash(t: &String) -> (r: bool)
    ensures
        r == find_char(t@, '\\') is Some,
{
    let c = str_chars(t.as_str());
    match crate::text::find_char_from(c.as_slice(), 0, '\\') {
        Some(_) => {
            assert(c@.skip(0) =~= c@);
            true
        },
        None => {
            assert(c@.skip(0) =~= c@);
            false
        },
    }
}

fn lower_string(t: &String) -> (r: String)
    ensures
        r@ == ascii_lower(t@),
{
    let c = str_chars(t.as_str());
    let mut out: Vec<char> = Vec::new();
    let mut i: usize = 0;
    while i < c.len()
        invariant
            i <= c@.len(),
            out@ == ascii_lower(c@.take(i as int)),
        decreases c@.len() - i,
    {
        let ch = c[i];
        let lc = if 'A' <= ch && ch <= 'Z' {
            let u = (ch as u32) + 32;
            (u as u8) as char
        } else {
            ch
        };
        out.push(lc);
        assert(out@ =~= ascii_lower(c@.take(i + 1)));
        i += 1;
    }
    assert(c@.take(i as int) =~= c@);
    crate::text::string_from_chars(out.as_slice())
}

fn bool_of(t: &String) -> (r: Option<String>)
    ensures
        match r {
            Some(v) => bool_text(t@) == Some(v@),
            None => bool_text(t@) is None,
        },
{
    let u = lower_string(t);
    if eq_lit(&u, "1") || eq_lit(&u, "true") || eq_lit(&u, "t") || eq_lit(&u, "yes") || eq_lit(&u, "y") {
        Some("true".to_string())
    } else if eq_lit(&u, "0") || eq_lit(&u, "false") || eq_lit(&u, "f") || eq_lit(&u, "no") || eq_lit(
        &u,
        "n",
    ) {
        Some("false".to_string())
    } else {
        None
    }
}

/// Reads the trimmed text `t` with chrono for a date or time column (see
/// `chrono_reading`).
pub fn read_time(ty: PgTargetType, t: &str) -> (r: Option<String>)
    ensures
        opt_view(r) == chrono_reading(ty, t@),
{
    proof {
        reveal_strlit("%Y-%m-%d %H:%M:%S");
        reveal_strlit("%Y-%m-%d %H:%M:%S%.f");
    }
    match ty {
        PgTargetType::Timestamp => match parse_naive_datetime(t, "%Y-%m-%d %H:%M:%S") {
            Some((v, _)) => Some(v),
            None => match parse_naive_datetime(t, "%Y-%m-%d %H:%M:%S%.f") {
                Some((v, _)) => Some(v),
                None => match parse_naive_date(t) {
                    Some((_, v)) => Some(v),
                    None => None,
                },
            },
        },
        PgTargetType::Date => match parse_naive_date(t) {
            Some((v, _)) => Some(v),
            None => None,
        },
        _ => None,
    }
}

/// The view of an optional string.
pub open spec fn opt_view(o: Option<String>) -> Option<Seq<char>> {
    match o {
        Some(x) => Some(x@),
        None => None,
    }
}

/// Converts dump text `s` into the text stored in a column of type `ty` (see
/// `spec_coerce`), given the `f64` text and the date or time reading of the trimmed
/// value (each only read for its column types).
pub fn coerce_with_readings(
    ty: PgTargetType,
    s: String,
    policy: LibgenUnrepresentablePolicy,
    float8: Option<String>,
    time: Option<String>,
) -> (r: Result<Option<String>, CoerceError>)
    ensures
        match spec_coerce(ty, s@, policy, opt_view(float8), opt_view(time)) {
            Ok(None) => r matches Ok(None),
            Ok(Some(v)) => r matches Ok(Some(x)) && x@ == v,
            Err(_) => r matches Err(e) && e.value@ == s@ && e.ty == ty,
        },
{
    let t = trim_str(s.as_str());
    if t.as_str().unicode_len() == 0 {
        return Ok(None);
    }
    if ty != PgTargetType::Text && (eq_lit(&t, "\\N") || eq_lit(&t, "N") || eq_lit(&t, "NULL")
        || eq_lit(&t, "\\\\N")) {
        return Ok(None);
    }
    if (ty == PgTargetType::Timestamp || ty == PgTargetType::Date || ty == PgTargetType::Timestamptz)
        && (eq_lit(&t, "N") || eq_lit(&t, "\\N") || eq_lit(&t, "0000-00-00 00:00:00") || eq_lit(
        &t,
        "0000-00-00",
    ) || has_backslash(&t)) {
        return Ok(None);
    }
    let ghost f8 = opt_view(float8);
    let ghost tm = opt_view(time);
    let coerced: Option<String> = match ty {
        PgTargetType::Text => Some(s.clone()),
        PgTargetType::Int4 => match parse_i32(t.as_str()) {
            Some(v) => Some(i64_text(v as i64)),
            None => None,
        },
        PgTargetType::Int8 => match parse_i64(t.as_str()) {
            Some(v) => Some(i64_text(v)),
            None => None,
        },
        PgTargetType::Numeric => if is_float_literal(t.as_str()) {
            Some(t.clone())
        } else {
            None
        },
        PgTargetType::Float8 => float8,
        PgTargetType::Bool => bool_of(&t),
        PgTargetType::Timestamp => {
            if eq_lit(&t, "0000-00-00 00:00:00") || eq_lit(&t, "0000-00-00") {
                None
            } else {
                time
            }
        },
        PgTargetType::Date => {
            if eq_lit(&t, "0000-00-00") {
                None
            } else {
                time
            }
        },
        PgTargetType::Timestamptz => Some(s.clone()),
        PgTargetType::Jsonb => Some(s.clone()),
        PgTargetType::TextArray => Some(s.clone()),
        PgTargetType::Int8Array => Some(s.clone()),
    };
    assert(opt_view(coerced) == typed_text(ty, s@, t@, f8, tm));
    match coerced {
        Some(v) => Ok(Some(v)),
        None => match policy {
            LibgenUnrepresentablePolicy::Null => Ok(None),
            LibgenUnrepresentablePolicy::Text => Ok(Some(s)),
            LibgenUnrepresentablePolicy::Error => Err(CoerceError { value: s, ty }),
        },
    }
}

/// Converts dump text `s` into the text stored in a column of type `ty`: the trimmed
/// value is read by chrono for date and time columns, then converted as
/// `coerce_with_readings` does. `float8` is the text of the trimmed value as an `f64`
/// (its `Display`), when it parses as one.
pub fn coerce_value_best_effort(
    ty: PgTargetType,
    s: String,
    policy: LibgenUnrepresentablePolicy,
    float8: Option<String>,
) -> (r: Result<Option<String>, CoerceError>)
    ensures
        match spec_coerce(ty, s@, policy, opt_view(float8), chrono_reading(ty, trim(s@))) {
            Ok(None) => r matches Ok(None),
            Ok(Some(v)) => r matches Ok(Some(x)) && x@ == v,
            Err(_) => r matches Err(e) && e.value@ == s@ && e.ty == ty,
        },
{
    let t = trim_str(s.as_str());
    let time = read_time(ty, t.as_str());
    coerce_with_readings(ty, s, policy, float8, time)
}

impl CoerceError {
    /// The message reported: ``value `<text>` is not representable as <Type>``.
    pub fn message(&self) -> (r: String)
        ensures
            r@ == "value `"@ + self.value@ + "` is not representable as "@ + pg_type_debug_name(
                self.ty,
            ),
    {
        let mut out = "value `".to_string();
        out.append(self.value.as_str());
        out.append("` is not representable as ");
        let name = match self.ty {
            PgTargetType::Text => "Text",
            PgTargetType::Int4 => "Int4",
            PgTargetType::Int8 => "Int8",
            PgTargetType::Numeric => "Numeric",
            PgTargetType::Float8 => "Float8",
            PgTargetType::Bool => "Bool",
            PgTargetType::Timestamp => "Timestamp",
            PgTargetType::Date => "Date",
            PgTargetType::Timestamptz => "Timestamptz",
            PgTargetType::Jsonb => "Jsonb",
            PgTargetType::TextArray => "TextArray",
            PgTargetType::Int8Array => "Int8Array",
        };
        out.append(name);
        out
    }
}

/// The name of a column type as `Debug` writes it.
pub open spec fn pg_type_debug_name(ty: PgTargetType) -> Seq<char> {
    match ty {
        PgTargetType::Text => "Text"@,
        PgTargetType::Int4 => "Int4"@,
        PgTargetType::Int8 => "Int8"@,
        PgTargetType::Numeric => "Numeric"@,
        PgTargetType::Float8 => "Float8"@,
        PgTargetType::Bool => "Bool"@,
        PgTargetType::Timestamp => "Timestamp"@,
        PgTargetType::Date => "Date"@,
        PgTargetType::Timestamptz => "Timestamptz"@,
        PgTargetType::Jsonb => "Jsonb"@,
        PgTargetType::TextArray => "TextArray"@,
        PgTargetType::Int8Array => "Int8Array"@,
    }
}

} // verus!
