//! Loading Open Library records: the table of each record type, the row of a record,
//! the SQL that provisions the table, and the line-by-line batching with checkpoints.
use crate::db::{join, join_strings, quote_ident, spec_quote_ident, PgTargetType};
use crate::libgen::ingest::{opt_row_view, rows_view, strings_view};
use crate::openlibrary::parser::{opt_text, OlRecord};
use crate::text::{i64_text, int_text, replace_all, replace_str};
use vstd::prelude::*;
use vstd::string::StringExecFns;

verus! {

broadcast use vstd::string::group_string_axioms;

/// What to load from one dump file of Open Library.
pub struct OlIngestPlan {
    pub dump_path: String,
    /// `authors`, `editions` or `works`.
    pub table_name: String,
    pub schema: String,
    pub max_records: Option<usize>,
}

// ---------------------------------------------------------------------------
// Tables
// ---------------------------------------------------------------------------

/// The columns every record table starts with.
pub open spec fn base_columns() -> Seq<Seq<char>> {
    seq!["ol_key"@, "ol_type"@, "revision"@, "created"@, "last_modified"@]
}

/// The types of the columns every record table starts with.
pub open spec fn base_types() -> Seq<PgTargetType> {
    seq![
        PgTargetType::Text,
        PgTargetType::Text,
        PgTargetType::Int4,
        PgTargetType::Timestamptz,
        PgTargetType::Timestamptz,
    ]
}

/// The columns of the authors table after the common ones.
pub open spec fn author_columns() -> Seq<Seq<char>> {
    seq!["name"@, "birth_date"@, "death_date"@, "bio"@, "website"@]
}

/// The columns of the works table after the common ones.
pub open spec fn work_columns() -> Seq<Seq<char>> {
    seq![
        "title"@,
        "subtitle"@,
        "description"@,
        "author_keys"@,
        "subjects"@,
        "subject_people"@,
        "subject_places"@,
        "subject_times"@,
        "covers"@,
    ]
}

/// The types of the works columns after the common ones.
pub open spec fn work_types() -> Seq<PgTargetType> {
    seq![
        PgTargetType::Text,
        PgTargetType::Text,
        PgTargetType::Text,
        PgTargetType::TextArray,
        PgTargetType::TextArray,
        PgTargetType::TextArray,
        PgTargetType::TextArray,
        PgTargetType::TextArray,
        PgTargetType::Int8Array,
    ]
}

/// The columns of the editions table after the common ones.
pub open spec fn edition_columns() -> Seq<Seq<char>> {
    seq![
        "title"@,
        "subtitle"@,
        "isbn_10"@,
        "isbn_13"@,
        "publishers"@,
        "publish_date"@,
        "number_of_pages"@,
        "physical_format"@,
        "languages"@,
        "lc_classifications"@,
        "dewey_decimal_class"@,
        "notes"@,
    ]
}

/// The types of the editions columns after the common ones.
pub open spec fn edition_types() -> Seq<PgTargetType> {
    seq![
        PgTargetType::Text,
        PgTargetType::Text,
        PgTargetType::TextArray,
        PgTargetType::TextArray,
        PgTargetType::TextArray,
        PgTargetType::Text,
        PgTargetType::Int4,
        PgTargetType::Text,
        PgTargetType::TextArray,
        PgTargetType::TextArray,
        PgTargetType::TextArray,
        PgTargetType::Text,
    ]
}

/// The columns of a record table (only the common ones for an unknown table).
pub open spec fn table_columns(table: Seq<char>) -> Seq<Seq<char>> {
    base_columns() + if table == "authors"@ {
        author_columns()
    } else if table == "works"@ {
        work_columns()
    } else if table == "editions"@ {
        edition_columns()
    } else {
        Seq::empty()
    }
}

/// The column types of a record table.
pub open spec fn table_types(table: Seq<char>) -> Seq<PgTargetType> {
    base_types() + if table == "authors"@ {
        seq![
            PgTargetType::Text,
            PgTargetType::Text,
            PgTargetType::Text,
            PgTargetType::Text,
            PgTargetType::Text,
        ]
    } else if table == "works"@ {
        work_types()
    } else if table == "editions"@ {
        edition_types()
    } else {
        Seq::empty()
    }
}

fn push_names(out: &mut Vec<String>, names: &[&str])
    ensures
        strings_view(final(out)@) == strings_view(old(out)@) + names@.map_values(|n: &str| n@),
{
    let mut i: usize = 0;
    while i < names.len()
        invariant
            i <= names@.len(),
            strings_view(out@) == strings_view(old(out)@) + names@.take(i as int).map_values(|n: &str| n@),
        decreases names@.len() - i,
    {
        let ghost before = strings_view(out@);
        out.push(names[i].to_string());
        assert(strings_view(out@) =~= before.push(names@[i as int]@));
        assert(names@.take(i + 1).map_values(|n: &str| n@) =~= names@.take(i as int).map_values(|n: &str| n@).push(names@[i as int]@));
        i += 1;
    }
    assert(names@.take(i as int) =~= names@);
}

/// The columns and column types of a record table.
pub fn get_table_definition(table_name: &str) -> (r: (Vec<String>, Vec<PgTargetType>))
    ensures
        strings_view(r.0@) == table_columns(table_name@),
        r.1@ == table_types(table_name@),
        r.0@.len() == r.1@.len(),
{
    proof {
        reveal_strlit("ol_key");
        reveal_strlit("ol_type");
        reveal_strlit("revision");
        reveal_strlit("created");
        reveal_strlit("last_modified");
        reveal_strlit("authors");
        reveal_strlit("works");
        reveal_strlit("editions");
    }
    let mut columns: Vec<String> = Vec::new();
    let base: [&str; 5] = ["ol_key", "ol_type", "revision", "created", "last_modified"];
    push_names(&mut columns, &base);
    assert(base@.map_values(|n: &str| n@) =~= base_columns());
    assert(strings_view(columns@) =~= base_columns());
    let mut types: Vec<PgTargetType> = vec![
        PgTargetType::Text,
        PgTargetType::Text,
        PgTargetType::Int4,
        PgTargetType::Timestamptz,
        PgTargetType::Timestamptz,
    ];
    assert(types@ =~= base_types());
    let t = table_name.to_string();
    if t == "authors".to_string() {
        let extra: [&str; 5] = ["name", "birth_date", "death_date", "bio", "website"];
        push_names(&mut columns, &extra);
        assert(extra@.map_values(|n: &str| n@) =~= author_columns());
        let mut more = vec![
            PgTargetType::Text,
            PgTargetType::Text,
            PgTargetType::Text,
            PgTargetType::Text,
            PgTargetType::Text,
        ];
        types.append(&mut more);
    } else if t == "works".to_string() {
        let extra: [&str; 9] = [
            "title",
            "subtitle",
            "description",
            "author_keys",
            "subjects",
            "subject_people",
            "subject_places",
            "subject_times",
            "covers",
        ];
        push_names(&mut columns, &extra);
        assert(extra@.map_values(|n: &str| n@) =~= work_columns());
        let mut more = vec![
            PgTargetType::Text,
            PgTargetType::Text,
            PgTargetType::Text,
            PgTargetType::TextArray,
            PgTargetType::TextArray,
            PgTargetType::TextArray,
            PgTargetType::TextArray,
            PgTargetType::TextArray,
            PgTargetType::Int8Array,
        ];
        assert(more@ =~= work_types());
        types.append(&mut more);
    } else if t == "editions".to_string() {
        let extra: [&str; 12] = [
            "title",
            "subtitle",
            "isbn_10",
            "isbn_13",
            "publishers",
            "publish_date",
            "number_of_pages",
            "physical_format",
            "languages",
            "lc_classifications",
            "dewey_decimal_class",
            "notes",
        ];
        push_names(&mut columns, &extra);
        assert(extra@.map_values(|n: &str| n@) =~= edition_columns());
        let mut more = vec![
            PgTargetType::Text,
            PgTargetType::Text,
            PgTargetType::TextArray,
            PgTargetType::TextArray,
            PgTargetType::TextArray,
            PgTargetType::Text,
            PgTargetType::Int4,
            PgTargetType::Text,
            PgTargetType::TextArray,
            PgTargetType::TextArray,
            PgTargetType::TextArray,
            PgTargetType::Text,
        ];
        assert(more@ =~= edition_types());
        types.append(&mut more);
    } else {
        assert(strings_view(columns@) =~= table_columns(table_name@));
        assert(types@ =~= table_types(table_name@));
    }
    (columns, types)
}

// ---------------------------------------------------------------------------
// Array literals
// ---------------------------------------------------------------------------

/// One element of a text array literal: in double quotes, each `"` written `\"`.
pub open spec fn pg_array_item(v: Seq<char>) -> Seq<char> {
    "\""@ + replace_all(v, "\""@, "\\\""@) + "\""@
}

/// A PostgreSQL text array literal: `{` + the quoted items joined by `,` + `}`.
pub open spec fn pg_array(vals: Seq<Seq<char>>) -> Seq<char> {
    "{"@ + join(vals.map_values(|v: Seq<char>| pg_array_item(v)), ","@) + "}"@
}

/// A PostgreSQL integer array literal.
pub open spec fn pg_int_array(vals: Seq<i64>) -> Seq<char> {
    "{"@ + join(vals.map_values(|v: i64| int_text(v as int)), ","@) + "}"@
}

/// Writes a list of strings as a PostgreSQL text array literal.
pub fn to_pg_array(vals: &Vec<String>) -> (r: String)
    ensures
        r@ == pg_array(strings_view(vals@)),
{
    proof {
        reveal_strlit("\"");
    }
    let ghost items = strings_view(vals@).map_values(|v: Seq<char>| pg_array_item(v));
    let mut quoted: Vec<String> = Vec::new();
    let mut i: usize = 0;
    while i < vals.len()
        invariant
            i <= vals@.len(),
            items == strings_view(vals@).map_values(|v: Seq<char>| pg_array_item(v)),
            "\""@.len() > 0,
            strings_view(quoted@) == items.take(i as int),
        decreases vals@.len() - i,
    {
        let mut q = "\"".to_string();
        let body = replace_str(vals[i].as_str(), "\"", "\\\"");
        q.append(body.as_str());
        q.append("\"");
        let ghost before = strings_view(quoted@);
        quoted.push(q);
        proof {
            assert(strings_view(vals@)[i as int] == vals@[i as int]@);
            assert(q@ == items[i as int]);
            assert(strings_view(quoted@) =~= before.push(q@));
            assert(items.take(i + 1) =~= items.take(i as int).push(items[i as int]));
        }
        i += 1;
    }
    assert(items.take(i as int) =~= items);
    let mut out = "{".to_string();
    let joined = join_strings(&quoted, ",");
    out.append(joined.as_str());
    out.append("}");
    out
}

/// Writes a list of integers as a PostgreSQL integer array literal.
pub fn to_pg_int_array(vals: &Vec<i64>) -> (r: String)
    ensures
        r@ == pg_int_array(vals@),
{
    let ghost items = vals@.map_values(|v: i64| int_text(v as int));
    let mut texts: Vec<String> = Vec::new();
    let mut i: usize = 0;
    while i < vals.len()
        invariant
            i <= vals@.len(),
            items == vals@.map_values(|v: i64| int_text(v as int)),
            strings_view(texts@) == items.take(i as int),
        decreases vals@.len() - i,
    {
        let ghost before = strings_view(texts@);
        let t = i64_text(vals[i]);
        texts.push(t);
        proof {
            assert(t@ == items[i as int]);
            assert(strings_view(texts@) =~= before.push(t@));
            assert(items.take(i + 1) =~= items.take(i as int).push(items[i as int]));
        }
        i += 1;
    }
    assert(items.take(i as int) =~= items);
    let mut out = "{".to_string();
    let joined = join_strings(&texts, ",");
    out.append(joined.as_str());
    out.append("}");
    out
}

// ---------------------------------------------------------------------------
// Rows
// ---------------------------------------------------------------------------

/// The row of a record in its table: the common columns, then those of the table.
pub open spec fn spec_ol_row(table: Seq<char>, r: OlRecord) -> Seq<Option<Seq<char>>> {
    seq![
        Some(r.ol_key@),
        Some(r.ol_type@),
        Some(int_text(r.revision as int)),
        opt_text(r.created),
        Some(r.last_modified@),
    ] + if table == "authors"@ {
        seq![
            opt_text(r.name),
            opt_text(r.birth_date),
            opt_text(r.death_date),
            opt_text(r.bio),
            opt_text(r.website),
        ]
    } else if table == "works"@ {
        seq![
            opt_text(r.title),
            opt_text(r.subtitle),
            opt_text(r.description),
            Some(pg_array(strings_view(r.author_keys@))),
            Some(pg_array(strings_view(r.subjects@))),
            Some(pg_array(strings_view(r.subject_people@))),
            Some(pg_array(strings_view(r.subject_places@))),
            Some(pg_array(strings_view(r.subject_times@))),
            Some(pg_int_array(r.covers@)),
        ]
    } else if table == "editions"@ {
        seq![
            opt_text(r.title),
            opt_text(r.subtitle),
            Some(pg_array(strings_view(r.isbn_10@))),
            Some(pg_array(strings_view(r.isbn_13@))),
            Some(pg_array(strings_view(r.publishers@))),
            opt_text(r.publish_date),
            match r.number_of_pages {
                Some(n) => Some(int_text(n as int)),
                None => None,
            },
            opt_text(r.physical_format),
            Some(pg_array(strings_view(r.languages@))),
            Some(pg_array(strings_view(r.lc_classifications@))),
            Some(pg_array(strings_view(r.dewey_decimal_class@))),
            opt_text(r.notes),
        ]
    } else {
        Seq::empty()
    }
}

/// The row of a record always has one value per column of its table, so a batch of them
/// passes the row length check of the load.
pub proof fn lemma_ol_row_fits_table(table: Seq<char>, r: OlRecord)
    ensures
        spec_ol_row(table, r).len() == table_columns(table).len(),
        table_types(table).len() == table_columns(table).len(),
{
}

/// The value a record gives for the column named `column`: the header fields, the text
/// fields as their text, the list fields as PostgreSQL array literals, the page count as
/// its decimal text; `None` for a name that is no column.
pub open spec fn record_field(r: OlRecord, column: Seq<char>) -> Option<Seq<char>> {
    if column == "ol_key"@ {
        Some(r.ol_key@)
    } else if column == "ol_type"@ {
        Some(r.ol_type@)
    } else if column == "revision"@ {
        Some(int_text(r.revision as int))
    } else if column == "created"@ {
        opt_text(r.created)
    } else if column == "last_modified"@ {
        Some(r.last_modified@)
    } else if column == "name"@ {
        opt_text(r.name)
    } else if column == "birth_date"@ {
        opt_text(r.birth_date)
    } else if column == "death_date"@ {
        opt_text(r.death_date)
    } else if column == "bio"@ {
        opt_text(r.bio)
    } else if column == "website"@ {
        opt_text(r.website)
    } else if column == "title"@ {
        opt_text(r.title)
    } else if column == "subtitle"@ {
        opt_text(r.subtitle)
    } else if column == "description"@ {
        opt_text(r.description)
    } else if column == "publish_date"@ {
        opt_text(r.publish_date)
    } else if column == "physical_format"@ {
        opt_text(r.physical_format)
    } else if column == "notes"@ {
        opt_text(r.notes)
    } else if column == "number_of_pages"@ {
        match r.number_of_pages {
            Some(n) => Some(int_text(n as int)),
            None => None,
        }
    } else if column == "author_keys"@ {
        Some(pg_array(strings_view(r.author_keys@)))
    } else if column == "subjects"@ {
        Some(pg_array(strings_view(r.subjects@)))
    } else if column == "subject_people"@ {
        Some(pg_array(strings_view(r.subject_people@)))
    } else if column == "subject_places"@ {
        Some(pg_array(strings_view(r.subject_places@)))
    } else if column == "subject_times"@ {
        Some(pg_array(strings_view(r.subject_times@)))
    } else if column == "isbn_10"@ {
        Some(pg_array(strings_view(r.isbn_10@)))
    } else if column == "isbn_13"@ {
        Some(pg_array(strings_view(r.isbn_13@)))
    } else if column == "publishers"@ {
        Some(pg_array(strings_view(r.publishers@)))
    } else if column == "languages"@ {
        Some(pg_array(strings_view(r.languages@)))
    } else if column == "lc_classifications"@ {
        Some(pg_array(strings_view(r.lc_classifications@)))
    } else if column == "dewey_decimal_class"@ {
        Some(pg_array(strings_view(r.dewey_decimal_class@)))
    } else if column == "covers"@ {
        Some(pg_int_array(r.covers@))
    } else {
        None
    }
}

/// Each value of a record's row lands under its own column: the `i`-th value is the
/// record's field named by the `i`-th column of the table's definition.
pub proof fn lemma_ol_row_follows_columns(table: Seq<char>, r: OlRecord)
    ensures
        forall|i: int|
            0 <= i < table_columns(table).len() ==> #[trigger] spec_ol_row(table, r)[i]
                == record_field(r, table_columns(table)[i]),
{
    reveal_strlit("ol_key");
    reveal_strlit("ol_type");
    reveal_strlit("revision");
    reveal_strlit("created");
    reveal_strlit("last_modified");
    reveal_strlit("name");
    reveal_strlit("birth_date");
    reveal_strlit("death_date");
    reveal_strlit("bio");
    reveal_strlit("website");
    reveal_strlit("title");
    reveal_strlit("subtitle");
    reveal_strlit("description");
    reveal_strlit("publish_date");
    reveal_strlit("physical_format");
    reveal_strlit("notes");
    reveal_strlit("number_of_pages");
    reveal_strlit("author_keys");
    reveal_strlit("subjects");
    reveal_strlit("subject_people");
    reveal_strlit("subject_places");
    reveal_strlit("subject_times");
    reveal_strlit("isbn_10");
    reveal_strlit("isbn_13");
    reveal_strlit("publishers");
    reveal_strlit("languages");
    reveal_strlit("lc_classifications");
    reveal_strlit("dewey_decimal_class");
    reveal_strlit("covers");
    reveal_strlit("authors");
    reveal_strlit("works");
    reveal_strlit("editions");
    assert("ol_key"@.len() == 6);
    assert("ol_type"@.len() == 7);
    assert("revision"@.len() == 8);
    assert("created"@.len() == 7);
    assert("last_modified"@.len() == 13);
    assert("name"@.len() == 4);
    assert("birth_date"@.len() == 10);
    assert("death_date"@.len() == 10);
    assert("bio"@.len() == 3);
    assert("website"@.len() == 7);
    assert("title"@.len() == 5);
    assert("subtitle"@.len() == 8);
    assert("description"@.len() == 11);
    assert("publish_date"@.len() == 12);
    assert("physical_format"@.len() == 15);
    assert("notes"@.len() == 5);
    assert("number_of_pages"@.len() == 15);
    assert("author_keys"@.len() == 11);
    assert("subjects"@.len() == 8);
    assert("subject_people"@.len() == 14);
    assert("subject_places"@.len() == 14);
    assert("subject_times"@.len() == 13);
    assert("isbn_10"@.len() == 7);
    assert("isbn_13"@.len() == 7);
    assert("publishers"@.len() == 10);
    assert("languages"@.len() == 9);
    assert("lc_classifications"@.len() == 18);
    assert("dewey_decimal_class"@.len() == 19);
    assert("covers"@.len() == 6);
    assert("created"@[0] == 'c' && "ol_type"@[0] == 'o');
    assert("death_date"@[0] == 'd' && "birth_date"@[0] == 'b');
    assert("website"@[0] == 'w' && "ol_type"@[0] == 'o');
    assert("website"@[0] == 'w' && "created"@[0] == 'c');
    assert("subtitle"@[0] == 's' && "revision"@[0] == 'r');
    assert("notes"@[0] == 'n' && "title"@[0] == 't');
    assert("number_of_pages"@[0] == 'n' && "physical_format"@[0] == 'p');
    assert("author_keys"@[0] == 'a' && "description"@[0] == 'd');
    assert("subjects"@[0] == 's' && "revision"@[0] == 'r');
    assert("subjects"@[3] == 'j' && "subtitle"@[3] == 't');
    assert("subject_places"@[9] == 'l' && "subject_people"@[9] == 'e');
    assert("subject_times"@[0] == 's' && "last_modified"@[0] == 'l');
    assert("isbn_10"@[0] == 'i' && "ol_type"@[0] == 'o');
    assert("isbn_10"@[0] == 'i' && "created"@[0] == 'c');
    assert("isbn_10"@[0] == 'i' && "website"@[0] == 'w');
    assert("isbn_13"@[0] == 'i' && "ol_type"@[0] == 'o');
    assert("isbn_13"@[0] == 'i' && "created"@[0] == 'c');
    assert("isbn_13"@[0] == 'i' && "website"@[0] == 'w');
    assert("isbn_13"@[6] == '3' && "isbn_10"@[6] == '0');
    assert("publishers"@[0] == 'p' && "birth_date"@[0] == 'b');
    assert("publishers"@[0] == 'p' && "death_date"@[0] == 'd');
    assert("covers"@[0] == 'c' && "ol_key"@[0] == 'o');
    assert(record_field(r, "ol_key"@) == Some(r.ol_key@));
    assert(record_field(r, "ol_type"@) == Some(r.ol_type@));
    assert(record_field(r, "revision"@) == Some(int_text(r.revision as int)));
    assert(record_field(r, "created"@) == opt_text(r.created));
    assert(record_field(r, "last_modified"@) == Some(r.last_modified@));
    assert(record_field(r, "name"@) == opt_text(r.name));
    assert(record_field(r, "birth_date"@) == opt_text(r.birth_date));
    assert(record_field(r, "death_date"@) == opt_text(r.death_date));
    assert(record_field(r, "bio"@) == opt_text(r.bio));
    assert(record_field(r, "website"@) == opt_text(r.website));
    assert(record_field(r, "title"@) == opt_text(r.title));
    assert(record_field(r, "subtitle"@) == opt_text(r.subtitle));
    assert(record_field(r, "description"@) == opt_text(r.description));
    assert(record_field(r, "publish_date"@) == opt_text(r.publish_date));
    assert(record_field(r, "physical_format"@) == opt_text(r.physical_format));
    assert(record_field(r, "notes"@) == opt_text(r.notes));
    assert(record_field(r, "author_keys"@) == Some(pg_array(strings_view(r.author_keys@))));
    assert(record_field(r, "subjects"@) == Some(pg_array(strings_view(r.subjects@))));
    assert(record_field(r, "subject_people"@) == Some(pg_array(strings_view(r.subject_people@))));
    assert(record_field(r, "subject_places"@) == Some(pg_array(strings_view(r.subject_places@))));
    assert(record_field(r, "subject_times"@) == Some(pg_array(strings_view(r.subject_times@))));
    assert(record_field(r, "isbn_10"@) == Some(pg_array(strings_view(r.isbn_10@))));
    assert(record_field(r, "isbn_13"@) == Some(pg_array(strings_view(r.isbn_13@))));
    assert(record_field(r, "publishers"@) == Some(pg_array(strings_view(r.publishers@))));
    assert(record_field(r, "languages"@) == Some(pg_array(strings_view(r.languages@))));
    assert(record_field(r, "lc_classifications"@) == Some(pg_array(strings_view(r.lc_classifications@))));
    assert(record_field(r, "dewey_decimal_class"@) == Some(pg_array(strings_view(r.dewey_decimal_class@))));
    assert(record_field(r, "covers"@) == Some(pg_int_array(r.covers@)));
    assert(record_field(r, "number_of_pages"@) == match r.number_of_pages {
        Some(n) => Some(int_text(n as int)),
        None => None,
    });
    let cols = table_columns(table);
    let row = spec_ol_row(table, r);
    assert forall|i: int| 0 <= i < cols.len() implies #[trigger] row[i] == record_field(
        r,
        cols[i],
    ) by {
        if i < 5 {
            assert(cols[i] == base_columns()[i]);
        } else if table == "authors"@ {
            assert(cols[i] == author_columns()[i - 5]);
        } else if table == "works"@ {
            assert(cols[i] == work_columns()[i - 5]);
        } else {
            assert(cols[i] == edition_columns()[i - 5]);
        }
    }
}

/// The row of a record in the table `table_name`.
pub fn ol_row(table_name: &str, rec: &OlRecord) -> (r: Vec<Option<String>>)
    ensures
        opt_row_view(r@) == spec_ol_row(table_name@, *rec),
{
    let mut row: Vec<Option<String>> = Vec::new();
    row.push(Some(rec.ol_key.clone()));
    row.push(Some(rec.ol_type.clone()));
    row.push(Some(i64_text(rec.revision as i64)));
    row.push(rec.created.clone());
    row.push(Some(rec.last_modified.clone()));
    let t = table_name.to_string();
    if t == "authors".to_string() {
        row.push(rec.name.clone());
        row.push(rec.birth_date.clone());
        row.push(rec.death_date.clone());
        row.push(rec.bio.clone());
        row.push(rec.website.clone());
    } else if t == "works".to_string() {
        row.push(rec.title.clone());
        row.push(rec.subtitle.clone());
        row.push(rec.description.clone());
        row.push(Some(to_pg_array(&rec.author_keys)));
        row.push(Some(to_pg_array(&rec.subjects)));
        row.push(Some(to_pg_array(&rec.subject_people)));
        row.push(Some(to_pg_array(&rec.subject_places)));
        row.push(Some(to_pg_array(&rec.subject_times)));
        row.push(Some(to_pg_int_array(&rec.covers)));
    } else if t == "editions".to_string() {
        row.push(rec.title.clone());
        row.push(rec.subtitle.clone());
        row.push(Some(to_pg_array(&rec.isbn_10)));
        row.push(Some(to_pg_array(&rec.isbn_13)));
        row.push(Some(to_pg_array(&rec.publishers)));
        row.push(rec.publish_date.clone());
        row.push(
            match rec.number_of_pages {
                Some(n) => Some(i64_text(n)),
                None => None,
            },
        );
        row.push(rec.physical_format.clone());
        row.push(Some(to_pg_array(&rec.languages)));
        row.push(Some(to_pg_array(&rec.lc_classifications)));
        row.push(Some(to_pg_array(&rec.dewey_decimal_class)));
        row.push(rec.notes.clone());
    }
    assert(opt_row_view(row@) =~= spec_ol_row(table_name@, *rec));
    row
}

/// The checkpoint key of a load: `openlibrary:<table>:<dump path>`.
pub fn ol_checkpoint_key(table_name: &str, dump_path: &str) -> (r: String)
    ensures
        r@ == "openlibrary:"@ + table_name@ + ":"@ + dump_path@,
{
    let mut out = "openlibrary:".to_string();
    out.append(table_name);
    out.append(":");
    out.append(dump_path);
    out
}

// ---------------------------------------------------------------------------
// Provisioning SQL
// ---------------------------------------------------------------------------

/// The SQL type of a record column (types without an entry are text).
pub open spec fn ol_type_sql(ty: PgTargetType) -> Seq<char> {
    match ty {
        PgTargetType::Text => "TEXT"@,
        PgTargetType::Int4 => "INTEGER"@,
        PgTargetType::Int8 => "BIGINT"@,
        PgTargetType::Timestamptz => "TIMESTAMPTZ"@,
        PgTargetType::TextArray => "TEXT[]"@,
        PgTargetType::Int8Array => "BIGINT[]"@,
        PgTargetType::Jsonb => "JSONB"@,
        _ => "TEXT"@,
    }
}

/// The definition of one column: quoted name, type, `PRIMARY KEY` for `ol_key`, `NOT NULL`
/// for `ol_type`, `revision` and `last_modified`.
pub open spec fn ol_column_sql(col: Seq<char>, ty: PgTargetType) -> Seq<char> {
    spec_quote_ident(col) + " "@ + ol_type_sql(ty) + (if col == "ol_key"@ {
        " PRIMARY KEY"@
    } else {
        ""@
    }) + (if col == "ol_type"@ || col == "revision"@ || col == "last_modified"@ {
        " NOT NULL"@
    } else {
        ""@
    })
}

/// `CREATE TABLE "<schema>"."<table>" (<column definitions>)`.
pub open spec fn ol_create_table_sql(
    schema: Seq<char>,
    table: Seq<char>,
    columns: Seq<Seq<char>>,
    types: Seq<PgTargetType>,
) -> Seq<char> {
    "CREATE TABLE "@ + spec_quote_ident(schema) + "."@ + spec_quote_ident(table) + " ("@ + join(
        Seq::new(columns.len(), |i: int| ol_column_sql(columns[i], types[i])),
        ", "@,
    ) + ")"@
}

fn ol_column_def(col: &String, ty: PgTargetType) -> (r: String)
    ensures
        r@ == ol_column_sql(col@, ty),
{
    let mut out = quote_ident(col.as_str());
    out.append(" ");
    let ty_sql = match ty {
        PgTargetType::Text => "TEXT",
        PgTargetType::Int4 => "INTEGER",
        PgTargetType::Int8 => "BIGINT",
        PgTargetType::Timestamptz => "TIMESTAMPTZ",
        PgTargetType::TextArray => "TEXT[]",
        PgTargetType::Int8Array => "BIGINT[]",
        PgTargetType::Jsonb => "JSONB",
        _ => "TEXT",
    };
    out.append(ty_sql);
    let pk = if *col == "ol_key".to_string() {
        " PRIMARY KEY"
    } else {
        ""
    };
    out.append(pk);
    let not_null = if *col == "ol_type".to_string() || *col == "revision".to_string() || *col
        == "last_modified".to_string() {
        " NOT NULL"
    } else {
        ""
    };
    out.append(not_null);
    out
}

/// The statement that creates a record table.
pub fn create_ol_table_sql(schema: &str, table: &str, columns: &Vec<String>, types: &Vec<PgTargetType>) -> (r:
    String)
    requires
        columns@.len() <= types@.len(),
    ensures
        r@ == ol_create_table_sql(schema@, table@, strings_view(columns@), types@),
{
    let ghost defs = Seq::new(columns@.len(), |i: int| ol_column_sql(strings_view(columns@)[i], types@[i]));
    let mut col_defs: Vec<String> = Vec::new();
    let mut i: usize = 0;
    while i < columns.len()
        invariant
            i <= columns@.len(),
            columns@.len() <= types@.len(),
            defs == Seq::new(columns@.len(), |i: int| ol_column_sql(strings_view(columns@)[i], types@[i])),
            strings_view(col_defs@) == defs.take(i as int),
        decreases columns@.len() - i,
    {
        let ghost before = strings_view(col_defs@);
        let d = ol_column_def(&columns[i], types[i]);
        col_defs.push(d);
        proof {
            assert(strings_view(columns@)[i as int] == columns@[i as int]@);
            assert(d@ == defs[i as int]);
            assert(strings_view(col_defs@) =~= before.push(d@));
            assert(defs.take(i + 1) =~= defs.take(i as int).push(defs[i as int]));
        }
        i += 1;
    }
    assert(defs.take(i as int) =~= defs);
    let mut out = "CREATE TABLE ".to_string();
    let s = quote_ident(schema);
    out.append(s.as_str());
    out.append(".");
    let t = quote_ident(table);
    out.append(t.as_str());
    out.append(" (");
    let body = join_strings(&col_defs, ", ");
    out.append(body.as_str());
    out.append(")");
    out
}

/// `DROP TABLE IF EXISTS "<schema>"."<table>"`.
pub fn drop_ol_table_sql(schema: &str, table: &str) -> (r: String)
    ensures
        r@ == "DROP TABLE IF EXISTS "@ + spec_quote_ident(schema@) + "."@ + spec_quote_ident(table@),
{
    let mut out = "DROP TABLE IF EXISTS ".to_string();
    let s = quote_ident(schema);
    out.append(s.as_str());
    out.append(".");
    let t = quote_ident(table);
    out.append(t.as_str());
    out
}

// ---------------------------------------------------------------------------
// Line-by-line loading
// ---------------------------------------------------------------------------

/// What to do with a line of the dump.
#[derive(Debug, Clone, Copy, PartialEq, Eq, Structural)]
pub enum LineStep {
    /// Before the checkpoint: already loaded.
    Skip,
    /// Past the record limit: stop reading.
    Stop,
    /// Read it.
    Process,
}

/// The state of loading one dump file: lines are counted from the checkpoint on, rows are
/// collected into batches of `max_rows`, and each batch is followed by a checkpoint.
pub struct OlLoader {
    start_line: u64,
    lines_processed: u64,
    max_records: Option<usize>,
    max_rows: u64,
    batch: Vec<Vec<Option<String>>>,
    pushed: Ghost<Seq<Seq<Option<Seq<char>>>>>,
    emitted: Ghost<Seq<Seq<Option<Seq<char>>>>>,
}

/// A batch of rows to write, then the checkpoint (a line number) to record.
pub struct OlBatch {
    pub rows: Vec<Vec<Option<String>>>,
    pub checkpoint: u64,
}

impl OlLoader {
    pub closed spec fn start(&self) -> u64 {
        self.start_line
    }

    /// Lines read from the checkpoint on (including one refused by the limit).
    pub closed spec fn processed(&self) -> u64 {
        self.lines_processed
    }

    pub closed spec fn limit(&self) -> Option<usize> {
        self.max_records
    }

    pub closed spec fn batch_rows(&self) -> u64 {
        self.max_rows
    }

    /// Every row added so far, in order.
    pub closed spec fn pushed(&self) -> Seq<Seq<Option<Seq<char>>>> {
        self.pushed@
    }

    /// The rows of every batch handed out so far, in order.
    pub closed spec fn emitted(&self) -> Seq<Seq<Option<Seq<char>>>> {
        self.emitted@
    }

    /// The rows waiting for the next batch.
    pub closed spec fn pending(&self) -> Seq<Seq<Option<Seq<char>>>> {
        rows_view(self.batch@)
    }

    /// The rows handed out followed by the pending ones are the rows added, and the
    /// pending rows never fill a batch.
    pub closed spec fn wf(&self) -> bool {
        &&& self.emitted@ + rows_view(self.batch@) == self.pushed@
        &&& self.batch@.len() < self.max_rows || self.batch@.len() == 0
    }

    /// A loader resuming at line `start_line` (0 for a fresh load).
    pub fn new(start_line: u64, max_records: Option<usize>, max_rows: u64) -> (l: Self)
        ensures
            l.wf(),
            l.start() == start_line,
            l.processed() == 0,
            l.limit() == max_records,
            l.batch_rows() == max_rows,
            l.pushed().len() == 0,
            l.emitted().len() == 0,
    {
        let l = OlLoader {
            start_line,
            lines_processed: 0,
            max_records,
            max_rows,
            batch: Vec::new(),
            pushed: Ghost(Seq::empty()),
            emitted: Ghost(Seq::empty()),
        };
        assert(rows_view(l.batch@) =~= Seq::<Seq<Option<Seq<char>>>>::empty());
        l
    }

    /// Decides about line `line_num` (counted from 0): lines before the checkpoint are
    /// skipped; every other line is counted, and once the count passes the record limit
    /// the load stops.
    pub fn begin_line(&mut self, line_num: u64) -> (r: LineStep)
        requires
            old(self).wf(),
            old(self).processed() < u64::MAX,
        ensures
            final(self).wf(),
            final(self).start() == old(self).start(),
            final(self).limit() == old(self).limit(),
            final(self).batch_rows() == old(self).batch_rows(),
            final(self).pushed() == old(self).pushed(),
            final(self).emitted() == old(self).emitted(),
            line_num < old(self).start() ==> r == LineStep::Skip && final(self).processed()
                == old(self).processed(),
            line_num >= old(self).start() ==> final(self).processed() == old(self).processed() + 1
                && r == (if old(self).limit() matches Some(m) && final(self).processed() > m {
                LineStep::Stop
            } else {
                LineStep::Process
            }),
    {
        if line_num < self.start_line {
            return LineStep::Skip;
        }
        self.lines_processed = self.lines_processed + 1;
        match self.max_records {
            Some(m) => if self.lines_processed > m as u64 {
                LineStep::Stop
            } else {
                LineStep::Process
            },
            None => LineStep::Process,
        }
    }

    /// Adds the row of line `line_num`. Once the batch holds `max_rows` rows it is handed
    /// out, with the line after this one as the checkpoint.
    pub fn add_row(&mut self, row: Vec<Option<String>>, line_num: u64) -> (r: Option<OlBatch>)
        requires
            old(self).wf(),
            line_num < u64::MAX,
        ensures
            final(self).wf(),
            final(self).start() == old(self).start(),
            final(self).processed() == old(self).processed(),
            final(self).limit() == old(self).limit(),
            final(self).batch_rows() == old(self).batch_rows(),
            final(self).pushed() == old(self).pushed().push(opt_row_view(row@)),
            ({
                let full = old(self).pending().push(opt_row_view(row@));
                if full.len() >= old(self).batch_rows() {
                    &&& r matches Some(b) && rows_view(b.rows@) == full && b.checkpoint == line_num + 1
                    &&& final(self).pending().len() == 0
                    &&& final(self).emitted() == old(self).emitted() + full
                } else {
                    &&& r is None
                    &&& final(self).pending() == full
                    &&& final(self).emitted() == old(self).emitted()
                }
            }),
    {
        let ghost full = rows_view(self.batch@).push(opt_row_view(row@));
        self.batch.push(row);
        proof {
            assert(rows_view(self.batch@) =~= full);
            self.pushed@ = self.pushed@.push(opt_row_view(row@));
        }
        if self.batch.len() as u64 >= self.max_rows {
            let mut rows: Vec<Vec<Option<String>>> = Vec::new();
            std::mem::swap(&mut rows, &mut self.batch);
            proof {
                self.emitted@ = self.emitted@ + full;
                assert(rows_view(self.batch@) =~= Seq::<Seq<Option<Seq<char>>>>::empty());
                assert(self.emitted@ + rows_view(self.batch@) =~= self.pushed@);
            }
            Some(OlBatch { rows, checkpoint: line_num + 1 })
        } else {
            None
        }
    }

    /// Ends the load: the pending rows, if any, and the final checkpoint, which is the
    /// checkpoint line plus the lines counted.
    pub fn finish(&mut self) -> (r: (Option<Vec<Vec<Option<String>>>>, u64))
        requires
            old(self).wf(),
            old(self).start() + old(self).processed() <= u64::MAX,
        ensures
            final(self).wf(),
            final(self).pending().len() == 0,
            final(self).emitted() == final(self).pushed(),
            final(self).pushed() == old(self).pushed(),
            r.1 == old(self).start() + old(self).processed(),
            old(self).pending().len() == 0 ==> r.0 is None,
            old(self).pending().len() > 0 ==> (r.0 matches Some(rows) && rows_view(rows@) == old(self).pending()),
    {
        let end = self.start_line + self.lines_processed;
        if self.batch.len() == 0 {
            assert(self.emitted@ =~= self.pushed@);
            return (None, end);
        }
        let mut rows: Vec<Vec<Option<String>>> = Vec::new();
        std::mem::swap(&mut rows, &mut self.batch);
        proof {
            self.emitted@ = self.emitted@ + rows_view(rows@);
            assert(rows_view(self.batch@) =~= Seq::<Seq<Option<Seq<char>>>>::empty());
            assert(self.emitted@ =~= self.pushed@);
        }
        (Some(rows), end)
    }
}

// ---------------------------------------------------------------------------
// The ingest command
// ---------------------------------------------------------------------------

/// The dataset of an Open Library ingest: the one given, else the configured one, else
/// `openlibrary-default`.
pub fn ol_dataset_id(given: Option<String>, configured: Option<String>) -> (r: String)
    ensures
        r@ == match given {
            Some(g) => g@,
            None => match configured {
                Some(c) => c@,
                None => "openlibrary-default"@,
            },
        },
{
    match given {
        Some(g) => g,
        None => match configured {
            Some(c) => c,
            None => "openlibrary-default".to_string(),
        },
    }
}

/// The loads of an Open Library ingest, in order authors, editions, works: one for each
/// dump given on the command line or else configured.
pub fn ol_ingest_plans(
    authors: Option<String>,
    editions: Option<String>,
    works: Option<String>,
    configured_authors: Option<String>,
    configured_editions: Option<String>,
    configured_works: Option<String>,
    schema: &str,
) -> (r: Vec<OlIngestPlan>)
    ensures
        ({
            let pick = |a: Option<String>, c: Option<String>|
                match a {
                    Some(x) => Some(x@),
                    None => match c {
                        Some(y) => Some(y@),
                        None => None,
                    },
                };
            let entries = seq![
                ("authors"@, pick(authors, configured_authors)),
                ("editions"@, pick(editions, configured_editions)),
                ("works"@, pick(works, configured_works)),
            ].filter(|e: (Seq<char>, Option<Seq<char>>)| e.1 is Some);
            &&& r@.len() == entries.len()
            &&& forall|i: int|
                0 <= i < r@.len() ==> (#[trigger] r@[i]).table_name@ == entries[i].0 && Some(
                    r@[i].dump_path@,
                ) == entries[i].1 && r@[i].schema@ == schema@ && r@[i].max_records is None
        }),
{
    let mut out: Vec<OlIngestPlan> = Vec::new();
    let a = match authors {
        Some(x) => Some(x),
        None => configured_authors,
    };
    let e = match editions {
        Some(x) => Some(x),
        None => configured_editions,
    };
    let w = match works {
        Some(x) => Some(x),
        None => configured_works,
    };
    let ghost pick = |a: Option<String>, c: Option<String>|
        match a {
            Some(x) => Some(x@),
            None => match c {
                Some(y) => Some(y@),
                None => None,
            },
        };
    let ghost e0 = ("authors"@, pick(authors, configured_authors));
    let ghost e1 = ("editions"@, pick(editions, configured_editions));
    let ghost e2 = ("works"@, pick(works, configured_works));
    let ghost p = |e: (Seq<char>, Option<Seq<char>>)| e.1 is Some;
    let ghost all = seq![e0, e1, e2];
    proof {
        assert(all.take(0) =~= Seq::<(Seq<char>, Option<Seq<char>>)>::empty());
        assert(all.take(1) =~= seq![e0]);
        assert(all.take(2) =~= seq![e0, e1]);
        assert(all.take(3) =~= all);
        assert(seq![e0] =~= Seq::<(Seq<char>, Option<Seq<char>>)>::empty().push(e0));
        assert(seq![e0, e1] =~= seq![e0].push(e1));
        assert(all =~= seq![e0, e1].push(e2));
        Seq::<(Seq<char>, Option<Seq<char>>)>::empty().lemma_filter_push(e0, p);
        seq![e0].lemma_filter_push(e1, p);
        seq![e0, e1].lemma_filter_push(e2, p);
        assert(Seq::<(Seq<char>, Option<Seq<char>>)>::empty().filter(p) =~= Seq::<(Seq<char>, Option<Seq<char>>)>::empty()) by {
            reveal(Seq::filter);
        }
    }
    match a {
        Some(path) => out.push(OlIngestPlan { dump_path: path, table_name: "authors".to_string(), schema: schema.to_string(), max_records: None }),
        None => {},
    }
    match e {
        Some(path) => out.push(OlIngestPlan { dump_path: path, table_name: "editions".to_string(), schema: schema.to_string(), max_records: None }),
        None => {},
    }
    match w {
        Some(path) => out.push(OlIngestPlan { dump_path: path, table_name: "works".to_string(), schema: schema.to_string(), max_records: None }),
        None => {},
    }
    out
}

} // verus!
