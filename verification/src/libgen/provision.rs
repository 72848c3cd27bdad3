//! Table discovery: the `CREATE TABLE` definitions of a dump, in dump order, from which
//! the PostgreSQL tables are provisioned.
use crate::libgen::mysql_dump::{
    failure_text, parse_create_table, spec_parse_create_table, MySqlDumpError, ParseFailure,
    TableDef,
};
use crate::libgen::ingest::strings_view;
use vstd::prelude::*;

verus! {

/// Why no tables could be provisioned from a dump.
pub enum ProvisionError {
    /// A `CREATE TABLE` statement did not parse.
    Parse(MySqlDumpError),
    /// The dump has no `CREATE TABLE` statement.
    NoCreateTable,
}

/// The views of the table definitions of `stmts`, in order, or the failure of the first
/// `CREATE TABLE` that does not parse.
pub open spec fn create_table_defs(stmts: Seq<Seq<char>>) -> Result<
    Seq<(Seq<char>, Seq<(Seq<char>, Seq<char>)>)>,
    ParseFailure,
>
    decreases stmts.len(),
{
    if stmts.len() == 0 {
        Ok(Seq::empty())
    } else {
        match create_table_defs(stmts.drop_last()) {
            Err(f) => Err(f),
            Ok(v) => match spec_parse_create_table(stmts.last()) {
                Err(f) => Err(f),
                Ok(None) => Ok(v),
                Ok(Some(d)) => Ok(v.push(d)),
            },
        }
    }
}

/// The table definitions of a dump's statements, in dump order (a table defined twice is
/// listed twice). An error for the first `CREATE TABLE` that does not parse, and when
/// there is none at all.
pub fn collect_table_defs(statements: &Vec<String>) -> (r: Result<Vec<TableDef>, ProvisionError>)
    ensures
        match create_table_defs(strings_view(statements@)) {
            Err(f) => r matches Err(ProvisionError::Parse(MySqlDumpError::Parse(m))) && m@
                == failure_text(f),
            Ok(v) => if v.len() == 0 {
                r matches Err(ProvisionError::NoCreateTable)
            } else {
                r matches Ok(defs) && defs@.map_values(|d: TableDef| d@) == v
            },
        },
{
    let ghost all = strings_view(statements@);
    let mut defs: Vec<TableDef> = Vec::new();
    let mut i: usize = 0;
    assert(all.take(0) =~= Seq::<Seq<char>>::empty());
    assert(defs@.map_values(|d: TableDef| d@) =~= Seq::<(Seq<char>, Seq<(Seq<char>, Seq<char>)>)>::empty());
    while i < statements.len()
        invariant
            i <= statements@.len(),
            all == strings_view(statements@),
            create_table_defs(all.take(i as int)) == Ok::<
                Seq<(Seq<char>, Seq<(Seq<char>, Seq<char>)>)>,
                ParseFailure,
            >(defs@.map_values(|d: TableDef| d@)),
        decreases statements@.len() - i,
    {
        proof {
            assert(all.take(i + 1).drop_last() =~= all.take(i as int));
            assert(all.take(i + 1).last() == statements@[i as int]@);
        }
        match parse_create_table(statements[i].as_str()) {
            Err(e) => {
                proof {
                    lemma_defs_error_stays(all, i as int + 1);
                }
                return Err(ProvisionError::Parse(e));
            },
            Ok(Some(def)) => {
                let ghost before = defs@.map_values(|d: TableDef| d@);
                defs.push(def);
                assert(defs@.map_values(|d: TableDef| d@) =~= before.push(def@));
            },
            Ok(None) => {},
        }
        i += 1;
    }
    assert(all.take(i as int) =~= all);
    if defs.len() == 0 {
        return Err(ProvisionError::NoCreateTable);
    }
    Ok(defs)
}

/// Once a prefix of the statements fails, the whole list fails the same way.
proof fn lemma_defs_error_stays(all: Seq<Seq<char>>, n: int)
    requires
        0 <= n <= all.len(),
        create_table_defs(all.take(n)) is Err,
    ensures
        create_table_defs(all) == create_table_defs(all.take(n)),
    decreases all.len() - n,
{
    if n == all.len() {
        assert(all.take(n) =~= all);
    } else {
        assert(all.take(n + 1).drop_last() =~= all.take(n));
        lemma_defs_error_stays(all, n + 1);
    }
}

} // verus!
