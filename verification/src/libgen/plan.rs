//! The decisions of the LibGen commands: which dataset and import run a command works
//! on, how an ingest or update is planned from the configuration, which tables get
//! unique indexes, deletes and post-load indexes, and the checks that refuse a run.
use crate::config::LibgenDumpKind;
use crate::libgen::ingest::{row_hash_column, strings_view, IngestMode, IngestPlan};
use crate::libgen::mysql_dump::{kind_name, TableDef};
use crate::libgen::offline::{has_column, index_fields, spec_index_fields, table_has_column};
use crate::text::{i64_text, int_text, replace_all, replace_str};
use vstd::prelude::*;
use vstd::string::StringExecFns;

verus! {

broadcast use vstd::string::group_string_axioms;

/// Why a command refuses to run.
pub enum RunPlanError {
    /// An update needs key columns (or row hashing) for the dump kind.
    UpdateWithoutKeys(LibgenDumpKind),
    /// Deletes need exactly one key column; the number configured.
    DeleteKeyColumns(usize),
    /// The manifest names a kind that is neither `fiction` nor `compact`.
    UnknownManifestKind(String),
    /// The import run has a status from which it cannot be resumed.
    NotResumable { import_run_id: i64, status: String },
    /// The import run was made for another dump kind than the manifest's.
    ManifestKindMismatch { import_run_id: i64, expected: String, found: String },
    /// The import run was made for another dump file than the manifest's.
    ManifestDumpMismatch { import_run_id: i64, expected: String, found: String },
    /// No output directory was given or configured.
    NoOutDir,
    /// A validated table holds no rows.
    EmptyTable(String),
}

/// The name of a dump kind as `Debug` writes it.
pub open spec fn kind_debug_name(kind: LibgenDumpKind) -> Seq<char> {
    match kind {
        LibgenDumpKind::Fiction => "Fiction"@,
        LibgenDumpKind::Compact => "Compact"@,
    }
}

/// Whether a mutating command only reports what it would do.
pub fn dry_run(dry_run_flag: bool, dry_run_default: bool) -> (r: bool)
    ensures
        r == (dry_run_flag || dry_run_default),
{
    dry_run_flag || dry_run_default
}

/// The dataset of an ingest or update: the one given, else the configured one, else the
/// template with `{kind}` replaced by the kind's name.
pub fn resolve_dataset_id(
    given: Option<String>,
    configured: Option<String>,
    template: &str,
    kind: LibgenDumpKind,
) -> (r: String)
    ensures
        r@ == match given {
            Some(g) => g@,
            None => match configured {
                Some(c) => c@,
                None => replace_all(template@, "{kind}"@, kind_name(kind)),
            },
        },
{
    match given {
        Some(g) => g,
        None => match configured {
            Some(c) => c,
            None => {
                let kind_str = match kind {
                    LibgenDumpKind::Fiction => "fiction",
                    LibgenDumpKind::Compact => "compact",
                };
                proof {
                    reveal_strlit("{kind}");
                }
                replace_str(template, "{kind}", kind_str)
            },
        },
    }
}

/// The dataset of an offline load: the one given, else the configured one, else
/// `libgen-<Kind>`.
pub fn default_dataset_id(given: Option<String>, configured: Option<String>, kind: LibgenDumpKind) -> (r:
    String)
    ensures
        r@ == match given {
            Some(g) => g@,
            None => match configured {
                Some(c) => c@,
                None => "libgen-"@ + kind_debug_name(kind),
            },
        },
{
    match given {
        Some(g) => g,
        None => match configured {
            Some(c) => c,
            None => {
                let mut out = "libgen-".to_string();
                match kind {
                    LibgenDumpKind::Fiction => out.append("Fiction"),
                    LibgenDumpKind::Compact => out.append("Compact"),
                }
                out
            },
        },
    }
}

/// The mode of an operation: `update` updates, anything else ingests.
pub fn ingest_mode_for_op(op: &str) -> (r: IngestMode)
    ensures
        r == (if op@ == "update"@ {
            IngestMode::Update
        } else {
            IngestMode::Ingest
        }),
{
    let update = "update".to_string();
    if op.to_string() == update {
        IngestMode::Update
    } else {
        IngestMode::Ingest
    }
}

/// Row hashing is used when the incremental strategy is `row_hash` and it is switched on.
pub fn row_hash_enabled(strategy: &str, row_hash_switch: bool) -> (r: bool)
    ensures
        r == (strategy@ == "row_hash"@ && row_hash_switch),
{
    let row_hash = "row_hash".to_string();
    strategy.to_string() == row_hash && row_hash_switch
}

/// Plans an ingest (or, for the operation `update`, an update) of a dump whose tables
/// were provisioned. An update with row hashing matches rows by their hash; otherwise it
/// matches them by the configured key columns, and it needs some. Deletes are applied
/// only by updates without row hashing, when configured.
pub fn plan_ingest(
    kind: LibgenDumpKind,
    dump_path: String,
    table_defs: Vec<TableDef>,
    overall_prefix: String,
    kind_prefix: String,
    op: &str,
    strategy: &str,
    row_hash_switch: bool,
    primary_key_columns: Vec<String>,
    apply_deletes: bool,
) -> (r: Result<IngestPlan, RunPlanError>)
    ensures
        ({
            let mode = if op@ == "update"@ {
                IngestMode::Update
            } else {
                IngestMode::Ingest
            };
            let hash = strategy@ == "row_hash"@ && row_hash_switch;
            let conflict = if mode == IngestMode::Update && hash {
                seq![row_hash_column()]
            } else {
                strings_view(primary_key_columns@)
            };
            if mode == IngestMode::Update && conflict.len() == 0 {
                r matches Err(RunPlanError::UpdateWithoutKeys(k)) && k == kind
            } else {
                r matches Ok(p) && p.kind == kind && p.dump_path@ == dump_path@ && p.table_defs@
                    == table_defs@ && p.overall_prefix@ == overall_prefix@ && p.kind_prefix@
                    == kind_prefix@ && p.mode == mode && strings_view(p.conflict_columns@)
                    == conflict && p.apply_deletes == (apply_deletes && mode == IngestMode::Update
                    && !hash) && p.row_hash_enabled == hash
            }
        }),
{
    let mode = ingest_mode_for_op(op);
    let hash = row_hash_enabled(strategy, row_hash_switch);
    let conflict_columns = if mode == IngestMode::Update && hash {
        let mut v: Vec<String> = Vec::new();
        v.push("_bm_row_hash".to_string());
        assert(strings_view(v@) =~= seq![row_hash_column()]);
        v
    } else {
        primary_key_columns
    };
    if mode == IngestMode::Update && conflict_columns.len() == 0 {
        return Err(RunPlanError::UpdateWithoutKeys(kind));
    }
    Ok(
        IngestPlan {
            kind,
            dump_path,
            table_defs,
            overall_prefix,
            kind_prefix,
            mode,
            conflict_columns,
            apply_deletes: apply_deletes && mode == IngestMode::Update && !hash,
            row_hash_enabled: hash,
        },
    )
}

/// Whether every key column is a column of the table (the hash column always counts).
pub open spec fn has_all_keys(def: TableDef, keys: Seq<Seq<char>>) -> bool {
    forall|i: int| 0 <= i < keys.len() ==> has_column(def, #[trigger] keys[i]) || keys[i] == row_hash_column()
}

/// The tables (by index, in order) that get a unique index on the key columns: with an
/// update or row hashing, those that have every key column; otherwise none.
pub open spec fn spec_unique_index_tables(plan: IngestPlan) -> Seq<usize> {
    if plan.mode == IngestMode::Update || plan.row_hash_enabled {
        Seq::new(plan.table_defs@.len(), |i: int| i as usize).filter(
            |i: usize| has_all_keys(plan.table_defs@[i as int], strings_view(plan.conflict_columns@)),
        )
    } else {
        Seq::empty()
    }
}

fn table_has_all_keys(def: &TableDef, keys: &Vec<String>) -> (r: bool)
    ensures
        r == has_all_keys(*def, strings_view(keys@)),
{
    let hash_col = "_bm_row_hash".to_string();
    let mut i: usize = 0;
    while i < keys.len()
        invariant
            i <= keys@.len(),
            hash_col@ == row_hash_column(),
            forall|j: int|
                0 <= j < i ==> has_column(*def, #[trigger] strings_view(keys@)[j])
                    || strings_view(keys@)[j] == row_hash_column(),
        decreases keys@.len() - i,
    {
        if !table_has_column(def, &keys[i]) && keys[i] != hash_col {
            assert(strings_view(keys@)[i as int] == keys@[i as int]@);
            return false;
        }
        i += 1;
    }
    true
}

/// The tables that get a unique index on the plan's key columns.
pub fn unique_index_tables(plan: &IngestPlan) -> (r: Vec<usize>)
    ensures
        r@ == spec_unique_index_tables(*plan),
{
    let mut out: Vec<usize> = Vec::new();
    if !(plan.mode == IngestMode::Update || plan.row_hash_enabled) {
        return out;
    }
    let ghost keys = strings_view(plan.conflict_columns@);
    let ghost idx = Seq::new(plan.table_defs@.len(), |i: int| i as usize);
    let ghost pred = |i: usize| has_all_keys(plan.table_defs@[i as int], keys);
    let mut i: usize = 0;
    while i < plan.table_defs.len()
        invariant
            i <= plan.table_defs@.len(),
            keys == strings_view(plan.conflict_columns@),
            idx == Seq::new(plan.table_defs@.len(), |i: int| i as usize),
            pred == (|i: usize| has_all_keys(plan.table_defs@[i as int], keys)),
            out@ == idx.take(i as int).filter(pred),
        decreases plan.table_defs@.len() - i,
    {
        let ok = table_has_all_keys(&plan.table_defs[i], &plan.conflict_columns);
        proof {
            idx.take(i as int).lemma_filter_push(idx[i as int], pred);
            assert(idx.take(i as int).push(idx[i as int]) =~= idx.take(i + 1));
        }
        if ok {
            out.push(i);
        }
        i += 1;
    }
    assert(idx.take(i as int) =~= idx);
    out
}

/// The tables (by index, in order) from which rows missing from the dump are deleted:
/// none without deletes; with deletes the plan needs exactly one key column, and the
/// tables are those that have it.
pub fn delete_targets(plan: &IngestPlan) -> (r: Result<Vec<usize>, RunPlanError>)
    ensures
        !plan.apply_deletes ==> (r matches Ok(v) && v@.len() == 0),
        plan.apply_deletes && plan.conflict_columns@.len() != 1 ==> (r matches Err(
            RunPlanError::DeleteKeyColumns(n),
        ) && n == plan.conflict_columns@.len()),
        plan.apply_deletes && plan.conflict_columns@.len() == 1 ==> (r matches Ok(v) && v@
            == Seq::new(plan.table_defs@.len(), |i: int| i as usize).filter(
            |i: usize| has_column(plan.table_defs@[i as int], plan.conflict_columns@[0]@),
        )),
{
    let mut out: Vec<usize> = Vec::new();
    if !plan.apply_deletes {
        return Ok(out);
    }
    if plan.conflict_columns.len() != 1 {
        return Err(RunPlanError::DeleteKeyColumns(plan.conflict_columns.len()));
    }
    let pk = &plan.conflict_columns[0];
    let ghost idx = Seq::new(plan.table_defs@.len(), |i: int| i as usize);
    let ghost pred = |i: usize| has_column(plan.table_defs@[i as int], plan.conflict_columns@[0]@);
    let mut i: usize = 0;
    while i < plan.table_defs.len()
        invariant
            i <= plan.table_defs@.len(),
            plan.conflict_columns@.len() == 1,
            pk == plan.conflict_columns@[0],
            idx == Seq::new(plan.table_defs@.len(), |i: int| i as usize),
            pred == (|i: usize| has_column(plan.table_defs@[i as int], plan.conflict_columns@[0]@)),
            out@ == idx.take(i as int).filter(pred),
        decreases plan.table_defs@.len() - i,
    {
        let ok = table_has_column(&plan.table_defs[i], pk);
        proof {
            idx.take(i as int).lemma_filter_push(idx[i as int], pred);
            assert(idx.take(i as int).push(idx[i as int]) =~= idx.take(i + 1));
        }
        if ok {
            out.push(i);
        }
        i += 1;
    }
    assert(idx.take(i as int) =~= idx);
    Ok(out)
}

/// The indexes created after a load: for every table, in order, the configured main
/// fields that are its columns (see `index_fields`); none when indexing after the load
/// is off.
pub fn post_load_indexes(defs: &Vec<TableDef>, main_fields: &Vec<String>, create_after_load: bool) -> (r:
    Vec<Vec<String>>)
    ensures
        r@.len() == defs@.len(),
        forall|i: int|
            0 <= i < defs@.len() ==> strings_view(#[trigger] r@[i]@) == (if create_after_load {
                spec_index_fields(strings_view(main_fields@), defs@[i])
            } else {
                Seq::empty()
            }),
{
    let mut out: Vec<Vec<String>> = Vec::new();
    let mut i: usize = 0;
    while i < defs.len()
        invariant
            i <= defs@.len(),
            out@.len() == i,
            forall|j: int|
                0 <= j < i ==> strings_view(#[trigger] out@[j]@) == (if create_after_load {
                    spec_index_fields(strings_view(main_fields@), defs@[j])
                } else {
                    Seq::empty()
                }),
        decreases defs@.len() - i,
    {
        let fields = if create_after_load {
            index_fields(main_fields, &defs[i])
        } else {
            let v: Vec<String> = Vec::new();
            assert(strings_view(v@) =~= Seq::<Seq<char>>::empty());
            v
        };
        out.push(fields);
        i += 1;
    }
    out
}

// ---------------------------------------------------------------------------
// Offline conversion and load
// ---------------------------------------------------------------------------

/// How converted files are laid out under the default output directory.
#[derive(Debug, Clone, Copy, PartialEq, Eq, Structural)]
pub enum OfflineLayout {
    /// Directly in the directory.
    Flat,
    /// In a subdirectory named after the dump kind.
    KindSubdir,
}

/// The directory a conversion writes to: the one given, else the configured default
/// (with `/<kind>` appended for the per-kind layout); an error when there is neither.
pub fn offline_out_dir(
    given: Option<String>,
    configured_default: Option<String>,
    layout: OfflineLayout,
    kind: LibgenDumpKind,
) -> (r: Result<String, RunPlanError>)
    ensures
        match given {
            Some(g) => r matches Ok(d) && d@ == g@,
            None => match configured_default {
                None => r matches Err(RunPlanError::NoOutDir),
                Some(b) => r matches Ok(d) && d@ == match layout {
                    OfflineLayout::Flat => b@,
                    OfflineLayout::KindSubdir => b@ + "/"@ + kind_name(kind),
                },
            },
        },
{
    match given {
        Some(g) => Ok(g),
        None => match configured_default {
            None => Err(RunPlanError::NoOutDir),
            Some(b) => match layout {
                OfflineLayout::Flat => Ok(b),
                OfflineLayout::KindSubdir => {
                    let mut out = b;
                    out.append("/");
                    match kind {
                        LibgenDumpKind::Fiction => out.append("fiction"),
                        LibgenDumpKind::Compact => out.append("compact"),
                    }
                    Ok(out)
                },
            },
        },
    }
}

/// The dump kind a manifest records.
pub fn manifest_kind(kind: &str) -> (r: Result<LibgenDumpKind, RunPlanError>)
    ensures
        kind@ == "fiction"@ ==> r matches Ok(LibgenDumpKind::Fiction),
        kind@ == "compact"@ ==> r matches Ok(LibgenDumpKind::Compact),
        kind@ != "fiction"@ && kind@ != "compact"@ ==> (r matches Err(
            RunPlanError::UnknownManifestKind(k),
        ) && k@ == kind@),
{
    let k = kind.to_string();
    let f = "fiction".to_string();
    let c = "compact".to_string();
    proof {
        reveal_strlit("fiction");
        reveal_strlit("compact");
        assert("fiction"@[0] != "compact"@[0]);
    }
    if k == f {
        Ok(LibgenDumpKind::Fiction)
    } else if k == c {
        Ok(LibgenDumpKind::Compact)
    } else {
        Err(RunPlanError::UnknownManifestKind(k))
    }
}

/// Which import run an offline load works on.
#[derive(Debug, Clone, Copy, PartialEq, Eq, Structural)]
pub enum RunSelection {
    /// The run given.
    Given(i64),
    /// The latest resumable run of the dataset.
    ResumeLatest,
    /// A new run.
    CreateNew,
}

/// The run given wins over resuming the latest one; without either a new run is made.
pub fn select_run(import_run_id: Option<i64>, resume_latest: bool) -> (r: RunSelection)
    ensures
        r == match import_run_id {
            Some(id) => RunSelection::Given(id),
            None => if resume_latest {
                RunSelection::ResumeLatest
            } else {
                RunSelection::CreateNew
            },
        },
{
    match import_run_id {
        Some(id) => RunSelection::Given(id),
        None => if resume_latest {
            RunSelection::ResumeLatest
        } else {
            RunSelection::CreateNew
        },
    }
}

/// Only runs that are `in_progress` or `failed` can be loaded into.
pub fn check_resumable(import_run_id: i64, status: &str) -> (r: Result<(), RunPlanError>)
    ensures
        (status@ == "in_progress"@ || status@ == "failed"@) ==> r is Ok,
        !(status@ == "in_progress"@ || status@ == "failed"@) ==> (r matches Err(
            RunPlanError::NotResumable { import_run_id: id, status: s },
        ) && id == import_run_id && s@ == status@),
{
    let s = status.to_string();
    let a = "in_progress".to_string();
    let b = "failed".to_string();
    if s == a || s == b {
        Ok(())
    } else {
        Err(RunPlanError::NotResumable { import_run_id, status: s })
    }
}

/// When a given or latest run is resumed under strict manifest matching, the run must have
/// been made for the manifest's kind, and for its dump unless the run recorded none.
pub fn check_manifest_match(
    strict: bool,
    resuming: bool,
    import_run_id: i64,
    expected_kind: &str,
    expected_dump: &str,
    manifest_kind: &str,
    manifest_dump: &str,
) -> (r: Result<(), RunPlanError>)
    ensures
        !(strict && resuming) ==> r is Ok,
        strict && resuming && expected_kind@ != manifest_kind@ ==> (r matches Err(
            RunPlanError::ManifestKindMismatch { import_run_id: id, expected, found },
        ) && id == import_run_id && expected@ == expected_kind@ && found@ == manifest_kind@),
        strict && resuming && expected_kind@ == manifest_kind@ && expected_dump@.len() > 0
            && expected_dump@ != manifest_dump@ ==> (r matches Err(
            RunPlanError::ManifestDumpMismatch { import_run_id: id, expected, found },
        ) && id == import_run_id && expected@ == expected_dump@ && found@ == manifest_dump@),
        strict && resuming && expected_kind@ == manifest_kind@ && (expected_dump@.len() == 0
            || expected_dump@ == manifest_dump@) ==> r is Ok,
{
    if !(strict && resuming) {
        return Ok(());
    }
    let ek = expected_kind.to_string();
    let mk = manifest_kind.to_string();
    if ek != mk {
        return Err(RunPlanError::ManifestKindMismatch { import_run_id, expected: ek, found: mk });
    }
    let ed = expected_dump.to_string();
    let md = manifest_dump.to_string();
    if ed.as_str().unicode_len() > 0 && ed != md {
        return Err(RunPlanError::ManifestDumpMismatch { import_run_id, expected: ed, found: md });
    }
    Ok(())
}

// ---------------------------------------------------------------------------
// Stats, sample, validate, load status
// ---------------------------------------------------------------------------

/// The PostgreSQL table of a MySQL table: overall prefix (if any), kind prefix, name.
pub fn prefixed_table(overall_prefix: &Option<String>, kind_prefix: &str, mysql_table: &str) -> (r: String)
    ensures
        r@ == match overall_prefix {
            Some(p) => p@,
            None => Seq::empty(),
        } + kind_prefix@ + mysql_table@,
{
    let mut out = match overall_prefix {
        Some(p) => p.clone(),
        None => String::new(),
    };
    out.append(kind_prefix);
    out.append(mysql_table);
    out
}

/// Validation fails for a table without rows.
pub fn check_row_count(table: &str, count: i64) -> (r: Result<(), RunPlanError>)
    ensures
        count != 0 ==> r is Ok,
        count == 0 ==> (r matches Err(RunPlanError::EmptyTable(t)) && t@ == table@),
{
    if count == 0 {
        Err(RunPlanError::EmptyTable(table.to_string()))
    } else {
        Ok(())
    }
}

/// How many recorded tables are at each stage of an offline load.
#[derive(Debug, Clone, Copy, PartialEq, Eq, Structural)]
pub struct StageSummary {
    pub staged: u64,
    pub swapped: u64,
    pub unknown: u64,
    pub total: u64,
}

/// The number of stage names equal to `name`.
pub open spec fn count_of(stages: Seq<Seq<char>>, name: Seq<char>) -> nat
    decreases stages.len(),
{
    if stages.len() == 0 {
        0
    } else {
        count_of(stages.drop_last(), name) + if stages.last() == name {
            1nat
        } else {
            0nat
        }
    }
}

proof fn lemma_count_of_le(stages: Seq<Seq<char>>, name: Seq<char>)
    ensures
        count_of(stages, name) <= stages.len(),
    decreases stages.len(),
{
    if stages.len() > 0 {
        lemma_count_of_le(stages.drop_last(), name);
    }
}

/// Counts the recorded stages: `staged`, `swapped`, and any other name.
pub fn summarize_stages(stages: &Vec<String>) -> (r: StageSummary)
    requires
        stages@.len() <= u64::MAX,
    ensures
        r.staged == count_of(strings_view(stages@), "staged"@),
        r.swapped == count_of(strings_view(stages@), "swapped"@),
        r.total == stages@.len(),
        r.unknown == r.total - r.staged - r.swapped,
{
    let ghost all = strings_view(stages@);
    let staged_name = "staged".to_string();
    let swapped_name = "swapped".to_string();
    let mut staged: u64 = 0;
    let mut swapped: u64 = 0;
    let mut unknown: u64 = 0;
    let mut i: usize = 0;
    while i < stages.len()
        invariant
            i <= stages@.len(),
            stages@.len() <= u64::MAX,
            all == strings_view(stages@),
            staged_name@ == "staged"@,
            swapped_name@ == "swapped"@,
            staged == count_of(all.take(i as int), "staged"@),
            swapped == count_of(all.take(i as int), "swapped"@),
            staged + swapped + unknown == i,
        decreases stages@.len() - i,
    {
        proof {
            assert(all.take(i + 1).drop_last() =~= all.take(i as int));
            reveal_strlit("staged");
            reveal_strlit("swapped");
            assert("staged"@[1] != "swapped"@[1]);
        }
        if stages[i] == staged_name {
            staged += 1;
        } else if stages[i] == swapped_name {
            swapped += 1;
        } else {
            unknown += 1;
        }
        i += 1;
    }
    assert(all.take(i as int) =~= all);
    StageSummary { staged, swapped, unknown, total: stages.len() as u64 }
}

impl RunPlanError {
    /// The message reported for the error.
    pub fn message(&self) -> (r: String)
        ensures
            match self {
                RunPlanError::UpdateWithoutKeys(k) => r@
                    == "libgen update requires either libgen.incremental.primary_key_columns."@
                    + kind_debug_name(*k) + " or row_hash enabled"@,
                RunPlanError::DeleteKeyColumns(n) => r@
                    == "apply_deletes requires exactly 1 primary key column, got "@ + int_text(
                    *n as int,
                ),
                RunPlanError::UnknownManifestKind(k) => r@ == "unknown manifest kind `"@ + k@
                    + "` (expected `fiction` or `compact`)"@,
                RunPlanError::NotResumable { import_run_id, status } => r@ == "import_run_id "@
                    + int_text(*import_run_id as int) + " has status `"@ + status@
                    + "`; only in_progress/failed can be resumed"@,
                RunPlanError::ManifestKindMismatch { import_run_id, expected, found } => r@
                    == "resume manifest mismatch: import_run_id "@ + int_text(*import_run_id as int)
                    + " expects kind `"@ + expected@ + "`, but manifest has `"@ + found@ + "`"@,
                RunPlanError::ManifestDumpMismatch { import_run_id, expected, found } => r@
                    == "resume manifest mismatch: import_run_id "@ + int_text(*import_run_id as int)
                    + " expects dump `"@ + expected@ + "`, but manifest has `"@ + found@ + "`"@,
                RunPlanError::NoOutDir => r@
                    == "no offline output dir configured; set `libgen.offline.out_dir_default` or pass `--out-dir` (paths.cache_policy=never)"@,
                RunPlanError::EmptyTable(t) => r@ == "validation failed: `"@ + t@ + "` has 0 rows"@,
            },
    {
        match self {
            RunPlanError::UpdateWithoutKeys(k) => {
                let mut out = "libgen update requires either libgen.incremental.primary_key_columns.".to_string();
                match k {
                    LibgenDumpKind::Fiction => out.append("Fiction"),
                    LibgenDumpKind::Compact => out.append("Compact"),
                }
                out.append(" or row_hash enabled");
                out
            },
            RunPlanError::DeleteKeyColumns(n) => {
                let mut out = "apply_deletes requires exactly 1 primary key column, got ".to_string();
                let t = crate::text::u64_text(*n as u64);
                out.append(t.as_str());
                out
            },
            RunPlanError::UnknownManifestKind(k) => {
                let mut out = "unknown manifest kind `".to_string();
                out.append(k.as_str());
                out.append("` (expected `fiction` or `compact`)");
                out
            },
            RunPlanError::NotResumable { import_run_id, status } => {
                let mut out = "import_run_id ".to_string();
                let t = i64_text(*import_run_id);
                out.append(t.as_str());
                out.append(" has status `");
                out.append(status.as_str());
                out.append("`; only in_progress/failed can be resumed");
                out
            },
            RunPlanError::ManifestKindMismatch { import_run_id, expected, found } => {
                let mut out = "resume manifest mismatch: import_run_id ".to_string();
                let t = i64_text(*import_run_id);
                out.append(t.as_str());
                out.append(" expects kind `");
                out.append(expected.as_str());
                out.append("`, but manifest has `");
                out.append(found.as_str());
                out.append("`");
                out
            },
            RunPlanError::ManifestDumpMismatch { import_run_id, expected, found } => {
                let mut out = "resume manifest mismatch: import_run_id ".to_string();
                let t = i64_text(*import_run_id);
                out.append(t.as_str());
                out.append(" expects dump `");
                out.append(expected.as_str());
                out.append("`, but manifest has `");
                out.append(found.as_str());
                out.append("`");
                out
            },
            RunPlanError::NoOutDir => {
                "no offline output dir configured; set `libgen.offline.out_dir_default` or pass `--out-dir` (paths.cache_policy=never)".to_string()
            },
            RunPlanError::EmptyTable(t) => {
                let mut out = "validation failed: `".to_string();
                out.append(t.as_str());
                out.append("` has 0 rows");
                out
            },
        }
    }
}

} // verus!
