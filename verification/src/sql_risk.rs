//! SQL risk assessment: how dangerous a batch of statements is, how DDL
//! should be executed, and what locks, durations and warnings to expect.

use vstd::prelude::*;

use crate::sql_parse::{
    facts_shape, named_shapes, parse_outcome, parse_shapes, read_only_show_variant, shapes_of, AlterOperation,
    AlterOperationView, ParsedStatement, ParserDialect, ShapeView, StatementFactsView, StatementShape,
};
use crate::text::{
    ascii_lower, ascii_upper, chars_of, concat, ident_prefix, join_seq, join_strings, leading_identifier,
    push_char, seq_contains, seq_starts_with, str_contains, str_eq, str_starts_with, string_views,
    to_ascii_lowercase, to_ascii_uppercase, trim_blank_start,
};

verus! {

/// Risk class of a statement for agent tool safety.
#[derive(Debug, Clone, Copy, PartialEq, Eq, PartialOrd, Ord, Hash, Structural)]
pub enum SqlRisk {
    /// SELECT, SHOW, DESCRIBE, EXPLAIN, WITH (pure read CTE)
    ReadOnly,
    /// INSERT, UPDATE, DELETE, MERGE, REPLACE, CALL/EXEC
    Write,
    /// CREATE, ALTER, DROP, TRUNCATE, GRANT, REVOKE
    Ddl,
    /// BEGIN, COMMIT, ROLLBACK
    Transaction,
}

impl SqlRisk {
    /// Position of the class in the order ReadOnly < Write < Ddl < Transaction.
    pub open spec fn rank(self) -> nat {
        match self {
            SqlRisk::ReadOnly => 0,
            SqlRisk::Write => 1,
            SqlRisk::Ddl => 2,
            SqlRisk::Transaction => 3,
        }
    }

    pub fn rank_exec(&self) -> (r: u8)
        ensures
            r == self.rank(),
    {
        match self {
            SqlRisk::ReadOnly => 0,
            SqlRisk::Write => 1,
            SqlRisk::Ddl => 2,
            SqlRisk::Transaction => 3,
        }
    }

    /// The display name of the class.
    pub fn label(&self) -> (r: &'static str)
        ensures
            r@ == self.label_spec(),
    {
        match self {
            SqlRisk::ReadOnly => "read-only",
            SqlRisk::Write => "write",
            SqlRisk::Ddl => "DDL",
            SqlRisk::Transaction => "transaction",
        }
    }

    pub open spec fn label_spec(self) -> Seq<char> {
        match self {
            SqlRisk::ReadOnly => "read-only"@,
            SqlRisk::Write => "write"@,
            SqlRisk::Ddl => "DDL"@,
            SqlRisk::Transaction => "transaction"@,
        }
    }
}

/// Fine-grained DDL risk for online safety assessment.
#[derive(Debug, Clone, Copy, PartialEq, Eq, PartialOrd, Ord, Hash, Structural)]
pub enum DdlRiskLevel {
    /// New objects, cosmetic changes (CREATE TABLE, CREATE INDEX)
    Safe,
    /// Metadata-only, reversible changes (ADD COLUMN, GRANT)
    Caution,
    /// Table rebuilds, possible data loss (MODIFY COLUMN, TRUNCATE)
    Dangerous,
    /// Irreversible destruction (DROP TABLE, DROP SCHEMA)
    Blocked,
}

impl DdlRiskLevel {
    /// Position of the level in the order Safe < Caution < Dangerous < Blocked.
    pub open spec fn rank(self) -> nat {
        match self {
            DdlRiskLevel::Safe => 0,
            DdlRiskLevel::Caution => 1,
            DdlRiskLevel::Dangerous => 2,
            DdlRiskLevel::Blocked => 3,
        }
    }

    pub fn rank_exec(&self) -> (r: u8)
        ensures
            r == self.rank(),
    {
        match self {
            DdlRiskLevel::Safe => 0,
            DdlRiskLevel::Caution => 1,
            DdlRiskLevel::Dangerous => 2,
            DdlRiskLevel::Blocked => 3,
        }
    }

    pub open spec fn label_spec(self) -> Seq<char> {
        match self {
            DdlRiskLevel::Safe => "safe"@,
            DdlRiskLevel::Caution => "caution"@,
            DdlRiskLevel::Dangerous => "dangerous"@,
            DdlRiskLevel::Blocked => "blocked"@,
        }
    }

    /// The display name of the level.
    pub fn label(&self) -> (r: &'static str)
        ensures
            r@ == self.label_spec(),
    {
        match self {
            DdlRiskLevel::Safe => "safe",
            DdlRiskLevel::Caution => "caution",
            DdlRiskLevel::Dangerous => "dangerous",
            DdlRiskLevel::Blocked => "blocked",
        }
    }
}

/// How to run a set of DDL changes.
#[derive(Debug, Clone, Copy, PartialEq, Eq, Structural)]
pub enum ExecStrategy {
    /// Direct online execution; minimal lock.
    Online,
    /// Deferred, non-blocking migration tooling.
    Lazy,
    /// Needs a maintenance window; table-level lock expected.
    Offline,
    /// Batched chunks, possibly over several maintenance slots.
    Batch,
}

impl ExecStrategy {
    pub open spec fn label_spec(self) -> Seq<char> {
        match self {
            ExecStrategy::Online => "online"@,
            ExecStrategy::Lazy => "lazy"@,
            ExecStrategy::Offline => "offline"@,
            ExecStrategy::Batch => "batch"@,
        }
    }

    /// The display name of the strategy.
    pub fn label(&self) -> (r: &'static str)
        ensures
            r@ == self.label_spec(),
    {
        match self {
            ExecStrategy::Online => "online",
            ExecStrategy::Lazy => "lazy",
            ExecStrategy::Offline => "offline",
            ExecStrategy::Batch => "batch",
        }
    }
}

/// Size class of a table, for strategy heuristics.
#[derive(Debug, Clone, Copy, PartialEq, Eq, Structural)]
pub enum TableSize {
    Small,
    Medium,
    Large,
    Unknown,
}

/// DDL risk of one statement.
#[derive(Debug, Clone)]
pub struct DdlRiskDetail {
    pub ddl_risk: DdlRiskLevel,
    pub summary: String,
    pub affected_objects: Vec<String>,
}

/// A lock that a DDL statement is expected to take.
#[derive(Debug, Clone)]
pub struct LockInfo {
    pub lock_type: String,
    pub object: String,
    pub scope: String,
    pub estimated_duration: String,
}

/// Impact assessment of a batch of SQL statements.
#[derive(Debug, Clone)]
pub struct ImpactReport {
    pub overall_risk: SqlRisk,
    pub ddl_risk_level: Option<DdlRiskLevel>,
    pub statement_count: usize,
    pub ddl_details: Vec<DdlRiskDetail>,
    pub estimated_locks: Vec<LockInfo>,
    pub estimated_total_duration: String,
    pub recommended_strategy: ExecStrategy,
    pub warnings: Vec<String>,
    pub requires_maintenance_window: bool,
    pub is_reversible: bool,
}

impl ImpactReport {
    /// Whether the batch can run online: online strategy, no maintenance
    /// window, no warnings.
    pub fn is_safe_for_online_execution(&self) -> (r: bool)
        ensures
            r == (self.recommended_strategy == ExecStrategy::Online && !self.requires_maintenance_window
                && self.warnings@.len() == 0),
    {
        self.recommended_strategy == ExecStrategy::Online && !self.requires_maintenance_window
            && self.warnings.len() == 0
    }
}

/// The highest level in `levels`, `Safe` for none.
pub open spec fn max_level(levels: Seq<DdlRiskLevel>) -> DdlRiskLevel
    decreases levels.len(),
{
    if levels.len() == 0 {
        DdlRiskLevel::Safe
    } else {
        let rest = max_level(levels.drop_last());
        if levels.last().rank() > rest.rank() {
            levels.last()
        } else {
            rest
        }
    }
}

/// The highest risk level among `levels`; `Safe` when there is none.
pub fn accumulate_ddl_risk(levels: &[DdlRiskLevel]) -> (r: DdlRiskLevel)
    ensures
        r == max_level(levels@),
{
    let mut best = DdlRiskLevel::Safe;
    let mut i: usize = 0;
    while i < levels.len()
        invariant
            i <= levels.len(),
            best == max_level(levels@.subrange(0, i as int)),
        decreases levels.len() - i,
    {
        assert(levels@.subrange(0, i + 1).drop_last() =~= levels@.subrange(0, i as int));
        if levels[i].rank_exec() > best.rank_exec() {
            best = levels[i];
        }
        i = i + 1;
    }
    assert(levels@.subrange(0, levels.len() as int) =~= levels@);
    best
}

/// The accumulated level is one of the given levels (or `Safe` for none) and
/// no level exceeds it.
pub proof fn law_accumulated_risk_is_maximum(levels: Seq<DdlRiskLevel>)
    ensures
        levels.len() == 0 ==> max_level(levels) == DdlRiskLevel::Safe,
        levels.len() > 0 ==> levels.contains(max_level(levels)),
        forall|i: int| 0 <= i < levels.len() ==> levels[i].rank() <= max_level(levels).rank(),
    decreases levels.len(),
{
    if levels.len() > 0 {
        let pre = levels.drop_last();
        law_accumulated_risk_is_maximum(pre);
        assert forall|i: int| 0 <= i < levels.len() implies levels[i].rank() <= max_level(levels).rank() by {
            if i < pre.len() {
                assert(levels[i] == pre[i]);
            }
        }
        if levels.last().rank() > max_level(pre).rank() || pre.len() == 0 {
            assert(levels[levels.len() - 1] == levels.last());
        } else {
            let j = choose|j: int| 0 <= j < pre.len() && pre[j] == max_level(pre);
            assert(levels[j] == pre[j]);
        }
    }
}

/// Connection count below which a blocked change on a small table runs offline.
pub const LOAD_CONNECTIONS_LOW_THRESHOLD: u32 = 10;

/// Largest row count of a small table.
pub const SMALL_TABLE_ROWS_MAX: u64 = 10_000;

/// Largest row count of a medium table.
pub const MEDIUM_TABLE_ROWS_MAX: u64 = 1_000_000;

/// The strategy for a change of risk `ddl_risk` on a table of size
/// `table_size` under `load` concurrent connections.
pub open spec fn strategy_for(ddl_risk: DdlRiskLevel, table_size: TableSize, load: u32) -> ExecStrategy {
    match ddl_risk {
        DdlRiskLevel::Safe => ExecStrategy::Online,
        DdlRiskLevel::Caution => match table_size {
            TableSize::Small => ExecStrategy::Online,
            _ => ExecStrategy::Lazy,
        },
        DdlRiskLevel::Dangerous => match table_size {
            TableSize::Small => ExecStrategy::Lazy,
            _ => ExecStrategy::Offline,
        },
        DdlRiskLevel::Blocked => match table_size {
            TableSize::Small => if load < LOAD_CONNECTIONS_LOW_THRESHOLD {
                ExecStrategy::Offline
            } else {
                ExecStrategy::Batch
            },
            _ => ExecStrategy::Batch,
        },
    }
}

/// Chooses how to execute a change from its risk, the table size and the
/// estimated load.
pub fn select_execution_strategy(
    ddl_risk: DdlRiskLevel,
    table_size: TableSize,
    estimated_load_connections: u32,
) -> (r: ExecStrategy)
    ensures
        r == strategy_for(ddl_risk, table_size, estimated_load_connections),
{
    match ddl_risk {
        DdlRiskLevel::Safe => ExecStrategy::Online,
        DdlRiskLevel::Caution => match table_size {
            TableSize::Small => ExecStrategy::Online,
            TableSize::Medium | TableSize::Large | TableSize::Unknown => ExecStrategy::Lazy,
        },
        DdlRiskLevel::Dangerous => match table_size {
            TableSize::Small => ExecStrategy::Lazy,
            TableSize::Medium | TableSize::Large | TableSize::Unknown => ExecStrategy::Offline,
        },
        DdlRiskLevel::Blocked => match table_size {
            TableSize::Small => {
                if estimated_load_connections < LOAD_CONNECTIONS_LOW_THRESHOLD {
                    ExecStrategy::Offline
                } else {
                    ExecStrategy::Batch
                }
            },
            _ => ExecStrategy::Batch,
        },
    }
}

/// Safe changes always run online, and a higher risk never gets an online
/// run on a table that is not known to be small.
pub proof fn law_safe_changes_run_online(table_size: TableSize, load: u32)
    ensures
        strategy_for(DdlRiskLevel::Safe, table_size, load) == ExecStrategy::Online,
        table_size != TableSize::Small ==> strategy_for(DdlRiskLevel::Caution, table_size, load)
            != ExecStrategy::Online,
        strategy_for(DdlRiskLevel::Blocked, table_size, load) != ExecStrategy::Online,
        strategy_for(DdlRiskLevel::Dangerous, table_size, load) != ExecStrategy::Online,
{
}

/// The size class of a table with `row_count` rows.
pub open spec fn size_for(row_count: u64) -> TableSize {
    if row_count <= SMALL_TABLE_ROWS_MAX {
        TableSize::Small
    } else if row_count <= MEDIUM_TABLE_ROWS_MAX {
        TableSize::Medium
    } else {
        TableSize::Large
    }
}

/// Size class of a table from its row count.
pub fn estimate_table_size(row_count: u64) -> (r: TableSize)
    ensures
        r == size_for(row_count),
{
    if row_count <= SMALL_TABLE_ROWS_MAX {
        TableSize::Small
    } else if row_count <= MEDIUM_TABLE_ROWS_MAX {
        TableSize::Medium
    } else {
        TableSize::Large
    }
}

/// Estimated duration text of a change by risk and table size.
pub open spec fn duration_for(ddl_risk: DdlRiskLevel, table_size: TableSize) -> Seq<char> {
    match ddl_risk {
        DdlRiskLevel::Safe => match table_size {
            TableSize::Small | TableSize::Unknown => "< 1 second"@,
            TableSize::Medium => "1-5 seconds"@,
            TableSize::Large => "5-30 seconds"@,
        },
        DdlRiskLevel::Caution => match table_size {
            TableSize::Small | TableSize::Unknown => "< 5 seconds"@,
            TableSize::Medium => "5-30 seconds"@,
            TableSize::Large => "30 seconds - 5 minutes"@,
        },
        DdlRiskLevel::Dangerous => match table_size {
            TableSize::Small => "5-30 seconds"@,
            TableSize::Medium => "1-10 minutes"@,
            TableSize::Large | TableSize::Unknown => "10 minutes - 2 hours"@,
        },
        DdlRiskLevel::Blocked => match table_size {
            TableSize::Small => "< 1 minute"@,
            TableSize::Medium => "1-15 minutes"@,
            TableSize::Large | TableSize::Unknown => "15 minutes - several hours"@,
        },
    }
}

/// Estimated duration of a change by risk and table size.
pub fn estimate_duration(ddl_risk: DdlRiskLevel, table_size: TableSize) -> (r: &'static str)
    ensures
        r@ == duration_for(ddl_risk, table_size),
{
    match ddl_risk {
        DdlRiskLevel::Safe => match table_size {
            TableSize::Small | TableSize::Unknown => "< 1 second",
            TableSize::Medium => "1-5 seconds",
            TableSize::Large => "5-30 seconds",
        },
        DdlRiskLevel::Caution => match table_size {
            TableSize::Small | TableSize::Unknown => "< 5 seconds",
            TableSize::Medium => "5-30 seconds",
            TableSize::Large => "30 seconds - 5 minutes",
        },
        DdlRiskLevel::Dangerous => match table_size {
            TableSize::Small => "5-30 seconds",
            TableSize::Medium => "1-10 minutes",
            TableSize::Large | TableSize::Unknown => "10 minutes - 2 hours",
        },
        DdlRiskLevel::Blocked => match table_size {
            TableSize::Small => "< 1 minute",
            TableSize::Medium => "1-15 minutes",
            TableSize::Large | TableSize::Unknown => "15 minutes - several hours",
        },
    }
}

/// The warnings for a statement of risk `ddl_risk` summarised as `summary`.
pub open spec fn warnings_for(ddl_risk: DdlRiskLevel, summary: Seq<char>) -> Seq<Seq<char>> {
    match ddl_risk {
        DdlRiskLevel::Dangerous => seq![
            summary + " — operation may cause table rebuild or block concurrent access"@,
            "Consider using a non-blocking migration tool (e.g. pt-online-schema-change, gh-ost)"@,
        ],
        DdlRiskLevel::Blocked => seq![
            summary + " — destructive operation, data will be permanently lost"@,
            "Ensure backups are up-to-date and schedule during maintenance window"@,
        ],
        DdlRiskLevel::Caution => seq![summary + " — review impact before execution"@],
        DdlRiskLevel::Safe => seq![],
    }
}

/// The views of a sequence of strings.
pub open spec fn views(v: Seq<String>) -> Seq<Seq<char>> {
    v.map_values(|s: String| s@)
}

/// Warnings for one DDL statement of risk `ddl_risk`.
pub fn generate_warnings(ddl_risk: DdlRiskLevel, stmt_detail: &DdlRiskDetail) -> (r: Vec<String>)
    ensures
        views(r@) == warnings_for(ddl_risk, stmt_detail.summary@),
{
    let mut warnings: Vec<String> = Vec::new();
    match ddl_risk {
        DdlRiskLevel::Dangerous => {
            let mut w = stmt_detail.summary.clone();
            w.append(" — operation may cause table rebuild or block concurrent access");
            warnings.push(w);
            warnings.push(
                String::from_str(
                    "Consider using a non-blocking migration tool (e.g. pt-online-schema-change, gh-ost)",
                ),
            );
        },
        DdlRiskLevel::Blocked => {
            let mut w = stmt_detail.summary.clone();
            w.append(" — destructive operation, data will be permanently lost");
            warnings.push(w);
            warnings.push(
                String::from_str("Ensure backups are up-to-date and schedule during maintenance window"),
            );
        },
        DdlRiskLevel::Caution => {
            let mut w = stmt_detail.summary.clone();
            w.append(" — review impact before execution");
            warnings.push(w);
        },
        DdlRiskLevel::Safe => {},
    }
    assert(views(warnings@) =~= warnings_for(ddl_risk, stmt_detail.summary@));
    warnings
}

/// Whether one DDL change can be undone: not blocked and not a TRUNCATE.
pub open spec fn detail_reversible(d: DdlRiskDetail) -> bool {
    d.ddl_risk != DdlRiskLevel::Blocked && !seq_starts_with(d.summary@, "TRUNCATE"@)
}

/// Whether every change in `details` can be undone.
pub fn is_reversible(details: &[DdlRiskDetail]) -> (r: bool)
    ensures
        r == forall|i: int| 0 <= i < details@.len() ==> detail_reversible(#[trigger] details@[i]),
{
    let mut i: usize = 0;
    while i < details.len()
        invariant
            i <= details.len(),
            forall|j: int| 0 <= j < i ==> detail_reversible(#[trigger] details@[j]),
        decreases details.len() - i,
    {
        let d = &details[i];
        if d.ddl_risk == DdlRiskLevel::Blocked {
            return false;
        }
        if str_starts_with(d.summary.as_str(), "TRUNCATE") {
            return false;
        }
        i = i + 1;
    }
    true
}


/// The canonical dialect name that sqlparser is driven with.
pub open spec fn normalized_dialect(dialect: Seq<char>) -> Seq<char> {
    let d = ascii_lower(dialect);
    if d == "postgres"@ || d == "postgresql"@ || d == "redshift"@ || d == "opengauss"@ || d == "gaussdb"@
        || d == "highgo"@ {
        "postgres"@
    } else if d == "mysql"@ || d == "mariadb"@ || d == "doris"@ || d == "starrocks"@ || d
        == "manticoresearch"@ || d == "oceanbase"@ {
        "mysql"@
    } else if d == "sqlite"@ {
        "sqlite"@
    } else if d == "sqlserver"@ || d == "mssql"@ {
        "sqlserver"@
    } else if d == "clickhouse"@ {
        "clickhouse"@
    } else if d == "duckdb"@ {
        "duckdb"@
    } else {
        "generic"@
    }
}

/// Maps a database name (any ASCII case) to the canonical dialect name.
pub fn normalize_dialect(dialect: &str) -> (r: &'static str)
    ensures
        r@ == normalized_dialect(dialect@),
{
    let lower = to_ascii_lowercase(dialect);
    let d = lower.as_str();
    if str_eq(d, "postgres") || str_eq(d, "postgresql") || str_eq(d, "redshift") || str_eq(d, "opengauss")
        || str_eq(d, "gaussdb") || str_eq(d, "highgo") {
        "postgres"
    } else if str_eq(d, "mysql") || str_eq(d, "mariadb") || str_eq(d, "doris") || str_eq(d, "starrocks")
        || str_eq(d, "manticoresearch") || str_eq(d, "oceanbase") {
        "mysql"
    } else if str_eq(d, "sqlite") {
        "sqlite"
    } else if str_eq(d, "sqlserver") || str_eq(d, "mssql") {
        "sqlserver"
    } else if str_eq(d, "clickhouse") {
        "clickhouse"
    } else if str_eq(d, "duckdb") {
        "duckdb"
    } else {
        "generic"
    }
}

/// The sqlparser dialect for a canonical dialect name.
pub open spec fn parser_dialect_for(name: Seq<char>) -> ParserDialect {
    if name == "postgres"@ {
        ParserDialect::Postgres
    } else if name == "mysql"@ {
        ParserDialect::MySql
    } else if name == "sqlite"@ {
        ParserDialect::Sqlite
    } else if name == "sqlserver"@ {
        ParserDialect::MsSql
    } else if name == "clickhouse"@ {
        ParserDialect::ClickHouse
    } else if name == "duckdb"@ {
        ParserDialect::DuckDb
    } else {
        ParserDialect::Generic
    }
}

/// Picks the sqlparser dialect for a canonical dialect name.
pub fn resolve_dialect(name: &str) -> (r: ParserDialect)
    ensures
        r == parser_dialect_for(name@),
{
    if str_eq(name, "postgres") {
        ParserDialect::Postgres
    } else if str_eq(name, "mysql") {
        ParserDialect::MySql
    } else if str_eq(name, "sqlite") {
        ParserDialect::Sqlite
    } else if str_eq(name, "sqlserver") {
        ParserDialect::MsSql
    } else if str_eq(name, "clickhouse") {
        ParserDialect::ClickHouse
    } else if str_eq(name, "duckdb") {
        ParserDialect::DuckDb
    } else {
        ParserDialect::Generic
    }
}

/// Risk class of one statement.
pub open spec fn shape_risk(s: ShapeView) -> SqlRisk {
    match s {
        ShapeView::Query | ShapeView::Explain | ShapeView::ExplainTable
        | ShapeView::Show => SqlRisk::ReadOnly,
        ShapeView::Insert | ShapeView::Update | ShapeView::Delete
        | ShapeView::Merge => SqlRisk::Write,
        ShapeView::CreateTable { .. } | ShapeView::CreateView { .. }
        | ShapeView::CreateIndex { .. } | ShapeView::CreateSchema { .. }
        | ShapeView::CreateSequence { .. } | ShapeView::CreateRole { .. }
        | ShapeView::CreateType { .. } | ShapeView::AlterTable { .. }
        | ShapeView::AlterIndex { .. } | ShapeView::AlterView { .. }
        | ShapeView::Drop { .. } | ShapeView::Truncate { .. } | ShapeView::Grant
        | ShapeView::Revoke | ShapeView::CreateFunction | ShapeView::CreateProcedure
        | ShapeView::CreateTrigger | ShapeView::OtherDdl => SqlRisk::Ddl,
        ShapeView::StartTransaction | ShapeView::Commit
        | ShapeView::Rollback => SqlRisk::Transaction,
        _ => SqlRisk::Write,
    }
}

/// Risk class of one statement: reads, writes, DDL (every CREATE, ALTER,
/// DROP and TRUNCATE, with GRANT/REVOKE) and transaction control; anything
/// else counts as a write.
pub fn classify_statement(s: &StatementShape) -> (r: SqlRisk)
    ensures
        r == shape_risk(s@),
{
    match s {
        StatementShape::Query | StatementShape::Explain | StatementShape::ExplainTable
        | StatementShape::Show => SqlRisk::ReadOnly,
        StatementShape::Insert | StatementShape::Update | StatementShape::Delete
        | StatementShape::Merge => SqlRisk::Write,
        StatementShape::CreateTable { .. } | StatementShape::CreateView { .. }
        | StatementShape::CreateIndex { .. } | StatementShape::CreateSchema { .. }
        | StatementShape::CreateSequence { .. } | StatementShape::CreateRole { .. }
        | StatementShape::CreateType { .. } | StatementShape::AlterTable { .. }
        | StatementShape::AlterIndex { .. } | StatementShape::AlterView { .. }
        | StatementShape::Drop { .. } | StatementShape::Truncate { .. } | StatementShape::Grant
        | StatementShape::Revoke | StatementShape::CreateFunction | StatementShape::CreateProcedure
        | StatementShape::CreateTrigger | StatementShape::OtherDdl => SqlRisk::Ddl,
        StatementShape::StartTransaction | StatementShape::Commit
        | StatementShape::Rollback => SqlRisk::Transaction,
        _ => SqlRisk::Write,
    }
}

/// Risk and description of one `ALTER TABLE` operation.
pub open spec fn op_risk(op: AlterOperationView) -> (DdlRiskLevel, Seq<char>) {
    match op {
        AlterOperationView::AddColumn { column } => (DdlRiskLevel::Caution, column),
        AlterOperationView::DropColumn => (DdlRiskLevel::Dangerous, "drop column"@),
        AlterOperationView::AlterColumn { column } => (DdlRiskLevel::Dangerous, column),
        AlterOperationView::RenameColumn => (DdlRiskLevel::Dangerous, "rename column"@),
        AlterOperationView::RenameTable => (DdlRiskLevel::Dangerous, "rename table"@),
        AlterOperationView::ChangeColumn { old_name } => (DdlRiskLevel::Dangerous, old_name),
        AlterOperationView::ModifyColumn { column } => (DdlRiskLevel::Dangerous, column),
        AlterOperationView::DropConstraint { name } => (
            if seq_contains(ascii_lower(name), "primary"@) {
                DdlRiskLevel::Dangerous
            } else {
                DdlRiskLevel::Caution
            },
            "drop constraint"@,
        ),
        AlterOperationView::AddConstraint => (DdlRiskLevel::Caution, "add constraint"@),
        AlterOperationView::Other => (DdlRiskLevel::Caution, "alter table"@),
    }
}

fn op_risk_exec(op: &AlterOperation) -> (r: (DdlRiskLevel, String))
    ensures
        r.0 == op_risk(op@).0,
        r.1@ == op_risk(op@).1,
{
    match op {
        AlterOperation::AddColumn { column } => (DdlRiskLevel::Caution, column.clone()),
        AlterOperation::DropColumn => (DdlRiskLevel::Dangerous, String::from_str("drop column")),
        AlterOperation::AlterColumn { column } => (DdlRiskLevel::Dangerous, column.clone()),
        AlterOperation::RenameColumn => (DdlRiskLevel::Dangerous, String::from_str("rename column")),
        AlterOperation::RenameTable => (DdlRiskLevel::Dangerous, String::from_str("rename table")),
        AlterOperation::ChangeColumn { old_name } => (DdlRiskLevel::Dangerous, old_name.clone()),
        AlterOperation::ModifyColumn { column } => (DdlRiskLevel::Dangerous, column.clone()),
        AlterOperation::DropConstraint { name } => {
            let lower = to_ascii_lowercase(name.as_str());
            let risk = if str_contains(lower.as_str(), "primary") {
                DdlRiskLevel::Dangerous
            } else {
                DdlRiskLevel::Caution
            };
            (risk, String::from_str("drop constraint"))
        },
        AlterOperation::AddConstraint => (DdlRiskLevel::Caution, String::from_str("add constraint")),
        AlterOperation::Other => (DdlRiskLevel::Caution, String::from_str("alter table")),
    }
}

/// Risk of an `ALTER TABLE`: the highest of its operations, `Caution` for none.
pub open spec fn alter_risk(ops: Seq<AlterOperationView>) -> DdlRiskLevel {
    if ops.len() == 0 {
        DdlRiskLevel::Caution
    } else {
        max_level(ops.map_values(|op: AlterOperationView| op_risk(op).0))
    }
}

/// Description of an `ALTER TABLE`.
pub open spec fn alter_summary(table: Seq<char>, ops: Seq<AlterOperationView>) -> Seq<char> {
    "ALTER TABLE "@ + table + " ["@ + join_seq(ops.map_values(|op: AlterOperationView| op_risk(op).1), ", "@)
        + "]"@
}

/// Risk and description of a DROP of `object_type` objects named `names`.
pub open spec fn drop_risk(object_type: Seq<char>, names: Seq<Seq<char>>) -> (DdlRiskLevel, Seq<char>) {
    let joined = join_seq(names, ", "@);
    if object_type == "TABLE"@ {
        (DdlRiskLevel::Blocked, "DROP TABLE "@ + joined)
    } else if object_type == "VIEW"@ {
        (DdlRiskLevel::Caution, "DROP VIEW "@ + joined)
    } else if object_type == "INDEX"@ {
        (DdlRiskLevel::Caution, "DROP INDEX "@ + joined)
    } else if object_type == "SCHEMA"@ {
        (DdlRiskLevel::Blocked, "DROP SCHEMA "@ + joined)
    } else if object_type == "SEQUENCE"@ {
        (DdlRiskLevel::Safe, "DROP SEQUENCE "@ + joined)
    } else {
        (DdlRiskLevel::Dangerous, "DROP "@ + object_type + " "@ + joined)
    }
}

/// DDL risk and description of one statement; `None` for non-DDL.
pub open spec fn shape_ddl(s: ShapeView) -> Option<(DdlRiskLevel, Seq<char>)> {
    match s {
        ShapeView::CreateTable { name } => Some((DdlRiskLevel::Safe, "CREATE TABLE "@ + name)),
        ShapeView::CreateView { name } => Some((DdlRiskLevel::Safe, "CREATE VIEW "@ + name)),
        ShapeView::CreateIndex { name, .. } => Some(
            (
                DdlRiskLevel::Safe,
                "CREATE INDEX "@ + match name {
                    Some(n) => n,
                    None => "index"@,
                },
            ),
        ),
        ShapeView::CreateRole { first_name } => Some(
            (
                DdlRiskLevel::Caution,
                "CREATE ROLE "@ + match first_name {
                    Some(n) => n,
                    None => "?"@,
                },
            ),
        ),
        ShapeView::CreateSchema { schema_name } => Some(
            (DdlRiskLevel::Safe, "CREATE SCHEMA "@ + schema_name),
        ),
        ShapeView::CreateSequence { name } => Some((DdlRiskLevel::Safe, "CREATE SEQUENCE "@ + name)),
        ShapeView::CreateType { name } => Some((DdlRiskLevel::Safe, "CREATE TYPE "@ + name)),
        ShapeView::AlterTable { name, operations } => Some(
            (alter_risk(operations), alter_summary(name, operations)),
        ),
        ShapeView::AlterIndex { name } => Some((DdlRiskLevel::Caution, "ALTER INDEX "@ + name)),
        ShapeView::AlterView { name } => Some((DdlRiskLevel::Caution, "ALTER VIEW "@ + name)),
        ShapeView::Drop { object_type, names } => Some(drop_risk(object_type, names)),
        ShapeView::Truncate { table_names } => Some(
            (DdlRiskLevel::Dangerous, "TRUNCATE "@ + join_seq(table_names, ", "@)),
        ),
        ShapeView::Grant => Some((DdlRiskLevel::Caution, "GRANT"@)),
        ShapeView::Revoke => Some((DdlRiskLevel::Caution, "REVOKE"@)),
        _ => None,
    }
}

fn alter_table_risk(name: &String, operations: &Vec<AlterOperation>) -> (r: (DdlRiskLevel, String))
    ensures
        r.0 == alter_risk(operations@.map_values(|o: AlterOperation| o@)),
        r.1@ == alter_summary(name@, operations@.map_values(|o: AlterOperation| o@)),
{
    let ghost ops = operations@.map_values(|o: AlterOperation| o@);
    let ghost levels = ops.map_values(|op: AlterOperationView| op_risk(op).0);
    let ghost descs = ops.map_values(|op: AlterOperationView| op_risk(op).1);
    let mut best = DdlRiskLevel::Safe;
    let mut parts: Vec<String> = Vec::new();
    let mut i: usize = 0;
    while i < operations.len()
        invariant
            i <= operations.len(),
            ops == operations@.map_values(|o: AlterOperation| o@),
            levels == ops.map_values(|op: AlterOperationView| op_risk(op).0),
            descs == ops.map_values(|op: AlterOperationView| op_risk(op).1),
            best == max_level(levels.subrange(0, i as int)),
            string_views(parts@) == descs.subrange(0, i as int),
            parts@.len() == i,
        decreases operations.len() - i,
    {
        let (risk, desc) = op_risk_exec(&operations[i]);
        assert(descs[i as int] == desc@);
        assert(levels[i as int] == risk);
        assert(levels.subrange(0, i + 1).drop_last() =~= levels.subrange(0, i as int));
        if risk.rank_exec() > best.rank_exec() {
            best = risk;
        }
        let ghost old_parts = parts@;
        parts.push(desc);
        assert forall|j: int| 0 <= j < i + 1 implies #[trigger] string_views(parts@)[j] == descs.subrange(0, i + 1)[j] by {
            if j < i {
                assert(parts@[j] == old_parts[j]);
                assert(string_views(old_parts)[j] == descs.subrange(0, i as int)[j]);
            }
        }
        assert(string_views(parts@) =~= descs.subrange(0, i + 1));
        i = i + 1;
    }
    assert(levels.subrange(0, operations.len() as int) =~= levels);
    assert(descs.subrange(0, operations.len() as int) =~= descs);
    let risk = if operations.len() == 0 {
        DdlRiskLevel::Caution
    } else {
        best
    };
    let mut summary = concat("ALTER TABLE ", name.as_str());
    summary.append(" [");
    let joined = join_strings(parts.as_slice(), ", ");
    summary.append(joined.as_str());
    summary.append("]");
    (risk, summary)
}

fn drop_risk_exec(object_type: &String, names: &Vec<String>) -> (r: (DdlRiskLevel, String))
    ensures
        r.0 == drop_risk(object_type@, string_views(names@)).0,
        r.1@ == drop_risk(object_type@, string_views(names@)).1,
{
    let joined = join_strings(names.as_slice(), ", ");
    let t = object_type.as_str();
    if str_eq(t, "TABLE") {
        (DdlRiskLevel::Blocked, concat("DROP TABLE ", joined.as_str()))
    } else if str_eq(t, "VIEW") {
        (DdlRiskLevel::Caution, concat("DROP VIEW ", joined.as_str()))
    } else if str_eq(t, "INDEX") {
        (DdlRiskLevel::Caution, concat("DROP INDEX ", joined.as_str()))
    } else if str_eq(t, "SCHEMA") {
        (DdlRiskLevel::Blocked, concat("DROP SCHEMA ", joined.as_str()))
    } else if str_eq(t, "SEQUENCE") {
        (DdlRiskLevel::Safe, concat("DROP SEQUENCE ", joined.as_str()))
    } else {
        let mut d = concat("DROP ", t);
        d.append(" ");
        d.append(joined.as_str());
        (DdlRiskLevel::Dangerous, d)
    }
}

/// DDL risk and description of one statement; `None` when it is not DDL.
pub fn classify_ddl_risk_from_statement(s: &StatementShape) -> (r: Option<(DdlRiskLevel, String)>)
    ensures
        match r {
            Some((level, desc)) => shape_ddl(s@) == Some((level, desc@)),
            None => shape_ddl(s@) is None,
        },
{
    match s {
        StatementShape::CreateTable { name } => Some((DdlRiskLevel::Safe, concat("CREATE TABLE ", name.as_str()))),
        StatementShape::CreateView { name } => Some((DdlRiskLevel::Safe, concat("CREATE VIEW ", name.as_str()))),
        StatementShape::CreateIndex { name, .. } => {
            let desc = match name {
                Some(n) => concat("CREATE INDEX ", n.as_str()),
                None => concat("CREATE INDEX ", "index"),
            };
            Some((DdlRiskLevel::Safe, desc))
        },
        StatementShape::CreateRole { first_name } => {
            let desc = match first_name {
                Some(n) => concat("CREATE ROLE ", n.as_str()),
                None => concat("CREATE ROLE ", "?"),
            };
            Some((DdlRiskLevel::Caution, desc))
        },
        StatementShape::CreateSchema { schema_name } => Some(
            (DdlRiskLevel::Safe, concat("CREATE SCHEMA ", schema_name.as_str())),
        ),
        StatementShape::CreateSequence { name } => Some(
            (DdlRiskLevel::Safe, concat("CREATE SEQUENCE ", name.as_str())),
        ),
        StatementShape::CreateType { name } => Some((DdlRiskLevel::Safe, concat("CREATE TYPE ", name.as_str()))),
        StatementShape::AlterTable { name, operations } => Some(alter_table_risk(name, operations)),
        StatementShape::AlterIndex { name } => Some((DdlRiskLevel::Caution, concat("ALTER INDEX ", name.as_str()))),
        StatementShape::AlterView { name } => Some((DdlRiskLevel::Caution, concat("ALTER VIEW ", name.as_str()))),
        StatementShape::Drop { object_type, names } => Some(drop_risk_exec(object_type, names)),
        StatementShape::Truncate { table_names } => {
            let joined = join_strings(table_names.as_slice(), ", ");
            Some((DdlRiskLevel::Dangerous, concat("TRUNCATE ", joined.as_str())))
        },
        StatementShape::Grant => Some((DdlRiskLevel::Caution, String::from_str("GRANT"))),
        StatementShape::Revoke => Some((DdlRiskLevel::Caution, String::from_str("REVOKE"))),
        _ => None,
    }
}


/// Names of the objects a DDL statement touches.
pub open spec fn shape_objects(s: ShapeView) -> Seq<Seq<char>> {
    match s {
        ShapeView::CreateTable { name } => seq![name],
        ShapeView::AlterTable { name, .. } => seq![name],
        ShapeView::CreateView { name } => seq![name],
        ShapeView::AlterView { name } => seq![name],
        ShapeView::CreateIndex { name, table_name } => match name {
            Some(n) => seq![table_name, n],
            None => seq![table_name],
        },
        ShapeView::Drop { names, .. } => names,
        ShapeView::Truncate { table_names } => table_names,
        ShapeView::CreateSchema { schema_name } => seq![schema_name],
        ShapeView::AlterIndex { name } => seq![name],
        _ => seq![],
    }
}

fn copy_strings(v: &Vec<String>) -> (r: Vec<String>)
    ensures
        r@ == v@,
{
    let mut r: Vec<String> = Vec::new();
    let mut i: usize = 0;
    while i < v.len()
        invariant
            i <= v.len(),
            r@ == v@.subrange(0, i as int),
        decreases v.len() - i,
    {
        r.push(v[i].clone());
        i = i + 1;
        assert(r@ =~= v@.subrange(0, i as int));
    }
    assert(v@.subrange(0, v.len() as int) =~= v@);
    r
}

/// Human-readable names of the objects a DDL statement touches.
pub fn extract_affected_objects(s: &StatementShape) -> (r: Vec<String>)
    ensures
        string_views(r@) == shape_objects(s@),
{
    let mut objects: Vec<String> = Vec::new();
    match s {
        StatementShape::CreateTable { name } => objects.push(name.clone()),
        StatementShape::AlterTable { name, .. } => objects.push(name.clone()),
        StatementShape::CreateView { name } => objects.push(name.clone()),
        StatementShape::AlterView { name } => objects.push(name.clone()),
        StatementShape::CreateIndex { name, table_name } => {
            objects.push(table_name.clone());
            match name {
                Some(n) => objects.push(n.clone()),
                None => {},
            }
        },
        StatementShape::Drop { names, .. } => {
            objects = copy_strings(names);
        },
        StatementShape::Truncate { table_names } => {
            objects = copy_strings(table_names);
        },
        StatementShape::CreateSchema { schema_name } => objects.push(schema_name.clone()),
        StatementShape::AlterIndex { name } => objects.push(name.clone()),
        _ => {},
    }
    assert(string_views(objects@) =~= shape_objects(s@));
    objects
}

/// A lock as plain text: type, object, scope, duration.
pub open spec fn lock_view(l: LockInfo) -> (Seq<char>, Seq<char>, Seq<char>, Seq<char>) {
    (l.lock_type@, l.object@, l.scope@, l.estimated_duration@)
}

/// Whether one `ALTER TABLE` operation rebuilds the table: dropping,
/// altering, changing or modifying a column.
pub open spec fn rebuilds(op: AlterOperationView) -> bool {
    op is DropColumn || op is AlterColumn || op is ChangeColumn || op is ModifyColumn
}

/// Whether an `ALTER TABLE` rebuilds the table.
pub open spec fn has_rebuild(ops: Seq<AlterOperationView>) -> bool {
    exists|i: int| 0 <= i < ops.len() && rebuilds(#[trigger] ops[i])
}

/// The lock a DROP of an `object_type` object named `name` takes.
pub open spec fn drop_lock(object_type: Seq<char>, name: Seq<char>, dur: Seq<char>) -> (
    Seq<char>,
    Seq<char>,
    Seq<char>,
    Seq<char>,
) {
    (
        if object_type == "TABLE"@ || object_type == "SCHEMA"@ {
            "exclusive"@
        } else {
            "metadata"@
        },
        name,
        if object_type == "SCHEMA"@ {
            "database-level"@
        } else {
            "table-level"@
        },
        dur,
    )
}

/// The locks one DDL statement takes on a table of size `size`.
pub open spec fn shape_locks(s: ShapeView, size: TableSize) -> Seq<
    (Seq<char>, Seq<char>, Seq<char>, Seq<char>),
> {
    let dur = duration_for(
        match shape_ddl(s) {
            Some(p) => p.0,
            None => DdlRiskLevel::Caution,
        },
        size,
    );
    match s {
        ShapeView::CreateTable { name } => seq![("metadata"@, name, "schema-level"@, dur)],
        ShapeView::CreateView { name } => seq![("metadata"@, name, "schema-level"@, dur)],
        ShapeView::AlterTable { name, operations } => seq![
            (
                if has_rebuild(operations) {
                    "table-exclusive (with rebuild)"@
                } else {
                    "shared-no-write"@
                },
                name,
                "table-level"@,
                dur,
            ),
        ],
        ShapeView::Drop { object_type, names } => names.map_values(
            |n: Seq<char>| drop_lock(object_type, n, dur),
        ),
        ShapeView::Truncate { table_names } => seq![
            ("exclusive"@, join_seq(table_names, ", "@), "table-level"@, dur),
        ],
        ShapeView::CreateIndex { name, table_name } => seq![
            (
                "shared-no-write"@,
                match name {
                    Some(n) => n,
                    None => "unnamed"@,
                } + " (on "@ + table_name + ")"@,
                "table-level"@,
                dur,
            ),
        ],
        _ => match shape_ddl(s) {
            Some(p) => seq![("unknown"@, p.1, "unknown"@, dur)],
            None => seq![],
        },
    }
}

fn make_lock(lock_type: &str, object: String, scope: &str, duration: &str) -> (r: LockInfo)
    ensures
        lock_view(r) == (lock_type@, object@, scope@, duration@),
{
    LockInfo {
        lock_type: String::from_str(lock_type),
        object,
        scope: String::from_str(scope),
        estimated_duration: String::from_str(duration),
    }
}

/// The locks that one DDL statement is expected to take.
pub fn build_lock_info(s: &StatementShape, table_size: TableSize) -> (r: Vec<LockInfo>)
    ensures
        r@.map_values(|l: LockInfo| lock_view(l)) == shape_locks(s@, table_size),
{
    let risk = match classify_ddl_risk_from_statement(s) {
        Some((r, _)) => r,
        None => DdlRiskLevel::Caution,
    };
    let duration = estimate_duration(risk, table_size);
    let mut locks: Vec<LockInfo> = Vec::new();
    match s {
        StatementShape::CreateTable { name } => {
            locks.push(make_lock("metadata", name.clone(), "schema-level", duration));
        },
        StatementShape::CreateView { name } => {
            locks.push(make_lock("metadata", name.clone(), "schema-level", duration));
        },
        StatementShape::AlterTable { name, operations } => {
            let mut rebuild = false;
            let mut i: usize = 0;
            while i < operations.len()
                invariant
                    i <= operations.len(),
                    rebuild == exists|j: int| 0 <= j < i && rebuilds(#[trigger] operations@[j]@),
                decreases operations.len() - i,
            {
                let ghost opv = operations@[i as int]@;
                assert(rebuilds(opv) == (operations@[i as int] is DropColumn || operations@[i as int] is AlterColumn
                    || operations@[i as int] is ChangeColumn || operations@[i as int] is ModifyColumn));
                match &operations[i] {
                    AlterOperation::DropColumn | AlterOperation::AlterColumn { .. }
                    | AlterOperation::ChangeColumn { .. } | AlterOperation::ModifyColumn { .. } => {
                        rebuild = true;
                    },
                    _ => {},
                }
                i = i + 1;
            }
            assert(rebuild == has_rebuild(operations@.map_values(|o: AlterOperation| o@))) by {
                let ops = operations@.map_values(|o: AlterOperation| o@);
                assert forall|j: int| 0 <= j < ops.len() implies ops[j] == operations@[j]@ by {}
                if rebuild {
                    let j = choose|j: int| 0 <= j < operations.len() && rebuilds(#[trigger] operations@[j]@);
                    assert(rebuilds(ops[j]));
                }
                if has_rebuild(ops) {
                    let j = choose|j: int| 0 <= j < ops.len() && rebuilds(#[trigger] ops[j]);
                    assert(rebuilds(operations@[j]@));
                }
            }
            let lock_type = if rebuild {
                "table-exclusive (with rebuild)"
            } else {
                "shared-no-write"
            };
            locks.push(make_lock(lock_type, name.clone(), "table-level", duration));
        },
        StatementShape::Drop { object_type, names } => {
            let t = object_type.as_str();
            let is_schema = str_eq(t, "SCHEMA");
            let lock_type = if str_eq(t, "TABLE") || is_schema {
                "exclusive"
            } else {
                "metadata"
            };
            let scope = if is_schema {
                "database-level"
            } else {
                "table-level"
            };
            let mut i: usize = 0;
            while i < names.len()
                invariant
                    i <= names.len(),
                    locks@.len() == i,
                    lock_type@ == (if object_type@ == "TABLE"@ || object_type@ == "SCHEMA"@ {
                        "exclusive"@
                    } else {
                        "metadata"@
                    }),
                    scope@ == (if object_type@ == "SCHEMA"@ {
                        "database-level"@
                    } else {
                        "table-level"@
                    }),
                    forall|j: int| 0 <= j < i ==> lock_view(#[trigger] locks@[j]) == drop_lock(object_type@, names@[j]@, duration@),
                decreases names.len() - i,
            {
                let ghost old_locks = locks@;
                let l = make_lock(lock_type, names[i].clone(), scope, duration);
                assert(lock_view(l) == drop_lock(object_type@, names@[i as int]@, duration@));
                locks.push(l);
                assert forall|j: int| 0 <= j < i + 1 implies lock_view(#[trigger] locks@[j]) == drop_lock(object_type@, names@[j]@, duration@) by {
                    if j < i {
                        assert(locks@[j] == old_locks[j]);
                    }
                }
                i = i + 1;
            }
            assert(locks@.map_values(|l: LockInfo| lock_view(l)) =~= string_views(names@).map_values(
                |n: Seq<char>| drop_lock(object_type@, n, duration@),
            ));
        },
        StatementShape::Truncate { table_names } => {
            let joined = join_strings(table_names.as_slice(), ", ");
            locks.push(make_lock("exclusive", joined, "table-level", duration));
        },
        StatementShape::CreateIndex { name, table_name } => {
            let mut object = match name {
                Some(n) => n.clone(),
                None => String::from_str("unnamed"),
            };
            object.append(" (on ");
            object.append(table_name.as_str());
            object.append(")");
            locks.push(make_lock("shared-no-write", object, "table-level", duration));
        },
        _ => {
            match classify_ddl_risk_from_statement(s) {
                Some((_, desc)) => {
                    locks.push(make_lock("unknown", desc, "unknown", duration));
                },
                None => {},
            }
        },
    }
    assert(locks@.map_values(|l: LockInfo| lock_view(l)) =~= shape_locks(s@, table_size));
    locks
}


/// The highest risk class among `shapes`, `ReadOnly` for none.
pub open spec fn overall_of(shapes: Seq<ShapeView>) -> SqlRisk
    decreases shapes.len(),
{
    if shapes.len() == 0 {
        SqlRisk::ReadOnly
    } else {
        let rest = overall_of(shapes.drop_last());
        let x = shape_risk(shapes.last());
        if x.rank() > rest.rank() {
            x
        } else {
            rest
        }
    }
}

/// A DDL detail as plain values: level, summary, affected objects.
pub open spec fn detail_view(d: DdlRiskDetail) -> (DdlRiskLevel, Seq<char>, Seq<Seq<char>>) {
    (d.ddl_risk, d.summary@, string_views(d.affected_objects@))
}

/// The DDL details of `shapes`, one per DDL statement, in order.
pub open spec fn details_of(shapes: Seq<ShapeView>) -> Seq<(DdlRiskLevel, Seq<char>, Seq<Seq<char>>)>
    decreases shapes.len(),
{
    if shapes.len() == 0 {
        seq![]
    } else {
        details_of(shapes.drop_last()) + match shape_ddl(shapes.last()) {
            Some(p) => seq![(p.0, p.1, shape_objects(shapes.last()))],
            None => seq![],
        }
    }
}

/// The locks of the DDL statements among `shapes`, in order.
pub open spec fn locks_of(shapes: Seq<ShapeView>, size: TableSize) -> Seq<
    (Seq<char>, Seq<char>, Seq<char>, Seq<char>),
>
    decreases shapes.len(),
{
    if shapes.len() == 0 {
        seq![]
    } else {
        locks_of(shapes.drop_last(), size) + if shape_ddl(shapes.last()) is Some {
            shape_locks(shapes.last(), size)
        } else {
            seq![]
        }
    }
}

/// The warnings of the DDL statements among `shapes`, in order.
pub open spec fn warnings_of(shapes: Seq<ShapeView>) -> Seq<Seq<char>>
    decreases shapes.len(),
{
    if shapes.len() == 0 {
        seq![]
    } else {
        warnings_of(shapes.drop_last()) + match shape_ddl(shapes.last()) {
            Some(p) => warnings_for(p.0, p.1),
            None => seq![],
        }
    }
}

/// The DDL level of a batch: the highest detail level, `None` without DDL.
pub open spec fn batch_level(shapes: Seq<ShapeView>) -> Option<DdlRiskLevel> {
    let details = details_of(shapes);
    if details.len() == 0 {
        None
    } else {
        Some(max_level(details.map_values(|d: (DdlRiskLevel, Seq<char>, Seq<Seq<char>>)| d.0)))
    }
}

/// The strategy for a batch of DDL level `level`.
pub open spec fn batch_strategy(level: Option<DdlRiskLevel>, size: TableSize, load: u32) -> ExecStrategy {
    match level {
        Some(rl) => strategy_for(rl, size, load),
        None => ExecStrategy::Online,
    }
}

/// The duration text for a batch of DDL level `level`.
pub open spec fn batch_duration(level: Option<DdlRiskLevel>, size: TableSize) -> Seq<char> {
    match level {
        Some(rl) => duration_for(rl, size),
        None => "< 1 second"@,
    }
}

/// Whether `report` is the impact report of the statements `shapes` on a
/// table of size `size` under `load` connections.
pub open spec fn is_report_of(report: ImpactReport, shapes: Seq<ShapeView>, size: TableSize, load: u32) -> bool {
    let level = batch_level(shapes);
    let strategy = batch_strategy(level, size, load);
    &&& report.overall_risk == overall_of(shapes)
    &&& report.statement_count == shapes.len()
    &&& report.ddl_details@.map_values(|d: DdlRiskDetail| detail_view(d)) == details_of(shapes)
    &&& report.ddl_risk_level == level
    &&& report.estimated_locks@.map_values(|l: LockInfo| lock_view(l)) == locks_of(shapes, size)
    &&& report.estimated_total_duration@ == batch_duration(level, size)
    &&& report.recommended_strategy == strategy
    &&& views(report.warnings@) == warnings_of(shapes)
    &&& report.requires_maintenance_window == (strategy == ExecStrategy::Offline || strategy
        == ExecStrategy::Batch)
    &&& report.is_reversible == forall|i: int|
        0 <= i < report.ddl_details@.len() ==> detail_reversible(#[trigger] report.ddl_details@[i])
}

/// Impact report of already parsed statements; an error when there are none.
pub fn assess_statements(stmts: &[ParsedStatement], table_size: TableSize, estimated_load_connections: u32) -> (r:
    Result<ImpactReport, String>)
    ensures
        stmts@.len() == 0 ==> (r matches Err(e) && e@ == "No SQL statements found"@),
        stmts@.len() > 0 ==> (r matches Ok(rep) && is_report_of(
            rep,
            shapes_of(stmts@),
            table_size,
            estimated_load_connections,
        )),
{
    if stmts.len() == 0 {
        return Err(String::from_str("No SQL statements found"));
    }
    let ghost shapes = shapes_of(stmts@);
    let mut overall_risk = SqlRisk::ReadOnly;
    let mut ddl_details: Vec<DdlRiskDetail> = Vec::new();
    let mut all_risk_levels: Vec<DdlRiskLevel> = Vec::new();
    let mut all_locks: Vec<LockInfo> = Vec::new();
    let mut all_warnings: Vec<String> = Vec::new();
    let mut i: usize = 0;
    while i < stmts.len()
        invariant
            i <= stmts.len(),
            shapes == shapes_of(stmts@),
            overall_risk == overall_of(shapes.subrange(0, i as int)),
            ddl_details@.map_values(|d: DdlRiskDetail| detail_view(d)) == details_of(shapes.subrange(0, i as int)),
            all_risk_levels@ == details_of(shapes.subrange(0, i as int)).map_values(
                |d: (DdlRiskLevel, Seq<char>, Seq<Seq<char>>)| d.0,
            ),
            all_locks@.map_values(|l: LockInfo| lock_view(l)) == locks_of(shapes.subrange(0, i as int), table_size),
            views(all_warnings@) == warnings_of(shapes.subrange(0, i as int)),
        decreases stmts.len() - i,
    {
        let s = &stmts[i].shape;
        let ghost pre = shapes.subrange(0, i as int);
        let ghost post = shapes.subrange(0, i + 1);
        assert(post.drop_last() =~= pre);
        assert(post.last() == s@);
        let risk = classify_statement(s);
        if risk.rank_exec() > overall_risk.rank_exec() {
            overall_risk = risk;
        }
        let ghost old_details = ddl_details@;
        let ghost old_levels = all_risk_levels@;
        let ghost old_locks = all_locks@;
        let ghost old_warnings = all_warnings@;
        match classify_ddl_risk_from_statement(s) {
            Some((ddl_risk, summary)) => {
                let affected = extract_affected_objects(s);
                let detail = DdlRiskDetail { ddl_risk, summary, affected_objects: affected };
                all_risk_levels.push(ddl_risk);
                let lock_info = build_lock_info(s, table_size);
                let mut k: usize = 0;
                while k < lock_info.len()
                    invariant
                        k <= lock_info.len(),
                        all_locks@.map_values(|l: LockInfo| lock_view(l)) == old_locks.map_values(
                            |l: LockInfo| lock_view(l),
                        ) + lock_info@.map_values(|l: LockInfo| lock_view(l)).subrange(0, k as int),
                    decreases lock_info.len() - k,
                {
                    let ghost before = all_locks@;
                    all_locks.push(lock_info[k].clone_lock());
                    assert(all_locks@.map_values(|l: LockInfo| lock_view(l)) =~= before.map_values(
                        |l: LockInfo| lock_view(l),
                    ).push(lock_view(lock_info@[k as int])));
                    assert(lock_info@.map_values(|l: LockInfo| lock_view(l)).subrange(0, k + 1) =~= lock_info@.map_values(
                        |l: LockInfo| lock_view(l),
                    ).subrange(0, k as int).push(lock_view(lock_info@[k as int])));
                    k = k + 1;
                }
                assert(lock_info@.map_values(|l: LockInfo| lock_view(l)).subrange(0, lock_info.len() as int)
                    =~= lock_info@.map_values(|l: LockInfo| lock_view(l)));
                let warnings = generate_warnings(ddl_risk, &detail);
                let mut k: usize = 0;
                while k < warnings.len()
                    invariant
                        k <= warnings.len(),
                        views(all_warnings@) == views(old_warnings) + views(warnings@).subrange(0, k as int),
                    decreases warnings.len() - k,
                {
                    let ghost before = all_warnings@;
                    all_warnings.push(warnings[k].clone());
                    assert(views(all_warnings@) =~= views(before).push(warnings@[k as int]@));
                    assert(views(warnings@).subrange(0, k + 1) =~= views(warnings@).subrange(0, k as int).push(
                        warnings@[k as int]@,
                    ));
                    k = k + 1;
                }
                assert(views(warnings@).subrange(0, warnings.len() as int) =~= views(warnings@));
                ddl_details.push(detail);
                assert(ddl_details@.map_values(|d: DdlRiskDetail| detail_view(d)) =~= old_details.map_values(
                    |d: DdlRiskDetail| detail_view(d),
                ).push(detail_view(detail)));
                assert(all_risk_levels@ =~= details_of(post).map_values(
                    |d: (DdlRiskLevel, Seq<char>, Seq<Seq<char>>)| d.0,
                ));
            },
            None => {
                assert(details_of(post) =~= details_of(pre));
                assert(locks_of(post, table_size) =~= locks_of(pre, table_size));
                assert(warnings_of(post) =~= warnings_of(pre));
                assert(details_of(post).map_values(|d: (DdlRiskLevel, Seq<char>, Seq<Seq<char>>)| d.0)
                    =~= details_of(pre).map_values(|d: (DdlRiskLevel, Seq<char>, Seq<Seq<char>>)| d.0));
            },
        }
        i = i + 1;
    }
    assert(shapes.subrange(0, stmts.len() as int) =~= shapes);
    let ddl_risk_level = if all_risk_levels.len() == 0 {
        None
    } else {
        Some(accumulate_ddl_risk(all_risk_levels.as_slice()))
    };
    let recommended_strategy = match ddl_risk_level {
        Some(rl) => select_execution_strategy(rl, table_size, estimated_load_connections),
        None => ExecStrategy::Online,
    };
    let estimated_total_duration = match ddl_risk_level {
        Some(rl) => String::from_str(estimate_duration(rl, table_size)),
        None => String::from_str("< 1 second"),
    };
    let requires_maintenance_window = recommended_strategy == ExecStrategy::Offline || recommended_strategy
        == ExecStrategy::Batch;
    let reversible = is_reversible(ddl_details.as_slice());
    let report = ImpactReport {
            overall_risk,
            ddl_risk_level,
            statement_count: stmts.len(),
            ddl_details,
            estimated_locks: all_locks,
            estimated_total_duration,
            recommended_strategy,
            warnings: all_warnings,
            requires_maintenance_window,
            is_reversible: reversible,
        };
    assert(shapes.len() == stmts@.len());
    assert(all_risk_levels@.len() == details_of(shapes).len());
    assert(report.ddl_risk_level == batch_level(shapes));
    assert(report.recommended_strategy == batch_strategy(batch_level(shapes), table_size, estimated_load_connections));
    assert(report.estimated_total_duration@ == batch_duration(batch_level(shapes), table_size));
    assert(report.overall_risk == overall_of(shapes));
    assert(report.statement_count == shapes.len());
    assert(report.ddl_details@.map_values(|d: DdlRiskDetail| detail_view(d)) == details_of(shapes));
    assert(report.estimated_locks@.map_values(|l: LockInfo| lock_view(l)) == locks_of(shapes, table_size));
    assert(views(report.warnings@) == warnings_of(shapes));
    assert(report.is_reversible == forall|i: int|
        0 <= i < report.ddl_details@.len() ==> detail_reversible(#[trigger] report.ddl_details@[i]));
    assert(is_report_of(report, shapes, table_size, estimated_load_connections));
    Ok(report)
}

impl LockInfo {
    /// A field-by-field copy.
    pub fn clone_lock(&self) -> (r: LockInfo)
        ensures
            lock_view(r) == lock_view(*self),
    {
        LockInfo {
            lock_type: self.lock_type.clone(),
            object: self.object.clone(),
            scope: self.scope.clone(),
            estimated_duration: self.estimated_duration.clone(),
        }
    }
}


/// The sqlparser dialect used for a database name.
pub open spec fn dialect_of(dialect: Seq<char>) -> ParserDialect {
    parser_dialect_for(normalized_dialect(dialect))
}

/// Full impact analysis of `sql`: parses it, classifies each statement and
/// reports risk, locks, strategy, duration and warnings.
///
/// A parse failure gives `"SQL parse error: "` and the parser's message; a
/// batch with no statement gives `"No SQL statements found"`.
pub fn analyze_sql_impact(sql: &str, dialect: &str, table_size: TableSize, estimated_load_connections: u32) -> (r:
    Result<ImpactReport, String>)
    ensures
        match parse_outcome(dialect_of(dialect@), sql@) {
            Err(e) => r matches Err(m) && m@ == "SQL parse error: "@ + e,
            Ok(n) => if n == 0 {
                r matches Err(m) && m@ == "No SQL statements found"@
            } else {
                r matches Ok(rep) && is_report_of(
                    rep,
                    named_shapes(dialect_of(dialect@), sql@),
                    table_size,
                    estimated_load_connections,
                )
            },
        },
{
    let normalized = normalize_dialect(dialect);
    let parser_dialect = resolve_dialect(normalized);
    match parse_shapes(parser_dialect, sql) {
        Err(e) => Err(concat("SQL parse error: ", e.as_str())),
        Ok(stmts) => assess_statements(stmts.as_slice(), table_size, estimated_load_connections),
    }
}

/// The DDL risk level of `sql` (`None` without DDL), from its impact analysis
/// with an unknown table size and no load.
pub fn classify_ddl_risk(sql: &str, dialect: &str) -> (r: Result<Option<DdlRiskLevel>, String>)
    ensures
        match parse_outcome(dialect_of(dialect@), sql@) {
            Err(e) => r matches Err(m) && m@ == "SQL parse error: "@ + e,
            Ok(n) => if n == 0 {
                r matches Err(m) && m@ == "No SQL statements found"@
            } else {
                r == Ok::<Option<DdlRiskLevel>, String>(batch_level(named_shapes(dialect_of(dialect@), sql@)))
            },
        },
{
    let report = analyze_sql_impact(sql, dialect, TableSize::Unknown, 0)?;
    Ok(report.ddl_risk_level)
}

/// The highest risk class of already parsed statements.
pub fn classify_parsed_risk(stmts: &[ParsedStatement]) -> (r: SqlRisk)
    ensures
        r == overall_of(shapes_of(stmts@)),
{
    let ghost shapes = shapes_of(stmts@);
    let mut max_risk = SqlRisk::ReadOnly;
    let mut i: usize = 0;
    while i < stmts.len()
        invariant
            i <= stmts.len(),
            shapes == shapes_of(stmts@),
            max_risk == overall_of(shapes.subrange(0, i as int)),
        decreases stmts.len() - i,
    {
        assert(shapes.subrange(0, i + 1).drop_last() =~= shapes.subrange(0, i as int));
        let risk = classify_statement(&stmts[i].shape);
        if risk.rank_exec() > max_risk.rank_exec() {
            max_risk = risk;
        }
        i = i + 1;
    }
    assert(shapes.subrange(0, stmts.len() as int) =~= shapes);
    max_risk
}

/// The first word of `s`, in upper case.
pub open spec fn first_keyword(s: Seq<char>) -> Seq<char> {
    ascii_upper(ident_prefix(trim_blank_start(s)))
}

/// Whether a keyword starts a statement that only reads.
pub open spec fn read_only_keyword(k: Seq<char>) -> bool {
    ||| k == "SELECT"@
    ||| k == "WITH"@
    ||| k == "SHOW"@
    ||| k == "DESCRIBE"@
    ||| k == "DESC"@
    ||| k == "EXPLAIN"@
}

/// Risk class of text that sqlparser could not read, by its first keyword:
/// read-only for SELECT, WITH, SHOW, DESCRIBE, DESC and EXPLAIN in any
/// ASCII case, a write for anything else.
pub open spec fn keyword_risk(sql: Seq<char>) -> SqlRisk {
    if read_only_keyword(first_keyword(sql)) {
        SqlRisk::ReadOnly
    } else {
        SqlRisk::Write
    }
}

/// Risk class of `sql` by its first keyword alone.
pub fn classify_by_keyword(sql: &str) -> (r: SqlRisk)
    ensures
        r == keyword_risk(sql@),
{
    let cs = chars_of(sql);
    let n = cs.len();
    let mut i: usize = 0;
    assert(sql@.subrange(0, n as int) =~= sql@);
    while i < n && (cs[i] == ' ' || cs[i] == '\t' || cs[i] == '\n' || cs[i] == '\r')
        invariant
            cs@ == sql@,
            n == cs@.len(),
            i <= n,
            trim_blank_start(sql@) == trim_blank_start(sql@.subrange(i as int, n as int)),
        decreases n - i,
    {
        assert(sql@.subrange(i as int, n as int).drop_first() =~= sql@.subrange(i + 1, n as int));
        i = i + 1;
    }
    let mut rest = String::new();
    let mut j: usize = i;
    while j < n
        invariant
            cs@ == sql@,
            n == cs@.len(),
            i <= j <= n,
            rest@ == sql@.subrange(i as int, j as int),
        decreases n - j,
    {
        push_char(&mut rest, cs[j]);
        assert(rest@ =~= sql@.subrange(i as int, j + 1));
        j = j + 1;
    }
    assert(trim_blank_start(rest@) == rest@);
    let word = leading_identifier(rest.as_str());
    let upper = to_ascii_uppercase(word.as_str());
    let k = upper.as_str();
    if str_eq(k, "SELECT") || str_eq(k, "WITH") || str_eq(k, "SHOW") || str_eq(k, "DESCRIBE") || str_eq(k, "DESC")
        || str_eq(k, "EXPLAIN") {
        SqlRisk::ReadOnly
    } else {
        SqlRisk::Write
    }
}

/// Risk class of `sql`: the highest class among its statements.
///
/// Input that does not parse, or holds no statement, is classified by its
/// first keyword.
pub fn classify_sql_risk(sql: &str, dialect: &str) -> (r: Result<SqlRisk, String>)
    ensures
        match parse_outcome(dialect_of(dialect@), sql@) {
            Ok(n) => if n == 0 {
                r == Ok::<SqlRisk, String>(keyword_risk(sql@))
            } else {
                r == Ok::<SqlRisk, String>(overall_of(named_shapes(dialect_of(dialect@), sql@)))
            },
            Err(_) => r == Ok::<SqlRisk, String>(keyword_risk(sql@)),
        },
{
    let normalized = normalize_dialect(dialect);
    let parser_dialect = resolve_dialect(normalized);
    match parse_shapes(parser_dialect, sql) {
        Ok(stmts) => {
            if stmts.len() > 0 {
                Ok(classify_parsed_risk(stmts.as_slice()))
            } else {
                Ok(classify_by_keyword(sql))
            }
        },
        Err(_) => Ok(classify_by_keyword(sql)),
    }
}


/// A statement's risk class follows its kind: every CREATE, ALTER, DROP,
/// TRUNCATE, GRANT and REVOKE is DDL; only queries, EXPLAIN and the
/// read-only SHOW statements are read-only; only BEGIN, COMMIT and ROLLBACK
/// are transaction control; INSERT, UPDATE, DELETE, MERGE, COPY, PRAGMA and
/// anything unrecognised are writes.
pub proof fn law_statement_risk_follows_kind(s: ShapeView)
    ensures
        (s is CreateTable || s is CreateView || s is CreateIndex || s is CreateRole || s is CreateSchema
            || s is CreateSequence || s is CreateType || s is CreateFunction || s is CreateProcedure
            || s is CreateTrigger || s is AlterTable || s is AlterIndex || s is AlterView || s is Drop
            || s is Truncate || s is Grant || s is Revoke || s is OtherDdl) ==> shape_risk(s) == SqlRisk::Ddl,
        shape_risk(s) == SqlRisk::ReadOnly <==> (s is Query || s is Explain || s is ExplainTable || s is Show),
        shape_risk(s) == SqlRisk::Transaction <==> (s is StartTransaction || s is Commit || s is Rollback),
        (s is Insert || s is Update || s is Delete || s is Merge || s is Copy || s is Pragma || s is Other)
            ==> shape_risk(s) == SqlRisk::Write,
{
}

/// The kind names whose statements are not DDL.
pub open spec fn non_ddl_kind_name(v: Seq<char>) -> bool {
    ||| v == "Query"@
    ||| v == "Explain"@
    ||| v == "ExplainTable"@
    ||| read_only_show_variant(v)
    ||| v == "Insert"@
    ||| v == "Update"@
    ||| v == "Delete"@
    ||| v == "Merge"@
    ||| v == "StartTransaction"@
    ||| v == "Commit"@
    ||| v == "Rollback"@
    ||| v == "Copy"@
    ||| v == "Pragma"@
}

proof fn lemma_starts_char(v: Seq<char>, p: Seq<char>, i: int)
    requires
        seq_starts_with(v, p),
        0 <= i < p.len(),
    ensures
        v[i] == p[i],
{
    assert(v.subrange(0, p.len() as int)[i] == p[i]);
}

/// Read off a parsed statement: a statement whose kind is CREATE, ALTER or
/// DROP of anything, TRUNCATE, GRANT or REVOKE is DDL, and a statement is
/// read-only only when it is a query, an EXPLAIN or a read-only SHOW.
pub proof fn law_statement_risk_by_kind_name(f: StatementFactsView)
    ensures
        ({
            let v = ident_prefix(f.debug);
            seq_starts_with(v, "Create"@) || seq_starts_with(v, "Alter"@) || seq_starts_with(v, "Drop"@) || v
                == "Truncate"@ || v == "Grant"@ || v == "Revoke"@
        }) ==> shape_risk(facts_shape(f)) == SqlRisk::Ddl,
        shape_risk(facts_shape(f)) == SqlRisk::ReadOnly ==> ({
            let v = ident_prefix(f.debug);
            v == "Query"@ || v == "Explain"@ || v == "ExplainTable"@ || read_only_show_variant(v)
        }),
{
    let v = ident_prefix(f.debug);
    reveal_strlit("Create");
    reveal_strlit("Alter");
    reveal_strlit("Drop");
    reveal_strlit("Truncate");
    reveal_strlit("Grant");
    reveal_strlit("Revoke");
    reveal_strlit("Query");
    reveal_strlit("Explain");
    reveal_strlit("ExplainTable");
    reveal_strlit("ShowTables");
    reveal_strlit("ShowColumns");
    reveal_strlit("ShowDatabases");
    reveal_strlit("ShowSchemas");
    reveal_strlit("ShowCreate");
    reveal_strlit("ShowVariables");
    reveal_strlit("ShowStatus");
    reveal_strlit("ShowProcessList");
    reveal_strlit("Insert");
    reveal_strlit("Update");
    reveal_strlit("Delete");
    reveal_strlit("Merge");
    reveal_strlit("StartTransaction");
    reveal_strlit("Commit");
    reveal_strlit("Rollback");
    reveal_strlit("Copy");
    reveal_strlit("Pragma");
    if seq_starts_with(v, "Create"@) {
        lemma_starts_char(v, "Create"@, 0);
        lemma_starts_char(v, "Create"@, 1);
        assert(v[0] == 'C' && v[1] == 'r');
        assert(!non_ddl_kind_name(v));
    }
    if seq_starts_with(v, "Alter"@) {
        lemma_starts_char(v, "Alter"@, 0);
        assert(v[0] == 'A');
        assert(!non_ddl_kind_name(v));
    }
    if seq_starts_with(v, "Drop"@) {
        lemma_starts_char(v, "Drop"@, 0);
        lemma_starts_char(v, "Drop"@, 1);
        assert(v[0] == 'D' && v[1] == 'r');
        assert(!non_ddl_kind_name(v));
    }
    if v == "Truncate"@ {
        assert(v[0] == 'T' && v[1] == 'r');
        assert(!non_ddl_kind_name(v));
    }
    if v == "Grant"@ {
        assert(v[0] == 'G');
        assert(!non_ddl_kind_name(v));
    }
    if v == "Revoke"@ {
        assert(v[0] == 'R' && v[1] == 'e');
        assert(!non_ddl_kind_name(v));
    }
    law_statement_risk_follows_kind(facts_shape(f));
}

proof fn lemma_max_level_at_least(levels: Seq<DdlRiskLevel>, i: int)
    requires
        0 <= i < levels.len(),
    ensures
        max_level(levels).rank() >= levels[i].rank(),
    decreases levels.len(),
{
    if i < levels.len() - 1 {
        lemma_max_level_at_least(levels.drop_last(), i);
    }
}

/// Whether an `ALTER TABLE` operation drops, renames or retypes a column, or
/// renames the table.
pub open spec fn rewrites_columns(op: AlterOperationView) -> bool {
    op is DropColumn || op is RenameColumn || op is AlterColumn || op is ChangeColumn || op is ModifyColumn
        || op is RenameTable
}

/// An `ALTER TABLE` that drops, renames or retypes a column (or renames the
/// table) is at least Dangerous; a statement is Safe only when it creates a
/// table, view, index, schema, sequence or type, or drops a sequence.
pub proof fn law_ddl_levels_follow_kind(s: ShapeView)
    ensures
        (s matches ShapeView::AlterTable { operations, .. } && exists|i: int|
            0 <= i < operations.len() && rewrites_columns(#[trigger] operations[i])) ==> (shape_ddl(s) matches Some(
            p,
        ) && p.0.rank() >= DdlRiskLevel::Dangerous.rank()),
        (shape_ddl(s) matches Some(p) && p.0 == DdlRiskLevel::Safe) ==> (s is CreateTable || s is CreateView
            || s is CreateIndex || s is CreateSchema || s is CreateSequence || s is CreateType || (
        s matches ShapeView::Drop { object_type, .. } && object_type == "SEQUENCE"@)),
{
    if let ShapeView::AlterTable { name, operations } = s {
        let levels = operations.map_values(|op: AlterOperationView| op_risk(op).0);
        if exists|i: int| 0 <= i < operations.len() && rewrites_columns(#[trigger] operations[i]) {
            let i = choose|i: int| 0 <= i < operations.len() && rewrites_columns(#[trigger] operations[i]);
            lemma_max_level_at_least(levels, i);
            assert(levels[i] == op_risk(operations[i]).0);
        }
        if operations.len() > 0 {
            lemma_max_level_at_least(levels, 0);
            assert(levels[0] == op_risk(operations[0]).0);
        }
    }
}

proof fn lemma_details_hold_each_level(shapes: Seq<ShapeView>, i: int)
    requires
        0 <= i < shapes.len(),
        shape_ddl(shapes[i]) is Some,
    ensures
        exists|j: int|
            0 <= j < details_of(shapes).len() && (#[trigger] details_of(shapes)[j]).0 == shape_ddl(shapes[i]).unwrap().0,
    decreases shapes.len(),
{
    let rest = details_of(shapes.drop_last());
    if i < shapes.len() - 1 {
        lemma_details_hold_each_level(shapes.drop_last(), i);
        let j = choose|j: int| 0 <= j < rest.len() && (#[trigger] rest[j]).0 == shape_ddl(shapes.drop_last()[i]).unwrap().0;
        assert(details_of(shapes)[j] == rest[j]);
        assert(shapes.drop_last()[i] == shapes[i]);
    } else {
        assert(details_of(shapes)[rest.len() as int].0 == shape_ddl(shapes[i]).unwrap().0);
    }
}

/// The DDL level of a batch is at least the level of each of its
/// statements; so a batch with a Dangerous or Blocked statement on a table
/// that is not known to be small is run offline or in batches, never online
/// or lazily.
pub proof fn law_batch_level_covers_each_statement(shapes: Seq<ShapeView>, i: int, size: TableSize, load: u32)
    requires
        0 <= i < shapes.len(),
        shape_ddl(shapes[i]) is Some,
    ensures
        batch_level(shapes) matches Some(l) && l.rank() >= shape_ddl(shapes[i]).unwrap().0.rank(),
        shape_ddl(shapes[i]).unwrap().0.rank() >= DdlRiskLevel::Dangerous.rank() && size != TableSize::Small ==> (
        batch_strategy(batch_level(shapes), size, load) == ExecStrategy::Offline || batch_strategy(
            batch_level(shapes),
            size,
            load,
        ) == ExecStrategy::Batch),
{
    lemma_details_hold_each_level(shapes, i);
    let d = details_of(shapes);
    let j = choose|j: int| 0 <= j < d.len() && (#[trigger] d[j]).0 == shape_ddl(shapes[i]).unwrap().0;
    let levels = d.map_values(|x: (DdlRiskLevel, Seq<char>, Seq<Seq<char>>)| x.0);
    lemma_max_level_at_least(levels, j);
}


/// Whether an `ALTER TABLE` operation drops a primary-key constraint.
pub open spec fn drops_primary_key(op: AlterOperationView) -> bool {
    op matches AlterOperationView::DropConstraint { name } && seq_contains(ascii_lower(name), "primary"@)
}

/// The DDL level of each kind of statement: creating a table, view, index,
/// schema, sequence or type is Safe; creating a role, altering an index or a
/// view, GRANT and REVOKE are Caution; TRUNCATE is Dangerous; dropping a
/// table or a schema is Blocked, a sequence Safe, a view or an index
/// Caution, anything else Dangerous; an `ALTER TABLE` that only adds columns
/// or constraints (or alters otherwise, without touching a column or a
/// primary key) is Caution; statements that are not DDL have no level.
pub proof fn law_ddl_level_table(s: ShapeView)
    ensures
        (s is CreateTable || s is CreateView || s is CreateIndex || s is CreateSchema || s is CreateSequence
            || s is CreateType) ==> (shape_ddl(s) is Some && shape_ddl(s).unwrap().0 == DdlRiskLevel::Safe),
        (s is CreateRole || s is AlterIndex || s is AlterView || s is Grant || s is Revoke) ==> (shape_ddl(s) is Some && shape_ddl(s).unwrap().0 == DdlRiskLevel::Caution),
        s is Truncate ==> (shape_ddl(s) is Some && shape_ddl(s).unwrap().0 == DdlRiskLevel::Dangerous),
        s matches ShapeView::Drop { object_type, .. } ==> (shape_ddl(s) is Some && shape_ddl(s).unwrap().0 == (if object_type
            == "TABLE"@ || object_type == "SCHEMA"@ {
            DdlRiskLevel::Blocked
        } else if object_type == "SEQUENCE"@ {
            DdlRiskLevel::Safe
        } else if object_type == "VIEW"@ || object_type == "INDEX"@ {
            DdlRiskLevel::Caution
        } else {
            DdlRiskLevel::Dangerous
        })),
        (s matches ShapeView::AlterTable { operations, .. } && forall|i: int|
            0 <= i < operations.len() ==> !rewrites_columns(#[trigger] operations[i]) && !drops_primary_key(
                operations[i],
            )) ==> (shape_ddl(s) is Some && shape_ddl(s).unwrap().0 == DdlRiskLevel::Caution),
        (s matches ShapeView::AlterTable { operations, .. } && exists|i: int|
            0 <= i < operations.len() && drops_primary_key(#[trigger] operations[i])) ==> (shape_ddl(s) is Some
            && shape_ddl(s).unwrap().0.rank() >= DdlRiskLevel::Dangerous.rank()),
        (s is Query || s is Explain || s is ExplainTable || s is Show || s is Insert || s is Update || s is Delete
            || s is Merge || s is StartTransaction || s is Commit || s is Rollback || s is Copy || s is Pragma) ==> shape_ddl(
            s,
        ) is None,
{
    reveal_strlit("TABLE");
    reveal_strlit("SCHEMA");
    reveal_strlit("SEQUENCE");
    reveal_strlit("VIEW");
    reveal_strlit("INDEX");
    if let ShapeView::Drop { object_type, names } = s {
        if object_type == "SCHEMA"@ {
            assert(object_type != "TABLE"@ && object_type != "VIEW"@ && object_type != "INDEX"@);
        }
        if object_type == "SEQUENCE"@ {
            assert(object_type != "TABLE"@ && object_type != "VIEW"@ && object_type != "INDEX"@ && object_type
                != "SCHEMA"@);
        }
        if object_type == "INDEX"@ {
            assert(object_type[0] == 'I');
            assert(object_type != "TABLE"@ && object_type != "VIEW"@);
        }
        if object_type == "VIEW"@ {
            assert(object_type != "TABLE"@);
        }
    }
    if let ShapeView::AlterTable { name, operations } = s {
        let levels = operations.map_values(|op: AlterOperationView| op_risk(op).0);
        if exists|i: int| 0 <= i < operations.len() && drops_primary_key(#[trigger] operations[i]) {
            let i = choose|i: int| 0 <= i < operations.len() && drops_primary_key(#[trigger] operations[i]);
            lemma_max_level_at_least(levels, i);
            assert(levels[i] == op_risk(operations[i]).0);
        }
        if forall|i: int|
            0 <= i < operations.len() ==> !rewrites_columns(#[trigger] operations[i]) && !drops_primary_key(
                operations[i],
            ) {
            lemma_levels_all_caution(levels, operations);
        }
    }
}

proof fn lemma_max_level_of_caution(levels: Seq<DdlRiskLevel>)
    requires
        levels.len() > 0,
        forall|i: int| 0 <= i < levels.len() ==> #[trigger] levels[i] == DdlRiskLevel::Caution,
    ensures
        max_level(levels) == DdlRiskLevel::Caution,
    decreases levels.len(),
{
    let rest = levels.drop_last();
    if levels.len() > 1 {
        assert forall|i: int| 0 <= i < rest.len() implies #[trigger] rest[i] == DdlRiskLevel::Caution by {
            assert(rest[i] == levels[i]);
        }
        lemma_max_level_of_caution(rest);
    } else {
        assert(rest.len() == 0);
        assert(max_level(rest) == DdlRiskLevel::Safe);
    }
    assert(levels.last() == levels[levels.len() - 1]);
}

proof fn lemma_levels_all_caution(levels: Seq<DdlRiskLevel>, operations: Seq<AlterOperationView>)
    requires
        levels == operations.map_values(|op: AlterOperationView| op_risk(op).0),
        forall|i: int|
            0 <= i < operations.len() ==> !rewrites_columns(#[trigger] operations[i]) && !drops_primary_key(
                operations[i],
            ),
    ensures
        operations.len() > 0 ==> max_level(levels) == DdlRiskLevel::Caution,
{
    assert forall|i: int| 0 <= i < levels.len() implies #[trigger] levels[i] == DdlRiskLevel::Caution by {
        assert(levels[i] == op_risk(operations[i]).0);
        assert(!rewrites_columns(operations[i]) && !drops_primary_key(operations[i]));
    }
    if operations.len() > 0 {
        lemma_max_level_of_caution(levels);
    }
}

} // verus!
