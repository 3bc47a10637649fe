//! Parsing SQL with sqlparser and reading off the facts that risk assessment
//! and DDL filtering need, as plain values.

use vstd::prelude::*;

use sqlparser::ast::AlterTableOperation;
use sqlparser::ast::Statement;
use sqlparser::dialect::{
    ClickHouseDialect, DuckDbDialect, GenericDialect, MsSqlDialect, MySqlDialect, PostgreSqlDialect,
    SQLiteDialect,
};
use sqlparser::parser::Parser;

use crate::text::{ident_prefix, leading_identifier, seq_starts_with, str_eq, str_starts_with, string_views};

verus! {

/// A SQL statement as sqlparser represents it.
#[verifier::external_type_specification]
#[verifier::external_body]
pub struct ExStatement(Statement);

/// One operation of an `ALTER TABLE` statement as sqlparser represents it.
#[verifier::external_type_specification]
#[verifier::external_body]
pub struct ExAlterTableOperation(AlterTableOperation);

/// The sqlparser dialect a statement batch is parsed with.
#[derive(Debug, Clone, Copy, PartialEq, Eq, Structural)]
pub enum ParserDialect {
    Postgres,
    MySql,
    Sqlite,
    MsSql,
    ClickHouse,
    DuckDb,
    Generic,
}

/// What is read off one operation of an `ALTER TABLE`: its derived `Debug`
/// rendering, which begins with the name of its variant, and the column or
/// constraint it names.
#[derive(Debug, Clone)]
pub struct OperationFacts {
    pub debug: String,
    pub subject: Option<String>,
}

/// `OperationFacts` as plain text.
pub struct OperationFactsView {
    pub debug: Seq<char>,
    pub subject: Option<Seq<char>>,
}

/// What is read off one parsed statement, as sqlparser prints it: the derived
/// `Debug` rendering (which begins with the statement's variant name), the
/// name of the object it creates or alters, the index and table of a CREATE
/// INDEX, the first role of a CREATE ROLE, the object type and names of a
/// DROP, the tables of a TRUNCATE, the operations of an ALTER TABLE, and the
/// statement itself.
#[derive(Debug, Clone)]
pub struct StatementFacts {
    pub debug: String,
    pub object_name: Option<String>,
    pub index_names: Option<(Option<String>, String)>,
    pub role_first_name: Option<Option<String>>,
    pub drop_target: Option<(String, Vec<String>)>,
    pub truncate_targets: Option<Vec<String>>,
    pub operations: Vec<OperationFacts>,
    pub sql: String,
}

/// `StatementFacts` as plain text.
pub struct StatementFactsView {
    pub debug: Seq<char>,
    pub object_name: Option<Seq<char>>,
    pub index_names: Option<(Option<Seq<char>>, Seq<char>)>,
    pub role_first_name: Option<Option<Seq<char>>>,
    pub drop_target: Option<(Seq<char>, Seq<Seq<char>>)>,
    pub truncate_targets: Option<Seq<Seq<char>>>,
    pub operations: Seq<OperationFactsView>,
    pub sql: Seq<char>,
}

/// The view of an optional string.
pub open spec fn opt_view(o: Option<String>) -> Option<Seq<char>> {
    match o {
        Some(s) => Some(s@),
        None => None,
    }
}

impl View for OperationFacts {
    type V = OperationFactsView;

    open spec fn view(&self) -> OperationFactsView {
        OperationFactsView { debug: self.debug@, subject: opt_view(self.subject) }
    }
}

impl View for StatementFacts {
    type V = StatementFactsView;

    open spec fn view(&self) -> StatementFactsView {
        StatementFactsView {
            debug: self.debug@,
            object_name: opt_view(self.object_name),
            index_names: match self.index_names {
                Some((n, t)) => Some((opt_view(n), t@)),
                None => None,
            },
            role_first_name: match self.role_first_name {
                Some(n) => Some(opt_view(n)),
                None => None,
            },
            drop_target: match self.drop_target {
                Some((t, names)) => Some((t@, string_views(names@))),
                None => None,
            },
            truncate_targets: match self.truncate_targets {
                Some(names) => Some(string_views(names@)),
                None => None,
            },
            operations: self.operations@.map_values(|o: OperationFacts| o@),
            sql: self.sql@,
        }
    }
}

/// The views of a sequence of statement facts.
pub open spec fn facts_views(v: Seq<StatementFacts>) -> Seq<StatementFactsView> {
    v.map_values(|f: StatementFacts| f@)
}

/// What sqlparser makes of `sql` under `dialect`: the facts read off each
/// statement, in order, or the text of its parse error.
pub uninterp spec fn parsed_statement_facts(dialect: ParserDialect, sql: Seq<char>) -> Result<
    Seq<StatementFactsView>,
    Seq<char>,
>;

/// The number of statements sqlparser finds in `sql`, or its parse error.
pub open spec fn parse_outcome(dialect: ParserDialect, sql: Seq<char>) -> Result<nat, Seq<char>> {
    match parsed_statement_facts(dialect, sql) {
        Ok(fs) => Ok(fs.len()),
        Err(e) => Err(e),
    }
}

/// Parses `sql` with `sqlparser::parser::Parser::parse_sql` under `dialect`
/// and reads the facts off each statement; a parse error comes back as its
/// message (`Display`).
///
/// What sqlparser returns depends on the text and the dialect alone; the
/// result is named `parsed_statement_facts`, not spelled out.
#[verifier::external_body]
fn parse_statement_facts(dialect: ParserDialect, sql: &str) -> (r: Result<Vec<StatementFacts>, String>)
    ensures
        match r {
            Ok(v) => parsed_statement_facts(dialect, sql@) == Ok::<Seq<StatementFactsView>, Seq<char>>(
                facts_views(v@),
            ),
            Err(e) => parsed_statement_facts(dialect, sql@) == Err::<Seq<StatementFactsView>, Seq<char>>(e@),
        },
{
    let parsed = match dialect {
        ParserDialect::Postgres => Parser::parse_sql(&PostgreSqlDialect {}, sql),
        ParserDialect::MySql => Parser::parse_sql(&MySqlDialect {}, sql),
        ParserDialect::Sqlite => Parser::parse_sql(&SQLiteDialect {}, sql),
        ParserDialect::MsSql => Parser::parse_sql(&MsSqlDialect {}, sql),
        ParserDialect::ClickHouse => Parser::parse_sql(&ClickHouseDialect {}, sql),
        ParserDialect::DuckDb => Parser::parse_sql(&DuckDbDialect {}, sql),
        ParserDialect::Generic => Parser::parse_sql(&GenericDialect {}, sql),
    };
    match parsed {
        Ok(stmts) => Ok(stmts.iter().map(|s| statement_facts(s)).collect()),
        Err(e) => Err(e.to_string()),
    }
}

/// The derived `Debug` rendering of a statement, which begins with the name
/// of its `Statement` variant.
#[verifier::external_body]
fn statement_debug(stmt: &Statement) -> String {
    format!("{stmt:?}")
}

/// The statement as sqlparser prints it (`Display`).
#[verifier::external_body]
fn statement_sql(stmt: &Statement) -> String {
    stmt.to_string()
}

/// The printed name of the object that a CREATE TABLE / VIEW / SCHEMA /
/// SEQUENCE / TYPE or ALTER TABLE / INDEX / VIEW statement names.
#[verifier::external_body]
fn statement_object_name(stmt: &Statement) -> Option<String> {
    match stmt {
        Statement::CreateTable(ct) => Some(ct.name.to_string()),
        Statement::CreateView(cv) => Some(cv.name.to_string()),
        Statement::CreateSchema { schema_name, .. } => Some(schema_name.to_string()),
        Statement::CreateSequence { name, .. } => Some(name.to_string()),
        Statement::CreateType { name, .. } => Some(name.to_string()),
        Statement::AlterTable(at) => Some(at.name.to_string()),
        Statement::AlterIndex { name, .. } => Some(name.to_string()),
        Statement::AlterView { name, .. } => Some(name.to_string()),
        _ => None,
    }
}

/// The printed index name (if any) and table name of a CREATE INDEX.
#[verifier::external_body]
fn create_index_names(stmt: &Statement) -> Option<(Option<String>, String)> {
    match stmt {
        Statement::CreateIndex(ci) => Some((ci.name.as_ref().map(|n| n.to_string()), ci.table_name.to_string())),
        _ => None,
    }
}

/// The printed first role name of a CREATE ROLE.
#[verifier::external_body]
fn create_role_first_name(stmt: &Statement) -> Option<Option<String>> {
    match stmt {
        Statement::CreateRole(cr) => Some(cr.names.first().map(|n| n.to_string())),
        _ => None,
    }
}

/// The printed object type and object names of a DROP.
#[verifier::external_body]
fn drop_target(stmt: &Statement) -> Option<(String, Vec<String>)> {
    match stmt {
        Statement::Drop { object_type, names, .. } => {
            Some((object_type.to_string(), names.iter().map(|n| n.to_string()).collect()))
        },
        _ => None,
    }
}

/// The printed table targets of a TRUNCATE.
#[verifier::external_body]
fn truncate_targets(stmt: &Statement) -> Option<Vec<String>> {
    match stmt {
        Statement::Truncate(t) => Some(t.table_names.iter().map(|n| n.to_string()).collect()),
        _ => None,
    }
}

/// The operations of an ALTER TABLE (none for other statements).
#[verifier::external_body]
fn alter_table_operations(stmt: &Statement) -> Vec<AlterTableOperation> {
    match stmt {
        Statement::AlterTable(at) => at.operations.clone(),
        _ => Vec::new(),
    }
}

/// The derived `Debug` rendering of an ALTER TABLE operation, which begins
/// with the name of its variant.
#[verifier::external_body]
fn operation_debug(op: &AlterTableOperation) -> String {
    format!("{op:?}")
}

/// The column an ADD / ALTER / CHANGE / MODIFY COLUMN operation names, or the
/// printed constraint name of a DROP CONSTRAINT.
#[verifier::external_body]
fn operation_subject(op: &AlterTableOperation) -> Option<String> {
    match op {
        AlterTableOperation::AddColumn { column_def, .. } => Some(column_def.name.value.clone()),
        AlterTableOperation::AlterColumn { column_name, .. } => Some(column_name.value.clone()),
        AlterTableOperation::ChangeColumn { old_name, .. } => Some(old_name.value.clone()),
        AlterTableOperation::ModifyColumn { col_name, .. } => Some(col_name.value.clone()),
        AlterTableOperation::DropConstraint { name, .. } => Some(name.to_string()),
        _ => None,
    }
}

/// Reads the facts off one parsed statement; the reading is done by the
/// accessors above and nothing is decided here.
pub(crate) fn statement_facts(stmt: &Statement) -> StatementFacts {
    let ops = alter_table_operations(stmt);
    let mut operations: Vec<OperationFacts> = Vec::new();
    let mut i: usize = 0;
    while i < ops.len()
        decreases ops.len() - i,
    {
        operations.push(OperationFacts { debug: operation_debug(&ops[i]), subject: operation_subject(&ops[i]) });
        i = i + 1;
    }
    StatementFacts {
        debug: statement_debug(stmt),
        object_name: statement_object_name(stmt),
        index_names: create_index_names(stmt),
        role_first_name: create_role_first_name(stmt),
        drop_target: drop_target(stmt),
        truncate_targets: truncate_targets(stmt),
        operations,
        sql: statement_sql(stmt),
    }
}

/// One operation of an `ALTER TABLE`, with what risk assessment reads of it.
#[derive(Debug, Clone)]
pub enum AlterOperation {
    AddColumn { column: String },
    DropColumn,
    AlterColumn { column: String },
    RenameColumn,
    RenameTable,
    ChangeColumn { old_name: String },
    ModifyColumn { column: String },
    DropConstraint { name: String },
    AddConstraint,
    Other,
}

/// `AlterOperation` as plain text.
pub enum AlterOperationView {
    AddColumn { column: Seq<char> },
    DropColumn,
    AlterColumn { column: Seq<char> },
    RenameColumn,
    RenameTable,
    ChangeColumn { old_name: Seq<char> },
    ModifyColumn { column: Seq<char> },
    DropConstraint { name: Seq<char> },
    AddConstraint,
    Other,
}

impl View for AlterOperation {
    type V = AlterOperationView;

    open spec fn view(&self) -> AlterOperationView {
        match self {
            AlterOperation::AddColumn { column } => AlterOperationView::AddColumn { column: column@ },
            AlterOperation::DropColumn => AlterOperationView::DropColumn,
            AlterOperation::AlterColumn { column } => AlterOperationView::AlterColumn { column: column@ },
            AlterOperation::RenameColumn => AlterOperationView::RenameColumn,
            AlterOperation::RenameTable => AlterOperationView::RenameTable,
            AlterOperation::ChangeColumn { old_name } => AlterOperationView::ChangeColumn { old_name: old_name@ },
            AlterOperation::ModifyColumn { column } => AlterOperationView::ModifyColumn { column: column@ },
            AlterOperation::DropConstraint { name } => AlterOperationView::DropConstraint { name: name@ },
            AlterOperation::AddConstraint => AlterOperationView::AddConstraint,
            AlterOperation::Other => AlterOperationView::Other,
        }
    }
}

/// A parsed statement, with what risk assessment and DDL filtering read of it.
///
/// Names are as sqlparser prints them.
#[derive(Debug, Clone)]
#[allow(inconsistent_fields)]
pub enum StatementShape {
    Query,
    Explain,
    ExplainTable,
    /// SHOW TABLES / COLUMNS / DATABASES / SCHEMAS / CREATE / VARIABLES /
    /// STATUS / PROCESSLIST
    Show,
    Insert,
    Update,
    Delete,
    Merge,
    CreateTable { name: String },
    CreateView { name: String },
    CreateIndex { name: Option<String>, table_name: String },
    CreateRole { first_name: Option<String> },
    CreateSchema { schema_name: String },
    CreateSequence { name: String },
    CreateType { name: String },
    AlterTable { name: String, operations: Vec<AlterOperation> },
    AlterIndex { name: String },
    AlterView { name: String },
    Drop { object_type: String, names: Vec<String> },
    Truncate { table_names: Vec<String> },
    Grant,
    Revoke,
    StartTransaction,
    Commit,
    Rollback,
    Copy,
    Pragma,
    CreateFunction,
    CreateProcedure,
    CreateTrigger,
    /// Any other CREATE, ALTER or DROP statement, such as CREATE DATABASE,
    /// CREATE EXTENSION, ALTER ROLE or DROP FUNCTION.
    OtherDdl,
    Other,
}

/// `StatementShape` as plain text.
#[allow(inconsistent_fields)]
pub enum ShapeView {
    Query,
    Explain,
    ExplainTable,
    Show,
    Insert,
    Update,
    Delete,
    Merge,
    CreateTable { name: Seq<char> },
    CreateView { name: Seq<char> },
    CreateIndex { name: Option<Seq<char>>, table_name: Seq<char> },
    CreateRole { first_name: Option<Seq<char>> },
    CreateSchema { schema_name: Seq<char> },
    CreateSequence { name: Seq<char> },
    CreateType { name: Seq<char> },
    AlterTable { name: Seq<char>, operations: Seq<AlterOperationView> },
    AlterIndex { name: Seq<char> },
    AlterView { name: Seq<char> },
    Drop { object_type: Seq<char>, names: Seq<Seq<char>> },
    Truncate { table_names: Seq<Seq<char>> },
    Grant,
    Revoke,
    StartTransaction,
    Commit,
    Rollback,
    Copy,
    Pragma,
    CreateFunction,
    CreateProcedure,
    CreateTrigger,
    /// Any other CREATE, ALTER or DROP statement, such as CREATE DATABASE,
    /// CREATE EXTENSION, ALTER ROLE or DROP FUNCTION.
    OtherDdl,
    Other,
}

impl View for StatementShape {
    type V = ShapeView;

    open spec fn view(&self) -> ShapeView {
        match self {
            StatementShape::Query => ShapeView::Query,
            StatementShape::Explain => ShapeView::Explain,
            StatementShape::ExplainTable => ShapeView::ExplainTable,
            StatementShape::Show => ShapeView::Show,
            StatementShape::Insert => ShapeView::Insert,
            StatementShape::Update => ShapeView::Update,
            StatementShape::Delete => ShapeView::Delete,
            StatementShape::Merge => ShapeView::Merge,
            StatementShape::CreateTable { name } => ShapeView::CreateTable { name: name@ },
            StatementShape::CreateView { name } => ShapeView::CreateView { name: name@ },
            StatementShape::CreateIndex { name, table_name } => ShapeView::CreateIndex {
                name: opt_view(*name),
                table_name: table_name@,
            },
            StatementShape::CreateRole { first_name } => ShapeView::CreateRole { first_name: opt_view(*first_name) },
            StatementShape::CreateSchema { schema_name } => ShapeView::CreateSchema { schema_name: schema_name@ },
            StatementShape::CreateSequence { name } => ShapeView::CreateSequence { name: name@ },
            StatementShape::CreateType { name } => ShapeView::CreateType { name: name@ },
            StatementShape::AlterTable { name, operations } => ShapeView::AlterTable {
                name: name@,
                operations: operations@.map_values(|o: AlterOperation| o@),
            },
            StatementShape::AlterIndex { name } => ShapeView::AlterIndex { name: name@ },
            StatementShape::AlterView { name } => ShapeView::AlterView { name: name@ },
            StatementShape::Drop { object_type, names } => ShapeView::Drop {
                object_type: object_type@,
                names: string_views(names@),
            },
            StatementShape::Truncate { table_names } => ShapeView::Truncate { table_names: string_views(table_names@) },
            StatementShape::Grant => ShapeView::Grant,
            StatementShape::Revoke => ShapeView::Revoke,
            StatementShape::StartTransaction => ShapeView::StartTransaction,
            StatementShape::Commit => ShapeView::Commit,
            StatementShape::Rollback => ShapeView::Rollback,
            StatementShape::Copy => ShapeView::Copy,
            StatementShape::Pragma => ShapeView::Pragma,
            StatementShape::CreateFunction => ShapeView::CreateFunction,
            StatementShape::CreateProcedure => ShapeView::CreateProcedure,
            StatementShape::CreateTrigger => ShapeView::CreateTrigger,
            StatementShape::OtherDdl => ShapeView::OtherDdl,
            StatementShape::Other => ShapeView::Other,
        }
    }
}

/// An optional text, or the empty text.
pub open spec fn text_or_empty(o: Option<Seq<char>>) -> Seq<char> {
    match o {
        Some(s) => s,
        None => Seq::empty(),
    }
}

/// The operation whose facts are `o`, told by its variant name.
pub open spec fn operation_shape_of(o: OperationFactsView) -> AlterOperationView {
    let v = ident_prefix(o.debug);
    let subject = text_or_empty(o.subject);
    if v == "AddColumn"@ {
        AlterOperationView::AddColumn { column: subject }
    } else if v == "DropColumn"@ {
        AlterOperationView::DropColumn
    } else if v == "AlterColumn"@ {
        AlterOperationView::AlterColumn { column: subject }
    } else if v == "RenameColumn"@ {
        AlterOperationView::RenameColumn
    } else if v == "RenameTable"@ {
        AlterOperationView::RenameTable
    } else if v == "ChangeColumn"@ {
        AlterOperationView::ChangeColumn { old_name: subject }
    } else if v == "ModifyColumn"@ {
        AlterOperationView::ModifyColumn { column: subject }
    } else if v == "DropConstraint"@ {
        AlterOperationView::DropConstraint { name: subject }
    } else if v == "AddConstraint"@ {
        AlterOperationView::AddConstraint
    } else {
        AlterOperationView::Other
    }
}

fn clone_opt(o: &Option<String>) -> (r: Option<String>)
    ensures
        opt_view(r) == opt_view(*o),
{
    match o {
        Some(s) => Some(s.clone()),
        None => None,
    }
}

fn take_or_empty(o: &Option<String>) -> (r: String)
    ensures
        r@ == text_or_empty(opt_view(*o)),
{
    match o {
        Some(s) => s.clone(),
        None => String::new(),
    }
}

/// The operation whose facts are `o`.
pub fn operation_shape(o: &OperationFacts) -> (r: AlterOperation)
    ensures
        r@ == operation_shape_of(o@),
{
    let variant = leading_identifier(o.debug.as_str());
    let v = variant.as_str();
    let subject = take_or_empty(&o.subject);
    if str_eq(v, "AddColumn") {
        AlterOperation::AddColumn { column: subject }
    } else if str_eq(v, "DropColumn") {
        AlterOperation::DropColumn
    } else if str_eq(v, "AlterColumn") {
        AlterOperation::AlterColumn { column: subject }
    } else if str_eq(v, "RenameColumn") {
        AlterOperation::RenameColumn
    } else if str_eq(v, "RenameTable") {
        AlterOperation::RenameTable
    } else if str_eq(v, "ChangeColumn") {
        AlterOperation::ChangeColumn { old_name: subject }
    } else if str_eq(v, "ModifyColumn") {
        AlterOperation::ModifyColumn { column: subject }
    } else if str_eq(v, "DropConstraint") {
        AlterOperation::DropConstraint { name: subject }
    } else if str_eq(v, "AddConstraint") {
        AlterOperation::AddConstraint
    } else {
        AlterOperation::Other
    }
}

/// Whether `v` names one of the `SHOW` statements that only read: tables,
/// columns, databases, schemas, a `CREATE` text, variables, status or the
/// process list.
pub open spec fn read_only_show_variant(v: Seq<char>) -> bool {
    ||| v == "ShowTables"@
    ||| v == "ShowColumns"@
    ||| v == "ShowDatabases"@
    ||| v == "ShowSchemas"@
    ||| v == "ShowCreate"@
    ||| v == "ShowVariables"@
    ||| v == "ShowStatus"@
    ||| v == "ShowProcessList"@
}

fn is_read_only_show(v: &str) -> (r: bool)
    ensures
        r == read_only_show_variant(v@),
{
    str_eq(v, "ShowTables") || str_eq(v, "ShowColumns") || str_eq(v, "ShowDatabases") || str_eq(
        v,
        "ShowSchemas",
    ) || str_eq(v, "ShowCreate") || str_eq(v, "ShowVariables") || str_eq(v, "ShowStatus")
        || str_eq(v, "ShowProcessList")
}

/// The shape of a statement whose facts are `f`: its variant name decides
/// the kind; names are read from the facts that go with that kind.
pub open spec fn facts_shape(f: StatementFactsView) -> ShapeView {
    let v = ident_prefix(f.debug);
    let name = text_or_empty(f.object_name);
    if v == "Query"@ {
        ShapeView::Query
    } else if v == "Explain"@ {
        ShapeView::Explain
    } else if v == "ExplainTable"@ {
        ShapeView::ExplainTable
    } else if read_only_show_variant(v) {
        ShapeView::Show
    } else if v == "Insert"@ {
        ShapeView::Insert
    } else if v == "Update"@ {
        ShapeView::Update
    } else if v == "Delete"@ {
        ShapeView::Delete
    } else if v == "Merge"@ {
        ShapeView::Merge
    } else if v == "CreateTable"@ {
        ShapeView::CreateTable { name }
    } else if v == "CreateView"@ {
        ShapeView::CreateView { name }
    } else if v == "CreateIndex"@ {
        match f.index_names {
            Some((n, t)) => ShapeView::CreateIndex { name: n, table_name: t },
            None => ShapeView::CreateIndex { name: None, table_name: Seq::empty() },
        }
    } else if v == "CreateRole"@ {
        match f.role_first_name {
            Some(n) => ShapeView::CreateRole { first_name: n },
            None => ShapeView::CreateRole { first_name: None },
        }
    } else if v == "CreateSchema"@ {
        ShapeView::CreateSchema { schema_name: name }
    } else if v == "CreateSequence"@ {
        ShapeView::CreateSequence { name }
    } else if v == "CreateType"@ {
        ShapeView::CreateType { name }
    } else if v == "AlterTable"@ {
        ShapeView::AlterTable { name, operations: f.operations.map_values(|o: OperationFactsView| operation_shape_of(o)) }
    } else if v == "AlterIndex"@ {
        ShapeView::AlterIndex { name }
    } else if v == "AlterView"@ {
        ShapeView::AlterView { name }
    } else if v == "Drop"@ {
        match f.drop_target {
            Some((t, names)) => ShapeView::Drop { object_type: t, names },
            None => ShapeView::Drop { object_type: Seq::empty(), names: Seq::empty() },
        }
    } else if v == "Truncate"@ {
        match f.truncate_targets {
            Some(names) => ShapeView::Truncate { table_names: names },
            None => ShapeView::Truncate { table_names: Seq::empty() },
        }
    } else if v == "Grant"@ {
        ShapeView::Grant
    } else if v == "Revoke"@ {
        ShapeView::Revoke
    } else if v == "StartTransaction"@ {
        ShapeView::StartTransaction
    } else if v == "Commit"@ {
        ShapeView::Commit
    } else if v == "Rollback"@ {
        ShapeView::Rollback
    } else if v == "Copy"@ {
        ShapeView::Copy
    } else if v == "Pragma"@ {
        ShapeView::Pragma
    } else if v == "CreateFunction"@ {
        ShapeView::CreateFunction
    } else if v == "CreateProcedure"@ {
        ShapeView::CreateProcedure
    } else if v == "CreateTrigger"@ {
        ShapeView::CreateTrigger
    } else if seq_starts_with(v, "Create"@) || seq_starts_with(v, "Alter"@) || seq_starts_with(v, "Drop"@) {
        ShapeView::OtherDdl
    } else {
        ShapeView::Other
    }
}

fn copy_strings(v: &Vec<String>) -> (r: Vec<String>)
    ensures
        r@ == v@,
{
    let mut r: Vec<String> = Vec::new();
    let mut i: usize = 0;
    while i < v.len()
        invariant
            i <= v.len(),
            r@ == v@.subrange(0, i as int),
        decreases v.len() - i,
    {
        r.push(v[i].clone());
        i = i + 1;
        assert(r@ =~= v@.subrange(0, i as int));
    }
    assert(v@.subrange(0, v.len() as int) =~= v@);
    r
}

fn operation_shapes(ops: &Vec<OperationFacts>) -> (r: Vec<AlterOperation>)
    ensures
        r@.map_values(|o: AlterOperation| o@) == ops@.map_values(|o: OperationFacts| o@).map_values(
            |o: OperationFactsView| operation_shape_of(o),
        ),
{
    let mut out: Vec<AlterOperation> = Vec::new();
    let mut i: usize = 0;
    while i < ops.len()
        invariant
            i <= ops.len(),
            out@.len() == i,
            forall|j: int| 0 <= j < i ==> (#[trigger] out@[j])@ == operation_shape_of(ops@[j]@),
        decreases ops.len() - i,
    {
        out.push(operation_shape(&ops[i]));
        i = i + 1;
    }
    assert(out@.map_values(|o: AlterOperation| o@) =~= ops@.map_values(|o: OperationFacts| o@).map_values(
        |o: OperationFactsView| operation_shape_of(o),
    ));
    out
}

/// The shape of the statement whose facts are `facts`.
pub fn statement_shape(facts: &StatementFacts) -> (r: StatementShape)
    ensures
        r@ == facts_shape(facts@),
{
    let variant = leading_identifier(facts.debug.as_str());
    let v = variant.as_str();
    let name = take_or_empty(&facts.object_name);
    if str_eq(v, "Query") {
        StatementShape::Query
    } else if str_eq(v, "Explain") {
        StatementShape::Explain
    } else if str_eq(v, "ExplainTable") {
        StatementShape::ExplainTable
    } else if is_read_only_show(v) {
        StatementShape::Show
    } else if str_eq(v, "Insert") {
        StatementShape::Insert
    } else if str_eq(v, "Update") {
        StatementShape::Update
    } else if str_eq(v, "Delete") {
        StatementShape::Delete
    } else if str_eq(v, "Merge") {
        StatementShape::Merge
    } else if str_eq(v, "CreateTable") {
        StatementShape::CreateTable { name }
    } else if str_eq(v, "CreateView") {
        StatementShape::CreateView { name }
    } else if str_eq(v, "CreateIndex") {
        match &facts.index_names {
            Some((n, t)) => {
                let r = StatementShape::CreateIndex { name: clone_opt(n), table_name: t.clone() };
                assert(r@ == facts_shape(facts@));
                r
            },
            None => {
                let r = StatementShape::CreateIndex { name: None, table_name: String::new() };
                assert(r@ == facts_shape(facts@));
                r
            },
        }
    } else if str_eq(v, "CreateRole") {
        match &facts.role_first_name {
            Some(n) => {
                let r = StatementShape::CreateRole { first_name: clone_opt(n) };
                assert(r@ == facts_shape(facts@));
                r
            },
            None => StatementShape::CreateRole { first_name: None },
        }
    } else if str_eq(v, "CreateSchema") {
        StatementShape::CreateSchema { schema_name: name }
    } else if str_eq(v, "CreateSequence") {
        StatementShape::CreateSequence { name }
    } else if str_eq(v, "CreateType") {
        StatementShape::CreateType { name }
    } else if str_eq(v, "AlterTable") {
        let operations = operation_shapes(&facts.operations);
        let r = StatementShape::AlterTable { name, operations };
        assert(r@ == facts_shape(facts@)) by {
            assert(facts@.operations.map_values(|o: OperationFactsView| operation_shape_of(o)) =~= operations@.map_values(
                |o: AlterOperation| o@,
            ));
        }
        r
    } else if str_eq(v, "AlterIndex") {
        StatementShape::AlterIndex { name }
    } else if str_eq(v, "AlterView") {
        StatementShape::AlterView { name }
    } else if str_eq(v, "Drop") {
        match &facts.drop_target {
            Some((t, names)) => {
                let r = StatementShape::Drop { object_type: t.clone(), names: copy_strings(names) };
                assert(r@ == facts_shape(facts@));
                r
            },
            None => {
                let r = StatementShape::Drop { object_type: String::new(), names: Vec::new() };
                assert(string_views(Seq::<String>::empty()) =~= Seq::<Seq<char>>::empty());
                assert(r@ == facts_shape(facts@));
                r
            },
        }
    } else if str_eq(v, "Truncate") {
        match &facts.truncate_targets {
            Some(names) => {
                let r = StatementShape::Truncate { table_names: copy_strings(names) };
                assert(r@ == facts_shape(facts@));
                r
            },
            None => {
                let r = StatementShape::Truncate { table_names: Vec::new() };
                assert(string_views(Seq::<String>::empty()) =~= Seq::<Seq<char>>::empty());
                assert(r@ == facts_shape(facts@));
                r
            },
        }
    } else if str_eq(v, "Grant") {
        StatementShape::Grant
    } else if str_eq(v, "Revoke") {
        StatementShape::Revoke
    } else if str_eq(v, "StartTransaction") {
        StatementShape::StartTransaction
    } else if str_eq(v, "Commit") {
        StatementShape::Commit
    } else if str_eq(v, "Rollback") {
        StatementShape::Rollback
    } else if str_eq(v, "Copy") {
        StatementShape::Copy
    } else if str_eq(v, "Pragma") {
        StatementShape::Pragma
    } else if str_eq(v, "CreateFunction") {
        StatementShape::CreateFunction
    } else if str_eq(v, "CreateProcedure") {
        StatementShape::CreateProcedure
    } else if str_eq(v, "CreateTrigger") {
        StatementShape::CreateTrigger
    } else if str_starts_with(v, "Create") || str_starts_with(v, "Alter") || str_starts_with(v, "Drop") {
        StatementShape::OtherDdl
    } else {
        StatementShape::Other
    }
}

/// A parsed statement: its shape and its text as sqlparser prints it.
#[derive(Debug, Clone)]
pub struct ParsedStatement {
    pub shape: StatementShape,
    pub sql: String,
}

/// The shapes of a sequence of parsed statements.
pub open spec fn shapes_of(v: Seq<ParsedStatement>) -> Seq<ShapeView> {
    v.map_values(|p: ParsedStatement| p.shape@)
}

/// The printed texts of a sequence of parsed statements.
pub open spec fn sqls_of(v: Seq<ParsedStatement>) -> Seq<Seq<char>> {
    v.map_values(|p: ParsedStatement| p.sql@)
}

/// The shapes of the statements sqlparser finds in `sql` (none on a parse
/// error).
pub open spec fn named_shapes(dialect: ParserDialect, sql: Seq<char>) -> Seq<ShapeView> {
    match parsed_statement_facts(dialect, sql) {
        Ok(fs) => fs.map_values(|f: StatementFactsView| facts_shape(f)),
        Err(_) => Seq::empty(),
    }
}

/// The printed texts of the statements sqlparser finds in `sql` (none on a
/// parse error).
pub open spec fn named_sqls(dialect: ParserDialect, sql: Seq<char>) -> Seq<Seq<char>> {
    match parsed_statement_facts(dialect, sql) {
        Ok(fs) => fs.map_values(|f: StatementFactsView| f.sql),
        Err(_) => Seq::empty(),
    }
}

/// The statement whose facts are `facts`: its shape and its printed text.
pub fn parsed_statement(facts: &StatementFacts) -> (r: ParsedStatement)
    ensures
        r.shape@ == facts_shape(facts@),
        r.sql@ == facts@.sql,
{
    ParsedStatement { shape: statement_shape(facts), sql: facts.sql.clone() }
}

/// Parses `sql` under `dialect` and reads off each statement's shape and
/// printed text, in order; a parse error comes back as its message.
pub fn parse_shapes(dialect: ParserDialect, sql: &str) -> (r: Result<Vec<ParsedStatement>, String>)
    ensures
        match r {
            Ok(v) => parse_outcome(dialect, sql@) == Ok::<nat, Seq<char>>(v@.len()) && shapes_of(v@)
                == named_shapes(dialect, sql@) && sqls_of(v@) == named_sqls(dialect, sql@),
            Err(e) => parse_outcome(dialect, sql@) == Err::<nat, Seq<char>>(e@),
        },
{
    let facts = parse_statement_facts(dialect, sql)?;
    let mut out: Vec<ParsedStatement> = Vec::new();
    let mut i: usize = 0;
    while i < facts.len()
        invariant
            i <= facts.len(),
            out@.len() == i,
            forall|j: int|
                0 <= j < i ==> (#[trigger] out@[j]).shape@ == facts_shape(facts@[j]@) && out@[j].sql@
                    == facts@[j]@.sql,
        decreases facts.len() - i,
    {
        out.push(parsed_statement(&facts[i]));
        i = i + 1;
    }
    assert(shapes_of(out@) =~= named_shapes(dialect, sql@));
    assert(sqls_of(out@) =~= named_sqls(dialect, sql@));
    Ok(out)
}

} // verus!
