//! Filtering DDL before it is sent for a schema comparison: only statements
//! that create, alter or drop schema objects pass; bodies of functions,
//! procedures and triggers never do.

use vstd::prelude::*;

use sqlparser::ast::Statement;

use crate::sql_parse::{
    facts_shape, named_shapes, named_sqls, parse_outcome, parse_shapes, shapes_of, sqls_of, statement_facts,
    statement_shape, ParsedStatement, ParserDialect, ShapeView, StatementFacts, StatementFactsView, StatementShape,
};
use crate::schema_prepare::SchemaDiffPreparationOptions;
use crate::schema_types::FunctionInfo;
use crate::text::{
    ascii_lower, ident_prefix, ascii_upper, concat, concat3, lemma_string_views_push, seq_contains, str_contains, str_eq,
    string_views, to_ascii_lowercase, to_ascii_uppercase,
};

verus! {

/// Whether a statement may pass, and if not, why.
#[derive(Debug, Clone)]
pub enum FilterAction {
    Allow,
    Deny(String),
}

/// A rule that decides which statements may pass.
pub trait AstFilter {
    fn filter_statement(&self, stmt: &Statement) -> FilterAction;
}

/// The statements of a batch that passed, and a line for each one that did not.
#[derive(Debug, Clone)]
pub struct FilterResult {
    pub allowed: Vec<String>,
    pub denied: Vec<String>,
}

/// The filter applied to DDL prepared for a schema comparison.
pub struct AstTransmitFilter;

/// The sqlparser dialect the filter parses a database's SQL with.
pub open spec fn filter_dialect_for(dialect: Seq<char>) -> ParserDialect {
    let d = ascii_lower(dialect);
    if d == "postgres"@ || d == "postgresql"@ {
        ParserDialect::Postgres
    } else if d == "mysql"@ || d == "mariadb"@ || d == "tidb"@ {
        ParserDialect::MySql
    } else if d == "sqlite"@ {
        ParserDialect::Sqlite
    } else if d == "sqlserver"@ || d == "mssql"@ {
        ParserDialect::MsSql
    } else if d == "clickhouse"@ {
        ParserDialect::ClickHouse
    } else if d == "duckdb"@ {
        ParserDialect::DuckDb
    } else {
        ParserDialect::Generic
    }
}

fn filter_dialect(dialect: &str) -> (r: ParserDialect)
    ensures
        r == filter_dialect_for(dialect@),
{
    let lower = to_ascii_lowercase(dialect);
    let d = lower.as_str();
    if str_eq(d, "postgres") || str_eq(d, "postgresql") {
        ParserDialect::Postgres
    } else if str_eq(d, "mysql") || str_eq(d, "mariadb") || str_eq(d, "tidb") {
        ParserDialect::MySql
    } else if str_eq(d, "sqlite") {
        ParserDialect::Sqlite
    } else if str_eq(d, "sqlserver") || str_eq(d, "mssql") {
        ParserDialect::MsSql
    } else if str_eq(d, "clickhouse") {
        ParserDialect::ClickHouse
    } else if str_eq(d, "duckdb") {
        ParserDialect::DuckDb
    } else {
        ParserDialect::Generic
    }
}

/// A function, procedure or trigger definition.
pub open spec fn is_body_definition(s: ShapeView) -> bool {
    s is CreateFunction || s is CreateProcedure || s is CreateTrigger
}

/// A statement that creates, alters or drops a table, view, index, schema or
/// sequence, or truncates a table.
pub open spec fn is_whitelisted(s: ShapeView) -> bool {
    ||| s is CreateTable
    ||| s is CreateView
    ||| s is CreateIndex
    ||| s is CreateSchema
    ||| s is CreateSequence
    ||| s is AlterTable
    ||| s is AlterIndex
    ||| s is AlterView
    ||| s is Drop
    ||| s is Truncate
}

/// Why a statement is refused, or nothing if it passes.
pub open spec fn deny_reason(s: ShapeView) -> Option<Seq<char>> {
    if is_body_definition(s) {
        Some("Function/procedure/trigger body not allowed in schema diff"@)
    } else if is_whitelisted(s) {
        None
    } else {
        Some("Statement type not in whitelist for schema diff"@)
    }
}

pub open spec fn action_view(a: FilterAction) -> Option<Seq<char>> {
    match a {
        FilterAction::Allow => None,
        FilterAction::Deny(r) => Some(r@),
    }
}

/// The printed text of each statement that passes, in order: `shapes` and
/// `sqls` go together, one per statement.
pub open spec fn allowed_sql(shapes: Seq<ShapeView>, sqls: Seq<Seq<char>>) -> Seq<Seq<char>>
    decreases shapes.len(),
{
    if shapes.len() == 0 {
        Seq::empty()
    } else {
        let rest = allowed_sql(shapes.drop_last(), sqls.subrange(0, shapes.len() - 1));
        match deny_reason(shapes.last()) {
            None => rest.push(sqls[shapes.len() - 1]),
            Some(_) => rest,
        }
    }
}

/// `Blocked: {reason} — {statement}` for each statement refused, in order.
pub open spec fn denied_lines(shapes: Seq<ShapeView>, sqls: Seq<Seq<char>>) -> Seq<Seq<char>>
    decreases shapes.len(),
{
    if shapes.len() == 0 {
        Seq::empty()
    } else {
        let rest = denied_lines(shapes.drop_last(), sqls.subrange(0, shapes.len() - 1));
        match deny_reason(shapes.last()) {
            None => rest,
            Some(reason) => rest.push("Blocked: "@ + reason + " — "@ + sqls[shapes.len() - 1]),
        }
    }
}

impl AstTransmitFilter {
    /// Decides on one statement from what was read of it.
    pub fn filter_shape(&self, shape: &StatementShape) -> (r: FilterAction)
        ensures
            action_view(r) == deny_reason(shape@),
    {
        match shape {
            StatementShape::CreateFunction | StatementShape::CreateProcedure | StatementShape::CreateTrigger => {
                FilterAction::Deny(String::from_str("Function/procedure/trigger body not allowed in schema diff"))
            },
            StatementShape::CreateTable { .. }
            | StatementShape::CreateView { .. }
            | StatementShape::CreateIndex { .. }
            | StatementShape::CreateSchema { .. }
            | StatementShape::CreateSequence { .. }
            | StatementShape::AlterTable { .. }
            | StatementShape::AlterIndex { .. }
            | StatementShape::AlterView { .. }
            | StatementShape::Drop { .. }
            | StatementShape::Truncate { .. } => FilterAction::Allow,
            _ => FilterAction::Deny(String::from_str("Statement type not in whitelist for schema diff")),
        }
    }

    /// Decides on one statement from the facts read off it.
    pub fn filter_facts(&self, facts: &StatementFacts) -> (r: FilterAction)
        ensures
            action_view(r) == deny_reason(facts_shape(facts@)),
    {
        let shape = statement_shape(facts);
        self.filter_shape(&shape)
    }

    /// Whether the statement defines a function, procedure or trigger body.
    fn is_dangerous_body_node(&self, stmt: &Statement) -> bool {
        let facts = statement_facts(stmt);
        let shape = statement_shape(&facts);
        match shape {
            StatementShape::CreateFunction | StatementShape::CreateProcedure | StatementShape::CreateTrigger => true,
            _ => false,
        }
    }

    /// Splits parsed statements into those that pass and those refused.
    pub fn filter_parsed(stmts: &Vec<ParsedStatement>) -> (r: FilterResult)
        ensures
            string_views(r.allowed@) == allowed_sql(shapes_of(stmts@), sqls_of(stmts@)),
            string_views(r.denied@) == denied_lines(shapes_of(stmts@), sqls_of(stmts@)),
    {
        let ghost shapes = shapes_of(stmts@);
        let ghost sqls = sqls_of(stmts@);
        let filter = AstTransmitFilter;
        let mut allowed: Vec<String> = Vec::new();
        let mut denied: Vec<String> = Vec::new();
        let mut i: usize = 0;
        while i < stmts.len()
            invariant
                i <= stmts.len(),
                shapes == shapes_of(stmts@),
                sqls == sqls_of(stmts@),
                string_views(allowed@) == allowed_sql(shapes.subrange(0, i as int), sqls.subrange(0, i as int)),
                string_views(denied@) == denied_lines(shapes.subrange(0, i as int), sqls.subrange(0, i as int)),
            decreases stmts.len() - i,
        {
            let ghost prefix = shapes.subrange(0, i + 1);
            assert(prefix.drop_last() =~= shapes.subrange(0, i as int));
            assert(sqls.subrange(0, i + 1).subrange(0, i as int) =~= sqls.subrange(0, i as int));
            assert(prefix.last() == stmts@[i as int].shape@);
            assert(sqls.subrange(0, i + 1)[i as int] == stmts@[i as int].sql@);
            match filter.filter_shape(&stmts[i].shape) {
                FilterAction::Allow => {
                    let line = stmts[i].sql.clone();
                    proof {
                        lemma_string_views_push(allowed@, line);
                    }
                    allowed.push(line);
                },
                FilterAction::Deny(reason) => {
                    let mut line = concat3("Blocked: ", reason.as_str(), " — ");
                    line.append(stmts[i].sql.as_str());
                    proof {
                        lemma_string_views_push(denied@, line);
                    }
                    denied.push(line);
                },
            }
            i = i + 1;
        }
        assert(shapes.subrange(0, stmts.len() as int) =~= shapes);
        assert(sqls.subrange(0, stmts.len() as int) =~= sqls);
        FilterResult { allowed, denied }
    }

    /// Parses `sql` in the given database's dialect and filters its statements.
    /// A parse failure is reported as `SQL parse error in AST filter: {error}`.
    pub fn filter_sql(sql: &str, dialect_str: &str) -> (r: Result<FilterResult, String>)
        ensures
            match parse_outcome(filter_dialect_for(dialect_str@), sql@) {
                Err(e) => r matches Err(m) && m@ == "SQL parse error in AST filter: "@ + e,
                Ok(_) => r matches Ok(res) && string_views(res.allowed@) == allowed_sql(
                    named_shapes(filter_dialect_for(dialect_str@), sql@),
                    named_sqls(filter_dialect_for(dialect_str@), sql@),
                ) && string_views(res.denied@) == denied_lines(
                    named_shapes(filter_dialect_for(dialect_str@), sql@),
                    named_sqls(filter_dialect_for(dialect_str@), sql@),
                ),
            },
    {
        let dialect = filter_dialect(dialect_str);
        match parse_shapes(dialect, sql) {
            Err(e) => Err(concat("SQL parse error in AST filter: ", e.as_str())),
            Ok(stmts) => {
                Ok(AstTransmitFilter::filter_parsed(&stmts))
            },
        }
    }
}

/// Whether an action is the whitelist's decision on some statement shape:
/// an allow, or a refusal with one of the filter's two reasons.
pub open spec fn is_filter_decision(a: FilterAction) -> bool {
    exists|s: ShapeView| #[trigger] deny_reason(s) == action_view(a)
}

impl AstFilter for AstTransmitFilter {
    /// Decides on a statement by the shape read of it: a routine or trigger
    /// body is refused, whitelisted DDL passes, anything else is refused.
    fn filter_statement(&self, stmt: &Statement) -> (r: FilterAction)
        ensures
            is_filter_decision(r),
    {
        if self.is_dangerous_body_node(stmt) {
            let r = FilterAction::Deny(String::from_str("Function/procedure/trigger body not allowed in schema diff"));
            assert(deny_reason(ShapeView::CreateFunction) == action_view(r));
            return r;
        }
        let facts = statement_facts(stmt);
        let r = self.filter_facts(&facts);
        assert(deny_reason(facts_shape(facts@)) == action_view(r));
        r
    }
}


/// A routine definition that could smuggle a body into a schema comparison:
/// one mentioning FUNCTION, PROCEDURE, TRIGGER, BEGIN, DECLARE or LANGUAGE
/// in any ASCII case.
pub open spec fn dangerous_definition(def: Seq<char>) -> bool {
    let u = ascii_upper(def);
    ||| seq_contains(u, "FUNCTION"@)
    ||| seq_contains(u, "PROCEDURE"@)
    ||| seq_contains(u, "TRIGGER"@)
    ||| seq_contains(u, "BEGIN"@)
    ||| seq_contains(u, "DECLARE"@)
    ||| seq_contains(u, "LANGUAGE"@)
}

/// The routines of `fs` whose definitions are not dangerous, in order.
pub open spec fn safe_functions(fs: Seq<FunctionInfo>) -> Seq<FunctionInfo>
    decreases fs.len(),
{
    if fs.len() == 0 {
        Seq::empty()
    } else if dangerous_definition(fs.last().definition@) {
        safe_functions(fs.drop_last())
    } else {
        safe_functions(fs.drop_last()).push(fs.last())
    }
}

impl AstTransmitFilter {
    /// Whether a routine's definition is dangerous.
    pub fn is_dangerous_function(f: &FunctionInfo) -> (r: bool)
        ensures
            r == dangerous_definition(f.definition@),
    {
        let upper = to_ascii_uppercase(f.definition.as_str());
        let u = upper.as_str();
        str_contains(u, "FUNCTION") || str_contains(u, "PROCEDURE") || str_contains(u, "TRIGGER") || str_contains(
            u,
            "BEGIN",
        ) || str_contains(u, "DECLARE") || str_contains(u, "LANGUAGE")
    }

    /// Keeps the routines whose definitions are not dangerous.
    pub fn retain_safe_functions(functions: Vec<FunctionInfo>) -> (r: Vec<FunctionInfo>)
        ensures
            r@ == safe_functions(functions@),
    {
        let mut out: Vec<FunctionInfo> = Vec::new();
        let mut i: usize = 0;
        while i < functions.len()
            invariant
                i <= functions.len(),
                out@ == safe_functions(functions@.subrange(0, i as int)),
            decreases functions.len() - i,
        {
            assert(functions@.subrange(0, i + 1).drop_last() =~= functions@.subrange(0, i as int));
            if !AstTransmitFilter::is_dangerous_function(&functions[i]) {
                out.push(functions[i].clone());
            }
            i = i + 1;
        }
        assert(functions@.subrange(0, functions.len() as int) =~= functions@);
        out
    }

    /// The comparison options with every dangerous routine left out on both
    /// sides; nothing else changes. The dialect plays no part.
    pub fn filter_diff_preparation_options(options: SchemaDiffPreparationOptions, _dialect: &str) -> (r:
        SchemaDiffPreparationOptions)
        ensures
            r == (SchemaDiffPreparationOptions {
                source_functions: r.source_functions,
                target_functions: r.target_functions,
                ..options
            }),
            r.source_functions@ == safe_functions(options.source_functions@),
            r.target_functions@ == safe_functions(options.target_functions@),
    {
        let mut filtered = options;
        let mut source: Vec<FunctionInfo> = Vec::new();
        let mut target: Vec<FunctionInfo> = Vec::new();
        std::mem::swap(&mut source, &mut filtered.source_functions);
        std::mem::swap(&mut target, &mut filtered.target_functions);
        filtered.source_functions = AstTransmitFilter::retain_safe_functions(source);
        filtered.target_functions = AstTransmitFilter::retain_safe_functions(target);
        filtered
    }
}


/// The filter lets through exactly the statements that create, alter or
/// drop a table, view, index, schema or sequence, or truncate a table, and
/// refuses function, procedure and trigger definitions as bodies.
pub proof fn law_filter_allows_schema_ddl(s: ShapeView)
    ensures
        (s is CreateTable || s is CreateView || s is CreateIndex || s is CreateSchema || s is CreateSequence
            || s is AlterTable || s is AlterIndex || s is AlterView || s is Drop || s is Truncate) <==> deny_reason(
            s,
        ) is None,
        (s is CreateFunction || s is CreateProcedure || s is CreateTrigger) ==> deny_reason(s) == Some(
            "Function/procedure/trigger body not allowed in schema diff"@,
        ),
{
}

/// Filtering a batch sends each statement to exactly one side: every
/// statement is either allowed or denied, and a batch of schema DDL alone
/// passes whole, in order, with nothing denied.
pub proof fn law_filtered_batch_is_split(shapes: Seq<ShapeView>, sqls: Seq<Seq<char>>)
    requires
        shapes.len() <= sqls.len(),
    ensures
        allowed_sql(shapes, sqls).len() + denied_lines(shapes, sqls).len() == shapes.len(),
        (forall|i: int| 0 <= i < shapes.len() ==> is_whitelisted(#[trigger] shapes[i])) ==> (allowed_sql(shapes, sqls)
            == sqls.subrange(0, shapes.len() as int) && denied_lines(shapes, sqls).len() == 0),
    decreases shapes.len(),
{
    if shapes.len() > 0 {
        let n = shapes.len() - 1;
        law_filtered_batch_is_split(shapes.drop_last(), sqls.subrange(0, n));
        assert(sqls.subrange(0, n).subrange(0, n) =~= sqls.subrange(0, n));
        law_filter_allows_schema_ddl(shapes.last());
        if forall|i: int| 0 <= i < shapes.len() ==> is_whitelisted(#[trigger] shapes[i]) {
            assert forall|i: int| 0 <= i < shapes.drop_last().len() implies is_whitelisted(
                #[trigger] shapes.drop_last()[i],
            ) by {
                assert(shapes.drop_last()[i] == shapes[i]);
            }
            assert(is_whitelisted(shapes[n]));
            assert(sqls.subrange(0, n).push(sqls[n]) =~= sqls.subrange(0, shapes.len() as int));
        }
    }
}


/// Whether a statement kind name is one the filter lets through.
pub open spec fn schema_ddl_kind_name(v: Seq<char>) -> bool {
    ||| v == "CreateTable"@
    ||| v == "CreateView"@
    ||| v == "CreateIndex"@
    ||| v == "CreateSchema"@
    ||| v == "CreateSequence"@
    ||| v == "AlterTable"@
    ||| v == "AlterIndex"@
    ||| v == "AlterView"@
    ||| v == "Drop"@
    ||| v == "Truncate"@
}

/// Read off a parsed statement: the filter lets a statement through exactly
/// when its kind is CREATE TABLE / VIEW / INDEX / SCHEMA / SEQUENCE, ALTER
/// TABLE / INDEX / VIEW, DROP or TRUNCATE.
pub proof fn law_filter_by_kind_name(f: StatementFactsView)
    ensures
        deny_reason(facts_shape(f)) is None <==> schema_ddl_kind_name(ident_prefix(f.debug)),
{
    let v = ident_prefix(f.debug);
    reveal_strlit("Query");
    reveal_strlit("Explain");
    reveal_strlit("ExplainTable");
    reveal_strlit("ShowTables");
    reveal_strlit("ShowColumns");
    reveal_strlit("ShowDatabases");
    reveal_strlit("ShowSchemas");
    reveal_strlit("ShowCreate");
    reveal_strlit("ShowVariables");
    reveal_strlit("ShowStatus");
    reveal_strlit("ShowProcessList");
    reveal_strlit("Insert");
    reveal_strlit("Update");
    reveal_strlit("Delete");
    reveal_strlit("Merge");
    reveal_strlit("CreateTable");
    reveal_strlit("CreateView");
    reveal_strlit("CreateIndex");
    reveal_strlit("CreateRole");
    reveal_strlit("CreateSchema");
    reveal_strlit("CreateSequence");
    reveal_strlit("CreateType");
    reveal_strlit("AlterTable");
    reveal_strlit("AlterIndex");
    reveal_strlit("AlterView");
    reveal_strlit("Drop");
    reveal_strlit("Truncate");
    if v == "CreateTable"@ {
        assert(v[0] == 'C' && v[6] == 'T');
        assert(facts_shape(f) is CreateTable);
    }
    if v == "CreateView"@ {
        assert(v[0] == 'C' && v[6] == 'V');
        assert(facts_shape(f) is CreateView);
    }
    if v == "CreateIndex"@ {
        assert(v[0] == 'C' && v[6] == 'I');
        assert(facts_shape(f) is CreateIndex);
    }
    if v == "CreateSchema"@ {
        assert(v[0] == 'C' && v[6] == 'S');
        assert(facts_shape(f) is CreateSchema);
    }
    if v == "CreateSequence"@ {
        assert(v[0] == 'C' && v[6] == 'S' && v[7] == 'e');
        assert(facts_shape(f) is CreateSequence);
    }
    if v == "AlterTable"@ {
        assert(v[0] == 'A' && v[5] == 'T');
        assert(facts_shape(f) is AlterTable);
    }
    if v == "AlterIndex"@ {
        assert(v[0] == 'A' && v[5] == 'I');
        assert(facts_shape(f) is AlterIndex);
    }
    if v == "AlterView"@ {
        assert(v[0] == 'A');
        assert(facts_shape(f) is AlterView);
    }
    if v == "Drop"@ {
        assert(v[0] == 'D' && v[1] == 'r');
        assert(facts_shape(f) is Drop);
    }
    if v == "Truncate"@ {
        assert(v[0] == 'T');
        assert(facts_shape(f) is Truncate);
    }
    if deny_reason(facts_shape(f)) is None {
        assert(schema_ddl_kind_name(v));
    }
    law_filter_allows_schema_ddl(facts_shape(f));
}

} // verus!
