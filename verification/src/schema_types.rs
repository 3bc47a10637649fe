//! Schema metadata as read from a database: tables, columns, indexes,
//! foreign keys, triggers, routines, sequences, rules, owners and grants.

use vstd::prelude::*;

use crate::text::string_views;

verus! {

/// The database products whose SQL the schema tools produce.
#[derive(Debug, Clone, Copy, PartialEq, Eq, Structural)]
pub enum DatabaseType {
    Mysql,
    Postgres,
    Sqlite,
    SqlServer,
    Oracle,
    H2,
    Doris,
    StarRocks,
    Goldendb,
    Sundb,
    Databend,
    Gbase,
    ClickHouse,
    DuckDb,
    Dameng,
}

/// Products that speak MySQL's dialect of DDL (backquoted names, `MODIFY COLUMN`).
pub open spec fn mysql_like(db: DatabaseType) -> bool {
    db is Mysql || db is Doris || db is StarRocks || db is Goldendb || db is Sundb || db is Databend || db is Gbase
}

/// Whether `db` speaks MySQL's dialect of DDL.
pub fn is_mysql_like(db: DatabaseType) -> (r: bool)
    ensures
        r == mysql_like(db),
{
    match db {
        DatabaseType::Mysql
        | DatabaseType::Doris
        | DatabaseType::StarRocks
        | DatabaseType::Goldendb
        | DatabaseType::Sundb
        | DatabaseType::Databend
        | DatabaseType::Gbase => true,
        _ => false,
    }
}

pub fn clone_opt(o: &Option<String>) -> (r: Option<String>)
    ensures
        r == *o,
{
    match o {
        Some(s) => Some(s.clone()),
        None => None,
    }
}

pub fn clone_strings(v: &Vec<String>) -> (r: Vec<String>)
    ensures
        r@ == v@,
{
    let mut out: Vec<String> = Vec::new();
    let mut i: usize = 0;
    while i < v.len()
        invariant
            i <= v.len(),
            out@ == v@.subrange(0, i as int),
        decreases v.len() - i,
    {
        out.push(v[i].clone());
        i = i + 1;
    }
    assert(v@.subrange(0, v.len() as int) =~= v@);
    out
}

/// A table or view.
#[derive(Debug)]
pub struct TableInfo {
    pub name: String,
    pub table_type: String,
    pub comment: Option<String>,
    pub parent_schema: Option<String>,
    pub parent_name: Option<String>,
}

impl Clone for TableInfo {
    fn clone(&self) -> (r: Self)
        ensures
            r == *self,
    {
        TableInfo {
            name: self.name.clone(),
            table_type: self.table_type.clone(),
            comment: clone_opt(&self.comment),
            parent_schema: clone_opt(&self.parent_schema),
            parent_name: clone_opt(&self.parent_name),
        }
    }
}

/// A column of a table.
#[derive(Debug)]
pub struct ColumnInfo {
    pub name: String,
    pub data_type: String,
    pub is_nullable: bool,
    pub column_default: Option<String>,
    pub is_primary_key: bool,
    pub extra: Option<String>,
    pub comment: Option<String>,
    pub numeric_precision: Option<i64>,
    pub numeric_scale: Option<i64>,
    pub character_maximum_length: Option<i64>,
}

impl Clone for ColumnInfo {
    fn clone(&self) -> (r: Self)
        ensures
            r == *self,
    {
        ColumnInfo {
            name: self.name.clone(),
            data_type: self.data_type.clone(),
            is_nullable: self.is_nullable,
            column_default: clone_opt(&self.column_default),
            is_primary_key: self.is_primary_key,
            extra: clone_opt(&self.extra),
            comment: clone_opt(&self.comment),
            numeric_precision: self.numeric_precision,
            numeric_scale: self.numeric_scale,
            character_maximum_length: self.character_maximum_length,
        }
    }
}

/// An index of a table.
#[derive(Debug)]
pub struct IndexInfo {
    pub name: String,
    pub columns: Vec<String>,
    pub is_unique: bool,
    pub is_primary: bool,
    pub filter: Option<String>,
    pub index_type: Option<String>,
    pub included_columns: Option<Vec<String>>,
    pub comment: Option<String>,
}

/// An index as plain values.
pub struct IndexView {
    pub name: Seq<char>,
    pub columns: Seq<Seq<char>>,
    pub is_unique: bool,
    pub is_primary: bool,
    pub filter: Option<Seq<char>>,
    pub index_type: Option<Seq<char>>,
    pub included_columns: Option<Seq<Seq<char>>>,
    pub comment: Option<Seq<char>>,
}

pub open spec fn opt_text(o: Option<String>) -> Option<Seq<char>> {
    match o {
        Some(s) => Some(s@),
        None => None,
    }
}

pub open spec fn opt_texts(o: Option<Vec<String>>) -> Option<Seq<Seq<char>>> {
    match o {
        Some(v) => Some(string_views(v@)),
        None => None,
    }
}

impl View for IndexInfo {
    type V = IndexView;

    open spec fn view(&self) -> IndexView {
        IndexView {
            name: self.name@,
            columns: string_views(self.columns@),
            is_unique: self.is_unique,
            is_primary: self.is_primary,
            filter: opt_text(self.filter),
            index_type: opt_text(self.index_type),
            included_columns: opt_texts(self.included_columns),
            comment: opt_text(self.comment),
        }
    }
}

impl Clone for IndexInfo {
    fn clone(&self) -> (r: Self)
        ensures
            r@ == self@,
    {
        let included = match &self.included_columns {
            Some(v) => Some(clone_strings(v)),
            None => None,
        };
        IndexInfo {
            name: self.name.clone(),
            columns: clone_strings(&self.columns),
            is_unique: self.is_unique,
            is_primary: self.is_primary,
            filter: clone_opt(&self.filter),
            index_type: clone_opt(&self.index_type),
            included_columns: included,
            comment: clone_opt(&self.comment),
        }
    }
}

/// A foreign key of a table.
#[derive(Debug)]
pub struct ForeignKeyInfo {
    pub name: String,
    pub column: String,
    pub ref_schema: Option<String>,
    pub ref_table: String,
    pub ref_column: String,
    pub on_update: Option<String>,
    pub on_delete: Option<String>,
}

impl Clone for ForeignKeyInfo {
    fn clone(&self) -> (r: Self)
        ensures
            r == *self,
    {
        ForeignKeyInfo {
            name: self.name.clone(),
            column: self.column.clone(),
            ref_schema: clone_opt(&self.ref_schema),
            ref_table: self.ref_table.clone(),
            ref_column: self.ref_column.clone(),
            on_update: clone_opt(&self.on_update),
            on_delete: clone_opt(&self.on_delete),
        }
    }
}

/// A trigger of a table.
#[derive(Debug)]
pub struct TriggerInfo {
    pub name: String,
    pub event: String,
    pub timing: String,
}

impl Clone for TriggerInfo {
    fn clone(&self) -> (r: Self)
        ensures
            r == *self,
    {
        TriggerInfo { name: self.name.clone(), event: self.event.clone(), timing: self.timing.clone() }
    }
}

/// A function or procedure.
#[derive(Debug)]
pub struct FunctionInfo {
    pub name: String,
    pub definition: String,
    pub function_type: String,
    pub data_type: String,
    pub arguments: String,
}

impl Clone for FunctionInfo {
    fn clone(&self) -> (r: Self)
        ensures
            r == *self,
    {
        FunctionInfo {
            name: self.name.clone(),
            definition: self.definition.clone(),
            function_type: self.function_type.clone(),
            data_type: self.data_type.clone(),
            arguments: self.arguments.clone(),
        }
    }
}

/// A sequence; its numbers as the database prints them.
#[derive(Debug)]
pub struct SequenceInfo {
    pub name: String,
    pub data_type: String,
    pub start_value: String,
    pub min_value: String,
    pub max_value: String,
    pub increment: String,
    pub cycle: bool,
    pub last_value: Option<String>,
}

impl Clone for SequenceInfo {
    fn clone(&self) -> (r: Self)
        ensures
            r == *self,
    {
        SequenceInfo {
            name: self.name.clone(),
            data_type: self.data_type.clone(),
            start_value: self.start_value.clone(),
            min_value: self.min_value.clone(),
            max_value: self.max_value.clone(),
            increment: self.increment.clone(),
            cycle: self.cycle,
            last_value: clone_opt(&self.last_value),
        }
    }
}

/// A rewrite rule on a table.
#[derive(Debug)]
pub struct RuleInfo {
    pub name: String,
    pub table_name: String,
    pub definition: String,
}

impl Clone for RuleInfo {
    fn clone(&self) -> (r: Self)
        ensures
            r == *self,
    {
        RuleInfo { name: self.name.clone(), table_name: self.table_name.clone(), definition: self.definition.clone() }
    }
}

/// The owner of a schema object.
#[derive(Debug)]
pub struct OwnerInfo {
    pub object_name: String,
    pub object_type: String,
    pub owner: String,
}

impl Clone for OwnerInfo {
    fn clone(&self) -> (r: Self)
        ensures
            r == *self,
    {
        OwnerInfo {
            object_name: self.object_name.clone(),
            object_type: self.object_type.clone(),
            owner: self.owner.clone(),
        }
    }
}

/// A privilege granted on an object.
#[derive(Debug)]
pub struct PermissionInfo {
    pub grantee: String,
    pub object_type: String,
    pub object_name: String,
    pub privilege: String,
    pub is_grantable: bool,
}

impl Clone for PermissionInfo {
    fn clone(&self) -> (r: Self)
        ensures
            r == *self,
    {
        PermissionInfo {
            grantee: self.grantee.clone(),
            object_type: self.object_type.clone(),
            object_name: self.object_name.clone(),
            privilege: self.privilege.clone(),
            is_grantable: self.is_grantable,
        }
    }
}

} // verus!
