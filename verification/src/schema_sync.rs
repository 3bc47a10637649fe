//! The SQL script that brings a target schema in line with a source schema.

use vstd::prelude::*;

use crate::schema_diff::{
    is_white_space, is_white_space_exec, lemma_prefix_step, lemma_views_push, line_if, opt_views, or_text, views_of, ColumnDiff, ForeignKeyDiff, FunctionDiff, IndexDiff, ItemDiff, TriggerDiff, opt_opt_text, OwnerDiff,
    RuleDiff, SequenceDiff, TableDiff, TableDiffView,
};
use crate::schema_sql::{
    add_foreign_key_sql, add_foreign_key_text, column_comment_sql, column_comment_text, comment_literal, comment_text,
    create_index_sql, create_index_text, drop_foreign_key_sql, drop_foreign_key_text, drop_index_sql, drop_index_text,
    table_comment_sql, table_comment_text, doubled, double_char, opt_str, qualified, qualified_name, quote_id, quoted_id,
};
use crate::schema_rollback::{node_tables, RollbackGraph};
use crate::schema_types::{
    is_mysql_like, mysql_like, opt_text, ColumnInfo, DatabaseType, ForeignKeyInfo, FunctionInfo, IndexView, OwnerInfo,
    RuleInfo, SequenceInfo, TriggerInfo,
};
use crate::text::{
    chars_of, concat, concat3, join_seq, join_strings, lemma_string_views_push, push_char, seq_starts_with,
    str_eq, str_starts_with, string_views, to_lowercase, unicode_lowercase,
};

verus! {

/// A column as written in `ADD`, `MODIFY` or `CHANGE COLUMN`: name and type,
/// `NOT NULL` when not nullable, the default if any, and (MySQL-like only)
/// the comment if any.
pub open spec fn column_def_text(c: ColumnInfo, db: DatabaseType) -> Seq<char> {
    quoted_id(c.name@, db) + " "@ + c.data_type@ + (if !c.is_nullable {
        " NOT NULL"@
    } else {
        Seq::empty()
    }) + match c.column_default {
        Some(d) => " DEFAULT "@ + d@,
        None => Seq::empty(),
    } + (if mysql_like(db) {
        match c.comment {
            Some(cm) => " COMMENT "@ + comment_text(cm@),
            None => Seq::empty(),
        }
    } else {
        Seq::empty()
    })
}

/// Writes a column definition.
pub fn column_def(c: &ColumnInfo, db: DatabaseType) -> (r: String)
    ensures
        r@ == column_def_text(*c, db),
{
    let q = quote_id(c.name.as_str(), db);
    let mut r = concat3(q.as_str(), " ", c.data_type.as_str());
    let ghost base = r@;
    if !c.is_nullable {
        r.append(" NOT NULL");
    }
    let ghost with_null = r@;
    match &c.column_default {
        Some(d) => {
            r.append(" DEFAULT ");
            r.append(d.as_str());
        },
        None => {},
    }
    let ghost with_default = r@;
    if is_mysql_like(db) {
        match &c.comment {
            Some(cm) => {
                let lit = comment_literal(cm.as_str());
                r.append(" COMMENT ");
                r.append(lit.as_str());
            },
            None => {},
        }
    }
    proof {
        assert(with_null =~= base + (if !c.is_nullable {
            " NOT NULL"@
        } else {
            Seq::empty()
        }));
        assert(with_default =~= with_null + match c.column_default {
            Some(d) => " DEFAULT "@ + d@,
            None => Seq::empty(),
        });
        assert(r@ =~= with_default + (if mysql_like(db) {
            match c.comment {
                Some(cm) => " COMMENT "@ + comment_text(cm@),
                None => Seq::empty(),
            }
        } else {
            Seq::empty()
        }));
    }
    r
}

/// ` CASCADE` when dropping cascades, else nothing.
pub open spec fn cascade_text(cascade: bool) -> Seq<char> {
    if cascade {
        " CASCADE"@
    } else {
        Seq::empty()
    }
}

/// `VIEW` for a view, `TABLE` otherwise.
pub open spec fn object_keyword(object_type: Option<Seq<char>>) -> Seq<char> {
    if object_type == Some("view"@) {
        "VIEW"@
    } else {
        "TABLE"@
    }
}

/// The statement dropping a table or view.
pub open spec fn drop_object_text(d: TableDiffView, db: DatabaseType, schema: Option<Seq<char>>, cascade: bool) -> Seq<char> {
    "DROP "@ + object_keyword(d.object_type) + " IF EXISTS "@ + qualified(d.name, db, schema) + cascade_text(cascade)
        + ";"@
}

fn cascade_str(cascade: bool) -> (r: &'static str)
    ensures
        r@ == cascade_text(cascade),
{
    proof {
        reveal_strlit("");
    }
    if cascade {
        " CASCADE"
    } else {
        ""
    }
}

fn is_view(o: &Option<String>) -> (r: bool)
    ensures
        r == (opt_text(*o) == Some("view"@)),
{
    match o {
        Some(s) => str_eq(s.as_str(), "view"),
        None => false,
    }
}

/// Builds the statement dropping a table or view.
pub fn drop_object_sql(d: &TableDiff, db: DatabaseType, schema: Option<&str>, cascade: bool) -> (r: String)
    ensures
        r@ == drop_object_text(d@, db, opt_str(schema), cascade),
{
    let kw = if is_view(&d.object_type) {
        "VIEW"
    } else {
        "TABLE"
    };
    let q = qualified_name(d.name.as_str(), db, schema);
    let mut r = concat3("DROP ", kw, " IF EXISTS ");
    r.append(q.as_str());
    r.append(cascade_str(cascade));
    r.append(";");
    r
}

/// `s` without the white space at either end.
pub open spec fn trimmed(s: Seq<char>) -> Seq<char>
    decreases s.len(),
{
    if s.len() == 0 {
        s
    } else if is_white_space(s[0]) {
        trimmed(s.drop_first())
    } else if is_white_space(s.last()) {
        trimmed(s.drop_last())
    } else {
        s
    }
}

/// A trimmed text neither starts nor ends with white space, and trimming it
/// again changes nothing; so no script begins or ends with white space.
pub proof fn law_trimmed_text_has_no_outer_white_space(s: Seq<char>)
    ensures
        trimmed(s).len() > 0 ==> !is_white_space(trimmed(s)[0]) && !is_white_space(trimmed(s).last()),
        trimmed(trimmed(s)) == trimmed(s),
    decreases s.len(),
{
    if s.len() > 0 {
        if is_white_space(s[0]) {
            law_trimmed_text_has_no_outer_white_space(s.drop_first());
        } else if is_white_space(s.last()) {
            law_trimmed_text_has_no_outer_white_space(s.drop_last());
        }
    }
}

/// The text between the first and the last character that is not white space.
pub fn trim(s: &str) -> (r: String)
    ensures
        r@ == trimmed(s@),
{
    let cs = chars_of(s);
    let mut a: usize = 0;
    let mut b: usize = cs.len();
    assert(s@.subrange(0, s@.len() as int) =~= s@);
    while a < b && (is_white_space_exec(cs[a]) || is_white_space_exec(cs[b - 1]))
        invariant
            a <= b <= cs.len(),
            cs@ == s@,
            trimmed(s@) == trimmed(s@.subrange(a as int, b as int)),
        decreases b - a,
    {
        let ghost mid = s@.subrange(a as int, b as int);
        if is_white_space_exec(cs[a]) {
            assert(mid[0] == cs@[a as int]);
            assert(mid.drop_first() =~= s@.subrange(a + 1, b as int));
            a = a + 1;
        } else {
            assert(mid[0] == cs@[a as int]);
            assert(mid.last() == cs@[b - 1]);
            assert(mid.drop_last() =~= s@.subrange(a as int, b - 1));
            b = b - 1;
        }
    }
    proof {
        assert(s@.subrange(0, s@.len() as int) =~= s@);
        let mid = s@.subrange(a as int, b as int);
        if a < b {
            assert(mid[0] == cs@[a as int]);
            assert(mid.last() == cs@[b - 1]);
        }
    }
    let mut r = String::new();
    let mut i = a;
    while i < b
        invariant
            a <= i <= b,
            b <= cs.len(),
            cs@ == s@,
            r@ == s@.subrange(a as int, i as int),
        decreases b - i,
    {
        push_char(&mut r, cs[i]);
        assert(r@ =~= s@.subrange(a as int, i + 1));
        i = i + 1;
    }
    r
}


/// Whether some change line does (`starting`) or does not begin with `prefix`.
pub open spec fn some_change(changes: Seq<Seq<char>>, prefix: Seq<char>, starting: bool) -> bool {
    exists|k: int| 0 <= k < changes.len() && seq_starts_with(#[trigger] changes[k], prefix) == starting
}

fn has_change(changes: &Vec<String>, prefix: &str, starting: bool) -> (r: bool)
    ensures
        r == some_change(string_views(changes@), prefix@, starting),
{
    let ghost cv = string_views(changes@);
    let mut i: usize = 0;
    while i < changes.len()
        invariant
            i <= changes.len(),
            cv == string_views(changes@),
            forall|k: int| 0 <= k < i ==> seq_starts_with(#[trigger] cv[k], prefix@) != starting,
        decreases changes.len() - i,
    {
        assert(cv[i as int] == changes@[i as int]@);
        if str_starts_with(changes[i].as_str(), prefix) == starting {
            return true;
        }
        i = i + 1;
    }
    false
}

fn push_line(v: &mut Vec<String>, line: String)
    ensures
        string_views(final(v)@) == string_views(old(v)@).push(line@),
{
    proof {
        lemma_string_views_push(v@, line);
    }
    v.push(line);
}

/// ` DROP NOT NULL` for a nullable column, ` SET NOT NULL` otherwise.
pub open spec fn null_action(nullable: bool) -> Seq<char> {
    if nullable {
        " DROP NOT NULL"@
    } else {
        " SET NOT NULL"@
    }
}

fn null_action_str(nullable: bool) -> (r: &'static str)
    ensures
        r@ == null_action(nullable),
{
    if nullable {
        " DROP NOT NULL"
    } else {
        " SET NOT NULL"
    }
}

/// The `ALTER TABLE` parts for a column changed in place. MySQL-like products
/// restate the whole column unless only its position changed; others alter
/// the type, the nullability and the default, each where a change names it.
pub open spec fn modified_column_parts(c: ItemDiff<ColumnInfo>, s: ColumnInfo, db: DatabaseType) -> Seq<Seq<char>> {
    let n = quoted_id(c.name, db);
    if mysql_like(db) {
        line_if(some_change(c.changes, "order:"@, false), "  MODIFY COLUMN "@ + column_def_text(s, db))
    } else {
        line_if(some_change(c.changes, "type:"@, true), "  ALTER COLUMN "@ + n + " TYPE "@ + s.data_type@)
            + line_if(some_change(c.changes, "nullable:"@, true), "  ALTER COLUMN "@ + n + null_action(s.is_nullable))
            + line_if(
            some_change(c.changes, "default:"@, true),
            "  ALTER COLUMN "@ + n + match s.column_default {
                Some(d) => " SET DEFAULT "@ + d@,
                None => " DROP DEFAULT"@,
            },
        )
    }
}

fn push_modified_parts(parts: &mut Vec<String>, c: &ColumnDiff, s: &ColumnInfo, db: DatabaseType)
    ensures
        string_views(final(parts)@) == string_views(old(parts)@) + modified_column_parts(c@, *s, db),
{
    let ghost before = string_views(parts@);
    let n = quote_id(c.name.as_str(), db);
    if is_mysql_like(db) {
        if has_change(&c.changes, "order:", false) {
            let def = column_def(s, db);
            push_line(parts, concat("  MODIFY COLUMN ", def.as_str()));
        }
        assert(string_views(parts@) =~= before + modified_column_parts(c@, *s, db));
    } else {
        let typed = has_change(&c.changes, "type:", true);
        if typed {
            let mut l = concat3("  ALTER COLUMN ", n.as_str(), " TYPE ");
            l.append(s.data_type.as_str());
            push_line(parts, l);
        }
        let ghost mid1 = string_views(parts@);
        assert(mid1 =~= before + line_if(typed, "  ALTER COLUMN "@ + n@ + " TYPE "@ + s.data_type@));
        let nulled = has_change(&c.changes, "nullable:", true);
        if nulled {
            push_line(parts, concat3("  ALTER COLUMN ", n.as_str(), null_action_str(s.is_nullable)));
        }
        let ghost mid2 = string_views(parts@);
        assert(mid2 =~= mid1 + line_if(nulled, "  ALTER COLUMN "@ + n@ + null_action(s.is_nullable)));
        let defaulted = has_change(&c.changes, "default:", true);
        if defaulted {
            let l = match &s.column_default {
                Some(d) => {
                    let mut l = concat3("  ALTER COLUMN ", n.as_str(), " SET DEFAULT ");
                    l.append(d.as_str());
                    assert(l@ =~= "  ALTER COLUMN "@ + n@ + (" SET DEFAULT "@ + d@));
                    l
                },
                None => concat3("  ALTER COLUMN ", n.as_str(), " DROP DEFAULT"),
            };
            push_line(parts, l);
        }
        assert(string_views(parts@) =~= mid2 + line_if(
            defaulted,
            "  ALTER COLUMN "@ + n@ + match s.column_default {
                Some(d) => " SET DEFAULT "@ + d@,
                None => " DROP DEFAULT"@,
            },
        ));
        assert(string_views(parts@) =~= before + modified_column_parts(c@, *s, db));
    }
}

/// For a product other than the MySQL-like ones, a column whose changes
/// record a nullability change gets the statement that gives the target
/// column the source column's nullability: `SET NOT NULL` when the source
/// column is not nullable, `DROP NOT NULL` when it is.
pub proof fn law_nullability_follows_source(c: ItemDiff<ColumnInfo>, s: ColumnInfo, db: DatabaseType)
    requires
        !mysql_like(db),
        some_change(c.changes, "nullable:"@, true),
    ensures
        !s.is_nullable ==> modified_column_parts(c, s, db).contains(
            "  ALTER COLUMN "@ + quoted_id(c.name, db) + " SET NOT NULL"@,
        ),
        s.is_nullable ==> modified_column_parts(c, s, db).contains(
            "  ALTER COLUMN "@ + quoted_id(c.name, db) + " DROP NOT NULL"@,
        ),
{
    let n = quoted_id(c.name, db);
    let a = line_if(some_change(c.changes, "type:"@, true), "  ALTER COLUMN "@ + n + " TYPE "@ + s.data_type@);
    let line = "  ALTER COLUMN "@ + n + null_action(s.is_nullable);
    let parts = modified_column_parts(c, s, db);
    assert(parts[a.len() as int] == line);
}

/// For a product other than the MySQL-like ones, a column whose changes
/// record a type change gets the statement giving it the source type, and
/// one whose changes record a default change gets the statement giving it
/// the source default (`SET DEFAULT`, or `DROP DEFAULT` when the source has
/// none).
pub proof fn law_type_and_default_follow_source(c: ItemDiff<ColumnInfo>, s: ColumnInfo, db: DatabaseType)
    requires
        !mysql_like(db),
    ensures
        some_change(c.changes, "type:"@, true) ==> modified_column_parts(c, s, db).contains(
            "  ALTER COLUMN "@ + quoted_id(c.name, db) + " TYPE "@ + s.data_type@,
        ),
        some_change(c.changes, "default:"@, true) && s.column_default is Some ==> modified_column_parts(
            c,
            s,
            db,
        ).contains("  ALTER COLUMN "@ + quoted_id(c.name, db) + " SET DEFAULT "@ + s.column_default.unwrap()@),
        some_change(c.changes, "default:"@, true) && s.column_default is None ==> modified_column_parts(
            c,
            s,
            db,
        ).contains("  ALTER COLUMN "@ + quoted_id(c.name, db) + " DROP DEFAULT"@),
{
    let n = quoted_id(c.name, db);
    let a = line_if(some_change(c.changes, "type:"@, true), "  ALTER COLUMN "@ + n + " TYPE "@ + s.data_type@);
    let b = line_if(some_change(c.changes, "nullable:"@, true), "  ALTER COLUMN "@ + n + null_action(s.is_nullable));
    let parts = modified_column_parts(c, s, db);
    if some_change(c.changes, "type:"@, true) {
        assert(parts[0] == a[0]);
    }
    if some_change(c.changes, "default:"@, true) {
        assert(parts[(a.len() + b.len()) as int] == "  ALTER COLUMN "@ + n + match s.column_default {
            Some(d) => " SET DEFAULT "@ + d@,
            None => " DROP DEFAULT"@,
        });
        if let Some(d) = s.column_default {
            assert("  ALTER COLUMN "@ + n + (" SET DEFAULT "@ + d@) =~= "  ALTER COLUMN "@ + n + " SET DEFAULT "@ + d@);
        }
    }
}

/// When a renamed PostgreSQL column's nullability differs between source
/// and target, the rename is followed by the statement that gives it the
/// source column's nullability.
pub proof fn law_renamed_nullability_follows_source(
    c: ItemDiff<ColumnInfo>,
    s: ColumnInfo,
    t: ColumnInfo,
    table: Seq<char>,
    schema: Option<Seq<char>>,
)
    requires
        s.is_nullable != t.is_nullable,
    ensures
        !s.is_nullable ==> renamed_column_parts(c, s, t, table, DatabaseType::Postgres, schema).contains(
            "  ALTER COLUMN "@ + quoted_id(c.name, DatabaseType::Postgres) + " SET NOT NULL"@,
        ),
        s.is_nullable ==> renamed_column_parts(c, s, t, table, DatabaseType::Postgres, schema).contains(
            "  ALTER COLUMN "@ + quoted_id(c.name, DatabaseType::Postgres) + " DROP NOT NULL"@,
        ),
{
    let db = DatabaseType::Postgres;
    let old_name = quoted_id(t.name@, db);
    let new_name = quoted_id(c.name, db);
    let retyped = unicode_lowercase(s.data_type@) != unicode_lowercase(t.data_type@);
    let first = seq!["  RENAME COLUMN "@ + old_name + " TO "@ + new_name] + line_if(
        retyped,
        "  ALTER COLUMN "@ + new_name + " TYPE "@ + s.data_type@,
    );
    let parts = renamed_column_parts(c, s, t, table, db, schema);
    assert(!mysql_like(db));
    assert(parts[first.len() as int] == "  ALTER COLUMN "@ + new_name + null_action(s.is_nullable));
}

/// The `ALTER TABLE` parts renaming a column from its target name `t` to its
/// source name, in the form each product takes, with a type or nullability
/// change where the product's form does not restate the column.
pub open spec fn renamed_column_parts(
    c: ItemDiff<ColumnInfo>,
    s: ColumnInfo,
    t: ColumnInfo,
    table: Seq<char>,
    db: DatabaseType,
    schema: Option<Seq<char>>,
) -> Seq<Seq<char>> {
    let old_name = quoted_id(t.name@, db);
    let new_name = quoted_id(c.name, db);
    let retyped = unicode_lowercase(s.data_type@) != unicode_lowercase(t.data_type@);
    if mysql_like(db) {
        seq!["  CHANGE COLUMN "@ + old_name + " "@ + column_def_text(s, db)]
    } else if db is Postgres {
        seq!["  RENAME COLUMN "@ + old_name + " TO "@ + new_name]
            + line_if(retyped, "  ALTER COLUMN "@ + new_name + " TYPE "@ + s.data_type@)
            + line_if(s.is_nullable != t.is_nullable, "  ALTER COLUMN "@ + new_name + null_action(s.is_nullable))
    } else if db is H2 {
        seq!["  ALTER COLUMN "@ + old_name + " RENAME TO "@ + new_name]
            + line_if(retyped, "  ALTER COLUMN "@ + new_name + " SET DATA TYPE "@ + s.data_type@)
    } else if db is SqlServer {
        seq![
            "  EXEC sp_rename '"@ + doubled(qualified(table, db, schema) + "."@ + old_name, '\'') + "', '"@
                + doubled(c.name, '\'') + "', 'COLUMN';"@,
        ]
    } else {
        seq!["  RENAME COLUMN "@ + old_name + " TO "@ + new_name]
    }
}

fn push_renamed_parts(
    parts: &mut Vec<String>,
    c: &ColumnDiff,
    s: &ColumnInfo,
    t: &ColumnInfo,
    table_name: &str,
    db: DatabaseType,
    schema: Option<&str>,
)
    ensures
        string_views(final(parts)@) == string_views(old(parts)@) + renamed_column_parts(
            c@,
            *s,
            *t,
            table_name@,
            db,
            opt_str(schema),
        ),
{
    let ghost before = string_views(parts@);
    let old_name = quote_id(t.name.as_str(), db);
    let new_name = quote_id(c.name.as_str(), db);
    if is_mysql_like(db) {
        let def = column_def(s, db);
        let mut l = concat3("  CHANGE COLUMN ", old_name.as_str(), " ");
        l.append(def.as_str());
        push_line(parts, l);
        assert(string_views(parts@) =~= before + renamed_column_parts(c@, *s, *t, table_name@, db, opt_str(schema)));
        return;
    }
    if db == DatabaseType::SqlServer {
        let table = qualified_name(table_name, db, schema);
        let path = concat3(table.as_str(), ".", old_name.as_str());
        let path_lit = double_char(path.as_str(), '\'');
        let name_lit = double_char(c.name.as_str(), '\'');
        let mut l = concat3("  EXEC sp_rename '", path_lit.as_str(), "', '");
        l.append(name_lit.as_str());
        l.append("', 'COLUMN';");
        push_line(parts, l);
        assert(string_views(parts@) =~= before + renamed_column_parts(c@, *s, *t, table_name@, db, opt_str(schema)));
        return;
    }
    if db == DatabaseType::H2 {
        let mut l = concat3("  ALTER COLUMN ", old_name.as_str(), " RENAME TO ");
        l.append(new_name.as_str());
        push_line(parts, l);
    } else {
        let mut l = concat3("  RENAME COLUMN ", old_name.as_str(), " TO ");
        l.append(new_name.as_str());
        push_line(parts, l);
    }
    let ghost mid = string_views(parts@);
    if db == DatabaseType::Postgres || db == DatabaseType::H2 {
        let sl = to_lowercase(s.data_type.as_str());
        let tl = to_lowercase(t.data_type.as_str());
        let retyped = !str_eq(sl.as_str(), tl.as_str());
        if retyped {
            let kw = if db == DatabaseType::H2 {
                " SET DATA TYPE "
            } else {
                " TYPE "
            };
            let mut l = concat3("  ALTER COLUMN ", new_name.as_str(), kw);
            l.append(s.data_type.as_str());
            push_line(parts, l);
        }
        let ghost mid2 = string_views(parts@);
        if db == DatabaseType::Postgres && s.is_nullable != t.is_nullable {
            push_line(parts, concat3("  ALTER COLUMN ", new_name.as_str(), null_action_str(s.is_nullable)));
        }
        proof {
            if db is Postgres {
                assert(mid2 =~= mid + line_if(retyped, "  ALTER COLUMN "@ + new_name@ + " TYPE "@ + s.data_type@));
            } else {
                assert(mid2 =~= mid + line_if(retyped, "  ALTER COLUMN "@ + new_name@ + " SET DATA TYPE "@ + s.data_type@));
            }
        }
    }
    assert(string_views(parts@) =~= before + renamed_column_parts(c@, *s, *t, table_name@, db, opt_str(schema)));
}

/// The `ALTER TABLE` parts for one column difference.
pub open spec fn column_parts(
    c: ItemDiff<ColumnInfo>,
    table: Seq<char>,
    db: DatabaseType,
    schema: Option<Seq<char>>,
) -> Seq<Seq<char>> {
    if c.diff_type == "added"@ {
        match c.source {
            Some(s) => seq!["  ADD COLUMN "@ + column_def_text(s, db)],
            None => Seq::empty(),
        }
    } else if c.diff_type == "removed"@ {
        seq!["  DROP COLUMN "@ + quoted_id(c.name, db)]
    } else if c.diff_type == "modified"@ {
        match c.source {
            Some(s) => modified_column_parts(c, s, db),
            None => Seq::empty(),
        }
    } else if c.diff_type == "renamed"@ {
        match (c.source, c.target) {
            (Some(s), Some(t)) => renamed_column_parts(c, s, t, table, db, schema),
            _ => Seq::empty(),
        }
    } else {
        Seq::empty()
    }
}

fn push_column_parts(parts: &mut Vec<String>, c: &ColumnDiff, table_name: &str, db: DatabaseType, schema: Option<&str>)
    ensures
        string_views(final(parts)@) == string_views(old(parts)@) + column_parts(c@, table_name@, db, opt_str(schema)),
{
    let ghost before = string_views(parts@);
    if str_eq(c.diff_type.as_str(), "added") {
        if let Some(s) = &c.source {
            let def = column_def(s, db);
            push_line(parts, concat("  ADD COLUMN ", def.as_str()));
        }
    } else if str_eq(c.diff_type.as_str(), "removed") {
        let n = quote_id(c.name.as_str(), db);
        push_line(parts, concat("  DROP COLUMN ", n.as_str()));
    } else if str_eq(c.diff_type.as_str(), "modified") {
        if let Some(s) = &c.source {
            push_modified_parts(parts, c, s, db);
        }
    } else if str_eq(c.diff_type.as_str(), "renamed") {
        match (&c.source, &c.target) {
            (Some(s), Some(t)) => push_renamed_parts(parts, c, s, t, table_name, db, schema),
            _ => {},
        }
    }
    assert(string_views(parts@) =~= before + column_parts(c@, table_name@, db, opt_str(schema)));
}


/// The lines that `f` gives for each item, one item after another.
pub open spec fn lines_of<T>(items: Seq<T>, f: spec_fn(T) -> Seq<Seq<char>>) -> Seq<Seq<char>>
    decreases items.len(),
{
    if items.len() == 0 {
        Seq::empty()
    } else {
        lines_of(items.drop_last(), f) + f(items.last())
    }
}

/// The lines that `f` gives for each item of a list that may be missing.
pub open spec fn opt_lines_of<T>(items: Option<Seq<T>>, f: spec_fn(T) -> Seq<Seq<char>>) -> Seq<Seq<char>> {
    match items {
        Some(xs) => lines_of(xs, f),
        None => Seq::empty(),
    }
}

proof fn lemma_lines_of_step<T>(items: Seq<T>, i: int, f: spec_fn(T) -> Seq<Seq<char>>)
    requires
        0 <= i < items.len(),
    ensures
        lines_of(items.subrange(0, i + 1), f) == lines_of(items.subrange(0, i), f) + f(items[i]),
{
    lemma_prefix_step(items, i);
}

/// [`column_parts`] as a function of the column difference.
pub open spec fn column_parts_fn(table: Seq<char>, db: DatabaseType, schema: Option<Seq<char>>) -> spec_fn(
    ItemDiff<ColumnInfo>,
) -> Seq<Seq<char>> {
    |c: ItemDiff<ColumnInfo>| column_parts(c, table, db, schema)
}

fn push_all_column_parts(
    parts: &mut Vec<String>,
    cols: &Vec<ColumnDiff>,
    table_name: &str,
    db: DatabaseType,
    schema: Option<&str>,
)
    ensures
        string_views(final(parts)@) == string_views(old(parts)@) + lines_of(
            views_of(cols@),
            column_parts_fn(table_name@, db, opt_str(schema)),
        ),
{
    let ghost before = string_views(parts@);
    let ghost f = column_parts_fn(table_name@, db, opt_str(schema));
    let ghost xv = views_of(cols@);
    let mut i: usize = 0;
    while i < cols.len()
        invariant
            i <= cols.len(),
            xv == views_of(cols@),
            f == column_parts_fn(table_name@, db, opt_str(schema)),
            string_views(parts@) == before + lines_of(xv.subrange(0, i as int), f),
        decreases cols.len() - i,
    {
        proof {
            lemma_lines_of_step(xv, i as int, f);
        }
        assert(xv[i as int] == cols@[i as int]@);
        push_column_parts(parts, &cols[i], table_name, db, schema);
        assert(string_views(parts@) =~= before + lines_of(xv.subrange(0, i + 1), f));
        i = i + 1;
    }
    assert(xv.subrange(0, cols.len() as int) =~= xv);
}

/// Each part as a statement of its own on the table.
pub open spec fn part_statements(parts: Seq<Seq<char>>, table: Seq<char>) -> Seq<Seq<char>> {
    parts.map_values(|p: Seq<char>| "ALTER TABLE "@ + table + p + ";"@)
}

/// The `ALTER TABLE` block for a table's column parts: none without parts;
/// else a heading, then one statement listing the parts (MySQL-like) or one
/// statement per part, then a blank line.
pub open spec fn alter_lines(name: Seq<char>, parts: Seq<Seq<char>>, db: DatabaseType, schema: Option<Seq<char>>) -> Seq<
    Seq<char>,
> {
    let table = qualified(name, db, schema);
    if parts.len() == 0 {
        Seq::empty()
    } else {
        seq!["-- Alter table: "@ + name] + (if mysql_like(db) {
            seq!["ALTER TABLE "@ + table, join_seq(parts, ",\n"@) + ";"@]
        } else {
            part_statements(parts, table)
        }) + seq![Seq::<char>::empty()]
    }
}

fn push_alter_lines(lines: &mut Vec<String>, name: &str, parts: &Vec<String>, db: DatabaseType, schema: Option<&str>)
    ensures
        string_views(final(lines)@) == string_views(old(lines)@) + alter_lines(
            name@,
            string_views(parts@),
            db,
            opt_str(schema),
        ),
{
    let ghost before = string_views(lines@);
    let ghost pv = string_views(parts@);
    if parts.len() == 0 {
        assert(string_views(lines@) =~= before + alter_lines(name@, pv, db, opt_str(schema)));
        return;
    }
    let table = qualified_name(name, db, schema);
    push_line(lines, concat("-- Alter table: ", name));
    let ghost head = string_views(lines@);
    if is_mysql_like(db) {
        push_line(lines, concat("ALTER TABLE ", table.as_str()));
        let mut joined = join_strings(parts.as_slice(), ",\n");
        joined.append(";");
        push_line(lines, joined);
    } else {
        let mut i: usize = 0;
        while i < parts.len()
            invariant
                i <= parts.len(),
                pv == string_views(parts@),
                string_views(lines@) == head + part_statements(pv.subrange(0, i as int), table@),
            decreases parts.len() - i,
        {
            let mut l = concat3("ALTER TABLE ", table.as_str(), parts[i].as_str());
            l.append(";");
            push_line(lines, l);
            assert(pv.subrange(0, i + 1) =~= pv.subrange(0, i as int).push(pv[i as int]));
            assert(part_statements(pv.subrange(0, i + 1), table@) =~= part_statements(pv.subrange(0, i as int), table@).push(
                "ALTER TABLE "@ + table@ + pv[i as int] + ";"@,
            ));
            assert(string_views(lines@) =~= head + part_statements(pv.subrange(0, i + 1), table@));
            i = i + 1;
        }
        assert(pv.subrange(0, parts.len() as int) =~= pv);
    }
    push_line(lines, String::new());
    assert(string_views(lines@) =~= before + alter_lines(name@, pv, db, opt_str(schema)));
}

/// The comment statements for one column difference (products other than
/// MySQL): where a change names the comment, and for an added or renamed
/// column that has one.
pub open spec fn column_comment_lines(
    c: ItemDiff<ColumnInfo>,
    table: Seq<char>,
    db: DatabaseType,
    schema: Option<Seq<char>>,
) -> Seq<Seq<char>> {
    match c.source {
        Some(s) => {
            let line = column_comment_text(table, c.name, or_text(opt_text(s.comment), Seq::empty()), db, schema);
            line_if(some_change(c.changes, "comment:"@, true), line) + line_if(
                c.diff_type == "added"@ && s.comment is Some,
                line,
            ) + line_if(c.diff_type == "renamed"@ && s.comment is Some, line)
        },
        None => Seq::empty(),
    }
}

/// [`column_comment_lines`] as a function of the column difference.
pub open spec fn column_comment_fn(table: Seq<char>, db: DatabaseType, schema: Option<Seq<char>>) -> spec_fn(
    ItemDiff<ColumnInfo>,
) -> Seq<Seq<char>> {
    |c: ItemDiff<ColumnInfo>| column_comment_lines(c, table, db, schema)
}

fn push_column_comment_lines(lines: &mut Vec<String>, c: &ColumnDiff, table_name: &str, db: DatabaseType, schema: Option<&str>)
    ensures
        string_views(final(lines)@) == string_views(old(lines)@) + column_comment_lines(
            c@,
            table_name@,
            db,
            opt_str(schema),
        ),
{
    let ghost before = string_views(lines@);
    if let Some(s) = &c.source {
        let cm: &str = match &s.comment {
            Some(x) => x.as_str(),
            None => "",
        };
        proof {
            reveal_strlit("");
        }
        assert(cm@ == or_text(opt_text(s.comment), Seq::empty()));
        let named = has_change(&c.changes, "comment:", true);
        if named {
            push_line(lines, column_comment_sql(table_name, c.name.as_str(), cm, db, schema));
        }
        let ghost mid = string_views(lines@);
        let added = str_eq(c.diff_type.as_str(), "added") && s.comment.is_some();
        if added {
            push_line(lines, column_comment_sql(table_name, c.name.as_str(), cm, db, schema));
        }
        let ghost mid2 = string_views(lines@);
        let renamed = str_eq(c.diff_type.as_str(), "renamed") && s.comment.is_some();
        if renamed {
            push_line(lines, column_comment_sql(table_name, c.name.as_str(), cm, db, schema));
        }
        proof {
            let line = column_comment_text(table_name@, c.name@, cm@, db, opt_str(schema));
            assert(mid =~= before + line_if(named, line));
            assert(mid2 =~= mid + line_if(added, line));
            assert(string_views(lines@) =~= mid2 + line_if(renamed, line));
        }
    }
    assert(string_views(lines@) =~= before + column_comment_lines(c@, table_name@, db, opt_str(schema)));
}

fn push_all_column_comments(
    lines: &mut Vec<String>,
    cols: &Vec<ColumnDiff>,
    table_name: &str,
    db: DatabaseType,
    schema: Option<&str>,
)
    ensures
        string_views(final(lines)@) == string_views(old(lines)@) + lines_of(
            views_of(cols@),
            column_comment_fn(table_name@, db, opt_str(schema)),
        ),
{
    let ghost before = string_views(lines@);
    let ghost f = column_comment_fn(table_name@, db, opt_str(schema));
    let ghost xv = views_of(cols@);
    let mut i: usize = 0;
    while i < cols.len()
        invariant
            i <= cols.len(),
            xv == views_of(cols@),
            f == column_comment_fn(table_name@, db, opt_str(schema)),
            string_views(lines@) == before + lines_of(xv.subrange(0, i as int), f),
        decreases cols.len() - i,
    {
        proof {
            lemma_lines_of_step(xv, i as int, f);
        }
        assert(xv[i as int] == cols@[i as int]@);
        push_column_comment_lines(lines, &cols[i], table_name, db, schema);
        assert(string_views(lines@) =~= before + lines_of(xv.subrange(0, i + 1), f));
        i = i + 1;
    }
    assert(xv.subrange(0, cols.len() as int) =~= xv);
}


/// The table comment statement, where the source has a comment setting that
/// differs from the target's.
pub open spec fn table_comment_lines(d: TableDiffView, db: DatabaseType, schema: Option<Seq<char>>) -> Seq<Seq<char>> {
    line_if(
        d.source_table_comment is Some && d.source_table_comment != d.target_table_comment,
        table_comment_text(
            d.name,
            match d.source_table_comment {
                Some(Some(c)) => c,
                _ => Seq::empty(),
            },
            db,
            schema,
        ),
    )
}

fn same_comment(a: &Option<Option<String>>, b: &Option<Option<String>>) -> (r: bool)
    ensures
        r == (opt_opt_text(*a) == opt_opt_text(*b)),
{
    match (a, b) {
        (Some(Some(x)), Some(Some(y))) => str_eq(x.as_str(), y.as_str()),
        (Some(None), Some(None)) => true,
        (None, None) => true,
        _ => false,
    }
}

fn push_table_comment(lines: &mut Vec<String>, d: &TableDiff, db: DatabaseType, schema: Option<&str>)
    ensures
        string_views(final(lines)@) == string_views(old(lines)@) + table_comment_lines(d@, db, opt_str(schema)),
{
    let ghost before = string_views(lines@);
    if d.source_table_comment.is_some() && !same_comment(&d.source_table_comment, &d.target_table_comment) {
        let cm: &str = match &d.source_table_comment {
            Some(Some(c)) => c.as_str(),
            _ => "",
        };
        proof {
            reveal_strlit("");
        }
        push_line(lines, table_comment_sql(d.name.as_str(), cm, db, schema));
    }
    assert(string_views(lines@) =~= before + table_comment_lines(d@, db, opt_str(schema)));
}

/// The statements for one index difference: create an added index, drop a
/// removed one, drop and create a modified one.
pub open spec fn index_lines(x: ItemDiff<IndexView>, table: Seq<char>, db: DatabaseType, schema: Option<Seq<char>>) -> Seq<
    Seq<char>,
> {
    if x.diff_type == "added"@ {
        match x.source {
            Some(s) => seq![create_index_text(table, s, db, schema)],
            None => Seq::empty(),
        }
    } else if x.diff_type == "removed"@ {
        seq![drop_index_text(table, x.name, db, schema)]
    } else if x.diff_type == "modified"@ {
        match x.source {
            Some(s) => seq![drop_index_text(table, x.name, db, schema), create_index_text(table, s, db, schema)],
            None => Seq::empty(),
        }
    } else {
        Seq::empty()
    }
}

/// [`index_lines`] as a function of the index difference.
pub open spec fn index_lines_fn(table: Seq<char>, db: DatabaseType, schema: Option<Seq<char>>) -> spec_fn(
    ItemDiff<IndexView>,
) -> Seq<Seq<char>> {
    |x: ItemDiff<IndexView>| index_lines(x, table, db, schema)
}

fn push_index_lines(lines: &mut Vec<String>, x: &IndexDiff, table_name: &str, db: DatabaseType, schema: Option<&str>)
    ensures
        string_views(final(lines)@) == string_views(old(lines)@) + index_lines(x@, table_name@, db, opt_str(schema)),
{
    let ghost before = string_views(lines@);
    if str_eq(x.diff_type.as_str(), "added") {
        if let Some(s) = &x.source {
            push_line(lines, create_index_sql(table_name, s, db, schema));
        }
    } else if str_eq(x.diff_type.as_str(), "removed") {
        push_line(lines, drop_index_sql(table_name, x.name.as_str(), db, schema));
    } else if str_eq(x.diff_type.as_str(), "modified") {
        if let Some(s) = &x.source {
            push_line(lines, drop_index_sql(table_name, x.name.as_str(), db, schema));
            push_line(lines, create_index_sql(table_name, s, db, schema));
        }
    }
    assert(string_views(lines@) =~= before + index_lines(x@, table_name@, db, opt_str(schema)));
}

fn push_all_index_lines(lines: &mut Vec<String>, xs: &Vec<IndexDiff>, table_name: &str, db: DatabaseType, schema: Option<&str>)
    ensures
        string_views(final(lines)@) == string_views(old(lines)@) + lines_of(
            views_of(xs@),
            index_lines_fn(table_name@, db, opt_str(schema)),
        ),
{
    let ghost before = string_views(lines@);
    let ghost f = index_lines_fn(table_name@, db, opt_str(schema));
    let ghost xv = views_of(xs@);
    let mut i: usize = 0;
    while i < xs.len()
        invariant
            i <= xs.len(),
            xv == views_of(xs@),
            f == index_lines_fn(table_name@, db, opt_str(schema)),
            string_views(lines@) == before + lines_of(xv.subrange(0, i as int), f),
        decreases xs.len() - i,
    {
        proof {
            lemma_lines_of_step(xv, i as int, f);
        }
        assert(xv[i as int] == xs@[i as int]@);
        push_index_lines(lines, &xs[i], table_name, db, schema);
        assert(string_views(lines@) =~= before + lines_of(xv.subrange(0, i + 1), f));
        i = i + 1;
    }
    assert(xv.subrange(0, xs.len() as int) =~= xv);
}

/// The statement dropping a foreign key that is removed or changed.
pub open spec fn fk_drop_lines(
    x: ItemDiff<ForeignKeyInfo>,
    table: Seq<char>,
    db: DatabaseType,
    schema: Option<Seq<char>>,
) -> Seq<Seq<char>> {
    line_if(x.diff_type == "removed"@ || x.diff_type == "modified"@, drop_foreign_key_text(table, x.name, db, schema))
}

/// The statement adding a foreign key that is added or changed.
pub open spec fn fk_add_lines(
    x: ItemDiff<ForeignKeyInfo>,
    table: Seq<char>,
    db: DatabaseType,
    schema: Option<Seq<char>>,
) -> Seq<Seq<char>> {
    if x.diff_type == "added"@ || x.diff_type == "modified"@ {
        match x.source {
            Some(s) => seq![add_foreign_key_text(table, s, db, schema)],
            None => Seq::empty(),
        }
    } else {
        Seq::empty()
    }
}

/// The foreign-key statements: those that drop (`adding` false) or those
/// that add (`adding` true).
pub open spec fn fk_lines_fn(table: Seq<char>, db: DatabaseType, schema: Option<Seq<char>>, adding: bool) -> spec_fn(
    ItemDiff<ForeignKeyInfo>,
) -> Seq<Seq<char>> {
    |x: ItemDiff<ForeignKeyInfo>|
        if adding {
            fk_add_lines(x, table, db, schema)
        } else {
            fk_drop_lines(x, table, db, schema)
        }
}

fn push_fk_lines(
    lines: &mut Vec<String>,
    x: &ForeignKeyDiff,
    table_name: &str,
    db: DatabaseType,
    schema: Option<&str>,
    adding: bool,
)
    ensures
        string_views(final(lines)@) == string_views(old(lines)@) + (fk_lines_fn(table_name@, db, opt_str(schema), adding))(
            x@,
        ),
{
    let ghost before = string_views(lines@);
    let changed = str_eq(x.diff_type.as_str(), "modified");
    if adding {
        if str_eq(x.diff_type.as_str(), "added") || changed {
            if let Some(s) = &x.source {
                push_line(lines, add_foreign_key_sql(table_name, s, db, schema));
            }
        }
    } else if str_eq(x.diff_type.as_str(), "removed") || changed {
        push_line(lines, drop_foreign_key_sql(table_name, x.name.as_str(), db, schema));
    }
    assert(string_views(lines@) =~= before + (fk_lines_fn(table_name@, db, opt_str(schema), adding))(x@));
}

fn push_all_fk_lines(
    lines: &mut Vec<String>,
    xs: &Vec<ForeignKeyDiff>,
    table_name: &str,
    db: DatabaseType,
    schema: Option<&str>,
    adding: bool,
)
    ensures
        string_views(final(lines)@) == string_views(old(lines)@) + lines_of(
            views_of(xs@),
            fk_lines_fn(table_name@, db, opt_str(schema), adding),
        ),
{
    let ghost before = string_views(lines@);
    let ghost f = fk_lines_fn(table_name@, db, opt_str(schema), adding);
    let ghost xv = views_of(xs@);
    let mut i: usize = 0;
    while i < xs.len()
        invariant
            i <= xs.len(),
            xv == views_of(xs@),
            f == fk_lines_fn(table_name@, db, opt_str(schema), adding),
            string_views(lines@) == before + lines_of(xv.subrange(0, i as int), f),
        decreases xs.len() - i,
    {
        proof {
            lemma_lines_of_step(xv, i as int, f);
        }
        assert(xv[i as int] == xs@[i as int]@);
        push_fk_lines(lines, &xs[i], table_name, db, schema, adding);
        assert(string_views(lines@) =~= before + lines_of(xv.subrange(0, i + 1), f));
        i = i + 1;
    }
    assert(xv.subrange(0, xs.len() as int) =~= xv);
}

/// The note asking for a trigger to be reviewed by hand.
pub open spec fn trigger_note(x: ItemDiff<TriggerInfo>, table: Seq<char>) -> Seq<Seq<char>> {
    seq!["-- Trigger "@ + x.diff_type + ": "@ + x.name + " on "@ + table + "; review trigger definition manually."@]
}

/// [`trigger_note`] as a function of the trigger difference.
pub open spec fn trigger_note_fn(table: Seq<char>) -> spec_fn(ItemDiff<TriggerInfo>) -> Seq<Seq<char>> {
    |x: ItemDiff<TriggerInfo>| trigger_note(x, table)
}

fn push_all_trigger_notes(lines: &mut Vec<String>, xs: &Vec<TriggerDiff>, table_name: &str)
    ensures
        string_views(final(lines)@) == string_views(old(lines)@) + lines_of(views_of(xs@), trigger_note_fn(table_name@)),
{
    let ghost before = string_views(lines@);
    let ghost f = trigger_note_fn(table_name@);
    let ghost xv = views_of(xs@);
    let mut i: usize = 0;
    while i < xs.len()
        invariant
            i <= xs.len(),
            xv == views_of(xs@),
            f == trigger_note_fn(table_name@),
            string_views(lines@) == before + lines_of(xv.subrange(0, i as int), f),
        decreases xs.len() - i,
    {
        proof {
            lemma_lines_of_step(xv, i as int, f);
        }
        let x = &xs[i];
        assert(xv[i as int] == x@);
        let mut l = concat3("-- Trigger ", x.diff_type.as_str(), ": ");
        l.append(x.name.as_str());
        l.append(" on ");
        l.append(table_name);
        l.append("; review trigger definition manually.");
        push_line(lines, l);
        assert(string_views(lines@) =~= before + lines_of(xv.subrange(0, i + 1), f));
        i = i + 1;
    }
    assert(xv.subrange(0, xs.len() as int) =~= xv);
}


/// Whether a list is present and holds something.
pub open spec fn nonempty<T>(o: Option<Seq<T>>) -> bool {
    match o {
        Some(xs) => xs.len() > 0,
        None => false,
    }
}

/// For a changed table: the foreign keys to drop first, the column changes,
/// the column comments (products other than MySQL) and the table comment.
pub open spec fn changed_table_head(d: TableDiffView, db: DatabaseType, schema: Option<Seq<char>>) -> Seq<Seq<char>> {
    let parts = opt_lines_of(d.columns, column_parts_fn(d.name, db, schema));
    opt_lines_of(d.foreign_keys, fk_lines_fn(d.name, db, schema, false)) + alter_lines(d.name, parts, db, schema) + (if mysql_like(
        db,
    ) {
        Seq::empty()
    } else {
        opt_lines_of(d.columns, column_comment_fn(d.name, db, schema))
    }) + table_comment_lines(d, db, schema)
}

/// For a changed table: the index statements, the foreign keys to add, the
/// trigger notes, a blank line after any of these, and on SQLite a note
/// that foreign keys may need the table rebuilt.
pub open spec fn changed_table_tail(d: TableDiffView, db: DatabaseType, schema: Option<Seq<char>>) -> Seq<Seq<char>> {
    opt_lines_of(d.indexes, index_lines_fn(d.name, db, schema)) + opt_lines_of(
        d.foreign_keys,
        fk_lines_fn(d.name, db, schema, true),
    ) + opt_lines_of(d.triggers, trigger_note_fn(d.name)) + changed_table_notes(d, db)
}

fn push_changed_table_head(lines: &mut Vec<String>, d: &TableDiff, db: DatabaseType, schema: Option<&str>)
    ensures
        string_views(final(lines)@) == string_views(old(lines)@) + changed_table_head(d@, db, opt_str(schema)),
{
    let ghost before = string_views(lines@);
    let name = d.name.as_str();
    if let Some(fks) = &d.foreign_keys {
        push_all_fk_lines(lines, fks, name, db, schema, false);
    }
    let ghost s1 = string_views(lines@);
    let mut parts: Vec<String> = Vec::new();
    if let Some(cols) = &d.columns {
        push_all_column_parts(&mut parts, cols, name, db, schema);
    }
    assert(string_views(parts@) =~= opt_lines_of(d@.columns, column_parts_fn(d@.name, db, opt_str(schema))));
    push_alter_lines(lines, name, &parts, db, schema);
    let ghost s2 = string_views(lines@);
    if !is_mysql_like(db) {
        if let Some(cols) = &d.columns {
            push_all_column_comments(lines, cols, name, db, schema);
        }
    }
    let ghost s3 = string_views(lines@);
    push_table_comment(lines, d, db, schema);
    proof {
        let sch = opt_str(schema);
        assert(s1 =~= before + opt_lines_of(d@.foreign_keys, fk_lines_fn(d@.name, db, sch, false)));
        assert(s3 =~= s2 + (if mysql_like(db) {
            Seq::empty()
        } else {
            opt_lines_of(d@.columns, column_comment_fn(d@.name, db, sch))
        }));
        assert(string_views(lines@) =~= before + changed_table_head(d@, db, sch));
    }
}

fn is_nonempty<T: View>(o: &Option<Vec<T>>) -> (r: bool)
    ensures
        r == nonempty(opt_views(*o)),
{
    match o {
        Some(v) => v.len() > 0,
        None => false,
    }
}

/// The blank line after index, foreign-key or trigger statements, and the
/// SQLite note on foreign keys.
pub open spec fn changed_table_notes(d: TableDiffView, db: DatabaseType) -> Seq<Seq<char>> {
    line_if(nonempty(d.indexes) || nonempty(d.foreign_keys) || nonempty(d.triggers), Seq::empty()) + (if db is Sqlite
        && nonempty(d.foreign_keys) {
        seq!["-- SQLite foreign key synchronization may require table rebuild for: "@ + d.name, Seq::<char>::empty()]
    } else {
        Seq::empty()
    })
}

fn push_changed_table_notes(lines: &mut Vec<String>, d: &TableDiff, db: DatabaseType)
    ensures
        string_views(final(lines)@) == string_views(old(lines)@) + changed_table_notes(d@, db),
{
    let ghost before = string_views(lines@);
    let has_fks = is_nonempty(&d.foreign_keys);
    let blank = is_nonempty(&d.indexes) || has_fks || is_nonempty(&d.triggers);
    if blank {
        push_line(lines, String::new());
    }
    let ghost s1 = string_views(lines@);
    if db == DatabaseType::Sqlite && has_fks {
        push_line(lines, concat("-- SQLite foreign key synchronization may require table rebuild for: ", d.name.as_str()));
        push_line(lines, String::new());
    }
    proof {
        assert(s1 =~= before + line_if(blank, Seq::empty()));
        assert(string_views(lines@) =~= before + changed_table_notes(d@, db));
    }
}

fn push_changed_table_tail(lines: &mut Vec<String>, d: &TableDiff, db: DatabaseType, schema: Option<&str>)
    ensures
        string_views(final(lines)@) == string_views(old(lines)@) + changed_table_tail(d@, db, opt_str(schema)),
{
    let ghost before = string_views(lines@);
    let ghost sch = opt_str(schema);
    let name = d.name.as_str();
    if let Some(xs) = &d.indexes {
        push_all_index_lines(lines, xs, name, db, schema);
    }
    let ghost s1 = string_views(lines@);
    assert(s1 =~= before + opt_lines_of(d@.indexes, index_lines_fn(d@.name, db, sch)));
    if let Some(xs) = &d.foreign_keys {
        push_all_fk_lines(lines, xs, name, db, schema, true);
    }
    let ghost s2 = string_views(lines@);
    assert(s2 =~= s1 + opt_lines_of(d@.foreign_keys, fk_lines_fn(d@.name, db, sch, true)));
    if let Some(xs) = &d.triggers {
        push_all_trigger_notes(lines, xs, name);
    }
    let ghost s3 = string_views(lines@);
    assert(s3 =~= s2 + opt_lines_of(d@.triggers, trigger_note_fn(d@.name)));
    push_changed_table_notes(lines, d, db);
    assert(string_views(lines@) =~= before + changed_table_tail(d@, db, sch));
}

/// The lines for one table difference: a created table's DDL; a note for a
/// view found only in the source; a dropped table or view; the statements for
/// a changed table; nothing otherwise.
pub open spec fn table_lines(d: TableDiffView, db: DatabaseType, schema: Option<Seq<char>>, cascade: bool) -> Seq<
    Seq<char>,
> {
    if d.diff_type == "added"@ && d.ddl is Some {
        seq![
            "-- Create "@ + or_text(d.object_type, "table"@) + ": "@ + d.name,
            or_text(d.ddl, Seq::empty()) + ";"@,
            Seq::<char>::empty(),
        ]
    } else if d.diff_type == "added"@ && d.object_type == Some("view"@) {
        seq![
            "-- View exists only in source: "@ + d.name,
            "-- Source view definition is not available from this driver yet."@,
            Seq::<char>::empty(),
        ]
    } else if d.diff_type == "removed"@ {
        seq![
            "-- Drop "@ + or_text(d.object_type, "table"@) + ": "@ + d.name,
            drop_object_text(d, db, schema, cascade),
            Seq::<char>::empty(),
        ]
    } else if d.diff_type == "modified"@ {
        changed_table_head(d, db, schema) + changed_table_tail(d, db, schema)
    } else {
        Seq::empty()
    }
}

/// [`table_lines`] as a function of the table difference.
pub open spec fn table_lines_fn(db: DatabaseType, schema: Option<Seq<char>>, cascade: bool) -> spec_fn(TableDiffView) -> Seq<
    Seq<char>,
> {
    |d: TableDiffView| table_lines(d, db, schema, cascade)
}

fn object_type_or_table(o: &Option<String>) -> (r: &str)
    ensures
        r@ == or_text(opt_text(*o), "table"@),
{
    match o {
        Some(s) => s.as_str(),
        None => "table",
    }
}

pub(crate) fn push_table_lines(lines: &mut Vec<String>, d: &TableDiff, db: DatabaseType, schema: Option<&str>, cascade: bool)
    ensures
        string_views(final(lines)@) == string_views(old(lines)@) + table_lines(d@, db, opt_str(schema), cascade),
{
    let ghost before = string_views(lines@);
    let added = str_eq(d.diff_type.as_str(), "added");
    if added && d.ddl.is_some() {
        let mut head = concat3("-- Create ", object_type_or_table(&d.object_type), ": ");
        head.append(d.name.as_str());
        push_line(lines, head);
        let ddl = match &d.ddl {
            Some(x) => x.as_str(),
            None => "",
        };
        push_line(lines, concat(ddl, ";"));
        push_line(lines, String::new());
    } else if added && is_view(&d.object_type) {
        push_line(lines, concat("-- View exists only in source: ", d.name.as_str()));
        push_line(lines, String::from_str("-- Source view definition is not available from this driver yet."));
        push_line(lines, String::new());
    } else if str_eq(d.diff_type.as_str(), "removed") {
        let mut head = concat3("-- Drop ", object_type_or_table(&d.object_type), ": ");
        head.append(d.name.as_str());
        push_line(lines, head);
        push_line(lines, drop_object_sql(d, db, schema, cascade));
        push_line(lines, String::new());
    } else if str_eq(d.diff_type.as_str(), "modified") {
        push_changed_table_head(lines, d, db, schema);
        push_changed_table_tail(lines, d, db, schema);
    }
    assert(string_views(lines@) =~= before + table_lines(d@, db, opt_str(schema), cascade));
}


/// A section of the script: nothing when there are no differences of its
/// kind, else a blank line, its title, then its lines.
pub open spec fn section(title: Seq<char>, count: nat, body: Seq<Seq<char>>) -> Seq<Seq<char>> {
    if count == 0 {
        Seq::empty()
    } else {
        seq![Seq::<char>::empty(), title] + body
    }
}

/// The statements for one routine difference: create or replace an added or
/// changed routine with the source definition, drop a removed one.
pub open spec fn function_lines(
    x: ItemDiff<FunctionInfo>,
    db: DatabaseType,
    schema: Option<Seq<char>>,
    cascade: bool,
) -> Seq<Seq<char>> {
    let q = qualified(x.name, db, schema);
    if x.diff_type == "added"@ || x.diff_type == "modified"@ {
        match x.source {
            Some(s) => seq![
                (if x.diff_type == "added"@ {
                    "-- Create function: "@
                } else {
                    "-- Alter function: "@
                }) + x.name,
                "CREATE OR REPLACE FUNCTION "@ + q + " "@ + s.definition@ + ";"@,
            ],
            None => Seq::empty(),
        }
    } else if x.diff_type == "removed"@ {
        seq!["-- Drop function: "@ + x.name, "DROP FUNCTION IF EXISTS "@ + q + cascade_text(cascade) + ";"@]
    } else {
        Seq::empty()
    }
}

/// [`function_lines`] as a function of the routine difference.
pub open spec fn function_lines_fn(db: DatabaseType, schema: Option<Seq<char>>, cascade: bool) -> spec_fn(
    ItemDiff<FunctionInfo>,
) -> Seq<Seq<char>> {
    |x: ItemDiff<FunctionInfo>| function_lines(x, db, schema, cascade)
}

fn push_function_lines(lines: &mut Vec<String>, x: &FunctionDiff, db: DatabaseType, schema: Option<&str>, cascade: bool)
    ensures
        string_views(final(lines)@) == string_views(old(lines)@) + function_lines(x@, db, opt_str(schema), cascade),
{
    let ghost before = string_views(lines@);
    let added = str_eq(x.diff_type.as_str(), "added");
    if added || str_eq(x.diff_type.as_str(), "modified") {
        if let Some(s) = &x.source {
            let head = if added {
                "-- Create function: "
            } else {
                "-- Alter function: "
            };
            push_line(lines, concat(head, x.name.as_str()));
            let q = qualified_name(x.name.as_str(), db, schema);
            let mut l = concat3("CREATE OR REPLACE FUNCTION ", q.as_str(), " ");
            l.append(s.definition.as_str());
            l.append(";");
            push_line(lines, l);
        }
    } else if str_eq(x.diff_type.as_str(), "removed") {
        push_line(lines, concat("-- Drop function: ", x.name.as_str()));
        let q = qualified_name(x.name.as_str(), db, schema);
        let mut l = concat("DROP FUNCTION IF EXISTS ", q.as_str());
        l.append(cascade_str(cascade));
        l.append(";");
        push_line(lines, l);
    }
    assert(string_views(lines@) =~= before + function_lines(x@, db, opt_str(schema), cascade));
}

/// ` CYCLE` settings as written in a sequence statement.
pub open spec fn cycle_text(cycle: bool) -> Seq<char> {
    if cycle {
        "CYCLE"@
    } else {
        "NO CYCLE"@
    }
}

/// `CREATE SEQUENCE` or `ALTER SEQUENCE` (by `verb`) with every setting of `s`.
pub open spec fn sequence_statement(verb: Seq<char>, q: Seq<char>, s: SequenceInfo) -> Seq<char> {
    verb + " "@ + q + " AS "@ + s.data_type@ + " START WITH "@ + s.start_value@ + " INCREMENT BY "@ + s.increment@
        + " MINVALUE "@ + s.min_value@ + " MAXVALUE "@ + s.max_value@ + " "@ + cycle_text(s.cycle) + ";"@
}

/// The statements for one sequence difference.
pub open spec fn sequence_lines(
    x: ItemDiff<SequenceInfo>,
    db: DatabaseType,
    schema: Option<Seq<char>>,
    cascade: bool,
) -> Seq<Seq<char>> {
    let q = qualified(x.name, db, schema);
    if x.diff_type == "added"@ {
        match x.source {
            Some(s) => seq!["-- Create sequence: "@ + x.name, sequence_statement("CREATE SEQUENCE"@, q, s)],
            None => Seq::empty(),
        }
    } else if x.diff_type == "removed"@ {
        seq!["-- Drop sequence: "@ + x.name, "DROP SEQUENCE "@ + q + cascade_text(cascade) + ";"@]
    } else if x.diff_type == "modified"@ {
        match x.source {
            Some(s) => seq!["-- Alter sequence: "@ + x.name, sequence_statement("ALTER SEQUENCE"@, q, s)],
            None => Seq::empty(),
        }
    } else {
        Seq::empty()
    }
}

/// [`sequence_lines`] as a function of the sequence difference.
pub open spec fn sequence_lines_fn(db: DatabaseType, schema: Option<Seq<char>>, cascade: bool) -> spec_fn(
    ItemDiff<SequenceInfo>,
) -> Seq<Seq<char>> {
    |x: ItemDiff<SequenceInfo>| sequence_lines(x, db, schema, cascade)
}

fn sequence_statement_exec(verb: &str, q: &str, s: &SequenceInfo) -> (r: String)
    ensures
        r@ == sequence_statement(verb@, q@, *s),
{
    let mut r = concat3(verb, " ", q);
    r.append(" AS ");
    r.append(s.data_type.as_str());
    r.append(" START WITH ");
    r.append(s.start_value.as_str());
    r.append(" INCREMENT BY ");
    r.append(s.increment.as_str());
    r.append(" MINVALUE ");
    r.append(s.min_value.as_str());
    r.append(" MAXVALUE ");
    r.append(s.max_value.as_str());
    r.append(" ");
    r.append(if s.cycle {
        "CYCLE"
    } else {
        "NO CYCLE"
    });
    r.append(";");
    r
}

fn push_sequence_lines(lines: &mut Vec<String>, x: &SequenceDiff, db: DatabaseType, schema: Option<&str>, cascade: bool)
    ensures
        string_views(final(lines)@) == string_views(old(lines)@) + sequence_lines(x@, db, opt_str(schema), cascade),
{
    let ghost before = string_views(lines@);
    let q = qualified_name(x.name.as_str(), db, schema);
    if str_eq(x.diff_type.as_str(), "added") {
        if let Some(s) = &x.source {
            push_line(lines, concat("-- Create sequence: ", x.name.as_str()));
            push_line(lines, sequence_statement_exec("CREATE SEQUENCE", q.as_str(), s));
        }
    } else if str_eq(x.diff_type.as_str(), "removed") {
        push_line(lines, concat("-- Drop sequence: ", x.name.as_str()));
        let mut l = concat3("DROP SEQUENCE ", q.as_str(), cascade_str(cascade));
        l.append(";");
        push_line(lines, l);
    } else if str_eq(x.diff_type.as_str(), "modified") {
        if let Some(s) = &x.source {
            push_line(lines, concat("-- Alter sequence: ", x.name.as_str()));
            push_line(lines, sequence_statement_exec("ALTER SEQUENCE", q.as_str(), s));
        }
    }
    assert(string_views(lines@) =~= before + sequence_lines(x@, db, opt_str(schema), cascade));
}

/// `DROP RULE` for the rule `name` on the table of `s`.
pub open spec fn drop_rule_text(name: Seq<char>, s: RuleInfo, db: DatabaseType, schema: Option<Seq<char>>) -> Seq<char> {
    "DROP RULE IF EXISTS "@ + name + " ON "@ + qualified(s.table_name@, db, schema) + ";"@
}

/// The statements for one rule difference: an added rule's definition; a
/// removed rule dropped; a changed rule dropped and defined again.
pub open spec fn rule_lines(x: ItemDiff<RuleInfo>, db: DatabaseType, schema: Option<Seq<char>>) -> Seq<Seq<char>> {
    if x.diff_type == "added"@ {
        match x.source {
            Some(s) => seq!["-- Create rule: "@ + x.name, s.definition@],
            None => Seq::empty(),
        }
    } else if x.diff_type == "removed"@ {
        seq!["-- Drop rule: "@ + x.name] + match x.source {
            Some(s) => seq![drop_rule_text(x.name, s, db, schema)],
            None => Seq::empty(),
        }
    } else if x.diff_type == "modified"@ {
        match x.source {
            Some(s) => seq!["-- Alter rule: "@ + x.name, drop_rule_text(x.name, s, db, schema), s.definition@],
            None => Seq::empty(),
        }
    } else {
        Seq::empty()
    }
}

/// [`rule_lines`] as a function of the rule difference.
pub open spec fn rule_lines_fn(db: DatabaseType, schema: Option<Seq<char>>) -> spec_fn(ItemDiff<RuleInfo>) -> Seq<
    Seq<char>,
> {
    |x: ItemDiff<RuleInfo>| rule_lines(x, db, schema)
}

fn drop_rule_exec(name: &str, s: &RuleInfo, db: DatabaseType, schema: Option<&str>) -> (r: String)
    ensures
        r@ == drop_rule_text(name@, *s, db, opt_str(schema)),
{
    let q = qualified_name(s.table_name.as_str(), db, schema);
    let mut r = concat3("DROP RULE IF EXISTS ", name, " ON ");
    r.append(q.as_str());
    r.append(";");
    r
}

fn push_rule_lines(lines: &mut Vec<String>, x: &RuleDiff, db: DatabaseType, schema: Option<&str>)
    ensures
        string_views(final(lines)@) == string_views(old(lines)@) + rule_lines(x@, db, opt_str(schema)),
{
    let ghost before = string_views(lines@);
    if str_eq(x.diff_type.as_str(), "added") {
        if let Some(s) = &x.source {
            push_line(lines, concat("-- Create rule: ", x.name.as_str()));
            push_line(lines, s.definition.clone());
        }
    } else if str_eq(x.diff_type.as_str(), "removed") {
        push_line(lines, concat("-- Drop rule: ", x.name.as_str()));
        if let Some(s) = &x.source {
            push_line(lines, drop_rule_exec(x.name.as_str(), s, db, schema));
        }
    } else if str_eq(x.diff_type.as_str(), "modified") {
        if let Some(s) = &x.source {
            push_line(lines, concat("-- Alter rule: ", x.name.as_str()));
            push_line(lines, drop_rule_exec(x.name.as_str(), s, db, schema));
            push_line(lines, s.definition.clone());
        }
    }
    assert(string_views(lines@) =~= before + rule_lines(x@, db, opt_str(schema)));
}

/// The object keyword of an owner statement: the object's type where it is
/// `TABLE`, `VIEW` or `SEQUENCE`, else `TABLE`.
pub open spec fn owner_keyword(object_type: Seq<char>) -> Seq<char> {
    if object_type == "TABLE"@ || object_type == "VIEW"@ || object_type == "SEQUENCE"@ {
        object_type
    } else {
        "TABLE"@
    }
}

/// The statement giving an object the source's owner, for an owner
/// difference that has both sides.
pub open spec fn owner_lines(x: ItemDiff<OwnerInfo>, db: DatabaseType, schema: Option<Seq<char>>) -> Seq<Seq<char>> {
    match (x.source, x.target) {
        (Some(s), Some(_t)) => seq![
            "ALTER "@ + owner_keyword(s.object_type@) + " "@ + qualified(x.name, db, schema) + " OWNER TO "@ + s.owner@
                + ";"@,
        ],
        _ => Seq::empty(),
    }
}

/// [`owner_lines`] as a function of the owner difference.
pub open spec fn owner_lines_fn(db: DatabaseType, schema: Option<Seq<char>>) -> spec_fn(ItemDiff<OwnerInfo>) -> Seq<
    Seq<char>,
> {
    |x: ItemDiff<OwnerInfo>| owner_lines(x, db, schema)
}

fn push_owner_lines(lines: &mut Vec<String>, x: &OwnerDiff, db: DatabaseType, schema: Option<&str>)
    ensures
        string_views(final(lines)@) == string_views(old(lines)@) + owner_lines(x@, db, opt_str(schema)),
{
    let ghost before = string_views(lines@);
    match (&x.source, &x.target) {
        (Some(s), Some(_t)) => {
            let t = s.object_type.as_str();
            let kw = if str_eq(t, "TABLE") || str_eq(t, "VIEW") || str_eq(t, "SEQUENCE") {
                t
            } else {
                "TABLE"
            };
            let q = qualified_name(x.object_name.as_str(), db, schema);
            let mut l = concat3("ALTER ", kw, " ");
            l.append(q.as_str());
            l.append(" OWNER TO ");
            l.append(s.owner.as_str());
            l.append(";");
            push_line(lines, l);
        },
        _ => {},
    }
    assert(string_views(lines@) =~= before + owner_lines(x@, db, opt_str(schema)));
}


fn push_function_section(lines: &mut Vec<String>, xs: &[FunctionDiff], db: DatabaseType, schema: Option<&str>, cascade: bool)
    ensures
        string_views(final(lines)@) == string_views(old(lines)@) + section(
            "-- Functions"@,
            xs@.len(),
            lines_of(views_of(xs@), function_lines_fn(db, opt_str(schema), cascade)),
        ),
{
    let ghost before = string_views(lines@);
    if xs.len() == 0 {
        assert(string_views(lines@) =~= before + section("-- Functions"@, xs@.len(), Seq::empty()));
        return;
    }
    push_line(lines, String::new());
    push_line(lines, String::from_str("-- Functions"));
    let ghost head = string_views(lines@);
    let ghost f = function_lines_fn(db, opt_str(schema), cascade);
    let ghost xv = views_of(xs@);
    let mut i: usize = 0;
    while i < xs.len()
        invariant
            i <= xs.len(),
            xv == views_of(xs@),
            f == function_lines_fn(db, opt_str(schema), cascade),
            string_views(lines@) == head + lines_of(xv.subrange(0, i as int), f),
        decreases xs.len() - i,
    {
        proof {
            lemma_lines_of_step(xv, i as int, f);
        }
        assert(xv[i as int] == xs@[i as int]@);
        push_function_lines(lines, &xs[i], db, schema, cascade);
        assert(string_views(lines@) =~= head + lines_of(xv.subrange(0, i + 1), f));
        i = i + 1;
    }
    assert(xv.subrange(0, xs.len() as int) =~= xv);
    assert(string_views(lines@) =~= before + section("-- Functions"@, xs@.len(), lines_of(xv, f)));
}

fn push_sequence_section(lines: &mut Vec<String>, xs: &[SequenceDiff], db: DatabaseType, schema: Option<&str>, cascade: bool)
    ensures
        string_views(final(lines)@) == string_views(old(lines)@) + section(
            "-- Sequences"@,
            xs@.len(),
            lines_of(views_of(xs@), sequence_lines_fn(db, opt_str(schema), cascade)),
        ),
{
    let ghost before = string_views(lines@);
    if xs.len() == 0 {
        assert(string_views(lines@) =~= before + section("-- Sequences"@, xs@.len(), Seq::empty()));
        return;
    }
    push_line(lines, String::new());
    push_line(lines, String::from_str("-- Sequences"));
    let ghost head = string_views(lines@);
    let ghost f = sequence_lines_fn(db, opt_str(schema), cascade);
    let ghost xv = views_of(xs@);
    let mut i: usize = 0;
    while i < xs.len()
        invariant
            i <= xs.len(),
            xv == views_of(xs@),
            f == sequence_lines_fn(db, opt_str(schema), cascade),
            string_views(lines@) == head + lines_of(xv.subrange(0, i as int), f),
        decreases xs.len() - i,
    {
        proof {
            lemma_lines_of_step(xv, i as int, f);
        }
        assert(xv[i as int] == xs@[i as int]@);
        push_sequence_lines(lines, &xs[i], db, schema, cascade);
        assert(string_views(lines@) =~= head + lines_of(xv.subrange(0, i + 1), f));
        i = i + 1;
    }
    assert(xv.subrange(0, xs.len() as int) =~= xv);
    assert(string_views(lines@) =~= before + section("-- Sequences"@, xs@.len(), lines_of(xv, f)));
}

fn push_rule_section(lines: &mut Vec<String>, xs: &[RuleDiff], db: DatabaseType, schema: Option<&str>)
    ensures
        string_views(final(lines)@) == string_views(old(lines)@) + section(
            "-- Rules"@,
            xs@.len(),
            lines_of(views_of(xs@), rule_lines_fn(db, opt_str(schema))),
        ),
{
    let ghost before = string_views(lines@);
    if xs.len() == 0 {
        assert(string_views(lines@) =~= before + section("-- Rules"@, xs@.len(), Seq::empty()));
        return;
    }
    push_line(lines, String::new());
    push_line(lines, String::from_str("-- Rules"));
    let ghost head = string_views(lines@);
    let ghost f = rule_lines_fn(db, opt_str(schema));
    let ghost xv = views_of(xs@);
    let mut i: usize = 0;
    while i < xs.len()
        invariant
            i <= xs.len(),
            xv == views_of(xs@),
            f == rule_lines_fn(db, opt_str(schema)),
            string_views(lines@) == head + lines_of(xv.subrange(0, i as int), f),
        decreases xs.len() - i,
    {
        proof {
            lemma_lines_of_step(xv, i as int, f);
        }
        assert(xv[i as int] == xs@[i as int]@);
        push_rule_lines(lines, &xs[i], db, schema);
        assert(string_views(lines@) =~= head + lines_of(xv.subrange(0, i + 1), f));
        i = i + 1;
    }
    assert(xv.subrange(0, xs.len() as int) =~= xv);
    assert(string_views(lines@) =~= before + section("-- Rules"@, xs@.len(), lines_of(xv, f)));
}

fn push_owner_section(lines: &mut Vec<String>, xs: &[OwnerDiff], db: DatabaseType, schema: Option<&str>)
    ensures
        string_views(final(lines)@) == string_views(old(lines)@) + section(
            "-- Owners"@,
            xs@.len(),
            lines_of(views_of(xs@), owner_lines_fn(db, opt_str(schema))),
        ),
{
    let ghost before = string_views(lines@);
    if xs.len() == 0 {
        assert(string_views(lines@) =~= before + section("-- Owners"@, xs@.len(), Seq::empty()));
        return;
    }
    push_line(lines, String::new());
    push_line(lines, String::from_str("-- Owners"));
    let ghost head = string_views(lines@);
    let ghost f = owner_lines_fn(db, opt_str(schema));
    let ghost xv = views_of(xs@);
    let mut i: usize = 0;
    while i < xs.len()
        invariant
            i <= xs.len(),
            xv == views_of(xs@),
            f == owner_lines_fn(db, opt_str(schema)),
            string_views(lines@) == head + lines_of(xv.subrange(0, i as int), f),
        decreases xs.len() - i,
    {
        proof {
            lemma_lines_of_step(xv, i as int, f);
        }
        assert(xv[i as int] == xs@[i as int]@);
        push_owner_lines(lines, &xs[i], db, schema);
        assert(string_views(lines@) =~= head + lines_of(xv.subrange(0, i + 1), f));
        i = i + 1;
    }
    assert(xv.subrange(0, xs.len() as int) =~= xv);
    assert(string_views(lines@) =~= before + section("-- Owners"@, xs@.len(), lines_of(xv, f)));
}

/// The lines of the synchronisation script, in order: for each table
/// difference its lines, then the sections for routines, sequences, rules and
/// owners.
pub open spec fn sync_lines(
    tables: Seq<TableDiffView>,
    functions: Seq<ItemDiff<FunctionInfo>>,
    sequences: Seq<ItemDiff<SequenceInfo>>,
    rules: Seq<ItemDiff<RuleInfo>>,
    owners: Seq<ItemDiff<OwnerInfo>>,
    db: DatabaseType,
    schema: Option<Seq<char>>,
    cascade: bool,
) -> Seq<Seq<char>> {
    lines_of(tables, table_lines_fn(db, schema, cascade)) + section(
        "-- Functions"@,
        functions.len(),
        lines_of(functions, function_lines_fn(db, schema, cascade)),
    ) + section("-- Sequences"@, sequences.len(), lines_of(sequences, sequence_lines_fn(db, schema, cascade)))
        + section("-- Rules"@, rules.len(), lines_of(rules, rule_lines_fn(db, schema))) + section(
        "-- Owners"@,
        owners.len(),
        lines_of(owners, owner_lines_fn(db, schema)),
    )
}

/// Builds the SQL script that brings the target schema in line with the
/// source: the lines of `sync_lines` joined by new lines, with the white space
/// at either end removed. Dropping statements end in ` CASCADE` when
/// `cascade_delete` is set; names are qualified with `schema` when one is
/// given.
pub fn generate_schema_sync_sql(
    diffs: &[TableDiff],
    function_diffs: &[FunctionDiff],
    sequence_diffs: &[SequenceDiff],
    rule_diffs: &[RuleDiff],
    owner_diffs: &[OwnerDiff],
    db: DatabaseType,
    schema: Option<&str>,
    cascade_delete: bool,
) -> (r: String)
    ensures
        r@ == trimmed(
            join_seq(
                sync_lines(
                    views_of(diffs@),
                    views_of(function_diffs@),
                    views_of(sequence_diffs@),
                    views_of(rule_diffs@),
                    views_of(owner_diffs@),
                    db,
                    opt_str(schema),
                    cascade_delete,
                ),
                "\n"@,
            ),
        ),
{
    let ghost sch = opt_str(schema);
    let ghost f = table_lines_fn(db, sch, cascade_delete);
    let ghost xv = views_of(diffs@);
    let mut lines: Vec<String> = Vec::new();
    let mut i: usize = 0;
    while i < diffs.len()
        invariant
            i <= diffs.len(),
            xv == views_of(diffs@),
            sch == opt_str(schema),
            f == table_lines_fn(db, sch, cascade_delete),
            string_views(lines@) == lines_of(xv.subrange(0, i as int), f),
        decreases diffs.len() - i,
    {
        proof {
            lemma_lines_of_step(xv, i as int, f);
        }
        assert(xv[i as int] == diffs@[i as int]@);
        push_table_lines(&mut lines, &diffs[i], db, schema, cascade_delete);
        i = i + 1;
    }
    assert(xv.subrange(0, diffs.len() as int) =~= xv);
    let ghost s0 = string_views(lines@);
    push_function_section(&mut lines, function_diffs, db, schema, cascade_delete);
    let ghost s1 = string_views(lines@);
    push_sequence_section(&mut lines, sequence_diffs, db, schema, cascade_delete);
    let ghost s2 = string_views(lines@);
    push_rule_section(&mut lines, rule_diffs, db, schema);
    let ghost s3 = string_views(lines@);
    push_owner_section(&mut lines, owner_diffs, db, schema);
    assert(string_views(lines@) =~= sync_lines(
        views_of(diffs@),
        views_of(function_diffs@),
        views_of(sequence_diffs@),
        views_of(rule_diffs@),
        views_of(owner_diffs@),
        db,
        sch,
        cascade_delete,
    ));
    let joined = join_strings(lines.as_slice(), "\n");
    trim(joined.as_str())
}

/// Builds the script that undoes a plan: the synchronisation script of the
/// plan's rollback changes, in their order, with nothing else.
pub fn generate_rollback_sync_sql(
    rollback_graph: &RollbackGraph,
    db: DatabaseType,
    schema: Option<&str>,
    cascade_delete: bool,
) -> (r: String)
    ensures
        r@ == trimmed(
            join_seq(
                sync_lines(
                    node_tables(views_of(rollback_graph.rollback_nodes@)),
                    Seq::empty(),
                    Seq::empty(),
                    Seq::empty(),
                    Seq::empty(),
                    db,
                    opt_str(schema),
                    cascade_delete,
                ),
                "\n"@,
            ),
        ),
{
    let nodes = &rollback_graph.rollback_nodes;
    let ghost nv = node_tables(views_of(nodes@));
    let mut diffs: Vec<TableDiff> = Vec::new();
    let mut i: usize = 0;
    while i < nodes.len()
        invariant
            i <= nodes.len(),
            nv == node_tables(views_of(nodes@)),
            views_of(diffs@) == nv.subrange(0, i as int),
        decreases nodes.len() - i,
    {
        let d = nodes[i].table_diff.clone();
        proof {
            lemma_views_push(diffs@, d);
        }
        diffs.push(d);
        assert(views_of(diffs@) =~= nv.subrange(0, i + 1));
        i = i + 1;
    }
    assert(nv.subrange(0, nodes.len() as int) =~= nv);
    let no_functions: Vec<FunctionDiff> = Vec::new();
    let no_sequences: Vec<SequenceDiff> = Vec::new();
    let no_rules: Vec<RuleDiff> = Vec::new();
    let no_owners: Vec<OwnerDiff> = Vec::new();
    assert(views_of(no_functions@) =~= Seq::empty());
    assert(views_of(no_sequences@) =~= Seq::empty());
    assert(views_of(no_rules@) =~= Seq::empty());
    assert(views_of(no_owners@) =~= Seq::empty());
    generate_schema_sync_sql(
        diffs.as_slice(),
        no_functions.as_slice(),
        no_sequences.as_slice(),
        no_rules.as_slice(),
        no_owners.as_slice(),
        db,
        schema,
        cascade_delete,
    )
}

} // verus!
