//! SQL text for synchronising a target schema with a source schema: quoting,
//! index and foreign-key statements, comments and grants.

use vstd::prelude::*;

use crate::schema_diff::{is_white_space, PermissionDiff};
use crate::schema_types::{mysql_like, is_mysql_like, opt_text, DatabaseType, ForeignKeyInfo, IndexInfo, PermissionInfo};
use crate::text::{chars_of, concat, concat3, join_seq, join_strings, lemma_string_views_push, push_char, string_views};

verus! {

/// `s` with every `c` written twice, as SQL escapes a quote inside quotes.
pub open spec fn doubled(s: Seq<char>, c: char) -> Seq<char>
    decreases s.len(),
{
    if s.len() == 0 {
        Seq::empty()
    } else if s.last() == c {
        doubled(s.drop_last(), c).push(c).push(c)
    } else {
        doubled(s.drop_last(), c).push(s.last())
    }
}

/// Writes `s` with every `c` doubled.
pub fn double_char(s: &str, c: char) -> (r: String)
    ensures
        r@ == doubled(s@, c),
{
    let cs = chars_of(s);
    let mut r = String::new();
    let mut i: usize = 0;
    while i < cs.len()
        invariant
            i <= cs.len(),
            cs@ == s@,
            r@ == doubled(s@.subrange(0, i as int), c),
        decreases cs.len() - i,
    {
        assert(s@.subrange(0, i + 1).drop_last() =~= s@.subrange(0, i as int));
        let x = cs[i];
        push_char(&mut r, x);
        if x == c {
            push_char(&mut r, x);
        }
        i = i + 1;
    }
    assert(s@.subrange(0, cs.len() as int) =~= s@);
    r
}

/// An identifier quoted for `db`: backquotes for MySQL-like products, double
/// quotes otherwise, the quote character doubled inside.
pub open spec fn quoted_id(name: Seq<char>, db: DatabaseType) -> Seq<char> {
    if mysql_like(db) {
        "`"@ + doubled(name, '`') + "`"@
    } else {
        "\""@ + doubled(name, '"') + "\""@
    }
}

/// Quotes an identifier for `db`.
pub fn quote_id(name: &str, db: DatabaseType) -> (r: String)
    ensures
        r@ == quoted_id(name@, db),
{
    if is_mysql_like(db) {
        let inner = double_char(name, '`');
        concat3("`", inner.as_str(), "`")
    } else {
        let inner = double_char(name, '"');
        concat3("\"", inner.as_str(), "\"")
    }
}

pub open spec fn opt_str(o: Option<&str>) -> Option<Seq<char>> {
    match o {
        Some(s) => Some(s@),
        None => None,
    }
}

/// A name qualified with the schema, if one is given, both quoted.
pub open spec fn qualified(name: Seq<char>, db: DatabaseType, schema: Option<Seq<char>>) -> Seq<char> {
    match schema {
        Some(sch) => quoted_id(sch, db) + "."@ + quoted_id(name, db),
        None => quoted_id(name, db),
    }
}

/// Qualifies and quotes a name.
pub fn qualified_name(name: &str, db: DatabaseType, schema: Option<&str>) -> (r: String)
    ensures
        r@ == qualified(name@, db, opt_str(schema)),
{
    match schema {
        Some(sch) => {
            let q = quote_id(sch, db);
            let n = quote_id(name, db);
            concat3(q.as_str(), ".", n.as_str())
        },
        None => quote_id(name, db),
    }
}

/// A string literal: single quotes, inner single quotes doubled.
pub open spec fn comment_text(comment: Seq<char>) -> Seq<char> {
    "'"@ + doubled(comment, '\'') + "'"@
}

/// Writes a comment as a SQL string literal.
pub fn comment_literal(comment: &str) -> (r: String)
    ensures
        r@ == comment_text(comment@),
{
    let inner = double_char(comment, '\'');
    concat3("'", inner.as_str(), "'")
}

/// `DROP INDEX` for the index `index_name` of table `table_name`.
pub open spec fn drop_index_text(table: Seq<char>, index: Seq<char>, db: DatabaseType, schema: Option<Seq<char>>) -> Seq<
    char,
> {
    if mysql_like(db) {
        "DROP INDEX "@ + quoted_id(index, db) + " ON "@ + qualified(table, db, schema) + ";"@
    } else {
        "DROP INDEX IF EXISTS "@ + qualified(index, db, schema) + ";"@
    }
}

/// Builds the statement dropping an index.
pub fn drop_index_sql(table_name: &str, index_name: &str, db: DatabaseType, schema: Option<&str>) -> (r: String)
    ensures
        r@ == drop_index_text(table_name@, index_name@, db, opt_str(schema)),
{
    if is_mysql_like(db) {
        let idx = quote_id(index_name, db);
        let table = qualified_name(table_name, db, schema);
        let mut r = concat3("DROP INDEX ", idx.as_str(), " ON ");
        r.append(table.as_str());
        r.append(";");
        r
    } else {
        let index = qualified_name(index_name, db, schema);
        concat3("DROP INDEX IF EXISTS ", index.as_str(), ";")
    }
}

/// The quoted names of `cols`, joined with `, `.
pub open spec fn quoted_list(cols: Seq<Seq<char>>, db: DatabaseType) -> Seq<char> {
    join_seq(cols.map_values(|c: Seq<char>| quoted_id(c, db)), ", "@)
}

fn quoted_list_exec(cols: &Vec<String>, db: DatabaseType) -> (r: String)
    ensures
        r@ == quoted_list(string_views(cols@), db),
{
    let mut q: Vec<String> = Vec::new();
    let mut i: usize = 0;
    while i < cols.len()
        invariant
            i <= cols.len(),
            string_views(q@) == string_views(cols@).subrange(0, i as int).map_values(
                |c: Seq<char>| quoted_id(c, db),
            ),
        decreases cols.len() - i,
    {
        let x = quote_id(cols[i].as_str(), db);
        proof {
            lemma_string_views_push(q@, x);
        }
        q.push(x);
        assert(string_views(q@) =~= string_views(cols@).subrange(0, i + 1).map_values(
            |c: Seq<char>| quoted_id(c, db),
        ));
        i = i + 1;
    }
    assert(string_views(cols@).subrange(0, cols.len() as int) =~= string_views(cols@));
    join_strings(q.as_slice(), ", ")
}

pub open spec fn or_empty(o: Option<Seq<char>>) -> Seq<char> {
    match o {
        Some(s) => s,
        None => Seq::empty(),
    }
}

/// Whether a text is empty once white space is trimmed.
pub open spec fn blank(s: Seq<char>) -> bool {
    forall|i: int| 0 <= i < s.len() ==> is_white_space(#[trigger] s[i])
}

fn is_blank(s: &str) -> (r: bool)
    ensures
        r == blank(s@),
{
    let cs = chars_of(s);
    let mut i: usize = 0;
    while i < cs.len()
        invariant
            i <= cs.len(),
            cs@ == s@,
            forall|k: int| 0 <= k < i ==> is_white_space(#[trigger] s@[k]),
        decreases cs.len() - i,
    {
        if !crate::schema_diff::is_white_space_exec(cs[i]) {
            return false;
        }
        i = i + 1;
    }
    true
}

/// `text` if `cond`, else nothing.
pub open spec fn text_if(cond: bool, text: Seq<char>) -> Seq<char> {
    if cond {
        text
    } else {
        Seq::empty()
    }
}

/// The statement creating `index` on table `table`.
pub open spec fn create_index_text(table_name: Seq<char>, index: crate::schema_types::IndexView, db: DatabaseType, schema: Option<
    Seq<char>,
>) -> Seq<char> {
    let table = qualified(table_name, db, schema);
    let columns = quoted_list(index.columns, db);
    let unique = text_if(index.is_unique, "UNIQUE "@);
    let index_type = or_empty(index.index_type);
    let using_clause = text_if(index_type.len() > 0 && db == DatabaseType::Postgres, " USING "@ + index_type);
    let type_prefix = text_if(index_type.len() > 0 && db == DatabaseType::SqlServer, index_type + " "@);
    let mysql_using = text_if(index_type.len() > 0 && mysql_like(db), " USING "@ + index_type);
    let included = match index.included_columns {
        Some(v) => v,
        None => Seq::empty(),
    };
    let include_clause = text_if(
        included.len() > 0 && (db == DatabaseType::Postgres || db == DatabaseType::SqlServer),
        " INCLUDE ("@ + quoted_list(included, db) + ")"@,
    );
    let supports_where = db == DatabaseType::Postgres || db == DatabaseType::SqlServer || db == DatabaseType::Sqlite;
    let filter = if supports_where {
        or_empty(index.filter)
    } else {
        Seq::empty()
    };
    let filter_clause = text_if(filter.len() > 0, " WHERE "@ + filter);
    let comment = or_empty(index.comment);
    let comment_clause = text_if(!blank(comment) && mysql_like(db), " COMMENT "@ + comment_text(comment));
    if mysql_like(db) {
        "CREATE "@ + unique + type_prefix + "INDEX "@ + quoted_id(index.name, db) + mysql_using + " ON "@ + table
            + " ("@ + columns + ")"@ + comment_clause + ";"@
    } else {
        "CREATE "@ + unique + type_prefix + "INDEX "@ + quoted_id(index.name, db) + " ON "@ + table + using_clause
            + " ("@ + columns + ")"@ + include_clause + filter_clause + ";"@
    }
}

fn str_or_empty(o: &Option<String>) -> (r: &str)
    ensures
        r@ == or_empty(opt_text(*o)),
{
    proof {
        reveal_strlit("");
    }
    match o {
        Some(s) => s.as_str(),
        None => "",
    }
}

/// Builds the statement creating an index.
pub fn create_index_sql(table_name: &str, index: &IndexInfo, db: DatabaseType, schema: Option<&str>) -> (r: String)
    ensures
        r@ == create_index_text(table_name@, index@, db, opt_str(schema)),
{
    proof {
        reveal_strlit("");
    }
    let mysql = is_mysql_like(db);
    let table = qualified_name(table_name, db, schema);
    let columns = quoted_list_exec(&index.columns, db);
    let unique = if index.is_unique {
        "UNIQUE "
    } else {
        ""
    };
    let index_type = str_or_empty(&index.index_type);
    let has_type = index_type.unicode_len() > 0;
    let using_clause = if has_type && db == DatabaseType::Postgres {
        concat(" USING ", index_type)
    } else {
        String::new()
    };
    let type_prefix = if has_type && db == DatabaseType::SqlServer {
        concat(index_type, " ")
    } else {
        String::new()
    };
    let mysql_using = if has_type && mysql {
        concat(" USING ", index_type)
    } else {
        String::new()
    };
    let empty: Vec<String> = Vec::new();
    let included: &Vec<String> = match &index.included_columns {
        Some(v) => v,
        None => &empty,
    };
    assert(string_views(empty@) =~= Seq::<Seq<char>>::empty());
    let include_clause = if included.len() > 0 && (db == DatabaseType::Postgres || db == DatabaseType::SqlServer) {
        let list = quoted_list_exec(included, db);
        concat3(" INCLUDE (", list.as_str(), ")")
    } else {
        String::new()
    };
    let supports_where = db == DatabaseType::Postgres || db == DatabaseType::SqlServer || db == DatabaseType::Sqlite;
    let filter = if supports_where {
        str_or_empty(&index.filter)
    } else {
        ""
    };
    let filter_clause = if filter.unicode_len() > 0 {
        concat(" WHERE ", filter)
    } else {
        String::new()
    };
    let comment = str_or_empty(&index.comment);
    let comment_clause = if !is_blank(comment) && mysql {
        let lit = comment_literal(comment);
        concat(" COMMENT ", lit.as_str())
    } else {
        String::new()
    };
    let name = quote_id(index.name.as_str(), db);
    let mut r = concat3("CREATE ", unique, type_prefix.as_str());
    r.append("INDEX ");
    r.append(name.as_str());
    if mysql {
        r.append(mysql_using.as_str());
        r.append(" ON ");
        r.append(table.as_str());
        r.append(" (");
        r.append(columns.as_str());
        r.append(")");
        r.append(comment_clause.as_str());
        r.append(";");
    } else {
        r.append(" ON ");
        r.append(table.as_str());
        r.append(using_clause.as_str());
        r.append(" (");
        r.append(columns.as_str());
        r.append(")");
        r.append(include_clause.as_str());
        r.append(filter_clause.as_str());
        r.append(";");
    }
    r
}

/// The statement dropping a foreign key.
pub open spec fn drop_foreign_key_text(table: Seq<char>, fk: Seq<char>, db: DatabaseType, schema: Option<Seq<char>>) -> Seq<
    char,
> {
    "ALTER TABLE "@ + qualified(table, db, schema) + if mysql_like(db) {
        " DROP FOREIGN KEY "@
    } else {
        " DROP CONSTRAINT "@
    } + quoted_id(fk, db) + ";"@
}

/// Builds the statement dropping a foreign key.
pub fn drop_foreign_key_sql(table_name: &str, fk_name: &str, db: DatabaseType, schema: Option<&str>) -> (r: String)
    ensures
        r@ == drop_foreign_key_text(table_name@, fk_name@, db, opt_str(schema)),
{
    let table = qualified_name(table_name, db, schema);
    let fk = quote_id(fk_name, db);
    let verb = if is_mysql_like(db) {
        " DROP FOREIGN KEY "
    } else {
        " DROP CONSTRAINT "
    };
    let mut r = concat3("ALTER TABLE ", table.as_str(), verb);
    r.append(fk.as_str());
    r.append(";");
    r
}

/// The statement adding a foreign key.
pub open spec fn add_foreign_key_text(table: Seq<char>, fk: ForeignKeyInfo, db: DatabaseType, schema: Option<Seq<char>>) -> Seq<
    char,
> {
    "ALTER TABLE "@ + qualified(table, db, schema) + " ADD CONSTRAINT "@ + quoted_id(fk.name@, db) + " FOREIGN KEY ("@
        + quoted_id(fk.column@, db) + ") REFERENCES "@ + quoted_id(fk.ref_table@, db) + " ("@ + quoted_id(
        fk.ref_column@,
        db,
    ) + ");"@
}

/// Builds the statement adding a foreign key.
pub fn add_foreign_key_sql(table_name: &str, fk: &ForeignKeyInfo, db: DatabaseType, schema: Option<&str>) -> (r: String)
    ensures
        r@ == add_foreign_key_text(table_name@, *fk, db, opt_str(schema)),
{
    let table = qualified_name(table_name, db, schema);
    let name = quote_id(fk.name.as_str(), db);
    let column = quote_id(fk.column.as_str(), db);
    let ref_table = quote_id(fk.ref_table.as_str(), db);
    let ref_column = quote_id(fk.ref_column.as_str(), db);
    let mut r = concat3("ALTER TABLE ", table.as_str(), " ADD CONSTRAINT ");
    r.append(name.as_str());
    r.append(" FOREIGN KEY (");
    r.append(column.as_str());
    r.append(") REFERENCES ");
    r.append(ref_table.as_str());
    r.append(" (");
    r.append(ref_column.as_str());
    r.append(");");
    r
}

/// The statement setting a column comment (MySQL sets it in the column
/// definition instead, so only a note is written there).
pub open spec fn column_comment_text(table: Seq<char>, column: Seq<char>, comment: Seq<char>, db: DatabaseType, schema: Option<
    Seq<char>,
>) -> Seq<char> {
    if mysql_like(db) {
        "-- Column comment for "@ + column + ": use ALTER TABLE ... MODIFY COLUMN to set comment in MySQL"@
    } else {
        "COMMENT ON COLUMN "@ + qualified(table, db, schema) + "."@ + quoted_id(column, db) + " IS "@ + comment_text(
            comment,
        ) + ";"@
    }
}

/// Builds the statement setting a column comment.
pub fn column_comment_sql(
    table_name: &str,
    column_name: &str,
    comment: &str,
    db: DatabaseType,
    schema: Option<&str>,
) -> (r: String)
    ensures
        r@ == column_comment_text(table_name@, column_name@, comment@, db, opt_str(schema)),
{
    if is_mysql_like(db) {
        return concat3(
            "-- Column comment for ",
            column_name,
            ": use ALTER TABLE ... MODIFY COLUMN to set comment in MySQL",
        );
    }
    let table = qualified_name(table_name, db, schema);
    let col = quote_id(column_name, db);
    let lit = comment_literal(comment);
    let mut r = concat3("COMMENT ON COLUMN ", table.as_str(), ".");
    r.append(col.as_str());
    r.append(" IS ");
    r.append(lit.as_str());
    r.append(";");
    r
}

/// The statement setting a table comment.
pub open spec fn table_comment_text(table: Seq<char>, comment: Seq<char>, db: DatabaseType, schema: Option<Seq<char>>) -> Seq<
    char,
> {
    if mysql_like(db) {
        "ALTER TABLE "@ + qualified(table, db, schema) + " COMMENT = "@ + comment_text(comment) + ";"@
    } else {
        "COMMENT ON TABLE "@ + qualified(table, db, schema) + " IS "@ + comment_text(comment) + ";"@
    }
}

/// Builds the statement setting a table comment.
pub fn table_comment_sql(table_name: &str, comment: &str, db: DatabaseType, schema: Option<&str>) -> (r: String)
    ensures
        r@ == table_comment_text(table_name@, comment@, db, opt_str(schema)),
{
    let table = qualified_name(table_name, db, schema);
    let lit = comment_literal(comment);
    let mut r = if is_mysql_like(db) {
        concat3("ALTER TABLE ", table.as_str(), " COMMENT = ")
    } else {
        concat3("COMMENT ON TABLE ", table.as_str(), " IS ")
    };
    r.append(lit.as_str());
    r.append(";");
    r
}

/// The object a grant names: MySQL writes `` `schema`.`object` `` (both
/// escaped); others write the object type and `"schema"."object"`, where only
/// the object name is escaped.
pub open spec fn grant_object(p: PermissionInfo, db: DatabaseType, schema: Option<Seq<char>>) -> Seq<char> {
    if mysql_like(db) {
        match schema {
            Some(sch) => "`"@ + doubled(sch, '`') + "`.`"@ + doubled(p.object_name@, '`') + "`"@,
            None => "`"@ + doubled(p.object_name@, '`') + "`"@,
        }
    } else {
        match schema {
            Some(sch) => p.object_type@ + " \""@ + sch + "\".\""@ + doubled(p.object_name@, '"') + "\""@,
            None => p.object_type@ + " \""@ + doubled(p.object_name@, '"') + "\""@,
        }
    }
}

/// The grantee as written in a grant: in single quotes for MySQL, double
/// quotes otherwise, the quote character doubled.
pub open spec fn grantee_text(p: PermissionInfo, db: DatabaseType) -> Seq<char> {
    if mysql_like(db) {
        "'"@ + doubled(p.grantee@, '\'') + "'"@
    } else {
        "\""@ + doubled(p.grantee@, '"') + "\""@
    }
}

/// The `GRANT` statement restoring a grant found only in the source.
pub open spec fn grant_text(p: PermissionInfo, db: DatabaseType, schema: Option<Seq<char>>) -> Seq<char> {
    "GRANT "@ + p.privilege@ + " ON "@ + grant_object(p, db, schema) + " TO "@ + grantee_text(p, db) + text_if(
        p.is_grantable,
        " WITH GRANT OPTION"@,
    ) + ";"@
}

/// The `REVOKE` statement removing a grant found only in the target.
pub open spec fn revoke_text(p: PermissionInfo, db: DatabaseType, schema: Option<Seq<char>>) -> Seq<char> {
    "REVOKE "@ + p.privilege@ + " ON "@ + grant_object(p, db, schema) + " FROM "@ + grantee_text(p, db) + ";"@
}

/// The statements for a list of grant differences, in order: a `GRANT` for
/// each added grant, a `REVOKE` for each removed one.
pub open spec fn permission_lines(
    diffs: Seq<crate::schema_diff::PermissionDiffView>,
    db: DatabaseType,
    schema: Option<Seq<char>>,
) -> Seq<Seq<char>>
    decreases diffs.len(),
{
    if diffs.len() == 0 {
        Seq::empty()
    } else {
        let rest = permission_lines(diffs.drop_last(), db, schema);
        let d = diffs.last();
        if d.diff_type == "added"@ && d.source is Some {
            rest.push(grant_text(d.source->0, db, schema))
        } else if d.diff_type == "removed"@ && d.target is Some {
            rest.push(revoke_text(d.target->0, db, schema))
        } else {
            rest
        }
    }
}

fn grant_object_exec(p: &PermissionInfo, db: DatabaseType, schema: Option<&str>) -> (r: String)
    ensures
        r@ == grant_object(*p, db, opt_str(schema)),
{
    if is_mysql_like(db) {
        let obj = double_char(p.object_name.as_str(), '`');
        match schema {
            Some(sch) => {
                let s = double_char(sch, '`');
                let mut r = concat3("`", s.as_str(), "`.`");
                r.append(obj.as_str());
                r.append("`");
                r
            },
            None => concat3("`", obj.as_str(), "`"),
        }
    } else {
        let obj = double_char(p.object_name.as_str(), '"');
        match schema {
            Some(sch) => {
                let mut r = concat3(p.object_type.as_str(), " \"", sch);
                r.append("\".\"");
                r.append(obj.as_str());
                r.append("\"");
                r
            },
            None => {
                let mut r = concat3(p.object_type.as_str(), " \"", obj.as_str());
                r.append("\"");
                r
            },
        }
    }
}

fn grantee_exec(p: &PermissionInfo, db: DatabaseType) -> (r: String)
    ensures
        r@ == grantee_text(*p, db),
{
    if is_mysql_like(db) {
        let g = double_char(p.grantee.as_str(), '\'');
        concat3("'", g.as_str(), "'")
    } else {
        let g = double_char(p.grantee.as_str(), '"');
        concat3("\"", g.as_str(), "\"")
    }
}

/// Builds the `GRANT` and `REVOKE` statements for grant differences, one per
/// line.
pub fn generate_permission_sync_sql(diffs: &Vec<PermissionDiff>, db: DatabaseType, schema: Option<&str>) -> (r: String)
    ensures
        r@ == join_seq(
            permission_lines(crate::schema_diff::views_of(diffs@), db, opt_str(schema)),
            "\n"@,
        ),
{
    let ghost dv = crate::schema_diff::views_of(diffs@);
    let mut lines: Vec<String> = Vec::new();
    let mut i: usize = 0;
    while i < diffs.len()
        invariant
            i <= diffs.len(),
            dv == crate::schema_diff::views_of(diffs@),
            string_views(lines@) == permission_lines(dv.subrange(0, i as int), db, opt_str(schema)),
        decreases diffs.len() - i,
    {
        proof {
            crate::schema_diff::lemma_prefix_step(dv, i as int);
        }
        let d = &diffs[i];
        assert(dv[i as int] == d@);
        let added = crate::text::str_eq(d.diff_type.as_str(), "added");
        let removed = crate::text::str_eq(d.diff_type.as_str(), "removed");
        if added && d.source.is_some() {
            let p = d.source.as_ref().unwrap();
            let obj = grant_object_exec(p, db, schema);
            let who = grantee_exec(p, db);
            let mut line = concat3("GRANT ", p.privilege.as_str(), " ON ");
            line.append(obj.as_str());
            line.append(" TO ");
            line.append(who.as_str());
            if p.is_grantable {
                line.append(" WITH GRANT OPTION");
            }
            line.append(";");
            proof {
                lemma_string_views_push(lines@, line);
            }
            lines.push(line);
        } else if removed && d.target.is_some() {
            let p = d.target.as_ref().unwrap();
            let obj = grant_object_exec(p, db, schema);
            let who = grantee_exec(p, db);
            let mut line = concat3("REVOKE ", p.privilege.as_str(), " ON ");
            line.append(obj.as_str());
            line.append(" FROM ");
            line.append(who.as_str());
            line.append(";");
            proof {
                lemma_string_views_push(lines@, line);
            }
            lines.push(line);
        }
        i = i + 1;
    }
    assert(dv.subrange(0, diffs.len() as int) =~= dv);
    join_strings(lines.as_slice(), "\n")
}

} // verus!
