//! What is in the database: the queries that ask for it, and the answers.
use super::{Column, DataSourceError, Schema, Table, TableKind};
use crate::text;
use vstd::prelude::*;

verus! {

pub const LIST_SCHEMAS: &'static str = "
SELECT n.nspname AS name,
       (n.nspname = 'information_schema' OR n.nspname ~ '^pg_') AS is_system
FROM pg_catalog.pg_namespace n
ORDER BY is_system, n.nspname
";

pub const LIST_TABLES: &'static str = "
SELECT c.relname AS name, c.relkind::text AS kind
FROM pg_catalog.pg_class c
JOIN pg_catalog.pg_namespace n ON n.oid = c.relnamespace
WHERE n.nspname = $1
  AND c.relkind = ANY (ARRAY['r','p','v','m','f'])
ORDER BY c.relname
";

pub const LIST_COLUMNS: &'static str = "
SELECT a.attname                                   AS name,
       pg_catalog.format_type(a.atttypid, a.atttypmod) AS data_type,
       NOT a.attnotnull                            AS is_nullable,
       pg_catalog.pg_get_expr(d.adbin, d.adrelid)  AS default_expr,
       a.attnum                                    AS ordinal,
       COALESCE(pk.is_pk, false)                   AS is_primary_key
FROM pg_catalog.pg_attribute a
JOIN pg_catalog.pg_class c     ON c.oid = a.attrelid
JOIN pg_catalog.pg_namespace n ON n.oid = c.relnamespace
LEFT JOIN pg_catalog.pg_attrdef d ON d.adrelid = a.attrelid AND d.adnum = a.attnum
LEFT JOIN LATERAL (
    SELECT true AS is_pk
    FROM pg_catalog.pg_index i
    WHERE i.indrelid = c.oid AND i.indisprimary AND a.attnum = ANY (i.indkey)
) pk ON true
WHERE n.nspname = $1 AND c.relname = $2
  AND a.attnum > 0 AND NOT a.attisdropped
ORDER BY a.attnum
";

/// What the server's letter for a kind of table means.
pub open spec fn kind_of(letter: Seq<char>) -> Option<TableKind> {
    if letter == "r"@ {
        Some(TableKind::Table)
    } else if letter == "p"@ {
        Some(TableKind::PartitionedTable)
    } else if letter == "v"@ {
        Some(TableKind::View)
    } else if letter == "m"@ {
        Some(TableKind::MaterializedView)
    } else if letter == "f"@ {
        Some(TableKind::ForeignTable)
    } else {
        None
    }
}

/// The letter that the server has for a kind of table.
pub open spec fn letter_of(kind: TableKind) -> char {
    match kind {
        TableKind::Table => 'r',
        TableKind::PartitionedTable => 'p',
        TableKind::View => 'v',
        TableKind::MaterializedView => 'm',
        TableKind::ForeignTable => 'f',
    }
}

/// A text stands for a kind of table exactly if it is the server's letter for it, so for at most one;
/// every kind has a letter.
pub proof fn law_each_kind_has_its_letter(letter: Seq<char>, kind: TableKind)
    ensures
        kind_of(letter) == Some(kind) <==> letter == seq![letter_of(kind)],
{
    reveal_strlit("r");
    reveal_strlit("p");
    reveal_strlit("v");
    reveal_strlit("m");
    reveal_strlit("f");
    assert("r"@ =~= seq!['r']);
    assert("p"@ =~= seq!['p']);
    assert("v"@ =~= seq!['v']);
    assert("m"@ =~= seq!['m']);
    assert("f"@ =~= seq!['f']);
    let own = seq![letter_of(kind)];
    assert(own[0] == letter_of(kind));
}

/// Reads the server's letter for a kind of table.
pub fn relkind_from_str(kind: &str) -> (r: Result<TableKind, DataSourceError>)
    ensures
        match kind_of(kind@) {
            Some(k) => r == Ok::<TableKind, DataSourceError>(k),
            None => r matches Err(DataSourceError::UnexpectedRelkind { kind: other }) && other@
                == kind@,
        },
{
    if text::same_text(kind, "r") {
        Ok(TableKind::Table)
    } else if text::same_text(kind, "p") {
        Ok(TableKind::PartitionedTable)
    } else if text::same_text(kind, "v") {
        Ok(TableKind::View)
    } else if text::same_text(kind, "m") {
        Ok(TableKind::MaterializedView)
    } else if text::same_text(kind, "f") {
        Ok(TableKind::ForeignTable)
    } else {
        Err(DataSourceError::UnexpectedRelkind { kind: kind.to_owned() })
    }
}

/// A row of `LIST_SCHEMAS`.
pub fn row_to_schema(name: String, is_system: bool) -> (s: Schema)
    ensures
        s == (Schema { name, is_system }),
{
    Schema { name, is_system }
}

/// A row of `LIST_TABLES`.
pub fn row_to_table(name: String, kind: &str) -> (r: Result<Table, DataSourceError>)
    ensures
        match kind_of(kind@) {
            Some(k) => r == Ok::<Table, DataSourceError>(Table { name, kind: k }),
            None => r matches Err(DataSourceError::UnexpectedRelkind { kind: other }) && other@
                == kind@,
        },
{
    match relkind_from_str(kind) {
        Ok(kind) => Ok(Table { name, kind }),
        Err(e) => Err(e),
    }
}

/// A row of `LIST_COLUMNS`.
pub fn row_to_column(
    name: String,
    data_type: String,
    is_nullable: bool,
    default_expr: Option<String>,
    ordinal: i16,
    is_primary_key: bool,
) -> (c: Column)
    ensures
        c == (Column { name, data_type, is_nullable, default_expr, ordinal, is_primary_key }),
{
    Column { name, data_type, is_nullable, default_expr, ordinal, is_primary_key }
}

} // verus!
