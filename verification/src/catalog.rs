//! `pg_catalog` system tables: PostgreSQL's catalog (`pg_class`,
//! `pg_namespace`, `pg_attribute`, `pg_roles`, `pg_am`, `pg_get_tabledef` and
//! empty stand-ins for the rest) computed from the engine's schema.

use vstd::prelude::*;
use crate::schema::{BTreeTable, Column, LimboError, Schema, Table, Value, ValueView, row_view, rows_view};
use crate::text::{has_prefix, seq_lt, str_eq, str_lt, starts_with};

verus! {

/// First OID given to a user table (PostgreSQL's convention).
pub const USER_TABLE_OID_START: i64 = 16384;

/// OID of the `public` namespace.
pub const PUBLIC_NAMESPACE_OID: i64 = 2200;

// ---------------------------------------------------------------------------
// User tables in name order
// ---------------------------------------------------------------------------

/// Names of the engine's own tables, which the catalog does not list.
pub open spec fn is_system_table_name(n: Seq<char>) -> bool {
    ||| n == "sqlite_schema"@
    ||| n == "sqlite_master"@
    ||| has_prefix(n, "pg_"@)
    ||| has_prefix(n, "pragma_"@)
    ||| has_prefix(n, "json_"@)
    ||| n == "sqlite_dbpage"@
}

/// A schema entry that the catalog lists as a user table: an ordinary
/// (B-tree) table whose name is not a system name.
pub open spec fn is_user_entry(e: (String, Table)) -> bool {
    !is_system_table_name(e.0@) && e.1 is BTree
}

/// Entries in strictly increasing name order.
pub open spec fn sorted_by_name(s: Seq<(String, Table)>) -> bool {
    forall|i: int, j: int| 0 <= i < j < s.len() ==> seq_lt(#[trigger] s[i].0@, #[trigger] s[j].0@)
}

/// `s` lists exactly the user tables of `schema`, in name order.
pub open spec fn is_user_table_listing(schema: &Schema, s: Seq<(String, Table)>) -> bool {
    &&& sorted_by_name(s)
    &&& forall|i: int|
        0 <= i < s.len() ==> is_user_entry(#[trigger] s[i]) && schema.tables@.contains(s[i])
    &&& forall|k: int|
        0 <= k < schema.tables@.len() && is_user_entry(#[trigger] schema.tables@[k]) ==> s.contains(
            schema.tables@[k],
        )
}

/// The user tables of `schema` in name order.
pub open spec fn user_tables(schema: &Schema) -> Seq<(String, Table)> {
    choose|s: Seq<(String, Table)>| is_user_table_listing(schema, s)
}

/// The entries that a list of references points to.
pub open spec fn deref_pairs(s: Seq<(&String, &Table)>) -> Seq<(String, Table)> {
    s.map_values(|p: (&String, &Table)| (*p.0, *p.1))
}

/// The columns of a listed user table.
pub open spec fn table_columns(t: Table) -> Seq<Column> {
    match t {
        Table::BTree(b) => b.columns@,
        _ => Seq::empty(),
    }
}

/// Whether the entry `name`/`table` is a user table.
fn is_user_table(name: &String, table: &Table) -> (r: bool)
    ensures
        r == is_user_entry((*name, *table)),
{
    let n = name.as_str();
    if str_eq(n, "sqlite_schema") || str_eq(n, "sqlite_master") || starts_with(n, "pg_")
        || starts_with(n, "pragma_") || starts_with(n, "json_") || str_eq(n, "sqlite_dbpage") {
        return false;
    }
    match table {
        Table::BTree(_) => true,
        _ => false,
    }
}

/// Inserting an element at its place keeps a sequence sorted.
proof fn lemma_insert_sorted(s: Seq<(String, Table)>, j: int, x: (String, Table))
    requires
        sorted_by_name(s),
        0 <= j <= s.len(),
        forall|k: int| 0 <= k < j ==> seq_lt(#[trigger] s[k].0@, x.0@),
        forall|k: int| j <= k < s.len() ==> seq_lt(x.0@, #[trigger] s[k].0@),
    ensures
        sorted_by_name(s.insert(j, x)),
{
    let t = s.insert(j, x);
    assert forall|a: int, b: int| 0 <= a < b < t.len() implies seq_lt(#[trigger] t[a].0@, #[trigger] t[b].0@) by {
        if a < j {
            if b < j {
                assert(t[a] == s[a] && t[b] == s[b]);
            } else if b == j {
                assert(t[a] == s[a]);
            } else {
                assert(t[a] == s[a] && t[b] == s[b - 1]);
            }
        } else if a == j {
            assert(t[b] == s[b - 1]);
        } else {
            assert(t[a] == s[a - 1] && t[b] == s[b - 1]);
        }
    }
}

/// Two sorted listings holding the same entries are equal.
proof fn lemma_sorted_unique(s1: Seq<(String, Table)>, s2: Seq<(String, Table)>)
    requires
        sorted_by_name(s1),
        sorted_by_name(s2),
        forall|i: int| 0 <= i < s1.len() ==> s2.contains(#[trigger] s1[i]),
        forall|i: int| 0 <= i < s2.len() ==> s1.contains(#[trigger] s2[i]),
    ensures
        s1 == s2,
    decreases s1.len(),
{
    if s1.len() == 0 {
        if s2.len() > 0 {
            assert(s1.contains(s2[0]));
        }
        assert(s1 =~= s2);
    } else {
        assert(s2.contains(s1[0]));
        let j = choose|j: int| 0 <= j < s2.len() && s2[j] == s1[0];
        assert(s1.contains(s2[0]));
        let k = choose|k: int| 0 <= k < s1.len() && s1[k] == s2[0];
        if j > 0 {
            assert(seq_lt(s2[0].0@, s2[j].0@));
            if k == 0 {
                crate::text::lemma_seq_lt_irreflexive(s1[0].0@);
            } else {
                assert(seq_lt(s1[0].0@, s1[k].0@));
                crate::text::lemma_seq_lt_transitive(s1[0].0@, s2[0].0@, s1[0].0@);
                crate::text::lemma_seq_lt_irreflexive(s1[0].0@);
            }
        }
        assert(s1[0] == s2[0]);
        let r1 = s1.drop_first();
        let r2 = s2.drop_first();
        assert forall|a: int| 0 <= a < r1.len() implies r2.contains(#[trigger] r1[a]) by {
            let e = r1[a];
            assert(s1[a + 1] == e);
            assert(seq_lt(s1[0].0@, s1[a + 1].0@));
            if e == s1[0] {
                crate::text::lemma_seq_lt_irreflexive(e.0@);
            }
            assert(s2.contains(e));
            let b = choose|b: int| 0 <= b < s2.len() && s2[b] == e;
            assert(b != 0);
            assert(r2[b - 1] == e);
        }
        assert forall|a: int| 0 <= a < r2.len() implies r1.contains(#[trigger] r2[a]) by {
            let e = r2[a];
            assert(s2[a + 1] == e);
            assert(seq_lt(s2[0].0@, s2[a + 1].0@));
            if e == s2[0] {
                crate::text::lemma_seq_lt_irreflexive(e.0@);
            }
            assert(s1.contains(e));
            let b = choose|b: int| 0 <= b < s1.len() && s1[b] == e;
            assert(b != 0);
            assert(r1[b - 1] == e);
        }
        assert forall|a: int, b: int| 0 <= a < b < r1.len() implies seq_lt(#[trigger] r1[a].0@, #[trigger] r1[b].0@) by {
            assert(r1[a] == s1[a + 1] && r1[b] == s1[b + 1]);
        }
        assert forall|a: int, b: int| 0 <= a < b < r2.len() implies seq_lt(#[trigger] r2[a].0@, #[trigger] r2[b].0@) by {
            assert(r2[a] == s2[a + 1] && r2[b] == s2[b + 1]);
        }
        lemma_sorted_unique(r1, r2);
        assert(s1 =~= seq![s1[0]] + r1);
        assert(s2 =~= seq![s2[0]] + r2);
    }
}

/// Position at which an entry named `name` goes in a sorted listing.
pub open spec fn insert_pos(s: Seq<(String, Table)>, name: Seq<char>) -> int
    decreases s.len(),
{
    if s.len() == 0 {
        0
    } else if seq_lt(s.last().0@, name) {
        s.len() as int
    } else {
        insert_pos(s.drop_last(), name)
    }
}

proof fn lemma_insert_pos(s: Seq<(String, Table)>, name: Seq<char>)
    requires
        sorted_by_name(s),
        forall|k: int| 0 <= k < s.len() ==> (#[trigger] s[k]).0@ != name,
    ensures
        0 <= insert_pos(s, name) <= s.len(),
        forall|k: int| 0 <= k < insert_pos(s, name) ==> seq_lt(#[trigger] s[k].0@, name),
        forall|k: int| insert_pos(s, name) <= k < s.len() ==> seq_lt(name, #[trigger] s[k].0@),
    decreases s.len(),
{
    if s.len() > 0 {
        let n = s.len() - 1;
        if seq_lt(s.last().0@, name) {
            assert forall|k: int| 0 <= k < s.len() implies seq_lt(#[trigger] s[k].0@, name) by {
                if k < n {
                    assert(seq_lt(s[k].0@, s[n].0@));
                    crate::text::lemma_seq_lt_transitive(s[k].0@, s[n].0@, name);
                }
            }
        } else {
            let init = s.drop_last();
            assert forall|a: int, b: int| 0 <= a < b < init.len() implies seq_lt(#[trigger] init[a].0@, #[trigger] init[b].0@) by {
                assert(init[a] == s[a] && init[b] == s[b]);
            }
            assert forall|k: int| 0 <= k < init.len() implies (#[trigger] init[k]).0@ != name by {
                assert(init[k] == s[k]);
            }
            lemma_insert_pos(init, name);
            assert(s[n].0@ != name);
            crate::text::lemma_seq_lt_total(s[n].0@, name);
            assert forall|k: int| 0 <= k < insert_pos(s, name) implies seq_lt(#[trigger] s[k].0@, name) by {
                assert(init[k] == s[k]);
            }
            assert forall|k: int| insert_pos(s, name) <= k < s.len() implies seq_lt(name, #[trigger] s[k].0@) by {
                if k < n {
                    assert(init[k] == s[k]);
                }
            }
        }
    }
}

/// The user tables among the first `n` schema entries, in name order.
pub open spec fn listing_upto(schema: &Schema, n: int) -> Seq<(String, Table)>
    decreases n,
{
    if n <= 0 {
        Seq::empty()
    } else {
        let s = listing_upto(schema, n - 1);
        let e = schema.tables@[n - 1];
        if is_user_entry(e) {
            s.insert(insert_pos(s, e.0@), e)
        } else {
            s
        }
    }
}

proof fn lemma_listing_upto(schema: &Schema, n: int)
    requires
        schema.wf(),
        0 <= n <= schema.tables@.len(),
    ensures
        sorted_by_name(listing_upto(schema, n)),
        forall|a: int|
            0 <= a < listing_upto(schema, n).len() ==> is_user_entry(#[trigger] listing_upto(schema, n)[a])
                && exists|k: int| 0 <= k < n && schema.tables@[k] == listing_upto(schema, n)[a],
        forall|k: int|
            0 <= k < n && is_user_entry(#[trigger] schema.tables@[k]) ==> listing_upto(schema, n).contains(
                schema.tables@[k],
            ),
    decreases n,
{
    if n > 0 {
        lemma_listing_upto(schema, n - 1);
        let s = listing_upto(schema, n - 1);
        let e = schema.tables@[n - 1];
        if is_user_entry(e) {
            assert forall|k: int| 0 <= k < s.len() implies (#[trigger] s[k]).0@ != e.0@ by {
                assert(is_user_entry(s[k]));
                let i = choose|i: int| 0 <= i < n - 1 && schema.tables@[i] == s[k];
            }
            lemma_insert_pos(s, e.0@);
            let p = insert_pos(s, e.0@);
            lemma_insert_sorted(s, p, e);
            let t = s.insert(p, e);
            assert(listing_upto(schema, n) == t);
            assert forall|a: int| 0 <= a < t.len() implies is_user_entry(#[trigger] t[a])
                && exists|k: int| 0 <= k < n && schema.tables@[k] == t[a] by {
                if a < p {
                    assert(t[a] == s[a]);
                    assert(is_user_entry(s[a]));
                } else if a > p {
                    assert(t[a] == s[a - 1]);
                    assert(is_user_entry(s[a - 1]));
                } else {
                    assert(schema.tables@[n - 1] == t[a]);
                }
            }
            assert forall|k: int| 0 <= k < n && is_user_entry(#[trigger] schema.tables@[k]) implies t.contains(
                schema.tables@[k],
            ) by {
                if k < n - 1 {
                    assert(s.contains(schema.tables@[k]));
                    let a = choose|a: int| 0 <= a < s.len() && s[a] == schema.tables@[k];
                    if a < p {
                        assert(t[a] == schema.tables@[k]);
                    } else {
                        assert(t[a + 1] == schema.tables@[k]);
                    }
                } else {
                    assert(t[p] == schema.tables@[k]);
                }
            }
        }
    }
}

/// The schema's user tables can be listed in name order, so
/// [`user_tables`] is such a listing.
pub proof fn lemma_user_tables_exist(schema: &Schema)
    requires
        schema.wf(),
    ensures
        is_user_table_listing(schema, user_tables(schema)),
{
    let n = schema.tables@.len() as int;
    lemma_listing_upto(schema, n);
    let s = listing_upto(schema, n);
    assert forall|a: int| 0 <= a < s.len() implies is_user_entry(#[trigger] s[a]) && schema.tables@.contains(s[a]) by {
        let k = choose|k: int| 0 <= k < n && schema.tables@[k] == s[a];
    }
    assert(is_user_table_listing(schema, s));
}

/// Any listing of the user tables is the listing [`user_tables`].
pub proof fn lemma_user_tables_unique(schema: &Schema, s: Seq<(String, Table)>)
    requires
        is_user_table_listing(schema, s),
    ensures
        user_tables(schema) == s,
{
    let u = user_tables(schema);
    assert(is_user_table_listing(schema, u));
    assert forall|i: int| 0 <= i < u.len() implies s.contains(#[trigger] u[i]) by {
        let k = choose|k: int| 0 <= k < schema.tables@.len() && schema.tables@[k] == u[i];
        assert(is_user_entry(schema.tables@[k]));
    }
    assert forall|i: int| 0 <= i < s.len() implies u.contains(#[trigger] s[i]) by {
        let k = choose|k: int| 0 <= k < schema.tables@.len() && schema.tables@[k] == s[i];
        assert(is_user_entry(schema.tables@[k]));
    }
    lemma_sorted_unique(u, s);
}

/// The user tables of `schema` (ordinary tables whose names are not system
/// names), in name order.  `pg_class` and `pg_attribute` both number tables
/// by their position in this listing, so their OIDs agree.
pub fn user_tables_sorted(schema: &Schema) -> (res: Vec<(&String, &Table)>)
    requires
        schema.wf(),
    ensures
        is_user_table_listing(schema, deref_pairs(res@)),
        deref_pairs(res@) == user_tables(schema),
{
    let mut res: Vec<(&String, &Table)> = Vec::new();
    let mut i: usize = 0;
    while i < schema.tables.len()
        invariant
            schema.wf(),
            i <= schema.tables@.len(),
            sorted_by_name(deref_pairs(res@)),
            forall|a: int|
                0 <= a < deref_pairs(res@).len() ==> is_user_entry(#[trigger] deref_pairs(res@)[a])
                    && exists|k: int| 0 <= k < i && schema.tables@[k] == deref_pairs(res@)[a],
            forall|k: int|
                0 <= k < i && is_user_entry(#[trigger] schema.tables@[k]) ==> deref_pairs(res@).contains(
                    schema.tables@[k],
                ),
        decreases schema.tables.len() - i,
    {
        let ghost before = deref_pairs(res@);
        let entry = &schema.tables[i];
        if is_user_table(&entry.0, &entry.1) {
            let mut j: usize = 0;
            while j < res.len() && str_lt(res[j].0.as_str(), entry.0.as_str())
                invariant
                    j <= res@.len(),
                    before == deref_pairs(res@),
                    forall|k: int| 0 <= k < j ==> seq_lt(#[trigger] before[k].0@, entry.0@),
                decreases res.len() - j,
            {
                j = j + 1;
            }
            proof {
                if j < res@.len() {
                    // The entry at `j` comes from an earlier position, so its name differs.
                    assert(is_user_entry(before[j as int]));
                    let k = choose|k: int| 0 <= k < i && schema.tables@[k] == before[j as int];
                    assert(schema.tables@[k].0@ != schema.tables@[i as int].0@);
                    crate::text::lemma_seq_lt_total(before[j as int].0@, entry.0@);
                    assert forall|k2: int| j <= k2 < before.len() implies seq_lt(entry.0@, #[trigger] before[k2].0@) by {
                        if k2 > j {
                            assert(seq_lt(before[j as int].0@, before[k2].0@));
                            crate::text::lemma_seq_lt_transitive(entry.0@, before[j as int].0@, before[k2].0@);
                        }
                    }
                }
                lemma_insert_sorted(before, j as int, *entry);
            }
            res.insert(j, (&entry.0, &entry.1));
            proof {
                let after = deref_pairs(res@);
                assert(after =~= before.insert(j as int, *entry));
                assert forall|a: int| 0 <= a < after.len() implies is_user_entry(#[trigger] after[a])
                    && exists|k: int| 0 <= k < i + 1 && schema.tables@[k] == after[a] by {
                    if a < j {
                        assert(after[a] == before[a]);
                        assert(is_user_entry(before[a]));
                    } else if a > j {
                        assert(after[a] == before[a - 1]);
                        assert(is_user_entry(before[a - 1]));
                    } else {
                        assert(schema.tables@[i as int] == after[a]);
                    }
                }
                assert forall|k: int| 0 <= k < i + 1 && is_user_entry(#[trigger] schema.tables@[k]) implies after.contains(
                    schema.tables@[k]) by {
                    if k < i {
                        assert(before.contains(schema.tables@[k]));
                        let a = choose|a: int| 0 <= a < before.len() && before[a] == schema.tables@[k];
                        if a < j {
                            assert(after[a] == schema.tables@[k]);
                        } else {
                            assert(after[a + 1] == schema.tables@[k]);
                        }
                    } else {
                        assert(after[j as int] == schema.tables@[k]);
                    }
                }
            }
        }
        i = i + 1;
    }
    proof {
        let out = deref_pairs(res@);
        assert forall|a: int| 0 <= a < out.len() implies is_user_entry(#[trigger] out[a])
            && schema.tables@.contains(out[a]) by {
            let k = choose|k: int| 0 <= k < schema.tables@.len() && schema.tables@[k] == out[a];
        }
        lemma_user_tables_unique(schema, out);
    }
    res
}

// ---------------------------------------------------------------------------
// Type OIDs
// ---------------------------------------------------------------------------

/// PostgreSQL type OID for an upper-cased SQLite type name.
pub open spec fn pg_oid_for_upper(u: Seq<char>) -> i64 {
    if u == "INTEGER"@ || u == "INT"@ || u == "SMALLINT"@ || u == "BIGINT"@ || u == "TINYINT"@
        || u == "MEDIUMINT"@ {
        23
    } else if u == "TEXT"@ || u == "VARCHAR"@ || u == "CHAR"@ || u == "CLOB"@ || u == "NCHAR"@
        || u == "NVARCHAR"@ {
        25
    } else if u == "REAL"@ || u == "DOUBLE"@ || u == "DOUBLE PRECISION"@ || u == "FLOAT"@ {
        701
    } else if u == "BLOB"@ {
        17
    } else if u == "NUMERIC"@ || u == "DECIMAL"@ {
        1700
    } else if u == "BOOLEAN"@ || u == "BOOL"@ {
        16
    } else {
        25
    }
}

/// PostgreSQL type OID for a declared SQLite type: the type name is
/// upper-cased (`str::to_uppercase`) and looked up.
pub open spec fn pg_type_oid(ty: Seq<char>) -> i64 {
    pg_oid_for_upper(crate::text::unicode_upper(ty))
}

/// PostgreSQL type OID for an already upper-cased SQLite type name: int4
/// (23), text (25), float8 (701), bytea (17), numeric (1700) or bool (16);
/// unknown names map to text.
pub fn pg_oid_for_upper_type_name(upper: &str) -> (r: i64)
    ensures
        r == pg_oid_for_upper(upper@),
{
    if str_eq(upper, "INTEGER") || str_eq(upper, "INT") || str_eq(upper, "SMALLINT") || str_eq(
        upper,
        "BIGINT",
    ) || str_eq(upper, "TINYINT") || str_eq(upper, "MEDIUMINT") {
        23
    } else if str_eq(upper, "TEXT") || str_eq(upper, "VARCHAR") || str_eq(upper, "CHAR") || str_eq(
        upper,
        "CLOB",
    ) || str_eq(upper, "NCHAR") || str_eq(upper, "NVARCHAR") {
        25
    } else if str_eq(upper, "REAL") || str_eq(upper, "DOUBLE") || str_eq(upper, "DOUBLE PRECISION")
        || str_eq(upper, "FLOAT") {
        701
    } else if str_eq(upper, "BLOB") {
        17
    } else if str_eq(upper, "NUMERIC") || str_eq(upper, "DECIMAL") {
        1700
    } else if str_eq(upper, "BOOLEAN") || str_eq(upper, "BOOL") {
        16
    } else {
        25
    }
}

/// Maps a SQLite type string to a PostgreSQL type OID (case-insensitively).
pub fn sqlite_type_to_pg_oid(ty_str: &str) -> (r: i64)
    ensures
        r == pg_type_oid(ty_str@),
{
    let upper = crate::text::to_uppercase(ty_str);
    pg_oid_for_upper_type_name(upper.as_str())
}

// ---------------------------------------------------------------------------
// Row contents
// ---------------------------------------------------------------------------

/// The `pg_class` row of a user table.
#[verifier::opaque]
pub open spec fn pg_class_row(oid: i64, name: Seq<char>, relnatts: i64) -> Seq<ValueView> {
    seq![
        ValueView::Integer(oid),
        ValueView::Text(name),
        ValueView::Integer(2200),
        ValueView::Integer(0),
        ValueView::Integer(0),
        ValueView::Integer(10),
        ValueView::Integer(0),
        ValueView::Integer(0),
        ValueView::Integer(0),
        ValueView::Integer(1),
        ValueView::Float(0),
        ValueView::Integer(0),
        ValueView::Integer(0),
        ValueView::Integer(0),
        ValueView::Integer(0),
        ValueView::Text("p"@),
        ValueView::Text("r"@),
        ValueView::Integer(relnatts),
        ValueView::Integer(0),
        ValueView::Integer(0),
        ValueView::Integer(0),
        ValueView::Integer(0),
        ValueView::Integer(0),
        ValueView::Integer(0),
        ValueView::Integer(1),
        ValueView::Text("d"@),
        ValueView::Integer(0),
        ValueView::Integer(0),
        ValueView::Integer(0),
        ValueView::Integer(0),
        ValueView::Null,
        ValueView::Null,
        ValueView::Null,
    ]
}

/// OID of the user table at position `k` of the name-ordered listing.
pub open spec fn table_oid(k: int) -> i64 {
    (USER_TABLE_OID_START + k) as i64
}

/// The `pg_class` rows for a listing of user tables: table `k` gets OID
/// 16384 + k.
pub open spec fn pg_class_rows_for(tables: Seq<(String, Table)>) -> Seq<Seq<ValueView>> {
    Seq::new(
        tables.len(),
        |k: int| pg_class_row(table_oid(k), tables[k].0@, table_columns(tables[k].1).len() as i64),
    )
}

/// The `pg_attribute` row of column number `attnum` (from 1) of the table
/// with OID `table_oid`.
#[verifier::opaque]
pub open spec fn attribute_row(table_oid: i64, attnum: i64, col: Column) -> Seq<ValueView> {
    seq![
        ValueView::Integer(table_oid),
        ValueView::Text(
            match col.name {
                Some(n) => n@,
                None => ""@,
            },
        ),
        ValueView::Integer(pg_type_oid(col.ty_str@)),
        ValueView::Integer(-1i64),
        ValueView::Integer(-1i64),
        ValueView::Integer(attnum),
        ValueView::Integer(0),
        ValueView::Integer(-1i64),
        ValueView::Integer(-1i64),
        ValueView::Integer(1),
        ValueView::Text("p"@),
        ValueView::Text("i"@),
        ValueView::Integer(if col.notnull { 1 } else { 0 }),
        ValueView::Integer(if col.default is Some { 1 } else { 0 }),
        ValueView::Integer(0),
        ValueView::Text(""@),
        ValueView::Text(""@),
        ValueView::Integer(0),
        ValueView::Integer(1),
        ValueView::Integer(0),
        ValueView::Integer(0),
        ValueView::Null,
        ValueView::Null,
        ValueView::Null,
        ValueView::Null,
    ]
}

/// The `pg_attribute` rows of one table, one per column in column order.
pub open spec fn table_attribute_rows(oid: i64, cols: Seq<Column>) -> Seq<Seq<ValueView>> {
    Seq::new(cols.len(), |i: int| attribute_row(oid, (i + 1) as i64, cols[i]))
}

/// The `pg_attribute` rows for a listing of user tables: the columns of
/// table `k` (OID 16384 + k), table after table.
pub open spec fn pg_attribute_rows_for(tables: Seq<(String, Table)>) -> Seq<Seq<ValueView>>
    decreases tables.len(),
{
    if tables.len() == 0 {
        Seq::empty()
    } else {
        pg_attribute_rows_for(tables.drop_last()) + table_attribute_rows(
            table_oid(tables.len() - 1),
            table_columns(tables.last().1),
        )
    }
}

/// The listing is small enough for its OIDs to fit in an `i64`.
pub open spec fn catalog_fits(schema: &Schema) -> bool {
    &&& schema.tables@.len() + USER_TABLE_OID_START <= i64::MAX
    &&& forall|k: int|
        0 <= k < schema.tables@.len() ==> table_columns(#[trigger] schema.tables@[k].1).len() < i64::MAX
}

/// Builds a `pg_class` row.
fn pg_class_row_values(oid: i64, name: &String, relnatts: i64) -> (r: Vec<Value>)
    ensures
        row_view(r) == pg_class_row(oid, name@, relnatts),
{
    let r = vec![
        Value::Integer(oid),
        Value::Text(name.clone()),
        Value::Integer(2200),
        Value::Integer(0),
        Value::Integer(0),
        Value::Integer(10),
        Value::Integer(0),
        Value::Integer(0),
        Value::Integer(0),
        Value::Integer(1),
        Value::Float(0),
        Value::Integer(0),
        Value::Integer(0),
        Value::Integer(0),
        Value::Integer(0),
        Value::build_text("p"),
        Value::build_text("r"),
        Value::Integer(relnatts),
        Value::Integer(0),
        Value::Integer(0),
        Value::Integer(0),
        Value::Integer(0),
        Value::Integer(0),
        Value::Integer(0),
        Value::Integer(1),
        Value::build_text("d"),
        Value::Integer(0),
        Value::Integer(0),
        Value::Integer(0),
        Value::Integer(0),
        Value::Null,
        Value::Null,
        Value::Null,
    ];
    reveal(pg_class_row);
    assert(row_view(r) =~= pg_class_row(oid, name@, relnatts));
    r
}

/// Builds a `pg_attribute` row.
fn attribute_row_values(table_oid: i64, attnum: i64, col: &Column) -> (r: Vec<Value>)
    ensures
        row_view(r) == attribute_row(table_oid, attnum, *col),
{
    let col_name = match &col.name {
        Some(n) => n.clone(),
        None => String::from_str(""),
    };
    let type_oid = sqlite_type_to_pg_oid(col.ty_str.as_str());
    let notnull: i64 = if col.notnull() { 1 } else { 0 };
    let has_def: i64 = if col.default.is_some() { 1 } else { 0 };
    let r = vec![
        Value::Integer(table_oid),
        Value::Text(col_name),
        Value::Integer(type_oid),
        Value::Integer(-1),
        Value::Integer(-1),
        Value::Integer(attnum),
        Value::Integer(0),
        Value::Integer(-1),
        Value::Integer(-1),
        Value::Integer(1),
        Value::build_text("p"),
        Value::build_text("i"),
        Value::Integer(notnull),
        Value::Integer(has_def),
        Value::Integer(0),
        Value::build_text(""),
        Value::build_text(""),
        Value::Integer(0),
        Value::Integer(1),
        Value::Integer(0),
        Value::Integer(0),
        Value::Null,
        Value::Null,
        Value::Null,
        Value::Null,
    ];
    reveal(attribute_row);
    assert(row_view(r) =~= attribute_row(table_oid, attnum, *col));
    r
}

/// The `pg_class` rows of `schema`: one per user table, in name order, with
/// OIDs from 16384 up.
pub fn pg_class_rows(schema: &Schema) -> (rows: Vec<Vec<Value>>)
    requires
        schema.wf(),
        catalog_fits(schema),
    ensures
        rows_view(rows@) == pg_class_rows_for(user_tables(schema)),
{
    let tables = user_tables_sorted(schema);
    let ghost listing = deref_pairs(tables@);
    proof {
        // The listing holds distinct entries of the schema, so it is no longer than it.
        lemma_listing_len(schema, listing);
    }
    let mut rows: Vec<Vec<Value>> = Vec::new();
    let mut oid_counter: i64 = USER_TABLE_OID_START;
    let mut k: usize = 0;
    while k < tables.len()
        invariant
            listing == deref_pairs(tables@),
            listing.len() + USER_TABLE_OID_START <= i64::MAX,
            k <= listing.len(),
            oid_counter == table_oid(k as int),
            rows_view(rows@) == pg_class_rows_for(listing.subrange(0, k as int)),
        decreases tables.len() - k,
    {
        let (name, table) = tables[k];
        let relnatts: i64 = match table {
            Table::BTree(b) => b.columns.len() as i64,
            _ => 0,
        };
        let row = pg_class_row_values(oid_counter, name, relnatts);
        let ghost old_rows = rows@;
        rows.push(row);
        proof {
            assert(listing[k as int] == (*name, *table));
            let pre = listing.subrange(0, k as int);
            let post = listing.subrange(0, k + 1);
            assert(rows_view(old_rows).len() == old_rows.len());
            assert(pg_class_rows_for(pre).len() == k);
            assert(old_rows.len() == k);
            assert(rows@ == old_rows.push(row));
            assert forall|a: int| 0 <= a < k + 1 implies #[trigger] rows_view(rows@)[a]
                == pg_class_rows_for(post)[a] by {
                if a < k {
                    assert(rows@[a] == old_rows[a]);
                    assert(rows_view(old_rows)[a] == pg_class_rows_for(pre)[a]);
                    assert(pre[a] == post[a]);
                } else {
                    assert(post[a] == listing[k as int]);
                }
            }
            assert(rows_view(rows@) =~= pg_class_rows_for(post));
        }
        oid_counter = oid_counter + 1;
        k = k + 1;
    }
    assert(listing.subrange(0, listing.len() as int) =~= listing);
    rows
}

/// Viewing rows commutes with pushing a row.
proof fn lemma_rows_view_push(rows: Seq<Vec<Value>>, r: Vec<Value>)
    ensures
        rows_view(rows.push(r)) == rows_view(rows).push(row_view(r)),
{
    assert(rows_view(rows.push(r)) =~= rows_view(rows).push(row_view(r)));
}

/// The `pg_attribute` rows of `schema`: for each user table in name order
/// (OID 16384 + its position), one row per column.
pub fn pg_attribute_rows(schema: &Schema) -> (rows: Vec<Vec<Value>>)
    requires
        schema.wf(),
        catalog_fits(schema),
    ensures
        rows_view(rows@) == pg_attribute_rows_for(user_tables(schema)),
{
    let tables = user_tables_sorted(schema);
    let ghost listing = deref_pairs(tables@);
    proof {
        lemma_listing_len(schema, listing);
    }
    let mut rows: Vec<Vec<Value>> = Vec::new();
    let mut oid_counter: i64 = USER_TABLE_OID_START;
    let mut k: usize = 0;
    while k < tables.len()
        invariant
            listing == deref_pairs(tables@),
            listing.len() + USER_TABLE_OID_START <= i64::MAX,
            k <= listing.len(),
            oid_counter == table_oid(k as int),
            rows_view(rows@) == pg_attribute_rows_for(listing.subrange(0, k as int)),
        decreases tables.len() - k,
    {
        let table_oid = oid_counter;
        oid_counter = oid_counter + 1;
        let (_, table) = tables[k];
        let ghost base = rows_view(rows@);
        match table {
            Table::BTree(b) => {
                let cols = &b.columns;
                let mut i: usize = 0;
                while i < cols.len()
                    invariant
                        i <= cols@.len(),
                        rows_view(rows@) == base + table_attribute_rows(table_oid, cols@.subrange(0, i as int)),
                    decreases cols.len() - i,
                {
                    let row = attribute_row_values(table_oid, (i + 1) as i64, &cols[i]);
                    proof {
                        lemma_rows_view_push(rows@, row);
                        assert(table_attribute_rows(table_oid, cols@.subrange(0, i + 1)) =~= table_attribute_rows(
                            table_oid,
                            cols@.subrange(0, i as int),
                        ).push(row_view(row)));
                        assert((base + table_attribute_rows(table_oid, cols@.subrange(0, i as int))).push(row_view(row))
                            =~= base + table_attribute_rows(table_oid, cols@.subrange(0, i + 1)));
                    }
                    rows.push(row);
                    i = i + 1;
                }
                assert(cols@.subrange(0, cols@.len() as int) =~= cols@);
            },
            _ => {
                assert(base + table_attribute_rows(table_oid, Seq::empty()) =~= base);
            },
        }
        proof {
            let post = listing.subrange(0, k + 1);
            assert(post.drop_last() =~= listing.subrange(0, k as int));
            assert(post.last() == listing[k as int]);
            assert(listing[k as int].1 == *table);
        }
        k = k + 1;
    }
    assert(listing.subrange(0, listing.len() as int) =~= listing);
    rows
}

/// A listing of user tables is no longer than the schema.
proof fn lemma_listing_len(schema: &Schema, s: Seq<(String, Table)>)
    requires
        is_user_table_listing(schema, s),
    ensures
        s.len() <= schema.tables@.len(),
{
    // Map each listed entry to its (distinct) position in the schema.
    let f = |a: int| choose|k: int| 0 <= k < schema.tables@.len() && schema.tables@[k] == s[a];
    assert forall|a: int, b: int| 0 <= a < b < s.len() implies #[trigger] f(a) != #[trigger] f(b) by {
        assert(schema.tables@.contains(s[a]) && schema.tables@.contains(s[b]));
        assert(seq_lt(s[a].0@, s[b].0@));
        if f(a) == f(b) {
            crate::text::lemma_seq_lt_irreflexive(s[a].0@);
        }
    }
    let img = Set::new(|k: int| exists|a: int| 0 <= a < s.len() && #[trigger] f(a) == k);
    let dom = Set::new(|k: int| 0 <= k < schema.tables@.len());
    assert forall|k: int| img.contains(k) implies dom.contains(k) by {
        let a = choose|a: int| 0 <= a < s.len() && #[trigger] f(a) == k;
        assert(schema.tables@.contains(s[a]));
    }
    vstd::set_lib::lemma_int_range(0, schema.tables@.len() as int);
    assert(dom == vstd::set_lib::set_int_range(0, schema.tables@.len() as int));
    vstd::set_lib::lemma_len_subset(img, dom);
    lemma_injective_image_len(s.len() as int, f, img);
}

/// The image of `0..n` under an injective map has `n` elements.
proof fn lemma_injective_image_len(n: int, f: spec_fn(int) -> int, img: Set<int>)
    requires
        n >= 0,
        forall|a: int, b: int| 0 <= a < b < n ==> #[trigger] f(a) != #[trigger] f(b),
        img == Set::new(|k: int| exists|a: int| 0 <= a < n && #[trigger] f(a) == k),
    ensures
        img.finite(),
        img.len() == n,
    decreases n,
{
    if n == 0 {
        assert(img =~= Set::empty());
    } else {
        let smaller = Set::new(|k: int| exists|a: int| 0 <= a < n - 1 && #[trigger] f(a) == k);
        lemma_injective_image_len(n - 1, f, smaller);
        assert(img =~= smaller.insert(f(n - 1)));
        if smaller.contains(f(n - 1)) {
            let a = choose|a: int| 0 <= a < n - 1 && #[trigger] f(a) == f(n - 1);
        }
    }
}

// ---------------------------------------------------------------------------
// pg_class and pg_attribute agree
// ---------------------------------------------------------------------------

/// Row `row` is the `pg_attribute` row of column `j` of listed table `k`.
pub open spec fn attribute_row_origin(tables: Seq<(String, Table)>, row: Seq<ValueView>, k: int, j: int) -> bool {
    &&& 0 <= k < tables.len()
    &&& 0 <= j < table_columns(tables[k].1).len()
    &&& row == attribute_row(table_oid(k), (j + 1) as i64, table_columns(tables[k].1)[j])
}

/// The listed table that `pg_attribute` row `r` describes a column of.
pub open spec fn origin_table(tables: Seq<(String, Table)>, r: int) -> int
    decreases tables.len(),
{
    if tables.len() == 0 {
        0
    } else if r < pg_attribute_rows_for(tables.drop_last()).len() {
        origin_table(tables.drop_last(), r)
    } else {
        tables.len() - 1
    }
}

/// The column (from 0) that `pg_attribute` row `r` describes.
pub open spec fn origin_column(tables: Seq<(String, Table)>, r: int) -> int
    decreases tables.len(),
{
    if tables.len() == 0 {
        0
    } else if r < pg_attribute_rows_for(tables.drop_last()).len() {
        origin_column(tables.drop_last(), r)
    } else {
        r - pg_attribute_rows_for(tables.drop_last()).len()
    }
}

/// Where each `pg_attribute` row of a listing comes from, and that every
/// column of every table has its row.
proof fn lemma_attribute_rows_index(tables: Seq<(String, Table)>)
    ensures
        forall|r: int|
            0 <= r < pg_attribute_rows_for(tables).len() ==> attribute_row_origin(
                tables,
                #[trigger] pg_attribute_rows_for(tables)[r],
                origin_table(tables, r),
                origin_column(tables, r),
            ),
        forall|k: int, j: int|
            0 <= k < tables.len() && 0 <= j < table_columns(tables[k].1).len() ==> pg_attribute_rows_for(
                tables,
            ).contains(attribute_row(table_oid(k), (j + 1) as i64, #[trigger] table_columns(tables[k].1)[j])),
    decreases tables.len(),
{
    if tables.len() > 0 {
        let init = tables.drop_last();
        lemma_attribute_rows_index(init);
        let a = pg_attribute_rows_for(init);
        let kl = tables.len() - 1;
        let last = table_attribute_rows(table_oid(kl), table_columns(tables.last().1));
        assert(pg_attribute_rows_for(tables) == a + last);
        assert(tables.last() == tables[kl]);
        assert forall|r: int| 0 <= r < pg_attribute_rows_for(tables).len() implies attribute_row_origin(
            tables,
            #[trigger] pg_attribute_rows_for(tables)[r],
            origin_table(tables, r),
            origin_column(tables, r),
        ) by {
            if r < a.len() {
                assert(a[r] == pg_attribute_rows_for(tables)[r]);
                let k = origin_table(init, r);
                assert(attribute_row_origin(init, a[r], k, origin_column(init, r)));
                assert(init[k] == tables[k]);
            } else {
                let j = r - a.len();
                let cols = table_columns(tables[kl].1);
                assert(last.len() == cols.len());
                assert(pg_attribute_rows_for(tables)[r] == last[j]);
            }
        }
        assert forall|k: int, j: int|
            0 <= k < tables.len() && 0 <= j < table_columns(tables[k].1).len() implies pg_attribute_rows_for(
                tables,
            ).contains(attribute_row(table_oid(k), (j + 1) as i64, #[trigger] table_columns(tables[k].1)[j]))
            by {
            let row = attribute_row(table_oid(k), (j + 1) as i64, table_columns(tables[k].1)[j]);
            if k < kl {
                assert(init[k] == tables[k]);
                assert(table_columns(init[k].1)[j] == table_columns(tables[k].1)[j]);
                assert(a.contains(row));
                let r = choose|r: int| 0 <= r < a.len() && a[r] == row;
                assert(pg_attribute_rows_for(tables)[r] == a[r]);
            } else {
                assert(pg_attribute_rows_for(tables)[a.len() + j] == last[j]);
            }
        }
    }
}

/// Facts about the listing that both directions of the agreement use.
proof fn lemma_listing_facts(schema: &Schema)
    requires
        schema.wf(),
        catalog_fits(schema),
    ensures
        is_user_table_listing(schema, user_tables(schema)),
        user_tables(schema).len() + USER_TABLE_OID_START <= i64::MAX,
        forall|k: int|
            0 <= k < user_tables(schema).len() ==> table_columns(#[trigger] user_tables(schema)[k].1).len()
                < i64::MAX,
{
    let tables = user_tables(schema);
    lemma_user_tables_exist(schema);
    lemma_listing_len(schema, tables);
    assert forall|k: int| 0 <= k < tables.len() implies table_columns(#[trigger] tables[k].1).len() < i64::MAX by {
        let i = choose|i: int| 0 <= i < schema.tables@.len() && schema.tables@[i] == tables[k];
        assert(table_columns(schema.tables@[i].1).len() < i64::MAX);
    }
}

/// The relevant columns of a `pg_class` row.
proof fn lemma_class_row_fields(tables: Seq<(String, Table)>, k: int)
    requires
        0 <= k < tables.len(),
    ensures
        pg_class_rows_for(tables)[k][0] == ValueView::Integer(table_oid(k)),
        pg_class_rows_for(tables)[k][17] == ValueView::Integer(table_columns(tables[k].1).len() as i64),
{
    reveal(pg_class_row);
}

/// The relevant columns of a `pg_attribute` row.
proof fn lemma_attribute_row_fields(oid: i64, att: i64, col: Column)
    ensures
        attribute_row(oid, att, col)[0] == ValueView::Integer(oid),
        attribute_row(oid, att, col)[5] == ValueView::Integer(att),
{
    reveal(attribute_row);
}

/// Every `pg_attribute` row belongs to a `pg_class` row: the row of the
/// table it describes a column of.
proof fn lemma_attribute_row_has_class_row(schema: &Schema, r: int)
    requires
        schema.wf(),
        catalog_fits(schema),
        0 <= r < attribute_rows_of(schema).len(),
    ensures
        ({
            let k = origin_table(user_tables(schema), r);
            &&& 0 <= k < class_rows_of(schema).len()
            &&& attribute_rows_of(schema)[r][0] == class_rows_of(schema)[k][0]
            &&& attribute_rows_of(schema)[r][5] is Integer
            &&& 1 <= integer_field(attribute_rows_of(schema)[r], 5) <= integer_field(class_rows_of(schema)[k], 17)
        }),
{
    let tables = user_tables(schema);
    let a = pg_attribute_rows_for(tables);
    lemma_listing_facts(schema);
    lemma_attribute_rows_index(tables);
    let k = origin_table(tables, r);
    let j = origin_column(tables, r);
    assert(attribute_row_origin(tables, a[r], k, j));
    assert(table_columns(tables[k].1).len() < i64::MAX);
    lemma_class_row_fields(tables, k);
    lemma_attribute_row_fields(table_oid(k), (j + 1) as i64, table_columns(tables[k].1)[j]);
    assert(a[r][0] == ValueView::Integer(table_oid(k)));
    assert(a[r][5] == ValueView::Integer((j + 1) as i64));
}

/// Every column position of every `pg_class` row has its `pg_attribute` row.
proof fn lemma_class_row_has_attribute_rows(schema: &Schema, k: int, att: i64)
    requires
        schema.wf(),
        catalog_fits(schema),
        0 <= k < pg_class_rows_for(user_tables(schema)).len(),
        1 <= att <= integer_field(pg_class_rows_for(user_tables(schema))[k], 17),
    ensures
        has_attribute_row(
            pg_attribute_rows_for(user_tables(schema)),
            pg_class_rows_for(user_tables(schema))[k][0],
            att,
        ),
{
    let tables = user_tables(schema);
    let a = pg_attribute_rows_for(tables);
    lemma_listing_facts(schema);
    lemma_attribute_rows_index(tables);
    let cols = table_columns(tables[k].1);
    assert(cols.len() < i64::MAX);
    lemma_class_row_fields(tables, k);
    let j = att - 1;
    assert(0 <= j < cols.len());
    let row = attribute_row(table_oid(k), (j + 1) as i64, cols[j]);
    assert(a.contains(row));
    let r = choose|r: int| 0 <= r < a.len() && a[r] == row;
    lemma_attribute_row_fields(table_oid(k), (j + 1) as i64, cols[j]);
    assert(a[r][0] == ValueView::Integer(table_oid(k)));
    assert(a[r][5] == ValueView::Integer(att));
}

/// `pg_class` and `pg_attribute` describe the same tables under the same
/// OIDs: every `pg_attribute` row belongs to a `pg_class` row (its `attrelid`
/// is that row's `oid`, and its `attnum` lies between 1 and that row's
/// `relnatts`), and every column position 1..=`relnatts` of every `pg_class`
/// row has its `pg_attribute` row.
pub proof fn lemma_pg_attribute_matches_pg_class(schema: &Schema)
    requires
        schema.wf(),
        catalog_fits(schema),
    ensures
        forall|r: int|
            0 <= r < attribute_rows_of(schema).len() ==> #[trigger] has_class_row(
                class_rows_of(schema),
                attribute_rows_of(schema)[r],
            ),
        forall|k: int, att: i64|
            0 <= k < class_rows_of(schema).len() && 1 <= att <= integer_field(class_rows_of(schema)[k], 17)
                ==> #[trigger] has_attribute_row(attribute_rows_of(schema), class_rows_of(schema)[k][0], att),
{
    assert forall|r: int| 0 <= r < attribute_rows_of(schema).len() implies #[trigger] has_class_row(
        class_rows_of(schema),
        attribute_rows_of(schema)[r],
    ) by {
        lemma_attribute_row_has_class_row(schema, r);
        let k = origin_table(user_tables(schema), r);
        assert(class_row_owns(class_rows_of(schema)[k], attribute_rows_of(schema)[r]));
    }
    assert forall|k: int, att: i64|
        0 <= k < class_rows_of(schema).len() && 1 <= att <= integer_field(class_rows_of(schema)[k], 17) implies
        #[trigger] has_attribute_row(attribute_rows_of(schema), class_rows_of(schema)[k][0], att) by {
        lemma_class_row_has_attribute_rows(schema, k, att);
    }
}

/// Where the `pg_attribute` rows of table `k` of a listing begin: after
/// one row per column of each earlier table.
pub open spec fn attribute_offset(tables: Seq<(String, Table)>, k: int) -> nat
    decreases k,
{
    if k <= 0 {
        0
    } else {
        attribute_offset(tables, k - 1) + table_columns(tables[k - 1].1).len()
    }
}

proof fn lemma_attribute_offset_prefix(tables: Seq<(String, Table)>, k: int)
    requires
        tables.len() > 0,
        0 <= k < tables.len(),
    ensures
        attribute_offset(tables, k) == attribute_offset(tables.drop_last(), k),
    decreases k,
{
    if k > 0 {
        lemma_attribute_offset_prefix(tables, k - 1);
    }
}

proof fn lemma_attribute_rows_len(tables: Seq<(String, Table)>)
    ensures
        pg_attribute_rows_for(tables).len() == attribute_offset(tables, tables.len() as int),
    decreases tables.len(),
{
    if tables.len() > 0 {
        let kl = tables.len() - 1;
        lemma_attribute_rows_len(tables.drop_last());
        lemma_attribute_offset_prefix(tables, kl);
        assert(tables.last() == tables[kl]);
    }
}

proof fn lemma_attribute_row_at(tables: Seq<(String, Table)>, k: int, j: int)
    requires
        0 <= k < tables.len(),
        0 <= j < table_columns(tables[k].1).len(),
    ensures
        attribute_offset(tables, k) + j < pg_attribute_rows_for(tables).len(),
        pg_attribute_rows_for(tables)[attribute_offset(tables, k) + j] == attribute_row(
            table_oid(k),
            (j + 1) as i64,
            table_columns(tables[k].1)[j],
        ),
    decreases tables.len(),
{
    let init = tables.drop_last();
    let kl = tables.len() - 1;
    let a = pg_attribute_rows_for(init);
    let last = table_attribute_rows(table_oid(kl), table_columns(tables.last().1));
    assert(pg_attribute_rows_for(tables) == a + last);
    assert(tables.last() == tables[kl]);
    lemma_attribute_rows_len(init);
    lemma_attribute_offset_prefix(tables, k);
    if k < kl {
        lemma_attribute_row_at(init, k, j);
        assert(init[k] == tables[k]);
        lemma_attribute_offset_prefix(tables, kl);
        lemma_attribute_offset_mono(init, k + 1, kl);
    } else {
        assert(last[j] == attribute_row(table_oid(kl), (j + 1) as i64, table_columns(tables[kl].1)[j]));
    }
}

proof fn lemma_attribute_offset_mono(tables: Seq<(String, Table)>, i: int, k: int)
    requires
        0 <= i <= k,
    ensures
        attribute_offset(tables, i) <= attribute_offset(tables, k),
    decreases k - i,
{
    if i < k {
        lemma_attribute_offset_mono(tables, i, k - 1);
    }
}

/// The `pg_attribute` row at `attribute_offset(tables, k) + j` is the row
/// of column `j + 1` of table `k`.
pub open spec fn attribute_row_placed(tables: Seq<(String, Table)>, k: int, j: int) -> bool {
    let rows = pg_attribute_rows_for(tables);
    &&& attribute_offset(tables, k) + j < rows.len()
    &&& rows[attribute_offset(tables, k) + j] == attribute_row(
        table_oid(k),
        (j + 1) as i64,
        table_columns(tables[k].1)[j],
    )
}

/// The `pg_attribute` rows of a listing are its tables' columns, table
/// after table and each table's columns contiguous and in column order:
/// the rows number one per column of all tables, and the row at
/// `attribute_offset(tables, k) + j` is the row of column `j + 1` of table
/// `k` (OID 16384 + k), which carries that column's name, type OID,
/// NOT NULL and default flags.
pub proof fn lemma_pg_attribute_layout(tables: Seq<(String, Table)>)
    ensures
        pg_attribute_rows_for(tables).len() == attribute_offset(tables, tables.len() as int),
        forall|k: int, j: int|
            0 <= k < tables.len() && 0 <= j < table_columns(tables[k].1).len() ==> #[trigger] attribute_row_placed(
                tables,
                k,
                j,
            ),
{
    lemma_attribute_rows_len(tables);
    assert forall|k: int, j: int|
        0 <= k < tables.len() && 0 <= j < table_columns(tables[k].1).len() implies #[trigger] attribute_row_placed(
            tables,
            k,
            j,
        ) by {
        lemma_attribute_row_at(tables, k, j);
    }
}

/// The table (by position in the listing) whose `pg_attribute` rows hold
/// row `r`.
pub open spec fn attribute_block_of(tables: Seq<(String, Table)>, r: int) -> int
    decreases tables.len(),
{
    if tables.len() == 0 {
        0
    } else if r < attribute_offset(tables, tables.len() - 1) {
        attribute_block_of(tables.drop_last(), r)
    } else {
        tables.len() - 1
    }
}

proof fn lemma_attribute_block_of(tables: Seq<(String, Table)>, r: int)
    requires
        0 <= r < attribute_offset(tables, tables.len() as int),
    ensures
        0 <= attribute_block_of(tables, r) < tables.len(),
        attribute_offset(tables, attribute_block_of(tables, r)) <= r,
        r < attribute_offset(tables, attribute_block_of(tables, r)) + table_columns(
            tables[attribute_block_of(tables, r)].1,
        ).len(),
    decreases tables.len(),
{
    let kl = tables.len() - 1;
    if tables.len() > 0 && r < attribute_offset(tables, kl) {
        let init = tables.drop_last();
        lemma_attribute_offset_prefix(tables, kl);
        lemma_attribute_block_of(init, r);
        let k = attribute_block_of(init, r);
        lemma_attribute_offset_prefix(tables, k);
        assert(init[k] == tables[k]);
    }
}

proof fn lemma_attribute_blocks_disjoint(tables: Seq<(String, Table)>, k1: int, k2: int)
    requires
        0 <= k1 < k2,
    ensures
        attribute_offset(tables, k1) + table_columns(tables[k1].1).len() <= attribute_offset(tables, k2),
{
    lemma_attribute_offset_mono(tables, k1 + 1, k2);
}

/// Each `pg_class` row has exactly its own block of `pg_attribute` rows: a
/// `pg_attribute` row has the `attrelid` of the `pg_class` row of table
/// `k` exactly when it lies among the `relnatts` rows from
/// `attribute_offset(.., k)` on, which [`lemma_pg_attribute_layout`] shows
/// to be that table's columns, in order.
pub proof fn lemma_pg_attribute_rows_per_table(schema: &Schema)
    requires
        schema.wf(),
        catalog_fits(schema),
    ensures
        forall|k: int, r: int|
            #![trigger attribute_rows_of(schema)[r], class_rows_of(schema)[k]]
            0 <= k < class_rows_of(schema).len() && 0 <= r < attribute_rows_of(schema).len() ==> (
            attribute_rows_of(schema)[r][0] == class_rows_of(schema)[k][0] <==> attribute_offset(user_tables(schema), k)
                <= r < attribute_offset(user_tables(schema), k) + integer_field(class_rows_of(schema)[k], 17)),
{
    let tables = user_tables(schema);
    lemma_listing_facts(schema);
    lemma_attribute_rows_len(tables);
    assert forall|k: int, r: int|
        #![trigger attribute_rows_of(schema)[r], class_rows_of(schema)[k]]
        0 <= k < class_rows_of(schema).len() && 0 <= r < attribute_rows_of(schema).len() implies (
        attribute_rows_of(schema)[r][0] == class_rows_of(schema)[k][0] <==> attribute_offset(tables, k) <= r
            < attribute_offset(tables, k) + integer_field(class_rows_of(schema)[k], 17)) by {
        lemma_attribute_block_of(tables, r);
        let b = attribute_block_of(tables, r);
        let j = r - attribute_offset(tables, b);
        lemma_attribute_row_at(tables, b, j);
        lemma_attribute_row_fields(table_oid(b), (j + 1) as i64, table_columns(tables[b].1)[j]);
        lemma_class_row_fields(tables, k);
        assert(table_columns(tables[k].1).len() < i64::MAX);
        assert(integer_field(class_rows_of(schema)[k], 17) == table_columns(tables[k].1).len());
        if k < b {
            lemma_attribute_blocks_disjoint(tables, k, b);
        } else if b < k {
            lemma_attribute_blocks_disjoint(tables, b, k);
        }
    }
}

/// The `pg_class` rows of a schema.
pub open spec fn class_rows_of(schema: &Schema) -> Seq<Seq<ValueView>> {
    pg_class_rows_for(user_tables(schema))
}

/// The `pg_attribute` rows of a schema.
pub open spec fn attribute_rows_of(schema: &Schema) -> Seq<Seq<ValueView>> {
    pg_attribute_rows_for(user_tables(schema))
}

/// The integer in column `i` of a row (0 for a non-integer).
pub open spec fn integer_field(row: Seq<ValueView>, i: int) -> int {
    match row[i] {
        ValueView::Integer(v) => v as int,
        _ => 0,
    }
}

/// `arow` is the `pg_attribute` row of a column of the table of `crow`: its
/// `attrelid` is `crow`'s `oid` and its `attnum` lies in 1..=`relnatts`.
pub open spec fn class_row_owns(crow: Seq<ValueView>, arow: Seq<ValueView>) -> bool {
    &&& arow[0] == crow[0]
    &&& arow[5] is Integer
    &&& 1 <= integer_field(arow, 5) <= integer_field(crow, 17)
}

/// Some row of `c` owns the `pg_attribute` row `arow`.
pub open spec fn has_class_row(c: Seq<Seq<ValueView>>, arow: Seq<ValueView>) -> bool {
    exists|k: int| 0 <= k < c.len() && #[trigger] class_row_owns(c[k], arow)
}

/// Some row of `a` has `attrelid` `relid` and `attnum` `att`.
pub open spec fn has_attribute_row(a: Seq<Seq<ValueView>>, relid: ValueView, att: i64) -> bool {
    exists|r: int| 0 <= r < a.len() && a[r][0] == relid && #[trigger] a[r][5] == ValueView::Integer(att)
}

// ---------------------------------------------------------------------------
// Constant catalog contents
// ---------------------------------------------------------------------------

/// The `pg_namespace` rows: pg_catalog (11), public (2200) and
/// information_schema (11394), all owned by role 10.
pub open spec fn pg_namespace_rows_spec() -> Seq<Seq<ValueView>> {
    seq![
        seq![ValueView::Integer(11), ValueView::Text("pg_catalog"@), ValueView::Integer(10), ValueView::Null],
        seq![ValueView::Integer(2200), ValueView::Text("public"@), ValueView::Integer(10), ValueView::Null],
        seq![
            ValueView::Integer(11394),
            ValueView::Text("information_schema"@),
            ValueView::Integer(10),
            ValueView::Null,
        ],
    ]
}

/// The `pg_roles` rows: the single superuser role `turso` (OID 10).
pub open spec fn pg_roles_rows_spec() -> Seq<Seq<ValueView>> {
    seq![
        seq![
            ValueView::Integer(10),
            ValueView::Text("turso"@),
            ValueView::Integer(1),
            ValueView::Integer(1),
            ValueView::Integer(1),
            ValueView::Integer(1),
            ValueView::Integer(1),
            ValueView::Integer(1),
            ValueView::Integer(-1i64),
            ValueView::Null,
            ValueView::Null,
            ValueView::Integer(1),
            ValueView::Null,
        ],
    ]
}

/// The `pg_am` rows: the heap table access method (2) and the btree index
/// access method (403).
pub open spec fn pg_am_rows_spec() -> Seq<Seq<ValueView>> {
    seq![
        seq![
            ValueView::Integer(2),
            ValueView::Text("heap"@),
            ValueView::Text("heap_tableam_handler"@),
            ValueView::Text("t"@),
        ],
        seq![
            ValueView::Integer(403),
            ValueView::Text("btree"@),
            ValueView::Text("bthandler"@),
            ValueView::Text("i"@),
        ],
    ]
}

/// The `pg_namespace` rows.
pub fn pg_namespace_rows() -> (rows: Vec<Vec<Value>>)
    ensures
        rows_view(rows@) == pg_namespace_rows_spec(),
{
    let rows = vec![
        vec![Value::Integer(11), Value::build_text("pg_catalog"), Value::Integer(10), Value::Null],
        vec![Value::Integer(2200), Value::build_text("public"), Value::Integer(10), Value::Null],
        vec![
            Value::Integer(11394),
            Value::build_text("information_schema"),
            Value::Integer(10),
            Value::Null,
        ],
    ];
    assert(row_view(rows@[0]) =~= pg_namespace_rows_spec()[0]);
    assert(row_view(rows@[1]) =~= pg_namespace_rows_spec()[1]);
    assert(row_view(rows@[2]) =~= pg_namespace_rows_spec()[2]);
    assert(rows_view(rows@) =~= pg_namespace_rows_spec());
    rows
}

/// The `pg_roles` rows.
pub fn pg_roles_rows() -> (rows: Vec<Vec<Value>>)
    ensures
        rows_view(rows@) == pg_roles_rows_spec(),
{
    let rows = vec![
        vec![
            Value::Integer(10),
            Value::build_text("turso"),
            Value::Integer(1),
            Value::Integer(1),
            Value::Integer(1),
            Value::Integer(1),
            Value::Integer(1),
            Value::Integer(1),
            Value::Integer(-1),
            Value::Null,
            Value::Null,
            Value::Integer(1),
            Value::Null,
        ],
    ];
    assert(row_view(rows@[0]) =~= pg_roles_rows_spec()[0]);
    assert(rows_view(rows@) =~= pg_roles_rows_spec());
    rows
}

/// The `pg_am` rows.
pub fn pg_am_rows() -> (rows: Vec<Vec<Value>>)
    ensures
        rows_view(rows@) == pg_am_rows_spec(),
{
    let rows = vec![
        vec![
            Value::Integer(2),
            Value::build_text("heap"),
            Value::build_text("heap_tableam_handler"),
            Value::build_text("t"),
        ],
        vec![
            Value::Integer(403),
            Value::build_text("btree"),
            Value::build_text("bthandler"),
            Value::build_text("i"),
        ],
    ];
    assert(row_view(rows@[0]) =~= pg_am_rows_spec()[0]);
    assert(row_view(rows@[1]) =~= pg_am_rows_spec()[1]);
    assert(rows_view(rows@) =~= pg_am_rows_spec());
    rows
}

// ---------------------------------------------------------------------------
// pg_get_tabledef: PostgreSQL-flavoured CREATE TABLE statements
// ---------------------------------------------------------------------------

/// The name a column is written with (`unnamed` when it has none).
pub open spec fn column_display_name(col: Column) -> Seq<char> {
    match col.name {
        Some(n) => n@,
        None => "unnamed"@,
    }
}

/// Some primary-key column is called `name`.
pub open spec fn is_pk_name(pks: Seq<String>, name: Seq<char>) -> bool {
    exists|i: int| 0 <= i < pks.len() && #[trigger] pks[i]@ == name
}

/// A column definition as `get_sqlite_ddl` writes it: name, declared type,
/// then ` PRIMARY KEY`, ` NOT NULL` and ` DEFAULT ...` where they apply.
pub open spec fn column_def(col: Column, pks: Seq<String>) -> Seq<char> {
    column_display_name(col) + " "@ + col.ty_str@ + (if is_pk_name(pks, column_display_name(col)) {
        " PRIMARY KEY"@
    } else {
        Seq::empty()
    }) + (if col.notnull {
        " NOT NULL"@
    } else {
        Seq::empty()
    }) + (if col.default is Some {
        " DEFAULT ..."@
    } else {
        Seq::empty()
    })
}

/// The NOT NULL constraint shows in a column's definition exactly when the
/// column has it: the definition of a NOT NULL column is the definition
/// of the same column without the constraint with ` NOT NULL` inserted
/// before its ` DEFAULT ...` part (at the end when it has no default); a
/// column without the constraint has that shorter definition.
pub proof fn lemma_not_null_in_definition(col: Column, pks: Seq<String>)
    ensures
        ({
            let without = column_def(Column { notnull: false, ..col }, pks);
            let at = without.len() - if col.default is Some {
                " DEFAULT ..."@.len()
            } else {
                0
            };
            &&& 0 <= at <= without.len()
            &&& column_def(col, pks) == if col.notnull {
                without.subrange(0, at) + " NOT NULL"@ + without.subrange(at, without.len() as int)
            } else {
                without
            }
        }),
{
    let c0 = Column { notnull: false, ..col };
    assert(column_display_name(c0) == column_display_name(col));
    let head = column_display_name(col) + " "@ + col.ty_str@ + (if is_pk_name(pks, column_display_name(col)) {
        " PRIMARY KEY"@
    } else {
        Seq::empty()
    });
    let tail: Seq<char> = if col.default is Some {
        " DEFAULT ..."@
    } else {
        Seq::empty()
    };
    let without = column_def(c0, pks);
    assert(without =~= head + tail);
    assert(without.subrange(0, head.len() as int) =~= head);
    assert(without.subrange(head.len() as int, without.len() as int) =~= tail);
    if col.notnull {
        assert(column_def(col, pks) =~= head + " NOT NULL"@ + tail);
    } else {
        assert(col == c0);
    }
}

/// A column is written as a primary key exactly when its name is one of
/// the primary-key names: its definition is then the definition it has
/// with no primary key, with ` PRIMARY KEY` inserted right after its name
/// and declared type; otherwise it is that definition.
pub proof fn lemma_primary_key_in_definition(col: Column, pks: Seq<String>)
    ensures
        ({
            let plain = column_def(col, Seq::empty());
            let at = (column_display_name(col).len() + 1 + col.ty_str@.len()) as int;
            &&& at <= plain.len()
            &&& column_def(col, pks) == if is_pk_name(pks, column_display_name(col)) {
                plain.subrange(0, at) + " PRIMARY KEY"@ + plain.subrange(at, plain.len() as int)
            } else {
                plain
            }
        }),
{
    let name = column_display_name(col);
    let head = name + " "@ + col.ty_str@;
    let tail = (if col.notnull {
        " NOT NULL"@
    } else {
        Seq::empty()
    }) + (if col.default is Some {
        " DEFAULT ..."@
    } else {
        Seq::empty()
    });
    reveal_strlit(" ");
    assert(!is_pk_name(Seq::<String>::empty(), name));
    let plain = column_def(col, Seq::empty());
    assert(plain =~= head + tail);
    assert(head.len() == name.len() + 1 + col.ty_str@.len());
    assert(plain.subrange(0, head.len() as int) =~= head);
    assert(plain.subrange(head.len() as int, plain.len() as int) =~= tail);
    if is_pk_name(pks, name) {
        assert(column_def(col, pks) =~= head + " PRIMARY KEY"@ + tail);
    } else {
        assert(column_def(col, pks) =~= head + tail);
    }
}

/// A column's default shows as ` DEFAULT ...` at the end of its definition
/// exactly when it has one: its definition is the definition of the same
/// column without a default, followed by ` DEFAULT ...` when it has one.
pub proof fn lemma_default_in_definition(col: Column, pks: Seq<String>)
    ensures
        column_def(col, pks) == column_def(Column { default: None, ..col }, pks) + if col.default is Some {
            " DEFAULT ..."@
        } else {
            Seq::<char>::empty()
        },
{
    let c0 = Column { default: None, ..col };
    assert(column_display_name(c0) == column_display_name(col));
    assert(column_def(c0, pks) + Seq::<char>::empty() =~= column_def(c0, pks));
}

/// The CREATE TABLE statement reconstructed for a B-tree table.
pub open spec fn btree_ddl(name: Seq<char>, t: BTreeTable) -> Seq<char> {
    "CREATE TABLE "@ + name + " ("@ + crate::text::join_with(
        t.columns@.map_values(|c: Column| column_def(c, t.primary_key_columns@)),
        ", "@,
    ) + ")"@
}

/// The SQLite DDL of the table called `name`: reconstructed from its
/// definition when it is a B-tree table, a placeholder otherwise.
pub open spec fn sqlite_ddl(schema: &Schema, name: Seq<char>) -> Seq<char> {
    match schema.table_index(name) {
        Some(i) => match schema.tables@[i].1 {
            Table::BTree(t) => btree_ddl(name, t),
            _ => "CREATE TABLE "@ + name + " (...)"@,
        },
        None => "CREATE TABLE "@ + name + " (...)"@,
    }
}

/// SQLite DDL rewritten with PostgreSQL spellings: `INTEGER PRIMARY KEY`
/// becomes `SERIAL PRIMARY KEY`, `AUTOINCREMENT` and `WITHOUT ROWID` are
/// dropped, and INTEGER/REAL/TEXT/BLOB/DATETIME become integer/double
/// precision/text/bytea/timestamp.
pub open spec fn postgres_ddl(ddl: Seq<char>) -> Seq<char> {
    let r = crate::text::replace_all(ddl, " INTEGER PRIMARY KEY"@, " SERIAL PRIMARY KEY"@);
    let r = crate::text::replace_all(r, " AUTOINCREMENT"@, ""@);
    let r = crate::text::replace_all(r, " INTEGER"@, " integer"@);
    let r = crate::text::replace_all(r, " intEgEr"@, " integer"@);
    let r = crate::text::replace_all(r, " REAL"@, " double precision"@);
    let r = crate::text::replace_all(r, " real"@, " double precision"@);
    let r = crate::text::replace_all(r, " TEXT"@, " text"@);
    let r = crate::text::replace_all(r, " text"@, " text"@);
    let r = crate::text::replace_all(r, " BLOB"@, " bytea"@);
    let r = crate::text::replace_all(r, " blob"@, " bytea"@);
    let r = crate::text::replace_all(r, " DATETIME"@, " timestamp"@);
    let r = crate::text::replace_all(r, " datetime"@, " timestamp"@);
    crate::text::replace_all(r, " WITHOUT ROWID"@, ""@)
}

/// A schema entry that `pg_get_tabledef` lists: a B-tree table whose name
/// does not start with `sqlite_`.
pub open spec fn is_tabledef_entry(e: (String, Table)) -> bool {
    !has_prefix(e.0@, "sqlite_"@) && e.1 is BTree
}

/// The `pg_get_tabledef` row of a table.
pub open spec fn tabledef_row(schema: &Schema, name: Seq<char>) -> Seq<ValueView> {
    seq![
        ValueView::Text("public"@),
        ValueView::Text(name),
        ValueView::Text(postgres_ddl(sqlite_ddl(schema, name))),
    ]
}

/// The `pg_get_tabledef` rows for the first `n` schema entries, in schema
/// order.
pub open spec fn tabledef_rows_upto(schema: &Schema, n: int) -> Seq<Seq<ValueView>>
    decreases n,
{
    if n <= 0 {
        Seq::empty()
    } else {
        let prev = tabledef_rows_upto(schema, n - 1);
        let e = schema.tables@[n - 1];
        if is_tabledef_entry(e) {
            prev.push(tabledef_row(schema, e.0@))
        } else {
            prev
        }
    }
}

/// Whether one of `pks` is called `name`.
fn contains_name(pks: &Vec<String>, name: &str) -> (r: bool)
    ensures
        r == is_pk_name(pks@, name@),
{
    let mut i: usize = 0;
    while i < pks.len()
        invariant
            i <= pks@.len(),
            forall|k: int| 0 <= k < i ==> pks@[k]@ != name@,
        decreases pks.len() - i,
    {
        if str_eq(pks[i].as_str(), name) {
            assert(pks@[i as int]@ == name@);
            return true;
        }
        i = i + 1;
    }
    false
}

/// One column definition of a reconstructed CREATE TABLE statement.
fn column_definition(col: &Column, pks: &Vec<String>) -> (r: String)
    ensures
        r@ == column_def(*col, pks@),
{
    let col_name: &str = match &col.name {
        Some(n) => n.as_str(),
        None => "unnamed",
    };
    let mut d = crate::text::owned(col_name);
    crate::text::append(&mut d, " ");
    crate::text::append(&mut d, col.ty_str.as_str());
    let ghost base = d@;
    if contains_name(pks, col_name) {
        crate::text::append(&mut d, " PRIMARY KEY");
    }
    let ghost with_pk = d@;
    if col.notnull() {
        crate::text::append(&mut d, " NOT NULL");
    }
    let ghost with_nn = d@;
    if col.default.is_some() {
        crate::text::append(&mut d, " DEFAULT ...");
    }
    proof {
        reveal_strlit("");
        let e: Seq<char> = Seq::empty();
        assert(base + e =~= base);
        assert(with_pk + e =~= with_pk);
        assert(with_nn + e =~= with_nn);
    }
    d
}

/// The CREATE TABLE statement of the table called `table_name`, rebuilt from
/// its definition.
pub fn get_sqlite_ddl(schema: &Schema, table_name: &str) -> (r: String)
    requires
        schema.wf(),
    ensures
        r@ == sqlite_ddl(schema, table_name@),
{
    match schema.find_table(table_name) {
        Some(i) => match &schema.tables[i].1 {
            Table::BTree(btree_table) => {
                let mut ddl = crate::text::owned("CREATE TABLE ");
                crate::text::append(&mut ddl, table_name);
                crate::text::append(&mut ddl, " (");
                let mut cols: Vec<String> = Vec::new();
                let mut k: usize = 0;
                while k < btree_table.columns.len()
                    invariant
                        k <= btree_table.columns@.len(),
                        cols@.map_values(|x: String| x@) == btree_table.columns@.subrange(0, k as int).map_values(
                            |c: Column| column_def(c, btree_table.primary_key_columns@),
                        ),
                    decreases btree_table.columns.len() - k,
                {
                    let d = column_definition(&btree_table.columns[k], &btree_table.primary_key_columns);
                    let ghost old_cols = cols@;
                    cols.push(d);
                    proof {
                        let pre = btree_table.columns@.subrange(0, k as int);
                        let post = btree_table.columns@.subrange(0, k + 1);
                        assert(post =~= pre.push(btree_table.columns@[k as int]));
                        assert(old_cols.map_values(|x: String| x@).len() == k);
                        let lhs = cols@.map_values(|x: String| x@);
                        let rhs = post.map_values(|c: Column| column_def(c, btree_table.primary_key_columns@));
                        assert forall|a: int| 0 <= a < k + 1 implies #[trigger] lhs[a] == rhs[a] by {
                            if a < k {
                                assert(cols@[a] == old_cols[a]);
                                assert(old_cols.map_values(|x: String| x@)[a] == pre.map_values(
                                    |c: Column| column_def(c, btree_table.primary_key_columns@),
                                )[a]);
                                assert(pre[a] == post[a]);
                            }
                        }
                        assert(cols@.map_values(|x: String| x@) =~= btree_table.columns@.subrange(0, k + 1).map_values(
                            |c: Column| column_def(c, btree_table.primary_key_columns@),
                        ));
                    }
                    k = k + 1;
                }
                assert(btree_table.columns@.subrange(0, btree_table.columns@.len() as int) =~= btree_table.columns@);
                let joined = crate::text::join(&cols, ", ");
                crate::text::append(&mut ddl, joined.as_str());
                crate::text::append(&mut ddl, ")");
                ddl
            },
            _ => {
                let mut ddl = crate::text::owned("CREATE TABLE ");
                crate::text::append(&mut ddl, table_name);
                crate::text::append(&mut ddl, " (...)");
                ddl
            },
        },
        None => {
            let mut ddl = crate::text::owned("CREATE TABLE ");
            crate::text::append(&mut ddl, table_name);
            crate::text::append(&mut ddl, " (...)");
            ddl
        },
    }
}

/// Rewrites SQLite DDL with PostgreSQL type names and without SQLite-only
/// clauses.
pub fn convert_to_postgres_ddl(sqlite_ddl: &str) -> (r: String)
    ensures
        r@ == postgres_ddl(sqlite_ddl@),
{
    proof {
        reveal_strlit(" INTEGER PRIMARY KEY");
        reveal_strlit(" AUTOINCREMENT");
        reveal_strlit(" INTEGER");
        reveal_strlit(" intEgEr");
        reveal_strlit(" REAL");
        reveal_strlit(" real");
        reveal_strlit(" TEXT");
        reveal_strlit(" text");
        reveal_strlit(" BLOB");
        reveal_strlit(" blob");
        reveal_strlit(" DATETIME");
        reveal_strlit(" datetime");
        reveal_strlit(" WITHOUT ROWID");
    }
    let r = crate::text::replace(sqlite_ddl, " INTEGER PRIMARY KEY", " SERIAL PRIMARY KEY");
    let r = crate::text::replace(r.as_str(), " AUTOINCREMENT", "");
    let r = crate::text::replace(r.as_str(), " INTEGER", " integer");
    let r = crate::text::replace(r.as_str(), " intEgEr", " integer");
    let r = crate::text::replace(r.as_str(), " REAL", " double precision");
    let r = crate::text::replace(r.as_str(), " real", " double precision");
    let r = crate::text::replace(r.as_str(), " TEXT", " text");
    let r = crate::text::replace(r.as_str(), " text", " text");
    let r = crate::text::replace(r.as_str(), " BLOB", " bytea");
    let r = crate::text::replace(r.as_str(), " blob", " bytea");
    let r = crate::text::replace(r.as_str(), " DATETIME", " timestamp");
    let r = crate::text::replace(r.as_str(), " datetime", " timestamp");
    crate::text::replace(r.as_str(), " WITHOUT ROWID", "")
}

/// The `pg_get_tabledef` rows: for each B-tree table whose name does not
/// start with `sqlite_`, in schema order, its schema (`public`), its name
/// and its PostgreSQL-flavoured CREATE TABLE statement.
pub fn load_table_defs(schema: &Schema) -> (rows: Vec<Vec<Value>>)
    requires
        schema.wf(),
    ensures
        rows_view(rows@) == tabledef_rows_upto(schema, schema.tables@.len() as int),
{
    let mut rows: Vec<Vec<Value>> = Vec::new();
    let mut i: usize = 0;
    while i < schema.tables.len()
        invariant
            schema.wf(),
            i <= schema.tables@.len(),
            rows_view(rows@) == tabledef_rows_upto(schema, i as int),
        decreases schema.tables.len() - i,
    {
        let (table_name, table) = &schema.tables[i];
        let skip = starts_with(table_name.as_str(), "sqlite_") || str_eq(table_name.as_str(), "sqlite_master")
            || str_eq(table_name.as_str(), "sqlite_schema");
        let is_btree = match table {
            Table::BTree(_) => true,
            _ => false,
        };
        proof {
            reveal_strlit("sqlite_");
            reveal_strlit("sqlite_master");
            reveal_strlit("sqlite_schema");
            if table_name@ == "sqlite_master"@ || table_name@ == "sqlite_schema"@ {
                assert(table_name@.subrange(0, 7) =~= "sqlite_"@);
            }
        }
        if !skip && is_btree {
            let sqlite_ddl = get_sqlite_ddl(schema, table_name.as_str());
            let postgres = convert_to_postgres_ddl(sqlite_ddl.as_str());
            let row = vec![Value::build_text("public"), Value::Text(table_name.clone()), Value::Text(postgres)];
            proof {
                assert(row_view(row) =~= tabledef_row(schema, table_name@));
                lemma_rows_view_push(rows@, row);
            }
            rows.push(row);
        }
        i = i + 1;
    }
    rows
}

// ---------------------------------------------------------------------------
// Planner callbacks and cursors
// ---------------------------------------------------------------------------

/// A WHERE-clause constraint offered to a virtual table's planner callback.
pub struct ConstraintInfo {
    pub column_index: u32,
    pub usable: bool,
}

/// An ORDER BY term offered to a virtual table's planner callback.
pub struct OrderByInfo {
    pub column_index: u32,
    pub desc: bool,
}

/// How the table uses one constraint: `argv_index` is the position of its
/// value among the filter arguments, `omit` whether the engine may skip
/// re-checking it.
pub struct ConstraintUsage {
    pub argv_index: Option<u32>,
    pub omit: bool,
}

/// The plan a virtual table chooses.  The estimated cost is a whole number
/// of cost units.
pub struct IndexInfo {
    pub idx_num: i32,
    pub idx_str: Option<String>,
    pub order_by_consumed: bool,
    pub estimated_cost: u32,
    pub estimated_rows: i64,
    pub constraint_usages: Vec<ConstraintUsage>,
}

/// Status of a failed planner callback.
#[derive(Debug, Clone, Copy, PartialEq, Eq, Structural)]
pub enum ResultCode {
    Error,
    Internal,
}

/// A full scan: no index, no ordering consumed, and every constraint left
/// for the engine to check.
pub open spec fn is_full_scan_plan(info: IndexInfo, n_constraints: int, cost: u32, rows: i64) -> bool {
    &&& info.idx_num == 0
    &&& info.idx_str is None
    &&& !info.order_by_consumed
    &&& info.estimated_cost == cost
    &&& info.estimated_rows == rows
    &&& info.constraint_usages@.len() == n_constraints
    &&& forall|i: int|
        0 <= i < n_constraints ==> (#[trigger] info.constraint_usages@[i]).argv_index is None
            && !info.constraint_usages@[i].omit
}

/// A full-scan plan for `n` constraints.
fn full_scan_plan(n: usize, cost: u32, rows: i64) -> (r: IndexInfo)
    ensures
        is_full_scan_plan(r, n as int, cost, rows),
{
    let mut usages: Vec<ConstraintUsage> = Vec::new();
    let mut i: usize = 0;
    while i < n
        invariant
            i <= n,
            usages@.len() == i,
            forall|k: int| 0 <= k < i ==> (#[trigger] usages@[k]).argv_index is None && !usages@[k].omit,
        decreases n - i,
    {
        usages.push(ConstraintUsage { argv_index: None, omit: false });
        i = i + 1;
    }
    IndexInfo {
        idx_num: 0,
        idx_str: None,
        order_by_consumed: false,
        estimated_cost: cost,
        estimated_rows: rows,
        constraint_usages: usages,
    }
}

/// A cursor over materialised rows.
pub struct RowCursor {
    pub rows: Vec<Vec<Value>>,
    pub current_row: usize,
}

/// What a cursor's `column` returns: the value at the current row and the
/// given column, or NULL when either is out of range.
pub open spec fn cursor_value(rows: Seq<Vec<Value>>, current_row: int, column: int) -> ValueView {
    if current_row < rows.len() && column < rows[current_row]@.len() {
        rows[current_row]@[column]@
    } else {
        ValueView::Null
    }
}

impl RowCursor {
    /// An empty cursor.
    pub fn new() -> (r: RowCursor)
        ensures
            r.rows@.len() == 0,
            r.current_row == 0,
    {
        RowCursor { rows: Vec::new(), current_row: 0 }
    }

    /// Advances to the next row; true while a row is under the cursor.
    pub fn next(&mut self) -> (r: Result<bool, LimboError>)
        requires
            old(self).current_row < usize::MAX,
        ensures
            final(self).rows == old(self).rows,
            final(self).current_row == old(self).current_row + 1,
            r == Ok::<bool, LimboError>(final(self).current_row < final(self).rows@.len()),
    {
        self.current_row = self.current_row + 1;
        Ok(self.current_row < self.rows.len())
    }

    /// The current row number.
    pub fn rowid(&self) -> (r: i64)
        ensures
            r == self.current_row as i64,
    {
        self.current_row as i64
    }

    /// The value in `column` of the current row (NULL when out of range).
    pub fn column(&self, column: usize) -> (r: Result<Value, LimboError>)
        ensures
            r matches Ok(v) && v@ == cursor_value(self.rows@, self.current_row as int, column as int),
    {
        if self.current_row < self.rows.len() && column < self.rows[self.current_row].len() {
            Ok(self.rows[self.current_row][column].duplicate())
        } else {
            Ok(Value::Null)
        }
    }

    /// Replaces the rows and moves back to the first one; true when there
    /// is at least one row.
    fn reset(&mut self, rows: Vec<Vec<Value>>) -> (r: Result<bool, LimboError>)
        ensures
            final(self).rows == rows,
            final(self).current_row == 0,
            r == Ok::<bool, LimboError>(rows@.len() > 0),
    {
        self.current_row = 0;
        self.rows = rows;
        Ok(self.rows.len() > 0)
    }
}

// ---------------------------------------------------------------------------
// Catalog table definitions
// ---------------------------------------------------------------------------

/// Column layout of `pg_class`.
pub const PG_CLASS_SQL: &'static str = "CREATE TABLE pg_class (
            oid INTEGER,
            relname TEXT,
            relnamespace INTEGER,
            reltype INTEGER,
            reloftype INTEGER,
            relowner INTEGER,
            relam INTEGER,
            relfilenode INTEGER,
            reltablespace INTEGER,
            relpages INTEGER,
            reltuples REAL,
            relallvisible INTEGER,
            reltoastrelid INTEGER,
            relhasindex INTEGER,
            relisshared INTEGER,
            relpersistence TEXT,
            relkind TEXT,
            relnatts INTEGER,
            relchecks INTEGER,
            relhasrules INTEGER,
            relhastriggers INTEGER,
            relhassubclass INTEGER,
            relrowsecurity INTEGER,
            relforcerowsecurity INTEGER,
            relispopulated INTEGER,
            relreplident TEXT,
            relispartition INTEGER,
            relrewrite INTEGER,
            relfrozenxid INTEGER,
            relminmxid INTEGER,
            relacl TEXT,
            reloptions TEXT,
            relpartbound TEXT
        )";

/// Column layout of `pg_namespace`.
pub const PG_NAMESPACE_SQL: &'static str = "CREATE TABLE pg_namespace (
            oid INTEGER,
            nspname TEXT,
            nspowner INTEGER,
            nspacl TEXT
        )";

/// Column layout of `pg_attribute`.
pub const PG_ATTRIBUTE_SQL: &'static str = "CREATE TABLE pg_attribute (
            attrelid INTEGER,
            attname TEXT,
            atttypid INTEGER,
            attstattarget INTEGER,
            attlen INTEGER,
            attnum INTEGER,
            attndims INTEGER,
            attcacheoff INTEGER,
            atttypmod INTEGER,
            attbyval INTEGER,
            attstorage TEXT,
            attalign TEXT,
            attnotnull INTEGER,
            atthasdef INTEGER,
            atthasmissing INTEGER,
            attidentity TEXT,
            attgenerated TEXT,
            attisdropped INTEGER,
            attislocal INTEGER,
            attinhcount INTEGER,
            attcollation INTEGER,
            attacl TEXT,
            attoptions TEXT,
            attfdwoptions TEXT,
            attmissingval TEXT
        )";

/// Column layout of `pg_roles`.
pub const PG_ROLES_SQL: &'static str = "CREATE TABLE pg_roles (
            oid INTEGER,
            rolname TEXT,
            rolsuper INTEGER,
            rolinherit INTEGER,
            rolcreaterole INTEGER,
            rolcreatedb INTEGER,
            rolcanlogin INTEGER,
            rolreplication INTEGER,
            rolconnlimit INTEGER,
            rolpassword TEXT,
            rolvaliduntil TEXT,
            rolbypassrls INTEGER,
            rolconfig TEXT
        )";

/// Column layout of `pg_am`.
pub const PG_AM_SQL: &'static str = "CREATE TABLE pg_am (
            oid INTEGER,
            amname TEXT,
            amhandler TEXT,
            amtype TEXT
        )";

/// Column layout of `pg_get_tabledef`.
pub const PG_GET_TABLEDEF_SQL: &'static str = "CREATE TABLE pg_get_tabledef (
            schema_name TEXT,
            table_name TEXT,
            ddl TEXT
        )";

/// Column layout of `pg_policy` (always empty).
pub const PG_POLICY_SQL: &'static str = "CREATE TABLE pg_policy (oid INTEGER, polname TEXT, polpermissive TEXT, polroles TEXT, polcmd TEXT, polqual TEXT, polwithcheck TEXT, polrelid INTEGER)";

/// Column layout of `pg_trigger` (always empty).
pub const PG_TRIGGER_SQL: &'static str = "CREATE TABLE pg_trigger (oid INTEGER, tgrelid INTEGER, tgname TEXT, tgfoid INTEGER, tgtype INTEGER, tgenabled TEXT, tgisinternal INTEGER, tgconstrrelid INTEGER, tgconstrindid INTEGER, tgconstraint INTEGER, tgdeferrable INTEGER, tginitdeferred INTEGER, tgnargs INTEGER, tgattr TEXT, tgargs TEXT, tgqual TEXT, tgoldtable TEXT, tgnewtable TEXT)";

/// Column layout of `pg_index` (always empty).
pub const PG_INDEX_SQL: &'static str = "CREATE TABLE pg_index (indexrelid INTEGER, indrelid INTEGER, indnatts INTEGER, indnkeyatts INTEGER, indisunique INTEGER, indisprimary INTEGER, indisexclusion INTEGER, indimmediate INTEGER, indisclustered INTEGER, indisvalid INTEGER, indcheckxmin INTEGER, indisready INTEGER, indislive INTEGER, indisreplident INTEGER, indkey TEXT, indcollation TEXT, indclass TEXT, indoption TEXT, indexprs TEXT, indpred TEXT)";

/// Column layout of `pg_constraint` (always empty).
pub const PG_CONSTRAINT_SQL: &'static str = "CREATE TABLE pg_constraint (oid INTEGER, conname TEXT, connamespace INTEGER, contype TEXT, condeferrable INTEGER, condeferred INTEGER, convalidated INTEGER, conrelid INTEGER, contypid INTEGER, conindid INTEGER, conparentid INTEGER, confrelid INTEGER, confupdtype TEXT, confdeltype TEXT, confmatchtype TEXT, conislocal INTEGER, coninhcount INTEGER, connoinherit INTEGER, conkey TEXT, confkey TEXT, conpfeqop TEXT, conppeqop TEXT, conffeqop TEXT, conexclop TEXT, conbin TEXT)";

/// Column layout of `pg_statistic_ext` (always empty).
pub const PG_STATISTIC_EXT_SQL: &'static str = "CREATE TABLE pg_statistic_ext (oid INTEGER, stxrelid INTEGER, stxname TEXT, stxnamespace INTEGER, stxowner INTEGER, stxstattarget INTEGER, stxkeys TEXT, stxkind TEXT, stxexprs TEXT)";

/// Column layout of `pg_inherits` (always empty).
pub const PG_INHERITS_SQL: &'static str = "CREATE TABLE pg_inherits (inhrelid INTEGER, inhparent INTEGER, inhseqno INTEGER, inhdetachpending INTEGER)";

/// Column layout of `pg_rewrite` (always empty).
pub const PG_REWRITE_SQL: &'static str = "CREATE TABLE pg_rewrite (oid INTEGER, rulename TEXT, ev_class INTEGER, ev_type TEXT, ev_enabled TEXT, is_instead INTEGER, ev_qual TEXT, ev_action TEXT)";

/// Column layout of `pg_foreign_table` (always empty).
pub const PG_FOREIGN_TABLE_SQL: &'static str = "CREATE TABLE pg_foreign_table (ftrelid INTEGER, ftserver INTEGER, ftoptions TEXT)";

/// Column layout of `pg_partitioned_table` (always empty).
pub const PG_PARTITIONED_TABLE_SQL: &'static str = "CREATE TABLE pg_partitioned_table (partrelid INTEGER, partstrat TEXT, partnatts INTEGER, partdefid INTEGER, partattrs TEXT, partclass TEXT, partcollation TEXT, partexprs TEXT)";

/// Column layout of `pg_type` (always empty).
pub const PG_TYPE_SQL: &'static str = "CREATE TABLE pg_type (oid INTEGER, typname TEXT, typnamespace INTEGER, typowner INTEGER, typlen INTEGER, typbyval INTEGER, typtype TEXT, typcategory TEXT, typispreferred INTEGER, typisdefined INTEGER, typdelim TEXT, typrelid INTEGER, typsubscript TEXT, typelem INTEGER, typarray INTEGER, typinput TEXT, typoutput TEXT, typreceive TEXT, typsend TEXT, typmodin TEXT, typmodout TEXT, typanalyze TEXT, typalign TEXT, typstorage TEXT, typnotnull INTEGER, typbasetype INTEGER, typtypmod INTEGER, typndims INTEGER, typcollation INTEGER, typdefaultbin TEXT, typdefault TEXT, typacl TEXT)";

/// Column layout of `pg_collation` (always empty).
pub const PG_COLLATION_SQL: &'static str = "CREATE TABLE pg_collation (oid INTEGER, collname TEXT, collnamespace INTEGER, collowner INTEGER, collprovider TEXT, collisdeterministic INTEGER, collencoding INTEGER, collcollate TEXT, collctype TEXT, colliculocale TEXT, collicurules TEXT, collversion TEXT)";

/// Column layout of `pg_attrdef` (always empty).
pub const PG_ATTRDEF_SQL: &'static str = "CREATE TABLE pg_attrdef (oid INTEGER, adrelid INTEGER, adnum INTEGER, adbin TEXT)";

/// Column layout of `pg_description` (always empty).
pub const PG_DESCRIPTION_SQL: &'static str = "CREATE TABLE pg_description (objoid INTEGER, classoid INTEGER, objsubid INTEGER, description TEXT)";

/// Column layout of `pg_publication` (always empty).
pub const PG_PUBLICATION_SQL: &'static str = "CREATE TABLE pg_publication (oid INTEGER, pubname TEXT, pubowner INTEGER, puballtables INTEGER, pubinsert INTEGER, pubupdate INTEGER, pubdelete INTEGER, pubtruncate INTEGER, pubviaroot INTEGER)";

/// Column layout of `pg_publication_namespace` (always empty).
pub const PG_PUBLICATION_NAMESPACE_SQL: &'static str = "CREATE TABLE pg_publication_namespace (oid INTEGER, pnpubid INTEGER, pnnspid INTEGER)";

/// Column layout of `pg_publication_rel` (always empty).
pub const PG_PUBLICATION_REL_SQL: &'static str = "CREATE TABLE pg_publication_rel (oid INTEGER, prpubid INTEGER, prrelid INTEGER, prqual TEXT, prattrs TEXT)";

/// Virtual table `pg_class`: maps the schema's user tables to PostgreSQL's `pg_class`.
#[derive(Debug)]
pub struct PgClassTable;

impl PgClassTable {
    pub fn new() -> (r: Self) {
        PgClassTable
    }

    /// The table's name.
    pub fn name(&self) -> (r: String)
        ensures
            r@ == "pg_class"@,
    {
        crate::text::owned("pg_class")
    }

    /// The CREATE TABLE statement declaring the table's columns.
    pub fn sql(&self) -> (r: String)
        ensures
            r@ == PG_CLASS_SQL@,
    {
        crate::text::owned(PG_CLASS_SQL)
    }

    /// Planner callback: a full scan costing 1000 units and estimated at
    /// 100 rows; every constraint is left to the engine.
    pub fn best_index(&self, constraints: &[ConstraintInfo], order_by: &[OrderByInfo]) -> (r: Result<
        IndexInfo,
        ResultCode,
    >)
        ensures
            r matches Ok(info) && is_full_scan_plan(info, constraints@.len() as int, 1000, 100),
    {
        Ok(full_scan_plan(constraints.len(), 1000, 100))
    }

    /// Opens a cursor over the table.
    pub fn open(&self) -> (r: PgClassCursor)
        ensures
            r.cursor.rows@.len() == 0,
            r.cursor.current_row == 0,
    {
        PgClassCursor { cursor: RowCursor::new() }
    }
}

/// Cursor over `pg_class`.
pub struct PgClassCursor {
    pub cursor: RowCursor,
}

impl PgClassCursor {
    /// A cursor with no rows loaded.
    pub fn new() -> (r: PgClassCursor)
        ensures
            r.cursor.rows@.len() == 0,
            r.cursor.current_row == 0,
    {
        PgClassCursor { cursor: RowCursor::new() }
    }

    /// Advances to the next row; true while a row is under the cursor.
    pub fn next(&mut self) -> (r: Result<bool, LimboError>)
        requires
            old(self).cursor.current_row < usize::MAX,
        ensures
            final(self).cursor.rows == old(self).cursor.rows,
            final(self).cursor.current_row == old(self).cursor.current_row + 1,
            r == Ok::<bool, LimboError>(final(self).cursor.current_row < final(self).cursor.rows@.len()),
    {
        self.cursor.next()
    }

    /// The current row number.
    pub fn rowid(&self) -> (r: i64)
        ensures
            r == self.cursor.current_row as i64,
    {
        self.cursor.rowid()
    }

    /// The value in `column` of the current row (NULL when out of range).
    pub fn column(&self, column: usize) -> (r: Result<Value, LimboError>)
        ensures
            r matches Ok(v) && v@ == cursor_value(self.cursor.rows@, self.cursor.current_row as int, column as int),
    {
        self.cursor.column(column)
    }

    /// Loads the table's rows and moves to the first one; true when there
    /// is at least one row.  The arguments of the engine's filter call are
    /// not used: the engine checks every constraint itself.
    pub fn filter(&mut self, schema: &Schema, args: &[Value], idx_str: Option<String>, idx_num: i32) -> (r: Result<bool, LimboError>)
        requires
            schema.wf(),
            catalog_fits(schema),
        ensures
            rows_view(final(self).cursor.rows@) == class_rows_of(schema),
            final(self).cursor.current_row == 0,
            r == Ok::<bool, LimboError>(class_rows_of(schema).len() > 0),
    {
        let rows = pg_class_rows(schema);
        self.cursor.reset(rows)
    }
}

/// Virtual table `pg_namespace`: postgreSQL's standard namespaces as `pg_namespace`.
#[derive(Debug)]
pub struct PgNamespaceTable;

impl PgNamespaceTable {
    pub fn new() -> (r: Self) {
        PgNamespaceTable
    }

    /// The table's name.
    pub fn name(&self) -> (r: String)
        ensures
            r@ == "pg_namespace"@,
    {
        crate::text::owned("pg_namespace")
    }

    /// The CREATE TABLE statement declaring the table's columns.
    pub fn sql(&self) -> (r: String)
        ensures
            r@ == PG_NAMESPACE_SQL@,
    {
        crate::text::owned(PG_NAMESPACE_SQL)
    }

    /// Planner callback: a full scan costing 10 units and estimated at
    /// 5 rows; every constraint is left to the engine.
    pub fn best_index(&self, constraints: &[ConstraintInfo], order_by: &[OrderByInfo]) -> (r: Result<
        IndexInfo,
        ResultCode,
    >)
        ensures
            r matches Ok(info) && is_full_scan_plan(info, constraints@.len() as int, 10, 5),
    {
        Ok(full_scan_plan(constraints.len(), 10, 5))
    }

    /// Opens a cursor over the table.
    pub fn open(&self) -> (r: PgNamespaceCursor)
        ensures
            r.cursor.rows@.len() == 0,
            r.cursor.current_row == 0,
    {
        PgNamespaceCursor { cursor: RowCursor::new() }
    }
}

/// Cursor over `pg_namespace`.
pub struct PgNamespaceCursor {
    pub cursor: RowCursor,
}

impl PgNamespaceCursor {
    /// A cursor with no rows loaded.
    pub fn new() -> (r: PgNamespaceCursor)
        ensures
            r.cursor.rows@.len() == 0,
            r.cursor.current_row == 0,
    {
        PgNamespaceCursor { cursor: RowCursor::new() }
    }

    /// Advances to the next row; true while a row is under the cursor.
    pub fn next(&mut self) -> (r: Result<bool, LimboError>)
        requires
            old(self).cursor.current_row < usize::MAX,
        ensures
            final(self).cursor.rows == old(self).cursor.rows,
            final(self).cursor.current_row == old(self).cursor.current_row + 1,
            r == Ok::<bool, LimboError>(final(self).cursor.current_row < final(self).cursor.rows@.len()),
    {
        self.cursor.next()
    }

    /// The current row number.
    pub fn rowid(&self) -> (r: i64)
        ensures
            r == self.cursor.current_row as i64,
    {
        self.cursor.rowid()
    }

    /// The value in `column` of the current row (NULL when out of range).
    pub fn column(&self, column: usize) -> (r: Result<Value, LimboError>)
        ensures
            r matches Ok(v) && v@ == cursor_value(self.cursor.rows@, self.cursor.current_row as int, column as int),
    {
        self.cursor.column(column)
    }

    /// Loads the table's rows and moves to the first one; true when there
    /// is at least one row.  The arguments of the engine's filter call are
    /// not used: the engine checks every constraint itself.
    pub fn filter(&mut self, args: &[Value], idx_str: Option<String>, idx_num: i32) -> (r: Result<bool, LimboError>)
        requires
        ensures
            rows_view(final(self).cursor.rows@) == pg_namespace_rows_spec(),
            final(self).cursor.current_row == 0,
            r == Ok::<bool, LimboError>(pg_namespace_rows_spec().len() > 0),
    {
        let rows = pg_namespace_rows();
        self.cursor.reset(rows)
    }
}

/// Virtual table `pg_attribute`: maps the columns of the schema's user tables to `pg_attribute`.
#[derive(Debug)]
pub struct PgAttributeTable;

impl PgAttributeTable {
    pub fn new() -> (r: Self) {
        PgAttributeTable
    }

    /// The table's name.
    pub fn name(&self) -> (r: String)
        ensures
            r@ == "pg_attribute"@,
    {
        crate::text::owned("pg_attribute")
    }

    /// The CREATE TABLE statement declaring the table's columns.
    pub fn sql(&self) -> (r: String)
        ensures
            r@ == PG_ATTRIBUTE_SQL@,
    {
        crate::text::owned(PG_ATTRIBUTE_SQL)
    }

    /// Planner callback: a full scan costing 1000 units and estimated at
    /// 1000 rows; every constraint is left to the engine.
    pub fn best_index(&self, constraints: &[ConstraintInfo], order_by: &[OrderByInfo]) -> (r: Result<
        IndexInfo,
        ResultCode,
    >)
        ensures
            r matches Ok(info) && is_full_scan_plan(info, constraints@.len() as int, 1000, 1000),
    {
        Ok(full_scan_plan(constraints.len(), 1000, 1000))
    }

    /// Opens a cursor over the table.
    pub fn open(&self) -> (r: PgAttributeCursor)
        ensures
            r.cursor.rows@.len() == 0,
            r.cursor.current_row == 0,
    {
        PgAttributeCursor { cursor: RowCursor::new() }
    }
}

/// Cursor over `pg_attribute`.
pub struct PgAttributeCursor {
    pub cursor: RowCursor,
}

impl PgAttributeCursor {
    /// A cursor with no rows loaded.
    pub fn new() -> (r: PgAttributeCursor)
        ensures
            r.cursor.rows@.len() == 0,
            r.cursor.current_row == 0,
    {
        PgAttributeCursor { cursor: RowCursor::new() }
    }

    /// Advances to the next row; true while a row is under the cursor.
    pub fn next(&mut self) -> (r: Result<bool, LimboError>)
        requires
            old(self).cursor.current_row < usize::MAX,
        ensures
            final(self).cursor.rows == old(self).cursor.rows,
            final(self).cursor.current_row == old(self).cursor.current_row + 1,
            r == Ok::<bool, LimboError>(final(self).cursor.current_row < final(self).cursor.rows@.len()),
    {
        self.cursor.next()
    }

    /// The current row number.
    pub fn rowid(&self) -> (r: i64)
        ensures
            r == self.cursor.current_row as i64,
    {
        self.cursor.rowid()
    }

    /// The value in `column` of the current row (NULL when out of range).
    pub fn column(&self, column: usize) -> (r: Result<Value, LimboError>)
        ensures
            r matches Ok(v) && v@ == cursor_value(self.cursor.rows@, self.cursor.current_row as int, column as int),
    {
        self.cursor.column(column)
    }

    /// Loads the table's rows and moves to the first one; true when there
    /// is at least one row.  The arguments of the engine's filter call are
    /// not used: the engine checks every constraint itself.
    pub fn filter(&mut self, schema: &Schema, args: &[Value], idx_str: Option<String>, idx_num: i32) -> (r: Result<bool, LimboError>)
        requires
            schema.wf(),
            catalog_fits(schema),
        ensures
            rows_view(final(self).cursor.rows@) == attribute_rows_of(schema),
            final(self).cursor.current_row == 0,
            r == Ok::<bool, LimboError>(attribute_rows_of(schema).len() > 0),
    {
        let rows = pg_attribute_rows(schema);
        self.cursor.reset(rows)
    }
}

/// Virtual table `pg_roles`: a single superuser role as `pg_roles`.
#[derive(Debug)]
pub struct PgRolesTable;

impl PgRolesTable {
    pub fn new() -> (r: Self) {
        PgRolesTable
    }

    /// The table's name.
    pub fn name(&self) -> (r: String)
        ensures
            r@ == "pg_roles"@,
    {
        crate::text::owned("pg_roles")
    }

    /// The CREATE TABLE statement declaring the table's columns.
    pub fn sql(&self) -> (r: String)
        ensures
            r@ == PG_ROLES_SQL@,
    {
        crate::text::owned(PG_ROLES_SQL)
    }

    /// Planner callback: a full scan costing 10 units and estimated at
    /// 1 rows; every constraint is left to the engine.
    pub fn best_index(&self, constraints: &[ConstraintInfo], order_by: &[OrderByInfo]) -> (r: Result<
        IndexInfo,
        ResultCode,
    >)
        ensures
            r matches Ok(info) && is_full_scan_plan(info, constraints@.len() as int, 10, 1),
    {
        Ok(full_scan_plan(constraints.len(), 10, 1))
    }

    /// Opens a cursor over the table.
    pub fn open(&self) -> (r: PgRolesCursor)
        ensures
            r.cursor.rows@.len() == 0,
            r.cursor.current_row == 0,
    {
        PgRolesCursor { cursor: RowCursor::new() }
    }
}

/// Cursor over `pg_roles`.
pub struct PgRolesCursor {
    pub cursor: RowCursor,
}

impl PgRolesCursor {
    /// A cursor with no rows loaded.
    pub fn new() -> (r: PgRolesCursor)
        ensures
            r.cursor.rows@.len() == 0,
            r.cursor.current_row == 0,
    {
        PgRolesCursor { cursor: RowCursor::new() }
    }

    /// Advances to the next row; true while a row is under the cursor.
    pub fn next(&mut self) -> (r: Result<bool, LimboError>)
        requires
            old(self).cursor.current_row < usize::MAX,
        ensures
            final(self).cursor.rows == old(self).cursor.rows,
            final(self).cursor.current_row == old(self).cursor.current_row + 1,
            r == Ok::<bool, LimboError>(final(self).cursor.current_row < final(self).cursor.rows@.len()),
    {
        self.cursor.next()
    }

    /// The current row number.
    pub fn rowid(&self) -> (r: i64)
        ensures
            r == self.cursor.current_row as i64,
    {
        self.cursor.rowid()
    }

    /// The value in `column` of the current row (NULL when out of range).
    pub fn column(&self, column: usize) -> (r: Result<Value, LimboError>)
        ensures
            r matches Ok(v) && v@ == cursor_value(self.cursor.rows@, self.cursor.current_row as int, column as int),
    {
        self.cursor.column(column)
    }

    /// Loads the table's rows and moves to the first one; true when there
    /// is at least one row.  The arguments of the engine's filter call are
    /// not used: the engine checks every constraint itself.
    pub fn filter(&mut self, args: &[Value], idx_str: Option<String>, idx_num: i32) -> (r: Result<bool, LimboError>)
        requires
        ensures
            rows_view(final(self).cursor.rows@) == pg_roles_rows_spec(),
            final(self).cursor.current_row == 0,
            r == Ok::<bool, LimboError>(pg_roles_rows_spec().len() > 0),
    {
        let rows = PgRolesTable::roles();
        self.cursor.reset(rows)
    }
}

/// Virtual table `pg_am`: the heap and btree access methods as `pg_am`.
#[derive(Debug)]
pub struct PgAmTable;

impl PgAmTable {
    pub fn new() -> (r: Self) {
        PgAmTable
    }

    /// The table's name.
    pub fn name(&self) -> (r: String)
        ensures
            r@ == "pg_am"@,
    {
        crate::text::owned("pg_am")
    }

    /// The CREATE TABLE statement declaring the table's columns.
    pub fn sql(&self) -> (r: String)
        ensures
            r@ == PG_AM_SQL@,
    {
        crate::text::owned(PG_AM_SQL)
    }

    /// Planner callback: a full scan costing 10 units and estimated at
    /// 2 rows; every constraint is left to the engine.
    pub fn best_index(&self, constraints: &[ConstraintInfo], order_by: &[OrderByInfo]) -> (r: Result<
        IndexInfo,
        ResultCode,
    >)
        ensures
            r matches Ok(info) && is_full_scan_plan(info, constraints@.len() as int, 10, 2),
    {
        Ok(full_scan_plan(constraints.len(), 10, 2))
    }

    /// Opens a cursor over the table.
    pub fn open(&self) -> (r: PgAmCursor)
        ensures
            r.cursor.rows@.len() == 0,
            r.cursor.current_row == 0,
    {
        PgAmCursor { cursor: RowCursor::new() }
    }
}

/// Cursor over `pg_am`.
pub struct PgAmCursor {
    pub cursor: RowCursor,
}

impl PgAmCursor {
    /// A cursor with no rows loaded.
    pub fn new() -> (r: PgAmCursor)
        ensures
            r.cursor.rows@.len() == 0,
            r.cursor.current_row == 0,
    {
        PgAmCursor { cursor: RowCursor::new() }
    }

    /// Advances to the next row; true while a row is under the cursor.
    pub fn next(&mut self) -> (r: Result<bool, LimboError>)
        requires
            old(self).cursor.current_row < usize::MAX,
        ensures
            final(self).cursor.rows == old(self).cursor.rows,
            final(self).cursor.current_row == old(self).cursor.current_row + 1,
            r == Ok::<bool, LimboError>(final(self).cursor.current_row < final(self).cursor.rows@.len()),
    {
        self.cursor.next()
    }

    /// The current row number.
    pub fn rowid(&self) -> (r: i64)
        ensures
            r == self.cursor.current_row as i64,
    {
        self.cursor.rowid()
    }

    /// The value in `column` of the current row (NULL when out of range).
    pub fn column(&self, column: usize) -> (r: Result<Value, LimboError>)
        ensures
            r matches Ok(v) && v@ == cursor_value(self.cursor.rows@, self.cursor.current_row as int, column as int),
    {
        self.cursor.column(column)
    }

    /// Loads the table's rows and moves to the first one; true when there
    /// is at least one row.  The arguments of the engine's filter call are
    /// not used: the engine checks every constraint itself.
    pub fn filter(&mut self, args: &[Value], idx_str: Option<String>, idx_num: i32) -> (r: Result<bool, LimboError>)
        requires
        ensures
            rows_view(final(self).cursor.rows@) == pg_am_rows_spec(),
            final(self).cursor.current_row == 0,
            r == Ok::<bool, LimboError>(pg_am_rows_spec().len() > 0),
    {
        let rows = PgAmTable::rows();
        self.cursor.reset(rows)
    }
}

impl PgRolesTable {
    /// The role rows: a single superuser role `turso`.
    pub fn roles() -> (r: Vec<Vec<Value>>)
        ensures
            rows_view(r@) == pg_roles_rows_spec(),
    {
        pg_roles_rows()
    }
}

impl PgAmTable {
    /// The access-method rows: heap and btree.
    pub fn rows() -> (r: Vec<Vec<Value>>)
        ensures
            rows_view(r@) == pg_am_rows_spec(),
    {
        pg_am_rows()
    }
}


/// Virtual table `pg_get_tabledef`: PostgreSQL-flavoured CREATE TABLE
/// statements for the schema's tables.
#[derive(Debug)]
pub struct PgGetTableDefTable;

impl PgGetTableDefTable {
    pub fn new() -> (r: Self) {
        PgGetTableDefTable
    }

    /// The table's name.
    pub fn name(&self) -> (r: String)
        ensures
            r@ == "pg_get_tabledef"@,
    {
        crate::text::owned("pg_get_tabledef")
    }

    /// The CREATE TABLE statement declaring the table's columns.
    pub fn sql(&self) -> (r: String)
        ensures
            r@ == PG_GET_TABLEDEF_SQL@,
    {
        crate::text::owned(PG_GET_TABLEDEF_SQL)
    }

    /// Planner callback: a full scan costing 100 units and estimated at 20
    /// rows, using no constraint.
    pub fn best_index(&self, constraints: &[ConstraintInfo], order_by: &[OrderByInfo]) -> (r: Result<
        IndexInfo,
        ResultCode,
    >)
        ensures
            r matches Ok(info) && is_full_scan_plan(info, 0, 100, 20),
    {
        Ok(full_scan_plan(0, 100, 20))
    }

    /// Opens a cursor over the table.
    pub fn open(&self) -> (r: PgGetTableDefCursor)
        ensures
            r.rows@.len() == 0,
            r.current_row == 0,
            r.row_count == 0,
    {
        PgGetTableDefCursor::new()
    }
}

/// Cursor over `pg_get_tabledef`.
pub struct PgGetTableDefCursor {
    pub rows: Vec<Vec<Value>>,
    pub current_row: usize,
    pub row_count: usize,
}

impl PgGetTableDefCursor {
    /// A cursor with no rows loaded.
    pub fn new() -> (r: PgGetTableDefCursor)
        ensures
            r.rows@.len() == 0,
            r.current_row == 0,
            r.row_count == 0,
    {
        PgGetTableDefCursor { rows: Vec::new(), current_row: 0, row_count: 0 }
    }

    /// Advances to the next row; true while the row number is below the
    /// row count recorded by the last `filter`.
    pub fn next(&mut self) -> (r: Result<bool, LimboError>)
        requires
            old(self).current_row < usize::MAX,
        ensures
            final(self).rows == old(self).rows,
            final(self).row_count == old(self).row_count,
            final(self).current_row == old(self).current_row + 1,
            r == Ok::<bool, LimboError>(final(self).current_row < final(self).row_count),
    {
        self.current_row = self.current_row + 1;
        Ok(self.current_row < self.row_count)
    }

    /// The current row number.
    pub fn rowid(&self) -> (r: i64)
        ensures
            r == self.current_row as i64,
    {
        self.current_row as i64
    }

    /// The value in `column` (0 to 2) of the current row; NULL out of range.
    pub fn column(&self, column: usize) -> (r: Result<Value, LimboError>)
        requires
            forall|i: int| 0 <= i < self.rows@.len() ==> (#[trigger] self.rows@[i])@.len() == 3,
        ensures
            r matches Ok(v) && v@ == (if self.current_row < self.rows@.len() && column < 3 {
                self.rows@[self.current_row as int]@[column as int]@
            } else {
                ValueView::Null
            }),
    {
        if self.current_row < self.rows.len() && column < 3 {
            Ok(self.rows[self.current_row][column].duplicate())
        } else {
            Ok(Value::Null)
        }
    }

    /// Loads the table definitions and moves to the first row; true when
    /// there is at least one.
    pub fn filter(&mut self, schema: &Schema, args: &[Value], idx_str: Option<String>, idx_num: i32) -> (r: Result<
        bool,
        LimboError,
    >)
        requires
            schema.wf(),
        ensures
            rows_view(final(self).rows@) == tabledef_rows_upto(schema, schema.tables@.len() as int),
            final(self).current_row == 0,
            final(self).row_count == final(self).rows@.len(),
            forall|i: int| 0 <= i < final(self).rows@.len() ==> (#[trigger] final(self).rows@[i])@.len() == 3,
            r == Ok::<bool, LimboError>(final(self).rows@.len() > 0),
    {
        self.current_row = 0;
        self.rows = load_table_defs(schema);
        self.row_count = self.rows.len();
        proof {
            lemma_tabledef_rows_width(schema, schema.tables@.len() as int);
            assert forall|i: int| 0 <= i < self.rows@.len() implies (#[trigger] self.rows@[i])@.len() == 3 by {
                assert(rows_view(self.rows@)[i] == row_view(self.rows@[i]));
            }
        }
        Ok(self.rows.len() > 0)
    }
}

/// Every `pg_get_tabledef` row has three values.
proof fn lemma_tabledef_rows_width(schema: &Schema, n: int)
    ensures
        forall|i: int| 0 <= i < tabledef_rows_upto(schema, n).len() ==> (#[trigger] tabledef_rows_upto(schema, n)[i]).len() == 3,
    decreases n,
{
    if n > 0 {
        lemma_tabledef_rows_width(schema, n - 1);
        let prev = tabledef_rows_upto(schema, n - 1);
        let e = schema.tables@[n - 1];
        if is_tabledef_entry(e) {
            assert forall|i: int| 0 <= i < prev.len() + 1 implies (#[trigger] prev.push(
                tabledef_row(schema, e.0@),
            )[i]).len() == 3 by {
                if i < prev.len() {
                    assert(prev.push(tabledef_row(schema, e.0@))[i] == prev[i]);
                }
            }
        }
    }
}

/// A catalog table that is always empty; it lets client tools that query
/// it run.
#[derive(Debug)]
pub struct EmptyPgCatalogTable {
    pub name: String,
    pub create_sql: String,
}

impl EmptyPgCatalogTable {
    /// The table's name.
    pub fn name(&self) -> (r: String)
        ensures
            r@ == self.name@,
    {
        self.name.clone()
    }

    /// The CREATE TABLE statement declaring the table's columns.
    pub fn sql(&self) -> (r: String)
        ensures
            r@ == self.create_sql@,
    {
        self.create_sql.clone()
    }

    /// Planner callback: a full scan costing 10 units and estimated at 0
    /// rows; every constraint is left to the engine.
    pub fn best_index(&self, constraints: &[ConstraintInfo], order_by: &[OrderByInfo]) -> (r: Result<
        IndexInfo,
        ResultCode,
    >)
        ensures
            r matches Ok(info) && is_full_scan_plan(info, constraints@.len() as int, 10, 0),
    {
        Ok(full_scan_plan(constraints.len(), 10, 0))
    }

    /// Opens a cursor over the (empty) table.
    pub fn open(&self) -> (r: EmptyPgCatalogCursor) {
        EmptyPgCatalogCursor
    }
}

/// Cursor over an always-empty catalog table.
pub struct EmptyPgCatalogCursor;

impl EmptyPgCatalogCursor {
    /// There is never a row.
    pub fn next(&mut self) -> (r: Result<bool, LimboError>)
        ensures
            r == Ok::<bool, LimboError>(false),
    {
        Ok(false)
    }

    /// Row number 0.
    pub fn rowid(&self) -> (r: i64)
        ensures
            r == 0,
    {
        0
    }

    /// Always NULL.
    pub fn column(&self, column: usize) -> (r: Result<Value, LimboError>)
        ensures
            r matches Ok(v) && v@ == ValueView::Null,
    {
        Ok(Value::Null)
    }

    /// Never any row.
    pub fn filter(&mut self, args: &[Value], idx_str: Option<String>, idx_num: i32) -> (r: Result<bool, LimboError>)
        ensures
            r == Ok::<bool, LimboError>(false),
    {
        Ok(false)
    }
}

/// The kind of a virtual table.
#[derive(Debug, Clone, Copy, PartialEq, Eq, Structural)]
pub enum VTabKind {
    VirtualTable,
    TableValuedFunction,
}

/// A catalog table implementation.
#[derive(Debug)]
pub enum CatalogTable {
    Class(PgClassTable),
    Namespace(PgNamespaceTable),
    Attribute(PgAttributeTable),
    Roles(PgRolesTable),
    Am(PgAmTable),
    GetTableDef(PgGetTableDefTable),
    Empty(EmptyPgCatalogTable),
}

/// A virtual table registered with the engine: its name, its declaring
/// CREATE TABLE statement, its kind and its implementation.
#[derive(Debug)]
pub struct VirtualTable {
    pub name: String,
    pub sql: String,
    pub kind: VTabKind,
    pub table: CatalogTable,
}

/// The CREATE TABLE statement of a catalog table implementation.
pub open spec fn catalog_table_sql(t: CatalogTable) -> Seq<char> {
    match t {
        CatalogTable::Class(_) => PG_CLASS_SQL@,
        CatalogTable::Namespace(_) => PG_NAMESPACE_SQL@,
        CatalogTable::Attribute(_) => PG_ATTRIBUTE_SQL@,
        CatalogTable::Roles(_) => PG_ROLES_SQL@,
        CatalogTable::Am(_) => PG_AM_SQL@,
        CatalogTable::GetTableDef(_) => PG_GET_TABLEDEF_SQL@,
        CatalogTable::Empty(e) => e.create_sql@,
    }
}

/// A registered virtual table named `name` whose declared statement is the
/// implementation's.
pub open spec fn is_catalog_entry(v: VirtualTable, name: Seq<char>, sql: Seq<char>) -> bool {
    &&& v.name@ == name
    &&& v.sql@ == sql
    &&& sql == catalog_table_sql(v.table)
    &&& v.kind == VTabKind::VirtualTable
}

impl VirtualTable {
    /// Registers an internal virtual table.
    pub fn new_internal(name: String, sql: String, kind: VTabKind, table: CatalogTable) -> (r: VirtualTable)
        ensures
            r.name == name,
            r.sql == sql,
            r.kind == kind,
            r.table == table,
    {
        VirtualTable { name, sql, kind, table }
    }
}

/// An always-empty catalog table named `name`, declared by `create_sql`.
pub fn empty_catalog_table(name: &str, create_sql: &str) -> (r: VirtualTable)
    ensures
        is_catalog_entry(r, name@, create_sql@),
        r.table is Empty,
{
    let table = EmptyPgCatalogTable { name: crate::text::owned(name), create_sql: crate::text::owned(create_sql) };
    let sql = table.sql();
    VirtualTable::new_internal(crate::text::owned(name), sql, VTabKind::VirtualTable, CatalogTable::Empty(table))
}

/// The catalog tables, in registration order, each with its declaring
/// statement.
pub open spec fn catalog_table_specs() -> Seq<(Seq<char>, Seq<char>)> {
    seq![
        ("pg_class"@, PG_CLASS_SQL@),
        ("pg_namespace"@, PG_NAMESPACE_SQL@),
        ("pg_attribute"@, PG_ATTRIBUTE_SQL@),
        ("pg_roles"@, PG_ROLES_SQL@),
        ("pg_am"@, PG_AM_SQL@),
        ("pg_get_tabledef"@, PG_GET_TABLEDEF_SQL@),
        ("pg_policy"@, PG_POLICY_SQL@),
        ("pg_trigger"@, PG_TRIGGER_SQL@),
        ("pg_index"@, PG_INDEX_SQL@),
        ("pg_constraint"@, PG_CONSTRAINT_SQL@),
        ("pg_statistic_ext"@, PG_STATISTIC_EXT_SQL@),
        ("pg_inherits"@, PG_INHERITS_SQL@),
        ("pg_rewrite"@, PG_REWRITE_SQL@),
        ("pg_foreign_table"@, PG_FOREIGN_TABLE_SQL@),
        ("pg_partitioned_table"@, PG_PARTITIONED_TABLE_SQL@),
        ("pg_type"@, PG_TYPE_SQL@),
        ("pg_collation"@, PG_COLLATION_SQL@),
        ("pg_attrdef"@, PG_ATTRDEF_SQL@),
        ("pg_description"@, PG_DESCRIPTION_SQL@),
        ("pg_publication"@, PG_PUBLICATION_SQL@),
        ("pg_publication_namespace"@, PG_PUBLICATION_NAMESPACE_SQL@),
        ("pg_publication_rel"@, PG_PUBLICATION_REL_SQL@),
    ]
}

/// The PostgreSQL system catalog tables: `pg_class`, `pg_namespace`,
/// `pg_attribute`, `pg_roles`, `pg_am`, `pg_get_tabledef`, and empty stand-ins
/// for the catalog tables that client tools query (`pg_policy`,
/// `pg_trigger`, ...).
pub fn pg_catalog_virtual_tables() -> (r: Vec<VirtualTable>)
    ensures
        r@.len() == catalog_table_specs().len(),
        forall|i: int|
            0 <= i < r@.len() ==> is_catalog_entry(#[trigger] r@[i], catalog_table_specs()[i].0, catalog_table_specs()[i].1),
        r@[0].table is Class,
        r@[1].table is Namespace,
        r@[2].table is Attribute,
        r@[3].table is Roles,
        r@[4].table is Am,
        r@[5].table is GetTableDef,
        forall|i: int| 6 <= i < r@.len() ==> (#[trigger] r@[i]).table is Empty,
{
    let mut r: Vec<VirtualTable> = Vec::new();
    r.push(VirtualTable::new_internal(
        crate::text::owned("pg_class"),
        PgClassTable::new().sql(),
        VTabKind::VirtualTable,
        CatalogTable::Class(PgClassTable::new()),
    ));
    r.push(VirtualTable::new_internal(
        crate::text::owned("pg_namespace"),
        PgNamespaceTable::new().sql(),
        VTabKind::VirtualTable,
        CatalogTable::Namespace(PgNamespaceTable::new()),
    ));
    r.push(VirtualTable::new_internal(
        crate::text::owned("pg_attribute"),
        PgAttributeTable::new().sql(),
        VTabKind::VirtualTable,
        CatalogTable::Attribute(PgAttributeTable::new()),
    ));
    r.push(VirtualTable::new_internal(
        crate::text::owned("pg_roles"),
        PgRolesTable::new().sql(),
        VTabKind::VirtualTable,
        CatalogTable::Roles(PgRolesTable::new()),
    ));
    r.push(VirtualTable::new_internal(
        crate::text::owned("pg_am"),
        PgAmTable::new().sql(),
        VTabKind::VirtualTable,
        CatalogTable::Am(PgAmTable::new()),
    ));
    r.push(VirtualTable::new_internal(
        crate::text::owned("pg_get_tabledef"),
        PgGetTableDefTable::new().sql(),
        VTabKind::VirtualTable,
        CatalogTable::GetTableDef(PgGetTableDefTable::new()),
    ));
    r.push(empty_catalog_table("pg_policy", PG_POLICY_SQL));
    r.push(empty_catalog_table("pg_trigger", PG_TRIGGER_SQL));
    r.push(empty_catalog_table("pg_index", PG_INDEX_SQL));
    r.push(empty_catalog_table("pg_constraint", PG_CONSTRAINT_SQL));
    r.push(empty_catalog_table("pg_statistic_ext", PG_STATISTIC_EXT_SQL));
    r.push(empty_catalog_table("pg_inherits", PG_INHERITS_SQL));
    r.push(empty_catalog_table("pg_rewrite", PG_REWRITE_SQL));
    r.push(empty_catalog_table("pg_foreign_table", PG_FOREIGN_TABLE_SQL));
    r.push(empty_catalog_table("pg_partitioned_table", PG_PARTITIONED_TABLE_SQL));
    r.push(empty_catalog_table("pg_type", PG_TYPE_SQL));
    r.push(empty_catalog_table("pg_collation", PG_COLLATION_SQL));
    r.push(empty_catalog_table("pg_attrdef", PG_ATTRDEF_SQL));
    r.push(empty_catalog_table("pg_description", PG_DESCRIPTION_SQL));
    r.push(empty_catalog_table("pg_publication", PG_PUBLICATION_SQL));
    r.push(empty_catalog_table("pg_publication_namespace", PG_PUBLICATION_NAMESPACE_SQL));
    r.push(empty_catalog_table("pg_publication_rel", PG_PUBLICATION_REL_SQL));
    proof {
        let specs = catalog_table_specs();
        assert forall|i: int| 0 <= i < r@.len() implies is_catalog_entry(#[trigger] r@[i], specs[i].0, specs[i].1) by {
        }
    }
    r
}

} // verus!
