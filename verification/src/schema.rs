//! The database schema and SQL values as the catalog tables and the code
//! generators see them.

use vstd::prelude::*;

verus! {

/// A SQL value.  A floating-point value is held by its IEEE-754 bit pattern.
#[derive(Debug)]
pub enum Value {
    Null,
    Integer(i64),
    Float(u64),
    Text(String),
    Blob(Vec<u8>),
}

/// The mathematical content of a [`Value`].
pub enum ValueView {
    Null,
    Integer(i64),
    Float(u64),
    Text(Seq<char>),
    Blob(Seq<u8>),
}

impl View for Value {
    type V = ValueView;

    open spec fn view(&self) -> ValueView {
        match self {
            Value::Null => ValueView::Null,
            Value::Integer(i) => ValueView::Integer(*i),
            Value::Float(b) => ValueView::Float(*b),
            Value::Text(s) => ValueView::Text(s@),
            Value::Blob(b) => ValueView::Blob(b@),
        }
    }
}

/// The view of a row of values.
pub open spec fn row_view(r: Vec<Value>) -> Seq<ValueView> {
    r@.map_values(|v: Value| v@)
}

/// The view of a list of rows.
pub open spec fn rows_view(rows: Seq<Vec<Value>>) -> Seq<Seq<ValueView>> {
    rows.map_values(|r: Vec<Value>| row_view(r))
}

impl Value {
    /// A text value holding the characters of `s`.
    pub fn build_text(s: &str) -> (r: Value)
        ensures
            r@ == ValueView::Text(s@),
    {
        Value::Text(String::from_str(s))
    }

    /// A copy of this value.
    pub fn duplicate(&self) -> (r: Value)
        ensures
            r@ == self@,
    {
        match self {
            Value::Null => Value::Null,
            Value::Integer(i) => Value::Integer(*i),
            Value::Float(b) => Value::Float(*b),
            Value::Text(s) => Value::Text(s.clone()),
            Value::Blob(b) => {
                let mut out: Vec<u8> = Vec::new();
                let mut i: usize = 0;
                while i < b.len()
                    invariant
                        i <= b@.len(),
                        out@ == b@.subrange(0, i as int),
                    decreases b.len() - i,
                {
                    out.push(b[i]);
                    assert(out@ =~= b@.subrange(0, i + 1));
                    i = i + 1;
                }
                assert(out@ =~= b@);
                Value::Blob(out)
            },
        }
    }
}

/// A column of a B-tree table.
pub struct Column {
    /// Column name; `None` for an unnamed column.
    pub name: Option<String>,
    /// The declared type, as written.
    pub ty_str: String,
    /// Whether the column has a NOT NULL constraint.
    pub notnull: bool,
    /// The default expression, as written, if any.
    pub default: Option<String>,
    /// Whether the column is (part of) the primary key.
    pub primary_key: bool,
}

/// A column's declared type.
#[derive(Clone, Copy, Debug, PartialEq, Eq, Structural)]
pub enum Type {
    Null,
    Text,
    Numeric,
    Integer,
    Real,
    Blob,
}

impl Type {
    /// The type's name as written in a column definition.
    pub fn declared_name(&self) -> (r: &'static str)
        ensures
            r@ == type_name_spec(*self),
    {
        match self {
            Type::Null => "",
            Type::Text => "TEXT",
            Type::Numeric => "NUMERIC",
            Type::Integer => "INTEGER",
            Type::Real => "REAL",
            Type::Blob => "BLOB",
        }
    }
}

/// The name written for a type in a column definition.
pub open spec fn type_name_spec(t: Type) -> Seq<char> {
    match t {
        Type::Null => ""@,
        Type::Text => "TEXT"@,
        Type::Numeric => "NUMERIC"@,
        Type::Integer => "INTEGER"@,
        Type::Real => "REAL"@,
        Type::Blob => "BLOB"@,
    }
}

impl Column {
    /// A named column of the given type.
    pub fn new(name: String, ty: Type, primary_key: bool, default: Option<String>, notnull: bool) -> (r: Column)
        ensures
            r.name == Some(name),
            r.ty_str@ == type_name_spec(ty),
            r.primary_key == primary_key,
            r.default == default,
            r.notnull == notnull,
    {
        Column {
            name: Some(name),
            ty_str: String::from_str(ty.declared_name()),
            notnull,
            default,
            primary_key,
        }
    }

    /// Whether the column has a NOT NULL constraint.
    pub fn notnull(&self) -> (r: bool)
        ensures
            r == self.notnull,
    {
        self.notnull
    }
}

/// Error of an engine operation.
#[derive(Debug)]
pub enum LimboError {
    /// A statement that cannot be compiled (unknown object, invalid
    /// option).
    ParseError(String),
    InternalError(String),
}

/// A table stored in a B-tree.
pub struct BTreeTable {
    pub name: String,
    pub root_page: i64,
    pub columns: Vec<Column>,
    /// Names of the primary-key columns, in key order.
    pub primary_key_columns: Vec<String>,
}

impl BTreeTable {
    /// A table with the given columns; the columns flagged as primary key
    /// make up its key, in column order.
    pub fn new(name: String, root_page: i64, columns: Vec<Column>) -> (r: BTreeTable)
        ensures
            r.name == name,
            r.root_page == root_page,
            r.columns@ == columns@,
            r.primary_key_columns@.map_values(|s: String| s@) == pk_names(columns@),
    {
        let mut pks: Vec<String> = Vec::new();
        let mut i: usize = 0;
        while i < columns.len()
            invariant
                i <= columns@.len(),
                pks@.map_values(|s: String| s@) == pk_names(columns@.subrange(0, i as int)),
            decreases columns.len() - i,
        {
            proof {
                assert(columns@.subrange(0, i + 1).drop_last() =~= columns@.subrange(0, i as int));
            }
            let c = &columns[i];
            if c.primary_key {
                match &c.name {
                    Some(n) => {
                        pks.push(n.clone());
                        assert(pks@.map_values(|s: String| s@) =~= pk_names(
                            columns@.subrange(0, i as int),
                        ).push(n@));
                    },
                    None => {},
                }
            }
            i = i + 1;
        }
        assert(columns@.subrange(0, columns@.len() as int) =~= columns@);
        BTreeTable { name, root_page, columns, primary_key_columns: pks }
    }
}

/// Names of the named primary-key columns, in column order.
pub open spec fn pk_names(cols: Seq<Column>) -> Seq<Seq<char>>
    decreases cols.len(),
{
    if cols.len() == 0 {
        Seq::empty()
    } else {
        let rest = pk_names(cols.drop_last());
        let c = cols.last();
        if c.primary_key && c.name is Some {
            rest.push(c.name->0@)
        } else {
            rest
        }
    }
}

/// A schema entry.
pub enum Table {
    /// An ordinary table.
    BTree(BTreeTable),
    /// A virtual table, by module name.
    Virtual(String),
    /// A subquery appearing in a FROM clause.
    FromClauseSubquery(String),
}

/// The schema of one database: its tables by name, its sequences, and its
/// schema version (the schema cookie).
pub struct Schema {
    pub tables: Vec<(String, Table)>,
    pub sequences: Vec<String>,
    pub schema_version: u32,
}

impl Schema {
    /// Table names are unique, as in a map keyed by name.
    pub open spec fn wf(&self) -> bool {
        forall|i: int, j: int|
            0 <= i < j < self.tables@.len() ==> self.tables@[i].0@ != self.tables@[j].0@
    }

    /// An empty schema.
    pub fn new() -> (r: Schema)
        ensures
            r.wf(),
            r.tables@.len() == 0,
            r.sequences@.len() == 0,
            r.schema_version == 0,
    {
        Schema { tables: Vec::new(), sequences: Vec::new(), schema_version: 0 }
    }

    /// Index of the table called `name`, if any.
    pub open spec fn table_index(&self, name: Seq<char>) -> Option<int> {
        if exists|i: int| 0 <= i < self.tables@.len() && self.tables@[i].0@ == name {
            Some(choose|i: int| 0 <= i < self.tables@.len() && self.tables@[i].0@ == name)
        } else {
            None
        }
    }

    /// Position of the table called `name`.
    pub fn find_table(&self, name: &str) -> (r: Option<usize>)
        requires
            self.wf(),
        ensures
            match r {
                Some(i) => i < self.tables@.len() && self.tables@[i as int].0@ == name@
                    && self.table_index(name@) == Some(i as int),
                None => self.table_index(name@) is None,
            },
    {
        let mut i: usize = 0;
        while i < self.tables.len()
            invariant
                self.wf(),
                i <= self.tables@.len(),
                forall|k: int| 0 <= k < i ==> self.tables@[k].0@ != name@,
            decreases self.tables.len() - i,
        {
            if crate::text::str_eq(self.tables[i].0.as_str(), name) {
                proof {
                    let j = choose|j: int| 0 <= j < self.tables@.len() && self.tables@[j].0@ == name@;
                    assert(self.tables@[j].0@ == self.tables@[i as int].0@);
                    if j < i as int {
                        assert(self.tables@[j].0@ != self.tables@[i as int].0@);
                    } else if j > i as int {
                        assert(self.tables@[i as int].0@ != self.tables@[j].0@);
                    }
                    assert(j == i as int);
                }
                return Some(i);
            }
            i = i + 1;
        }
        None
    }

    /// Adds (or replaces) the table called `name`.
    pub fn add_table(&mut self, name: String, table: Table)
        requires
            old(self).wf(),
        ensures
            final(self).wf(),
            final(self).sequences == old(self).sequences,
            final(self).schema_version == old(self).schema_version,
            old(self).table_index(name@) is None ==> final(self).tables@ == old(self).tables@.push((name, table)),
            old(self).table_index(name@) matches Some(i) ==> final(self).tables@ == old(self).tables@.update(i, (name, table)),
    {
        match self.find_table(name.as_str()) {
            Some(i) => {
                let ghost n = name@;
                self.tables.set(i, (name, table));
                assert(self.tables@[i as int].0@ == n);
            },
            None => {
                self.tables.push((name, table));
            },
        }
    }

    /// The B-tree table called `name`, if there is one.
    pub fn get_btree_table(&self, name: &str) -> (r: Option<&BTreeTable>)
        requires
            self.wf(),
        ensures
            match self.table_index(name@) {
                Some(i) => match self.tables@[i].1 {
                    Table::BTree(t) => r == Some(&t),
                    _ => r is None,
                },
                None => r is None,
            },
    {
        match self.find_table(name) {
            Some(i) => match &self.tables[i].1 {
                Table::BTree(t) => Some(t),
                _ => None,
            },
            None => None,
        }
    }

    /// Whether a sequence called `name` exists.
    pub fn has_sequence(&self, name: &str) -> (r: bool)
        ensures
            r == exists|i: int| 0 <= i < self.sequences@.len() && self.sequences@[i]@ == name@,
    {
        let mut i: usize = 0;
        while i < self.sequences.len()
            invariant
                i <= self.sequences@.len(),
                forall|k: int| 0 <= k < i ==> self.sequences@[k]@ != name@,
            decreases self.sequences.len() - i,
        {
            if crate::text::str_eq(self.sequences[i].as_str(), name) {
                return true;
            }
            i = i + 1;
        }
        false
    }
}

} // verus!
