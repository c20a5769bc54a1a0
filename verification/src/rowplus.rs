//! Column lists for SQL queries over row types, with nested and flattened
//! parts taken from other tables.

use vstd::prelude::*;

verus! {

/// A column list; each entry is one `... AS "alias"` expression.
#[derive(Debug, Clone)]
pub struct RowPlusColumns(pub Vec<String>);

/// `"table"."name" AS "alias"`.
pub open spec fn spec_column(table: Seq<char>, name: Seq<char>, alias: Seq<char>) -> Seq<char> {
    "\""@ + table + "\".\""@ + name + "\" AS \""@ + alias + "\""@
}

/// `value AS "alias"`.
pub open spec fn spec_raw_column(value: Seq<char>, alias: Seq<char>) -> Seq<char> {
    value + " AS \""@ + alias + "\""@
}

/// The entries joined by `, `.
pub open spec fn spec_join(cols: Seq<Seq<char>>) -> Seq<char>
    decreases cols.len(),
{
    if cols.len() == 0 {
        Seq::empty()
    } else if cols.len() == 1 {
        cols[0]
    } else {
        spec_join(cols.drop_last()) + ", "@ + cols.last()
    }
}

/// The prefix of the aliases of a row read from `table`: none for the root
/// row, else the table and a dot.
pub open spec fn spec_alias_prefix(table: Seq<char>, root: bool) -> Seq<char> {
    if root {
        Seq::empty()
    } else {
        table + "."@
    }
}

/// The prefix of the aliases of a row read from `table`.
pub fn alias_prefix(table: &str, root: bool) -> (p: String)
    ensures
        p@ == spec_alias_prefix(table@, root),
{
    if root {
        let p = String::new();
        assert(p@ =~= Seq::<char>::empty());
        p
    } else {
        let mut p = String::from_str(table);
        p.append(".");
        p
    }
}

impl View for RowPlusColumns {
    type V = Seq<Seq<char>>;

    open spec fn view(&self) -> Seq<Seq<char>> {
        self.0@.map_values(|s: String| s@)
    }
}

impl RowPlusColumns {
    pub fn new() -> (c: Self)
        ensures
            c@ == Seq::<Seq<char>>::empty(),
    {
        let c = Self(Vec::new());
        assert(c@ =~= Seq::<Seq<char>>::empty());
        c
    }

    /// Adds column `name` of `table` under `alias`.
    pub fn add(&mut self, table: &str, name: &str, alias: &str)
        ensures
            final(self)@ == old(self)@.push(spec_column(table@, name@, alias@)),
    {
        let mut col = String::from_str("\"");
        col.append(table);
        col.append("\".\"");
        col.append(name);
        col.append("\" AS \"");
        col.append(alias);
        col.append("\"");
        self.0.push(col);
        assert(self@ =~= old(self)@.push(spec_column(table@, name@, alias@)));
    }

    /// Adds an SQL expression under `alias`.
    pub fn add_raw(&mut self, value: &str, alias: &str)
        ensures
            final(self)@ == old(self)@.push(spec_raw_column(value@, alias@)),
    {
        let mut col = String::from_str(value);
        col.append(" AS \"");
        col.append(alias);
        col.append("\"");
        self.0.push(col);
        assert(self@ =~= old(self)@.push(spec_raw_column(value@, alias@)));
    }

    /// Adds the columns of `other` after these.
    pub fn append(&mut self, other: RowPlusColumns)
        ensures
            final(self)@ == old(self)@ + other@,
    {
        let ghost o = other@;
        let ghost o0 = other.0@;
        let mut other = other;
        self.0.append(&mut other.0);
        assert(self@ =~= old(self)@ + o) by {
            assert(self.0@ =~= old(self).0@ + o0);
        }
    }

    /// The columns of a nested row of type `T` found in table `new_table`:
    /// the list that `T::columns_nested(new_table)` gives is added after these.
    pub fn nest<T: RowPlusNested>(&mut self, new_table: &str)
        ensures
            exists|cols: RowPlusColumns|
                call_ensures(T::columns_nested, (new_table,), cols)
                && final(self)@ == old(self)@ + cols@,
    {
        let cols = T::columns_nested(new_table);
        self.append(cols);
    }

    /// The columns of a row of type `T` flattened into this one: the list
    /// that `T::columns_under(table, root)` gives is added after these.
    pub fn flat<T: RowPlus>(&mut self, table: &str, root: bool)
        ensures
            exists|child: RowPlusColumns|
                call_ensures(T::columns_under, (table, root), child)
                && final(self)@ == old(self)@ + child@,
    {
        let child = T::columns_under(table, root);
        self.append(child);
    }

    /// Adds the plain field `alias` of a row read from `table`: outside the
    /// root row its alias carries the table as prefix.
    pub fn add_field(&mut self, table: &str, root: bool, alias: &str)
        ensures
            final(self)@ == old(self)@.push(
                spec_column(table@, alias@, spec_alias_prefix(table@, root) + alias@),
            ),
    {
        let mut full = alias_prefix(table, root);
        full.append(alias);
        self.add(table, alias, full.as_str());
    }

    /// Adds the nested field `alias` of type `T` of a row read from `table`:
    /// the nested row is read from the table named by the prefixed alias.
    pub fn nest_field<T: RowPlusNested>(&mut self, table: &str, root: bool, alias: &str)
        ensures
            exists|nested_table: &str, cols: RowPlusColumns|
                nested_table@ == spec_alias_prefix(table@, root) + alias@
                && call_ensures(T::columns_nested, (nested_table,), cols)
                && final(self)@ == old(self)@ + cols@,
    {
        let mut full = alias_prefix(table, root);
        full.append(alias);
        let nested_table = full.as_str();
        let cols = T::columns_nested(nested_table);
        assert(call_ensures(T::columns_nested, (nested_table,), cols));
        self.append(cols);
    }

    /// The column list as SQL: the entries joined by `, `.
    pub fn to_string(&self) -> (s: String)
        ensures
            s@ == spec_join(self@),
    {
        let mut s = String::new();
        let mut i: usize = 0;
        while i < self.0.len()
            invariant
                0 <= i <= self.0@.len(),
                s@ == spec_join(self@.take(i as int)),
            decreases self.0@.len() - i,
        {
            if i > 0 {
                s.append(", ");
            }
            s.append(self.0[i].as_str());
            proof {
                assert(self@.take(i + 1).drop_last() =~= self@.take(i as int));
                if i == 0 {
                    assert(s@ =~= spec_join(self@.take(1)));
                }
            }
            i = i + 1;
        }
        assert(self@.take(self.0@.len() as int) =~= self@);
        s
    }
}

/// A row type whose columns can be listed for a table.
pub trait RowPlus: Sized {
    /// The columns of the row read from its own table.
    fn columns() -> RowPlusColumns;

    /// The columns of the row read from `table`; outside the root row the
    /// aliases are prefixed with the table.
    fn columns_under(table: &str, root: bool) -> RowPlusColumns;
}

/// A row type that can be nested in another row.
pub trait RowPlusNested: Sized {
    fn columns_nested(table: &str) -> RowPlusColumns;
}

/// A nested row lists its columns as it would under `table` outside the root.
impl<T: RowPlus> RowPlusNested for T {
    fn columns_nested(table: &str) -> (cols: RowPlusColumns)
        ensures
            call_ensures(T::columns_under, (table, false), cols),
    {
        Self::columns_under(table, false)
    }
}

/// The column that tells whether an optional nested row is present:
/// `"table" IS NOT NULL AS "table$Option"`.
pub open spec fn spec_presence_column(table: Seq<char>) -> Seq<char> {
    spec_raw_column("\""@ + table + "\" IS NOT NULL"@, table + "$Option"@)
}

/// An optional nested row lists the presence column first, then the columns
/// of the row itself.
impl<T: RowPlus> RowPlusNested for Option<T> {
    fn columns_nested(table: &str) -> (cols: RowPlusColumns)
        ensures
            exists|c: RowPlusColumns|
                call_ensures(T::columns_nested, (table,), c)
                && cols@ == seq![spec_presence_column(table@)] + c@,
    {
        let mut cols = RowPlusColumns::new();
        let mut value = String::from_str("\"");
        value.append(table);
        value.append("\" IS NOT NULL");
        let mut alias = String::from_str(table);
        alias.append("$Option");
        cols.add_raw(value.as_str(), alias.as_str());
        cols.append(T::columns_nested(table));
        cols
    }
}

} // verus!
