//! Column transformers: pure rewrites of one column value, each routed to a
//! single `database.table.column` triple.

use vstd::prelude::*;
use vstd::string::StringExecFns;

verus! {

/// The kinds of transformer on offer.
#[derive(Debug, Clone, Copy, PartialEq, Eq)]
pub enum Transformers {
    Random,
    Transient,
    FirstName,
}

/// A named column value.
#[derive(Debug, Clone)]
pub enum Column {
    NumberValue(String, i128),
    StringValue(String, String),
    CharValue(String, char),
    NullValue(String),
}

/// The fully qualified routing key of a column: the three names joined by dots.
pub open spec fn qualified_name_spec(database: Seq<char>, table: Seq<char>, column: Seq<char>) -> Seq<
    char,
> {
    database + seq!['.'] + table + seq!['.'] + column
}

/// Joins a database, a table and a column name with dots.
pub fn qualified_name(database: &str, table: &str, column: &str) -> (r: String)
    ensures
        r@ == qualified_name_spec(database@, table@, column@),
{
    let mut r = String::from_str(database);
    r.append(".");
    r.append(table);
    r.append(".");
    r.append(column);
    proof {
        reveal_strlit(".");
    }
    r
}

/// A rewrite of the values of one column, identified by its database, table
/// and column names. `transform` is a pure function of its argument, so it
/// may be called repeatedly and from several threads.
pub trait Transformer {
    /// The name of the database this transformer applies to.
    spec fn database_name_spec(&self) -> Seq<char>;

    /// The name of the table this transformer applies to.
    spec fn table_name_spec(&self) -> Seq<char>;

    /// The name of the column this transformer applies to.
    spec fn column_name_spec(&self) -> Seq<char>;

    /// The value `transform` gives for `column`.
    spec fn transform_spec(&self, column: Column) -> Column;

    fn id(&self) -> &str;

    fn description(&self) -> &str;

    fn database_name(&self) -> (r: &str)
        ensures
            r@ == self.database_name_spec(),
    ;

    fn table_name(&self) -> (r: &str)
        ensures
            r@ == self.table_name_spec(),
    ;

    fn column_name(&self) -> (r: &str)
        ensures
            r@ == self.column_name_spec(),
    ;

    /// The routing key `database.table.column` of this transformer.
    fn database_and_table_and_column_name(&self) -> (r: String)
        ensures
            r@ == qualified_name_spec(
                self.database_name_spec(),
                self.table_name_spec(),
                self.column_name_spec(),
            ),
    {
        qualified_name(self.database_name(), self.table_name(), self.column_name())
    }

    /// Rewrites one column value; the result depends on `column` alone.
    fn transform(&self, column: Column) -> (r: Column)
        ensures
            r == self.transform_spec(column),
    ;
}

/// The transformer that keeps every value as it is, for columns that are
/// routed but left unchanged.
pub struct TransientTransformer {
    pub database_name: String,
    pub table_name: String,
    pub column_name: String,
}

impl TransientTransformer {
    /// A transient transformer for `database.table.column`.
    pub fn new(database_name: String, table_name: String, column_name: String) -> (r: Self)
        ensures
            r.database_name@ == database_name@,
            r.table_name@ == table_name@,
            r.column_name@ == column_name@,
    {
        TransientTransformer { database_name, table_name, column_name }
    }
}

impl Transformer for TransientTransformer {
    open spec fn database_name_spec(&self) -> Seq<char> {
        self.database_name@
    }

    open spec fn table_name_spec(&self) -> Seq<char> {
        self.table_name@
    }

    open spec fn column_name_spec(&self) -> Seq<char> {
        self.column_name@
    }

    open spec fn transform_spec(&self, column: Column) -> Column {
        column
    }

    fn id(&self) -> &str {
        "transient"
    }

    fn description(&self) -> &str {
        "Does not modify the value."
    }

    fn database_name(&self) -> (r: &str) {
        self.database_name.as_str()
    }

    fn table_name(&self) -> (r: &str) {
        self.table_name.as_str()
    }

    fn column_name(&self) -> (r: &str) {
        self.column_name.as_str()
    }

    fn transform(&self, column: Column) -> (r: Column) {
        column
    }
}

/// When none of the three names holds a dot, the routing key gives them back:
/// its dots are exactly the two joins, with the database name before the
/// first, the table name between them and the column name after the second.
pub proof fn lemma_qualified_name_splits(database: Seq<char>, table: Seq<char>, column: Seq<char>)
    requires
        forall|i: int| 0 <= i < database.len() ==> #[trigger] database[i] != '.',
        forall|i: int| 0 <= i < table.len() ==> #[trigger] table[i] != '.',
        forall|i: int| 0 <= i < column.len() ==> #[trigger] column[i] != '.',
    ensures
        ({
            let k = qualified_name_spec(database, table, column);
            let d1 = database.len() as int;
            let d2 = d1 + 1 + table.len();
            &&& k[d1] == '.'
            &&& k[d2] == '.'
            &&& forall|i: int| 0 <= i < k.len() && i != d1 && i != d2 ==> #[trigger] k[i] != '.'
            &&& k.subrange(0, d1) == database
            &&& k.subrange(d1 + 1, d2) == table
            &&& k.subrange(d2 + 1, k.len() as int) == column
        }),
{
    let k = qualified_name_spec(database, table, column);
    let d1 = database.len() as int;
    let d2 = d1 + 1 + table.len();
    assert(k.subrange(0, d1) =~= database);
    assert(k.subrange(d1 + 1, d2) =~= table);
    assert(k.subrange(d2 + 1, k.len() as int) =~= column);
    assert forall|i: int| 0 <= i < k.len() && i != d1 && i != d2 implies #[trigger] k[i] != '.' by {
        if i < d1 {
            assert(k[i] == database[i]);
        } else if i < d2 {
            assert(k[i] == table[i - d1 - 1]);
        } else {
            assert(k[i] == column[i - d2 - 1]);
        }
    }
}

} // verus!
