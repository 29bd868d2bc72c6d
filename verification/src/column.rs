//! Columns, by the name of the table that they belong to and their own.

use vstd::prelude::*;

verus! {

/// How a table is named.
#[derive(Debug, PartialEq, Eq)]
pub enum TableReference {
    Bare { table: String },
    Partial { schema: String, table: String },
    Full { catalog: String, schema: String, table: String },
}

/// What a table is named, part by part.
pub enum TableReferenceView {
    Bare { table: Seq<char> },
    Partial { schema: Seq<char>, table: Seq<char> },
    Full { catalog: Seq<char>, schema: Seq<char>, table: Seq<char> },
}

impl View for TableReference {
    type V = TableReferenceView;

    open spec fn view(&self) -> TableReferenceView {
        match *self {
            TableReference::Bare { table } => TableReferenceView::Bare { table: table@ },
            TableReference::Partial { schema, table } => TableReferenceView::Partial {
                schema: schema@,
                table: table@,
            },
            TableReference::Full { catalog, schema, table } => TableReferenceView::Full {
                catalog: catalog@,
                schema: schema@,
                table: table@,
            },
        }
    }
}

impl Clone for TableReference {
    fn clone(&self) -> (copy: Self)
        ensures
            copy == *self,
    {
        match self {
            TableReference::Bare { table } => TableReference::Bare { table: table.clone() },
            TableReference::Partial { schema, table } => TableReference::Partial {
                schema: schema.clone(),
                table: table.clone(),
            },
            TableReference::Full { catalog, schema, table } => TableReference::Full {
                catalog: catalog.clone(),
                schema: schema.clone(),
                table: table.clone(),
            },
        }
    }
}

impl TableReference {
    /// Whether both name the same table in the same way.
    pub fn same(&self, other: &TableReference) -> (same: bool)
        ensures
            same == (self@ == other@),
    {
        match (self, other) {
            (TableReference::Bare { table }, TableReference::Bare { table: other_table }) => {
                *table == *other_table
            },
            (
                TableReference::Partial { schema, table },
                TableReference::Partial { schema: other_schema, table: other_table },
            ) => *schema == *other_schema && *table == *other_table,
            (
                TableReference::Full { catalog, schema, table },
                TableReference::Full {
                    catalog: other_catalog,
                    schema: other_schema,
                    table: other_table,
                },
            ) => *catalog == *other_catalog && *schema == *other_schema && *table == *other_table,
            _ => false,
        }
    }
}

/// A column, qualified by its table or not.
#[derive(Debug, PartialEq, Eq)]
pub struct Column {
    pub relation: Option<TableReference>,
    pub name: String,
}

/// What a column is named.
pub struct ColumnView {
    pub relation: Option<TableReferenceView>,
    pub name: Seq<char>,
}

impl View for Column {
    type V = ColumnView;

    open spec fn view(&self) -> ColumnView {
        ColumnView {
            relation: match self.relation {
                Some(relation) => Some(relation@),
                None => None,
            },
            name: self.name@,
        }
    }
}

impl Clone for Column {
    fn clone(&self) -> (copy: Self)
        ensures
            copy == *self,
    {
        let relation = match &self.relation {
            Some(relation) => Some(relation.clone()),
            None => None,
        };
        Column { relation, name: self.name.clone() }
    }
}

impl Column {
    pub fn new(relation: Option<TableReference>, name: String) -> (column: Self)
        ensures
            column.relation == relation,
            column.name == name,
    {
        Column { relation, name }
    }

    /// Whether both are the same column of the same table.
    pub fn same(&self, other: &Column) -> (same: bool)
        ensures
            same == (self@ == other@),
    {
        if self.name != other.name {
            return false;
        }
        match (&self.relation, &other.relation) {
            (Some(relation), Some(other_relation)) => relation.same(other_relation),
            (None, None) => true,
            _ => false,
        }
    }
}

/// A set of columns.
#[derive(Debug)]
pub struct ColumnSet {
    columns: Vec<Column>,
}

impl View for ColumnSet {
    type V = Set<ColumnView>;

    closed spec fn view(&self) -> Set<ColumnView> {
        Set::new(|column: ColumnView| listed(self.columns@, column))
    }
}

/// The column is among those listed.
spec fn listed(columns: Seq<Column>, column: ColumnView) -> bool {
    exists|i: int| 0 <= i < columns.len() && (#[trigger] columns[i])@ == column
}

impl ColumnSet {
    /// The set of no columns.
    pub fn new() -> (set: Self)
        ensures
            set@ == Set::<ColumnView>::empty(),
    {
        let set = ColumnSet { columns: Vec::new() };
        assert(set@ =~= Set::<ColumnView>::empty());
        set
    }

    /// The set of one column.
    pub fn of(column: Column) -> (set: Self)
        ensures
            set@ == set![column@],
    {
        let mut set = Self::new();
        set.insert(column);
        set
    }

    /// Whether the column is in the set.
    pub fn contains(&self, column: &Column) -> (found: bool)
        ensures
            found == self@.contains(column@),
    {
        let mut i: usize = 0;
        while i < self.columns.len()
            invariant
                i <= self.columns@.len(),
                forall|j: int| 0 <= j < i ==> (#[trigger] self.columns@[j])@ != column@,
            decreases self.columns@.len() - i,
        {
            if self.columns[i].same(column) {
                return true;
            }
            i = i + 1;
        }
        false
    }

    /// Put the column into the set.
    pub fn insert(&mut self, column: Column)
        ensures
            final(self)@ == old(self)@.insert(column@),
    {
        if !self.contains(&column) {
            let ghost before = self.columns@;
            self.columns.push(column);
            proof {
                let after = self.columns@;
                assert forall|c: ColumnView| listed(after, c) == (listed(before, c) || c == column@)
                    by {
                    if listed(before, c) {
                        let i = choose|i: int|
                            0 <= i < before.len() && (#[trigger] before[i])@ == c;
                        assert(after[i]@ == c);
                    }
                    assert(after[before.len() as int]@ == column@);
                }
            }
        }
        assert(self@ =~= old(self)@.insert(column@));
    }

    /// The set without a column.
    pub fn without(&self, column: &Column) -> (rest: ColumnSet)
        ensures
            rest@ == self@.remove(column@),
    {
        let mut rest = ColumnSet::new();
        let mut i: usize = 0;
        while i < self.columns.len()
            invariant
                i <= self.columns@.len(),
                forall|c: ColumnView|
                    #![auto]
                    rest@.contains(c) == (listed(self.columns@.take(i as int), c) && c != column@),
            decreases self.columns@.len() - i,
        {
            let ghost before = self.columns@.take(i as int);
            let ghost after = self.columns@.take(i + 1);
            proof {
                assert(after =~= before.push(self.columns@[i as int]));
                assert forall|c: ColumnView|
                    listed(after, c) == (listed(before, c) || c == self.columns@[i as int]@) by {
                    if listed(before, c) {
                        let j = choose|j: int|
                            0 <= j < before.len() && (#[trigger] before[j])@ == c;
                        assert(after[j]@ == c);
                    }
                    assert(after[before.len() as int]@ == self.columns@[i as int]@);
                }
            }
            if !self.columns[i].same(column) {
                rest.insert(self.columns[i].clone());
            }
            i = i + 1;
        }
        assert(self.columns@.take(i as int) =~= self.columns@);
        assert(rest@ =~= self@.remove(column@));
        rest
    }
}

/// What a column is named keeps its name and every part of the name of its table.
pub proof fn law_columns_keep_their_names(
    column: Column,
    first: String,
    second: String,
    third: String,
)
    ensures
        column@.name == column.name@,
        column@.relation == match column.relation {
            Some(relation) => Some(relation@),
            None => None,
        },
        (TableReference::Bare { table: first })@ == (TableReferenceView::Bare { table: first@ }),
        (TableReference::Partial { schema: first, table: second })@ == (TableReferenceView::Partial {
            schema: first@,
            table: second@,
        }),
        (TableReference::Full { catalog: first, schema: second, table: third })@ == (
        TableReferenceView::Full { catalog: first@, schema: second@, table: third@ }),
{
}

} // verus!
