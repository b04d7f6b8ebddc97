use vstd::prelude::*;

verus! {

/// What a table change does to its row.
#[derive(Clone, Copy, Debug, PartialEq, Eq)]
pub enum Operation {
    Unspecified,
    Create,
    Update,
    Delete,
}

/// One column write: the column's name with its old and new text.
#[derive(Debug)]
pub struct Field {
    pub name: String,
    pub old_value: String,
    pub new_value: String,
}

/// A change to one row, addressed by a composite key.
#[derive(Debug)]
pub struct TableChange {
    pub table: String,
    pub keys: Vec<(String, String)>,
    pub ordinal: u64,
    pub operation: Operation,
    pub fields: Vec<Field>,
}

/// The changes produced for one block, in order.
#[derive(Debug)]
pub struct DatabaseChanges {
    pub table_changes: Vec<TableChange>,
}

/// The names of the columns written, in order of writing.
pub open spec fn column_names(fields: Seq<Field>) -> Seq<Seq<char>> {
    fields.map_values(|f: Field| f.name@)
}

/// The name and new text of every column write, in order.
pub open spec fn writes_view(fields: Seq<Field>) -> Seq<(Seq<char>, Seq<char>)> {
    fields.map_values(|f: Field| (f.name@, f.new_value@))
}

/// No write carries an old text.
pub open spec fn creates_only(fields: Seq<Field>) -> bool {
    forall|i: int| 0 <= i < fields.len() ==> (#[trigger] fields[i]).old_value@ == Seq::<char>::empty()
}

/// A write of `value` into column `name`, with no old text.
pub fn field(name: &str, value: String) -> (r: Field)
    ensures
        r.name@ == name@,
        r.old_value@ == Seq::<char>::empty(),
        r.new_value@ == value@,
{
    Field { name: String::from_str(name), old_value: String::new(), new_value: value }
}

/// A key column `name` with text `value`.
pub fn key(name: &str, value: String) -> (r: (String, String))
    ensures
        r.0@ == name@,
        r.1@ == value@,
{
    (String::from_str(name), value)
}

/// The names and texts of a composite key, in order.
pub open spec fn key_view(keys: Seq<(String, String)>) -> Seq<(Seq<char>, Seq<char>)> {
    keys.map_values(|k: (String, String)| (k.0@, k.1@))
}

impl TableChange {
    /// A change with no column written yet.
    pub fn new_composite(table: String, keys: Vec<(String, String)>, ordinal: u64, operation: Operation) -> (r:
        TableChange)
        ensures
            r.table == table,
            r.keys == keys,
            r.ordinal == ordinal,
            r.operation == operation,
            r.fields@.len() == 0,
    {
        TableChange { table, keys, ordinal, operation, fields: Vec::new() }
    }

    /// Appends a write of `new_value` into column `name`; earlier writes are kept.
    pub fn change(&mut self, name: &str, new_value: String)
        ensures
            final(self).table == old(self).table,
            final(self).keys == old(self).keys,
            final(self).ordinal == old(self).ordinal,
            final(self).operation == old(self).operation,
            final(self).fields@.len() == old(self).fields@.len() + 1,
            final(self).fields@.drop_last() == old(self).fields@,
            final(self).fields@.last().name@ == name@,
            final(self).fields@.last().old_value@ == Seq::<char>::empty(),
            final(self).fields@.last().new_value@ == new_value@,
    {
        let field = Field { name: String::from_str(name), old_value: String::new(), new_value };
        self.fields.push(field);
        proof {
            assert(self.fields@.drop_last() =~= old(self).fields@);
        }
    }
}

impl DatabaseChanges {
    pub fn new() -> (r: DatabaseChanges)
        ensures
            r.table_changes@.len() == 0,
    {
        DatabaseChanges { table_changes: Vec::new() }
    }
}

} // verus!
