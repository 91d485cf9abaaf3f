use crate::value::Value;
use vstd::prelude::*;

verus! {

/// A table column of a node: its name and the value bound to it, if any.
pub struct TableField {
    pub name: String,
    pub value: Option<Value>,
}

impl TableField {
    /// Creates an unbound column from its name.
    pub fn new(name: String) -> (r: TableField)
        ensures
            r.name == name,
            r.value is None,
    {
        TableField { name, value: None }
    }

    /// Column name.
    pub fn name(&self) -> (r: &String)
        ensures
            *r == self.name,
    {
        &self.name
    }

    /// Bound value.
    pub fn value(&self) -> (r: &Option<Value>)
        ensures
            *r == self.value,
    {
        &self.value
    }

    /// Mutable version of [`TableField::value`].
    pub fn value_mut(&mut self) -> (r: &mut Option<Value>)
        ensures
            *r == old(self).value,
            final(self).name == old(self).name,
            final(self).value == *final(r),
    {
        &mut self.value
    }
}

/// A named cell of a result row: the column alias and the value read from it.
pub struct Field {
    pub name: String,
    pub value: Option<Value>,
}

impl Field {
    /// Creates an empty cell from its column name.
    pub fn new(name: String) -> (r: Field)
        ensures
            r.name == name,
            r.value is None,
    {
        Field { name, value: None }
    }

    /// Column name.
    pub fn name(&self) -> (r: &String)
        ensures
            *r == self.name,
    {
        &self.name
    }

    /// Cell value; `None` when the database returned NULL.
    pub fn value(&self) -> (r: &Option<Value>)
        ensures
            *r == self.value,
    {
        &self.value
    }

    /// Mutable version of [`Field::value`].
    pub fn value_mut(&mut self) -> (r: &mut Option<Value>)
        ensures
            *r == old(self).value,
            final(self).name == old(self).name,
            final(self).value == *final(r),
    {
        &mut self.value
    }
}

} // verus!
