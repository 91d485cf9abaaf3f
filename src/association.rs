use vstd::prelude::*;

verus! {

/// A foreign-key join between a parent table and a child table.
pub struct Association {
    /// Parent-side column name.
    pub from_id: String,
    /// Child-side column name.
    pub to_id: String,
}

impl Association {
    /// Creates a new instance from the parent-side and child-side column names.
    pub fn new(from_id: String, to_id: String) -> (r: Association)
        ensures
            r.from_id == from_id,
            r.to_id == to_id,
    {
        Association { from_id, to_id }
    }

    /// Parent-side column name.
    pub fn from_id(&self) -> (r: &String)
        ensures
            *r == self.from_id,
    {
        &self.from_id
    }

    /// Child-side column name.
    pub fn to_id(&self) -> (r: &String)
        ensures
            *r == self.to_id,
    {
        &self.to_id
    }
}

/// An [`Association`] together with what a SELECT needs to know of its child table.
pub struct FullAssociation {
    pub association: Association,
    pub to_table: String,
    pub to_table_alias: Option<String>,
    pub to_table_suffix: u32,
}

impl FullAssociation {
    /// Creates a new instance from all parameters.
    pub fn new(
        association: Association,
        to_table: String,
        to_table_alias: Option<String>,
        to_table_suffix: u32,
    ) -> (r: FullAssociation)
        ensures
            r.association == association,
            r.to_table == to_table,
            r.to_table_alias == to_table_alias,
            r.to_table_suffix == to_table_suffix,
    {
        FullAssociation { association, to_table, to_table_alias, to_table_suffix }
    }

    /// See [`Association`].
    pub fn association(&self) -> (r: &Association)
        ensures
            *r == self.association,
    {
        &self.association
    }

    /// Referenced table.
    pub fn to_table(&self) -> (r: &String)
        ensures
            *r == self.to_table,
    {
        &self.to_table
    }

    /// Referenced table alias.
    pub fn to_table_alias(&self) -> (r: &Option<String>)
        ensures
            *r == self.to_table_alias,
    {
        &self.to_table_alias
    }

    /// Referenced table suffix.
    pub fn to_table_suffix(&self) -> (r: u32)
        ensures
            r == self.to_table_suffix,
    {
        self.to_table_suffix
    }
}

} // verus!
