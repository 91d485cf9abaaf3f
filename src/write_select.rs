use crate::order_by::{Limit, OrderBy};
use crate::table::{Table, TableAssociationWrapper};
use crate::value::{decimal, value_text, write_decimal, write_value, Value};
use vstd::prelude::*;

verus! {

broadcast use {vstd::std_specs::vec::axiom_vec_decreases_to_view, vstd::seq::axiom_seq_index_decreases};

/// The name under which `t` is referenced in a SELECT: its alias, else its table name.
pub open spec fn display_name(t: Table) -> Seq<char> {
    match t.table_alias {
        Some(a) => a@,
        None => t.table_name@,
    }
}

/// `"{name}{suffix}"`, quoted.
pub open spec fn quoted_ref(name: Seq<char>, suffix: u32) -> Seq<char> {
    "\""@ + name + decimal(suffix as nat) + "\""@
}

/// `"{alias}{suffix}".{field}`
pub open spec fn column_ref(t: Table, field: Seq<char>) -> Seq<char> {
    quoted_ref(display_name(t), t.suffix) + "."@ + field
}

/// `{alias}{suffix}__{field}`
pub open spec fn column_alias(t: Table, field: Seq<char>) -> Seq<char> {
    display_name(t) + decimal(t.suffix as nat) + "__"@ + field
}

/// `"{alias}{suffix}".{field} AS {alias}{suffix}__{field}`
pub open spec fn select_item(t: Table, field: Seq<char>) -> Seq<char> {
    column_ref(t, field) + " AS "@ + column_alias(t, field)
}

/// The select items of the first `n` non-id columns of `t`, each preceded by a comma.
pub open spec fn own_fields_text(t: Table, n: int) -> Seq<char>
    decreases n,
{
    if n <= 0 || n > t.fields@.len() {
        Seq::empty()
    } else {
        own_fields_text(t, n - 1) + ","@ + select_item(t, t.fields@[n - 1].name@)
    }
}

/// The select items of `t` alone: its id column first, then its other columns.
pub open spec fn node_fields_text(t: Table) -> Seq<char> {
    select_item(t, t.id_field.name@) + own_fields_text(t, t.fields@.len() as int)
}

/// The select items of the subtrees of the first `n` associations of `t`, depth first, each
/// preceded by a comma.
pub open spec fn children_fields_text(t: Table, n: int) -> Seq<char>
    decreases t, n,
{
    if n <= 0 || n > t.associations@.len() {
        Seq::empty()
    } else {
        let g = t.associations@[n - 1].guide;
        children_fields_text(t, n - 1) + ","@ + node_fields_text(g) + children_fields_text(
            g,
            g.associations@.len() as int,
        )
    }
}

/// All select items of the tree rooted at `t`, comma separated.
pub open spec fn select_fields_text(t: Table) -> Seq<char> {
    node_fields_text(t) + children_fields_text(t, t.associations@.len() as int)
}

/// `LEFT JOIN "{child}" AS "{child_alias}{child_suffix}" ON
/// "{parent_alias}{parent_suffix}".{from_id} = "{child_alias}{child_suffix}".{to_id}`
pub open spec fn join_text(t: Table, w: TableAssociationWrapper) -> Seq<char> {
    "LEFT JOIN \""@ + w.guide.table_name@ + "\" AS "@ + quoted_ref(display_name(w.guide), w.guide.suffix) + " ON "@
        + column_ref(t, w.association.from_id@) + " = "@ + column_ref(
        w.guide,
        w.association.to_id@,
    )
}

/// The joins of the first `n` associations of `t` itself, each followed by a space.
pub open spec fn own_joins_text(t: Table, n: int) -> Seq<char>
    decreases n,
{
    if n <= 0 || n > t.associations@.len() {
        Seq::empty()
    } else {
        own_joins_text(t, n - 1) + join_text(t, t.associations@[n - 1]) + " "@
    }
}

/// The joins inside the subtrees of the first `n` associations of `t`.
pub open spec fn sub_joins_text(t: Table, n: int) -> Seq<char>
    decreases t, n,
{
    if n <= 0 || n > t.associations@.len() {
        Seq::empty()
    } else {
        let g = t.associations@[n - 1].guide;
        sub_joins_text(t, n - 1) + own_joins_text(g, g.associations@.len() as int)
            + sub_joins_text(g, g.associations@.len() as int)
    }
}

/// All joins of the tree rooted at `t`: those of `t` itself, then those of each subtree.
pub open spec fn joins_text(t: Table) -> Seq<char> {
    own_joins_text(t, t.associations@.len() as int) + sub_joins_text(
        t,
        t.associations@.len() as int,
    )
}

/// The ordering keys of the subtrees of the first `n` associations of `t`, depth first, each
/// preceded by a comma.
pub open spec fn children_orders_text(t: Table, n: int) -> Seq<char>
    decreases t, n,
{
    if n <= 0 || n > t.associations@.len() {
        Seq::empty()
    } else {
        let g = t.associations@[n - 1].guide;
        children_orders_text(t, n - 1) + ","@ + column_ref(g, g.id_field.name@)
            + children_orders_text(g, g.associations@.len() as int)
    }
}

/// The primary keys of every node of the tree rooted at `t`, root first, comma separated.
pub open spec fn orders_text(t: Table) -> Seq<char> {
    column_ref(t, t.id_field.name@) + children_orders_text(t, t.associations@.len() as int)
}

/// ` WHERE {w}`, or nothing when `w` is empty.
pub open spec fn where_text(w: Seq<char>) -> Seq<char> {
    if w.len() == 0 {
        Seq::empty()
    } else {
        " WHERE "@ + w
    }
}

/// ` ASC` or ` DESC`.
pub open spec fn order_by_text(o: OrderBy) -> Seq<char> {
    match o {
        OrderBy::Ascending => " ASC"@,
        OrderBy::Descending => " DESC"@,
    }
}

/// `ALL` or the count in decimal.
pub open spec fn limit_text(l: Limit) -> Seq<char> {
    match l {
        Limit::All => "ALL"@,
        Limit::Count(n) => decimal(n as nat),
    }
}

/// `"{alias}{suffix}".{id} = {value}`: the predicate that selects the root whose id is `id`.
pub open spec fn by_id_text(t: Table, id: Value) -> Seq<char> {
    column_ref(t, t.id_field.name@) + " = "@ + value_text(id)
}

/// `SELECT {columns} FROM "{table}" AS "{table}{suffix}" `
pub open spec fn select_head_text(t: Table) -> Seq<char> {
    "SELECT "@ + select_fields_text(t) + " FROM \""@ + t.table_name@ + "\" AS "@ + quoted_ref(
        t.table_name@,
        t.suffix,
    ) + " "@
}

/// ` ORDER BY {keys} {direction} LIMIT {limit}`
pub open spec fn select_tail_text(t: Table, o: OrderBy, l: Limit) -> Seq<char> {
    " ORDER BY "@ + orders_text(t) + order_by_text(o) + " LIMIT "@ + limit_text(l)
}

/// The whole SELECT statement over the tree rooted at `t`.
pub open spec fn select_text(t: Table, o: OrderBy, l: Limit, w: Seq<char>) -> Seq<char> {
    select_head_text(t) + joins_text(t) + where_text(w) + select_tail_text(t, o, l)
}

impl Table {
    /// The name under which this node is referenced in a SELECT.
    pub fn display_name(&self) -> (r: &String)
        ensures
            r@ == display_name(*self),
    {
        match &self.table_alias {
            Some(a) => a,
            None => &self.table_name,
        }
    }
}

/// Relies on `String::pop`: removes the last character, if any, and returns it.
#[verifier::external_body]
fn pop_char(s: &mut String) -> (r: Option<char>)
    ensures
        old(s)@.len() == 0 ==> r is None && final(s)@ == old(s)@,
        old(s)@.len() > 0 ==> r == Some(old(s)@.last()) && final(s)@ == old(s)@.drop_last(),
{
    s.pop()
}

/// Removes the separator that ends `buffer`.
fn trim_last(buffer: &mut String)
    requires
        old(buffer)@.len() > 0,
    ensures
        final(buffer)@ == old(buffer)@.drop_last(),
{
    let _ = pop_char(buffer);
}

fn write_quoted_ref(buffer: &mut String, name: &String, suffix: u32)
    ensures
        final(buffer)@ == old(buffer)@ + quoted_ref(name@, suffix),
{
    buffer.append("\"");
    buffer.append(name.as_str());
    write_decimal(buffer, suffix as u64);
    buffer.append("\"");
    assert(buffer@ =~= old(buffer)@ + quoted_ref(name@, suffix));
}

fn write_column_ref(buffer: &mut String, t: &Table, field: &String)
    ensures
        final(buffer)@ == old(buffer)@ + column_ref(*t, field@),
{
    write_quoted_ref(buffer, t.display_name(), t.suffix);
    buffer.append(".");
    buffer.append(field.as_str());
    assert(buffer@ =~= old(buffer)@ + column_ref(*t, field@));
}

/// Appends `{alias}{suffix}__{field}`, the alias of a column in a SELECT.
pub fn write_column_alias(buffer: &mut String, t: &Table, field: &String)
    ensures
        final(buffer)@ == old(buffer)@ + column_alias(*t, field@),
{
    buffer.append(t.display_name().as_str());
    write_decimal(buffer, t.suffix as u64);
    buffer.append("__");
    buffer.append(field.as_str());
    assert(buffer@ =~= old(buffer)@ + column_alias(*t, field@));
}

fn write_select_item(buffer: &mut String, t: &Table, field: &String)
    ensures
        final(buffer)@ == old(buffer)@ + select_item(*t, field@),
{
    write_column_ref(buffer, t, field);
    buffer.append(" AS ");
    write_column_alias(buffer, t, field);
    assert(buffer@ =~= old(buffer)@ + select_item(*t, field@));
}

fn write_select_join(buffer: &mut String, t: &Table, w: &TableAssociationWrapper)
    ensures
        final(buffer)@ == old(buffer)@ + join_text(*t, *w),
{
    buffer.append("LEFT JOIN \"");
    buffer.append(w.guide.table_name.as_str());
    buffer.append("\" AS ");
    write_quoted_ref(buffer, w.guide.display_name(), w.guide.suffix);
    buffer.append(" ON ");
    write_column_ref(buffer, t, &w.association.from_id);
    buffer.append(" = ");
    write_column_ref(buffer, &w.guide, &w.association.to_id);
    assert(buffer@ =~= old(buffer)@ + join_text(*t, *w));
}

impl Table {
    /// Appends the select items of the tree rooted at this node, each followed by a comma.
    pub fn write_select_fields(&self, buffer: &mut String)
        ensures
            final(buffer)@ == old(buffer)@ + select_fields_text(*self) + ","@,
        decreases self,
    {
        write_select_item(buffer, self, &self.id_field.name);
        buffer.append(",");
        let mut i: usize = 0;
        while i < self.fields.len()
            invariant
                i <= self.fields@.len(),
                buffer@ == old(buffer)@ + select_item(*self, self.id_field.name@) + own_fields_text(
                    *self,
                    i as int,
                ) + ","@,
            decreases self.fields@.len() - i,
        {
            write_select_item(buffer, self, &self.fields[i].name);
            buffer.append(",");
            i = i + 1;
            assert(buffer@ =~= old(buffer)@ + select_item(*self, self.id_field.name@)
                + own_fields_text(*self, i as int) + ","@);
        }
        let mut k: usize = 0;
        while k < self.associations.len()
            invariant
                k <= self.associations@.len(),
                buffer@ == old(buffer)@ + node_fields_text(*self) + children_fields_text(
                    *self,
                    k as int,
                ) + ","@,
            decreases self.associations@.len() - k,
        {
            self.associations[k].guide.write_select_fields(buffer);
            k = k + 1;
            assert(buffer@ =~= old(buffer)@ + node_fields_text(*self) + children_fields_text(
                *self,
                k as int,
            ) + ","@);
        }
    }

    /// Appends the LEFT JOIN clauses of the tree rooted at this node, each followed by a space.
    pub fn write_select_associations(&self, buffer: &mut String)
        ensures
            final(buffer)@ == old(buffer)@ + joins_text(*self),
        decreases self,
    {
        let n = self.associations.len();
        let mut k: usize = 0;
        while k < n
            invariant
                n == self.associations@.len(),
                k <= n,
                buffer@ == old(buffer)@ + own_joins_text(*self, k as int),
            decreases n - k,
        {
            write_select_join(buffer, self, &self.associations[k]);
            buffer.append(" ");
            k = k + 1;
            assert(buffer@ =~= old(buffer)@ + own_joins_text(*self, k as int));
        }
        let ghost mid = buffer@;
        let mut k: usize = 0;
        while k < n
            invariant
                n == self.associations@.len(),
                k <= n,
                mid == old(buffer)@ + own_joins_text(*self, n as int),
                buffer@ == mid + sub_joins_text(*self, k as int),
            decreases n - k,
        {
            self.associations[k].guide.write_select_associations(buffer);
            k = k + 1;
            assert(buffer@ =~= mid + sub_joins_text(*self, k as int));
        }
        assert(buffer@ =~= old(buffer)@ + joins_text(*self));
    }

    /// Appends the primary keys of every node of the tree rooted at this node, each followed
    /// by a comma.
    pub fn write_select_orders_by(&self, buffer: &mut String)
        ensures
            final(buffer)@ == old(buffer)@ + orders_text(*self) + ","@,
        decreases self,
    {
        write_column_ref(buffer, self, &self.id_field.name);
        buffer.append(",");
        let mut k: usize = 0;
        while k < self.associations.len()
            invariant
                k <= self.associations@.len(),
                buffer@ == old(buffer)@ + column_ref(*self, self.id_field.name@)
                    + children_orders_text(*self, k as int) + ","@,
            decreases self.associations@.len() - k,
        {
            self.associations[k].guide.write_select_orders_by(buffer);
            k = k + 1;
            assert(buffer@ =~= old(buffer)@ + column_ref(*self, self.id_field.name@)
                + children_orders_text(*self, k as int) + ","@);
        }
    }

    /// Appends a SELECT of the tree rooted at this node: every column of every node, a LEFT JOIN
    /// per association, the predicate `where_clause` unless it is empty, the primary keys of
    /// every node as ordering keys in direction `order_by`, and `limit`.
    pub fn write_select(&self, buffer: &mut String, order_by: OrderBy, limit: Limit, where_clause: &str)
        ensures
            final(buffer)@ == old(buffer)@ + select_text(*self, order_by, limit, where_clause@),
    {
        self.write_select_head(buffer);
        self.write_select_associations(buffer);
        if !where_clause.is_empty() {
            buffer.append(" WHERE ");
            buffer.append(where_clause);
        }
        self.write_select_tail(buffer, order_by, limit);
        assert(buffer@ =~= old(buffer)@ + select_text(*self, order_by, limit, where_clause@));
    }

    /// Appends a SELECT of the tree rooted at this node restricted to the root whose id is
    /// `id`: see [`by_id_text`].
    pub fn write_select_by_id(&self, buffer: &mut String, id: &Value)
        ensures
            final(buffer)@ == old(buffer)@ + select_text(
                *self,
                OrderBy::Ascending,
                Limit::All,
                by_id_text(*self, *id),
            ),
    {
        let mut predicate = String::new();
        write_column_ref(&mut predicate, self, &self.id_field.name);
        predicate.append(" = ");
        write_value(&mut predicate, id);
        assert(predicate@ =~= by_id_text(*self, *id));
        self.write_select(buffer, OrderBy::Ascending, Limit::All, predicate.as_str());
    }

    fn write_select_head(&self, buffer: &mut String)
        ensures
            final(buffer)@ == old(buffer)@ + select_head_text(*self),
    {
        buffer.append("SELECT ");
        self.write_select_fields(buffer);
        proof {
            reveal_strlit(",");
        }
        trim_last(buffer);
        assert(buffer@ =~= old(buffer)@ + "SELECT "@ + select_fields_text(*self));
        buffer.append(" FROM \"");
        buffer.append(self.table_name.as_str());
        buffer.append("\" AS ");
        write_quoted_ref(buffer, &self.table_name, self.suffix);
        buffer.append(" ");
        assert(buffer@ =~= old(buffer)@ + select_head_text(*self));
    }

    fn write_select_tail(&self, buffer: &mut String, order_by: OrderBy, limit: Limit)
        ensures
            final(buffer)@ == old(buffer)@ + select_tail_text(*self, order_by, limit),
    {
        buffer.append(" ORDER BY ");
        self.write_select_orders_by(buffer);
        proof {
            reveal_strlit(",");
        }
        trim_last(buffer);
        assert(buffer@ =~= old(buffer)@ + " ORDER BY "@ + orders_text(*self));
        match order_by {
            OrderBy::Ascending => buffer.append(" ASC"),
            OrderBy::Descending => buffer.append(" DESC"),
        }
        buffer.append(" LIMIT ");
        match limit {
            Limit::All => buffer.append("ALL"),
            Limit::Count(n) => write_decimal(buffer, n as u64),
        }
        assert(buffer@ =~= old(buffer)@ + select_tail_text(*self, order_by, limit));
    }
}

} // verus!
