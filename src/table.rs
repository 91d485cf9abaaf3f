use crate::association::{Association, FullAssociation};
use crate::error::Error;
use crate::field::TableField;
use crate::write_select::display_name;
use vstd::prelude::*;

verus! {

broadcast use {vstd::std_specs::vec::axiom_vec_decreases_to_view, vstd::seq::axiom_seq_index_decreases};

/// The constant schema of one table: names, columns and associations.
pub struct TableDefs {
    pub table_name: String,
    pub table_alias: Option<String>,
    pub primary_key_name: String,
    /// Every column but the primary key, in declaration order.
    pub field_names: Vec<String>,
    /// Associated child tables, in declaration order.
    pub associations: Vec<AssociationDefs>,
}

/// One association of a schema: the join columns, the child's schema and its cardinality.
pub struct AssociationDefs {
    pub association: Association,
    pub table: TableDefs,
    /// `true` for a 1:N relation, `false` for a required 1:1 relation.
    pub many: bool,
}

/// One occurrence of a table in an association tree, with the values bound to it.
pub struct Table {
    pub table_name: String,
    pub table_alias: Option<String>,
    pub primary_key_name: String,
    pub suffix: u32,
    pub id_field: TableField,
    pub fields: Vec<TableField>,
    pub associations: Vec<TableAssociationWrapper>,
}

/// The child side of an association within a [`Table`].
pub struct TableAssociationWrapper {
    pub association: Association,
    /// The child node that SELECT statements walk; also the written node of a 1:1 relation.
    pub guide: Table,
    /// The written nodes of a 1:N relation.
    pub tables: Vec<Table>,
    /// `true` for a 1:N relation.
    pub many: bool,
}

/// Every suffix that instantiating the first `n` associations of `d` under a node with suffix
/// `s` hands out fits in a `u32`: the `i`-th child gets `s + i + 1`.
pub open spec fn suffixes_fit(d: TableDefs, s: int, n: int) -> bool
    decreases d, n,
{
    if n <= 0 || n > d.associations@.len() {
        true
    } else {
        &&& suffixes_fit(d, s, n - 1)
        &&& s + n <= u32::MAX
        &&& suffixes_fit(
            d.associations@[n - 1].table,
            s + n,
            d.associations@[n - 1].table.associations@.len() as int,
        )
    }
}

/// Instantiating `d` at suffix `s` hands out suffixes that fit in a `u32`.
pub open spec fn instantiable(d: TableDefs, s: int) -> bool {
    suffixes_fit(d, s, d.associations@.len() as int)
}

/// Names and columns of `t` are those of `d`, its suffix is `s` and nothing is bound.
pub open spec fn node_matches(t: Table, d: TableDefs, s: int) -> bool {
    &&& t.table_name == d.table_name
    &&& t.table_alias == d.table_alias
    &&& t.primary_key_name == d.primary_key_name
    &&& t.suffix == s
    &&& t.id_field.name == d.primary_key_name
    &&& t.id_field.value is None
    &&& t.fields@.len() == d.field_names@.len()
    &&& forall|i: int|
        0 <= i < t.fields@.len() ==> (#[trigger] t.fields@[i]).name == d.field_names@[i]
            && t.fields@[i].value is None
}

/// The first `n` associations of `t` instantiate those of `d` under a node with suffix `s`:
/// the `i`-th child (from 1) is an instance at suffix `s + i`, with no written nodes.
pub open spec fn children_upto(t: Table, d: TableDefs, s: int, n: int) -> bool
    decreases d, n,
{
    if n <= 0 || n > d.associations@.len() {
        n <= 0
    } else {
        let w = t.associations@[n - 1];
        let a = d.associations@[n - 1];
        &&& children_upto(t, d, s, n - 1)
        &&& n <= t.associations@.len()
        &&& w.association == a.association
        &&& w.many == a.many
        &&& w.tables@.len() == 0
        &&& node_matches(w.guide, a.table, s + n)
        &&& w.guide.associations@.len() == a.table.associations@.len()
        &&& children_upto(w.guide, a.table, s + n, a.table.associations@.len() as int)
    }
}

/// `t` is the node that `d` instantiates at suffix `s`.
pub open spec fn instance_of(t: Table, d: TableDefs, s: int) -> bool {
    &&& node_matches(t, d, s)
    &&& t.associations@.len() == d.associations@.len()
    &&& children_upto(t, d, s, d.associations@.len() as int)
}

proof fn lemma_fit_prefix(d: TableDefs, s: int, m: int, n: int)
    requires
        0 <= m <= n <= d.associations@.len(),
        suffixes_fit(d, s, n),
    ensures
        suffixes_fit(d, s, m),
    decreases n - m,
{
    if m < n {
        lemma_fit_prefix(d, s, m, n - 1);
    }
}

proof fn lemma_children_prefix(t0: Table, t: Table, d: TableDefs, s: int, n: int)
    requires
        0 <= n <= t0.associations@.len() <= t.associations@.len(),
        n <= d.associations@.len(),
        forall|i: int| 0 <= i < t0.associations@.len() ==> t.associations@[i] == t0.associations@[i],
        children_upto(t0, d, s, n),
    ensures
        children_upto(t, d, s, n),
    decreases n,
{
    if n > 0 {
        lemma_children_prefix(t0, t, d, s, n - 1);
    }
}

/// The name under which a node of `d` is referenced in a SELECT: its alias, else its name.
pub open spec fn defs_display_name(d: TableDefs) -> Seq<char> {
    match d.table_alias {
        Some(a) => a@,
        None => d.table_name@,
    }
}

/// The SELECT alias, name and suffix, of each node of the subtrees of the first `n`
/// associations of `t`, in SELECT order.
pub open spec fn aliases_upto(t: Table, n: int) -> Seq<(Seq<char>, u32)>
    decreases t, n,
{
    if n <= 0 || n > t.associations@.len() {
        Seq::empty()
    } else {
        let g = t.associations@[n - 1].guide;
        aliases_upto(t, n - 1) + seq![(display_name(g), g.suffix)] + aliases_upto(
            g,
            g.associations@.len() as int,
        )
    }
}

/// The SELECT alias, name and suffix, of every node of the tree rooted at `t`, root first.
pub open spec fn aliases(t: Table) -> Seq<(Seq<char>, u32)> {
    seq![(display_name(t), t.suffix)] + aliases_upto(t, t.associations@.len() as int)
}

/// The aliases that instantiating the first `n` associations of `d` under a node with
/// suffix `s` hands out, in SELECT order.
pub open spec fn defs_aliases_upto(d: TableDefs, s: int, n: int) -> Seq<(Seq<char>, u32)>
    decreases d, n,
{
    if n <= 0 || n > d.associations@.len() {
        Seq::empty()
    } else {
        let c = d.associations@[n - 1].table;
        defs_aliases_upto(d, s, n - 1) + seq![(defs_display_name(c), (s + n) as u32)]
            + defs_aliases_upto(c, s + n, c.associations@.len() as int)
    }
}

/// The aliases that instantiating `d` at suffix `s` hands out, root first.
pub open spec fn defs_aliases(d: TableDefs, s: int) -> Seq<(Seq<char>, u32)> {
    seq![(defs_display_name(d), s as u32)] + defs_aliases_upto(d, s, d.associations@.len() as int)
}

/// No two entries of `a` are equal.
pub open spec fn all_distinct(a: Seq<(Seq<char>, u32)>) -> bool {
    forall|i: int, j: int| 0 <= i < j < a.len() ==> a[i] != a[j]
}

proof fn lemma_aliases_of_instance(t: Table, d: TableDefs, s: int, n: int)
    requires
        0 <= n <= d.associations@.len(),
        t.associations@.len() == d.associations@.len(),
        children_upto(t, d, s, n),
    ensures
        aliases_upto(t, n) == defs_aliases_upto(d, s, n),
    decreases d, n,
{
    if n > 0 {
        lemma_aliases_of_instance(t, d, s, n - 1);
        let g = t.associations@[n - 1].guide;
        let c = d.associations@[n - 1].table;
        lemma_aliases_of_instance(g, c, s + n, c.associations@.len() as int);
    }
}

/// The pairs of `v` with their names viewed.
pub open spec fn pairs_view(v: Seq<(String, u32)>) -> Seq<(Seq<char>, u32)> {
    v.map_values(|p: (String, u32)| (p.0@, p.1))
}

fn clone_alias(a: &Option<String>) -> (r: Option<String>)
    ensures
        r == *a,
{
    match a {
        Some(s) => Some(s.clone()),
        None => None,
    }
}

impl Association {
    /// A copy of this association.
    pub fn duplicate(&self) -> (r: Association)
        ensures
            r == *self,
    {
        Association { from_id: self.from_id.clone(), to_id: self.to_id.clone() }
    }
}

impl Table {
    fn instantiate(defs: &TableDefs, suffix: u32) -> (r: Result<Table, Error>)
        ensures
            instantiable(*defs, suffix as int) <==> r is Ok,
            r matches Ok(t) ==> instance_of(t, *defs, suffix as int),
            r matches Err(e) ==> e is TooManyAssociatedNodes,
        decreases defs,
    {
        let mut fields: Vec<TableField> = Vec::new();
        let mut i: usize = 0;
        while i < defs.field_names.len()
            invariant
                i <= defs.field_names@.len(),
                fields@.len() == i,
                forall|j: int|
                    0 <= j < i ==> (#[trigger] fields@[j]).name == defs.field_names@[j]
                        && fields@[j].value is None,
            decreases defs.field_names@.len() - i,
        {
            fields.push(TableField::new(defs.field_names[i].clone()));
            i = i + 1;
        }
        let mut t = Table {
            table_name: defs.table_name.clone(),
            table_alias: clone_alias(&defs.table_alias),
            primary_key_name: defs.primary_key_name.clone(),
            suffix,
            id_field: TableField::new(defs.primary_key_name.clone()),
            fields,
            associations: Vec::new(),
        };
        let n = defs.associations.len();
        let mut k: usize = 0;
        while k < n
            invariant
                n == defs.associations@.len(),
                k <= n,
                t.associations@.len() == k,
                t.table_name == defs.table_name,
                t.table_alias == defs.table_alias,
                t.primary_key_name == defs.primary_key_name,
                t.suffix == suffix,
                t.id_field.name == defs.primary_key_name,
                t.id_field.value is None,
                t.fields@.len() == defs.field_names@.len(),
                forall|j: int|
                    0 <= j < t.fields@.len() ==> (#[trigger] t.fields@[j]).name
                        == defs.field_names@[j] && t.fields@[j].value is None,
                suffixes_fit(*defs, suffix as int, k as int),
                children_upto(t, *defs, suffix as int, k as int),
            decreases n - k,
        {
            let a = &defs.associations[k];
            if suffix as u64 + k as u64 + 1 > u32::MAX as u64 {
                proof {
                    if suffixes_fit(*defs, suffix as int, n as int) {
                            lemma_fit_prefix(*defs, suffix as int, k as int + 1, n as int);
                        }
                }
                return Err(Error::TooManyAssociatedNodes);
            }
            let child_suffix = suffix + k as u32 + 1;
            let guide = match Table::instantiate(&a.table, child_suffix) {
                Ok(g) => g,
                Err(e) => {
                    proof {
                        if suffixes_fit(*defs, suffix as int, n as int) {
                            lemma_fit_prefix(*defs, suffix as int, k as int + 1, n as int);
                        }
                    }
                    return Err(e);
                },
            };
            let w = TableAssociationWrapper {
                association: a.association.duplicate(),
                guide,
                tables: Vec::new(),
                many: a.many,
            };
            let ghost t0 = t;
            t.associations.push(w);
            proof {
                lemma_children_prefix(t0, t, *defs, suffix as int, k as int);
            }
            k = k + 1;
        }
        Ok(t)
    }
}

impl Table {
    /// A new node of the schema `defs` with suffix `suffix`, its descendants instantiated
    /// recursively with the suffixes `suffix + 1`, `suffix + 2`, ... of its associations,
    /// and nothing bound. Fails when a suffix would not fit in a `u32`, or when two nodes of
    /// the tree would share a SELECT alias (name and suffix).
    pub fn new(defs: &TableDefs, suffix: u32) -> (r: Result<Table, Error>)
        ensures
            (instantiable(*defs, suffix as int) && all_distinct(defs_aliases(*defs, suffix as int)))
                <==> r is Ok,
            r matches Ok(t) ==> instance_of(t, *defs, suffix as int) && all_distinct(aliases(t)),
            r matches Err(e) ==> (if instantiable(*defs, suffix as int) {
                e is DuplicateAlias
            } else {
                e is TooManyAssociatedNodes
            }),
    {
        let t = match Table::instantiate(defs, suffix) {
            Ok(t) => t,
            Err(e) => return Err(e),
        };
        proof {
            lemma_aliases_of_instance(t, *defs, suffix as int, defs.associations@.len() as int);
            assert(aliases(t) == defs_aliases(*defs, suffix as int));
        }
        let mut list: Vec<(String, u32)> = Vec::new();
        t.collect_aliases(&mut list);
        assert(pairs_view(list@) =~= aliases(t));
        let n = list.len();
        let mut i: usize = 0;
        while i < n
            invariant
                n == list@.len(),
                i <= n,
                pairs_view(list@) == aliases(t),
                instantiable(*defs, suffix as int),
                aliases(t) == defs_aliases(*defs, suffix as int),
                forall|a: int, b: int|
                    0 <= a < i && a < b < n ==> pairs_view(list@)[a] != pairs_view(list@)[b],
            decreases n - i,
        {
            let mut j: usize = i + 1;
            while j < n
                invariant
                    n == list@.len(),
                    i < n,
                    i + 1 <= j <= n,
                    pairs_view(list@) == aliases(t),
                    instantiable(*defs, suffix as int),
                    aliases(t) == defs_aliases(*defs, suffix as int),
                    forall|a: int, b: int|
                        0 <= a < i && a < b < n ==> pairs_view(list@)[a] != pairs_view(list@)[b],
                    forall|b: int| i < b < j ==> pairs_view(list@)[i as int] != pairs_view(list@)[b],
                decreases n - j,
            {
                if list[i].1 == list[j].1 && list[i].0 == list[j].0 {
                    assert(pairs_view(list@)[i as int] == pairs_view(list@)[j as int]);
                    return Err(Error::DuplicateAlias);
                }
                j = j + 1;
            }
            i = i + 1;
        }
        Ok(t)
    }

    /// Appends the alias, name and suffix, of every node of the tree rooted at this node.
    fn collect_aliases(&self, list: &mut Vec<(String, u32)>)
        ensures
            pairs_view(final(list)@) == pairs_view(old(list)@) + aliases(*self),
        decreases self,
    {
        let name = match &self.table_alias {
            Some(a) => a.clone(),
            None => self.table_name.clone(),
        };
        list.push((name, self.suffix));
        let ghost base = pairs_view(old(list)@);
        assert(pairs_view(list@) =~= base + seq![(display_name(*self), self.suffix)]
            + aliases_upto(*self, 0));
        let mut k: usize = 0;
        while k < self.associations.len()
            invariant
                k <= self.associations@.len(),
                base == pairs_view(old(list)@),
                pairs_view(list@) == base + seq![(display_name(*self), self.suffix)]
                    + aliases_upto(*self, k as int),
            decreases self.associations@.len() - k,
        {
            self.associations[k].guide.collect_aliases(list);
            k = k + 1;
            assert(pairs_view(list@) =~= base + seq![(display_name(*self), self.suffix)]
                + aliases_upto(*self, k as int));
        }
    }

    /// Associations of this node, in declaration order.
    pub fn associations(&self) -> (r: &Vec<TableAssociationWrapper>)
        ensures
            *r == self.associations,
    {
        &self.associations
    }

    /// Mutable version of [`Table::associations`].
    pub fn associations_mut(&mut self) -> (r: &mut Vec<TableAssociationWrapper>)
        ensures
            *r == old(self).associations,
            *final(self) == (Table { associations: *final(r), ..*old(self) }),
    {
        &mut self.associations
    }

    /// Non-id columns of this node.
    pub fn fields(&self) -> (r: &Vec<TableField>)
        ensures
            *r == self.fields,
    {
        &self.fields
    }

    /// Mutable version of [`Table::fields`].
    pub fn fields_mut(&mut self) -> (r: &mut Vec<TableField>)
        ensures
            *r == old(self).fields,
            *final(self) == (Table { fields: *final(r), ..*old(self) }),
    {
        &mut self.fields
    }

    /// The primary key column of this node.
    pub fn id_field(&self) -> (r: &TableField)
        ensures
            *r == self.id_field,
    {
        &self.id_field
    }

    /// Mutable version of [`Table::id_field`].
    pub fn id_field_mut(&mut self) -> (r: &mut TableField)
        ensures
            *r == old(self).id_field,
            *final(self) == (Table { id_field: *final(r), ..*old(self) }),
    {
        &mut self.id_field
    }

    /// The suffix of this node, used to alias it in a SELECT.
    pub fn suffix(&self) -> (r: u32)
        ensures
            r == self.suffix,
    {
        self.suffix
    }

    /// Each association of this node with the name, alias and suffix of its child table.
    pub fn full_associations(&self) -> (r: Vec<FullAssociation>)
        ensures
            r@.len() == self.associations@.len(),
            forall|i: int|
                0 <= i < r@.len() ==> {
                    let w = #[trigger] self.associations@[i];
                    &&& r@[i].association == w.association
                    &&& r@[i].to_table == w.guide.table_name
                    &&& r@[i].to_table_alias == w.guide.table_alias
                    &&& r@[i].to_table_suffix == w.guide.suffix
                },
    {
        let mut r: Vec<FullAssociation> = Vec::new();
        let mut i: usize = 0;
        while i < self.associations.len()
            invariant
                i <= self.associations@.len(),
                r@.len() == i,
                forall|j: int|
                    0 <= j < i ==> {
                        let w = #[trigger] self.associations@[j];
                        &&& r@[j].association == w.association
                        &&& r@[j].to_table == w.guide.table_name
                        &&& r@[j].to_table_alias == w.guide.table_alias
                        &&& r@[j].to_table_suffix == w.guide.suffix
                    },
            decreases self.associations@.len() - i,
        {
            let g = &self.associations[i].guide;
            r.push(
                FullAssociation::new(
                    self.associations[i].association.duplicate(),
                    g.table_name.clone(),
                    clone_alias(&g.table_alias),
                    g.suffix,
                ),
            );
            i = i + 1;
        }
        r
    }
}

} // verus!
