use crate::error::Error;
use crate::table::Table;
use crate::value::{value_text, write_value, Value};
use crate::visited::{mark_outcome, node_hash, VisitedNodes};
use vstd::prelude::*;

verus! {

broadcast use {vstd::std_specs::vec::axiom_vec_decreases_to_view, vstd::seq::axiom_seq_index_decreases};

/// The kind of write statement emitted for every node of a tree.
#[derive(Clone, Copy, Debug, PartialEq, Eq, Structural)]
pub enum WriteKind {
    Insert,
    Update,
    Delete,
}

/// The bound values among the id and the first `n` non-id columns of `t`, rendered and comma
/// separated.
pub open spec fn insert_values_text(t: Table, n: int) -> Seq<char>
    decreases n,
{
    if n <= 0 || n > t.fields@.len() {
        match t.id_field.value {
            Some(v) => value_text(v),
            None => Seq::empty(),
        }
    } else {
        let p = insert_values_text(t, n - 1);
        match t.fields@[n - 1].value {
            None => p,
            Some(v) => if p.len() == 0 {
                value_text(v)
            } else {
                p + ","@ + value_text(v)
            },
        }
    }
}

/// The names of the bound columns among the id and the first `n` non-id columns of `t`,
/// comma separated: the column list that pairs with [`insert_values_text`].
pub open spec fn insert_names_text(t: Table, n: int) -> Seq<char>
    decreases n,
{
    if n <= 0 || n > t.fields@.len() {
        match t.id_field.value {
            Some(_) => t.id_field.name@,
            None => Seq::empty(),
        }
    } else {
        let p = insert_names_text(t, n - 1);
        match t.fields@[n - 1].value {
            None => p,
            Some(_) => if insert_values_text(t, n - 1).len() == 0 {
                t.fields@[n - 1].name@
            } else {
                p + ","@ + t.fields@[n - 1].name@
            },
        }
    }
}

/// The parent link applies to `t` when a parent value is given and the link column is not
/// `t`'s own id column.
pub open spec fn link_applies(t: Table, lf: Seq<char>, lv: Option<Value>) -> bool {
    lv is Some && lf != t.id_field.name@
}

/// `INSERT INTO "{table}" ({columns}[,{link}]) VALUES ({values}[,{link value}]);` over the
/// bound columns, id first, or nothing when neither the id nor any column is bound.
pub open spec fn insert_stmt(t: Table, lf: Seq<char>, lv: Option<Value>) -> Seq<char> {
    let vals = insert_values_text(t, t.fields@.len() as int);
    if vals.len() == 0 {
        Seq::empty()
    } else {
        let (ln, lval) = if link_applies(t, lf, lv) {
            (","@ + lf, ","@ + value_text(lv->0))
        } else {
            (Seq::empty(), Seq::empty())
        };
        "INSERT INTO \""@ + t.table_name@ + "\" ("@ + insert_names_text(
            t,
            t.fields@.len() as int,
        ) + ln + ") VALUES ("@ + vals + lval + ");"@
    }
}

/// `,{column}={value}` for each bound value among the first `n` non-id columns of `t`.
pub open spec fn update_sets_text(t: Table, n: int) -> Seq<char>
    decreases n,
{
    if n <= 0 || n > t.fields@.len() {
        Seq::empty()
    } else {
        update_sets_text(t, n - 1) + match t.fields@[n - 1].value {
            None => Seq::empty(),
            Some(v) => ","@ + t.fields@[n - 1].name@ + "="@ + value_text(v),
        }
    }
}

/// `UPDATE {table} SET {id}={id value}{sets} WHERE {primary key}={id value};`, or nothing when
/// the id is unbound.
pub open spec fn update_stmt(t: Table) -> Seq<char> {
    match t.id_field.value {
        None => Seq::empty(),
        Some(v) => "UPDATE "@ + t.table_name@ + " SET "@ + t.id_field.name@ + "="@ + value_text(v)
            + update_sets_text(t, t.fields@.len() as int) + " WHERE "@ + t.primary_key_name@
            + "="@ + value_text(v) + ";"@,
    }
}

/// `DELETE FROM "{table}" WHERE {primary key}={id value};`, or nothing when the id is unbound.
pub open spec fn delete_stmt(t: Table) -> Seq<char> {
    match t.id_field.value {
        None => Seq::empty(),
        Some(v) => "DELETE FROM \""@ + t.table_name@ + "\" WHERE "@ + t.primary_key_name@ + "="@
            + value_text(v) + ";"@,
    }
}

/// The statement of kind `k` for node `t` alone, linked to its parent by `lf`/`lv`.
pub open spec fn node_stmt(k: WriteKind, t: Table, lf: Seq<char>, lv: Option<Value>) -> Seq<
    char,
> {
    match k {
        WriteKind::Insert => insert_stmt(t, lf, lv),
        WriteKind::Update => update_stmt(t),
        WriteKind::Delete => delete_stmt(t),
    }
}

/// The outcome of a write step: the text it emits, or the error that aborts it, and the
/// tracker's content afterwards.
pub type WriteOutcome = (Result<Seq<char>, Error>, Map<u64, String>);

/// The text of kind `k` for the tree rooted at `t`, with `m` already visited: nothing when
/// `t` was visited already; otherwise its own statement then its subtrees (Insert, Update),
/// or its subtrees then its own statement (Delete).
#[verifier::opaque]
pub open spec fn write_run(
    k: WriteKind,
    t: Table,
    lf: Seq<char>,
    lv: Option<Value>,
    m: Map<u64, String>,
) -> WriteOutcome
    decreases t, 2int, 0int, 0int,
{
    let (r, m1) = mark_outcome(m, node_hash(t), t.table_name);
    match r {
        Err(e) => (Err(e), m1),
        Ok(true) => (Ok(Seq::empty()), m1),
        Ok(false) => {
            let own = node_stmt(k, t, lf, lv);
            let (rc, m2) = write_children(k, t, t.associations@.len() as int, m1);
            match rc {
                Err(e) => (Err(e), m2),
                Ok(c) => if k == WriteKind::Delete {
                    (Ok(c + own), m2)
                } else {
                    (Ok(own + c), m2)
                },
            }
        },
    }
}

/// The text of kind `k` for the written nodes of the first `n` associations of `t`: the
/// guide of a 1:1 relation, every element of a 1:N relation.
#[verifier::opaque]
pub open spec fn write_children(k: WriteKind, t: Table, n: int, m: Map<u64, String>) -> WriteOutcome
    decreases t, 1int, n, 0int,
{
    if n <= 0 || n > t.associations@.len() {
        (Ok(Seq::empty()), m)
    } else {
        let (r, m1) = write_children(k, t, n - 1, m);
        match r {
            Err(e) => (Err(e), m1),
            Ok(a) => {
                let w = t.associations@[n - 1];
                let (r2, m2) = if w.many {
                    write_elements(k, t, n - 1, w.tables@.len() as int, m1)
                } else {
                    write_run(k, w.guide, w.association.to_id@, t.id_field.value, m1)
                };
                match r2 {
                    Err(e) => (Err(e), m2),
                    Ok(b) => (Ok(a + b), m2),
                }
            },
        }
    }
}

/// The text of kind `k` for the first `j` elements of the 1:N association `i` of `t`.
#[verifier::opaque]
pub open spec fn write_elements(
    k: WriteKind,
    t: Table,
    i: int,
    j: int,
    m: Map<u64, String>,
) -> WriteOutcome
    decreases t, 0int, i, j,
{
    if i < 0 || i >= t.associations@.len() || j <= 0 || j > t.associations@[i].tables@.len() {
        (Ok(Seq::empty()), m)
    } else {
        let w = t.associations@[i];
        let (r, m1) = write_elements(k, t, i, j - 1, m);
        match r {
            Err(e) => (Err(e), m1),
            Ok(a) => {
                let (r2, m2) = write_run(
                    k,
                    w.tables@[j - 1],
                    w.association.to_id@,
                    t.id_field.value,
                    m1,
                );
                match r2 {
                    Err(e) => (Err(e), m2),
                    Ok(b) => (Ok(a + b), m2),
                }
            },
        }
    }
}

/// The value behind an optional reference.
pub open spec fn opt_val(o: Option<&Value>) -> Option<Value> {
    match o {
        Some(v) => Some(*v),
        None => None,
    }
}

/// One step of [`write_elements`].
pub proof fn lemma_elements_step(k: WriteKind, t: Table, i: int, j: int, m: Map<u64, String>)
    requires
        0 <= i < t.associations@.len(),
        0 < j <= t.associations@[i].tables@.len(),
    ensures
        write_elements(k, t, i, j, m) == ({
            let w = t.associations@[i];
            let (r, m1) = write_elements(k, t, i, j - 1, m);
            match r {
                Err(e) => (Err(e), m1),
                Ok(a) => {
                    let (r2, m2) = write_run(
                        k,
                        w.tables@[j - 1],
                        w.association.to_id@,
                        t.id_field.value,
                        m1,
                    );
                    match r2 {
                        Err(e) => (Err(e), m2),
                        Ok(b) => (Ok(a + b), m2),
                    }
                },
            }
        }),
{
    reveal_with_fuel(write_run, 1);
    reveal_with_fuel(write_children, 1);
    reveal_with_fuel(write_elements, 1);
}

/// [`write_elements`] of no element.
pub proof fn lemma_elements_zero(k: WriteKind, t: Table, i: int, m: Map<u64, String>)
    ensures
        write_elements(k, t, i, 0, m) == (Ok::<Seq<char>, Error>(Seq::empty()), m),
{
    reveal_with_fuel(write_run, 1);
    reveal_with_fuel(write_children, 1);
    reveal_with_fuel(write_elements, 1);
}

/// One step of [`write_children`].
pub proof fn lemma_children_step(k: WriteKind, t: Table, n: int, m: Map<u64, String>)
    requires
        0 < n <= t.associations@.len(),
    ensures
        write_children(k, t, n, m) == ({
            let (r, m1) = write_children(k, t, n - 1, m);
            match r {
                Err(e) => (Err(e), m1),
                Ok(a) => {
                    let w = t.associations@[n - 1];
                    let (r2, m2) = if w.many {
                        write_elements(k, t, n - 1, w.tables@.len() as int, m1)
                    } else {
                        write_run(k, w.guide, w.association.to_id@, t.id_field.value, m1)
                    };
                    match r2 {
                        Err(e) => (Err(e), m2),
                        Ok(b) => (Ok(a + b), m2),
                    }
                },
            }
        }),
{
    reveal_with_fuel(write_run, 1);
    reveal_with_fuel(write_children, 1);
    reveal_with_fuel(write_elements, 1);
}

/// [`write_children`] of no association.
pub proof fn lemma_children_zero(k: WriteKind, t: Table, m: Map<u64, String>)
    ensures
        write_children(k, t, 0, m) == (Ok::<Seq<char>, Error>(Seq::empty()), m),
{
    reveal_with_fuel(write_run, 1);
    reveal_with_fuel(write_children, 1);
    reveal_with_fuel(write_elements, 1);
}

/// [`write_run`] unfolded once.
pub proof fn lemma_run_unfold(
    k: WriteKind,
    t: Table,
    lf: Seq<char>,
    lv: Option<Value>,
    m: Map<u64, String>,
)
    ensures
        write_run(k, t, lf, lv, m) == ({
            let (r, m1) = mark_outcome(m, node_hash(t), t.table_name);
            match r {
                Err(e) => (Err(e), m1),
                Ok(true) => (Ok(Seq::empty()), m1),
                Ok(false) => {
                    let own = node_stmt(k, t, lf, lv);
                    let (rc, m2) = write_children(k, t, t.associations@.len() as int, m1);
                    match rc {
                        Err(e) => (Err(e), m2),
                        Ok(c) => if k == WriteKind::Delete {
                            (Ok(c + own), m2)
                        } else {
                            (Ok(own + c), m2)
                        },
                    }
                },
            }
        }),
{
    reveal_with_fuel(write_run, 1);
    reveal_with_fuel(write_children, 1);
    reveal_with_fuel(write_elements, 1);
}

proof fn lemma_value_text_nonempty(v: Value)
    ensures
        value_text(v).len() > 0,
{
}

proof fn lemma_children_err(k: WriteKind, t: Table, n: int, n2: int, m: Map<u64, String>)
    requires
        0 <= n <= n2 <= t.associations@.len(),
        write_children(k, t, n, m).0 is Err,
    ensures
        write_children(k, t, n2, m) == write_children(k, t, n, m),
    decreases n2 - n,
{
    if n2 > n {
        lemma_children_err(k, t, n, n2 - 1, m);
        lemma_children_step(k, t, n2, m);
    }
}

proof fn lemma_elements_err(k: WriteKind, t: Table, i: int, j: int, j2: int, m: Map<u64, String>)
    requires
        0 <= i < t.associations@.len(),
        0 <= j <= j2 <= t.associations@[i].tables@.len(),
        write_elements(k, t, i, j, m).0 is Err,
    ensures
        write_elements(k, t, i, j2, m) == write_elements(k, t, i, j, m),
    decreases j2 - j,
{
    if j2 > j {
        lemma_elements_err(k, t, i, j, j2 - 1, m);
        lemma_elements_step(k, t, i, j2, m);
    }
}

impl Table {
    fn insert_columns(&self) -> (r: (String, String))
        ensures
            r.0@ == insert_names_text(*self, self.fields@.len() as int),
            r.1@ == insert_values_text(*self, self.fields@.len() as int),
    {
        let mut names = String::new();
        let mut vals = String::new();
        let mut any = false;
        match &self.id_field.value {
            Some(v) => {
                names.append(self.id_field.name.as_str());
                write_value(&mut vals, v);
                any = true;
                proof {
                    lemma_value_text_nonempty(*v);
                }
            },
            None => {},
        }
        assert(vals@ =~= insert_values_text(*self, 0));
        assert(names@ =~= insert_names_text(*self, 0));
        let mut i: usize = 0;
        while i < self.fields.len()
            invariant
                i <= self.fields@.len(),
                names@ == insert_names_text(*self, i as int),
                vals@ == insert_values_text(*self, i as int),
                any == (vals@.len() > 0),
                !any ==> names@.len() == 0,
            decreases self.fields@.len() - i,
        {
            let ghost prev_vals = vals@;
            let ghost prev_names = names@;
            match &self.fields[i].value {
                Some(v) => {
                    if any {
                        names.append(",");
                        vals.append(",");
                    }
                    names.append(self.fields[i].name.as_str());
                    write_value(&mut vals, v);
                    any = true;
                    proof {
                        lemma_value_text_nonempty(*v);
                    }
                },
                None => {},
            }
            assert(insert_values_text(*self, i as int) == prev_vals);
            assert(insert_names_text(*self, i + 1) == match self.fields@[i as int].value {
                None => prev_names,
                Some(_) => if prev_vals.len() == 0 {
                    self.fields@[i as int].name@
                } else {
                    prev_names + ","@ + self.fields@[i as int].name@
                },
            });
            i = i + 1;
            assert(names@ =~= insert_names_text(*self, i as int));
            assert(vals@ =~= insert_values_text(*self, i as int));
        }
        (names, vals)
    }

    fn write_insert_stmt(&self, buffer: &mut String, lf: &String, lv: Option<&Value>)
        ensures
            final(buffer)@ == old(buffer)@ + insert_stmt(*self, lf@, opt_val(lv)),
    {
        let (names, vals) = self.insert_columns();
        if vals.as_str().is_empty() {
            assert(buffer@ =~= old(buffer)@ + insert_stmt(*self, lf@, opt_val(lv)));
            return ;
        }
        let applies = match lv {
            Some(_) => *lf != self.id_field.name,
            None => false,
        };
        buffer.append("INSERT INTO \"");
        buffer.append(self.table_name.as_str());
        buffer.append("\" (");
        buffer.append(names.as_str());
        if applies {
            buffer.append(",");
            buffer.append(lf.as_str());
        }
        buffer.append(") VALUES (");
        buffer.append(vals.as_str());
        if applies {
            match lv {
                Some(v) => {
                    buffer.append(",");
                    write_value(buffer, v);
                },
                None => {},
            }
        }
        buffer.append(");");
        assert(buffer@ =~= old(buffer)@ + insert_stmt(*self, lf@, opt_val(lv)));
    }

    fn write_update_stmt(&self, buffer: &mut String)
        ensures
            final(buffer)@ == old(buffer)@ + update_stmt(*self),
    {
        let v = match &self.id_field.value {
            Some(v) => v,
            None => {
                assert(buffer@ =~= old(buffer)@ + update_stmt(*self));
                return ;
            },
        };
        buffer.append("UPDATE ");
        buffer.append(self.table_name.as_str());
        buffer.append(" SET ");
        buffer.append(self.id_field.name.as_str());
        buffer.append("=");
        write_value(buffer, v);
        let ghost base = buffer@;
        let mut i: usize = 0;
        while i < self.fields.len()
            invariant
                i <= self.fields@.len(),
                buffer@ == base + update_sets_text(*self, i as int),
            decreases self.fields@.len() - i,
        {
            match &self.fields[i].value {
                Some(x) => {
                    buffer.append(",");
                    buffer.append(self.fields[i].name.as_str());
                    buffer.append("=");
                    write_value(buffer, x);
                },
                None => {},
            }
            i = i + 1;
            assert(buffer@ =~= base + update_sets_text(*self, i as int));
        }
        buffer.append(" WHERE ");
        buffer.append(self.primary_key_name.as_str());
        buffer.append("=");
        write_value(buffer, v);
        buffer.append(";");
        assert(buffer@ =~= old(buffer)@ + update_stmt(*self));
    }

    fn write_delete_stmt(&self, buffer: &mut String)
        ensures
            final(buffer)@ == old(buffer)@ + delete_stmt(*self),
    {
        match &self.id_field.value {
            Some(v) => {
                buffer.append("DELETE FROM \"");
                buffer.append(self.table_name.as_str());
                buffer.append("\" WHERE ");
                buffer.append(self.primary_key_name.as_str());
                buffer.append("=");
                write_value(buffer, v);
                buffer.append(";");
            },
            None => {},
        }
        assert(buffer@ =~= old(buffer)@ + delete_stmt(*self));
    }

    fn write_node_stmt(&self, k: WriteKind, buffer: &mut String, lf: &String, lv: Option<&Value>)
        ensures
            final(buffer)@ == old(buffer)@ + node_stmt(k, *self, lf@, opt_val(lv)),
    {
        match k {
            WriteKind::Insert => self.write_insert_stmt(buffer, lf, lv),
            WriteKind::Update => self.write_update_stmt(buffer),
            WriteKind::Delete => self.write_delete_stmt(buffer),
        }
    }

    /// Appends the statements of kind `k` for the tree rooted at this node, see [`write_run`].
    /// On error the buffer holds an unspecified part of the text.
    fn write_tree(
        &self,
        k: WriteKind,
        aux: &mut VisitedNodes,
        buffer: &mut String,
        lf: &String,
        lv: Option<&Value>,
    ) -> (r: Result<(), Error>)
        requires
            old(aux).wf(),
        ensures
            final(aux).wf(),
            final(aux).view() == write_run(k, *self, lf@, opt_val(lv), old(aux).view()).1,
            match write_run(k, *self, lf@, opt_val(lv), old(aux).view()).0 {
                Ok(text) => r is Ok && final(buffer)@ == old(buffer)@ + text,
                Err(e) => r == Err::<(), Error>(e),
            },
        decreases self, 2int,
    {
        let ghost m = aux.view();
        proof {
            lemma_run_unfold(k, *self, lf@, opt_val(lv), m);
        }
        let h = self.instance_hash();
        match aux.mark_and_check(h, &self.table_name) {
            Err(e) => return Err(e),
            Ok(true) => return Ok(()),
            Ok(false) => {},
        }
        let ghost m1 = aux.view();
        if k != WriteKind::Delete {
            self.write_node_stmt(k, buffer, lf, lv);
        }
        let rc = self.write_children_of(k, aux, buffer);
        if let Err(e) = rc {
            return Err(e);
        }
        if k == WriteKind::Delete {
            self.write_node_stmt(k, buffer, lf, lv);
        }
        assert(buffer@ =~= old(buffer)@ + write_run(k, *self, lf@, opt_val(lv), m).0->Ok_0);
        Ok(())
    }

    fn write_children_of(&self, k: WriteKind, aux: &mut VisitedNodes, buffer: &mut String) -> (r:
        Result<(), Error>)
        requires
            old(aux).wf(),
        ensures
            final(aux).wf(),
            ({
                let out = write_children(
                    k,
                    *self,
                    self.associations@.len() as int,
                    old(aux).view(),
                );
                &&& final(aux).view() == out.1
                &&& match out.0 {
                    Ok(text) => r is Ok && final(buffer)@ == old(buffer)@ + text,
                    Err(e) => r == Err::<(), Error>(e),
                }
            }),
        decreases self, 1int,
    {
        let ghost m1 = aux.view();
        let idv: Option<&Value> = match &self.id_field.value {
            Some(v) => Some(v),
            None => None,
        };
        assert(opt_val(idv) == self.id_field.value);
        proof {
            lemma_children_zero(k, *self, m1);
        }
        assert(buffer@ =~= old(buffer)@ + write_children(k, *self, 0, m1).0->Ok_0);
        let n = self.associations.len();
        let mut i: usize = 0;
        while i < n
            invariant
                n == self.associations@.len(),
                i <= n,
                m1 == old(aux).view(),
                opt_val(idv) == self.id_field.value,
                aux.wf(),
                write_children(k, *self, i as int, m1).0 is Ok,
                aux.view() == write_children(k, *self, i as int, m1).1,
                buffer@ == old(buffer)@ + write_children(k, *self, i as int, m1).0->Ok_0,
            decreases n - i,
        {
            let w = &self.associations[i];
            let ghost mi = aux.view();
            let ri = if w.many {
                self.write_elements_of(k, i, aux, buffer, idv)
            } else {
                w.guide.write_tree(k, aux, buffer, &w.association.to_id, idv)
            };
            proof {
                lemma_children_step(k, *self, i + 1, m1);
                let prev = write_children(k, *self, i as int, m1);
                let step = if w.many {
                    write_elements(k, *self, i as int, w.tables@.len() as int, prev.1)
                } else {
                    write_run(k, w.guide, w.association.to_id@, self.id_field.value, prev.1)
                };
                assert(prev.0 is Ok);
                assert(mi == prev.1);
                assert(write_children(k, *self, i + 1, m1) == match step.0 {
                    Err(e) => (Err(e), step.1),
                    Ok(b) => (Ok(prev.0->Ok_0 + b), step.1),
                });
            }
            if let Err(e) = ri {
                proof {
                    lemma_children_err(k, *self, i + 1, n as int, m1);
                    assert(write_children(k, *self, n as int, m1) == (
                        Err::<Seq<char>, Error>(e),
                        aux.view(),
                    ));
                }
                return Err(e);
            }
            i = i + 1;
            assert(buffer@ =~= old(buffer)@ + write_children(k, *self, i as int, m1).0->Ok_0);
        }
        Ok(())
    }

    fn write_elements_of(
        &self,
        k: WriteKind,
        i: usize,
        aux: &mut VisitedNodes,
        buffer: &mut String,
        idv: Option<&Value>,
    ) -> (r: Result<(), Error>)
        requires
            i < self.associations@.len(),
            opt_val(idv) == self.id_field.value,
            old(aux).wf(),
        ensures
            final(aux).wf(),
            ({
                let out = write_elements(
                    k,
                    *self,
                    i as int,
                    self.associations@[i as int].tables@.len() as int,
                    old(aux).view(),
                );
                &&& final(aux).view() == out.1
                &&& match out.0 {
                    Ok(text) => r is Ok && final(buffer)@ == old(buffer)@ + text,
                    Err(e) => r == Err::<(), Error>(e),
                }
            }),
        decreases self, 0int,
    {
        let ghost mi = aux.view();
        let w = &self.associations[i];
        let nt = w.tables.len();
        let mut j: usize = 0;
        proof {
            lemma_elements_zero(k, *self, i as int, mi);
        }
        assert(buffer@ =~= old(buffer)@ + write_elements(k, *self, i as int, 0, mi).0->Ok_0);
        while j < nt
            invariant
                i < self.associations@.len(),
                *w == self.associations@[i as int],
                nt == w.tables@.len(),
                j <= nt,
                mi == old(aux).view(),
                opt_val(idv) == self.id_field.value,
                aux.wf(),
                write_elements(k, *self, i as int, j as int, mi).0 is Ok,
                aux.view() == write_elements(k, *self, i as int, j as int, mi).1,
                buffer@ == old(buffer)@ + write_elements(k, *self, i as int, j as int, mi).0->Ok_0,
            decreases nt - j,
        {
            let ghost prev = write_elements(k, *self, i as int, j as int, mi);
            let rj = w.tables[j].write_tree(k, aux, buffer, &w.association.to_id, idv);
            proof {
                lemma_elements_step(k, *self, i as int, j + 1, mi);
                let step = write_run(
                    k,
                    w.tables@[j as int],
                    w.association.to_id@,
                    self.id_field.value,
                    prev.1,
                );
                assert(write_elements(k, *self, i as int, j + 1, mi) == match step.0 {
                    Err(e) => (Err(e), step.1),
                    Ok(b) => (Ok(prev.0->Ok_0 + b), step.1),
                });
            }
            if let Err(e) = rj {
                proof {
                    lemma_elements_err(k, *self, i as int, j + 1, nt as int, mi);
                    assert(write_elements(k, *self, i as int, nt as int, mi) == (
                        Err::<Seq<char>, Error>(e),
                        aux.view(),
                    ));
                }
                return Err(e);
            }
            j = j + 1;
            assert(buffer@ =~= old(buffer)@ + write_elements(k, *self, i as int, j as int, mi).0->Ok_0);
        }
        Ok(())
    }

    fn write_statements(&self, k: WriteKind, aux: &mut VisitedNodes, buffer: &mut String) -> (r:
        Result<(), Error>)
        requires
            old(aux).wf(),
        ensures
            final(aux).wf(),
            final(aux).view() == write_run(k, *self, Seq::empty(), None, old(aux).view()).1,
            match write_run(k, *self, Seq::empty(), None, old(aux).view()).0 {
                Ok(text) => r is Ok && final(buffer)@ == old(buffer)@ + text,
                Err(e) => r == Err::<(), Error>(e) && final(buffer)@ == old(buffer)@,
            },
    {
        let mut out = String::new();
        let no_link = String::new();
        let r = self.write_tree(k, aux, &mut out, &no_link, None);
        assert(no_link@ =~= Seq::<char>::empty());
        match r {
            Ok(()) => {
                buffer.append(out.as_str());
                assert(out@ =~= Seq::<char>::empty() + out@);
                Ok(())
            },
            Err(e) => Err(e),
        }
    }

    /// Appends the INSERT statements of the tree rooted at this node, parents before children,
    /// skipping nodes that `aux` has seen and nodes with nothing bound; see [`write_run`]. On
    /// a hash collision nothing is appended.
    pub fn write_insert(&self, aux: &mut VisitedNodes, buffer: &mut String) -> (r: Result<(), Error>)
        requires
            old(aux).wf(),
        ensures
            final(aux).wf(),
            final(aux).view() == write_run(
                WriteKind::Insert,
                *self,
                Seq::empty(),
                None,
                old(aux).view(),
            ).1,
            match write_run(WriteKind::Insert, *self, Seq::empty(), None, old(aux).view()).0 {
                Ok(text) => r is Ok && final(buffer)@ == old(buffer)@ + text,
                Err(e) => r == Err::<(), Error>(e) && final(buffer)@ == old(buffer)@,
            },
    {
        self.write_statements(WriteKind::Insert, aux, buffer)
    }

    /// Appends the UPDATE statements of the tree rooted at this node, parents before children,
    /// skipping nodes that `aux` has seen and nodes whose id is unbound; see [`write_run`]. On
    /// a hash collision nothing is appended.
    pub fn write_update(&self, aux: &mut VisitedNodes, buffer: &mut String) -> (r: Result<(), Error>)
        requires
            old(aux).wf(),
        ensures
            final(aux).wf(),
            final(aux).view() == write_run(
                WriteKind::Update,
                *self,
                Seq::empty(),
                None,
                old(aux).view(),
            ).1,
            match write_run(WriteKind::Update, *self, Seq::empty(), None, old(aux).view()).0 {
                Ok(text) => r is Ok && final(buffer)@ == old(buffer)@ + text,
                Err(e) => r == Err::<(), Error>(e) && final(buffer)@ == old(buffer)@,
            },
    {
        self.write_statements(WriteKind::Update, aux, buffer)
    }

    /// Appends the DELETE statements of the tree rooted at this node, children before parents,
    /// skipping nodes that `aux` has seen and nodes whose id is unbound; see [`write_run`]. On
    /// a hash collision nothing is appended.
    pub fn write_delete(&self, aux: &mut VisitedNodes, buffer: &mut String) -> (r: Result<(), Error>)
        requires
            old(aux).wf(),
        ensures
            final(aux).wf(),
            final(aux).view() == write_run(
                WriteKind::Delete,
                *self,
                Seq::empty(),
                None,
                old(aux).view(),
            ).1,
            match write_run(WriteKind::Delete, *self, Seq::empty(), None, old(aux).view()).0 {
                Ok(text) => r is Ok && final(buffer)@ == old(buffer)@ + text,
                Err(e) => r == Err::<(), Error>(e) && final(buffer)@ == old(buffer)@,
            },
    {
        self.write_statements(WriteKind::Delete, aux, buffer)
    }
}

} // verus!
