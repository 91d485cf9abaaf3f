use crate::error::Error;
use crate::rows::{
    collect_runs, fold_rest, group_at, group_rest, row_key, same_key, FromRowsSuffix, ParentEntity, Row,
};
use crate::table::{children_upto, instance_of, Table, TableDefs};
use crate::value::Value;
use crate::visited::{mark_outcome, node_hash};
use crate::write_stmt::{
    delete_stmt, update_stmt,    insert_stmt, insert_values_text, lemma_children_step, lemma_children_zero,
    lemma_elements_step, lemma_elements_zero, lemma_run_unfold, node_stmt, write_children,
    write_elements, write_run, WriteKind,
};
use vstd::prelude::*;

verus! {

broadcast use {vstd::std_specs::vec::axiom_vec_decreases_to_view, vstd::seq::axiom_seq_index_decreases};

/// The suffixes of the SELECT walk of the first `n` associations of `t`: each child's suffix,
/// then those of its own subtree.
pub open spec fn suffixes_upto(t: Table, n: int) -> Seq<u32>
    decreases t, n,
{
    if n <= 0 || n > t.associations@.len() {
        Seq::empty()
    } else {
        let g = t.associations@[n - 1].guide;
        suffixes_upto(t, n - 1) + seq![g.suffix] + suffixes_upto(g, g.associations@.len() as int)
    }
}

/// The suffix of every node of the tree rooted at `t`, in SELECT order: the root, then each
/// association's subtree in declaration order.
pub open spec fn suffixes(t: Table) -> Seq<u32> {
    seq![t.suffix] + suffixes_upto(t, t.associations@.len() as int)
}

/// The suffixes that instantiating the first `n` associations of `d` under a node with
/// suffix `s` hands out, in SELECT order.
pub open spec fn defs_suffixes_upto(d: TableDefs, s: int, n: int) -> Seq<u32>
    decreases d, n,
{
    if n <= 0 || n > d.associations@.len() {
        Seq::empty()
    } else {
        let c = d.associations@[n - 1].table;
        defs_suffixes_upto(d, s, n - 1) + seq![(s + n) as u32] + defs_suffixes_upto(
            c,
            s + n,
            c.associations@.len() as int,
        )
    }
}

proof fn lemma_suffixes_of_instance(t: Table, d: TableDefs, s: int, n: int)
    requires
        0 <= n <= d.associations@.len(),
        t.associations@.len() == d.associations@.len(),
        children_upto(t, d, s, n),
    ensures
        suffixes_upto(t, n) == defs_suffixes_upto(d, s, n),
    decreases d, n,
{
    if n > 0 {
        lemma_suffixes_of_instance(t, d, s, n - 1);
        let g = t.associations@[n - 1].guide;
        let c = d.associations@[n - 1].table;
        lemma_suffixes_of_instance(g, c, s + n, c.associations@.len() as int);
    }
}

/// Suffix assignment depends on the schema and the root suffix alone: two trees that
/// instantiate the same schema at the same suffix give every node the same suffix.
pub proof fn lemma_suffix_determinism(d: TableDefs, s: u32, t1: Table, t2: Table)
    requires
        instance_of(t1, d, s as int),
        instance_of(t2, d, s as int),
    ensures
        suffixes(t1) == suffixes(t2),
        suffixes(t1) == seq![s] + defs_suffixes_upto(d, s as int, d.associations@.len() as int),
{
    lemma_suffixes_of_instance(t1, d, s as int, d.associations@.len() as int);
    lemma_suffixes_of_instance(t2, d, s as int, d.associations@.len() as int);
}

/// A node whose id and columns are all unbound: no value to insert.
pub open spec fn unbound(t: Table) -> bool {
    &&& t.id_field.value is None
    &&& forall|i: int| 0 <= i < t.fields@.len() ==> (#[trigger] t.fields@[i]).value is None
}

proof fn lemma_values_unbound(t: Table, n: int)
    requires
        unbound(t),
        n <= t.fields@.len(),
    ensures
        insert_values_text(t, n).len() == 0,
    decreases n,
{
    if n > 0 {
        lemma_values_unbound(t, n - 1);
    }
}

/// Inserting a node whose id and columns are all unbound writes nothing, whatever its link
/// to a parent.
pub proof fn lemma_insert_unbound_is_empty(t: Table, lf: Seq<char>, lv: Option<Value>)
    requires
        unbound(t),
    ensures
        insert_stmt(t, lf, lv) == Seq::<char>::empty(),
{
    lemma_values_unbound(t, t.fields@.len() as int);
}

/// Every node of the tree rooted at `t` that a write visits is [`unbound`].
pub open spec fn tree_unbound(t: Table) -> bool
    decreases t, 2int, 0int, 0int,
{
    unbound(t) && children_unbound(t, t.associations@.len() as int)
}

/// The written nodes of the first `n` associations of `t` are [`tree_unbound`].
pub open spec fn children_unbound(t: Table, n: int) -> bool
    decreases t, 1int, n, 0int,
{
    if n <= 0 || n > t.associations@.len() {
        true
    } else {
        let w = t.associations@[n - 1];
        &&& children_unbound(t, n - 1)
        &&& if w.many {
            elements_unbound(t, n - 1, w.tables@.len() as int)
        } else {
            tree_unbound(w.guide)
        }
    }
}

/// The first `j` elements of the 1:N association `i` of `t` are [`tree_unbound`].
pub open spec fn elements_unbound(t: Table, i: int, j: int) -> bool
    decreases t, 0int, i, j,
{
    if i < 0 || i >= t.associations@.len() || j <= 0 || j > t.associations@[i].tables@.len() {
        true
    } else {
        elements_unbound(t, i, j - 1) && tree_unbound(t.associations@[i].tables@[j - 1])
    }
}

/// Inserting a tree whose every node has its id and columns unbound writes nothing.
pub proof fn lemma_insert_unbound_tree_is_empty(
    t: Table,
    lf: Seq<char>,
    lv: Option<Value>,
    m: Map<u64, String>,
)
    requires
        tree_unbound(t),
    ensures
        write_run(WriteKind::Insert, t, lf, lv, m).0 is Ok ==> write_run(
            WriteKind::Insert,
            t,
            lf,
            lv,
            m,
        ).0->Ok_0 == Seq::<char>::empty(),
    decreases t, 2int, 0int, 0int,
{
    lemma_run_unfold(WriteKind::Insert, t, lf, lv, m);
    lemma_insert_unbound_is_empty(t, lf, lv);
    let m1 = mark_outcome(m, node_hash(t), t.table_name).1;
    lemma_children_unbound_empty(t, t.associations@.len() as int, m1);
    let rc = write_children(WriteKind::Insert, t, t.associations@.len() as int, m1).0;
    if rc is Ok {
        assert(Seq::<char>::empty() + rc->Ok_0 =~= Seq::<char>::empty());
    }
}

proof fn lemma_children_unbound_empty(t: Table, n: int, m: Map<u64, String>)
    requires
        0 <= n <= t.associations@.len(),
        children_unbound(t, n),
    ensures
        write_children(WriteKind::Insert, t, n, m).0 is Ok ==> write_children(
            WriteKind::Insert,
            t,
            n,
            m,
        ).0->Ok_0 == Seq::<char>::empty(),
    decreases t, 1int, n, 0int,
{
    if n == 0 {
        lemma_children_zero(WriteKind::Insert, t, m);
    } else {
        lemma_children_step(WriteKind::Insert, t, n, m);
        lemma_children_unbound_empty(t, n - 1, m);
        let prev = write_children(WriteKind::Insert, t, n - 1, m);
        let w = t.associations@[n - 1];
        if w.many {
            lemma_elements_unbound_empty(t, n - 1, w.tables@.len() as int, prev.1);
        } else {
            lemma_insert_unbound_tree_is_empty(
                w.guide,
                w.association.to_id@,
                t.id_field.value,
                prev.1,
            );
        }
        assert(Seq::<char>::empty() + Seq::<char>::empty() =~= Seq::<char>::empty());
    }
}

proof fn lemma_elements_unbound_empty(t: Table, i: int, j: int, m: Map<u64, String>)
    requires
        0 <= i < t.associations@.len(),
        0 <= j <= t.associations@[i].tables@.len(),
        elements_unbound(t, i, j),
    ensures
        write_elements(WriteKind::Insert, t, i, j, m).0 is Ok ==> write_elements(
            WriteKind::Insert,
            t,
            i,
            j,
            m,
        ).0->Ok_0 == Seq::<char>::empty(),
    decreases t, 0int, i, j,
{
    if j == 0 {
        lemma_elements_zero(WriteKind::Insert, t, i, m);
    } else {
        lemma_elements_step(WriteKind::Insert, t, i, j, m);
        lemma_elements_unbound_empty(t, i, j - 1, m);
        let prev = write_elements(WriteKind::Insert, t, i, j - 1, m);
        let w = t.associations@[i];
        lemma_insert_unbound_tree_is_empty(
            w.tables@[j - 1],
            w.association.to_id@,
            t.id_field.value,
            prev.1,
        );
        assert(Seq::<char>::empty() + Seq::<char>::empty() =~= Seq::<char>::empty());
    }
}

/// A node whose id is unbound gets no UPDATE or DELETE statement of its own: when it is met
/// for the first time, what is written for it is exactly what is written for its subtrees.
pub proof fn lemma_unbound_id_writes_only_children(
    k: WriteKind,
    t: Table,
    lf: Seq<char>,
    lv: Option<Value>,
    m: Map<u64, String>,
)
    requires
        k != WriteKind::Insert,
        t.id_field.value is None,
        !m.contains_key(node_hash(t)),
    ensures
        update_stmt(t) == Seq::<char>::empty(),
        delete_stmt(t) == Seq::<char>::empty(),
        node_stmt(k, t, lf, lv) == Seq::<char>::empty(),
        write_run(k, t, lf, lv, m) == write_children(
            k,
            t,
            t.associations@.len() as int,
            m.insert(node_hash(t), t.table_name),
        ),
{
    lemma_run_unfold(k, t, lf, lv, m);
    let m1 = m.insert(node_hash(t), t.table_name);
    let (rc, m2) = write_children(k, t, t.associations@.len() as int, m1);
    match rc {
        Ok(c) => {
            assert(c + Seq::<char>::empty() =~= c);
            assert(Seq::<char>::empty() + c =~= c);
        },
        Err(_) => {},
    }
}

/// A node whose identity hash is already recorded under another table name makes the write
/// fail with a hash collision naming both tables, never merge silently.
pub proof fn lemma_collision_fails(
    k: WriteKind,
    t: Table,
    lf: Seq<char>,
    lv: Option<Value>,
    m: Map<u64, String>,
)
    requires
        m.contains_key(node_hash(t)),
        m[node_hash(t)]@ != t.table_name@,
    ensures
        write_run(k, t, lf, lv, m) == (
            Err::<Seq<char>, Error>(
                Error::HashCollision(node_hash(t), m[node_hash(t)], t.table_name),
            ),
            m,
        ),
{
    lemma_run_unfold(k, t, lf, lv, m);
}

/// A node already recorded under its own table name is skipped with its whole subtree.
pub proof fn lemma_visited_is_skipped(
    k: WriteKind,
    t: Table,
    lf: Seq<char>,
    lv: Option<Value>,
    m: Map<u64, String>,
)
    requires
        m.contains_key(node_hash(t)),
        m[node_hash(t)]@ == t.table_name@,
    ensures
        write_run(k, t, lf, lv, m) == (Ok::<Seq<char>, Error>(Seq::empty()), m),
{
    lemma_run_unfold(k, t, lf, lv, m);
}

proof fn lemma_group_rest_run<R: FromRowsSuffix>(
    t: Table,
    related: Table,
    rows: Seq<Row>,
    k: Option<Value>,
    at: int,
    end: int,
)
    requires
        0 <= at <= end <= rows.len(),
        forall|i: int| at <= i < end ==> #[trigger] R::rows_consumed(related, rows, i) == Ok::<usize, Error>(1),
        forall|i: int|
            at <= i < end ==> (#[trigger] row_key(t, rows[i])) is Ok && same_key(
                row_key(t, rows[i])->Ok_0,
                k,
            ),
        end < rows.len() ==> (row_key(t, rows[end]) is Ok && !same_key(
            row_key(t, rows[end])->Ok_0,
            k,
        )),
    ensures
        group_rest::<R>(t, related, rows, k, at) == Ok::<(int, Seq<int>), Error>(
            (end, Seq::new((end - at) as nat, |i: int| at + i)),
        ),
    decreases end - at,
{
    if at < end {
        assert(R::rows_consumed(related, rows, at) == Ok::<usize, Error>(1));
        assert(row_key(t, rows[at]) is Ok);
        lemma_group_rest_run::<R>(t, related, rows, k, at + 1, end);
        assert(seq![at] + Seq::new((end - (at + 1)) as nat, |i: int| at + 1 + i) =~= Seq::new(
            (end - at) as nat,
            |i: int| at + i,
        ));
    } else {
        assert(Seq::new((end - at) as nat, |i: int| at + i) =~= Seq::<int>::empty());
    }
}

/// Rows form one group exactly as long as they share the key of the first: when each entity
/// spans one row, the group at `start` consumes every row of the run of rows whose key equals
/// that of row `start`, and builds one entity at each of them.
pub proof fn lemma_group_spans_key_run<R: FromRowsSuffix>(
    t: Table,
    related: Table,
    rows: Seq<Row>,
    start: int,
    end: int,
)
    requires
        0 <= start < end <= rows.len(),
        forall|i: int| start <= i < end ==> #[trigger] R::rows_consumed(related, rows, i) == Ok::<usize, Error>(1),
        row_key(t, rows[start]) is Ok,
        forall|i: int|
            start <= i < end ==> (#[trigger] row_key(t, rows[i])) is Ok && same_key(
                row_key(t, rows[i])->Ok_0,
                row_key(t, rows[start])->Ok_0,
            ),
        end < rows.len() ==> (row_key(t, rows[end]) is Ok && !same_key(
            row_key(t, rows[end])->Ok_0,
            row_key(t, rows[start])->Ok_0,
        )),
    ensures
        group_at::<R>(t, related, rows, start) == Ok::<(int, Seq<int>), Error>(
            (end - start, Seq::new((end - start) as nat, |i: int| start + i)),
        ),
{
    let k = row_key(t, rows[start])->Ok_0;
    assert(R::rows_consumed(related, rows, start) == Ok::<usize, Error>(1));
    lemma_group_rest_run::<R>(t, related, rows, k, start + 1, end);
    assert(seq![start] + Seq::new((end - (start + 1)) as nat, |i: int| start + 1 + i) =~= Seq::new(
        (end - start) as nat,
        |i: int| start + i,
    ));
}

/// Two rows of a parent with a 1:N association that share the parent's key make one parent:
/// collecting them builds a single [`ParentEntity`], at the first row, with nothing left to
/// fold, that consumes both rows and whose children are the two child entities built at rows
/// 0 and 1.
pub proof fn lemma_collection_folds_children<C: FromRowsSuffix>(t: Table, rows: Seq<Row>, k: Value)
    requires
        rows.len() == 2,
        t.associations@.len() > 0,
        row_key(t, rows[0]) == Ok::<Option<Value>, Error>(Some(k)),
        row_key(t, rows[1]) is Ok,
        same_key(row_key(t, rows[1])->Ok_0, Some(k)),
        C::rows_consumed(t.associations@[0].guide, rows, 0) == Ok::<usize, Error>(1),
        C::rows_consumed(t.associations@[0].guide, rows, 1) == Ok::<usize, Error>(1),
    ensures
        group_at::<C>(t, t.associations@[0].guide, rows, 0) == Ok::<(int, Seq<int>), Error>(
            (2, seq![0int, 1int]),
        ),
        ParentEntity::<C>::rows_consumed(t, rows, 0) == Ok::<usize, Error>(2),
        collect_runs::<ParentEntity<C>>(t, rows, 0) == Ok::<Seq<(int, Seq<int>)>, Error>(
            seq![(0int, Seq::<int>::empty())],
        ),
{
    let g = t.associations@[0].guide;
    assert(same_key(Some(k), Some(k)));
    lemma_group_spans_key_run::<C>(t, g, rows, 0, 2);
    assert(Seq::new(2nat, |i: int| 0 + i) =~= seq![0int, 1int]);
    assert(fold_rest::<ParentEntity<C>>(t, rows, Some(k), 2) == Ok::<(int, Seq<int>), Error>(
        (2, Seq::empty()),
    ));
    assert(collect_runs::<ParentEntity<C>>(t, rows, 2) == Ok::<Seq<(int, Seq<int>)>, Error>(
        Seq::empty(),
    ));
    assert(seq![(0int, Seq::<int>::empty())] + Seq::<(int, Seq<int>)>::empty() =~= seq![
        (0int, Seq::<int>::empty()),
    ]);
}

proof fn lemma_fold_rest_ends<R: FromRowsSuffix>(t: Table, rows: Seq<Row>, k: Option<Value>, at: int)
    requires
        0 <= at,
        forall|i: int|
            at <= i < rows.len() && (#[trigger] R::fold_consumed(t, rows, i)) is Ok ==> 1
                <= R::fold_consumed(t, rows, i)->Ok_0 <= rows.len() - i,
    ensures
        fold_rest::<R>(t, rows, k, at) matches Ok((end, _)) ==> {
            &&& at <= end
            &&& (at < rows.len() ==> end <= rows.len())
            &&& (end < rows.len() ==> row_key(t, rows[end]) is Ok && !same_key(
                row_key(t, rows[end])->Ok_0,
                k,
            ))
        },
    decreases rows.len() - at,
{
    if at < rows.len() {
        if let Ok(c) = row_key(t, rows[at]) {
            if same_key(c, k) {
                if let Ok(n) = R::fold_consumed(t, rows, at) {
                    lemma_fold_rest_ends::<R>(t, rows, k, at + n);
                }
            }
        }
    }
}

/// When every row builds an entity and every builder stays within the rows, two entities that
/// collecting puts next to each other come from rows with different keys of `t`: each run of
/// rows with one key gives exactly one entity.
pub proof fn lemma_adjacent_entities_differ<R: FromRowsSuffix>(t: Table, rows: Seq<Row>, at: int)
    requires
        0 <= at <= rows.len(),
        forall|i: int|
            at <= i < rows.len() ==> (#[trigger] R::rows_consumed(t, rows, i)) is Ok && 1
                <= R::rows_consumed(t, rows, i)->Ok_0 <= rows.len() - i,
        forall|i: int|
            at <= i < rows.len() && (#[trigger] R::fold_consumed(t, rows, i)) is Ok ==> 1
                <= R::fold_consumed(t, rows, i)->Ok_0 <= rows.len() - i,
    ensures
        collect_runs::<R>(t, rows, at) matches Ok(runs) ==> (runs.len() > 0 ==> runs[0].0 == at)
            && forall|j: int|
            0 <= j < runs.len() - 1 ==> {
                &&& row_key(t, rows[(#[trigger] runs[j]).0]) is Ok
                &&& row_key(t, rows[runs[j + 1].0]) is Ok
                &&& !same_key(
                    row_key(t, rows[runs[j + 1].0])->Ok_0,
                    row_key(t, rows[runs[j].0])->Ok_0,
                )
            },
    decreases rows.len() - at,
{
    if at < rows.len() {
        let n = R::rows_consumed(t, rows, at)->Ok_0;
        if let Ok(k) = row_key(t, rows[at]) {
            lemma_fold_rest_ends::<R>(t, rows, k, at + n);
            if let Ok((end, folds)) = fold_rest::<R>(t, rows, k, at + n) {
                if at < end <= rows.len() {
                    lemma_adjacent_entities_differ::<R>(t, rows, end);
                    if let Ok(rest) = collect_runs::<R>(t, rows, end) {
                        let runs = seq![(at, folds)] + rest;
                        assert forall|j: int| 0 <= j < runs.len() - 1 implies {
                            &&& row_key(t, rows[(#[trigger] runs[j]).0]) is Ok
                            &&& row_key(t, rows[runs[j + 1].0]) is Ok
                            &&& !same_key(
                                row_key(t, rows[runs[j + 1].0])->Ok_0,
                                row_key(t, rows[runs[j].0])->Ok_0,
                            )
                        } by {
                            if j > 0 {
                                assert(runs[j] == rest[j - 1] && runs[j + 1] == rest[j]);
                            } else {
                                assert(runs[1] == rest[0]);
                            }
                        }
                    }
                }
            }
        }
    }
}

} // verus!
