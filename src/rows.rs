use crate::error::Error;
use crate::field::Field;
use crate::table::Table;
use crate::value::Value;
use crate::write_select::{column_alias, write_column_alias};
use vstd::prelude::*;

verus! {

/// One row of a joined result set: its cells, named by column alias.
pub struct Row {
    pub columns: Vec<Field>,
}

/// Index of the first of the first `n` cells named `name`.
pub open spec fn find_column(cols: Seq<Field>, name: Seq<char>, n: int) -> Option<int>
    decreases n,
{
    if n <= 0 || n > cols.len() {
        None
    } else {
        match find_column(cols, name, n - 1) {
            Some(i) => Some(i),
            None => if cols[n - 1].name@ == name {
                Some(n - 1)
            } else {
                None
            },
        }
    }
}

/// The value of the cell named `name` in `row`; an error when no cell has that name.
pub open spec fn cell_value(row: Row, name: Seq<char>) -> Result<Option<Value>, Error> {
    match find_column(row.columns@, name, row.columns@.len() as int) {
        Some(i) => Ok(row.columns@[i].value),
        None => Err(Error::ColumnNotFound),
    }
}

/// Two values are the same SQL value: same kind and same contents.
pub open spec fn same_value(a: Value, b: Value) -> bool {
    match (a, b) {
        (Value::Null, Value::Null) => true,
        (Value::Text(x), Value::Text(y)) => x@ == y@,
        (Value::Int(x), Value::Int(y)) => x == y,
        (Value::UInt(x), Value::UInt(y)) => x == y,
        (Value::Bool(x), Value::Bool(y)) => x == y,
        (Value::Decimal(x), Value::Decimal(y)) => x.spec_mantissa() == y.spec_mantissa()
            && x.spec_scale() == y.spec_scale(),
        _ => false,
    }
}

/// Two cells hold the same key: both NULL, or the same value.
pub open spec fn same_key(a: Option<Value>, b: Option<Value>) -> bool {
    match (a, b) {
        (None, None) => true,
        (Some(x), Some(y)) => same_value(x, y),
        _ => false,
    }
}

/// The key of `t` in `row`: the cell under `t`'s primary key column alias.
pub open spec fn row_key(t: Table, row: Row) -> Result<Option<Value>, Error> {
    cell_value(row, column_alias(t, t.id_field.name@))
}

impl Row {
    /// The value of the cell named `name`, see [`cell_value`].
    pub fn get(&self, name: &String) -> (r: Result<&Option<Value>, Error>)
        ensures
            match cell_value(*self, name@) {
                Ok(v) => r matches Ok(x) && *x == v,
                Err(e) => r matches Err(x) && x == e,
            },
    {
        let n = self.columns.len();
        let mut i: usize = 0;
        while i < n
            invariant
                n == self.columns@.len(),
                i <= n,
                find_column(self.columns@, name@, i as int) is None,
            decreases n - i,
        {
            if self.columns[i].name == *name {
                proof {
                    lemma_find_some(self.columns@, name@, i as int, n as int);
                }
                return Ok(&self.columns[i].value);
            }
            i = i + 1;
        }
        Err(Error::ColumnNotFound)
    }
}

proof fn lemma_find_some(cols: Seq<Field>, name: Seq<char>, i: int, n: int)
    requires
        0 <= i < n <= cols.len(),
        find_column(cols, name, i + 1) == Some(i),
    ensures
        find_column(cols, name, n) == Some(i),
    decreases n - i,
{
    if n > i + 1 {
        lemma_find_some(cols, name, i, n - 1);
    }
}

/// Whether `a` and `b` are the same SQL value, see [`same_value`].
pub fn values_match(a: &Value, b: &Value) -> (r: bool)
    ensures
        r == same_value(*a, *b),
{
    match (a, b) {
        (Value::Null, Value::Null) => true,
        (Value::Text(x), Value::Text(y)) => *x == *y,
        (Value::Int(x), Value::Int(y)) => *x == *y,
        (Value::UInt(x), Value::UInt(y)) => *x == *y,
        (Value::Bool(x), Value::Bool(y)) => *x == *y,
        (Value::Decimal(x), Value::Decimal(y)) => x.mantissa() == y.mantissa() && x.scale()
            == y.scale(),
        _ => false,
    }
}

/// Whether `a` and `b` hold the same key, see [`same_key`].
pub fn keys_match(a: &Option<Value>, b: &Option<Value>) -> (r: bool)
    ensures
        r == same_key(*a, *b),
{
    match (a, b) {
        (None, None) => true,
        (Some(x), Some(y)) => values_match(x, y),
        _ => false,
    }
}

impl Table {
    /// The key of this node in `row`, see [`row_key`].
    pub fn row_key<'a>(&self, row: &'a Row) -> (r: Result<&'a Option<Value>, Error>)
        ensures
            match row_key(*self, *row) {
                Ok(v) => r matches Ok(x) && *x == v,
                Err(e) => r matches Err(x) && x == e,
            },
    {
        let mut alias = String::new();
        write_column_alias(&mut alias, self, &self.id_field.name);
        assert(alias@ =~= column_alias(*self, self.id_field.name@));
        row.get(&alias)
    }
}

/// An entity that can be built from the rows of a SELECT over its table tree.
pub trait FromRowsSuffix: Sized {
    /// How many rows building one entity of the tree `table` from `rows` at `start` consumes,
    /// or the error it ends with; [`Error::AbsentAssociation`] when the row holds no joined row
    /// for the entity.
    spec fn rows_consumed(table: Table, rows: Seq<Row>, start: int) -> Result<usize, Error>;

    /// What holds of an entity built from `rows` at `start`.
    spec fn built_from(table: Table, rows: Seq<Row>, start: int, entity: Self) -> bool;

    /// Builds one entity of the tree `table` from `rows` at `start`, returning it with the
    /// number of rows it spans.
    fn from_rows_suffix(table: &Table, rows: &[Row], start: usize) -> (r: Result<(usize, Self), Error>)
        requires
            start < rows@.len(),
        ensures
            match Self::rows_consumed(*table, rows@, start as int) {
                Ok(n) => r matches Ok((m, e)) && m == n && 1 <= n <= rows@.len() - start
                    && Self::built_from(*table, rows@, start as int, e),
                Err(e) => r matches Err(x) && x == e,
            },
    ;

    /// How many rows folding the continuation rows of an entity of the tree `table` at
    /// `start` into it consumes, or the error it ends with.
    spec fn fold_consumed(table: Table, rows: Seq<Row>, start: int) -> Result<usize, Error>;

    /// What folding the continuation rows at `start` into `before` makes of it.
    spec fn folded(table: Table, rows: Seq<Row>, start: int, before: Self, after: Self) -> bool;

    /// Folds into this entity what the rows of `rows` from `start` on, which continue it (same
    /// root key), add to it; returns the number of rows consumed.
    fn fold_rows(&mut self, table: &Table, rows: &[Row], start: usize) -> (r: Result<usize, Error>)
        requires
            start < rows@.len(),
        ensures
            match Self::fold_consumed(*table, rows@, start as int) {
                Ok(n) => r matches Ok(m) && m == n && 1 <= n <= rows@.len() - start
                    && Self::folded(*table, rows@, start as int, *old(self), *final(self)),
                Err(e) => r matches Err(x) && x == e,
            },
    ;
}

/// An entity without columns: one per run of rows with the same key.
pub struct NoTableEntity {}

impl NoTableEntity {
    /// Creates a new instance.
    pub fn new() -> (r: NoTableEntity) {
        NoTableEntity {  }
    }
}

impl FromRowsSuffix for NoTableEntity {
    open spec fn rows_consumed(table: Table, rows: Seq<Row>, start: int) -> Result<usize, Error> {
        Ok(1)
    }

    open spec fn built_from(table: Table, rows: Seq<Row>, start: int, entity: Self) -> bool {
        true
    }

    fn from_rows_suffix(table: &Table, rows: &[Row], start: usize) -> (r: Result<(usize, Self), Error>) {
        Ok((1, NoTableEntity::new()))
    }

    open spec fn fold_consumed(table: Table, rows: Seq<Row>, start: int) -> Result<usize, Error> {
        Ok(1)
    }

    open spec fn folded(table: Table, rows: Seq<Row>, start: int, before: Self, after: Self) -> bool {
        true
    }

    fn fold_rows(&mut self, table: &Table, rows: &[Row], start: usize) -> (r: Result<usize, Error>) {
        Ok(1)
    }
}

/// Continuing a group whose key is `prev` at row `at`: while the key of `t` in the row at
/// the cursor is `prev`, an entity of `R` is built there and the cursor moves past its rows.
/// The end of the group and the row of each entity built, or the error met.
pub open spec fn group_rest<R: FromRowsSuffix>(
    t: Table,
    related: Table,
    rows: Seq<Row>,
    prev: Option<Value>,
    at: int,
) -> Result<(int, Seq<int>), Error>
    decreases rows.len() - at,
{
    if at < 0 || at >= rows.len() {
        Ok((at, Seq::empty()))
    } else {
        match row_key(t, rows[at]) {
            Err(e) => Err(e),
            Ok(cand) => if !same_key(cand, prev) {
                Ok((at, Seq::empty()))
            } else {
                match R::rows_consumed(related, rows, at) {
                    Err(e) => Err(e),
                    Ok(n) => if n == 0 || at + n > rows.len() {
                        Ok((at, Seq::empty()))
                    } else {
                        match group_rest::<R>(t, related, rows, prev, at + n) {
                            Err(e) => Err(e),
                            Ok((end, starts)) => Ok((end, seq![at] + starts)),
                        }
                    },
                }
            },
        }
    }
}

/// The group of rows that starts at `start`: an entity of `R` built at `start` with the
/// tree `related`, then [`group_rest`] with the key of `t` in that row. When nothing can be
/// built at `start` because the row holds no joined row for it, that single row is skipped;
/// any other error ends the grouping. The rows consumed and the row of each
/// entity built, or the error met.
pub open spec fn group_at<R: FromRowsSuffix>(
    t: Table,
    related: Table,
    rows: Seq<Row>,
    start: int,
) -> Result<(int, Seq<int>), Error> {
    if start < 0 || start >= rows.len() {
        Ok((0, Seq::empty()))
    } else {
        match R::rows_consumed(related, rows, start) {
            Err(e) => if e is AbsentAssociation {
                Ok((1, Seq::empty()))
            } else {
                Err(e)
            },
            Ok(n) => match row_key(t, rows[start]) {
                Err(e) => Err(e),
                Ok(prev) => match group_rest::<R>(t, related, rows, prev, start + n) {
                    Err(e) => Err(e),
                    Ok((end, starts)) => Ok((end - start, seq![start] + starts)),
                },
            },
        }
    }
}

/// Groups the rows of `rows` from `start` whose key of `t` is that of the row at `start`, and
/// builds an entity of `R` with the tree `related` at the beginning of each; see [`group_at`].
/// Returns the rows consumed and the entities.
pub fn seek_related_entities<R: FromRowsSuffix>(
    rows: &[Row],
    start: usize,
    t: &Table,
    related: &Table,
) -> (r: Result<(usize, Vec<R>), Error>)
    ensures
        match group_at::<R>(*t, *related, rows@, start as int) {
            Ok((n, starts)) => r matches Ok((m, es)) && m == n && es@.len() == starts.len() && (
            forall|i: int|
                0 <= i < starts.len() ==> R::built_from(*related, rows@, #[trigger] starts[i], es@[i])),
            Err(e) => r matches Err(x) && x == e,
        },
        r matches Ok((m, _)) ==> start < rows@.len() ==> 1 <= m <= rows@.len() - start,
{
    let mut es: Vec<R> = Vec::new();
    if start >= rows.len() {
        return Ok((0, es));
    }
    let (first_n, first) = match R::from_rows_suffix(related, rows, start) {
        Ok(x) => x,
        Err(Error::AbsentAssociation) => return Ok((1, es)),
        Err(e) => return Err(e),
    };
    let prev = match t.row_key(&rows[start]) {
        Ok(k) => k,
        Err(e) => return Err(e),
    };
    es.push(first);
    let mut at: usize = start + first_n;
    let ghost starts: Seq<int> = seq![start as int];
    while at < rows.len()
        invariant
            start < at <= rows@.len(),
            R::rows_consumed(*related, rows@, start as int) is Ok,
            row_key(*t, rows@[start as int]) == Ok::<Option<Value>, Error>(*prev),
            es@.len() == starts.len(),
            starts.len() >= 1,
            starts[0] == start,
            forall|i: int|
                0 <= i < starts.len() ==> R::built_from(*related, rows@, #[trigger] starts[i], es@[i]),
            group_rest::<R>(
                *t,
                *related,
                rows@,
                *prev,
                start + R::rows_consumed(*related, rows@, start as int)->Ok_0,
            ) == match group_rest::<R>(*t, *related, rows@, *prev, at as int) {
                Err(e) => Err(e),
                Ok((end, rest)) => Ok((end, starts.drop_first() + rest)),
            },
        ensures
            group_rest::<R>(*t, *related, rows@, *prev, at as int) == Ok::<(int, Seq<int>), Error>(
                (at as int, Seq::empty()),
            ),
        decreases rows@.len() - at,
    {
        let cand = match t.row_key(&rows[at]) {
            Ok(k) => k,
            Err(e) => return Err(e),
        };
        if !keys_match(cand, prev) {
            break;
        }
        let (n, e) = match R::from_rows_suffix(related, rows, at) {
            Ok(x) => x,
            Err(e) => return Err(e),
        };
        es.push(e);
        proof {
            assert(starts.push(at as int).drop_first() =~= starts.drop_first().push(at as int));
            assert(forall|rest: Seq<int>| #[trigger] (starts.drop_first() + (seq![at as int] + rest))
                =~= starts.push(at as int).drop_first() + rest);
            starts = starts.push(at as int);
        }
        at = at + n;
    }
    proof {
        assert(starts =~= seq![start as int] + starts.drop_first());
    }
    Ok((at - start, es))
}

/// Continuing the entity of key `prev` at row `at`: while the key of `t` in the row at the
/// cursor is `prev`, the rows there are folded into the entity and the cursor moves past the
/// rows folded. The end of the run and the rows where folds happened, or the error met.
pub open spec fn fold_rest<R: FromRowsSuffix>(
    t: Table,
    rows: Seq<Row>,
    prev: Option<Value>,
    at: int,
) -> Result<(int, Seq<int>), Error>
    decreases rows.len() - at,
{
    if at < 0 || at >= rows.len() {
        Ok((at, Seq::empty()))
    } else {
        match row_key(t, rows[at]) {
            Err(e) => Err(e),
            Ok(cand) => if !same_key(cand, prev) {
                Ok((at, Seq::empty()))
            } else {
                match R::fold_consumed(t, rows, at) {
                    Err(e) => Err(e),
                    Ok(n) => if n == 0 || at + n > rows.len() {
                        Ok((at, Seq::empty()))
                    } else {
                        match fold_rest::<R>(t, rows, prev, at + n) {
                            Err(e) => Err(e),
                            Ok((end, folds)) => Ok((end, seq![at] + folds)),
                        }
                    },
                }
            },
        }
    }
}

/// Every top-level entity of the rows from `at` on, one per run of rows with the same key of
/// `t`: built at the run's first row, then the rest of the run folded into it
/// ([`fold_rest`]). A row that holds no joined row for the entity is skipped; any other error
/// ends the collection. The first row and the fold rows of each entity, or the error met.
pub open spec fn collect_runs<R: FromRowsSuffix>(t: Table, rows: Seq<Row>, at: int) -> Result<
    Seq<(int, Seq<int>)>,
    Error,
>
    decreases rows.len() - at,
{
    if at < 0 || at >= rows.len() {
        Ok(Seq::empty())
    } else {
        match R::rows_consumed(t, rows, at) {
            Err(e) => if e is AbsentAssociation {
                collect_runs::<R>(t, rows, at + 1)
            } else {
                Err(e)
            },
            Ok(n) => if n == 0 || at + n > rows.len() {
                Ok(Seq::empty())
            } else {
                match row_key(t, rows[at]) {
                    Err(e) => Err(e),
                    Ok(k) => match fold_rest::<R>(t, rows, k, at + n) {
                        Err(e) => Err(e),
                        Ok((end, folds)) => if end <= at || end > rows.len() {
                            Ok(Seq::empty())
                        } else {
                            match collect_runs::<R>(t, rows, end) {
                                Err(e) => Err(e),
                                Ok(rest) => Ok(seq![(at, folds)] + rest),
                            }
                        },
                    },
                }
            },
        }
    }
}

/// `chain` is the history of `e`: built at `start`, then folded at each row of `folds`.
pub open spec fn fold_chain<R: FromRowsSuffix>(
    t: Table,
    rows: Seq<Row>,
    start: int,
    folds: Seq<int>,
    chain: Seq<R>,
    e: R,
) -> bool {
    &&& chain.len() == folds.len() + 1
    &&& R::built_from(t, rows, start, chain[0])
    &&& forall|j: int|
        0 <= j < folds.len() ==> R::folded(t, rows, #[trigger] folds[j], chain[j], chain[j + 1])
    &&& chain.last() == e
}

/// `e` was built at `start` and then folded at each row of `folds`, in order.
pub open spec fn assembled<R: FromRowsSuffix>(
    t: Table,
    rows: Seq<Row>,
    start: int,
    folds: Seq<int>,
    e: R,
) -> bool {
    exists|chain: Seq<R>| #[trigger] fold_chain(t, rows, start, folds, chain, e)
}

/// Builds every top-level entity of the rows of a SELECT over the tree `t`: one per run of
/// consecutive rows with the same key of `t`, the run's later rows folded into it. See
/// [`collect_runs`].
pub fn collect_entities_tables<R: FromRowsSuffix>(rows: &[Row], t: &Table) -> (r: Result<
    Vec<R>,
    Error,
>)
    ensures
        match collect_runs::<R>(*t, rows@, 0) {
            Ok(runs) => r matches Ok(es) && es@.len() == runs.len() && (forall|i: int|
                0 <= i < runs.len() ==> assembled(
                    *t,
                    rows@,
                    (#[trigger] runs[i]).0,
                    runs[i].1,
                    es@[i],
                )),
            Err(e) => r matches Err(x) && x == e,
        },
{
    let mut out: Vec<R> = Vec::new();
    let mut at: usize = 0;
    let ghost runs: Seq<(int, Seq<int>)> = Seq::empty();
    while at < rows.len()
        invariant
            at <= rows@.len(),
            out@.len() == runs.len(),
            forall|i: int|
                0 <= i < runs.len() ==> assembled(
                    *t,
                    rows@,
                    (#[trigger] runs[i]).0,
                    runs[i].1,
                    out@[i],
                ),
            collect_runs::<R>(*t, rows@, 0) == match collect_runs::<R>(*t, rows@, at as int) {
                Err(e) => Err(e),
                Ok(rest) => Ok(runs + rest),
            },
        decreases rows@.len() - at,
    {
        let (n, mut e) = match R::from_rows_suffix(t, rows, at) {
            Ok(x) => x,
            Err(Error::AbsentAssociation) => {
                at = at + 1;
                continue;
            },
            Err(err) => return Err(err),
        };
        let prev = match t.row_key(&rows[at]) {
            Ok(k) => k,
            Err(err) => return Err(err),
        };
        let start = at;
        at = at + n;
        let ghost chain: Seq<R> = seq![e];
        let ghost folds: Seq<int> = Seq::empty();
        while at < rows.len()
            invariant
                start < at <= rows@.len(),
                1 <= n,
                start + n <= rows@.len(),
                collect_runs::<R>(*t, rows@, 0) == match collect_runs::<R>(
                    *t,
                    rows@,
                    start as int,
                ) {
                    Err(e) => Err(e),
                    Ok(rest) => Ok(runs + rest),
                },
                R::rows_consumed(*t, rows@, start as int) == Ok::<usize, Error>(n),
                row_key(*t, rows@[start as int]) == Ok::<Option<Value>, Error>(*prev),
                fold_chain(*t, rows@, start as int, folds, chain, e),
                fold_rest::<R>(*t, rows@, *prev, start + n) == match fold_rest::<R>(
                    *t,
                    rows@,
                    *prev,
                    at as int,
                ) {
                    Err(e) => Err(e),
                    Ok((end, rest)) => Ok((end, folds + rest)),
                },
            ensures
                fold_rest::<R>(*t, rows@, *prev, at as int) == Ok::<(int, Seq<int>), Error>(
                    (at as int, Seq::empty()),
                ),
            decreases rows@.len() - at,
        {
            let cand = match t.row_key(&rows[at]) {
                Ok(k) => k,
                Err(err) => return Err(err),
            };
            if !keys_match(cand, prev) {
                break;
            }
            let ghost before = e;
            let m = match e.fold_rows(t, rows, at) {
                Ok(m) => m,
                Err(err) => return Err(err),
            };
            proof {
                assert(folds.push(at as int) + Seq::<int>::empty() =~= folds.push(at as int));
                assert(forall|rest: Seq<int>| #[trigger] (folds + (seq![at as int] + rest))
                    =~= folds.push(at as int) + rest);
                let c2 = chain.push(e);
                let f2 = folds.push(at as int);
                assert forall|j: int| 0 <= j < f2.len() implies R::folded(
                    *t,
                    rows@,
                    #[trigger] f2[j],
                    c2[j],
                    c2[j + 1],
                ) by {
                    if j < folds.len() {
                        assert(f2[j] == folds[j] && c2[j] == chain[j] && c2[j + 1] == chain[j + 1]);
                    } else {
                        assert(c2[j] == chain.last() && c2[j + 1] == e);
                    }
                }
                chain = c2;
                folds = f2;
            }
            at = at + m;
        }
        proof {
            assert(fold_chain(*t, rows@, start as int, folds, chain, e));
            let rs = runs.push((start as int, folds));
            assert forall|i: int| 0 <= i < rs.len() implies assembled(
                *t,
                rows@,
                (#[trigger] rs[i]).0,
                rs[i].1,
                out@.push(e)[i],
            ) by {
                if i < runs.len() {
                    assert(rs[i] == runs[i]);
                }
            }
            assert(forall|rest: Seq<(int, Seq<int>)>| #[trigger] (runs + (seq![(start as int, folds)]
                + rest)) =~= rs + rest);
            runs = rs;
        }
        out.push(e);
    }
    Ok(out)
}

/// The entity of a read by id: built from the first row, or [`Error::NoDatabaseRowResult`]
/// when there is none.
pub fn entity_from_first_row<R: FromRowsSuffix>(rows: &[Row], t: &Table) -> (r: Result<R, Error>)
    ensures
        rows@.len() == 0 ==> (r matches Err(e) && e is NoDatabaseRowResult),
        rows@.len() > 0 ==> (match R::rows_consumed(*t, rows@, 0) {
            Ok(_) => r matches Ok(e) && R::built_from(*t, rows@, 0, e),
            Err(e) => r matches Err(x) && x == e,
        }),
{
    if rows.len() == 0 {
        return Err(Error::NoDatabaseRowResult);
    }
    match R::from_rows_suffix(t, rows, 0) {
        Ok((_, e)) => Ok(e),
        Err(e) => Err(e),
    }
}

/// An entity with one 1:N association, the first of its table: the key of its row and the
/// child entities of the rows that share that key.
pub struct ParentEntity<C> {
    pub id: Value,
    pub children: Vec<C>,
}

impl<C: FromRowsSuffix> FromRowsSuffix for ParentEntity<C> {
    /// A NULL key means no joined row; otherwise the rows consumed are those of the group of
    /// children at `start` ([`group_at`]), or one row for a table without association.
    open spec fn rows_consumed(table: Table, rows: Seq<Row>, start: int) -> Result<usize, Error> {
        if start < 0 || start >= rows.len() {
            Err(Error::NoDatabaseRowResult)
        } else {
            match row_key(table, rows[start]) {
                Err(e) => Err(e),
                Ok(None) => Err(Error::AbsentAssociation),
                Ok(Some(_)) => if table.associations@.len() == 0 {
                    Ok(1)
                } else {
                    match group_at::<C>(table, table.associations@[0].guide, rows, start) {
                        Err(e) => Err(e),
                        Ok((n, _)) => Ok(n as usize),
                    }
                },
            }
        }
    }

    /// The id is the key of the row at `start`, and the children are the entities built at the
    /// rows of the group of children at `start`, in order.
    open spec fn built_from(table: Table, rows: Seq<Row>, start: int, entity: Self) -> bool {
        &&& 0 <= start < rows.len()
        &&& row_key(table, rows[start]) == Ok::<Option<Value>, Error>(Some(entity.id))
        &&& table.associations@.len() == 0 ==> entity.children@.len() == 0
        &&& table.associations@.len() > 0 ==> match group_at::<C>(
            table,
            table.associations@[0].guide,
            rows,
            start,
        ) {
            Ok((_, starts)) => entity.children@.len() == starts.len() && forall|i: int|
                0 <= i < starts.len() ==> C::built_from(
                    table.associations@[0].guide,
                    rows,
                    #[trigger] starts[i],
                    entity.children@[i],
                ),
            Err(_) => false,
        }
    }

    fn from_rows_suffix(table: &Table, rows: &[Row], start: usize) -> (r: Result<(usize, Self), Error>) {
        let id = match table.row_key(&rows[start]) {
            Err(e) => return Err(e),
            Ok(None) => return Err(Error::AbsentAssociation),
            Ok(Some(v)) => v.duplicate(),
        };
        if table.associations.len() == 0 {
            return Ok((1, ParentEntity { id, children: Vec::new() }));
        }
        match seek_related_entities::<C>(rows, start, table, &table.associations[0].guide) {
            Err(e) => Err(e),
            Ok((n, children)) => Ok((n, ParentEntity { id, children })),
        }
    }

    /// One row for a table without association; otherwise the rows of the group of children
    /// at `start` ([`group_at`]).
    open spec fn fold_consumed(table: Table, rows: Seq<Row>, start: int) -> Result<usize, Error> {
        if table.associations@.len() == 0 {
            Ok(1)
        } else {
            match group_at::<C>(table, table.associations@[0].guide, rows, start) {
                Err(e) => Err(e),
                Ok((n, _)) => Ok(n as usize),
            }
        }
    }

    /// The id is kept, and the children of the group at `start` are appended to those already
    /// held, in order.
    open spec fn folded(table: Table, rows: Seq<Row>, start: int, before: Self, after: Self) -> bool {
        &&& after.id == before.id
        &&& table.associations@.len() == 0 ==> after.children@ == before.children@
        &&& table.associations@.len() > 0 ==> match group_at::<C>(
            table,
            table.associations@[0].guide,
            rows,
            start,
        ) {
            Ok((_, starts)) => {
                &&& after.children@.len() == before.children@.len() + starts.len()
                &&& after.children@.subrange(0, before.children@.len() as int)
                    == before.children@
                &&& forall|i: int|
                    0 <= i < starts.len() ==> C::built_from(
                        table.associations@[0].guide,
                        rows,
                        #[trigger] starts[i],
                        after.children@[before.children@.len() + i],
                    )
            },
            Err(_) => false,
        }
    }

    fn fold_rows(&mut self, table: &Table, rows: &[Row], start: usize) -> (r: Result<usize, Error>) {
        if table.associations.len() == 0 {
            return Ok(1);
        }
        match seek_related_entities::<C>(rows, start, table, &table.associations[0].guide) {
            Err(e) => Err(e),
            Ok((n, children)) => {
                let mut children = children;
                let ghost before = self.children@;
                self.children.append(&mut children);
                assert(self.children@.subrange(0, before.len() as int) =~= before);
                Ok(n)
            },
        }
    }
}

} // verus!
