//! Joining artifacts: the inner join on a key column, and the
//! key-deduplicated union of identically shaped inputs.
//!
//! Both take their inputs smallest first — the caller orders them by size,
//! as the store knows file sizes and the library does not.
use vstd::prelude::*;

use crate::data_cell::{key_of, CellV, DataCell};
use crate::data_header::{col_index, header_same, ColumnHeaderV};
use crate::table::{clone_row, row_view, rows_view, FlowError, Table, TableV};
use crate::text::str_eq;

verus! {

/// The key a row shows in column `col`: the canonical string of its cell
/// there, or the empty string when the row is short.
pub open spec fn join_key(row: Seq<CellV>, col: int) -> Seq<char> {
    if 0 <= col < row.len() {
        key_of(row[col])
    } else {
        Seq::empty()
    }
}

/// The row without its key column.
pub open spec fn row_minus(row: Seq<CellV>, col: int) -> Seq<CellV> {
    if 0 <= col < row.len() {
        row.remove(col)
    } else {
        row
    }
}

/// The views of the input tables.
pub open spec fn tables_view(inputs: Vec<Table>) -> Seq<TableV> {
    inputs@.map_values(|t: Table| t@)
}

/// What one input contributes to the joined row of key `k`: the non-key
/// cells of each of its rows bearing that key, in order.
pub open spec fn ext_for(rows: Seq<Seq<CellV>>, col: int, k: Seq<char>) -> Seq<CellV>
    decreases rows.len(),
{
    if rows.len() == 0 {
        Seq::empty()
    } else if rows[0].len() > 0 && join_key(rows[0], col) == k {
        row_minus(rows[0], col) + ext_for(rows.drop_first(), col, k)
    } else {
        ext_for(rows.drop_first(), col, k)
    }
}

/// Whether key `k` appears in some non-empty row.
pub open spec fn joined_in(rows: Seq<Seq<CellV>>, col: int, k: Seq<char>) -> bool {
    exists|i: int| 0 <= i < rows.len() && rows[i].len() > 0 && join_key(#[trigger] rows[i], col) == k
}

/// What the non-base inputs (from index `from` on) append to the joined row
/// of key `k`.
pub open spec fn row_ext(tables: Seq<TableV>, key: Seq<char>, k: Seq<char>, from: int) -> Seq<
    CellV,
>
    decreases tables.len() - from,
{
    if from < 0 || from >= tables.len() {
        Seq::empty()
    } else {
        ext_for(tables[from].rows, col_index(tables[from].header, key), k) + row_ext(
            tables,
            key,
            k,
            from + 1,
        )
    }
}

/// Whether key `k` appears in every non-base input.
pub open spec fn joined_in_all(tables: Seq<TableV>, key: Seq<char>, k: Seq<char>) -> bool {
    forall|j: int|
        1 <= j < tables.len() ==> joined_in(
            (#[trigger] tables[j]).rows,
            col_index(tables[j].header, key),
            k,
        )
}

/// The joined header: the base header, then each other input's header
/// without its key column.
pub open spec fn joined_header(tables: Seq<TableV>, key: Seq<char>, upto: int) -> Seq<
    ColumnHeaderV,
>
    decreases upto,
{
    if upto <= 0 {
        Seq::empty()
    } else if upto == 1 {
        tables[0].header
    } else {
        joined_header(tables, key, upto - 1) + row_minus_header(
            tables[upto - 1].header,
            col_index(tables[upto - 1].header, key),
        )
    }
}

/// A header without one column.
pub open spec fn row_minus_header(header: Seq<ColumnHeaderV>, col: int) -> Seq<ColumnHeaderV> {
    if 0 <= col < header.len() {
        header.remove(col)
    } else {
        header
    }
}

/// The joined rows, base row by base row: a base row whose key is non-empty
/// and appears in every other input is emitted with every other input's
/// matching non-key cells appended.
pub open spec fn emit_rows(
    base_rows: Seq<Seq<CellV>>,
    tables: Seq<TableV>,
    key: Seq<char>,
    col0: int,
) -> Seq<Seq<CellV>>
    decreases base_rows.len(),
{
    if base_rows.len() == 0 {
        Seq::empty()
    } else {
        let rest = emit_rows(base_rows.drop_first(), tables, key, col0);
        let r = base_rows[0];
        let k = join_key(r, col0);
        if k.len() > 0 && joined_in_all(tables, key, k) {
            seq![r + row_ext(tables, key, k, 1)] + rest
        } else {
            rest
        }
    }
}

/// The inner join emits at most as many rows as the base input holds.
pub proof fn lemma_join_size(
    base_rows: Seq<Seq<CellV>>,
    tables: Seq<TableV>,
    key: Seq<char>,
    col0: int,
)
    ensures
        emit_rows(base_rows, tables, key, col0).len() <= base_rows.len(),
    decreases base_rows.len(),
{
    if base_rows.len() > 0 {
        lemma_join_size(base_rows.drop_first(), tables, key, col0);
    }
}

/// A key stands in the output iff it stands in the base and in every other
/// input: the emitted keys are exactly the everywhere-joined base keys.
pub proof fn lemma_join_keys(
    base_rows: Seq<Seq<CellV>>,
    tables: Seq<TableV>,
    key: Seq<char>,
    col0: int,
    k: Seq<char>,
)
    requires
        k.len() > 0,
    ensures
        (exists|i: int|
            0 <= i < emit_rows(base_rows, tables, key, col0).len() && join_key(
                #[trigger] emit_rows(base_rows, tables, key, col0)[i],
                col0,
            ) == k) <==> ((exists|i: int|
            0 <= i < base_rows.len() && join_key(#[trigger] base_rows[i], col0) == k)
            && joined_in_all(tables, key, k)),
    decreases base_rows.len(),
{
    let out = emit_rows(base_rows, tables, key, col0);
    if base_rows.len() == 0 {
        if exists|i: int| 0 <= i < out.len() && join_key(#[trigger] out[i], col0) == k {
            let i = choose|i: int| 0 <= i < out.len() && join_key(#[trigger] out[i], col0) == k;
            assert(false);
        }
    } else {
        let d = base_rows.drop_first();
        lemma_join_keys(d, tables, key, col0, k);
        let rest = emit_rows(d, tables, key, col0);
        let r = base_rows[0];
        let rk = join_key(r, col0);
        assert(forall|i: int| 0 <= i < d.len() ==> #[trigger] d[i] == base_rows[i + 1]);
        if rk.len() > 0 && joined_in_all(tables, key, rk) {
            let emitted = r + row_ext(tables, key, rk, 1);
            assert(out =~= seq![emitted] + rest);
            // The emitted row keeps its base key: the key column is inside
            // the base part of the row.
            lemma_key_of_extended(r, row_ext(tables, key, rk, 1), col0);
            assert(join_key(out[0], col0) == rk);
            assert(forall|i: int| 1 <= i < out.len() ==> #[trigger] out[i] == rest[i - 1]);
            if rk == k {
                assert(join_key(base_rows[0], col0) == k);
            } else {
                lemma_emit_shift(out, rest, base_rows, d, tables, key, col0, k);
            }
        } else {
            assert(out =~= rest);
            if exists|i: int| 0 <= i < base_rows.len() && join_key(#[trigger] base_rows[i], col0)
                == k {
                let i = choose|i: int|
                    0 <= i < base_rows.len() && join_key(#[trigger] base_rows[i], col0) == k;
                if i == 0 {
                    // The head's key is k, but the head was not emitted, so k
                    // is not joined everywhere or is empty; k is non-empty.
                    if joined_in_all(tables, key, k) {
                        assert(false);
                    }
                } else {
                    assert(d[i - 1] == base_rows[i]);
                }
            }
        }
    }
}

proof fn lemma_emit_shift(
    out: Seq<Seq<CellV>>,
    rest: Seq<Seq<CellV>>,
    base_rows: Seq<Seq<CellV>>,
    d: Seq<Seq<CellV>>,
    tables: Seq<TableV>,
    key: Seq<char>,
    col0: int,
    k: Seq<char>,
)
    requires
        out.len() == rest.len() + 1,
        forall|i: int| 1 <= i < out.len() ==> #[trigger] out[i] == rest[i - 1],
        join_key(out[0], col0) != k,
        d == base_rows.drop_first(),
        base_rows.len() > 0,
        join_key(base_rows[0], col0) != k,
        (exists|i: int| 0 <= i < rest.len() && join_key(#[trigger] rest[i], col0) == k) <==> ((
        exists|i: int| 0 <= i < d.len() && join_key(#[trigger] d[i], col0) == k) && joined_in_all(
            tables,
            key,
            k,
        )),
    ensures
        (exists|i: int| 0 <= i < out.len() && join_key(#[trigger] out[i], col0) == k) <==> ((exists|
            i: int,
        | 0 <= i < base_rows.len() && join_key(#[trigger] base_rows[i], col0) == k)
            && joined_in_all(tables, key, k)),
{
    assert(forall|i: int| 0 <= i < d.len() ==> #[trigger] d[i] == base_rows[i + 1]);
    if exists|i: int| 0 <= i < out.len() && join_key(#[trigger] out[i], col0) == k {
        let i = choose|i: int| 0 <= i < out.len() && join_key(#[trigger] out[i], col0) == k;
        assert(i >= 1);
        assert(rest[i - 1] == out[i]);
    }
    if (exists|i: int| 0 <= i < base_rows.len() && join_key(#[trigger] base_rows[i], col0) == k)
        && joined_in_all(tables, key, k) {
        let i = choose|i: int|
            0 <= i < base_rows.len() && join_key(#[trigger] base_rows[i], col0) == k;
        assert(i >= 1);
        assert(d[i - 1] == base_rows[i]);
        let w = choose|w: int| 0 <= w < rest.len() && join_key(#[trigger] rest[w], col0) == k;
        assert(out[w + 1] == rest[w]);
    }
}

/// Appending cells after the key column leaves the key unchanged.
proof fn lemma_key_of_extended(r: Seq<CellV>, ext: Seq<CellV>, col0: int)
    requires
        0 <= col0 < r.len(),
    ensures
        join_key(r + ext, col0) == join_key(r, col0),
{
    assert((r + ext)[col0] == r[col0]);
}

/// Joining and merging artifacts.
#[derive(Clone, Debug, Default)]
pub struct Join {}

impl Join {
    /// The inner join of two or more inputs on the key column, the base
    /// (smallest) input first. The output header is the base header plus
    /// every other header without its key column; the output holds, in base
    /// order, each base row whose key appears in every input, extended by
    /// every other input's matching non-key cells. Fails with `NoInputs` or
    /// `SingleInput` on arity, `MissingKeyColumn` where an input lacks the
    /// key column, `SourceDecode` where a base row is too short to have a
    /// key cell, and `DuplicateKey` where two base rows share a key.
    pub fn inner_join_on_key(&self, inputs: &Vec<Table>, key: &str) -> (r: Result<
        Table,
        FlowError,
    >)
        ensures
            ({
                let tables = tables_view(*inputs);
                match r {
                    Ok(t) => {
                        let col0 = col_index(tables[0].header, key@);
                        &&& tables.len() >= 2
                        &&& col0 >= 0
                        &&& forall|j: int|
                            1 <= j < tables.len() ==> col_index(
                                (#[trigger] tables[j]).header,
                                key@,
                            ) >= 0
                        &&& forall|i: int|
                            0 <= i < tables[0].rows.len() ==> col0 < (#[trigger] tables[0].rows[i]).len()
                        &&& forall|i: int, j: int|
                            0 <= i < j < tables[0].rows.len() ==> join_key(
                                #[trigger] tables[0].rows[i],
                                col0,
                            ) != join_key(#[trigger] tables[0].rows[j], col0)
                        &&& t@.header == joined_header(tables, key@, tables.len() as int)
                        &&& t@.rows == emit_rows(tables[0].rows, tables, key@, col0)
                    },
                    Err(FlowError::NoInputs) => tables.len() == 0,
                    Err(FlowError::SingleInput) => tables.len() == 1,
                    Err(FlowError::MissingKeyColumn(k)) => tables.len() >= 2 && k@ == key@ && (
                    col_index(tables[0].header, key@) == -1 || exists|j: int|
                        1 <= j < tables.len() && col_index((#[trigger] tables[j]).header, key@)
                            == -1),
                    Err(FlowError::SourceDecode(_)) => tables.len() >= 2 && col_index(
                        tables[0].header,
                        key@,
                    ) >= 0 && exists|i: int|
                        0 <= i < tables[0].rows.len() && col_index(tables[0].header, key@) >= (
                        #[trigger] tables[0].rows[i]).len(),
                    Err(FlowError::DuplicateKey(dk)) => tables.len() >= 2 && exists|i: int, j: int|
                        0 <= i < j < tables[0].rows.len() && join_key(
                            #[trigger] tables[0].rows[i],
                            col_index(tables[0].header, key@),
                        ) == join_key(#[trigger] tables[0].rows[j], col_index(tables[0].header, key@))
                            && dk@ == join_key(tables[0].rows[j], col_index(tables[0].header, key@)),
                    Err(_) => false,
                }
            }),
    {
        let ghost tables = tables_view(*inputs);
        if inputs.len() == 0 {
            return Err(FlowError::NoInputs);
        }
        if inputs.len() == 1 {
            return Err(FlowError::SingleInput);
        }
        let base = &inputs[0];
        proof {
            assert(tables[0] == inputs@[0]@);
        }
        let col0 = match base.header.get_col_num(key) {
            Some(c) => c,
            None => {
                return Err(FlowError::MissingKeyColumn(key.to_owned()));
            },
        };
        // The base keys, with the duplicate check.
        let mut keys: Vec<String> = Vec::new();
        let nb = base.rows.len();
        let mut i: usize = 0;
        while i < nb
            invariant
                nb == base.rows@.len(),
                i <= nb,
                tables == tables_view(*inputs),
                inputs@.len() >= 2,
                base == &inputs[0],
                tables[0] == inputs@[0]@,
                col0 as int == col_index(tables[0].header, key@),
                keys@.len() == i,
                forall|j: int|
                    0 <= j < i ==> col0 < (#[trigger] rows_view(base.rows)[j]).len(),
                forall|j: int|
                    0 <= j < i ==> (#[trigger] keys@[j])@ == join_key(
                        rows_view(base.rows)[j],
                        col0 as int,
                    ),
                forall|x: int, y: int|
                    0 <= x < y < i ==> join_key(#[trigger] rows_view(base.rows)[x], col0 as int)
                        != join_key(#[trigger] rows_view(base.rows)[y], col0 as int),
            decreases nb - i,
        {
            let row = &base.rows[i];
            let ghost rv = rows_view(base.rows)[i as int];
            proof {
                assert(rv == row_view(*row));
            }
            if col0 >= row.len() {
                proof {
                    assert(tables[0].rows == rows_view(base.rows));
                    assert(rv.len() == row@.len());
                    assert(col_index(tables[0].header, key@) >= (tables[0].rows[i as int]).len());
                }
                return Err(FlowError::SourceDecode(key.to_owned()));
            }
            let k = row[col0].as_key();
            proof {
                assert(rv[col0 as int] == row@[col0 as int]@);
                assert(k@ == join_key(rv, col0 as int));
            }
            // Any earlier row with the same key is a duplicate.
            let mut j: usize = 0;
            while j < i
                invariant
                    i <= nb,
                    nb == base.rows@.len(),
                    j <= i,
                    keys@.len() == i,
                    tables == tables_view(*inputs),
                    inputs@.len() >= 2,
                    base == &inputs[0],
                    tables[0] == inputs@[0]@,
                    tables[0].rows == rows_view(base.rows),
                    col0 as int == col_index(tables[0].header, key@),
                    i < rows_view(base.rows).len(),
                    k@ == join_key(rows_view(base.rows)[i as int], col0 as int),
                    forall|x: int|
                        0 <= x < i ==> (#[trigger] keys@[x])@ == join_key(
                            rows_view(base.rows)[x],
                            col0 as int,
                        ),
                    forall|x: int|
                        0 <= x < j ==> join_key(#[trigger] rows_view(base.rows)[x], col0 as int)
                            != k@,
                decreases i - j,
            {
                if str_eq(keys[j].as_str(), k.as_str()) {
                    proof {
                        assert(join_key(rows_view(base.rows)[j as int], col0 as int) == k@);
                        assert(tables[0].rows == rows_view(base.rows));
                        assert(exists|x: int, y: int|
                            0 <= x < y < tables[0].rows.len() && join_key(
                                #[trigger] tables[0].rows[x],
                                col_index(tables[0].header, key@),
                            ) == join_key(
                                #[trigger] tables[0].rows[y],
                                col_index(tables[0].header, key@),
                            ) && k@ == join_key(
                                tables[0].rows[y],
                                col_index(tables[0].header, key@),
                            )) by {
                            assert(join_key(
                                tables[0].rows[j as int],
                                col_index(tables[0].header, key@),
                            ) == join_key(
                                tables[0].rows[i as int],
                                col_index(tables[0].header, key@),
                            ) && k@ == join_key(
                                tables[0].rows[i as int],
                                col_index(tables[0].header, key@),
                            ));
                        }
                    }
                    return Err(FlowError::DuplicateKey(k));
                }
                j = j + 1;
            }
            keys.push(k);
            i = i + 1;
        }
        // The joined header, and each other input's key column.
        let mut header = base.header.duplicate();
        let mut cols: Vec<usize> = Vec::new();
        let nt = inputs.len();
        let mut t: usize = 1;
        proof {
            assert(joined_header(tables, key@, 1) == tables[0].header);
        }
        while t < nt
            invariant
                nt == inputs@.len(),
                nt >= 2,
                1 <= t <= nt,
                tables == tables_view(*inputs),
                header@ == joined_header(tables, key@, t as int),
                cols@.len() == t - 1,
                forall|j: int|
                    1 <= j < t ==> col_index((#[trigger] tables[j]).header, key@) >= 0,
                forall|j: int|
                    0 <= j < t - 1 ==> #[trigger] cols@[j] as int == col_index(
                        tables[j + 1].header,
                        key@,
                    ),
            decreases nt - t,
        {
            proof {
                assert(tables[t as int] == inputs@[t as int]@);
            }
            let colt = match inputs[t].header.get_col_num(key) {
                Some(c) => c,
                None => {
                    return Err(FlowError::MissingKeyColumn(key.to_owned()));
                },
            };
            let mut part = inputs[t].header.duplicate();
            let removed = part.columns.remove(colt);
            proof {
                assert(part@ =~= row_minus_header(tables[t as int].header, colt as int)) by {
                    assert forall|x: int| 0 <= x < part@.len() implies part@[x] == row_minus_header(
                        tables[t as int].header,
                        colt as int,
                    )[x] by {
                        assert(part@[x] == part.columns@[x]@);
                    }
                }
            }
            header.add_header(part);
            cols.push(colt);
            t = t + 1;
        }
        // Emit, base row by base row.
        let mut out = Table::new(header);
        let mut i: usize = 0;
        let ghost base_rv0 = rows_view(base.rows);
        proof {
            assert(emit_rows(base_rv0.skip(nb as int), tables, key@, col0 as int)
                =~= Seq::<Seq<CellV>>::empty()) by {
                assert(base_rv0.skip(nb as int).len() == 0);
            }
            assert(base_rv0.skip(0) =~= base_rv0);
            assert(out@.rows =~= Seq::<Seq<CellV>>::empty());
            assert(out@.rows + emit_rows(base_rv0.skip(0), tables, key@, col0 as int) =~= emit_rows(
                base_rv0,
                tables,
                key@,
                col0 as int,
            ));
        }
        // Work backwards so the prefix of the output matches the spec's
        // head-first recursion: emit forwards, proving the suffix form.
        let ghost base_rv = rows_view(base.rows);
        while i < nb
            invariant
                nb == base.rows@.len(),
                i <= nb,
                tables == tables_view(*inputs),
                inputs@.len() >= 2,
                nt == inputs@.len(),
                base == &inputs[0],
                tables[0] == inputs@[0]@,
                base_rv == rows_view(base.rows),
                col0 as int == col_index(tables[0].header, key@),
                forall|j: int| 0 <= j < nb ==> col0 < (#[trigger] base_rv[j]).len(),
                cols@.len() == nt - 1,
                forall|j: int|
                    1 <= j < nt ==> col_index((#[trigger] tables[j]).header, key@) >= 0,
                forall|j: int|
                    0 <= j < nt - 1 ==> #[trigger] cols@[j] as int == col_index(
                        tables[j + 1].header,
                        key@,
                    ),
                out@.header == joined_header(tables, key@, nt as int),
                out@.rows + emit_rows(base_rv.skip(i as int), tables, key@, col0 as int)
                    == emit_rows(base_rv, tables, key@, col0 as int),
            decreases nb - i,
        {
            let row = &base.rows[i];
            let ghost rv = base_rv[i as int];
            proof {
                assert(rv == row_view(*row));
                assert(base_rv.skip(i as int)[0] == rv);
                assert(base_rv.skip(i as int).drop_first() =~= base_rv.skip(i as int + 1));
            }
            let k = row[col0].as_key();
            proof {
                assert(rv[col0 as int] == row@[col0 as int]@);
                assert(k@ == join_key(rv, col0 as int));
            }
            let ghost kk = k@;
            if k.as_str().is_empty() {
                i = i + 1;
                continue;
            }
            let mut joined_all = true;
            let mut ext: Vec<DataCell> = Vec::new();
            let mut t: usize = 1;
            while t < nt
                invariant
                    nt == inputs@.len(),
                    1 <= t <= nt,
                    tables == tables_view(*inputs),
                    kk == k@,
                    kk.len() > 0,
                    cols@.len() == nt - 1,
                    forall|j: int|
                        0 <= j < nt - 1 ==> #[trigger] cols@[j] as int == col_index(
                            tables[j + 1].header,
                            key@,
                        ),
                    row_view(ext) == row_ext_upto(tables, key@, kk, 1, t as int),
                    joined_all == (forall|j: int|
                        1 <= j < t ==> joined_in(
                            (#[trigger] tables[j]).rows,
                            col_index(tables[j].header, key@),
                            kk,
                        )),
                decreases nt - t,
            {
                proof {
                    assert(tables[t as int] == inputs@[t as int]@);
                }
                let (part, found) = collect_ext(&inputs[t].rows, cols[t - 1], k.as_str());
                let ghost prev_ext = row_view(ext);
                let mut part = part;
                ext.append(&mut part);
                proof {
                    assert(row_view(ext) =~= prev_ext + row_ext_one(tables, key@, kk, t as int));
                    lemma_row_ext_upto_step(tables, key@, kk, 1, t as int);
                }
                if !found {
                    joined_all = false;
                }
                t = t + 1;
            }
            proof {
                lemma_row_ext_upto_full(tables, key@, kk, 1);
            }
            if joined_all {
                let mut emitted = clone_row(row);
                let mut ext2 = ext;
                let ghost ev = row_view(ext2);
                emitted.append(&mut ext2);
                proof {
                    assert(row_view(emitted) =~= rv + ev);
                }
                out.push_row(emitted);
                proof {
                    assert(rv.len() > 0);
                }
            }
            i = i + 1;
        }
        proof {
            assert(base_rv.skip(nb as int).len() == 0);
            assert(out@.rows =~= out@.rows + emit_rows(
                base_rv.skip(nb as int),
                tables,
                key@,
                col0 as int,
            ));
        }
        Ok(out)
    }
}

/// One input's contribution to the joined row of key `k`.
pub open spec fn row_ext_one(tables: Seq<TableV>, key: Seq<char>, k: Seq<char>, j: int) -> Seq<
    CellV,
> {
    ext_for(tables[j].rows, col_index(tables[j].header, key), k)
}

/// The contributions of inputs `from..upto`.
pub open spec fn row_ext_upto(
    tables: Seq<TableV>,
    key: Seq<char>,
    k: Seq<char>,
    from: int,
    upto: int,
) -> Seq<CellV>
    decreases upto - from,
{
    if from >= upto {
        Seq::empty()
    } else {
        row_ext_upto(tables, key, k, from, upto - 1) + row_ext_one(tables, key, k, upto - 1)
    }
}

proof fn lemma_row_ext_upto_step(tables: Seq<TableV>, key: Seq<char>, k: Seq<char>, from: int, t: int)
    requires
        from <= t,
    ensures
        row_ext_upto(tables, key, k, from, t + 1) == row_ext_upto(tables, key, k, from, t)
            + row_ext_one(tables, key, k, t),
{
}

proof fn lemma_row_ext_upto_full(tables: Seq<TableV>, key: Seq<char>, k: Seq<char>, from: int)
    requires
        0 <= from,
    ensures
        row_ext_upto(tables, key, k, from, tables.len() as int) == row_ext(tables, key, k, from),
    decreases tables.len() - from,
{
    if from >= tables.len() {
        assert(row_ext_upto(tables, key, k, from, tables.len() as int) =~= row_ext(
            tables,
            key,
            k,
            from,
        ));
    } else {
        lemma_row_ext_upto_full(tables, key, k, from + 1);
        lemma_row_ext_prepend(tables, key, k, from, tables.len() as int);
    }
}

proof fn lemma_row_ext_prepend(
    tables: Seq<TableV>,
    key: Seq<char>,
    k: Seq<char>,
    from: int,
    upto: int,
)
    requires
        0 <= from < upto,
    ensures
        row_ext_upto(tables, key, k, from, upto) == row_ext_one(tables, key, k, from)
            + row_ext_upto(tables, key, k, from + 1, upto),
    decreases upto - from,
{
    if from + 1 == upto {
        assert(row_ext_upto(tables, key, k, from, from) == Seq::<CellV>::empty());
        assert(row_ext_upto(tables, key, k, from + 1, upto) == Seq::<CellV>::empty());
        assert(row_ext_upto(tables, key, k, from, upto) =~= row_ext_one(tables, key, k, from)
            + row_ext_upto(tables, key, k, from + 1, upto));
    } else {
        lemma_row_ext_prepend(tables, key, k, from, upto - 1);
        assert((row_ext_one(tables, key, k, from) + row_ext_upto(tables, key, k, from + 1, upto - 1))
            + row_ext_one(tables, key, k, upto - 1) =~= row_ext_one(tables, key, k, from) + (
        row_ext_upto(tables, key, k, from + 1, upto - 1) + row_ext_one(tables, key, k, upto - 1)));
    }
}

/// The matching non-key cells of one input for key `k`, and whether the key
/// appeared at all.
fn collect_ext(rows: &Vec<Vec<DataCell>>, col: usize, k: &str) -> (r: (Vec<DataCell>, bool))
    requires
        k@.len() > 0,
    ensures
        row_view(r.0) == ext_for(rows_view(*rows), col as int, k@),
        r.1 == joined_in(rows_view(*rows), col as int, k@),
{
    let ghost rsv = rows_view(*rows);
    let mut out: Vec<DataCell> = Vec::new();
    let mut found = false;
    let n = rows.len();
    let mut i: usize = 0;
    proof {
        assert(ext_for(rsv.skip(n as int), col as int, k@) =~= Seq::<CellV>::empty()) by {
            assert(rsv.skip(n as int).len() == 0);
        }
        assert(rsv.skip(0) =~= rsv);
        assert(row_view(out) =~= Seq::<CellV>::empty());
        assert(row_view(out) + ext_for(rsv.skip(0), col as int, k@) =~= ext_for(
            rsv,
            col as int,
            k@,
        ));
    }
    while i < n
        invariant
            n == rows@.len(),
            i <= n,
            rsv == rows_view(*rows),
            k@.len() > 0,
            row_view(out) + ext_for(rsv.skip(i as int), col as int, k@) == ext_for(
                rsv,
                col as int,
                k@,
            ),
            found == (exists|j: int|
                0 <= j < i && rsv[j].len() > 0 && join_key(#[trigger] rsv[j], col as int) == k@),
        decreases n - i,
    {
        let row = &rows[i];
        let ghost rv = rsv[i as int];
        proof {
            assert(rv == row_view(*row));
            assert(rsv.skip(i as int)[0] == rv);
            assert(rsv.skip(i as int).drop_first() =~= rsv.skip(i as int + 1));
        }
        let rk = if col < row.len() {
            proof {
                assert(rv[col as int] == row@[col as int]@);
            }
            row[col].as_key()
        } else {
            String::new()
        };
        proof {
            assert(rk@ == join_key(rv, col as int));
        }
        if row.len() > 0 && str_eq(rk.as_str(), k) {
            // Append the row's non-key cells.
            let ghost prev = row_view(out);
            let mut minus: Vec<DataCell> = clone_row(row);
            if col < minus.len() {
                let removed = minus.remove(col);
            }
            proof {
                assert(row_view(minus) =~= row_minus(rv, col as int)) by {
                    if 0 <= col < rv.len() {
                        assert forall|x: int| 0 <= x < row_view(minus).len() implies row_view(
                            minus,
                        )[x] == row_minus(rv, col as int)[x] by {
                            assert(row_view(minus)[x] == minus@[x]@);
                        }
                    }
                }
            }
            let mut minus2 = minus;
            let ghost mv = row_view(minus2);
            out.append(&mut minus2);
            found = true;
            proof {
                assert(row_view(out) =~= prev + mv);
                assert(exists|j: int|
                    0 <= j < i + 1 && rsv[j].len() > 0 && join_key(#[trigger] rsv[j], col as int)
                        == k@) by {
                    assert(rsv[i as int].len() > 0 && join_key(rsv[i as int], col as int) == k@);
                }
            }
        } else {
            proof {
                if exists|j: int|
                    0 <= j < i + 1 && rsv[j].len() > 0 && join_key(#[trigger] rsv[j], col as int)
                        == k@ {
                    let j = choose|j: int|
                        0 <= j < i + 1 && rsv[j].len() > 0 && join_key(
                            #[trigger] rsv[j],
                            col as int,
                        ) == k@;
                    if j == i {
                        assert(false);
                    }
                }
            }
        }
        i = i + 1;
        proof {
            assert(row_view(out) + ext_for(rsv.skip(i as int), col as int, k@) =~= ext_for(
                rsv,
                col as int,
                k@,
            ));
        }
    }
    proof {
        assert(row_view(out) =~= ext_for(rsv, col as int, k@)) by {
            assert(ext_for(rsv.skip(n as int), col as int, k@).len() == 0);
            assert(row_view(out) + ext_for(rsv.skip(n as int), col as int, k@) =~= row_view(out));
        }
        assert(rsv.skip(0) == rsv);
    }
    (out, found)
}

} // verus!

// ___________________________________________________________________________
// Merge-unique.

use crate::data_header::data_header_eq;

verus! {

/// All input rows, first input first.
pub open spec fn all_rows(tables: Seq<TableV>, from: int) -> Seq<Seq<CellV>>
    decreases tables.len() - from,
{
    if from < 0 || from >= tables.len() {
        Seq::empty()
    } else {
        tables[from].rows + all_rows(tables, from + 1)
    }
}

/// The merged rows: each row whose key was not seen before is kept, and its
/// key is from then on seen; empty rows and empty keys are skipped.
pub open spec fn merge_rows(rows: Seq<Seq<CellV>>, col: int, seen: Set<Seq<char>>) -> Seq<
    Seq<CellV>,
>
    decreases rows.len(),
{
    if rows.len() == 0 {
        Seq::empty()
    } else {
        let r = rows[0];
        let k = join_key(r, col);
        if r.len() == 0 || k.len() == 0 || seen.contains(k) {
            merge_rows(rows.drop_first(), col, seen)
        } else {
            seq![r] + merge_rows(rows.drop_first(), col, seen.insert(k))
        }
    }
}

/// What merge-unique guarantees: every output row is an input row, output
/// keys are pairwise distinct and unseen, and every input row with a
/// non-empty key is represented in the output by a row with the same key.
pub proof fn lemma_merge_props(rows: Seq<Seq<CellV>>, col: int, seen: Set<Seq<char>>)
    ensures
        ({
            let out = merge_rows(rows, col, seen);
            &&& forall|i: int|
                0 <= i < out.len() ==> exists|j: int| 0 <= j < rows.len() && rows[j] == #[trigger] out[i]
            &&& forall|i: int|
                0 <= i < out.len() ==> (#[trigger] out[i]).len() > 0 && join_key(out[i], col).len() > 0
                    && !seen.contains(join_key(out[i], col))
            &&& forall|i1: int, i2: int|
                0 <= i1 < i2 < out.len() ==> join_key(#[trigger] out[i1], col) != join_key(
                    #[trigger] out[i2],
                    col,
                )
            &&& forall|j: int|
                0 <= j < rows.len() && (#[trigger] rows[j]).len() > 0 && join_key(rows[j], col).len()
                    > 0 && !seen.contains(join_key(rows[j], col)) ==> exists|i: int|
                    0 <= i < out.len() && join_key(#[trigger] out[i], col) == join_key(rows[j], col)
        }),
    decreases rows.len(),
{
    let out = merge_rows(rows, col, seen);
    if rows.len() == 0 {
    } else {
        let r = rows[0];
        let k = join_key(r, col);
        let d = rows.drop_first();
        assert(forall|j: int| 0 <= j < d.len() ==> #[trigger] d[j] == rows[j + 1]);
        if r.len() == 0 || k.len() == 0 || seen.contains(k) {
            lemma_merge_props(d, col, seen);
            let rest = merge_rows(d, col, seen);
            assert(out =~= rest);
            assert forall|i: int| 0 <= i < out.len() implies exists|j: int|
                0 <= j < rows.len() && rows[j] == #[trigger] out[i] by {
                let j = choose|j: int| 0 <= j < d.len() && d[j] == out[i];
                assert(rows[j + 1] == out[i]);
            }
            assert forall|j: int|
                0 <= j < rows.len() && (#[trigger] rows[j]).len() > 0 && join_key(
                    rows[j],
                    col,
                ).len() > 0 && !seen.contains(join_key(rows[j], col)) implies exists|i: int|
                0 <= i < out.len() && join_key(#[trigger] out[i], col) == join_key(
                    rows[j],
                    col,
                ) by {
                if j > 0 {
                    assert(d[j - 1] == rows[j]);
                }
            }
        } else {
            lemma_merge_props(d, col, seen.insert(k));
            let rest = merge_rows(d, col, seen.insert(k));
            assert(out =~= seq![r] + rest);
            assert(forall|i: int| 1 <= i < out.len() ==> #[trigger] out[i] == rest[i - 1]);
            assert forall|i: int| 0 <= i < out.len() implies exists|j: int|
                0 <= j < rows.len() && rows[j] == #[trigger] out[i] by {
                if i == 0 {
                    assert(rows[0] == out[0]);
                } else {
                    let j = choose|j: int| 0 <= j < d.len() && d[j] == rest[i - 1];
                    assert(rows[j + 1] == out[i]);
                }
            }
            assert forall|i: int| 0 <= i < out.len() implies (#[trigger] out[i]).len() > 0
                && join_key(out[i], col).len() > 0 && !seen.contains(join_key(out[i], col)) by {
                if i > 0 {
                    assert(out[i] == rest[i - 1]);
                    assert(!seen.insert(k).contains(join_key(rest[i - 1], col)));
                }
            }
            assert forall|i1: int, i2: int| 0 <= i1 < i2 < out.len() implies join_key(
                #[trigger] out[i1],
                col,
            ) != join_key(#[trigger] out[i2], col) by {
                if i1 == 0 {
                    assert(out[i2] == rest[i2 - 1]);
                    assert(!seen.insert(k).contains(join_key(rest[i2 - 1], col)));
                    assert(seen.insert(k).contains(k));
                } else {
                    assert(out[i1] == rest[i1 - 1]);
                    assert(out[i2] == rest[i2 - 1]);
                }
            }
            assert forall|j: int|
                0 <= j < rows.len() && (#[trigger] rows[j]).len() > 0 && join_key(
                    rows[j],
                    col,
                ).len() > 0 && !seen.contains(join_key(rows[j], col)) implies exists|i: int|
                0 <= i < out.len() && join_key(#[trigger] out[i], col) == join_key(
                    rows[j],
                    col,
                ) by {
                if j == 0 {
                    assert(join_key(out[0], col) == join_key(rows[0], col));
                } else {
                    assert(d[j - 1] == rows[j]);
                    if join_key(rows[j], col) == k {
                        assert(join_key(out[0], col) == join_key(rows[j], col));
                    } else {
                        assert(!seen.insert(k).contains(join_key(d[j - 1], col)));
                        let i = choose|i: int|
                            0 <= i < rest.len() && join_key(#[trigger] rest[i], col) == join_key(
                                d[j - 1],
                                col,
                            );
                        assert(join_key(out[i + 1], col) == join_key(rows[j], col));
                    }
                }
            }
        }
    }
}

impl Join {
    /// The key-deduplicated union of two or more identically shaped inputs,
    /// smallest first: rows stream in input order and a row is kept when its
    /// key has not been kept before; empty rows and empty keys are skipped.
    /// Fails with `NoInputs` or `SingleInput` on arity, `MissingKeyColumn`
    /// when the shared header lacks the key column, and `SchemaMismatch`
    /// when an input's header differs from the first input's.
    pub fn merge_unique(&self, inputs: &Vec<Table>, key: &str) -> (r: Result<Table, FlowError>)
        ensures
            ({
                let tables = tables_view(*inputs);
                match r {
                    Ok(t) => {
                        let col0 = col_index(tables[0].header, key@);
                        &&& tables.len() >= 2
                        &&& col0 >= 0
                        &&& forall|j: int|
                            0 <= j < tables.len() ==> header_same(
                                (#[trigger] tables[j]).header,
                                tables[0].header,
                            )
                        &&& t@.header == tables[0].header
                        &&& t@.rows == merge_rows(all_rows(tables, 0), col0, Set::empty())
                    },
                    Err(FlowError::NoInputs) => tables.len() == 0,
                    Err(FlowError::SingleInput) => tables.len() == 1,
                    Err(FlowError::MissingKeyColumn(k)) => tables.len() >= 2 && k@ == key@
                        && col_index(tables[0].header, key@) == -1,
                    Err(FlowError::SchemaMismatch) => tables.len() >= 2 && col_index(
                        tables[0].header,
                        key@,
                    ) >= 0 && exists|j: int|
                        0 < j < tables.len() && !header_same(
                            (#[trigger] tables[j]).header,
                            tables[0].header,
                        ),
                    Err(_) => false,
                }
            }),
    {
        let ghost tables = tables_view(*inputs);
        if inputs.len() == 0 {
            return Err(FlowError::NoInputs);
        }
        if inputs.len() == 1 {
            return Err(FlowError::SingleInput);
        }
        proof {
            assert(tables[0] == inputs@[0]@);
        }
        let col0 = match inputs[0].header.get_col_num(key) {
            Some(c) => c,
            None => {
                return Err(FlowError::MissingKeyColumn(key.to_owned()));
            },
        };
        // All headers must agree with the first.
        let nt = inputs.len();
        let mut t: usize = 1;
        while t < nt
            invariant
                nt == inputs@.len(),
                nt >= 2,
                1 <= t <= nt,
                tables == tables_view(*inputs),
                tables[0] == inputs@[0]@,
                col0 as int == col_index(tables[0].header, key@),
                forall|j: int|
                    0 <= j < t ==> header_same((#[trigger] tables[j]).header, tables[0].header),
            decreases nt - t,
        {
            proof {
                assert(tables[t as int] == inputs@[t as int]@);
            }
            if !data_header_eq(&inputs[t].header, &inputs[0].header) {
                return Err(FlowError::SchemaMismatch);
            }
            t = t + 1;
        }
        // Concatenate all rows, in input order.
        let mut all: Vec<Vec<DataCell>> = Vec::new();
        let mut t: usize = 0;
        proof {
            assert(all_rows(tables, nt as int) =~= Seq::<Seq<CellV>>::empty());
            assert(rows_view(all) =~= Seq::<Seq<CellV>>::empty());
            assert(rows_view(all) + all_rows(tables, 0) =~= all_rows(tables, 0));
        }
        while t < nt
            invariant
                nt == inputs@.len(),
                t <= nt,
                tables == tables_view(*inputs),
                rows_view(all) + all_rows(tables, t as int) == all_rows(tables, 0),
            decreases nt - t,
        {
            proof {
                assert(tables[t as int] == inputs@[t as int]@);
            }
            let rows = &inputs[t].rows;
            let m = rows.len();
            let mut j: usize = 0;
            while j < m
                invariant
                    m == rows@.len(),
                    j <= m,
                    t < nt,
                    nt == inputs@.len(),
                    tables == tables_view(*inputs),
                    rows == &inputs[t as int].rows,
                    tables[t as int].rows == rows_view(*rows),
                    rows_view(all) + tables[t as int].rows.skip(j as int) + all_rows(
                        tables,
                        t as int + 1,
                    ) == all_rows(tables, 0),
                decreases m - j,
            {
                let ghost prev = rows_view(all);
                let cr = clone_row(&rows[j]);
                proof {
                    assert(row_view(cr) == rows_view(*rows)[j as int]);
                }
                all.push(cr);
                j = j + 1;
                proof {
                    assert(rows_view(all) =~= prev.push(rows_view(*rows)[j as int - 1]));
                    assert(rows_view(all) + tables[t as int].rows.skip(j as int) =~= prev
                        + tables[t as int].rows.skip(j as int - 1));
                }
            }
            t = t + 1;
            proof {
                assert(tables[t as int - 1].rows.skip(m as int) =~= Seq::<Seq<CellV>>::empty());
                assert(rows_view(all) + tables[t as int - 1].rows.skip(m as int) =~= rows_view(all));
            }
        }
        proof {
            assert(all_rows(tables, nt as int) =~= Seq::<Seq<CellV>>::empty());
            assert(rows_view(all) + all_rows(tables, nt as int) =~= rows_view(all));
        }
        let ghost allv = rows_view(all);
        // Deduplicate by key, in order.
        let mut out = Table::new(inputs[0].header.duplicate());
        let mut seen: Vec<String> = Vec::new();
        let ghost ss = Set::<Seq<char>>::empty();
        let mut ss = Ghost(ss);
        let na = all.len();
        let mut i: usize = 0;
        proof {
            assert(merge_rows(allv.skip(na as int), col0 as int, ss@) =~= Seq::<Seq<CellV>>::empty())
                by {
                assert(allv.skip(na as int).len() == 0);
            }
            assert(allv.skip(0) =~= allv);
            assert(out@.rows =~= Seq::<Seq<CellV>>::empty());
            assert(out@.rows + merge_rows(allv.skip(0), col0 as int, Set::empty()) =~= merge_rows(
                allv,
                col0 as int,
                Set::empty(),
            ));
        }
        while i < na
            invariant
                na == all@.len(),
                i <= na,
                allv == rows_view(all),
                tables == tables_view(*inputs),
                tables[0] == inputs@[0]@,
                out@.header == tables[0].header,
                forall|x: Seq<char>|
                    ss@.contains(x) <==> crate::filter::contains_str(
                        seen@.map_values(|s: String| s@),
                        x,
                    ),
                out@.rows + merge_rows(allv.skip(i as int), col0 as int, ss@) == merge_rows(
                    allv,
                    col0 as int,
                    Set::empty(),
                ),
            decreases na - i,
        {
            let row = &all[i];
            let ghost rv = allv[i as int];
            proof {
                assert(rv == row_view(*row));
                assert(allv.skip(i as int)[0] == rv);
                assert(allv.skip(i as int).drop_first() =~= allv.skip(i as int + 1));
            }
            let k = if col0 < row.len() {
                proof {
                    assert(rv[col0 as int] == row@[col0 as int]@);
                }
                row[col0].as_key()
            } else {
                String::new()
            };
            proof {
                assert(k@ == join_key(rv, col0 as int));
            }
            let is_dup = contains_string_here(&seen, k.as_str());
            if row.len() == 0 || k.as_str().is_empty() || is_dup {
                // Skipped: empty row, empty key, or an already-kept key.
            } else {
                out.push_row(clone_row(row));
                let ghost prev_seen = seen@.map_values(|s: String| s@);
                seen.push(k);
                ss = Ghost(ss@.insert(join_key(rv, col0 as int)));
                proof {
                    assert(seen@.map_values(|s: String| s@) =~= prev_seen.push(
                        join_key(rv, col0 as int),
                    ));
                    assert forall|x: Seq<char>|
                        ss@.contains(x) <==> crate::filter::contains_str(
                            seen@.map_values(|s: String| s@),
                            x,
                        ) by {
                        let cur = seen@.map_values(|s: String| s@);
                        if ss@.contains(x) {
                            if x == join_key(rv, col0 as int) {
                                assert(cur[cur.len() - 1] == x);
                            } else {
                                let w = choose|w: int| 0 <= w < prev_seen.len() && prev_seen[w] == x;
                                assert(cur[w] == x);
                            }
                        }
                        if crate::filter::contains_str(cur, x) {
                            let w = choose|w: int| 0 <= w < cur.len() && cur[w] == x;
                            if w < cur.len() - 1 {
                                assert(prev_seen[w] == x);
                            }
                        }
                    }
                }
            }
            i = i + 1;
        }
        proof {
            assert(allv.skip(na as int).len() == 0);
            assert(out@.rows + merge_rows(allv.skip(na as int), col0 as int, ss@) =~= out@.rows);
        }
        Ok(out)
    }
}

fn contains_string_here(list: &Vec<String>, t: &str) -> (r: bool)
    ensures
        r == crate::filter::contains_str(list@.map_values(|s: String| s@), t@),
{
    let ghost lv = list@.map_values(|s: String| s@);
    let n = list.len();
    let mut i: usize = 0;
    while i < n
        invariant
            lv == list@.map_values(|s: String| s@),
            n == list@.len(),
            i <= n,
            forall|j: int| 0 <= j < i ==> lv[j] != t@,
        decreases n - i,
    {
        if str_eq(list[i].as_str(), t) {
            proof {
                assert(lv[i as int] == t@);
            }
            return true;
        }
        i = i + 1;
    }
    proof {
        if crate::filter::contains_str(lv, t@) {
            let w = choose|w: int| 0 <= w < lv.len() && lv[w] == t@;
            assert(lv[w] != t@);
        }
    }
    false
}

} // verus!
