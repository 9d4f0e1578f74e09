//! Step one of the pipeline: filter row indices by the search query.
//!
//! An empty query keeps every row. A non-empty query keeps a row exactly when
//! at least one declared column's value for that row contains the query,
//! case-insensitively; a column key absent from a row never matches.

use vstd::prelude::*;

use crate::text::contains_ci;
use crate::text::contains_ci_exec;
use crate::types::cells_lookup;
use crate::types::cols_view;
use crate::types::rows_view;
use crate::types::CellsView;
use crate::types::Column;
use crate::types::ColumnView;
use crate::types::Row;

verus! {

/// The given column's value in the row contains the query, case-insensitively.
pub open spec fn col_matches(row: CellsView, col: ColumnView, q: Seq<char>) -> bool {
    match cells_lookup(row, col.id) {
        Some(v) => contains_ci(v, q),
        None => false,
    }
}

/// Some declared column's value in the row contains the query.
pub open spec fn row_matches(row: CellsView, cols: Seq<ColumnView>, q: Seq<char>) -> bool {
    exists|c: int| 0 <= c < cols.len() && col_matches(row, #[trigger] cols[c], q)
}

/// The filter keeps a row when the query is empty or the row matches it.
pub open spec fn row_kept(row: CellsView, cols: Seq<ColumnView>, q: Seq<char>) -> bool {
    q.len() == 0 || row_matches(row, cols, q)
}

/// Indices below `n` of the rows the filter keeps, in original order.
pub open spec fn filtered_upto(
    rows: Seq<CellsView>,
    cols: Seq<ColumnView>,
    q: Seq<char>,
    n: int,
) -> Seq<usize>
    decreases n,
{
    if n <= 0 {
        Seq::empty()
    } else if row_kept(rows[n - 1], cols, q) {
        filtered_upto(rows, cols, q, n - 1).push((n - 1) as usize)
    } else {
        filtered_upto(rows, cols, q, n - 1)
    }
}

/// Indices of all rows the filter keeps, in original order.
pub open spec fn filtered_indices(rows: Seq<CellsView>, cols: Seq<ColumnView>, q: Seq<char>) -> Seq<
    usize,
> {
    filtered_upto(rows, cols, q, rows.len() as int)
}

/// The filtered indices below `n` are in range, strictly increasing, and hold
/// exactly the kept rows.
pub proof fn lemma_filtered_upto_props(
    rows: Seq<CellsView>,
    cols: Seq<ColumnView>,
    q: Seq<char>,
    n: int,
)
    requires
        0 <= n <= rows.len(),
        n <= usize::MAX,
    ensures
        forall|j: int|
            0 <= j < filtered_upto(rows, cols, q, n).len() ==> (#[trigger] filtered_upto(
                rows,
                cols,
                q,
                n,
            )[j]) < n,
        forall|j: int, k: int|
            0 <= j < k < filtered_upto(rows, cols, q, n).len() ==> filtered_upto(rows, cols, q, n)[j]
                < filtered_upto(rows, cols, q, n)[k],
        forall|i: usize|
            filtered_upto(rows, cols, q, n).contains(i) <==> (i < n && row_kept(
                rows[i as int],
                cols,
                q,
            )),
    decreases n,
{
    if n > 0 {
        lemma_filtered_upto_props(rows, cols, q, n - 1);
        let g = filtered_upto(rows, cols, q, n - 1);
        let f = filtered_upto(rows, cols, q, n);
        let m = (n - 1) as usize;
        if row_kept(rows[n - 1], cols, q) {
            assert(f == g.push(m));
            assert forall|j: int, k: int| 0 <= j < k < f.len() implies f[j] < f[k] by {
                if k < g.len() {
                    assert(f[j] == g[j]);
                    assert(f[k] == g[k]);
                } else {
                    assert(f[k] == m);
                    assert(f[j] == g[j]);
                    assert(g[j] < n - 1);
                }
            }
            assert forall|i: usize| f.contains(i) implies (i < n && row_kept(
                rows[i as int],
                cols,
                q,
            )) by {
                let j = choose|j: int| 0 <= j < f.len() && f[j] == i;
                if j < g.len() {
                    assert(g[j] == i);
                    assert(g.contains(i));
                } else {
                    assert(i == m);
                }
            }
            assert forall|i: usize| (i < n && row_kept(rows[i as int], cols, q)) implies f.contains(
                i,
            ) by {
                if i < n - 1 {
                    assert(g.contains(i));
                    let j = choose|j: int| 0 <= j < g.len() && g[j] == i;
                    assert(f[j] == i);
                } else {
                    assert(f[g.len() as int] == i);
                }
            }
        } else {
            assert(f == g);
            assert forall|i: usize| f.contains(i) implies (i < n && row_kept(
                rows[i as int],
                cols,
                q,
            )) by {
                let j = choose|j: int| 0 <= j < g.len() && g[j] == i;
                assert(g[j] < n - 1);
            }
        }
    }
}

/// Filtering with an empty search query keeps every row, in original order.
pub proof fn lemma_empty_query_identity(rows: Seq<CellsView>, cols: Seq<ColumnView>, q: Seq<char>)
    requires
        q.len() == 0,
        rows.len() <= usize::MAX,
    ensures
        filtered_indices(rows, cols, q) == Seq::new(rows.len(), |i: int| i as usize),
{
    lemma_empty_upto(rows, cols, q, rows.len() as int);
}

proof fn lemma_empty_upto(rows: Seq<CellsView>, cols: Seq<ColumnView>, q: Seq<char>, n: int)
    requires
        q.len() == 0,
        0 <= n <= rows.len(),
    ensures
        filtered_upto(rows, cols, q, n) == Seq::new(n as nat, |i: int| i as usize),
    decreases n,
{
    if n <= 0 {
        assert(filtered_upto(rows, cols, q, n) =~= Seq::new(n as nat, |i: int| i as usize));
    } else {
        lemma_empty_upto(rows, cols, q, n - 1);
        assert(filtered_upto(rows, cols, q, n) =~= Seq::new(n as nat, |i: int| i as usize));
    }
}

/// The filter keeps exactly the rows where some declared column's value
/// contains the query case-insensitively, and keeps them in original order.
pub proof fn lemma_filter_exact(rows: Seq<CellsView>, cols: Seq<ColumnView>, q: Seq<char>)
    requires
        rows.len() <= usize::MAX,
    ensures
        forall|i: usize|
            filtered_indices(rows, cols, q).contains(i) <==> (i < rows.len() && row_kept(
                rows[i as int],
                cols,
                q,
            )),
        forall|j: int, k: int|
            0 <= j < k < filtered_indices(rows, cols, q).len() ==> filtered_indices(rows, cols, q)[j]
                < filtered_indices(rows, cols, q)[k],
        forall|j: int|
            0 <= j < filtered_indices(rows, cols, q).len() ==> (#[trigger] filtered_indices(
                rows,
                cols,
                q,
            )[j]) < rows.len(),
{
    lemma_filtered_upto_props(rows, cols, q, rows.len() as int);
}

/// Whether some declared column's value in this row contains the query.
pub fn row_matches_exec(row: &Row, columns: &Vec<Column>, query: &String) -> (r: bool)
    ensures
        r == row_matches(row@, cols_view(columns@), query@),
{
    let n = columns.len();
    let mut c: usize = 0;
    while c < n
        invariant
            c <= n,
            n == columns.len(),
            forall|t: int|
                0 <= t < c as int ==> !col_matches(row@, #[trigger] cols_view(columns@)[t], query@),
        decreases n - c,
    {
        proof {
            assert(cols_view(columns@)[c as int] == columns@[c as int]@);
        }
        let found = match row.get(&columns[c].id) {
            Some(v) => contains_ci_exec(v.as_str(), query.as_str()),
            None => false,
        };
        if found {
            proof {
                assert(col_matches(row@, cols_view(columns@)[c as int], query@));
            }
            return true;
        }
        c += 1;
    }
    false
}

/// Indices of the rows the current search keeps, in original order.
pub fn filter_rows(rows: &Vec<Row>, columns: &Vec<Column>, query: &String) -> (r: Vec<usize>)
    ensures
        r@ == filtered_indices(rows_view(rows@), cols_view(columns@), query@),
{
    let n = rows.len();
    let empty_q = query.as_str().is_empty();
    let mut out: Vec<usize> = Vec::new();
    let mut i: usize = 0;
    while i < n
        invariant
            i <= n,
            n == rows.len(),
            empty_q == (query@.len() == 0),
            out@ == filtered_upto(rows_view(rows@), cols_view(columns@), query@, i as int),
        decreases n - i,
    {
        proof {
            assert(rows_view(rows@)[i as int] == rows@[i as int]@);
        }
        let kept = empty_q || row_matches_exec(&rows[i], columns, query);
        if kept {
            out.push(i);
        }
        i += 1;
    }
    proof {
        assert(rows_view(rows@).len() == rows@.len());
    }
    out
}

} // verus!
