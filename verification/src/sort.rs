//! Step two of the pipeline: sort the filtered row indices by a column's
//! values.
//!
//! The comparison is ordinary lexicographic string comparison; a row without
//! the column sorts as the empty string. Descending order reverses the
//! two-argument comparison, never the final list, and ties are broken by row
//! index, which is the filter order — together that is exactly a stable sort
//! of the filtered indices.

use vstd::prelude::*;
use vstd::relations::sorted_by;
use vstd::relations::total_ordering;
use vstd::seq_lib::lemma_sorted_unique;

use crate::text::lemma_lex_lt_asym;
use crate::text::lemma_lex_lt_connected;
use crate::text::lemma_lex_lt_irrefl;
use crate::text::lemma_lex_lt_trans;
use crate::text::lex_lt;
use crate::text::lex_lt_exec;
use crate::types::cells_lookup;
use crate::types::rows_view;
use crate::types::CellsView;
use crate::types::Row;
use crate::types::SortOrder;

verus! {

/// The string a row sorts by under a column: its value there, or the empty
/// string when the row lacks the column.
pub open spec fn sort_key(rows: Seq<CellsView>, col: Seq<char>, i: usize) -> Seq<char> {
    match cells_lookup(rows[i as int], col) {
        Some(v) => v,
        None => Seq::empty(),
    }
}

/// Strict order on row indices under an active sort: by the column's values,
/// with descending order reversing the two-argument comparison, and ties
/// broken by index — the filter order.
pub open spec fn idx_lt(
    rows: Seq<CellsView>,
    col: Seq<char>,
    ord: SortOrder,
    a: usize,
    b: usize,
) -> bool {
    let ka = sort_key(rows, col, a);
    let kb = sort_key(rows, col, b);
    if ka == kb {
        a < b
    } else {
        match ord {
            SortOrder::Asc => lex_lt(ka, kb),
            SortOrder::Desc => lex_lt(kb, ka),
        }
    }
}

/// The order sorting goes by: `idx_lt` or equality.
pub open spec fn idx_le(
    rows: Seq<CellsView>,
    col: Seq<char>,
    ord: SortOrder,
    a: usize,
    b: usize,
) -> bool {
    a == b || idx_lt(rows, col, ord, a, b)
}

/// The sort order as a binary relation value.
pub open spec fn idx_le_fn(rows: Seq<CellsView>, col: Seq<char>, ord: SortOrder) -> spec_fn(
    usize,
    usize,
) -> bool {
    |a: usize, b: usize| idx_le(rows, col, ord, a, b)
}

/// On distinct indices the strict order runs one way or the other.
pub proof fn lemma_idx_lt_total(
    rows: Seq<CellsView>,
    col: Seq<char>,
    ord: SortOrder,
    a: usize,
    b: usize,
)
    requires
        a != b,
    ensures
        idx_lt(rows, col, ord, a, b) || idx_lt(rows, col, ord, b, a),
{
    let ka = sort_key(rows, col, a);
    let kb = sort_key(rows, col, b);
    if ka != kb {
        if !lex_lt(ka, kb) && !lex_lt(kb, ka) {
            lemma_lex_lt_connected(ka, kb);
        }
    }
}

/// The sort order is a total ordering, so the sorted sequence is unique.
pub proof fn lemma_idx_le_total(rows: Seq<CellsView>, col: Seq<char>, ord: SortOrder)
    ensures
        total_ordering(idx_le_fn(rows, col, ord)),
{
    let leq = idx_le_fn(rows, col, ord);
    assert forall|a: usize, b: usize| #[trigger] leq(a, b) && #[trigger] leq(b, a) implies a
        == b by {
        if a != b {
            let ka = sort_key(rows, col, a);
            let kb = sort_key(rows, col, b);
            if ka != kb {
                lemma_lex_lt_asym(ka, kb);
            }
        }
    }
    assert forall|a: usize, b: usize, c: usize| #[trigger] leq(a, b) && #[trigger] leq(b, c)
        implies leq(a, c) by {
        if a != b && b != c && a != c {
            let ka = sort_key(rows, col, a);
            let kb = sort_key(rows, col, b);
            let kc = sort_key(rows, col, c);
            if ka == kb && kb == kc {
            } else if ka == kb {
                lemma_lex_lt_irrefl(kc);
            } else if kb == kc {
                lemma_lex_lt_irrefl(ka);
            } else {
                match ord {
                    SortOrder::Asc => {
                        lemma_lex_lt_trans(ka, kb, kc);
                        lemma_lex_lt_irrefl(ka);
                    },
                    SortOrder::Desc => {
                        lemma_lex_lt_trans(kc, kb, ka);
                        lemma_lex_lt_irrefl(ka);
                    },
                }
            }
        }
    }
    assert forall|a: usize, b: usize| #[trigger] leq(a, b) || #[trigger] leq(b, a) by {
        if a != b {
            lemma_idx_lt_total(rows, col, ord, a, b);
        }
    }
}

/// The value this row sorts by under the column.
fn sort_key_exec(rows: &Vec<Row>, col: &String, i: usize) -> (k: String)
    requires
        i < rows@.len(),
    ensures
        k@ == sort_key(rows_view(rows@), col@, i),
{
    proof {
        assert(rows_view(rows@)[i as int] == rows@[i as int]@);
    }
    match rows[i].get(col) {
        Some(v) => v.clone(),
        None => String::new(),
    }
}

/// Whether row index `a` comes strictly before `b` under the active sort.
fn idx_lt_exec(rows: &Vec<Row>, col: &String, ord: SortOrder, a: usize, b: usize) -> (r: bool)
    requires
        a < rows@.len(),
        b < rows@.len(),
    ensures
        r == idx_lt(rows_view(rows@), col@, ord, a, b),
{
    let ka = sort_key_exec(rows, col, a);
    let kb = sort_key_exec(rows, col, b);
    if ka == kb {
        a < b
    } else {
        match ord {
            SortOrder::Asc => lex_lt_exec(ka.as_str(), kb.as_str()),
            SortOrder::Desc => lex_lt_exec(kb.as_str(), ka.as_str()),
        }
    }
}

/// `x` appears somewhere before `y` in the sequence.
pub open spec fn precedes(s: Seq<usize>, x: usize, y: usize) -> bool {
    exists|i: int, j: int| 0 <= i < j < s.len() && s[i] == x && s[j] == y
}

/// In a sequence sorted by a total ordering, one element stands before
/// another exactly when the ordering puts it first.
pub proof fn lemma_precedes_iff_le(
    s: Seq<usize>,
    leq: spec_fn(usize, usize) -> bool,
    x: usize,
    y: usize,
)
    requires
        sorted_by(s, leq),
        total_ordering(leq),
        s.contains(x),
        s.contains(y),
        x != y,
    ensures
        precedes(s, x, y) <==> leq(x, y),
{
    if precedes(s, x, y) {
        let (i, j) = choose|i: int, j: int| 0 <= i < j < s.len() && s[i] == x && s[j] == y;
        assert(leq(s[i], s[j]));
    }
    if leq(x, y) {
        let i = choose|i: int| 0 <= i < s.len() && s[i] == x;
        let j = choose|j: int| 0 <= j < s.len() && s[j] == y;
        if j < i {
            assert(leq(s[j], s[i]));
            assert(false);
        }
        assert(0 <= i < j < s.len() && s[i] == x && s[j] == y);
    }
}

/// Sorting the same filtered indices ascending and descending by one column
/// reverses the relative order of two rows whose values differ, and preserves
/// the relative order — the filter order — of two rows whose values tie.
pub proof fn lemma_sort_direction(
    rows: Seq<CellsView>,
    col: Seq<char>,
    f: Seq<usize>,
    x: usize,
    y: usize,
)
    requires
        f.contains(x),
        f.contains(y),
        x != y,
    ensures
        ({
            let asc = f.sort_by(idx_le_fn(rows, col, SortOrder::Asc));
            let desc = f.sort_by(idx_le_fn(rows, col, SortOrder::Desc));
            &&& sort_key(rows, col, x) != sort_key(rows, col, y) ==> (precedes(asc, x, y)
                <==> precedes(desc, y, x))
            &&& sort_key(rows, col, x) == sort_key(rows, col, y) ==> (precedes(asc, x, y)
                <==> precedes(desc, x, y))
        }),
{
    let la = idx_le_fn(rows, col, SortOrder::Asc);
    let ld = idx_le_fn(rows, col, SortOrder::Desc);
    let asc = f.sort_by(la);
    let desc = f.sort_by(ld);
    lemma_idx_le_total(rows, col, SortOrder::Asc);
    lemma_idx_le_total(rows, col, SortOrder::Desc);
    f.lemma_sort_by_ensures(la);
    f.lemma_sort_by_ensures(ld);
    vstd::seq_lib::to_multiset_contains(f, x);
    vstd::seq_lib::to_multiset_contains(f, y);
    vstd::seq_lib::to_multiset_contains(asc, x);
    vstd::seq_lib::to_multiset_contains(asc, y);
    vstd::seq_lib::to_multiset_contains(desc, x);
    vstd::seq_lib::to_multiset_contains(desc, y);
    lemma_precedes_iff_le(asc, la, x, y);
    lemma_precedes_iff_le(desc, ld, y, x);
    lemma_precedes_iff_le(desc, ld, x, y);
}

/// The filtered indices, sorted by the column's values under the given order.
///
/// The result is exactly `sort_by` of the input under `idx_le_fn`: a stable
/// sort, since ties keep their index order — the filter order.
pub fn sort_indices(indices: &Vec<usize>, rows: &Vec<Row>, col: &String, ord: SortOrder) -> (r: Vec<
    usize,
>)
    requires
        forall|j: int| 0 <= j < indices@.len() ==> (#[trigger] indices@[j]) < rows@.len(),
    ensures
        r@ == indices@.sort_by(idx_le_fn(rows_view(rows@), col@, ord)),
{
    broadcast use vstd::seq_lib::group_to_multiset_ensures;
    broadcast use vstd::multiset::group_multiset_axioms;

    let ghost leq = idx_le_fn(rows_view(rows@), col@, ord);
    proof {
        lemma_idx_le_total(rows_view(rows@), col@, ord);
    }
    let n = indices.len();
    let mut out: Vec<usize> = Vec::new();
    let mut i: usize = 0;
    proof {
        assert(indices@.take(0).to_multiset() =~= out@.to_multiset());
    }
    while i < n
        invariant
            i <= n,
            n == indices@.len(),
            forall|j: int| 0 <= j < indices@.len() ==> (#[trigger] indices@[j]) < rows@.len(),
            forall|j: int| 0 <= j < out@.len() ==> (#[trigger] out@[j]) < rows@.len(),
            leq == idx_le_fn(rows_view(rows@), col@, ord),
            total_ordering(leq),
            sorted_by(out@, leq),
            out@.to_multiset() == indices@.take(i as int).to_multiset(),
        decreases n - i,
    {
        let x = indices[i];
        let mut p: usize = 0;
        while p < out.len() && idx_lt_exec(rows, col, ord, out[p], x)
            invariant
                p <= out@.len(),
                x < rows@.len(),
                forall|j: int| 0 <= j < out@.len() ==> (#[trigger] out@[j]) < rows@.len(),
                forall|t: int|
                    0 <= t < p as int ==> idx_lt(rows_view(rows@), col@, ord, out@[t], x),
            decreases out@.len() - p,
        {
            p += 1;
        }
        let ghost old_out = out@;
        out.insert(p, x);
        proof {
            old_out.insert_ensures(p as int, x);
            // Everything before the insertion point is strictly below `x`,
            // everything at or after it is at or above `x`.
            if (p as int) < old_out.len() {
                assert(!idx_lt(rows_view(rows@), col@, ord, old_out[p as int], x));
                if old_out[p as int] != x {
                    lemma_idx_lt_total(rows_view(rows@), col@, ord, old_out[p as int], x);
                }
                assert(leq(x, old_out[p as int]));
            }
            assert forall|j: int, k: int| 0 <= j < k < out@.len() implies #[trigger] leq(
                out@[j],
                out@[k],
            ) by {
                if k < p as int {
                    assert(leq(old_out[j], old_out[k]));
                } else if j > p as int {
                    assert(leq(old_out[j - 1], old_out[k - 1]));
                } else if j == p as int {
                    assert(out@[j] == x);
                    assert(out@[k] == old_out[k - 1]);
                    assert(leq(x, old_out[p as int]));
                    if k - 1 > p as int {
                        assert(leq(old_out[p as int], old_out[k - 1]));
                    }
                } else if k == p as int {
                    assert(out@[j] == old_out[j]);
                    assert(out@[k] == x);
                    assert(idx_lt(rows_view(rows@), col@, ord, old_out[j], x));
                } else {
                    // j < p < k
                    assert(out@[j] == old_out[j]);
                    assert(out@[k] == old_out[k - 1]);
                    if k - 1 == p as int {
                        assert(leq(out@[j], x));
                    } else {
                        assert(leq(old_out[j], old_out[k - 1]));
                    }
                }
            }
            // The insertion adds exactly `x` to the contents.
            vstd::seq_lib::to_multiset_insert(old_out, p as int, x);
            assert(indices@.take(i as int + 1) =~= indices@.take(i as int).push(x));
            vstd::seq_lib::to_multiset_build(indices@.take(i as int), x);
        }
        i += 1;
    }
    proof {
        assert(indices@.take(n as int) =~= indices@);
        indices@.lemma_sort_by_ensures(leq);
        lemma_sorted_unique(out@, indices@.sort_by(leq), leq);
    }
    out
}

} // verus!
