//! The table query engine: one pure, synchronous pass from the dataset, the
//! column descriptors, and the current view state to the rows to display and
//! the pagination metadata.
//!
//! The pipeline is filter, then sort, then paginate. No input is rejected:
//! a bad page size, a stale page index, and an unknown sort column id are all
//! normalized or ignored, so user interaction can never produce an invalid
//! view.

use vstd::prelude::*;

use crate::filter::filter_rows;
use crate::filter::filtered_indices;
use crate::filter::lemma_filter_exact;
use crate::paging::clamp_page;
use crate::paging::effective_page_size;
use crate::paging::spec_clamp_page;
use crate::paging::spec_total_pages;
use crate::paging::total_pages;
use crate::sort::idx_le_fn;
use crate::sort::lemma_idx_le_total;
use crate::sort::sort_indices;
use crate::types::cols_view;
use crate::types::opt_id_view;
use crate::types::rows_view;
use crate::types::CellsView;
use crate::types::Column;
use crate::types::ColumnView;
use crate::types::Row;
use crate::types::SortOrder;
use crate::types::ViewResult;
use crate::types::ViewState;
use crate::types::ViewStateView;

verus! {

/// Whether some declared column has this id.
pub open spec fn has_column(cols: Seq<ColumnView>, id: Seq<char>) -> bool {
    exists|c: int| 0 <= c < cols.len() && (#[trigger] cols[c]).id == id
}

/// The filtered row indices in display order: sorted by the active column
/// when it names a declared column, otherwise left in filter order.
pub open spec fn ordered_indices(
    rows: Seq<CellsView>,
    cols: Seq<ColumnView>,
    st: ViewStateView,
) -> Seq<usize> {
    let f = filtered_indices(rows, cols, st.search_query);
    match st.sort_column {
        Some(id) => if has_column(cols, id) {
            f.sort_by(idx_le_fn(rows, id, st.sort_order))
        } else {
            f
        },
        None => f,
    }
}

/// The rows of the current page: the display-ordered indices, cut to the
/// page's window, looked up in the dataset.
pub open spec fn spec_visible_rows(
    rows: Seq<CellsView>,
    cols: Seq<ColumnView>,
    page_size: int,
    st: ViewStateView,
) -> Seq<CellsView> {
    let ord = ordered_indices(rows, cols, st);
    let p = effective_page_size(page_size);
    let total = spec_total_pages(ord.len() as int, p);
    let cur = spec_clamp_page(st.page, total);
    let start = cur * p;
    let end = if (cur + 1) * p > ord.len() {
        ord.len() as int
    } else {
        (cur + 1) * p
    };
    ord.subrange(start, end).map_values(|i: usize| rows[i as int])
}

/// Whether some declared column carries this id.
fn has_column_exec(columns: &Vec<Column>, id: &String) -> (r: bool)
    ensures
        r == has_column(cols_view(columns@), id@),
{
    let n = columns.len();
    let mut c: usize = 0;
    while c < n
        invariant
            c <= n,
            n == columns.len(),
            forall|t: int| 0 <= t < c as int ==> (#[trigger] cols_view(columns@)[t]).id != id@,
        decreases n - c,
    {
        proof {
            assert(cols_view(columns@)[c as int] == columns@[c as int]@);
        }
        if columns[c].id == *id {
            return true;
        }
        c += 1;
    }
    false
}

/// Compute what the table displays: the rows of the current page, the number
/// of pages, and the page index actually shown.
///
/// The dataset is filtered by the search query, sorted by the active column
/// when one is set and declared, and cut to the current page. The returned
/// rows are copies, independent of the dataset. Nothing is mutated and no
/// input is rejected.
pub fn compute_view(
    rows: &Vec<Row>,
    columns: &Vec<Column>,
    page_size: usize,
    state: &ViewState,
) -> (r: ViewResult)
    ensures
        r.total_pages as int == spec_total_pages(
            filtered_indices(rows_view(rows@), cols_view(columns@), state@.search_query).len() as int,
            effective_page_size(page_size as int),
        ),
        r.clamped_page as int == spec_clamp_page(state@.page, r.total_pages as int),
        rows_view(r.visible_rows@) == spec_visible_rows(
            rows_view(rows@),
            cols_view(columns@),
            page_size as int,
            state@,
        ),
        r.total_pages >= 1,
        r.clamped_page < r.total_pages,
        r.visible_rows@.len() <= effective_page_size(page_size as int),
{
    let ghost rv = rows_view(rows@);
    let ghost cv = cols_view(columns@);
    let nrows = rows.len();
    proof {
        assert(rv.len() == rows@.len());
        lemma_filter_exact(rv, cv, state@.search_query);
    }
    // Step one: filter by the search query.
    let filtered = filter_rows(rows, columns, &state.search_query);
    let ghost fseq = filtered@;
    proof {
        assert(forall|j: int| 0 <= j < fseq.len() ==> (#[trigger] fseq[j]) < nrows);
    }
    // Step two: sort by the active column, when it names a declared column.
    let ordered = match &state.sort_column {
        Some(col_id) => {
            if has_column_exec(columns, col_id) {
                let s = sort_indices(&filtered, rows, col_id, state.sort_order);
                proof {
                    let leq = idx_le_fn(rv, col_id@, state.sort_order);
                    lemma_idx_le_total(rv, col_id@, state.sort_order);
                    fseq.lemma_sort_by_ensures(leq);
                    vstd::seq_lib::to_multiset_len(fseq);
                    vstd::seq_lib::to_multiset_len(s@);
                    assert(s@.len() == fseq.len());
                    assert forall|j: int| 0 <= j < s@.len() implies (#[trigger] s@[j])
                        < nrows by {
                        let v = s@[j];
                        assert(s@.contains(v));
                        if !fseq.contains(v) {
                            assert(!s@.contains(v));
                        }
                        let t = choose|t: int| 0 <= t < fseq.len() && fseq[t] == v;
                        assert(fseq[t] < nrows);
                    }
                    assert(s@ == ordered_indices(rv, cv, state@));
                }
                s
            } else {
                proof {
                    assert(fseq == ordered_indices(rv, cv, state@));
                }
                filtered
            }
        },
        None => {
            proof {
                assert(fseq == ordered_indices(rv, cv, state@));
            }
            filtered
        },
    };
    let ghost ord = ordered@;
    proof {
        assert(ord == ordered_indices(rv, cv, state@));
        assert(ord.len() == fseq.len());
        assert(forall|j: int| 0 <= j < ord.len() ==> (#[trigger] ord[j]) < nrows);
    }
    // Step three: paginate.
    let count_rows = ordered.len();
    let tp = total_pages(count_rows, page_size);
    let cur = clamp_page(state.page, tp);
    let p_eff = if page_size < 1 {
        1
    } else {
        page_size
    };
    proof {
        // The window start lies inside the row count.
        if count_rows > 0 {
            vstd::arithmetic::div_mod::lemma_remainder(count_rows as int - 1, p_eff as int);
            assert(cur as int <= (count_rows as int - 1) / p_eff as int);
            assert(cur as int * p_eff as int <= (count_rows as int - 1) / p_eff as int * p_eff
                as int) by (nonlinear_arith)
                requires
                    0 <= cur as int <= (count_rows as int - 1) / p_eff as int,
                    p_eff as int >= 1,
            ;
            assert(cur as int * p_eff as int <= count_rows as int - 1);
            assert(cur as int * p_eff as int <= usize::MAX);
        } else {
            assert(cur == 0);
            assert(cur as int * p_eff as int == 0) by (nonlinear_arith)
                requires
                    cur as int == 0,
            ;
            assert(cur as int * p_eff as int <= usize::MAX);
        }
        assert(cur as int * p_eff as int <= count_rows as int || cur as int * p_eff as int == 0);
    }
    let start = cur * p_eff;
    let room = count_rows - start;
    let take = if room < p_eff {
        room
    } else {
        p_eff
    };
    let end = start + take;
    // Materialize the page window as owned copies of the rows.
    let mut visible: Vec<Row> = Vec::new();
    let mut t: usize = start;
    while t < end
        invariant
            start <= t <= end,
            end <= count_rows,
            count_rows == ordered@.len(),
            nrows == rows@.len(),
            forall|j: int| 0 <= j < ordered@.len() ==> (#[trigger] ordered@[j]) < nrows,
            visible@.len() == t - start,
            forall|j: int|
                0 <= j < visible@.len() ==> (#[trigger] visible@[j])@ == rows@[ordered@[start as int
                    + j] as int]@,
        decreases end - t,
    {
        let idx = ordered[t];
        visible.push(rows[idx].clone());
        t += 1;
    }
    proof {
        let p = effective_page_size(page_size as int);
        assert(p == p_eff as int);
        let total = spec_total_pages(ord.len() as int, p);
        assert(total == tp as int);
        let scur = spec_clamp_page(state@.page, total);
        assert(scur == cur as int);
        let sstart = scur * p;
        assert(sstart == start as int);
        let send = if (scur + 1) * p > ord.len() {
            ord.len() as int
        } else {
            (scur + 1) * p
        };
        assert((scur + 1) * p == scur * p + p) by (nonlinear_arith);
        assert(send == end as int);
        let target = ord.subrange(sstart, send).map_values(|i: usize| rv[i as int]);
        assert forall|j: int| 0 <= j < visible@.len() implies rows_view(visible@)[j]
            == target[j] by {
            assert(rows_view(visible@)[j] == visible@[j]@);
            assert(ord.subrange(sstart, send)[j] == ord[sstart + j]);
            assert(rv[ord[sstart + j] as int] == rows@[ord[sstart + j] as int]@);
        }
        assert(rows_view(visible@) =~= target);
    }
    ViewResult { visible_rows: visible, total_pages: tp, clamped_page: cur }
}

/// The order shown after a header click: a click on the active column flips
/// it, a click on a new column resets it to ascending.
pub open spec fn toggled_order(
    current: Option<Seq<char>>,
    ord: SortOrder,
    clicked: Seq<char>,
) -> SortOrder {
    match current {
        Some(c) => if c == clicked {
            flip_order(ord)
        } else {
            SortOrder::Asc
        },
        None => SortOrder::Asc,
    }
}

/// The opposite sort order.
pub open spec fn flip_order(ord: SortOrder) -> SortOrder {
    match ord {
        SortOrder::Asc => SortOrder::Desc,
        SortOrder::Desc => SortOrder::Asc,
    }
}

/// The sort state after a click on the header of `clicked`: a click on the
/// active column flips the order, a click on any other column selects it and
/// resets the order to ascending.
pub fn toggle_sort(current_column: &Option<String>, current_order: SortOrder, clicked: &String) -> (r:
    (Option<String>, SortOrder))
    ensures
        r.0 matches Some(c) && c@ == clicked@,
        r.1 == toggled_order(opt_id_view(*current_column), current_order, clicked@),
{
    let same = match current_column {
        Some(cur) => *cur == *clicked,
        None => false,
    };
    let order = if same {
        match current_order {
            SortOrder::Asc => SortOrder::Desc,
            SortOrder::Desc => SortOrder::Asc,
        }
    } else {
        SortOrder::Asc
    };
    (Some(clicked.clone()), order)
}

/// Toggling the sort onto a column other than the active one always resets
/// the order to ascending, whatever the current order was.
pub proof fn lemma_toggle_new_column_resets(
    current: Option<Seq<char>>,
    ord: SortOrder,
    clicked: Seq<char>,
)
    requires
        match current {
            Some(c) => c != clicked,
            None => true,
        },
    ensures
        toggled_order(current, ord, clicked) == SortOrder::Asc,
{
}

/// The engine is a pure function: two results computed from the same dataset,
/// columns, page size, and view state are identical in every part.
pub proof fn lemma_compute_view_deterministic(
    rows: Seq<CellsView>,
    cols: Seq<ColumnView>,
    page_size: int,
    st: ViewStateView,
    visible1: Seq<CellsView>,
    total1: int,
    page1: int,
    visible2: Seq<CellsView>,
    total2: int,
    page2: int,
)
    requires
        total1 == spec_total_pages(
            filtered_indices(rows, cols, st.search_query).len() as int,
            effective_page_size(page_size),
        ),
        page1 == spec_clamp_page(st.page, total1),
        visible1 == spec_visible_rows(rows, cols, page_size, st),
        total2 == spec_total_pages(
            filtered_indices(rows, cols, st.search_query).len() as int,
            effective_page_size(page_size),
        ),
        page2 == spec_clamp_page(st.page, total2),
        visible2 == spec_visible_rows(rows, cols, page_size, st),
    ensures
        visible1 == visible2,
        total1 == total2,
        page1 == page2,
{
}

} // verus!
