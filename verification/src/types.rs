//! The data model: rows, column descriptors, the user-driven view state, and
//! the result of one view computation.

use vstd::prelude::*;

verus! {

/// Direction of an active sort.
#[derive(Clone, Copy, PartialEq, Eq, Structural, Debug)]
pub enum SortOrder {
    Asc,
    Desc,
}

/// Which way a pagination control moves the current page.
#[derive(Clone, Copy, PartialEq, Eq, Structural, Debug)]
pub enum PageDirection {
    Previous,
    Next,
}

/// One record of the dataset: column key / value pairs.
///
/// Keys need not cover every declared column; a key absent from a row is
/// simply a missing value. A well-formed row has pairwise distinct keys.
#[derive(Debug, PartialEq, Eq)]
pub struct Row {
    pub cells: Vec<(String, String)>,
}

/// The mathematical value of a row: its cells as character sequences.
pub type CellsView = Seq<(Seq<char>, Seq<char>)>;

impl View for Row {
    type V = CellsView;

    open spec fn view(&self) -> CellsView {
        Seq::new(self.cells@.len(), |i: int| (self.cells@[i].0@, self.cells@[i].1@))
    }
}

/// The value a row holds under `key`: the first cell whose key matches.
pub open spec fn cells_lookup(cells: CellsView, key: Seq<char>) -> Option<Seq<char>>
    decreases cells.len(),
{
    if cells.len() == 0 {
        None
    } else if cells[0].0 == key {
        Some(cells[0].1)
    } else {
        cells_lookup(cells.drop_first(), key)
    }
}

impl Row {
    /// The value this row holds under `key`, if the row has that column.
    pub fn get(&self, key: &String) -> (r: Option<&String>)
        ensures
            match r {
                Some(v) => cells_lookup(self@, key@) == Some(v@),
                None => cells_lookup(self@, key@) is None,
            },
    {
        let n = self.cells.len();
        let mut i: usize = 0;
        proof {
            assert(self@.skip(0) =~= self@);
        }
        while i < n
            invariant
                i <= n,
                n == self.cells.len(),
                cells_lookup(self@, key@) == cells_lookup(self@.skip(i as int), key@),
            decreases n - i,
        {
            proof {
                assert(self@.skip(i as int).len() == n - i);
                assert(self@.skip(i as int)[0] == self@[i as int]);
                assert(self@.skip(i as int).drop_first() =~= self@.skip(i as int + 1));
            }
            if self.cells[i].0 == *key {
                return Some(&self.cells[i].1);
            }
            i += 1;
        }
        proof {
            assert(self@.skip(n as int) =~= Seq::<(Seq<char>, Seq<char>)>::empty());
        }
        None
    }
}

impl Clone for Row {
    /// Cloning copies every cell, so the clone has the same view.
    fn clone(&self) -> (r: Self)
        ensures
            r@ == self@,
    {
        let n = self.cells.len();
        let mut cells: Vec<(String, String)> = Vec::new();
        let mut i: usize = 0;
        while i < n
            invariant
                i <= n,
                n == self.cells.len(),
                cells@.len() == i as int,
                forall|j: int| 0 <= j < i as int ==> #[trigger] cells@[j] == self.cells@[j],
            decreases n - i,
        {
            let k = self.cells[i].0.clone();
            let v = self.cells[i].1.clone();
            cells.push((k, v));
            i += 1;
        }
        let r = Row { cells };
        proof {
            assert(r@ =~= self@);
        }
        r
    }
}

/// Static descriptor of one column: data key, display label, sort eligibility.
pub struct Column {
    pub id: String,
    pub header: String,
    pub sortable: bool,
}

/// The mathematical value of a column descriptor.
pub struct ColumnView {
    pub id: Seq<char>,
    pub header: Seq<char>,
    pub sortable: bool,
}

impl View for Column {
    type V = ColumnView;

    open spec fn view(&self) -> ColumnView {
        ColumnView { id: self.id@, header: self.header@, sortable: self.sortable }
    }
}

/// The mutable, user-driven part of the table state.
pub struct ViewState {
    /// Current page index, 0-based; may be stale and is clamped on use.
    pub page: usize,
    /// Id of the column an active sort goes by, if any.
    pub sort_column: Option<String>,
    pub sort_order: SortOrder,
    /// Raw search text; empty means no filtering.
    pub search_query: String,
}

/// The mathematical value of the view state.
pub struct ViewStateView {
    pub page: int,
    pub sort_column: Option<Seq<char>>,
    pub sort_order: SortOrder,
    pub search_query: Seq<char>,
}

/// The view of an optional column id.
pub open spec fn opt_id_view(o: Option<String>) -> Option<Seq<char>> {
    match o {
        Some(c) => Some(c@),
        None => None,
    }
}

impl View for ViewState {
    type V = ViewStateView;

    open spec fn view(&self) -> ViewStateView {
        ViewStateView {
            page: self.page as int,
            sort_column: opt_id_view(self.sort_column),
            sort_order: self.sort_order,
            search_query: self.search_query@,
        }
    }
}

/// What one view computation yields: the page of rows to display, the number
/// of pages, and the page index actually shown.
#[derive(Debug, PartialEq, Eq)]
pub struct ViewResult {
    pub visible_rows: Vec<Row>,
    pub total_pages: usize,
    pub clamped_page: usize,
}

/// The views of a sequence of rows.
pub open spec fn rows_view(rows: Seq<Row>) -> Seq<CellsView> {
    rows.map_values(|r: Row| r@)
}

/// The views of a sequence of column descriptors.
pub open spec fn cols_view(cols: Seq<Column>) -> Seq<ColumnView> {
    cols.map_values(|c: Column| c@)
}

} // verus!
