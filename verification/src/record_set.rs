//! Tabular record sets: an ordered header of named columns and rows of
//! optional text cells, with the row operations the pipeline is built from.

use vstd::prelude::*;
use vstd::string::StringExecFns;

verus! {

/// The mathematical content of a record set.
pub struct TableView {
    /// Column names, in header order.
    pub columns: Seq<Seq<char>>,
    /// Rows in source order; a cell is `None` where the source had no value.
    pub rows: Seq<Seq<Option<Seq<char>>>>,
}

impl TableView {
    /// Every row has one cell per column.
    pub open spec fn rectangular(self) -> bool {
        forall|i: int|
            0 <= i < self.rows.len() ==> (#[trigger] self.rows[i]).len() == self.columns.len()
    }

    /// `i` is the position of the first column called `name`.
    pub open spec fn is_first_column(self, name: Seq<char>, i: int) -> bool {
        &&& 0 <= i < self.columns.len()
        &&& self.columns[i] == name
        &&& forall|j: int| 0 <= j < i ==> self.columns[j] != name
    }

    /// The position of the first column called `name`, where there is one.
    pub open spec fn position_of(self, name: Seq<char>) -> int {
        choose|i: int| self.is_first_column(name, i)
    }

    /// This table restricted to the rows whose cell under the first column
    /// called `name` is one of `allowed`.
    pub open spec fn restricted_to(self, name: Seq<char>, allowed: Seq<Seq<char>>) -> TableView {
        TableView {
            columns: self.columns,
            rows: allowed_rows(self.rows, self.position_of(name), allowed),
        }
    }

    /// This table restricted to the rows whose cell under the first column
    /// called `name` equals `value`.
    pub open spec fn where_equal(self, name: Seq<char>, value: Seq<char>) -> TableView {
        TableView {
            columns: self.columns,
            rows: matching_rows(self.rows, self.position_of(name), value),
        }
    }

    /// Where a column of the name exists, `position_of` names the first.
    pub proof fn lemma_position_is_first(self, name: Seq<char>)
        requires
            self.columns.contains(name),
        ensures
            self.is_first_column(name, self.position_of(name)),
    {
        let k = choose|k: int| 0 <= k < self.columns.len() && self.columns[k] == name;
        self.lemma_first_column_before(name, k);
    }

    proof fn lemma_first_column_before(self, name: Seq<char>, k: int)
        requires
            0 <= k < self.columns.len(),
            self.columns[k] == name,
        ensures
            exists|i: int| self.is_first_column(name, i),
        decreases k,
    {
        if exists|j: int| 0 <= j < k && self.columns[j] == name {
            let j = choose|j: int| 0 <= j < k && self.columns[j] == name;
            self.lemma_first_column_before(name, j);
        } else {
            assert(self.is_first_column(name, k));
        }
    }

    /// The cells of one column, top to bottom.
    pub open spec fn column_cells(self, column: int) -> Seq<Option<Seq<char>>> {
        Seq::new(self.rows.len(), |i: int| self.rows[i][column])
    }
}

/// `cell` holds a value and that value is one of `allowed`.
pub open spec fn is_member(allowed: Seq<Seq<char>>, cell: Option<Seq<char>>) -> bool {
    cell is Some && allowed.contains(cell->0)
}

/// The rows whose cell in `column` is a member of `allowed`, in the order
/// of the source.
pub open spec fn allowed_rows(
    rows: Seq<Seq<Option<Seq<char>>>>,
    column: int,
    allowed: Seq<Seq<char>>,
) -> Seq<Seq<Option<Seq<char>>>> {
    rows.filter(member_pred(column, allowed))
}

/// The test behind [`allowed_rows`].
pub open spec fn member_pred(column: int, allowed: Seq<Seq<char>>) -> spec_fn(
    Seq<Option<Seq<char>>>,
) -> bool {
    |r: Seq<Option<Seq<char>>>| is_member(allowed, r[column])
}

/// The rows whose cell in `column` equals `value`, in the order of the
/// source.
pub open spec fn matching_rows(
    rows: Seq<Seq<Option<Seq<char>>>>,
    column: int,
    value: Seq<char>,
) -> Seq<Seq<Option<Seq<char>>>> {
    rows.filter(equal_pred(column, value))
}

/// The test behind [`matching_rows`].
pub open spec fn equal_pred(column: int, value: Seq<char>) -> spec_fn(
    Seq<Option<Seq<char>>>,
) -> bool {
    |r: Seq<Option<Seq<char>>>| r[column] == Some(value)
}

/// All columns hold the same number of cells.
pub open spec fn columns_aligned(cols: Seq<(Seq<char>, Seq<Option<Seq<char>>>)>) -> bool {
    forall|j: int| 0 <= j < cols.len() ==> (#[trigger] cols[j]).1.len() == cols[0].1.len()
}

/// The table whose columns, left to right, are `cols`.
pub open spec fn table_of_columns(cols: Seq<(Seq<char>, Seq<Option<Seq<char>>>)>) -> TableView {
    TableView {
        columns: Seq::new(cols.len(), |j: int| cols[j].0),
        rows: Seq::new(
            if cols.len() == 0 {
                0
            } else {
                cols[0].1.len()
            },
            |i: int| Seq::new(cols.len(), |j: int| cols[j].1[i]),
        ),
    }
}

/// The columns of `t`, left to right, each with its name and its cells.
pub open spec fn columns_of_table(t: TableView) -> Seq<(Seq<char>, Seq<Option<Seq<char>>>)> {
    Seq::new(t.columns.len(), |j: int| (t.columns[j], t.column_cells(j)))
}

/// The number of rows whose cell in `column` is a member of `allowed`.
pub open spec fn count_allowed(
    rows: Seq<Seq<Option<Seq<char>>>>,
    column: int,
    allowed: Seq<Seq<char>>,
) -> nat
    decreases rows.len(),
{
    if rows.len() == 0 {
        0
    } else {
        count_allowed(rows.drop_last(), column, allowed) + if is_member(
            allowed,
            rows.last()[column],
        ) {
            1nat
        } else {
            0nat
        }
    }
}

/// Where in `rows` the row stands that comes out of the filter at
/// position `i`.
pub open spec fn origin(
    rows: Seq<Seq<Option<Seq<char>>>>,
    column: int,
    allowed: Seq<Seq<char>>,
    i: int,
) -> int
    decreases rows.len(),
{
    if rows.len() == 0 {
        0
    } else if is_member(allowed, rows.last()[column]) && i == allowed_rows(
        rows.drop_last(),
        column,
        allowed,
    ).len() {
        rows.len() - 1
    } else {
        origin(rows.drop_last(), column, allowed, i)
    }
}

/// As many rows come out of the filter as there are rows with an allowed
/// category.
pub proof fn lemma_filter_counts(
    rows: Seq<Seq<Option<Seq<char>>>>,
    column: int,
    allowed: Seq<Seq<char>>,
)
    ensures
        allowed_rows(rows, column, allowed).len() == count_allowed(rows, column, allowed),
    decreases rows.len(),
{
    reveal(Seq::filter);
    if rows.len() > 0 {
        lemma_filter_counts(rows.drop_last(), column, allowed);
    }
}

/// Each row that comes out of the filter is a row of the source with an
/// allowed category.
pub proof fn lemma_filter_origin(
    rows: Seq<Seq<Option<Seq<char>>>>,
    column: int,
    allowed: Seq<Seq<char>>,
    i: int,
)
    requires
        0 <= i < allowed_rows(rows, column, allowed).len(),
    ensures
        0 <= origin(rows, column, allowed, i) < rows.len(),
        rows[origin(rows, column, allowed, i)] == allowed_rows(rows, column, allowed)[i],
        is_member(allowed, allowed_rows(rows, column, allowed)[i][column]),
    decreases rows.len(),
{
    reveal(Seq::filter);
    if rows.len() > 0 {
        let head = rows.drop_last();
        if !(is_member(allowed, rows.last()[column]) && i == allowed_rows(
            head,
            column,
            allowed,
        ).len()) {
            lemma_filter_origin(head, column, allowed, i);
        }
    }
}

/// The filter changes no order: of two rows that come out of it, the one
/// that comes out first stands first in the source.
pub proof fn lemma_filter_keeps_order(
    rows: Seq<Seq<Option<Seq<char>>>>,
    column: int,
    allowed: Seq<Seq<char>>,
    i: int,
    j: int,
)
    requires
        0 <= i < j < allowed_rows(rows, column, allowed).len(),
    ensures
        origin(rows, column, allowed, i) < origin(rows, column, allowed, j),
    decreases rows.len(),
{
    reveal(Seq::filter);
    if rows.len() > 0 {
        let head = rows.drop_last();
        if is_member(allowed, rows.last()[column]) && j == allowed_rows(
            head,
            column,
            allowed,
        ).len() {
            lemma_filter_origin(head, column, allowed, i);
        } else {
            lemma_filter_keeps_order(head, column, allowed, i, j);
        }
    }
}

/// The values of `cells` without repetition, each at its first occurrence.
pub open spec fn distinct(cells: Seq<Option<Seq<char>>>) -> Seq<Option<Seq<char>>>
    decreases cells.len(),
{
    if cells.len() == 0 {
        Seq::empty()
    } else {
        let earlier = distinct(cells.drop_last());
        if earlier.contains(cells.last()) {
            earlier
        } else {
            earlier.push(cells.last())
        }
    }
}

/// True when `s` is one of `list`.
pub fn text_in(list: &Vec<String>, s: &String) -> (found: bool)
    ensures
        found == list.deep_view().contains(s@),
{
    let mut i: usize = 0;
    while i < list.len()
        invariant
            i <= list.len(),
            forall|j: int| 0 <= j < i ==> list.deep_view()[j] != s@,
        decreases list.len() - i,
    {
        if list[i] == *s {
            assert(list.deep_view()[i as int] == s@);
            return true;
        }
        i += 1;
    }
    false
}

/// A copy of one cell.
pub fn clone_cell(cell: &Option<String>) -> (copy: Option<String>)
    ensures
        copy.deep_view() == cell.deep_view(),
{
    match cell {
        Some(s) => Some(s.clone()),
        None => None,
    }
}

/// A copy of one row.
pub fn clone_row(row: &Vec<Option<String>>) -> (copy: Vec<Option<String>>)
    ensures
        copy.deep_view() == row.deep_view(),
        copy.len() == row.len(),
{
    let mut copy: Vec<Option<String>> = Vec::new();
    let mut i: usize = 0;
    while i < row.len()
        invariant
            i <= row.len(),
            copy.len() == i,
            forall|j: int| 0 <= j < i ==> copy[j].deep_view() == row[j].deep_view(),
        decreases row.len() - i,
    {
        copy.push(clone_cell(&row[i]));
        i += 1;
    }
    copy
}

/// A copy of a list of names.
pub fn clone_names(names: &Vec<String>) -> (copy: Vec<String>)
    ensures
        copy.deep_view() == names.deep_view(),
        copy.len() == names.len(),
{
    let mut copy: Vec<String> = Vec::new();
    let mut i: usize = 0;
    while i < names.len()
        invariant
            i <= names.len(),
            copy.len() == i,
            forall|j: int| 0 <= j < i ==> copy[j]@ == names[j]@,
        decreases names.len() - i,
    {
        copy.push(names[i].clone());
        i += 1;
    }
    copy
}

/// What a row is selected for.
enum Wanted<'a> {
    /// The cell holds one of these values.
    OneOf(&'a Vec<String>),
    /// The cell holds this value.
    Exactly(&'a String),
}

impl<'a> Wanted<'a> {
    /// The test a row has to pass, by its cell in `column`.
    spec fn test(self, column: int) -> spec_fn(Seq<Option<Seq<char>>>) -> bool {
        match self {
            Wanted::OneOf(list) => member_pred(column, list.deep_view()),
            Wanted::Exactly(value) => equal_pred(column, value@),
        }
    }
}

/// An in-memory table: a fixed header and zero or more rows, each with one
/// cell per column.
#[derive(Debug, PartialEq, Eq)]
pub struct RecordSet {
    columns: Vec<String>,
    rows: Vec<Vec<Option<String>>>,
}

impl View for RecordSet {
    type V = TableView;

    closed spec fn view(&self) -> TableView {
        TableView { columns: self.columns.deep_view(), rows: self.rows.deep_view() }
    }
}

impl RecordSet {
    #[verifier::type_invariant]
    spec fn rows_fit_header(self) -> bool {
        forall|i: int|
            0 <= i < self.rows.len() ==> (#[trigger] self.rows[i]).len() == self.columns.len()
    }

    /// Builds a record set from a header and rows; `None` when some row does
    /// not have exactly one cell per column.
    pub fn new(columns: Vec<String>, rows: Vec<Vec<Option<String>>>) -> (made: Option<RecordSet>)
        ensures
            made is Some <==> (forall|i: int|
                0 <= i < rows.len() ==> (#[trigger] rows[i]).len() == columns.len()),
            made matches Some(t) ==> t@.columns == columns.deep_view() && t@.rows
                == rows.deep_view() && t@.rectangular(),
    {
        let mut i: usize = 0;
        while i < rows.len()
            invariant
                i <= rows.len(),
                forall|j: int| 0 <= j < i ==> (#[trigger] rows[j]).len() == columns.len(),
            decreases rows.len() - i,
        {
            if rows[i].len() != columns.len() {
                return None;
            }
            i += 1;
        }
        let t = RecordSet { columns, rows };
        proof {
            t.lemma_view_rectangular();
        }
        Some(t)
    }

    /// A table with the given header and no rows.
    pub fn empty(columns: Vec<String>) -> (made: RecordSet)
        ensures
            made@.columns == columns.deep_view(),
            made@.rows.len() == 0,
            made@.rectangular(),
    {
        RecordSet { columns, rows: Vec::new() }
    }

    /// Number of rows.
    pub fn height(&self) -> (n: usize)
        ensures
            n == self@.rows.len(),
            self@.rectangular(),
    {
        proof {
            use_type_invariant(self);
            self.lemma_view_rectangular();
        }
        self.rows.len()
    }

    /// Number of columns.
    pub fn width(&self) -> (n: usize)
        ensures
            n == self@.columns.len(),
    {
        self.columns.len()
    }

    /// The header.
    pub fn column_names(&self) -> (names: &Vec<String>)
        ensures
            names.deep_view() == self@.columns,
    {
        &self.columns
    }

    /// The rows, in order.
    pub fn rows(&self) -> (rows: &Vec<Vec<Option<String>>>)
        ensures
            rows.deep_view() == self@.rows,
    {
        &self.rows
    }

    proof fn lemma_view_rectangular(self)
        requires
            self.rows_fit_header(),
        ensures
            self@.rectangular(),
    {
    }

    /// Position of the first column called `name`, if there is one.
    pub fn column_index(&self, name: &str) -> (found: Option<usize>)
        ensures
            found is None <==> !self@.columns.contains(name@),
            found matches Some(i) ==> self@.is_first_column(name@, i as int) && i
                == self@.position_of(name@),
    {
        let wanted = String::from_str(name);
        let mut i: usize = 0;
        while i < self.columns.len()
            invariant
                i <= self.columns.len(),
                wanted@ == name@,
                forall|j: int| 0 <= j < i ==> self@.columns[j] != name@,
            decreases self.columns.len() - i,
        {
            if self.columns[i] == wanted {
                assert(self@.is_first_column(name@, i as int));
                return Some(i);
            }
            i += 1;
        }
        None
    }

    /// Builds a record set from named columns; `None` when the columns do
    /// not all hold the same number of cells.
    pub fn from_columns(cols: &Vec<(String, Vec<Option<String>>)>) -> (made: Option<RecordSet>)
        ensures
            made is Some <==> columns_aligned(cols.deep_view()),
            made matches Some(t) ==> t@ == table_of_columns(cols.deep_view()) && t@.rectangular(),
    {
        let ghost model = cols.deep_view();
        let mut j: usize = 0;
        while j < cols.len()
            invariant
                j <= cols.len(),
                model == cols.deep_view(),
                forall|k: int| 0 <= k < j ==> (#[trigger] model[k]).1.len() == model[0].1.len(),
            decreases cols.len() - j,
        {
            if cols[j].1.len() != cols[0].1.len() {
                assert(model[j as int].1.len() != model[0].1.len());
                return None;
            }
            j += 1;
        }
        Some(RecordSet::from_aligned_columns(cols))
    }

    /// Builds a record set from named columns of equal length.
    pub(crate) fn from_aligned_columns(cols: &Vec<(String, Vec<Option<String>>)>) -> (t: RecordSet)
        requires
            columns_aligned(cols.deep_view()),
        ensures
            t@ == table_of_columns(cols.deep_view()),
            t@.rectangular(),
    {
        let ghost model = cols.deep_view();
        let width = cols.len();
        let height = if width == 0 {
            0
        } else {
            cols[0].1.len()
        };
        proof {
            assert forall|k: int| 0 <= k < width implies (#[trigger] cols[k]).1.len() == height by {
                assert(model[k].1 == cols[k].1.deep_view());
            }
        }
        let mut names: Vec<String> = Vec::new();
        let mut j: usize = 0;
        while j < width
            invariant
                j <= width,
                width == cols.len(),
                model == cols.deep_view(),
                names.len() == j,
                forall|k: int| 0 <= k < j ==> (#[trigger] names[k])@ == model[k].0,
            decreases width - j,
        {
            names.push(cols[j].0.clone());
            j += 1;
        }
        let mut rows: Vec<Vec<Option<String>>> = Vec::new();
        let mut i: usize = 0;
        while i < height
            invariant
                i <= height,
                width == cols.len(),
                names.len() == width,
                model == cols.deep_view(),
                forall|k: int| 0 <= k < width ==> (#[trigger] cols[k]).1.len() == height,
                rows.len() == i,
                forall|r: int| 0 <= r < i ==> (#[trigger] rows[r]).len() == width,
                forall|r: int, k: int|
                    0 <= r < i && 0 <= k < width ==> (#[trigger] rows[r][k]).deep_view()
                        == model[k].1[r],
            decreases height - i,
        {
            let mut row: Vec<Option<String>> = Vec::new();
            let mut k: usize = 0;
            while k < width
                invariant
                    k <= width,
                    i < height,
                    width == cols.len(),
                    model == cols.deep_view(),
                    forall|c: int| 0 <= c < width ==> (#[trigger] cols[c]).1.len() == height,
                    row.len() == k,
                    forall|c: int| 0 <= c < k ==> (#[trigger] row[c]).deep_view() == model[c].1[i as int],
                decreases width - k,
            {
                let cell = clone_cell(&cols[k].1[i]);
                row.push(cell);
                k += 1;
            }
            rows.push(row);
            i += 1;
        }
        let t = RecordSet { columns: names, rows };
        proof {
            t.lemma_view_rectangular();
            let want = table_of_columns(model);
            assert(t@.columns =~= want.columns);
            assert forall|r: int| 0 <= r < t@.rows.len() implies t@.rows[r] == want.rows[r] by {}
            assert(t@.rows =~= want.rows);
        }
        t
    }

    /// The columns of this table, left to right, each with its name and its
    /// cells from top to bottom.
    pub fn to_columns(&self) -> (cols: Vec<(String, Vec<Option<String>>)>)
        ensures
            cols.deep_view() == columns_of_table(self@),
    {
        proof {
            use_type_invariant(self);
        }
        let ghost want = columns_of_table(self@);
        let mut cols: Vec<(String, Vec<Option<String>>)> = Vec::new();
        let mut j: usize = 0;
        while j < self.columns.len()
            invariant
                j <= self.columns.len(),
                self.rows_fit_header(),
                want == columns_of_table(self@),
                cols.len() == j,
                forall|k: int| 0 <= k < j ==> (#[trigger] cols[k]).deep_view() == want[k],
            decreases self.columns.len() - j,
        {
            let mut cells: Vec<Option<String>> = Vec::new();
            let mut i: usize = 0;
            while i < self.rows.len()
                invariant
                    i <= self.rows.len(),
                    j < self.columns.len(),
                    self.rows_fit_header(),
                    cells.len() == i,
                    forall|r: int|
                        0 <= r < i ==> (#[trigger] cells[r]).deep_view() == self@.rows[r][j as int],
                decreases self.rows.len() - i,
            {
                let cell = clone_cell(&self.rows[i][j]);
                cells.push(cell);
                i += 1;
            }
            let column = (self.columns[j].clone(), cells);
            cols.push(column);
            j += 1;
        }
        cols
    }

    fn select(&self, column: usize, wanted: Wanted<'_>) -> (out: RecordSet)
        requires
            column < self@.columns.len(),
        ensures
            out@.columns == self@.columns,
            out@.rectangular(),
            out@.rows == self@.rows.filter(wanted.test(column as int)),
    {
        proof {
            use_type_invariant(self);
        }
        let ghost all = self.rows.deep_view();
        let ghost pred = wanted.test(column as int);
        let mut kept: Vec<Vec<Option<String>>> = Vec::new();
        let mut i: usize = 0;
        while i < self.rows.len()
            invariant
                i <= self.rows.len(),
                column < self.columns.len(),
                self.rows_fit_header(),
                all == self.rows.deep_view(),
                pred == wanted.test(column as int),
                kept.deep_view() == all.take(i as int).filter(pred),
                forall|j: int| 0 <= j < kept.len() ==> (#[trigger] kept[j]).len() == self.columns.len(),
            decreases self.rows.len() - i,
        {
            let row = &self.rows[i];
            let keep = match &row[column] {
                Some(s) => match wanted {
                    Wanted::OneOf(list) => text_in(list, s),
                    Wanted::Exactly(value) => *s == *value,
                },
                None => false,
            };
            proof {
                assert(all.take(i + 1) == all.take(i as int).push(all[i as int]));
                all.take(i as int).lemma_filter_push(all[i as int], pred);
            }
            if keep {
                let copy = clone_row(row);
                kept.push(copy);
            }
            i += 1;
        }
        proof {
            assert(all.take(self.rows.len() as int) == all);
        }
        let out = RecordSet { columns: clone_names(&self.columns), rows: kept };
        proof {
            out.lemma_view_rectangular();
        }
        out
    }

    /// The rows whose cell in `column` is one of `allowed`, in source order
    /// and under the same header.
    pub fn filter_allowed(&self, column: usize, allowed: &Vec<String>) -> (out: RecordSet)
        requires
            column < self@.columns.len(),
        ensures
            out@.columns == self@.columns,
            out@.rows == allowed_rows(self@.rows, column as int, allowed.deep_view()),
            out@.rectangular(),
    {
        self.select(column, Wanted::OneOf(allowed))
    }

    /// The rows whose cell in `column` equals `value`, in source order and
    /// under the same header.
    pub fn filter_equal(&self, column: usize, value: &String) -> (out: RecordSet)
        requires
            column < self@.columns.len(),
        ensures
            out@.columns == self@.columns,
            out@.rows == matching_rows(self@.rows, column as int, value@),
            out@.rectangular(),
    {
        self.select(column, Wanted::Exactly(value))
    }

    /// The distinct values of a column, each at its first occurrence.
    pub fn distinct_values(&self, column: usize) -> (values: Vec<Option<String>>)
        requires
            column < self@.columns.len(),
        ensures
            values.deep_view() == distinct(self@.column_cells(column as int)),
    {
        proof {
            use_type_invariant(self);
        }
        let ghost cells = self@.column_cells(column as int);
        let mut values: Vec<Option<String>> = Vec::new();
        let mut i: usize = 0;
        while i < self.rows.len()
            invariant
                i <= self.rows.len(),
                column < self.columns.len(),
                self.rows_fit_header(),
                cells == self@.column_cells(column as int),
                values.deep_view() == distinct(cells.take(i as int)),
            decreases self.rows.len() - i,
        {
            let cell = &self.rows[i][column];
            proof {
                assert(cells.take(i + 1).drop_last() == cells.take(i as int));
            }
            if !cell_in(&values, cell) {
                values.push(clone_cell(cell));
            }
            i += 1;
        }
        proof {
            assert(cells.take(self.rows.len() as int) == cells);
        }
        values
    }

    /// This table followed by the rows of `other`; `None` when the two
    /// headers differ.
    pub fn vstack(&self, other: &RecordSet) -> (out: Option<RecordSet>)
        ensures
            out is Some <==> self@.columns == other@.columns,
            out matches Some(t) ==> t@.columns == self@.columns && t@.rows == self@.rows
                + other@.rows && t@.rectangular(),
    {
        proof {
            use_type_invariant(self);
            use_type_invariant(other);
        }
        if !names_equal(&self.columns, &other.columns) {
            return None;
        }
        let ghost whole = self.rows.deep_view() + other.rows.deep_view();
        let mut rows: Vec<Vec<Option<String>>> = Vec::new();
        let mut i: usize = 0;
        while i < self.rows.len()
            invariant
                i <= self.rows.len(),
                self.rows_fit_header(),
                rows.len() == i,
                forall|j: int| 0 <= j < i ==> (#[trigger] rows[j]).deep_view() == whole[j],
                forall|j: int| 0 <= j < i ==> (#[trigger] rows[j]).len() == self.columns.len(),
                whole == self.rows.deep_view() + other.rows.deep_view(),
            decreases self.rows.len() - i,
        {
            let copy = clone_row(&self.rows[i]);
            rows.push(copy);
            i += 1;
        }
        let mut k: usize = 0;
        while k < other.rows.len()
            invariant
                k <= other.rows.len(),
                other.rows_fit_header(),
                self.columns.deep_view() == other.columns.deep_view(),
                rows.len() == self.rows.len() + k,
                forall|j: int| 0 <= j < rows.len() ==> (#[trigger] rows[j]).deep_view() == whole[j],
                forall|j: int|
                    0 <= j < rows.len() ==> (#[trigger] rows[j]).len() == self.columns.len(),
                whole == self.rows.deep_view() + other.rows.deep_view(),
            decreases other.rows.len() - k,
        {
            let copy = clone_row(&other.rows[k]);
            assert(other.columns.len() == self.columns.len()) by {
                assert(self.columns.deep_view().len() == other.columns.deep_view().len());
            }
            rows.push(copy);
            k += 1;
        }
        let out = RecordSet { columns: clone_names(&self.columns), rows };
        proof {
            out.lemma_view_rectangular();
        }
        Some(out)
    }
}

impl Clone for RecordSet {
    fn clone(&self) -> (copy: RecordSet)
        ensures
            copy@ == self@,
            copy@.rectangular(),
    {
        proof {
            use_type_invariant(self);
        }
        let mut rows: Vec<Vec<Option<String>>> = Vec::new();
        let mut i: usize = 0;
        while i < self.rows.len()
            invariant
                i <= self.rows.len(),
                self.rows_fit_header(),
                rows.len() == i,
                forall|j: int|
                    0 <= j < i ==> (#[trigger] rows[j]).deep_view() == self.rows[j].deep_view(),
                forall|j: int| 0 <= j < i ==> (#[trigger] rows[j]).len() == self.columns.len(),
            decreases self.rows.len() - i,
        {
            let copy = clone_row(&self.rows[i]);
            rows.push(copy);
            i += 1;
        }
        assert(rows.deep_view() =~= self.rows.deep_view());
        let copy = RecordSet { columns: clone_names(&self.columns), rows };
        proof {
            copy.lemma_view_rectangular();
        }
        copy
    }
}

/// True when `cell` is one of `list`.
pub fn cell_in(list: &Vec<Option<String>>, cell: &Option<String>) -> (found: bool)
    ensures
        found == list.deep_view().contains(cell.deep_view()),
{
    let mut i: usize = 0;
    while i < list.len()
        invariant
            i <= list.len(),
            forall|j: int| 0 <= j < i ==> list.deep_view()[j] != cell.deep_view(),
        decreases list.len() - i,
    {
        let same = match (&list[i], cell) {
            (Some(a), Some(b)) => *a == *b,
            (None, None) => true,
            _ => false,
        };
        if same {
            assert(list.deep_view()[i as int] == cell.deep_view());
            return true;
        }
        i += 1;
    }
    false
}

/// True when the two lists hold the same names in the same order.
pub fn names_equal(a: &Vec<String>, b: &Vec<String>) -> (same: bool)
    ensures
        same == (a.deep_view() == b.deep_view()),
{
    if a.len() != b.len() {
        assert(a.deep_view().len() != b.deep_view().len());
        return false;
    }
    let mut i: usize = 0;
    while i < a.len()
        invariant
            i <= a.len(),
            a.len() == b.len(),
            forall|j: int| 0 <= j < i ==> a.deep_view()[j] == b.deep_view()[j],
        decreases a.len() - i,
    {
        if a[i] != b[i] {
            assert(a.deep_view()[i as int] != b.deep_view()[i as int]);
            return false;
        }
        i += 1;
    }
    assert(a.deep_view() =~= b.deep_view());
    true
}

} // verus!
