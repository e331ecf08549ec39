use vstd::prelude::*;

verus! {

/// A table of named columns whose cells are stored row by row.
///
/// Every row holds exactly one cell per column name.
#[derive(Debug, PartialEq)]
pub struct DataFrame<T> {
    columns: Vec<String>,
    data: Vec<Vec<T>>,
}

impl<T> DataFrame<T> {
    /// The column names, in header order.
    pub closed spec fn titles(&self) -> Seq<Seq<char>> {
        self.columns@.map_values(|s: String| s@)
    }

    /// The rows, in order; each row holds one cell per column.
    pub closed spec fn rows(&self) -> Seq<Seq<T>> {
        self.data@.map_values(|r: Vec<T>| r@)
    }

    #[verifier::type_invariant]
    closed spec fn inv(&self) -> bool {
        forall|i: int| 0 <= i < self.data@.len() ==> #[trigger] self.data@[i]@.len() == self.columns@.len()
    }

    /// A table of the given column names and rows, or `None` where some
    /// row does not hold one cell per column name.
    pub fn new(columns: Vec<String>, data: Vec<Vec<T>>) -> (r: Option<Self>)
        ensures
            r is Some <==> forall|i: int| 0 <= i < data@.len() ==> #[trigger] data@[i]@.len() == columns@.len(),
            r matches Some(f) ==> f.titles() == columns@.map_values(|s: String| s@) && f.rows() == data@.map_values(|v: Vec<T>| v@),
    {
        let mut i: usize = 0;
        while i < data.len()
            invariant
                i <= data@.len(),
                forall|k: int| 0 <= k < i ==> #[trigger] data@[k]@.len() == columns@.len(),
            decreases data@.len() - i,
        {
            if data[i].len() != columns.len() {
                return None;
            }
            i = i + 1;
        }
        Some(DataFrame { columns, data })
    }

    pub(crate) fn from_parts(columns: Vec<String>, data: Vec<Vec<T>>) -> (r: Self)
        requires
            forall|i: int| 0 <= i < data@.len() ==> #[trigger] data@[i]@.len() == columns@.len(),
        ensures
            r.titles() == columns@.map_values(|s: String| s@),
            r.rows() == data@.map_values(|v: Vec<T>| v@),
    {
        DataFrame { columns, data }
    }

    /// The name of column `index`.
    pub fn get_title(&self, index: usize) -> (r: &String)
        requires
            index < self.titles().len(),
        ensures
            r@ == self.titles()[index as int],
    {
        &self.columns[index]
    }

    /// Number of data rows.
    pub fn num_rows(&self) -> (r: usize)
        ensures
            r == self.rows().len(),
    {
        self.data.len()
    }

    /// The cells of row `index`, in column order.
    pub fn get_row(&self, index: usize) -> (r: &Vec<T>)
        requires
            index < self.rows().len(),
        ensures
            r@ == self.rows()[index as int],
    {
        &self.data[index]
    }

    /// Number of columns: the width of the first row, which is the
    /// width of every row and of the header.
    pub fn get_num_columns(&self) -> (r: usize)
        ensures
            r == self.titles().len(),
            self.rows().len() > 0 ==> r == self.rows()[0].len(),
    {
        proof {
            use_type_invariant(self);
        }
        self.columns.len()
    }
}

impl<T> DataFrame<T> {
    /// The table with the same column names whose cells are `f` of the
    /// cells of this one, in the same places.
    pub fn map_cells<U, F: Fn(&T) -> U>(&self, f: F) -> (r: DataFrame<U>)
        requires
            forall|t: T| #[trigger] f.requires((&t,)),
        ensures
            r.titles() == self.titles(),
            r.rows().len() == self.rows().len(),
            forall|i: int|
                0 <= i < r.rows().len() ==> #[trigger] r.rows()[i].len() == self.rows()[i].len(),
            forall|i: int, j: int|
                0 <= i < r.rows().len() && 0 <= j < r.rows()[i].len() ==> f.ensures(
                    (&self.rows()[i][j],),
                    #[trigger] r.rows()[i][j],
                ),
    {
        proof {
            use_type_invariant(self);
        }
        let mut columns: Vec<String> = Vec::new();
        let mut h: usize = 0;
        while h < self.columns.len()
            invariant
                h <= self.columns@.len(),
                columns@.map_values(|s: String| s@) == self.titles().take(h as int),
            decreases self.columns@.len() - h,
        {
            let ghost before = columns@;
            columns.push(self.columns[h].clone());
            assert(columns@.map_values(|s: String| s@) =~= before.map_values(|s: String| s@).push(self.columns@[h as int]@));
            assert(columns@.map_values(|s: String| s@) =~= self.titles().take(h + 1));
            h = h + 1;
        }
        assert(self.titles().take(h as int) =~= self.titles());
        let mut data: Vec<Vec<U>> = Vec::new();
        let mut i: usize = 0;
        while i < self.data.len()
            invariant
                i <= self.data@.len(),
                columns@.len() == self.columns@.len(),
                forall|t: T| #[trigger] f.requires((&t,)),
                forall|k: int| 0 <= k < self.data@.len() ==> #[trigger] self.data@[k]@.len() == self.columns@.len(),
                data@.len() == i,
                forall|k: int| 0 <= k < i ==> #[trigger] data@[k]@.len() == self.data@[k]@.len(),
                forall|k: int, j: int|
                    0 <= k < i && 0 <= j < data@[k]@.len() ==> f.ensures(
                        (&self.data@[k]@[j],),
                        #[trigger] data@[k]@[j],
                    ),
            decreases self.data@.len() - i,
        {
            let row = &self.data[i];
            let mut out: Vec<U> = Vec::new();
            let mut j: usize = 0;
            while j < row.len()
                invariant
                    j <= row@.len(),
                    out@.len() == j,
                    forall|t: T| #[trigger] f.requires((&t,)),
                    forall|m: int| 0 <= m < j ==> f.ensures((&row@[m],), #[trigger] out@[m]),
                decreases row@.len() - j,
            {
                let v = f(&row[j]);
                out.push(v);
                j = j + 1;
            }
            let ghost before = data@;
            data.push(out);
            assert forall|k: int, j: int|
                0 <= k < i + 1 && 0 <= j < data@[k]@.len() implies f.ensures(
                (&self.data@[k]@[j],),
                #[trigger] data@[k]@[j],
            ) by {
                if k < i {
                    assert(data@[k] == before[k]);
                }
            }
            i = i + 1;
        }
        DataFrame { columns, data }
    }
}

impl<T: Copy> DataFrame<T> {
    /// The cells of column `index`, one per row, in row order.
    pub fn get_column(&self, index: usize) -> (r: Option<Vec<T>>)
        requires
            index < self.titles().len(),
        ensures
            r matches Some(c) && c@ == column_of(self.rows(), index as int),
    {
        proof {
            use_type_invariant(self);
        }
        let mut out: Vec<T> = Vec::new();
        let mut i: usize = 0;
        while i < self.data.len()
            invariant
                i <= self.data@.len(),
                index < self.columns@.len(),
                forall|k: int| 0 <= k < self.data@.len() ==> #[trigger] self.data@[k]@.len() == self.columns@.len(),
                out@ == column_of(self.rows(), index as int).take(i as int),
            decreases self.data@.len() - i,
        {
            assert(self.data@[i as int]@.len() == self.columns@.len());
            out.push(self.data[i][index]);
            assert(out@ =~= column_of(self.rows(), index as int).take(i + 1));
            i = i + 1;
        }
        assert(column_of(self.rows(), index as int).take(i as int) =~= column_of(self.rows(), index as int));
        Some(out)
    }
}

/// The cells at position `index` of each row, in row order.
pub open spec fn column_of<T>(rows: Seq<Seq<T>>, index: int) -> Seq<T> {
    rows.map_values(|r: Seq<T>| r[index])
}

} // verus!
