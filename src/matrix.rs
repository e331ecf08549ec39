use vstd::prelude::*;
use crate::frame::{column_of, DataFrame};

verus! {

/// Number of rows of the pairwise matrix of `k` columns.
pub open spec fn triangle_rows(k: nat) -> nat {
    if k > 0 {
        (k - 1) as nat
    } else {
        0
    }
}

/// `v` is the value that `corr` gave for columns `i` and `j` of `rows`.
pub open spec fn measured<T, R, F: Fn(&Vec<T>, &Vec<T>) -> R>(
    corr: F,
    rows: Seq<Seq<T>>,
    i: int,
    j: int,
    v: R,
) -> bool {
    exists|a: Vec<T>, b: Vec<T>|
        a@ == column_of(rows, i) && b@ == column_of(rows, j) && #[trigger] corr.ensures(
            (&a, &b),
            v,
        )
}

/// The upper triangle of the pairwise measure `corr` over the columns of
/// `frame`: row `i` holds, for each later column `j` in order, the measure
/// of columns `i` and `j`.
pub fn matrix_coefficient<T: Copy, R, F: Fn(&Vec<T>, &Vec<T>) -> R>(
    frame: &DataFrame<T>,
    corr: F,
) -> (r: Vec<Vec<R>>)
    requires
        forall|a: Vec<T>, b: Vec<T>|
            a@.len() == b@.len() ==> #[trigger] corr.requires((&a, &b)),
    ensures
        r@.len() == triangle_rows(frame.titles().len()),
        forall|i: int|
            0 <= i < r@.len() ==> #[trigger] r@[i]@.len() == frame.titles().len() - 1 - i,
        forall|i: int, j: int|
            0 <= i < r@.len() && 0 <= j < r@[i]@.len() ==> measured(
                corr,
                frame.rows(),
                i,
                i + 1 + j,
                #[trigger] r@[i]@[j],
            ),
{
    let len = frame.get_num_columns();
    let mut results: Vec<Vec<R>> = Vec::new();
    if len == 0 {
        return results;
    }
    let mut x: usize = 0;
    while x < len - 1
        invariant
            0 < len,
            len == frame.titles().len(),
            x <= len - 1,
            results@.len() == x,
            forall|a: Vec<T>, b: Vec<T>|
                a@.len() == b@.len() ==> #[trigger] corr.requires((&a, &b)),
            forall|i: int| 0 <= i < x ==> #[trigger] results@[i]@.len() == len - 1 - i,
            forall|i: int, j: int|
                0 <= i < x && 0 <= j < results@[i]@.len() ==> measured(
                    corr,
                    frame.rows(),
                    i,
                    i + 1 + j,
                    #[trigger] results@[i]@[j],
                ),
        decreases len - 1 - x,
    {
        let mut result_col: Vec<R> = Vec::new();
        let col1 = frame.get_column(x).unwrap();
        let mut y: usize = x + 1;
        while y < len
            invariant
                len == frame.titles().len(),
                x < y <= len,
                col1@ == column_of(frame.rows(), x as int),
                result_col@.len() == y - x - 1,
                forall|a: Vec<T>, b: Vec<T>|
                    a@.len() == b@.len() ==> #[trigger] corr.requires((&a, &b)),
                forall|j: int|
                    0 <= j < result_col@.len() ==> measured(
                        corr,
                        frame.rows(),
                        x as int,
                        x + 1 + j,
                        #[trigger] result_col@[j],
                    ),
            decreases len - y,
        {
            let col2 = frame.get_column(y).unwrap();
            let result = corr(&col1, &col2);
            let ghost before = result_col@;
            result_col.push(result);
            assert forall|j: int|
                0 <= j < result_col@.len() implies measured(
                corr,
                frame.rows(),
                x as int,
                x + 1 + j,
                #[trigger] result_col@[j],
            ) by {
                if j < before.len() {
                    assert(result_col@[j] == before[j]);
                } else {
                    assert(corr.ensures((&col1, &col2), result_col@[j]));
                }
            }
            y = y + 1;
        }
        let ghost before = results@;
        results.push(result_col);
        assert forall|i: int, j: int|
            0 <= i < x + 1 && 0 <= j < results@[i]@.len() implies measured(
            corr,
            frame.rows(),
            i,
            i + 1 + j,
            #[trigger] results@[i]@[j],
        ) by {
            if i < x {
                assert(results@[i] == before[i]);
            }
        }
        x = x + 1;
    }
    results
}

} // verus!
