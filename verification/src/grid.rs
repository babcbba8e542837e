//! Row-major grids held as a vector of rows.

use vstd::prelude::*;

verus! {

/// The rows of `m` as sequences.
pub open spec fn cells<T>(m: Seq<Vec<T>>) -> Seq<Seq<T>> {
    Seq::new(m.len(), |r: int| m[r]@)
}

/// `m` has exactly `rows` rows of exactly `cols` entries each.
pub open spec fn rectangular<T>(m: Seq<Seq<T>>, rows: int, cols: int) -> bool {
    &&& m.len() == rows
    &&& forall|r: int| 0 <= r < rows ==> (#[trigger] m[r]).len() == cols
}

/// A grid of `rows` by `cols` copies of `value`.
pub fn filled<T: Copy>(rows: usize, cols: usize, value: T) -> (m: Vec<Vec<T>>)
    ensures
        rectangular(cells(m@), rows as int, cols as int),
        forall|r: int, c: int|
            0 <= r < rows && 0 <= c < cols ==> (#[trigger] cells(m@)[r][c]) == value,
{
    let mut m: Vec<Vec<T>> = Vec::new();
    let mut r: usize = 0;
    while r < rows
        invariant
            r <= rows,
            m@.len() == r,
            forall|i: int| 0 <= i < r ==> (#[trigger] m@[i])@.len() == cols,
            forall|i: int, c: int| 0 <= i < r && 0 <= c < cols ==> (#[trigger] m@[i]@[c]) == value,
        decreases rows - r,
    {
        let mut row: Vec<T> = Vec::new();
        let mut c: usize = 0;
        while c < cols
            invariant
                c <= cols,
                row@.len() == c,
                forall|j: int| 0 <= j < c ==> (#[trigger] row@[j]) == value,
            decreases cols - c,
        {
            row.push(value);
            c += 1;
        }
        m.push(row);
        r += 1;
    }
    m
}

/// Whether `m` has exactly `rows` rows of exactly `cols` entries each.
pub fn is_rectangular<T>(m: &Vec<Vec<T>>, rows: usize, cols: usize) -> (yes: bool)
    ensures
        yes == rectangular(cells(m@), rows as int, cols as int),
{
    if m.len() != rows {
        return false;
    }
    let mut r: usize = 0;
    while r < rows
        invariant
            r <= rows,
            m@.len() == rows,
            forall|i: int| 0 <= i < r ==> (#[trigger] cells(m@)[i]).len() == cols,
        decreases rows - r,
    {
        if m[r].len() != cols {
            assert(cells(m@)[r as int].len() != cols);
            return false;
        }
        r += 1;
    }
    true
}

} // verus!
