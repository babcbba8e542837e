//! Arranging a layer written in reading order onto the wiring of the matrix.
//!
//! A layer is authored as one flat sequence, key after key as they appear on
//! the board. The switches are wired as a matrix that has little to do with
//! that order. A [`Wiring`] records, for every position of the flat sequence,
//! the `(row, column)` at which that key is wired; [`arrange_layer`] applies
//! it and [`linear_order`] undoes it.

use vstd::prelude::*;
use crate::grid::{cells, rectangular, filled, is_rectangular};

verus! {

/// Why a layer or a wiring table was refused.
#[derive(Clone, Copy, Debug, PartialEq, Eq, Structural)]
pub enum ShapeError {
    /// A flat sequence does not have one entry per switch.
    WrongCount,
    /// A grid does not have the rows and columns of the matrix.
    DimensionMismatch,
    /// A wiring table does not send the flat positions one-to-one onto the
    /// coordinates of the matrix.
    NotAPermutation,
}

/// What a [`Wiring`] stands for: the size of the matrix and, for each flat
/// position, its coordinate.
pub struct WiringView {
    pub rows: nat,
    pub cols: nat,
    pub places: Seq<(int, int)>,
}

impl WiringView {
    /// The number of switches.
    pub open spec fn count(self) -> nat {
        self.rows * self.cols
    }

    /// `(r, c)` is a coordinate of the matrix.
    pub open spec fn contains(self, r: int, c: int) -> bool {
        0 <= r < self.rows && 0 <= c < self.cols
    }

    /// The table is a bijection between flat positions and coordinates.
    pub open spec fn valid(self) -> bool {
        &&& self.places.len() == self.count()
        &&& forall|i: int|
            0 <= i < self.places.len() ==> self.contains(
                (#[trigger] self.places[i]).0,
                self.places[i].1,
            )
        &&& forall|i: int, j: int|
            0 <= i < self.places.len() && 0 <= j < self.places.len() && #[trigger] self.places[i]
                == #[trigger] self.places[j] ==> i == j
        &&& forall|r: int, c: int|
            self.contains(r, c) ==> 0 <= #[trigger] self.source(r, c) < self.places.len()
                && self.places[self.source(r, c)] == (r, c)
    }

    /// The flat position of the key wired at `(r, c)`.
    pub open spec fn source(self, r: int, c: int) -> int {
        choose|i: int| 0 <= i < self.places.len() && self.places[i] == (r, c)
    }

    /// The layer that results from placing `input[i]` at `places[i]`.
    pub open spec fn arrange<T>(self, input: Seq<T>) -> Seq<Seq<T>> {
        Seq::new(self.rows, |r: int| Seq::new(self.cols, |c: int| input[self.source(r, c)]))
    }

    /// The flat sequence read back from a layer.
    pub open spec fn linearize<T>(self, layer: Seq<Seq<T>>) -> Seq<T> {
        Seq::new(self.places.len(), |i: int| layer[self.places[i].0][self.places[i].1])
    }

    /// In a valid table the key wired at `places[i]` is key `i`.
    pub proof fn source_of_place(self, i: int)
        requires
            self.valid(),
            0 <= i < self.places.len(),
        ensures
            self.source(self.places[i].0, self.places[i].1) == i,
    {
        let r = self.places[i].0;
        let c = self.places[i].1;
        assert(self.contains(r, c));
        let j = self.source(r, c);
        assert(self.places[j] == self.places[i]);
    }

    /// Arranging a flat sequence and reading the layer back in linear order
    /// gives the sequence again.
    pub proof fn arrange_then_linearize<T>(self, input: Seq<T>)
        requires
            self.valid(),
            input.len() == self.count(),
        ensures
            self.linearize(self.arrange(input)) == input,
    {
        let back = self.linearize(self.arrange(input));
        assert forall|i: int| 0 <= i < input.len() implies back[i] == input[i] by {
            self.source_of_place(i);
            assert(self.contains(self.places[i].0, self.places[i].1));
        }
        assert(back =~= input);
    }

    /// Reading a layer in linear order and arranging the result gives the
    /// layer again.
    pub proof fn linearize_then_arrange<T>(self, layer: Seq<Seq<T>>)
        requires
            self.valid(),
            rectangular(layer, self.rows as int, self.cols as int),
        ensures
            self.arrange(self.linearize(layer)) == layer,
    {
        let again = self.arrange(self.linearize(layer));
        assert forall|r: int| 0 <= r < self.rows implies again[r] == layer[r] by {
            assert forall|c: int| 0 <= c < self.cols implies again[r][c] == layer[r][c] by {
                assert(self.contains(r, c));
                let i = self.source(r, c);
                assert(self.places[i] == (r, c));
            }
            assert(again[r] =~= layer[r]);
        }
        assert(again =~= layer);
    }
}

/// The wiring of a matrix: where each key of the flat order is connected.
#[derive(Debug)]
pub struct Wiring {
    rows: usize,
    cols: usize,
    places: Vec<(usize, usize)>,
    sources: Vec<Vec<usize>>,
}

impl View for Wiring {
    type V = WiringView;

    closed spec fn view(&self) -> WiringView {
        WiringView {
            rows: self.rows as nat,
            cols: self.cols as nat,
            places: Seq::new(
                self.places@.len(),
                |i: int| (self.places@[i].0 as int, self.places@[i].1 as int),
            ),
        }
    }
}

/// The table handed to [`Wiring::new`], as a [`WiringView`].
pub open spec fn table_view(rows: usize, cols: usize, places: Seq<(usize, usize)>) -> WiringView {
    WiringView {
        rows: rows as nat,
        cols: cols as nat,
        places: Seq::new(places.len(), |i: int| (places[i].0 as int, places[i].1 as int)),
    }
}

impl Wiring {
    /// The table is a bijection and the inverse table kept beside it agrees
    /// with it.
    pub open spec fn wf(&self) -> bool {
        self@.valid() && self.inverse_agrees()
    }

    /// The inverse table, which gives the flat position for each coordinate,
    /// is the inverse of the table.
    #[verifier::opaque]
    pub closed spec fn inverse_agrees(&self) -> bool {
        &&& rectangular(cells(self.sources@), self.rows as int, self.cols as int)
        &&& forall|r: int, c: int|
            0 <= r < self.rows && 0 <= c < self.cols ==> 0 <= (#[trigger] self.sources@[r]@[c])
                < self.places@.len() && self.places@[self.sources@[r]@[c] as int] == (
                r as usize,
                c as usize,
            )
    }

    /// Builds the wiring of a `rows` by `cols` matrix from the coordinate of
    /// each flat position. The table must name every coordinate exactly once.
    pub fn new(rows: usize, cols: usize, places: Vec<(usize, usize)>) -> (made: Result<
        Wiring,
        ShapeError,
    >)
        ensures
            made is Ok <==> table_view(rows, cols, places@).valid(),
            made matches Ok(w) ==> w.wf() && w@ == table_view(rows, cols, places@),
            made matches Err(e) ==> e == (if places@.len() != rows * cols {
                ShapeError::WrongCount
            } else {
                ShapeError::NotAPermutation
            }),
    {
        let ghost table = table_view(rows, cols, places@);
        let given: usize = places.len();
        let count: usize = match rows.checked_mul(cols) {
            Some(n) => n,
            None => {
                assert(table.places.len() != table.count());
                return Err(ShapeError::WrongCount);
            },
        };
        if given != count {
            assert(table.places.len() != table.count());
            return Err(ShapeError::WrongCount);
        }
        let mut sources: Vec<Vec<usize>> = filled(rows, cols, count);
        assert forall|r: int, c: int| 0 <= r < rows && 0 <= c < cols implies (
        #[trigger] sources@[r]@[c]) == count by {
            assert(cells(sources@)[r][c] == count);
        }
        let mut i: usize = 0;
        while i < count
            invariant
                i <= count,
                count == rows * cols,
                places@.len() == count,
                table == table_view(rows, cols, places@),
                rectangular(cells(sources@), rows as int, cols as int),
                forall|j: int|
                    0 <= j < i ==> table.contains((#[trigger] table.places[j]).0, table.places[j].1)
                        && sources@[table.places[j].0]@[table.places[j].1] == j,
                forall|r: int, c: int|
                    0 <= r < rows && 0 <= c < cols ==> (#[trigger] sources@[r]@[c]) == count || (0
                        <= sources@[r]@[c] < i && table.places[sources@[r]@[c] as int] == (r, c)),
            decreases count - i,
        {
            let place: (usize, usize) = places[i];
            let r: usize = place.0;
            let c: usize = place.1;
            assert(table.places[i as int] == (r as int, c as int));
            if r >= rows || c >= cols {
                assert(!table.contains(table.places[i as int].0, table.places[i as int].1));
                return Err(ShapeError::NotAPermutation);
            }
            assert(cells(sources@)[r as int].len() == cols);
            if sources[r][c] != count {
                let ghost j = sources@[r as int]@[c as int] as int;
                assert(table.places[j] == table.places[i as int]);
                return Err(ShapeError::NotAPermutation);
            }
            let ghost before = sources@;
            sources[r][c] = i;
            assert forall|k: int| 0 <= k < rows implies (#[trigger] cells(sources@)[k]).len()
                == cols by {
                assert(cells(before)[k].len() == cols);
            }
            assert forall|j: int| 0 <= j < i + 1 implies table.contains(
                (#[trigger] table.places[j]).0,
                table.places[j].1,
            ) && sources@[table.places[j].0]@[table.places[j].1] == j by {
                if j < i {
                    assert(before[table.places[j].0]@[table.places[j].1] == j);
                }
            }
            i += 1;
        }
        let mut r: usize = 0;
        while r < rows
            invariant
                r <= rows,
                count == rows * cols,
                places@.len() == count,
                table == table_view(rows, cols, places@),
                rectangular(cells(sources@), rows as int, cols as int),
                forall|j: int|
                    0 <= j < count ==> table.contains(
                        (#[trigger] table.places[j]).0,
                        table.places[j].1,
                    ) && sources@[table.places[j].0]@[table.places[j].1] == j,
                forall|k: int, c: int|
                    0 <= k < r && 0 <= c < cols ==> (#[trigger] sources@[k]@[c]) != count,
            decreases rows - r,
        {
            assert(cells(sources@)[r as int].len() == cols);
            let mut c: usize = 0;
            while c < cols
                invariant
                    c <= cols,
                    r < rows,
                    count == rows * cols,
                    places@.len() == count,
                    table == table_view(rows, cols, places@),
                    sources@.len() == rows,
                    sources@[r as int]@.len() == cols,
                    forall|j: int|
                        0 <= j < count ==> table.contains(
                            (#[trigger] table.places[j]).0,
                            table.places[j].1,
                        ) && sources@[table.places[j].0]@[table.places[j].1] == j,
                    forall|k: int| 0 <= k < c ==> (#[trigger] sources@[r as int]@[k]) != count,
                decreases cols - c,
            {
                if sources[r][c] == count {
                    proof {
                        // No flat position is wired here: each one has its
                        // own index stored at its coordinate.
                        assert(table.contains(r as int, c as int));
                        if table.valid() {
                            let j = table.source(r as int, c as int);
                            assert(table.places[j] == (r as int, c as int));
                            assert(sources@[table.places[j].0]@[table.places[j].1] == j);
                        }
                    }
                    return Err(ShapeError::NotAPermutation);
                }
                c += 1;
            }
            r += 1;
        }
        let w = Wiring { rows, cols, places, sources };
        proof {
            assert(w@ =~= table);
            assert forall|a: int, b: int|
                0 <= a < table.places.len() && 0 <= b < table.places.len()
                    && #[trigger] table.places[a] == #[trigger] table.places[b] implies a
                == b by {
                assert(sources@[table.places[a].0]@[table.places[a].1] == a);
                assert(sources@[table.places[b].0]@[table.places[b].1] == b);
            }
            assert forall|r: int, c: int| table.contains(r, c) implies 0 <= #[trigger] table.source(
                r,
                c,
            ) < table.places.len() && table.places[table.source(r, c)] == (r, c) by {
                let j = sources@[r]@[c] as int;
                assert(table.places[j] == (r, c));
            }
            assert(table.valid());
            reveal(Wiring::inverse_agrees);
            assert forall|r: int, c: int| 0 <= r < rows && 0 <= c < cols implies 0 <= (
            #[trigger] w.sources@[r]@[c]) < w.places@.len() && w.places@[w.sources@[r]@[c] as int]
                == (r as usize, c as usize) by {
                let j = sources@[r]@[c] as int;
                assert(table.places[j] == (r, c));
            }
            assert(w.inverse_agrees());
        }
        Ok(w)
    }

    /// The number of rows of the matrix.
    pub fn rows(&self) -> (n: usize)
        ensures
            n == self@.rows,
    {
        self.rows
    }

    /// The number of columns of the matrix.
    pub fn cols(&self) -> (n: usize)
        ensures
            n == self@.cols,
    {
        self.cols
    }

    /// The inverse table gives, at each coordinate, the flat position that
    /// the view calls its source.
    proof fn stored_source(&self, r: int, c: int)
        requires
            self.wf(),
            self@.contains(r, c),
        ensures
            rectangular(cells(self.sources@), self.rows as int, self.cols as int),
            self.sources@[r]@[c] == self@.source(r, c),
            self@.places.len() == self.places@.len(),
    {
        reveal(Wiring::inverse_agrees);
        let i = self.sources@[r]@[c] as int;
        assert(cells(self.sources@)[r].len() == self.cols);
        assert(self@.places[i] == (r, c));
        self@.source_of_place(i);
    }
}

/// Places the keys of one layer, given in reading order, at the coordinates
/// at which they are wired. Fails when `input` does not hold exactly one key
/// per switch.
pub fn arrange_layer<T: Copy>(wiring: &Wiring, input: &Vec<T>) -> (made: Result<
    Vec<Vec<T>>,
    ShapeError,
>)
    requires
        wiring.wf(),
    ensures
        made is Ok <==> input@.len() == wiring@.count(),
        made matches Ok(layer) ==> cells(layer@) == wiring@.arrange(input@),
        made matches Err(e) ==> e == ShapeError::WrongCount,
{
    if input.len() != wiring.places.len() {
        return Err(ShapeError::WrongCount);
    }
    let ghost view = wiring@;
    let mut layer: Vec<Vec<T>> = Vec::new();
    let mut r: usize = 0;
    while r < wiring.rows
        invariant
            r <= wiring.rows,
            wiring.wf(),
            view == wiring@,
            input@.len() == wiring.places@.len(),
            layer@.len() == r,
            forall|k: int|
                0 <= k < r ==> (#[trigger] layer@[k])@ == Seq::new(
                    view.cols,
                    |c: int| input@[view.source(k, c)],
                ),
        decreases wiring.rows - r,
    {
        let mut row: Vec<T> = Vec::new();
        let mut c: usize = 0;
        while c < wiring.cols
            invariant
                c <= wiring.cols,
                r < wiring.rows,
                wiring.wf(),
                view == wiring@,
                input@.len() == wiring.places@.len(),
                row@.len() == c,
                forall|k: int| 0 <= k < c ==> (#[trigger] row@[k]) == input@[view.source(r as int, k)],
            decreases wiring.cols - c,
        {
            proof {
                wiring.stored_source(r as int, c as int);
                assert(cells(wiring.sources@)[r as int].len() == wiring.cols);
            }
            let from: usize = wiring.sources[r][c];
            row.push(input[from]);
            c += 1;
        }
        assert(row@ =~= Seq::new(view.cols, |c: int| input@[view.source(r as int, c)]));
        layer.push(row);
        r += 1;
    }
    assert(cells(layer@) =~= view.arrange(input@));
    Ok(layer)
}

/// Reads a layer back into reading order: the inverse of [`arrange_layer`].
/// Fails when `layer` does not have the rows and columns of the matrix.
pub fn linear_order<T: Copy>(wiring: &Wiring, layer: &Vec<Vec<T>>) -> (made: Result<
    Vec<T>,
    ShapeError,
>)
    requires
        wiring.wf(),
    ensures
        made is Ok <==> rectangular(cells(layer@), wiring@.rows as int, wiring@.cols as int),
        made matches Ok(flat) ==> flat@ == wiring@.linearize(cells(layer@)),
        made matches Err(e) ==> e == ShapeError::DimensionMismatch,
{
    if !is_rectangular(layer, wiring.rows, wiring.cols) {
        return Err(ShapeError::DimensionMismatch);
    }
    let ghost view = wiring@;
    let mut flat: Vec<T> = Vec::new();
    let mut i: usize = 0;
    while i < wiring.places.len()
        invariant
            i <= wiring.places@.len(),
            wiring.wf(),
            view == wiring@,
            rectangular(cells(layer@), wiring.rows as int, wiring.cols as int),
            flat@.len() == i,
            forall|k: int|
                0 <= k < i ==> (#[trigger] flat@[k]) == cells(layer@)[view.places[k].0][view.places[k].1],
        decreases wiring.places@.len() - i,
    {
        let place: (usize, usize) = wiring.places[i];
        proof {
            assert(view.places[i as int] == (place.0 as int, place.1 as int));
            assert(view.contains(view.places[i as int].0, view.places[i as int].1));
            assert(cells(layer@)[place.0 as int].len() == wiring.cols);
        }
        flat.push(layer[place.0][place.1]);
        i += 1;
    }
    assert(flat@ =~= view.linearize(cells(layer@)));
    Ok(flat)
}

/// Arranges every layer of a layout with the same wiring, so that all layers
/// share one geometry. Fails when any layer does not hold exactly one key per
/// switch.
pub fn convert_layers<T: Copy>(wiring: &Wiring, input: &Vec<Vec<T>>) -> (made: Result<
    Vec<Vec<Vec<T>>>,
    ShapeError,
>)
    requires
        wiring.wf(),
    ensures
        made is Ok <==> forall|l: int|
            0 <= l < input@.len() ==> (#[trigger] input@[l])@.len() == wiring@.count(),
        made matches Ok(layers) ==> layers@.len() == input@.len() && forall|l: int|
            0 <= l < input@.len() ==> cells((#[trigger] layers@[l])@) == wiring@.arrange(
                input@[l]@,
            ),
        made matches Err(e) ==> e == ShapeError::WrongCount,
{
    let mut layers: Vec<Vec<Vec<T>>> = Vec::new();
    let mut l: usize = 0;
    while l < input.len()
        invariant
            l <= input@.len(),
            wiring.wf(),
            layers@.len() == l,
            forall|k: int| 0 <= k < l ==> (#[trigger] input@[k])@.len() == wiring@.count(),
            forall|k: int|
                0 <= k < l ==> cells((#[trigger] layers@[k])@) == wiring@.arrange(input@[k]@),
        decreases input@.len() - l,
    {
        match arrange_layer(wiring, &input[l]) {
            Ok(layer) => {
                layers.push(layer);
            },
            Err(e) => {
                return Err(e);
            },
        }
        l += 1;
    }
    Ok(layers)
}

} // verus!
