//! Actions and the layers that assign them to switches.

use vstd::prelude::*;
use crate::grid::{cells, is_rectangular, rectangular};
use crate::wiring::{convert_layers, Wiring, WiringView};

verus! {

/// What a key does once it is decided that it does it.
#[derive(Clone, Copy, Debug, PartialEq, Eq)]
pub enum Effect {
    /// Nothing at all.
    Nothing,
    /// The key code is reported while the key is down.
    Key(u8),
    /// The key codes are reported together while the key is down. A code of
    /// 0 stands for no key.
    Chord([u8; 4]),
    /// The layer is active while the key is down.
    Momentary(usize),
    /// The layer is switched on if it was off and off if it was on, and
    /// stays so when the key is released.
    Toggle(usize),
}

/// What is assigned to one switch on one layer.
#[derive(Clone, Copy, Debug, PartialEq, Eq)]
pub enum Action {
    /// The switch is not assigned on this layer: the next lower active layer
    /// decides.
    Transparent,
    /// The effect takes place as soon as the key is pressed.
    Plain(Effect),
    /// `tap` takes place if the key is released before the hold time has
    /// passed, `hold` once it has passed with the key still down.
    TapHold { tap: Effect, hold: Effect },
}

impl Effect {
    /// The key codes that the effect reports, in order.
    pub open spec fn codes(self) -> Seq<u8> {
        match self {
            Effect::Key(code) => seq![code],
            Effect::Chord(codes) => codes@,
            _ => Seq::empty(),
        }
    }

    /// Every layer that the effect names is one of the first `depth`.
    pub open spec fn within(self, depth: nat) -> bool {
        match self {
            Effect::Momentary(layer) => layer < depth,
            Effect::Toggle(layer) => layer < depth,
            _ => true,
        }
    }

    /// Whether every layer that the effect names is one of the first
    /// `depth`.
    pub fn is_within(self, depth: usize) -> (yes: bool)
        ensures
            yes == self.within(depth as nat),
    {
        match self {
            Effect::Momentary(layer) => layer < depth,
            Effect::Toggle(layer) => layer < depth,
            _ => true,
        }
    }
}

impl Action {
    /// Every layer that the action names is one of the first `depth`.
    pub open spec fn within(self, depth: nat) -> bool {
        match self {
            Action::Transparent => true,
            Action::Plain(effect) => effect.within(depth),
            Action::TapHold { tap, hold } => tap.within(depth) && hold.within(depth),
        }
    }

    /// Whether every layer that the action names is one of the first
    /// `depth`.
    pub fn is_within(self, depth: usize) -> (yes: bool)
        ensures
            yes == self.within(depth as nat),
    {
        match self {
            Action::Transparent => true,
            Action::Plain(effect) => effect.is_within(depth),
            Action::TapHold { tap, hold } => tap.is_within(depth) && hold.is_within(depth),
        }
    }
}

/// Why a stack of layers was refused.
#[derive(Clone, Copy, Debug, PartialEq, Eq, Structural)]
pub enum LayoutError {
    /// A layer written in reading order does not hold one key per switch.
    WrongCount,
    /// There is no layer at all.
    NoLayers,
    /// A layer does not have the rows and columns of the base layer, or the
    /// base layer's rows differ in length.
    DimensionMismatch,
    /// The base layer leaves a switch transparent.
    TransparentBase,
    /// An action names a layer that does not exist.
    UnknownLayer,
}

/// The layers as nested sequences: layer, row, column.
pub open spec fn tables(layers: Seq<Vec<Vec<Action>>>) -> Seq<Seq<Seq<Action>>> {
    Seq::new(layers.len(), |l: int| cells(layers[l]@))
}

/// The number of rows of the base layer.
pub open spec fn base_rows(layers: Seq<Seq<Seq<Action>>>) -> nat {
    layers[0].len()
}

/// The number of columns of the base layer.
pub open spec fn base_cols(layers: Seq<Seq<Seq<Action>>>) -> nat {
    if layers[0].len() == 0 {
        0
    } else {
        layers[0][0].len()
    }
}

/// Every layer has the rows and columns of the base layer.
pub open spec fn same_shape(layers: Seq<Seq<Seq<Action>>>) -> bool {
    forall|l: int|
        0 <= l < layers.len() ==> rectangular(
            #[trigger] layers[l],
            base_rows(layers) as int,
            base_cols(layers) as int,
        )
}

/// Some switch of `layer` is transparent.
pub open spec fn has_transparent(layer: Seq<Seq<Action>>) -> bool {
    exists|r: int, c: int|
        0 <= r < layer.len() && 0 <= c < layer[r].len() && #[trigger] layer[r][c]
            == Action::Transparent
}

/// Every action of `layer` names only layers among the first `depth`.
pub open spec fn layer_within(layer: Seq<Seq<Action>>, depth: nat) -> bool {
    forall|r: int, c: int|
        0 <= r < layer.len() && 0 <= c < layer[r].len() ==> (#[trigger] layer[r][c]).within(depth)
}

/// What is wrong with a stack of arranged layers, if anything: the first of
/// the faults, in the order of [`LayoutError`].
pub open spec fn fault(layers: Seq<Seq<Seq<Action>>>) -> Option<LayoutError> {
    if layers.len() == 0 {
        Some(LayoutError::NoLayers)
    } else if !same_shape(layers) {
        Some(LayoutError::DimensionMismatch)
    } else if has_transparent(layers[0]) {
        Some(LayoutError::TransparentBase)
    } else if !(forall|l: int| 0 <= l < layers.len() ==> layer_within(#[trigger] layers[l], layers.len())) {
        Some(LayoutError::UnknownLayer)
    } else {
        None
    }
}

/// The layers that `wiring` arranges from layers written in reading order.
pub open spec fn arranged(wiring: WiringView, flat: Seq<Vec<Action>>) -> Seq<Seq<Seq<Action>>> {
    Seq::new(flat.len(), |l: int| wiring.arrange(flat[l]@))
}

/// Every layer written in reading order holds one key per switch.
pub open spec fn counts_fit(wiring: WiringView, flat: Seq<Vec<Action>>) -> bool {
    forall|l: int| 0 <= l < flat.len() ==> (#[trigger] flat[l])@.len() == wiring.count()
}

/// What a [`Layout`] stands for.
pub struct LayoutView {
    pub rows: nat,
    pub cols: nat,
    pub layers: Seq<Seq<Seq<Action>>>,
}

impl LayoutView {
    /// The number of layers.
    pub open spec fn depth(self) -> nat {
        self.layers.len()
    }

    /// `(r, c)` is a switch of the matrix.
    pub open spec fn contains(self, r: int, c: int) -> bool {
        0 <= r < self.rows && 0 <= c < self.cols
    }

    /// There is a base layer, all layers have its shape, it assigns every
    /// switch, and no action names a layer that is not there.
    pub open spec fn valid(self) -> bool {
        &&& fault(self.layers) is None
        &&& self.rows == base_rows(self.layers)
        &&& self.cols == base_cols(self.layers)
    }

    /// The action that the topmost of the active layers `stack` assigns to
    /// `(r, c)`, where layers that leave the switch transparent are passed
    /// over. The top of the stack is its last entry.
    pub open spec fn lookup(self, stack: Seq<usize>, r: int, c: int) -> Action
        decreases stack.len(),
    {
        if stack.len() == 0 {
            Action::Plain(Effect::Nothing)
        } else {
            let found = self.layers[stack.last() as int][r][c];
            if found == Action::Transparent {
                self.lookup(stack.drop_last(), r, c)
            } else {
                found
            }
        }
    }

    /// With the base layer at the bottom of the stack, a lookup never ends
    /// on a transparent action, and what it finds names only layers that are
    /// there.
    pub proof fn lookup_is_assigned(self, stack: Seq<usize>, r: int, c: int)
        requires
            self.valid(),
            self.contains(r, c),
            stack.len() > 0,
            stack[0] == 0,
            forall|i: int| 0 <= i < stack.len() ==> #[trigger] stack[i] < self.depth(),
        ensures
            self.lookup(stack, r, c) != Action::Transparent,
            self.lookup(stack, r, c).within(self.depth()),
        decreases stack.len(),
    {
        let top = stack.last() as int;
        assert(rectangular(self.layers[top], self.rows as int, self.cols as int));
        assert(layer_within(self.layers[top], self.depth()));
        assert(self.layers[top][r].len() == self.cols);
        let found = self.layers[top][r][c];
        assert(found.within(self.depth()));
        if found == Action::Transparent {
            if stack.len() == 1 {
                assert(self.layers[0][r][c] == Action::Transparent);
                assert(has_transparent(self.layers[0]));
            } else {
                let below = stack.drop_last();
                assert(below[0] == stack[0]);
                assert forall|i: int| 0 <= i < below.len() implies #[trigger] below[i]
                    < self.depth() by {
                    assert(below[i] == stack[i]);
                }
                self.lookup_is_assigned(below, r, c);
            }
        }
    }
}

/// A stack of layers over one matrix. Layer 0 is the base layer.
#[derive(Debug)]
pub struct Layout {
    rows: usize,
    cols: usize,
    layers: Vec<Vec<Vec<Action>>>,
}

impl View for Layout {
    type V = LayoutView;

    closed spec fn view(&self) -> LayoutView {
        LayoutView { rows: self.rows as nat, cols: self.cols as nat, layers: tables(self.layers@) }
    }
}

/// Whether some switch of a rectangular layer is transparent.
fn find_transparent(layer: &Vec<Vec<Action>>, rows: usize, cols: usize) -> (found: bool)
    requires
        rectangular(cells(layer@), rows as int, cols as int),
    ensures
        found == has_transparent(cells(layer@)),
{
    let ghost grid = cells(layer@);
    let mut r: usize = 0;
    while r < rows
        invariant
            r <= rows,
            grid == cells(layer@),
            rectangular(grid, rows as int, cols as int),
            forall|i: int, c: int|
                0 <= i < r && 0 <= c < cols ==> #[trigger] grid[i][c] != Action::Transparent,
        decreases rows - r,
    {
        assert(grid[r as int].len() == cols);
        let mut c: usize = 0;
        while c < cols
            invariant
                c <= cols,
                r < rows,
                grid == cells(layer@),
                rectangular(grid, rows as int, cols as int),
                grid[r as int].len() == cols,
                forall|k: int| 0 <= k < c ==> #[trigger] grid[r as int][k] != Action::Transparent,
            decreases cols - c,
        {
            match layer[r][c] {
                Action::Transparent => {
                    assert(grid[r as int][c as int] == Action::Transparent);
                    return true;
                },
                _ => {},
            }
            c += 1;
        }
        r += 1;
    }
    assert forall|i: int, c: int|
        0 <= i < grid.len() && 0 <= c < grid[i].len() implies #[trigger] grid[i][c]
        != Action::Transparent by {
        assert(grid[i].len() == cols);
    }
    false
}

/// Whether every action of a rectangular layer names only layers among the
/// first `depth`.
fn check_within(layer: &Vec<Vec<Action>>, rows: usize, cols: usize, depth: usize) -> (ok: bool)
    requires
        rectangular(cells(layer@), rows as int, cols as int),
    ensures
        ok == layer_within(cells(layer@), depth as nat),
{
    let ghost grid = cells(layer@);
    let mut r: usize = 0;
    while r < rows
        invariant
            r <= rows,
            grid == cells(layer@),
            rectangular(grid, rows as int, cols as int),
            forall|i: int, c: int|
                0 <= i < r && 0 <= c < cols ==> (#[trigger] grid[i][c]).within(depth as nat),
        decreases rows - r,
    {
        assert(grid[r as int].len() == cols);
        let mut c: usize = 0;
        while c < cols
            invariant
                c <= cols,
                r < rows,
                grid == cells(layer@),
                rectangular(grid, rows as int, cols as int),
                grid[r as int].len() == cols,
                forall|k: int| 0 <= k < c ==> (#[trigger] grid[r as int][k]).within(depth as nat),
            decreases cols - c,
        {
            if !layer[r][c].is_within(depth) {
                assert(!grid[r as int][c as int].within(depth as nat));
                return false;
            }
            c += 1;
        }
        r += 1;
    }
    assert forall|i: int, c: int| 0 <= i < grid.len() && 0 <= c < grid[i].len() implies (
    #[trigger] grid[i][c]).within(depth as nat) by {
        assert(grid[i].len() == cols);
    }
    true
}

impl Layout {
    /// The layers are a valid stack.
    pub open spec fn wf(&self) -> bool {
        self@.valid()
    }

    /// Takes a stack of layers, base layer first, each a grid of actions by
    /// row and column. The stack is refused unless there is a base layer,
    /// every layer has the base layer's shape, the base layer assigns every
    /// switch, and every layer that an action names exists.
    pub fn new(layers: Vec<Vec<Vec<Action>>>) -> (made: Result<Layout, LayoutError>)
        ensures
            made is Ok <==> fault(tables(layers@)) is None,
            made matches Ok(layout) ==> layout.wf() && layout@.layers == tables(layers@),
            made matches Err(e) ==> fault(tables(layers@)) == Some(e),
    {
        let ghost all = tables(layers@);
        let depth: usize = layers.len();
        if depth == 0 {
            return Err(LayoutError::NoLayers);
        }
        let rows: usize = layers[0].len();
        let cols: usize = if rows == 0 {
            0
        } else {
            layers[0][0].len()
        };
        assert(rows == base_rows(all) && cols == base_cols(all));
        let mut l: usize = 0;
        while l < depth
            invariant
                l <= depth,
                depth == layers@.len(),
                all == tables(layers@),
                rows == base_rows(all),
                cols == base_cols(all),
                forall|k: int| 0 <= k < l ==> rectangular(#[trigger] all[k], rows as int, cols as int),
            decreases depth - l,
        {
            if !is_rectangular(&layers[l], rows, cols) {
                assert(!rectangular(all[l as int], rows as int, cols as int));
                return Err(LayoutError::DimensionMismatch);
            }
            l += 1;
        }
        assert(same_shape(all));
        assert(rectangular(all[0], rows as int, cols as int));
        if find_transparent(&layers[0], rows, cols) {
            return Err(LayoutError::TransparentBase);
        }
        let mut l: usize = 0;
        while l < depth
            invariant
                l <= depth,
                depth == layers@.len(),
                all == tables(layers@),
                same_shape(all),
                !has_transparent(all[0]),
                rows == base_rows(all),
                cols == base_cols(all),
                forall|k: int| 0 <= k < l ==> layer_within(#[trigger] all[k], depth as nat),
            decreases depth - l,
        {
            assert(rectangular(all[l as int], rows as int, cols as int));
            if !check_within(&layers[l], rows, cols, depth) {
                assert(!layer_within(all[l as int], depth as nat));
                return Err(LayoutError::UnknownLayer);
            }
            l += 1;
        }
        Ok(Layout { rows, cols, layers })
    }

    /// Compiles layers written in reading order, base layer first, into a
    /// layout: every layer is arranged onto the wiring, and the arranged
    /// layers are taken as by [`Layout::new`]. A layer that does not hold one
    /// key per switch is refused before anything else.
    pub fn compile(wiring: &Wiring, flat: &Vec<Vec<Action>>) -> (made: Result<Layout, LayoutError>)
        requires
            wiring.wf(),
        ensures
            made is Ok <==> counts_fit(wiring@, flat@) && fault(arranged(wiring@, flat@)) is None,
            made matches Ok(layout) ==> layout.wf() && layout@.layers == arranged(wiring@, flat@),
            made matches Err(e) ==> Some(e) == (if counts_fit(wiring@, flat@) {
                fault(arranged(wiring@, flat@))
            } else {
                Some(LayoutError::WrongCount)
            }),
    {
        match convert_layers(wiring, flat) {
            Ok(layers) => {
                assert(tables(layers@) =~= arranged(wiring@, flat@));
                Layout::new(layers)
            },
            Err(_) => Err(LayoutError::WrongCount),
        }
    }

    /// The number of layers.
    pub fn depth(&self) -> (n: usize)
        ensures
            n == self@.depth(),
    {
        self.layers.len()
    }

    /// The number of rows of the matrix.
    pub fn rows(&self) -> (n: usize)
        ensures
            n == self@.rows,
    {
        self.rows
    }

    /// The number of columns of the matrix.
    pub fn cols(&self) -> (n: usize)
        ensures
            n == self@.cols,
    {
        self.cols
    }

    /// The action that `layer` assigns to the switch at `(row, col)`.
    pub fn action(&self, layer: usize, row: usize, col: usize) -> (found: Action)
        requires
            self.wf(),
            layer < self@.depth(),
            self@.contains(row as int, col as int),
        ensures
            found == self@.layers[layer as int][row as int][col as int],
    {
        proof {
            assert(rectangular(self@.layers[layer as int], self.rows as int, self.cols as int));
            assert(self@.layers[layer as int][row as int].len() == self.cols);
        }
        self.layers[layer][row][col]
    }
}

} // verus!
