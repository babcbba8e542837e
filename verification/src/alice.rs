//! The wiring of the Alice board: 65 keys on a matrix of 5 rows and 13
//! columns.

use vstd::prelude::*;
use crate::action::{arranged, Action, Effect, Layout};
use crate::keycode::{
    KEY_0,
    KEY_1,
    KEY_2,
    KEY_3,
    KEY_4,
    KEY_5,
    KEY_6,
    KEY_7,
    KEY_8,
    KEY_9,
    KEY_A,
    KEY_B,
    KEY_BACKSLASH,
    KEY_BACKSPACE,
    KEY_C,
    KEY_COMMA,
    KEY_D,
    KEY_DOT,
    KEY_E,
    KEY_ENTER,
    KEY_EQUAL,
    KEY_ESCAPE,
    KEY_F,
    KEY_G,
    KEY_GRAVE,
    KEY_H,
    KEY_I,
    KEY_J,
    KEY_K,
    KEY_L,
    KEY_LEFT_ALT,
    KEY_LEFT_BRACKET,
    KEY_LEFT_CTRL,
    KEY_LEFT_GUI,
    KEY_LEFT_SHIFT,
    KEY_M,
    KEY_MINUS,
    KEY_N,
    KEY_O,
    KEY_P,
    KEY_PAGE_DOWN,
    KEY_PAGE_UP,
    KEY_Q,
    KEY_QUOTE,
    KEY_R,
    KEY_RIGHT_ALT,
    KEY_RIGHT_BRACKET,
    KEY_RIGHT_CTRL,
    KEY_RIGHT_SHIFT,
    KEY_S,
    KEY_SEMICOLON,
    KEY_SLASH,
    KEY_SPACE,
    KEY_T,
    KEY_TAB,
    KEY_U,
    KEY_V,
    KEY_W,
    KEY_X,
    KEY_Y,
    KEY_Z,
    NO_KEY,
};
use crate::wiring::{table_view, Wiring};

verus! {

/// Rows of the Alice matrix.
pub const ALICE_ROWS: usize = 5;

/// Columns of the Alice matrix.
pub const ALICE_COLS: usize = 13;

/// Keys of the Alice board.
pub const ALICE_KEYS: usize = 65;

/// Where each key of the Alice board is wired, key after key in reading
/// order: left to right, top row first.
pub open spec fn alice_places() -> Seq<(usize, usize)> {
    seq![
        (3, 0), (1, 0), (0, 0), (0, 1), (0, 2),
        (0, 3), (0, 4), (0, 5), (0, 6), (0, 7),
        (0, 8), (0, 9), (0, 10), (0, 11), (0, 12),
        (4, 0), (2, 0), (1, 1), (1, 2), (1, 3),
        (1, 4), (1, 5), (2, 6), (1, 6), (1, 7),
        (1, 8), (1, 9), (1, 10), (1, 11), (1, 12),
        (4, 1), (3, 1), (2, 1), (2, 2), (2, 3),
        (2, 4), (2, 5), (3, 7), (2, 7), (2, 8),
        (2, 9), (2, 10), (2, 11), (2, 12), (4, 2),
        (3, 2), (3, 3), (3, 4), (3, 5), (3, 6),
        (4, 7), (3, 8), (4, 9), (3, 9), (3, 10),
        (4, 11), (3, 11), (3, 12), (4, 3), (4, 4),
        (4, 5), (4, 6), (4, 8), (4, 10), (4, 12),
    ]
}

/// The same table, for the running program.
fn alice_table() -> (places: Vec<(usize, usize)>)
    ensures
        places@ == alice_places(),
{
    let places: Vec<(usize, usize)> = vec![
        (3, 0), (1, 0), (0, 0), (0, 1), (0, 2),
        (0, 3), (0, 4), (0, 5), (0, 6), (0, 7),
        (0, 8), (0, 9), (0, 10), (0, 11), (0, 12),
        (4, 0), (2, 0), (1, 1), (1, 2), (1, 3),
        (1, 4), (1, 5), (2, 6), (1, 6), (1, 7),
        (1, 8), (1, 9), (1, 10), (1, 11), (1, 12),
        (4, 1), (3, 1), (2, 1), (2, 2), (2, 3),
        (2, 4), (2, 5), (3, 7), (2, 7), (2, 8),
        (2, 9), (2, 10), (2, 11), (2, 12), (4, 2),
        (3, 2), (3, 3), (3, 4), (3, 5), (3, 6),
        (4, 7), (3, 8), (4, 9), (3, 9), (3, 10),
        (4, 11), (3, 11), (3, 12), (4, 3), (4, 4),
        (4, 5), (4, 6), (4, 8), (4, 10), (4, 12),
    ];
    assert(places@ =~= alice_places());
    places
}

/// The inverse table: for each row of the matrix, the key wired at each
/// column.
pub open spec fn alice_sources() -> Seq<Seq<int>> {
    seq![
        seq![2, 3, 4, 5, 6, 7, 8, 9, 10, 11, 12, 13, 14],
        seq![1, 17, 18, 19, 20, 21, 23, 24, 25, 26, 27, 28, 29],
        seq![16, 32, 33, 34, 35, 36, 22, 38, 39, 40, 41, 42, 43],
        seq![0, 31, 45, 46, 47, 48, 49, 37, 51, 53, 54, 56, 57],
        seq![15, 30, 44, 58, 59, 60, 61, 50, 62, 52, 63, 55, 64],
    ]
}

/// The two tables are inverse to each other.
proof fn alice_tables_agree()
    ensures
        alice_places().len() == ALICE_KEYS,
        forall|i: int|
            0 <= i < ALICE_KEYS ==> 0 <= (#[trigger] alice_places()[i]).0 < ALICE_ROWS && 0
                <= alice_places()[i].1 < ALICE_COLS
                && alice_sources()[alice_places()[i].0 as int][alice_places()[i].1 as int] == i,
        forall|r: int, c: int|
            0 <= r < ALICE_ROWS && 0 <= c < ALICE_COLS ==> 0 <= (#[trigger] alice_sources()[r][c])
                < ALICE_KEYS && alice_places()[alice_sources()[r][c]] == (r as usize, c as usize),
{
}

impl Wiring {
    /// The wiring of the Alice board.
    pub fn alice() -> (w: Wiring)
        ensures
            w.wf(),
            w@ == table_view(ALICE_ROWS, ALICE_COLS, alice_places()),
    {
        let places: Vec<(usize, usize)> = alice_table();
        proof {
            alice_tables_agree();
            let table = table_view(ALICE_ROWS, ALICE_COLS, alice_places());
            assert forall|i: int, j: int|
                0 <= i < table.places.len() && 0 <= j < table.places.len()
                    && #[trigger] table.places[i] == #[trigger] table.places[j] implies i
                == j by {
                assert(alice_sources()[alice_places()[i].0 as int][alice_places()[i].1 as int] == i);
                assert(alice_sources()[alice_places()[j].0 as int][alice_places()[j].1 as int] == j);
            }
            assert forall|r: int, c: int| table.contains(r, c) implies 0 <= #[trigger] table.source(
                r,
                c,
            ) < table.places.len() && table.places[table.source(r, c)] == (r, c) by {
                let k = alice_sources()[r][c];
                assert(table.places[k] == (r, c));
            }
            assert(table.rows == 5 && table.cols == 13);
            assert(table.places.len() == 65);
            assert(table.places.len() == table.count());
            assert forall|i: int| 0 <= i < table.places.len() implies table.contains(
                (#[trigger] table.places[i]).0,
                table.places[i].1,
            ) by {
                assert(0 <= alice_places()[i].0 < ALICE_ROWS);
            }
            assert(table.valid());
        }
        Wiring::new(ALICE_ROWS, ALICE_COLS, places).unwrap()
    }
}

/// The key codes of the Alice board's base layer, key after key in reading
/// order. `NO_KEY` marks a place of the drawing where the board has no
/// switch.
pub open spec fn alice_codes() -> Seq<u8> {
    seq![
        KEY_ESCAPE, KEY_GRAVE, KEY_1, KEY_2, KEY_3, KEY_4, KEY_5, KEY_6, KEY_7, KEY_8, KEY_9,
        KEY_0, KEY_MINUS, KEY_EQUAL, KEY_BACKSPACE,
        KEY_PAGE_UP, KEY_TAB, KEY_Q, KEY_W, KEY_E, KEY_R, KEY_T, KEY_Y, KEY_U, KEY_I, KEY_O,
        KEY_P, KEY_LEFT_BRACKET, KEY_RIGHT_BRACKET, KEY_BACKSLASH,
        KEY_PAGE_DOWN, KEY_LEFT_CTRL, KEY_A, KEY_S, KEY_D, KEY_F, KEY_G, KEY_H, KEY_J, KEY_K,
        KEY_L, KEY_SEMICOLON, KEY_QUOTE, KEY_ENTER,
        KEY_LEFT_SHIFT, KEY_Z, KEY_X, KEY_C, KEY_V, NO_KEY, KEY_B, KEY_N, KEY_M, KEY_COMMA,
        KEY_DOT, KEY_SLASH, KEY_RIGHT_SHIFT, NO_KEY,
        NO_KEY, KEY_LEFT_ALT, KEY_SPACE, KEY_LEFT_GUI, KEY_SPACE, KEY_RIGHT_ALT,
        KEY_RIGHT_CTRL,
    ]
}

/// The same codes, for the running program.
fn alice_code_table() -> (codes: Vec<u8>)
    ensures
        codes@ == alice_codes(),
{
    let codes: Vec<u8> = vec![
        KEY_ESCAPE, KEY_GRAVE, KEY_1, KEY_2, KEY_3, KEY_4, KEY_5, KEY_6, KEY_7, KEY_8, KEY_9,
        KEY_0, KEY_MINUS, KEY_EQUAL, KEY_BACKSPACE,
        KEY_PAGE_UP, KEY_TAB, KEY_Q, KEY_W, KEY_E, KEY_R, KEY_T, KEY_Y, KEY_U, KEY_I, KEY_O,
        KEY_P, KEY_LEFT_BRACKET, KEY_RIGHT_BRACKET, KEY_BACKSLASH,
        KEY_PAGE_DOWN, KEY_LEFT_CTRL, KEY_A, KEY_S, KEY_D, KEY_F, KEY_G, KEY_H, KEY_J, KEY_K,
        KEY_L, KEY_SEMICOLON, KEY_QUOTE, KEY_ENTER,
        KEY_LEFT_SHIFT, KEY_Z, KEY_X, KEY_C, KEY_V, NO_KEY, KEY_B, KEY_N, KEY_M, KEY_COMMA,
        KEY_DOT, KEY_SLASH, KEY_RIGHT_SHIFT, NO_KEY,
        NO_KEY, KEY_LEFT_ALT, KEY_SPACE, KEY_LEFT_GUI, KEY_SPACE, KEY_RIGHT_ALT,
        KEY_RIGHT_CTRL,
    ];
    assert(codes@ =~= alice_codes());
    codes
}

/// The action of a key that reports `code`, or does nothing where `code` is
/// `NO_KEY`.
pub open spec fn key_action(code: u8) -> Action {
    if code == NO_KEY {
        Action::Plain(Effect::Nothing)
    } else {
        Action::Plain(Effect::Key(code))
    }
}

/// The base layer of the Alice board in reading order.
pub open spec fn alice_keys() -> Seq<Action> {
    Seq::new(alice_codes().len(), |i: int| key_action(alice_codes()[i]))
}

/// The base layer of the Alice board, key after key in reading order.
pub fn alice_layer() -> (layer: Vec<Action>)
    ensures
        layer@ == alice_keys(),
{
    let codes: Vec<u8> = alice_code_table();
    let mut layer: Vec<Action> = Vec::new();
    let mut i: usize = 0;
    while i < codes.len()
        invariant
            i <= codes@.len(),
            codes@ == alice_codes(),
            layer@.len() == i,
            forall|k: int| 0 <= k < i ==> #[trigger] layer@[k] == key_action(alice_codes()[k]),
        decreases codes@.len() - i,
    {
        let code: u8 = codes[i];
        if code == NO_KEY {
            layer.push(Action::Plain(Effect::Nothing));
        } else {
            layer.push(Action::Plain(Effect::Key(code)));
        }
        i += 1;
    }
    assert(layer@ =~= alice_keys());
    layer
}

impl Layout {
    /// The layout of the Alice board: its base layer, arranged on its wiring.
    pub fn alice() -> (layout: Layout)
        ensures
            layout.wf(),
            layout@.rows == ALICE_ROWS,
            layout@.cols == ALICE_COLS,
            layout@.layers == seq![
                table_view(ALICE_ROWS, ALICE_COLS, alice_places()).arrange(alice_keys()),
            ],
    {
        let wiring = Wiring::alice();
        let mut flat: Vec<Vec<Action>> = Vec::new();
        flat.push(alice_layer());
        proof {
            assert(alice_codes().len() == ALICE_KEYS);
            assert(wiring@.count() == 65) by {
                assert(wiring@.rows == 5 && wiring@.cols == 13);
            }
            let grid = wiring@.arrange(alice_keys());
            let all = arranged(wiring@, flat@);
            assert(all =~= seq![grid]);
            assert forall|r: int, c: int| 0 <= r < 5 && 0 <= c < 13 implies (exists|code: u8|
                #[trigger] grid[r][c] == key_action(code)) by {
                assert(wiring@.contains(r, c));
                let from = wiring@.source(r, c);
                assert(grid[r][c] == alice_keys()[from]);
                assert(alice_keys()[from] == key_action(alice_codes()[from]));
            }
            assert forall|r: int, c: int|
                0 <= r < grid.len() && 0 <= c < grid[r].len() implies #[trigger] grid[r][c]
                != Action::Transparent && grid[r][c].within(1) by {
                let code = choose|code: u8| grid[r][c] == key_action(code);
                assert(grid[r][c] == key_action(code));
            }
        }
        Layout::compile(&wiring, &flat).unwrap()
    }
}

} // verus!
