use keebifa::action::{Action, Effect};
use keebifa::alice::{alice_layer, ALICE_COLS, ALICE_KEYS, ALICE_ROWS};
use keebifa::keycode::{
    KEY_0, KEY_1, KEY_2, KEY_3, KEY_4, KEY_5, KEY_6, KEY_7, KEY_8, KEY_9, KEY_E, KEY_ESCAPE,
    KEY_GRAVE, KEY_LEFT_SHIFT, KEY_PAGE_DOWN, KEY_PAGE_UP, KEY_Q, KEY_R, KEY_RIGHT_CTRL, KEY_T,
    KEY_W,
};
use keebifa::wiring::{arrange_layer, convert_layers, linear_order, ShapeError, Wiring};

fn key(code: u8) -> Action {
    Action::Plain(Effect::Key(code))
}

#[test]
fn arrange_places_each_key_at_its_coordinate() {
    let wiring = Wiring::new(2, 2, vec![(1, 1), (0, 0), (1, 0), (0, 1)]).unwrap();
    let layer = arrange_layer(&wiring, &vec![10u8, 20, 30, 40]).unwrap();
    assert_eq!(layer, vec![vec![20, 40], vec![30, 10]]);
}

#[test]
fn arrange_then_linear_order_gives_the_input_back() {
    let wiring = Wiring::new(2, 3, vec![(1, 2), (0, 0), (1, 0), (0, 1), (0, 2), (1, 1)]).unwrap();
    let input = vec![7u16, 11, 13, 17, 19, 23];
    let layer = arrange_layer(&wiring, &input).unwrap();
    assert_eq!(layer, vec![vec![11, 17, 19], vec![13, 23, 7]]);
    assert_eq!(linear_order(&wiring, &layer), Ok(input));
}

#[test]
fn linear_order_then_arrange_gives_the_layer_back() {
    let wiring = Wiring::alice();
    let layer: Vec<Vec<usize>> =
        (0..ALICE_ROWS).map(|r| (0..ALICE_COLS).map(|c| 100 * r + c).collect()).collect();
    let flat = linear_order(&wiring, &layer).unwrap();
    assert_eq!(flat.len(), ALICE_KEYS);
    assert_eq!(arrange_layer(&wiring, &flat), Ok(layer));
}

#[test]
fn arrange_refuses_a_wrong_count() {
    let wiring = Wiring::new(2, 2, vec![(1, 1), (0, 0), (1, 0), (0, 1)]).unwrap();
    assert_eq!(arrange_layer(&wiring, &vec![1u8, 2, 3]), Err(ShapeError::WrongCount));
    assert_eq!(arrange_layer(&wiring, &vec![1u8, 2, 3, 4, 5]), Err(ShapeError::WrongCount));
    assert_eq!(arrange_layer(&wiring, &Vec::<u8>::new()), Err(ShapeError::WrongCount));
}

#[test]
fn linear_order_refuses_a_wrong_shape() {
    let wiring = Wiring::new(2, 2, vec![(1, 1), (0, 0), (1, 0), (0, 1)]).unwrap();
    assert_eq!(
        linear_order(&wiring, &vec![vec![1u8, 2], vec![3]]),
        Err(ShapeError::DimensionMismatch)
    );
    assert_eq!(linear_order(&wiring, &vec![vec![1u8, 2]]), Err(ShapeError::DimensionMismatch));
    assert_eq!(
        linear_order(&wiring, &vec![vec![1u8, 2, 3], vec![4, 5, 6]]),
        Err(ShapeError::DimensionMismatch)
    );
}

#[test]
fn wiring_refuses_a_table_of_the_wrong_length() {
    assert_eq!(Wiring::new(2, 2, vec![(0, 0), (0, 1), (1, 0)]).err(), Some(ShapeError::WrongCount));
    assert_eq!(Wiring::new(1, 1, vec![(0, 0), (0, 0)]).err(), Some(ShapeError::WrongCount));
    assert_eq!(Wiring::new(usize::MAX, 2, vec![(0, 0)]).err(), Some(ShapeError::WrongCount));
}

#[test]
fn wiring_refuses_a_table_that_is_no_permutation() {
    assert_eq!(
        Wiring::new(2, 2, vec![(0, 0), (0, 1), (1, 0), (0, 0)]).err(),
        Some(ShapeError::NotAPermutation)
    );
    assert_eq!(
        Wiring::new(2, 2, vec![(0, 0), (0, 1), (1, 0), (2, 1)]).err(),
        Some(ShapeError::NotAPermutation)
    );
    assert_eq!(
        Wiring::new(2, 2, vec![(0, 0), (0, 1), (1, 0), (1, 2)]).err(),
        Some(ShapeError::NotAPermutation)
    );
}

#[test]
fn an_empty_matrix_has_an_empty_wiring() {
    let wiring = Wiring::new(0, 5, Vec::new()).unwrap();
    assert_eq!(wiring.rows(), 0);
    assert_eq!(wiring.cols(), 5);
    assert_eq!(arrange_layer(&wiring, &Vec::<u8>::new()), Ok(Vec::<Vec<u8>>::new()));
}

#[test]
fn convert_layers_arranges_every_layer_alike() {
    let wiring = Wiring::new(2, 2, vec![(1, 1), (0, 0), (1, 0), (0, 1)]).unwrap();
    let layers = convert_layers(&wiring, &vec![vec![1u8, 2, 3, 4], vec![5, 6, 7, 8]]).unwrap();
    assert_eq!(layers, vec![vec![vec![2, 4], vec![3, 1]], vec![vec![6, 8], vec![7, 5]]]);
    assert_eq!(convert_layers(&wiring, &Vec::<Vec<u8>>::new()), Ok(Vec::new()));
    assert_eq!(
        convert_layers(&wiring, &vec![vec![1u8, 2, 3, 4], vec![5, 6, 7]]),
        Err(ShapeError::WrongCount)
    );
}

#[test]
fn alice_wiring_places_the_keys_as_the_board_is_wired() {
    let wiring = Wiring::alice();
    assert_eq!(wiring.rows(), 5);
    assert_eq!(wiring.cols(), 13);
    let input: Vec<usize> = (0..65).collect();
    let layer = arrange_layer(&wiring, &input).unwrap();
    assert_eq!(
        layer,
        vec![
            vec![2, 3, 4, 5, 6, 7, 8, 9, 10, 11, 12, 13, 14],
            vec![1, 17, 18, 19, 20, 21, 23, 24, 25, 26, 27, 28, 29],
            vec![16, 32, 33, 34, 35, 36, 22, 38, 39, 40, 41, 42, 43],
            vec![0, 31, 45, 46, 47, 48, 49, 37, 51, 53, 54, 56, 57],
            vec![15, 30, 44, 58, 59, 60, 61, 50, 62, 52, 63, 55, 64],
        ]
    );
    assert_eq!(linear_order(&wiring, &layer), Ok(input));
}

#[test]
fn test_convert_layer() {
    let rows: Vec<Vec<u8>> = vec![
        vec![
            KEY_1, KEY_2, KEY_3, KEY_4, KEY_5, KEY_6, KEY_7, KEY_8, KEY_9, KEY_0, KEY_Q, KEY_W,
            KEY_E, KEY_R, KEY_T,
        ],
        vec![
            KEY_1, KEY_2, KEY_3, KEY_4, KEY_5, KEY_6, KEY_7, KEY_8, KEY_9, KEY_0, KEY_Q, KEY_W,
            KEY_E, KEY_R, KEY_T,
        ],
        vec![
            KEY_1, KEY_2, KEY_3, KEY_4, KEY_5, KEY_6, KEY_7, KEY_8, KEY_9, KEY_0, KEY_Q, KEY_W,
            KEY_E, KEY_R,
        ],
        vec![
            KEY_1, KEY_2, KEY_3, KEY_4, KEY_5, KEY_6, KEY_7, KEY_8, KEY_9, KEY_0, KEY_Q, KEY_W,
            KEY_E, KEY_R,
        ],
        vec![KEY_1, KEY_2, KEY_3, KEY_4, KEY_5, KEY_6, KEY_7],
    ];
    let array: Vec<Vec<Action>> =
        vec![rows.iter().flat_map(|row| row.iter().map(|code| key(*code))).collect()];
    assert_eq!(array[0].len(), 65);

    println!("{:?}", array);

    let layers = convert_layers(&Wiring::alice(), &array).unwrap();
    assert_eq!(layers.len(), 1);
    assert_eq!(layers[0].len(), 5);
    assert!(layers[0].iter().all(|row| row.len() == 13));
    assert_eq!(layers[0][0][0], key(KEY_3));
    assert_eq!(layers[0][3][0], key(KEY_1));
    assert_eq!(layers[0][4][12], key(KEY_7));
}

#[test]
fn alice_layout_test() {
    let alice_layout = convert_layers(&Wiring::alice(), &vec![alice_layer()]).unwrap();
    println!("{:?}", alice_layout);

    assert_eq!(alice_layout.len(), 1);
    assert_eq!(alice_layout[0].len(), 5);
    assert!(alice_layout[0].iter().all(|row| row.len() == 13));
    assert_eq!(alice_layout[0][3][0], key(KEY_ESCAPE));
    assert_eq!(alice_layout[0][1][0], key(KEY_GRAVE));
    assert_eq!(alice_layout[0][0][0], key(KEY_1));
    assert_eq!(alice_layout[0][4][0], key(KEY_PAGE_UP));
    assert_eq!(alice_layout[0][4][1], key(KEY_PAGE_DOWN));
    assert_eq!(alice_layout[0][4][2], key(KEY_LEFT_SHIFT));
    assert_eq!(alice_layout[0][4][3], Action::Plain(Effect::Nothing));
    assert_eq!(alice_layout[0][4][12], key(KEY_RIGHT_CTRL));
}
