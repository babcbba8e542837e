use keebifa::event::Event;
use keebifa::grid::{filled, is_rectangular};

#[test]
fn an_event_knows_its_switch_and_its_kind() {
    assert_eq!(Event::Press(3, 10).coord(), (3, 10));
    assert_eq!(Event::Release(0, 7).coord(), (0, 7));
    assert!(Event::Press(1, 1).is_press());
    assert!(!Event::Release(1, 1).is_press());
}

#[test]
fn a_filled_grid_is_rectangular() {
    assert_eq!(filled(2, 3, 7u8), vec![vec![7, 7, 7], vec![7, 7, 7]]);
    assert_eq!(filled(0, 3, 7u8), Vec::<Vec<u8>>::new());
    assert_eq!(filled(2, 0, 7u8), vec![Vec::<u8>::new(), Vec::new()]);
    assert!(is_rectangular(&vec![vec![1, 2], vec![3, 4]], 2, 2));
    assert!(!is_rectangular(&vec![vec![1, 2], vec![3]], 2, 2));
    assert!(!is_rectangular(&vec![vec![1, 2], vec![3, 4]], 1, 2));
    assert!(!is_rectangular(&vec![vec![1, 2], vec![3, 4]], 2, 3));
    assert!(is_rectangular(&Vec::<Vec<u8>>::new(), 0, 9));
    assert!(is_rectangular(&vec![vec![1, 2], vec![3, 4]], 2, 2));
}
