use keebifa::action::{Action, Effect, Layout};
use keebifa::keycode::{KEY_A, KEY_F, KEY_I, KEY_LEFT_SHIFT, KEY_SPACE};
use keebifa::keymatrix::{PinOp, PinOutcome};
use keebifa::report::Report;
use keebifa::scheduler::{Command, Scheduler, Written};

fn key(code: u8) -> Action {
    Action::Plain(Effect::Key(code))
}

fn two_by_two(debounce_scans: u16) -> Scheduler {
    let layout =
        Layout::new(vec![vec![vec![key(KEY_I), key(KEY_F)], vec![key(KEY_LEFT_SHIFT), key(KEY_A)]]])
            .unwrap();
    Scheduler::new(layout, 1000, debounce_scans, 200)
}

/// The pins of a 2 by 2 matrix with the given switches closed, and optionally
/// a pin that fails at the given operation of a scan.
struct Pins {
    closed: [[bool; 2]; 2],
    selected: Option<usize>,
    fails_at: Option<usize>,
}

/// A watchdog that resets the keyboard when it has not been fed for longer
/// than its timeout.
struct Watchdog {
    timeout: u32,
    unfed: u32,
    reset: bool,
}

impl Watchdog {
    fn pass(&mut self, micros: u32) {
        self.unfed += micros;
        if self.unfed > self.timeout {
            self.reset = true;
        }
    }
}

/// Performs the commands of one timer interrupt and returns the record of the
/// pins, the number of times the watchdog was fed, and the time the timer was
/// armed for.
fn perform(commands: &[Command], pins: &mut Pins, dog: &mut Watchdog) -> (Vec<PinOutcome>, u32, Vec<u32>) {
    let mut record = Vec::new();
    let mut fed = 0;
    let mut armed = Vec::new();
    let mut op_index = 0;
    for command in commands {
        match command {
            Command::ClearInterrupt => {}
            Command::Schedule(micros) => armed.push(*micros),
            Command::FeedWatchdog => {
                fed += 1;
                dog.unfed = 0;
            }
            Command::Pin(op) => {
                if pins.fails_at == Some(op_index) {
                    record.push(PinOutcome::Fault);
                    break;
                }
                op_index += 1;
                match op {
                    PinOp::Select(row) => {
                        assert_eq!(pins.selected, None);
                        pins.selected = Some(*row);
                        record.push(PinOutcome::Driven);
                    }
                    PinOp::Release(row) => {
                        assert_eq!(pins.selected, Some(*row));
                        pins.selected = None;
                        record.push(PinOutcome::Driven);
                    }
                    PinOp::Sample(col) => {
                        let row = pins.selected.unwrap();
                        record.push(PinOutcome::Level(pins.closed[row][*col]));
                    }
                }
            }
        }
    }
    pins.selected = None;
    (record, fed, armed)
}

fn run(scheduler: &mut Scheduler, pins: &mut Pins) -> Option<Report> {
    let mut dog = Watchdog { timeout: 10_000, unfed: 0, reset: false };
    let (record, _, _) = perform(&scheduler.timer_fired(), pins, &mut dog);
    scheduler.cycle(&record)
}

#[test]
fn the_timer_handler_rearms_feeds_once_and_scans() {
    let scheduler = two_by_two(30);
    assert_eq!(
        scheduler.timer_fired(),
        vec![
            Command::ClearInterrupt,
            Command::Schedule(1000),
            Command::FeedWatchdog,
            Command::Pin(PinOp::Select(0)),
            Command::Pin(PinOp::Sample(0)),
            Command::Pin(PinOp::Sample(1)),
            Command::Pin(PinOp::Release(0)),
            Command::Pin(PinOp::Select(1)),
            Command::Pin(PinOp::Sample(0)),
            Command::Pin(PinOp::Sample(1)),
            Command::Pin(PinOp::Release(1)),
        ]
    );
}

#[test]
fn a_new_scheduler_has_an_empty_report() {
    let scheduler = two_by_two(30);
    assert_eq!(scheduler.period(), 1000);
    assert_eq!(scheduler.report(), Report::empty());
}

#[test]
fn a_key_goes_from_the_pins_to_the_report() {
    let mut scheduler = two_by_two(3);
    let mut pins = Pins { closed: [[true, false], [false, false]], selected: None, fails_at: None };
    assert_eq!(run(&mut scheduler, &mut pins), None);
    assert_eq!(run(&mut scheduler, &mut pins), None);
    let sent = run(&mut scheduler, &mut pins).unwrap();
    assert_eq!(sent.keys, [KEY_I, 0, 0, 0, 0, 0]);
    assert_eq!(sent.modifiers, 0);
    assert_eq!(scheduler.report(), sent);
    // nothing new: nothing to send
    assert_eq!(run(&mut scheduler, &mut pins), None);
    assert_eq!(scheduler.report(), sent);
    pins.closed = [[false, false], [true, true]];
    assert_eq!(run(&mut scheduler, &mut pins), None);
    assert_eq!(run(&mut scheduler, &mut pins), None);
    let sent = run(&mut scheduler, &mut pins).unwrap();
    assert_eq!(sent.modifiers, 0b10);
    assert_eq!(sent.keys, [KEY_A, 0, 0, 0, 0, 0]);
    assert_eq!(sent.as_bytes(), [0b10, 0, KEY_A, 0, 0, 0, 0, 0]);
}

#[test]
fn a_key_pressed_for_one_cycle_is_reported_for_one_cycle() {
    let mut scheduler = two_by_two(1);
    let mut pins = Pins { closed: [[true, false], [false, false]], selected: None, fails_at: None };
    let sent = run(&mut scheduler, &mut pins).unwrap();
    assert_eq!(sent.keys, [KEY_I, 0, 0, 0, 0, 0]);
    pins.closed = [[false, false], [false, false]];
    assert_eq!(run(&mut scheduler, &mut pins), Some(Report::empty()));
    assert_eq!(run(&mut scheduler, &mut pins), None);
}

#[test]
fn a_tap_is_sent_and_then_taken_back() {
    let layout = Layout::new(vec![vec![vec![Action::TapHold {
        tap: Effect::Key(KEY_SPACE),
        hold: Effect::Key(KEY_LEFT_SHIFT),
    }]]])
    .unwrap();
    let mut scheduler = Scheduler::new(layout, 1000, 1, 5);
    let press = vec![PinOutcome::Driven, PinOutcome::Level(true), PinOutcome::Driven];
    let release = vec![PinOutcome::Driven, PinOutcome::Level(false), PinOutcome::Driven];
    for _ in 0..4 {
        assert_eq!(scheduler.cycle(&press), None);
    }
    let sent = scheduler.cycle(&release).unwrap();
    assert_eq!(sent.keys, [KEY_SPACE, 0, 0, 0, 0, 0]);
    assert_eq!(scheduler.cycle(&release), Some(Report::empty()));
    assert_eq!(scheduler.cycle(&release), None);
    // held for the hold time: the hold effect
    for _ in 0..4 {
        assert_eq!(scheduler.cycle(&press), None);
    }
    let sent = scheduler.cycle(&press).unwrap();
    assert_eq!(sent.modifiers, 0b10);
    assert_eq!(sent.keys, [0; 6]);
}

#[test]
fn a_failed_scan_abandons_the_cycle() {
    let mut scheduler = two_by_two(2);
    let mut pins = Pins { closed: [[true, false], [false, false]], selected: None, fails_at: None };
    assert_eq!(run(&mut scheduler, &mut pins), None);
    pins.fails_at = Some(5);
    for _ in 0..10 {
        assert_eq!(run(&mut scheduler, &mut pins), None);
        assert_eq!(scheduler.report(), Report::empty());
    }
    // the failed scans were not counted: one more healthy scan is needed
    pins.fails_at = None;
    let sent = run(&mut scheduler, &mut pins).unwrap();
    assert_eq!(sent.keys, [KEY_I, 0, 0, 0, 0, 0]);
    // a record that is cut short is no scan either
    assert_eq!(scheduler.cycle(&vec![PinOutcome::Driven]), None);
    assert_eq!(scheduler.report(), sent);
}

#[test]
fn a_write_is_tried_again_while_nothing_was_taken() {
    assert!(Scheduler::write_again(Written::Bytes(0)));
    assert!(!Scheduler::write_again(Written::Bytes(8)));
    assert!(!Scheduler::write_again(Written::Bytes(1)));
    assert!(Scheduler::write_again(Written::WouldBlock));
    assert!(!Scheduler::write_again(Written::Failed));
}

#[test]
fn the_alice_board_runs_a_cycle() {
    let mut scheduler = Scheduler::new(Layout::alice(), 1000, 30, 200);
    let commands = scheduler.timer_fired();
    assert_eq!(commands.len(), 3 + 5 * 15);
    let mut record = Vec::new();
    for command in &commands {
        match command {
            Command::Pin(PinOp::Sample(col)) => {
                record.push(PinOutcome::Level(*col == 1 && record.len() / 15 == 2))
            }
            Command::Pin(_) => record.push(PinOutcome::Driven),
            _ => {}
        }
    }
    for _ in 0..29 {
        assert_eq!(scheduler.cycle(&record), None);
    }
    let sent = scheduler.cycle(&record).unwrap();
    assert_eq!(sent.keys, [KEY_A, 0, 0, 0, 0, 0]);
}

#[test]
fn a_served_timer_keeps_the_watchdog_fed() {
    let mut scheduler = two_by_two(30);
    let mut pins = Pins { closed: [[false; 2]; 2], selected: None, fails_at: None };
    let mut dog = Watchdog { timeout: 10_000, unfed: 0, reset: false };
    for _ in 0..1000 {
        dog.pass(1000);
        let (record, fed, armed) = perform(&scheduler.timer_fired(), &mut pins, &mut dog);
        assert_eq!(fed, 1);
        assert_eq!(armed, vec![1000]);
        scheduler.cycle(&record);
        assert!(!dog.reset);
    }
}

#[test]
fn a_starved_timer_handler_lets_the_watchdog_reset() {
    let mut scheduler = two_by_two(30);
    let mut pins = Pins { closed: [[false; 2]; 2], selected: None, fails_at: None };
    let mut dog = Watchdog { timeout: 10_000, unfed: 0, reset: false };
    for _ in 0..5 {
        dog.pass(1000);
        let (record, _, _) = perform(&scheduler.timer_fired(), &mut pins, &mut dog);
        scheduler.cycle(&record);
    }
    // the USB handler keeps the processor: the timer handler does not run,
    // so no command to feed the watchdog is ever given
    for period in 1..=11u32 {
        dog.pass(1000);
        assert_eq!(dog.reset, period > 10);
    }
    assert!(dog.reset);
}

#[test]
fn a_scan_with_a_fault_still_fed_the_watchdog() {
    let scheduler = two_by_two(30);
    let mut pins = Pins { closed: [[false; 2]; 2], selected: None, fails_at: Some(0) };
    let mut dog = Watchdog { timeout: 10_000, unfed: 9_000, reset: false };
    let (record, fed, _) = perform(&scheduler.timer_fired(), &mut pins, &mut dog);
    assert_eq!(fed, 1);
    assert_eq!(record, vec![PinOutcome::Fault]);
    assert_eq!(dog.unfed, 0);
}
