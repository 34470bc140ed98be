use std::cell::RefCell;
use std::rc::Rc;

use embedded_hal::digital::v2::OutputPin;
use sevenseg::SevenSeg;

type Log = Rc<RefCell<Vec<(char, bool)>>>;

/// A pin that records each level it is driven to, and can be told to fail.
#[derive(Debug)]
struct MockPin {
    name: char,
    log: Log,
    fail: bool,
}

impl MockPin {
    fn new(name: char, log: &Log) -> MockPin {
        MockPin { name, log: log.clone(), fail: false }
    }

    fn failing(name: char, log: &Log) -> MockPin {
        MockPin { name, log: log.clone(), fail: true }
    }

    fn record(&mut self, level: bool) -> Result<(), &'static str> {
        self.log.borrow_mut().push((self.name, level));
        if self.fail {
            Err("pin failure")
        } else {
            Ok(())
        }
    }
}

impl OutputPin for MockPin {
    type Error = &'static str;

    fn set_low(&mut self) -> Result<(), Self::Error> {
        self.record(false)
    }

    fn set_high(&mut self) -> Result<(), Self::Error> {
        self.record(true)
    }
}

type Display = SevenSeg<MockPin, MockPin, MockPin, MockPin, MockPin, MockPin, MockPin>;

fn display_with_failing(log: &Log, failing: Option<char>) -> Display {
    let pin = |name: char| {
        if failing == Some(name) {
            MockPin::failing(name, log)
        } else {
            MockPin::new(name, log)
        }
    };
    SevenSeg::new(pin('a'), pin('b'), pin('c'), pin('d'), pin('e'), pin('f'), pin('g'))
}

fn new_log() -> Log {
    Rc::new(RefCell::new(Vec::new()))
}

fn taken(log: &Log) -> Vec<(char, bool)> {
    std::mem::take(&mut *log.borrow_mut())
}

fn expected(levels: [u8; 7]) -> Vec<(char, bool)> {
    "abcdefg".chars().zip(levels.iter().map(|&l| l == 1)).collect()
}

const TABLE: [[u8; 7]; 16] = [
    [1, 1, 1, 1, 1, 1, 0],
    [0, 0, 0, 0, 1, 1, 0],
    [1, 1, 0, 1, 1, 0, 1],
    [1, 0, 0, 1, 1, 1, 1],
    [0, 0, 1, 0, 1, 1, 1],
    [1, 0, 1, 1, 0, 1, 1],
    [1, 1, 1, 1, 0, 1, 1],
    [0, 0, 0, 1, 1, 1, 0],
    [1, 1, 1, 1, 1, 1, 1],
    [1, 0, 1, 1, 1, 1, 1],
    [0, 1, 1, 1, 1, 1, 1],
    [1, 1, 1, 0, 0, 1, 1],
    [1, 1, 1, 1, 0, 0, 0],
    [1, 1, 0, 0, 1, 1, 1],
    [1, 1, 1, 1, 0, 0, 1],
    [0, 1, 1, 1, 0, 0, 1],
];

#[test]
fn display_writes_each_hex_digit() {
    let log = new_log();
    let mut disp = display_with_failing(&log, None);
    for (num, levels) in TABLE.iter().enumerate() {
        assert_eq!(disp.display(num as u8), Ok(()));
        assert_eq!(taken(&log), expected(*levels), "digit {}", num);
    }
}

#[test]
fn display_zero_and_f() {
    let log = new_log();
    let mut disp = display_with_failing(&log, None);
    assert_eq!(disp.display(0), Ok(()));
    assert_eq!(
        taken(&log),
        vec![('a', true), ('b', true), ('c', true), ('d', true), ('e', true), ('f', true), ('g', false)]
    );
    assert_eq!(disp.display(15), Ok(()));
    assert_eq!(
        taken(&log),
        vec![('a', false), ('b', true), ('c', true), ('d', true), ('e', false), ('f', false), ('g', true)]
    );
}

#[test]
fn display_out_of_range_matches_clear() {
    let log = new_log();
    let mut disp = display_with_failing(&log, None);
    assert_eq!(disp.clear(), Ok(()));
    let cleared = taken(&log);
    assert_eq!(cleared, expected([0; 7]));
    for num in [16u8, 17, 100, 255] {
        assert_eq!(disp.display(num), Ok(()));
        assert_eq!(taken(&log), cleared, "value {}", num);
    }
}

#[test]
fn clear_writes_seven_lows_in_order() {
    let log = new_log();
    let mut disp = display_with_failing(&log, None);
    assert_eq!(disp.display(8), Ok(()));
    taken(&log);
    assert_eq!(disp.clear(), Ok(()));
    assert_eq!(
        taken(&log),
        vec![('a', false), ('b', false), ('c', false), ('d', false), ('e', false), ('f', false), ('g', false)]
    );
}

#[test]
fn display_five_stops_at_failing_d() {
    let log = new_log();
    let mut disp = display_with_failing(&log, Some('d'));
    assert_eq!(disp.display(5), Err(()));
    assert_eq!(taken(&log), vec![('a', true), ('b', false), ('c', true), ('d', true)]);
}

#[test]
fn clear_stops_at_failing_a() {
    let log = new_log();
    let mut disp = display_with_failing(&log, Some('a'));
    assert_eq!(disp.clear(), Err(()));
    assert_eq!(taken(&log), vec![('a', false)]);
}

#[test]
fn display_fails_at_last_segment() {
    let log = new_log();
    let mut disp = display_with_failing(&log, Some('g'));
    assert_eq!(disp.display(8), Err(()));
    assert_eq!(taken(&log), expected([1; 7]));
}

#[test]
fn new_then_release_gives_back_pins() {
    let log = new_log();
    let disp = display_with_failing(&log, Some('c'));
    let (a, b, c, d, e, f, g) = disp.release();
    let names: Vec<char> = [&a, &b, &c, &d, &e, &f, &g].iter().map(|p| p.name).collect();
    assert_eq!(names, vec!['a', 'b', 'c', 'd', 'e', 'f', 'g']);
    let fails: Vec<bool> = [&a, &b, &c, &d, &e, &f, &g].iter().map(|p| p.fail).collect();
    assert_eq!(fails, vec![false, false, true, false, false, false, false]);
    assert!(log.borrow().is_empty());
}

#[test]
fn set_segment_g_writes_only_g() {
    let log = new_log();
    let mut disp = display_with_failing(&log, None);
    assert_eq!(disp.seg_g(true), Ok(()));
    assert_eq!(taken(&log), vec![('g', true)]);
    assert_eq!(disp.seg_g(false), Ok(()));
    assert_eq!(taken(&log), vec![('g', false)]);
}

#[test]
fn each_segment_setter_drives_its_own_pin() {
    let log = new_log();
    let mut disp = display_with_failing(&log, None);
    assert_eq!(disp.seg_a(true), Ok(()));
    assert_eq!(disp.seg_b(false), Ok(()));
    assert_eq!(disp.seg_c(true), Ok(()));
    assert_eq!(disp.seg_d(false), Ok(()));
    assert_eq!(disp.seg_e(true), Ok(()));
    assert_eq!(disp.seg_f(false), Ok(()));
    assert_eq!(disp.seg_g(true), Ok(()));
    assert_eq!(taken(&log), expected([1, 0, 1, 0, 1, 0, 1]));
}

#[test]
fn segment_setter_reports_pin_error() {
    let log = new_log();
    let mut disp = display_with_failing(&log, Some('e'));
    assert_eq!(disp.seg_e(true), Err(()));
    assert_eq!(disp.seg_f(true), Ok(()));
    assert_eq!(taken(&log), vec![('e', true), ('f', true)]);
}

#[test]
fn release_after_writes_keeps_slots() {
    let log = new_log();
    let mut disp = display_with_failing(&log, Some('e'));
    assert_eq!(disp.display(3), Err(()));
    assert_eq!(disp.clear(), Err(()));
    assert_eq!(disp.seg_b(true), Ok(()));
    let (a, b, c, d, e, f, g) = disp.release();
    let names: Vec<char> = [&a, &b, &c, &d, &e, &f, &g].iter().map(|p| p.name).collect();
    assert_eq!(names, vec!['a', 'b', 'c', 'd', 'e', 'f', 'g']);
    assert!(e.fail);
}
