use oilrs::tape::{Stop, Tape};
use oilrs::value::Value;
use std::rc::Rc;

fn text(s: &str) -> Value {
    Value::S(Rc::new(String::from(s)))
}

fn tape_of(cells: &[&str]) -> Tape {
    let mut tape = Tape::new(None);
    for (i, cell) in cells.iter().enumerate() {
        tape.tape.insert(Value::I(i as i64), Value::from(*cell));
    }
    tape
}

fn cell(tape: &Tape, i: i64) -> Value {
    tape.read_val(&Value::I(i))
}

#[test]
fn new_tape_is_empty_and_goes_forward() {
    let tape = Tape::new(Some(String::from("dir")));
    assert_eq!(tape.idx, Value::I(0));
    assert!(tape.dir);
    assert!(tape.tape.is_empty());
    assert_eq!(tape.root, Some(String::from("dir")));
}

#[test]
fn read_val_gives_zero_for_a_cell_that_is_not_filled() {
    let mut tape = tape_of(&["5", "x"]);
    assert_eq!(cell(&tape, 0), Value::I(5));
    assert_eq!(cell(&tape, 1), Value::C('x'));
    assert_eq!(cell(&tape, 2), Value::I(0));
    assert_eq!(cell(&tape, -1), Value::I(0));
    tape.tape.insert(Value::I(2), Value::I(0));
    assert_eq!(cell(&tape, 2), Value::I(0));
    tape.tape.insert(text("key"), Value::I(9));
    assert_eq!(tape.read_val(&text("key")), Value::I(9));
}

#[test]
fn read_int_takes_integers_and_numeric_text() {
    let mut tape = tape_of(&["5", "x", "hello", "9223372036854775808"]);
    assert_eq!(tape.read_int(), Value::I(5));
    tape.idx = Value::I(1);
    assert_eq!(tape.read_int(), Value::I(0));
    tape.idx = Value::I(2);
    assert_eq!(tape.read_int(), Value::I(0));
    tape.idx = Value::I(3);
    assert_eq!(tape.read_int(), text("9223372036854775808"));
    tape.idx = Value::I(4);
    assert_eq!(tape.read_int(), Value::I(0));
}

#[test]
fn step_follows_the_direction() {
    let mut tape = Tape::new(None);
    tape.step();
    assert_eq!(tape.idx, Value::I(1));
    tape.dir = false;
    tape.step();
    tape.step();
    assert_eq!(tape.idx, Value::I(-1));
}

#[test]
fn step_leaves_the_64_bit_range() {
    let mut tape = Tape::new(None);
    tape.idx = Value::I(i64::MAX);
    tape.step();
    assert_eq!(tape.idx, text("9223372036854775808"));
    tape.dir = false;
    tape.step();
    assert_eq!(tape.idx, Value::I(i64::MAX));
}

#[test]
fn copy_moves_a_cell() {
    let mut tape = tape_of(&["1", "3", "4", "hello"]);
    tape.op1();
    assert_eq!(cell(&tape, 4), text("hello"));
    assert_eq!(cell(&tape, 3), text("hello"));
    assert_eq!(tape.idx, Value::I(2));
}

#[test]
fn copy_of_an_empty_cell_stores_zero() {
    let mut tape = tape_of(&["1", "9", "3", "x"]);
    tape.op1();
    assert_eq!(tape.tape.get(&Value::I(3)), Some(&Value::I(0)));
}

#[test]
fn relative_jump_goes_by_the_operand_in_the_direction() {
    let mut tape = tape_of(&["7", "5"]);
    tape.op7();
    assert_eq!(tape.idx, Value::I(6));
    let mut tape = tape_of(&["5", "7"]);
    tape.idx = Value::I(1);
    tape.dir = false;
    tape.op7();
    assert_eq!(tape.idx, Value::I(-5));
}

#[test]
fn increment_and_decrement_fill_empty_cells() {
    let mut tape = tape_of(&["8", "5"]);
    tape.op8();
    assert_eq!(cell(&tape, 5), Value::I(1));
    let mut tape = tape_of(&["9", "5"]);
    tape.op9();
    assert_eq!(cell(&tape, 5), Value::I(-1));
}

#[test]
fn increment_and_decrement_change_filled_cells() {
    let mut tape = tape_of(&["8", "2", "41"]);
    tape.op8();
    assert_eq!(cell(&tape, 2), Value::I(42));
    let mut tape = tape_of(&["9", "2", "-9223372036854775808"]);
    tape.op9();
    assert_eq!(cell(&tape, 2), text("-9223372036854775809"));
    let mut tape = tape_of(&["8", "2", "x"]);
    tape.op8();
    assert_eq!(cell(&tape, 2), Value::I(1));
}

#[test]
fn conditional_jump_takes_the_first_target_when_equal() {
    let mut tape = tape_of(&["10", "5", "6", "20", "30", "a", "a"]);
    tape.op10();
    assert_eq!(tape.idx, Value::I(20));
}

#[test]
fn conditional_jump_takes_the_second_target_when_different() {
    let mut tape = tape_of(&["10", "5", "6", "20", "30", "a", "b"]);
    tape.op10();
    assert_eq!(tape.idx, Value::I(30));
}

#[test]
fn conditional_jump_lands_on_its_target_going_backward() {
    let mut tape = Tape::new(None);
    let cells = [(10, "10"), (9, "1"), (8, "2"), (7, "50"), (6, "60"), (1, "x"), (2, "x")];
    for (i, c) in cells.iter() {
        tape.tape.insert(Value::I(*i), Value::from(*c));
    }
    tape.idx = Value::I(10);
    tape.dir = false;
    tape.op10();
    assert_eq!(tape.idx, Value::I(50));
    assert!(!tape.dir);
}

#[test]
fn jump_lands_on_its_target_in_both_directions() {
    let mut tape = tape_of(&["6", "40"]);
    assert!(matches!(tape.exec(6), Stop::Next));
    assert_eq!(tape.idx, Value::I(40));
    let mut tape = tape_of(&["40", "6"]);
    tape.idx = Value::I(1);
    tape.dir = false;
    assert!(matches!(tape.exec(6), Stop::Next));
    assert_eq!(tape.idx, Value::I(40));
}

#[test]
fn reverse_twice_restores_the_direction() {
    let mut tape = tape_of(&["2", "2"]);
    assert!(matches!(tape.exec(2), Stop::Next));
    assert!(!tape.dir);
    assert_eq!(tape.idx, Value::I(-1));
    assert!(matches!(tape.exec(2), Stop::Next));
    assert!(tape.dir);
    assert_eq!(tape.idx, Value::I(0));
}

#[test]
fn explode_writes_length_and_characters() {
    let mut tape = tape_of(&["12", "3", "10", "abc"]);
    tape.op12();
    assert_eq!(cell(&tape, 10), Value::I(3));
    assert_eq!(cell(&tape, 11), Value::C('a'));
    assert_eq!(cell(&tape, 12), Value::C('b'));
    assert_eq!(cell(&tape, 13), Value::C('c'));
    assert_eq!(tape.tape.get(&Value::I(14)), None);
    assert_eq!(tape.idx, Value::I(2));
}

#[test]
fn explode_makes_integers_of_digits() {
    let mut tape = tape_of(&["12", "3", "10", "-120"]);
    tape.op12();
    assert_eq!(cell(&tape, 10), Value::I(4));
    assert_eq!(cell(&tape, 11), Value::C('-'));
    assert_eq!(cell(&tape, 12), Value::I(1));
    assert_eq!(cell(&tape, 13), Value::I(2));
    assert_eq!(cell(&tape, 14), Value::I(0));
}

#[test]
fn explode_goes_backward_on_a_reversed_tape() {
    let mut tape = Tape::new(None);
    let cells = [(5, "12"), (4, "0"), (3, "20"), (0, "hi")];
    for (i, c) in cells.iter() {
        tape.tape.insert(Value::I(*i), Value::from(*c));
    }
    tape.idx = Value::I(5);
    tape.dir = false;
    tape.op12();
    assert_eq!(cell(&tape, 20), Value::I(2));
    assert_eq!(cell(&tape, 19), Value::C('h'));
    assert_eq!(cell(&tape, 18), Value::C('i'));
}

#[test]
fn explode_of_an_empty_text_writes_length_zero() {
    let mut tape = tape_of(&["12", "3", "10", ""]);
    tape.op12();
    assert_eq!(tape.tape.get(&Value::I(10)), Some(&Value::I(0)));
    assert_eq!(tape.tape.get(&Value::I(11)), None);
}

#[test]
fn ord_writes_code_points() {
    let mut tape = tape_of(&["16", "3", "10", "a1é"]);
    tape.op16();
    assert_eq!(cell(&tape, 10), Value::I(3));
    assert_eq!(cell(&tape, 11), Value::I(97));
    assert_eq!(cell(&tape, 12), Value::I(49));
    assert_eq!(cell(&tape, 13), Value::I(233));
}

#[test]
fn implode_joins_cells() {
    let mut tape = tape_of(&["13", "20", "3", "30"]);
    tape.tape.insert(Value::I(20), Value::C('a'));
    tape.tape.insert(Value::I(21), Value::C('b'));
    tape.tape.insert(Value::I(22), Value::C('c'));
    tape.op13();
    assert_eq!(cell(&tape, 30), text("abc"));
    assert_eq!(tape.idx, Value::I(3));
}

#[test]
fn implode_reads_the_joined_text_as_a_value() {
    let mut tape = tape_of(&["13", "20", "3", "30"]);
    tape.tape.insert(Value::I(20), Value::I(1));
    tape.tape.insert(Value::I(21), Value::I(2));
    tape.tape.insert(Value::I(22), text("3"));
    tape.op13();
    assert_eq!(cell(&tape, 30), Value::I(123));
    let mut tape = tape_of(&["13", "20", "1", "30"]);
    tape.tape.insert(Value::I(20), text("x"));
    tape.op13();
    assert_eq!(cell(&tape, 30), Value::C('x'));
}

#[test]
fn implode_shows_empty_cells_as_zero() {
    let mut tape = tape_of(&["13", "20", "2", "30"]);
    tape.op13();
    assert_eq!(cell(&tape, 30), text("00"));
}

#[test]
fn implode_with_a_count_that_is_not_positive_joins_nothing() {
    let mut tape = tape_of(&["13", "20", "0", "30"]);
    tape.op13();
    assert_eq!(tape.tape.get(&Value::I(30)), Some(&text("")));
    let mut tape = tape_of(&["13", "20", "-4", "30"]);
    tape.op13();
    assert_eq!(tape.tape.get(&Value::I(30)), Some(&text("")));
}

#[test]
fn implode_with_a_count_that_is_no_integer_skips_it() {
    let mut tape = tape_of(&["13", "20", "9223372036854775808", "30"]);
    tape.op13();
    assert_eq!(tape.idx, Value::I(3));
    assert_eq!(tape.tape.get(&Value::I(30)), None);
}

#[test]
fn implode_goes_backward_on_a_reversed_tape() {
    let mut tape = Tape::new(None);
    let cells = [(9, "13"), (8, "2"), (7, "3"), (6, "40"), (2, "a"), (1, "b"), (0, "c")];
    for (i, c) in cells.iter() {
        tape.tape.insert(Value::I(*i), Value::from(*c));
    }
    tape.idx = Value::I(9);
    tape.dir = false;
    tape.op13();
    assert_eq!(cell(&tape, 40), text("abc"));
}

#[test]
fn chr_joins_code_points() {
    let mut tape = tape_of(&["17", "20", "3", "30"]);
    tape.tape.insert(Value::I(20), Value::I(104));
    tape.tape.insert(Value::I(21), Value::I(233));
    tape.tape.insert(Value::I(22), Value::I(0x1F600));
    tape.op17();
    assert_eq!(cell(&tape, 30), text("hé\u{1F600}"));
}

#[test]
fn chr_replaces_what_is_no_scalar_value() {
    let mut tape = tape_of(&["17", "20", "5", "30"]);
    tape.tape.insert(Value::I(20), Value::I(-1));
    tape.tape.insert(Value::I(21), Value::I(0x110000));
    tape.tape.insert(Value::I(22), Value::I(0xD800));
    tape.tape.insert(Value::I(23), Value::C('a'));
    tape.tape.insert(Value::I(24), text("97"));
    tape.op17();
    assert_eq!(cell(&tape, 30), text("\u{fffd}\u{fffd}\u{fffd}\u{fffd}\u{fffd}"));
}

#[test]
fn chr_of_one_digit_code_point_is_read_as_an_integer() {
    let mut tape = tape_of(&["17", "20", "1", "30"]);
    tape.tape.insert(Value::I(20), Value::I(55));
    tape.op17();
    assert_eq!(cell(&tape, 30), Value::I(7));
}

#[test]
fn rand_replaces_a_positive_integer_by_one_in_range() {
    for _ in 0..200 {
        let mut tape = tape_of(&["15", "2", "10"]);
        tape.op15();
        match cell(&tape, 2) {
            Value::I(x) => assert!((0..=10).contains(&x)),
            other => panic!("not an integer: {:?}", other),
        }
        assert_eq!(tape.idx, Value::I(1));
    }
}

#[test]
fn rand_makes_zero_of_a_number_that_is_not_positive() {
    let mut tape = tape_of(&["15", "2", "-10"]);
    tape.op15();
    assert_eq!(cell(&tape, 2), Value::I(0));
    let mut tape = tape_of(&["15", "2", "-9223372036854775809"]);
    tape.op15();
    assert_eq!(cell(&tape, 2), Value::I(0));
    let mut tape = tape_of(&["15", "2", "0"]);
    tape.op15();
    assert_eq!(cell(&tape, 2), Value::I(0));
}

#[test]
fn rand_leaves_what_is_no_number() {
    let mut tape = tape_of(&["15", "2", "hello"]);
    tape.op15();
    assert_eq!(cell(&tape, 2), text("hello"));
    let mut tape = tape_of(&["15", "2", "x"]);
    tape.op15();
    assert_eq!(cell(&tape, 2), Value::C('x'));
    let mut tape = tape_of(&["15", "7"]);
    tape.op15();
    assert_eq!(tape.tape.get(&Value::I(7)), None);
}

#[test]
fn rand_on_a_big_number_stays_within_it() {
    for _ in 0..50 {
        let mut tape = tape_of(&["15", "2", "10000000000000000000000"]);
        tape.op15();
        let drawn = cell(&tape, 2);
        let bound = text("10000000000000000000000");
        let left = bound.decr_by(&drawn);
        let negative = match &left {
            Value::I(x) => *x < 0,
            Value::S(s) => s.starts_with('-'),
            Value::C(_) => true,
        };
        assert!(!negative, "{:?} exceeds the bound", drawn);
        let below_zero = match &drawn {
            Value::I(x) => *x < 0,
            Value::S(s) => s.starts_with('-'),
            Value::C(_) => true,
        };
        assert!(!below_zero);
    }
}

#[test]
fn call_reads_its_three_operands() {
    let mut tape = tape_of(&["14", "echo", "10", "20"]);
    let site = tape.op14();
    assert_eq!(site.ident, text("echo"));
    assert_eq!(site.oi, Value::I(10));
    assert_eq!(site.ii, Value::I(20));
    assert_eq!(tape.idx, Value::I(3));
}

#[test]
fn exec_hands_back_output_input_and_newline() {
    let mut tape = tape_of(&["4", "3", "x", "hello"]);
    match tape.exec(4) {
        Stop::Output(v) => assert_eq!(v, text("hello")),
        _ => panic!("no output"),
    }
    assert_eq!(tape.idx, Value::I(2));
    let mut tape = tape_of(&["5", "9"]);
    match tape.exec(5) {
        Stop::Input(a) => assert_eq!(a, Value::I(9)),
        _ => panic!("no input"),
    }
    assert_eq!(tape.idx, Value::I(2));
    let mut tape = tape_of(&["11"]);
    assert!(matches!(tape.exec(11), Stop::Newline));
    assert_eq!(tape.idx, Value::I(1));
}

#[test]
fn exec_treats_unknown_numbers_as_nop() {
    let mut tape = tape_of(&["0", "99", "-3"]);
    assert!(matches!(tape.exec(0), Stop::Next));
    assert_eq!(tape.idx, Value::I(1));
    assert!(matches!(tape.exec(99), Stop::Next));
    assert_eq!(tape.idx, Value::I(2));
    assert!(matches!(tape.exec(-3), Stop::Next));
    assert_eq!(tape.idx, Value::I(3));
}

#[test]
fn cycle_quits_on_a_cell_that_is_not_filled() {
    let mut tape = Tape::new(None);
    assert!(matches!(tape.cycle(), Stop::Quit));
    assert_eq!(tape.idx, Value::I(0));
}

#[test]
fn cycle_passes_over_a_cell_that_holds_no_integer() {
    let mut tape = tape_of(&["hello", "x", "9223372036854775808", "3"]);
    assert!(matches!(tape.cycle(), Stop::Next));
    assert!(matches!(tape.cycle(), Stop::Next));
    assert!(matches!(tape.cycle(), Stop::Next));
    assert_eq!(tape.idx, Value::I(3));
    assert!(matches!(tape.cycle(), Stop::Quit));
    assert_eq!(tape.idx, Value::I(3));
}

#[test]
fn cycle_stops_before_rand() {
    let mut tape = tape_of(&["15", "2", "10"]);
    assert!(matches!(tape.cycle(), Stop::Rand));
    assert_eq!(tape.idx, Value::I(0));
    assert_eq!(cell(&tape, 2), Value::I(10));
}

#[test]
fn run_goes_on_until_a_stop() {
    let mut tape = tape_of(&["8", "9", "8", "9", "0", "3"]);
    assert!(matches!(tape.run(100), Stop::Quit));
    assert_eq!(cell(&tape, 9), Value::I(2));
    assert_eq!(tape.idx, Value::I(5));
}

#[test]
fn run_pauses_when_the_budget_is_used_up() {
    let mut tape = tape_of(&["6", "0"]);
    assert!(matches!(tape.run(1000), Stop::Next));
    assert_eq!(tape.idx, Value::I(0));
    let mut tape = tape_of(&["0", "0", "0", "3"]);
    assert!(matches!(tape.run(2), Stop::Next));
    assert_eq!(tape.idx, Value::I(2));
    assert!(matches!(tape.run(0), Stop::Next));
    assert_eq!(tape.idx, Value::I(2));
}

#[test]
fn jump_around_runs_the_copy_at_its_target() {
    let mut tape = tape_of(&["6", "3", "4", "1", "42", "3"]);
    assert!(matches!(tape.cycle(), Stop::Next));
    assert_eq!(tape.idx, Value::I(3));
    assert!(matches!(tape.run(100), Stop::Quit));
    assert_eq!(tape.tape.get(&Value::I(3)), Some(&Value::I(0)));
    assert_eq!(tape.idx, Value::I(6));
}
