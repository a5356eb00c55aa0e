use oilrs::call::TapeChild;
use oilrs::machine::{Machine, Pending, Request};
use oilrs::modules::{gen_libs, parse_lib};
use oilrs::tape::{Stop, Tape};
use oilrs::value::Value;
use std::collections::HashMap;
use std::rc::Rc;

fn text(s: &str) -> Value {
    Value::S(Rc::new(String::from(s)))
}

fn tape_of(cells: &[&str], root: Option<&str>) -> Tape {
    let mut tape = Tape::new(root.map(String::from));
    for (i, cell) in cells.iter().enumerate() {
        tape.tape.insert(Value::I(i as i64), Value::from(*cell));
    }
    tape
}

fn library(modules: &[(&str, &str)]) -> oilrs::modules::StdLib {
    let sources: Vec<(String, String)> =
        modules.iter().map(|(n, t)| (String::from(*n), String::from(*t))).collect();
    gen_libs(&sources)
}

struct Host {
    output: String,
    input: Vec<String>,
    files: HashMap<String, String>,
    reads: Vec<String>,
}

impl Host {
    fn new() -> Host {
        Host { output: String::new(), input: Vec::new(), files: HashMap::new(), reads: Vec::new() }
    }

    fn drive(&mut self, m: &mut Machine) {
        for _ in 0..10_000 {
            match m.resume(1000) {
                Request::Paused => {},
                Request::Done => return,
                Request::Write(s) => self.output.push_str(&s),
                Request::Newline => self.output.push('\n'),
                Request::ReadLine => {
                    let line = if self.input.is_empty() {
                        String::new()
                    } else {
                        self.input.remove(0)
                    };
                    m.feed_line(line);
                },
                Request::Draw => panic!("resume handed back a draw"),
                Request::Locate { root, name } => {
                    let path = if root.is_empty() { name } else { format!("{}/{}", root, name) };
                    let is_file = self.files.contains_key(&path);
                    let dir = path.rfind('/').map(|i| String::from(&path[..i]));
                    m.located(path, is_file, dir);
                },
                Request::ReadFile { path } => {
                    self.reads.push(path.clone());
                    m.loaded(self.files.get(&path).cloned());
                },
            }
        }
        panic!("the program did not end");
    }
}

fn run(cells: &[&str]) -> (String, Machine) {
    let mut m = Machine::new(tape_of(cells, None), library(&[]));
    let mut host = Host::new();
    host.drive(&mut m);
    (host.output, m)
}

#[test]
fn a_new_machine_owes_nothing() {
    let m = Machine::new(Tape::new(None), library(&[]));
    assert!(matches!(m.pending, Pending::Nothing));
    assert!(m.frames.is_empty());
    assert!(m.modcache.is_empty());
}

#[test]
fn an_empty_program_is_done_at_once() {
    let mut m = Machine::new(Tape::new(None), library(&[]));
    assert!(matches!(m.run(10), Request::Done));
    assert!(matches!(m.turn(), Request::Done));
}

#[test]
fn prints_the_cell_that_its_operand_names() {
    let (out, _) = run(&["4", "2", "hello"]);
    assert_eq!(out, "hello");
}

#[test]
fn prints_zero_for_an_operand_that_names_an_empty_cell() {
    let (out, _) = run(&["4", "3", "hello"]);
    assert_eq!(out, "0");
}

#[test]
fn increment_and_print() {
    let (out, m) = run(&["8", "5", "4", "5", "3"]);
    assert_eq!(out, "1");
    assert_eq!(m.top.read_val(&Value::I(5)), Value::I(1));
}

#[test]
fn unconditional_jump_around() {
    let (out, m) = run(&["6", "3", "4", "1", "42", "3"]);
    assert_eq!(out, "");
    assert_eq!(m.top.idx, Value::I(6));
}

#[test]
fn reverse_at_the_start_runs_off_the_tape() {
    let (out, m) = run(&["2", "4", "6", "3", "backwards"]);
    assert_eq!(out, "");
    assert_eq!(m.top.idx, Value::I(-1));
    assert!(!m.top.dir);
}

#[test]
fn explode_a_string() {
    let (out, m) = run(&["12", "3", "10", "abc", "3", "", "", "", ""]);
    assert_eq!(out, "");
    assert_eq!(m.top.read_val(&Value::I(10)), Value::I(3));
    assert_eq!(m.top.read_val(&Value::I(11)), Value::C('a'));
    assert_eq!(m.top.read_val(&Value::I(12)), Value::C('b'));
    assert_eq!(m.top.read_val(&Value::I(13)), Value::C('c'));
}

#[test]
fn explode_takes_the_cell_that_its_operand_names() {
    let (_, m) = run(&["12", "4", "10", "abc", "3", "", "", "", ""]);
    assert_eq!(m.top.read_val(&Value::I(10)), Value::I(1));
    assert_eq!(m.top.read_val(&Value::I(11)), Value::I(3));
    assert_eq!(m.top.tape.get(&Value::I(12)), None);
}

#[test]
fn implode_three_cells() {
    let mut tape = tape_of(&["13", "20", "3", "30", "4", "30", "3"], None);
    tape.tape.insert(Value::I(20), Value::C('a'));
    tape.tape.insert(Value::I(21), Value::C('b'));
    tape.tape.insert(Value::I(22), Value::C('c'));
    let mut m = Machine::new(tape, library(&[]));
    let mut host = Host::new();
    host.drive(&mut m);
    assert_eq!(host.output, "abc");
    assert_eq!(m.top.read_val(&Value::I(30)), Value::from("abc"));
}

#[test]
fn newline_writes_a_line_break() {
    let (out, _) = run(&["4", "5", "11", "4", "5", "x", "3"]);
    assert_eq!(out, "x\nx");
}

#[test]
fn input_reads_a_line_into_a_cell() {
    let mut m = Machine::new(tape_of(&["5", "9", "4", "9", "5", "8", "4", "8", "3"], None), library(&[]));
    let mut host = Host::new();
    host.input = vec![String::from("41"), String::from("some text")];
    host.drive(&mut m);
    assert_eq!(host.output, "41some text");
    assert_eq!(m.top.read_val(&Value::I(9)), Value::I(41));
    assert_eq!(m.top.read_val(&Value::I(8)), text("some text"));
}

#[test]
fn the_machine_asks_again_while_the_host_owes_a_line() {
    let mut m = Machine::new(tape_of(&["5", "9", "3"], None), library(&[]));
    assert!(matches!(m.run(10), Request::ReadLine));
    assert!(matches!(m.pending, Pending::Line(_)));
    assert!(matches!(m.run(10), Request::ReadLine));
    assert!(matches!(m.turn(), Request::ReadLine));
    m.feed_line(String::from("x"));
    assert!(matches!(m.pending, Pending::Nothing));
    assert!(matches!(m.run(10), Request::Done));
    assert_eq!(m.top.read_val(&Value::I(9)), Value::C('x'));
}

#[test]
fn answers_that_were_not_asked_for_change_nothing() {
    let mut m = Machine::new(tape_of(&["3"], None), library(&[]));
    m.feed_line(String::from("x"));
    m.loaded(Some(String::from("4\n")));
    assert!(matches!(m.located(String::from("p"), true, None), Request::Paused));
    m.draw();
    assert!(m.top.tape.len() == 1);
    assert!(m.frames.is_empty());
    assert!(matches!(m.pending, Pending::Nothing));
    assert!(matches!(m.run(10), Request::Done));
}

#[test]
fn machine_pauses_when_the_budget_is_used_up() {
    let mut m = Machine::new(tape_of(&["6", "0"], None), library(&[]));
    assert!(matches!(m.run(50), Request::Paused));
    assert!(matches!(m.resume(50), Request::Paused));
}

#[test]
fn run_hands_back_a_draw_and_resume_makes_it() {
    let mut m = Machine::new(tape_of(&["15", "3", "3", "5"], None), library(&[]));
    assert!(matches!(m.run(10), Request::Draw));
    assert_eq!(m.top.idx, Value::I(0));
    m.draw();
    match m.top.read_val(&Value::I(3)) {
        Value::I(x) => assert!((0..=5).contains(&x)),
        other => panic!("unexpected {:?}", other),
    }
    assert_eq!(m.top.idx, Value::I(2));
    assert!(matches!(m.run(10), Request::Done));
    let mut m = Machine::new(tape_of(&["15", "3", "3", "5"], None), library(&[]));
    assert!(matches!(m.resume(10), Request::Done));
    match m.top.read_val(&Value::I(3)) {
        Value::I(x) => assert!((0..=5).contains(&x)),
        other => panic!("unexpected {:?}", other),
    }
}

const ECHO: &str = "5\n9\n4\n9\n3\n";

#[test]
fn a_library_module_reads_from_and_writes_to_the_calling_tape() {
    let program = ["14", "echo", "20", "30", "4", "20", "3"];
    let mut tape = tape_of(&program, None);
    tape.tape.insert(Value::I(30), text("ping"));
    let mut m = Machine::new(tape, library(&[("echo", ECHO)]));
    let mut host = Host::new();
    host.drive(&mut m);
    assert_eq!(host.output, "ping");
    assert_eq!(m.top.read_val(&Value::I(20)), text("ping"));
    assert!(m.frames.is_empty());
    assert!(m.modcache.is_empty());
    assert!(host.reads.is_empty());
}

#[test]
fn a_call_of_a_module_that_is_nowhere_is_skipped() {
    let (out, m) = run(&["14", "nothing", "20", "30", "4", "7", "3", "after"]);
    assert_eq!(out, "after");
    assert!(m.frames.is_empty());
}

#[test]
fn a_call_by_a_single_character_does_not_go_to_the_library() {
    let mut tape = tape_of(&["14", "m", "20", "30", "3"], None);
    tape.tape.insert(Value::I(30), text("ping"));
    let mut m = Machine::new(tape, library(&[("m", ECHO)]));
    Host::new().drive(&mut m);
    assert_eq!(m.top.tape.get(&Value::I(20)), None);
}

#[test]
fn a_call_by_number_without_a_directory_is_skipped() {
    let mut m = Machine::new(tape_of(&["14", "7", "20", "30", "3"], None), library(&[("7", ECHO)]));
    let mut host = Host::new();
    host.drive(&mut m);
    assert_eq!(m.top.tape.get(&Value::I(20)), None);
}

#[test]
fn output_and_input_cursors_go_by_the_direction_of_the_calling_tape() {
    let module = "5\n20\n5\n21\n4\n21\n4\n20\n3\n";
    let program = ["14", "swap", "40", "30", "3"];
    let mut tape = tape_of(&program, None);
    tape.tape.insert(Value::I(30), text("first"));
    tape.tape.insert(Value::I(31), text("second"));
    let mut m = Machine::new(tape, library(&[("swap", module)]));
    Host::new().drive(&mut m);
    assert_eq!(m.top.read_val(&Value::I(40)), text("second"));
    assert_eq!(m.top.read_val(&Value::I(41)), text("first"));

    let mut tape = Tape::new(None);
    let cells = [(5, "14"), (4, "swap"), (3, "40"), (2, "30"), (1, "3")];
    for (i, c) in cells.iter() {
        tape.tape.insert(Value::I(*i), Value::from(*c));
    }
    tape.tape.insert(Value::I(30), text("first"));
    tape.tape.insert(Value::I(29), text("second"));
    tape.idx = Value::I(5);
    tape.dir = false;
    let mut m = Machine::new(tape, library(&[("swap", module)]));
    Host::new().drive(&mut m);
    assert_eq!(m.top.read_val(&Value::I(40)), text("second"));
    assert_eq!(m.top.read_val(&Value::I(39)), text("first"));
}

#[test]
fn a_module_reads_zero_from_an_empty_cell_and_ignores_newline() {
    let module = "11\n5\n9\n4\n9\n3\n";
    let mut m = Machine::new(
        tape_of(&["14", "mod", "20", "30", "3"], None),
        library(&[("mod", module)]),
    );
    let mut host = Host::new();
    host.drive(&mut m);
    assert_eq!(host.output, "");
    assert_eq!(m.top.tape.get(&Value::I(20)), Some(&Value::I(0)));
}

#[test]
fn a_module_may_call_a_module() {
    let outer = "14\necho\n50\n60\n4\n50\n3\n\n";
    let mut outer_cells = String::from(outer);
    for _ in 8..60 {
        outer_cells.push('\n');
    }
    outer_cells.push_str("deep\n");
    let program = ["14", "outer", "20", "30", "4", "20", "3"];
    let mut m = Machine::new(
        tape_of(&program, None),
        library(&[("echo", ECHO), ("outer", &outer_cells)]),
    );
    let mut host = Host::new();
    host.drive(&mut m);
    assert_eq!(host.output, "deep");
}

#[test]
fn a_file_is_preferred_to_the_library_and_cached_when_the_module_ends() {
    let program = ["14", "echo", "20", "30", "14", "echo", "21", "30", "3"];
    let mut tape = tape_of(&program, Some("dir"));
    tape.tape.insert(Value::I(30), text("ping"));
    let mut m = Machine::new(tape, library(&[("echo", ECHO)]));
    let mut host = Host::new();
    host.files.insert(String::from("dir/echo"), String::from("4\n3\n3\nfrom file\n"));
    host.drive(&mut m);
    assert_eq!(m.top.read_val(&Value::I(20)), text("from file"));
    assert_eq!(m.top.read_val(&Value::I(21)), text("from file"));
    assert_eq!(host.reads, vec!["dir/echo"]);
    assert_eq!(m.modcache.len(), 1);
    assert_eq!(m.modcache.get("dir/echo").map(|c| c.len()), Some(4));
}

#[test]
fn a_name_that_is_no_file_falls_back_to_the_library() {
    let program = ["14", "echo", "20", "30", "3"];
    let mut tape = tape_of(&program, Some("dir"));
    tape.tape.insert(Value::I(30), text("ping"));
    let mut m = Machine::new(tape, library(&[("echo", ECHO)]));
    let mut host = Host::new();
    host.drive(&mut m);
    assert_eq!(m.top.read_val(&Value::I(20)), text("ping"));
    assert!(host.reads.is_empty());
    assert!(m.modcache.is_empty());
}

#[test]
fn a_module_named_by_a_number_is_read_from_its_file() {
    let program = ["14", "7", "20", "30", "3"];
    let mut m = Machine::new(tape_of(&program, Some("dir")), library(&[]));
    let mut host = Host::new();
    host.files.insert(String::from("dir/7"), String::from("4\n3\n3\nseven\n"));
    host.drive(&mut m);
    assert_eq!(m.top.read_val(&Value::I(20)), text("seven"));
}

#[test]
fn a_file_that_cannot_be_read_drops_the_call() {
    let program = ["14", "7", "20", "30", "4", "9", "3", "", "", "after"];
    let mut m = Machine::new(tape_of(&program, Some("dir")), library(&[]));
    let mut host = Host::new();
    host.drive(&mut m);
    assert_eq!(host.output, "after");
    assert_eq!(host.reads, vec!["dir/7"]);
    assert!(m.modcache.is_empty());
    assert!(m.frames.is_empty());
}

#[test]
fn a_module_from_a_file_resolves_its_own_calls_from_its_directory() {
    let program = ["14", "sub/outer", "20", "30", "3"];
    let mut m = Machine::new(tape_of(&program, Some("dir")), library(&[]));
    let mut host = Host::new();
    host.files.insert(String::from("dir/sub/outer"), String::from("14\ninner\n0\n0\n4\n0\n3\n"));
    host.files.insert(String::from("dir/sub/inner"), String::from("4\n3\n3\ninnermost\n"));
    host.drive(&mut m);
    assert_eq!(host.reads, vec!["dir/sub/outer", "dir/sub/inner"]);
    assert_eq!(m.top.read_val(&Value::I(20)), text("innermost"));
    assert_eq!(m.modcache.len(), 2);
}

#[test]
fn locate_names_the_directory_and_the_module() {
    let mut m = Machine::new(tape_of(&["14", "name", "1", "2", "3"], Some("some/dir")), library(&[]));
    match m.run(10) {
        Request::Locate { root, name } => {
            assert_eq!(root, "some/dir");
            assert_eq!(name, "name");
        },
        _ => panic!("no locate"),
    }
    assert!(matches!(m.pending, Pending::Place(_)));
    match m.located(String::from("some/dir/name"), true, Some(String::from("some/dir"))) {
        Request::ReadFile { path } => assert_eq!(path, "some/dir/name"),
        _ => panic!("no read"),
    }
    assert!(matches!(m.pending, Pending::File { .. }));
    m.loaded(Some(String::from("3\n")));
    assert_eq!(m.frames.len(), 1);
    assert_eq!(m.frames[0].child.tape.root, Some(String::from("some/dir")));
    assert_eq!(m.frames[0].child.oidx, Value::I(1));
    assert_eq!(m.frames[0].child.iidx, Value::I(2));
    assert!(matches!(m.run(10), Request::Done));
    assert!(m.frames.is_empty());
    assert_eq!(m.modcache.len(), 1);
}

#[test]
fn calling_the_same_module_twice_has_the_same_effect() {
    let module = "5\n50\n8\n50\n4\n50\n12\n50\n20\n4\n21\n3\n";
    let run_once = || {
        let mut tape = tape_of(&["14", "mod", "40", "30", "3"], None);
        tape.tape.insert(Value::I(30), Value::I(41));
        let mut m = Machine::new(tape, library(&[("mod", module)]));
        Host::new().drive(&mut m);
        m.top
    };
    let first = run_once();
    let second = run_once();
    assert_eq!(first.tape, second.tape);
    assert_eq!(first.idx, second.idx);
    assert_eq!(first.read_val(&Value::I(40)), Value::I(42));
    assert_eq!(first.read_val(&Value::I(41)), Value::I(4));
}

#[test]
fn a_child_runs_against_its_parent() {
    let mut parent = tape_of(&["0"], None);
    parent.tape.insert(Value::I(30), text("in"));
    let mut child = TapeChild {
        tape: Tape { idx: Value::I(0), tape: parse_lib(ECHO), dir: true, root: None },
        iidx: Value::I(30),
        oidx: Value::I(20),
    };
    assert!(matches!(child.run(&mut parent, 100), Stop::Quit));
    assert_eq!(parent.read_val(&Value::I(20)), text("in"));
    assert_eq!(child.iidx, Value::I(31));
    assert_eq!(child.oidx, Value::I(21));
    assert_eq!(child.read_val(&Value::I(9)), text("in"));
    child.tape.idx = Value::I(1);
    assert_eq!(child.read_int(), Value::I(9));
    child.step();
    assert_eq!(child.tape.idx, Value::I(2));
}

#[test]
fn a_child_stops_for_a_call_and_for_a_draw() {
    let mut parent = Tape::new(None);
    let mut child = TapeChild {
        tape: Tape { idx: Value::I(0), tape: parse_lib("14\na\n1\n2\n15\n"), dir: true, root: None },
        iidx: Value::I(0),
        oidx: Value::I(0),
    };
    match child.run(&mut parent, 100) {
        Stop::Call(site) => assert_eq!(site.ident, Value::C('a')),
        _ => panic!("no call"),
    }
    assert!(matches!(child.run(&mut parent, 100), Stop::Rand));
    assert!(matches!(child.cycle(&mut parent), Stop::Rand));
}
