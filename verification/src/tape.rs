//! A tape: cells, a cursor, a direction and the directory that module
//! paths start from; and the instructions that work on one tape alone.

use crate::cells::{cell_map, cells_get, cells_insert, cells_new, no_cells, Cells};
use crate::digits::{is_num, is_numeric};
use crate::value::{
    add_spec, advance_spec, decr_spec, display_text, from_char, from_text, incr_spec,
    lemma_from_int_text, of_int, sub_spec, Value, ValueAsChars, ValueView,
};
use crate::random::{rand_bound, rand_value};
use vstd::prelude::*;
use vstd::string::StringExecFns;

verus! {

/// A tape of cells with its cursor.
pub struct Tape {
    /// The cursor: the position of the current cell.
    pub idx: Value,
    /// The cells. A position that is not in the store reads as zero.
    pub tape: Cells,
    /// The direction: a step adds one to the cursor when it holds, and
    /// takes one away when it does not.
    pub dir: bool,
    /// The directory that relative module paths start from, if any.
    pub root: Option<String>,
}

/// What a `Tape` stands for in contracts.
pub struct TapeView {
    pub idx: ValueView,
    pub cells: Map<ValueView, ValueView>,
    pub dir: bool,
    pub root: Option<Seq<char>>,
}

impl View for Tape {
    type V = TapeView;

    open spec fn view(&self) -> TapeView {
        TapeView {
            idx: self.idx@,
            cells: cell_map(self.tape),
            dir: self.dir,
            root: match self.root {
                Some(r) => Some(r@),
                None => None,
            },
        }
    }
}

/// The content of the cell at `i`: zero where the cell is not filled.
pub open spec fn read_val_spec(cells: Map<ValueView, ValueView>, i: ValueView) -> ValueView {
    if cells.contains_key(i) {
        cells[i]
    } else {
        ValueView::I(0)
    }
}

/// A value taken as an operand: an integer or a numeric text stands for
/// itself, anything else for zero.
pub open spec fn as_operand(v: ValueView) -> ValueView {
    match v {
        ValueView::I(x) => v,
        ValueView::S(s) => if is_numeric(s) {
            v
        } else {
            ValueView::I(0)
        },
        ValueView::C(_) => ValueView::I(0),
    }
}

/// The operand under the cursor.
pub open spec fn read_int_spec(t: TapeView) -> ValueView {
    as_operand(read_val_spec(t.cells, t.idx))
}

/// The tape after one step of the cursor in the tape's direction.
pub open spec fn step_spec(t: TapeView) -> TapeView {
    TapeView { idx: advance_spec(t.idx, t.dir), ..t }
}

/// The tape with its cursor at `idx`.
pub open spec fn with_idx(t: TapeView, idx: ValueView) -> TapeView {
    TapeView { idx: idx, ..t }
}

/// The tape with `value` in the cell at `key`.
pub open spec fn with_cell(t: TapeView, key: ValueView, value: ValueView) -> TapeView {
    TapeView { cells: t.cells.insert(key, value), ..t }
}

/// Copy: the next two cells name a source and a destination, and the
/// destination cell gets what the source cell holds.
pub open spec fn op1_spec(t: TapeView) -> TapeView {
    let t1 = step_spec(t);
    let a = read_val_spec(t1.cells, read_int_spec(t1));
    let t2 = step_spec(t1);
    with_cell(t2, read_int_spec(t2), a)
}

/// Jump: the cursor goes to the position that the next cell names.
pub open spec fn op6_spec(t: TapeView) -> TapeView {
    let t1 = step_spec(t);
    with_idx(t1, read_int_spec(t1))
}

/// Relative jump: the cursor moves on, in the tape's direction, by as
/// much as the next cell says.
pub open spec fn op7_spec(t: TapeView) -> TapeView {
    let t1 = step_spec(t);
    let a = read_int_spec(t1);
    with_idx(
        t1,
        if t1.dir {
            add_spec(t1.idx, a)
        } else {
            sub_spec(t1.idx, a)
        },
    )
}

/// Increment: the cell that the next cell names goes up by one; a cell
/// that was not filled becomes 1.
pub open spec fn op8_spec(t: TapeView) -> TapeView {
    let t1 = step_spec(t);
    let a = read_int_spec(t1);
    with_cell(
        t1,
        a,
        if t1.cells.contains_key(a) {
            incr_spec(t1.cells[a])
        } else {
            ValueView::I(1)
        },
    )
}

/// Decrement: the cell that the next cell names goes down by one; a cell
/// that was not filled becomes -1.
pub open spec fn op9_spec(t: TapeView) -> TapeView {
    let t1 = step_spec(t);
    let a = read_int_spec(t1);
    with_cell(
        t1,
        a,
        if t1.cells.contains_key(a) {
            decr_spec(t1.cells[a])
        } else {
            ValueView::I(-1)
        },
    )
}

/// Conditional jump: the next two cells name two cells to compare. Where
/// they hold the same, the cursor goes to the position that the third
/// cell names; where they differ, to the one that the fourth names.
pub open spec fn op10_spec(t: TapeView) -> TapeView {
    let t1 = step_spec(t);
    let a = read_val_spec(t1.cells, read_int_spec(t1));
    let t2 = step_spec(t1);
    let b = read_val_spec(t2.cells, read_int_spec(t2));
    let t3 = if a != b {
        step_spec(t2)
    } else {
        t2
    };
    let t4 = step_spec(t3);
    with_idx(t4, read_int_spec(t4))
}

/// The value that explode writes for a character: the value that the
/// character is read as, or the number of its code point.
pub open spec fn cell_of_char(c: char, ord: bool) -> ValueView {
    if ord {
        ValueView::I(c as int)
    } else {
        from_char(c)
    }
}

/// The cells after the characters `chars` were written one by one, each
/// one step further from `at` in direction `dir`.
pub open spec fn write_chars(
    cells: Map<ValueView, ValueView>,
    at: ValueView,
    chars: Seq<char>,
    dir: bool,
    ord: bool,
) -> Map<ValueView, ValueView>
    decreases chars.len(),
{
    if chars.len() == 0 {
        cells
    } else {
        let next = advance_spec(at, dir);
        write_chars(
            cells.insert(next, cell_of_char(chars[0], ord)),
            next,
            chars.drop_first(),
            dir,
            ord,
        )
    }
}

/// Explode: the next two cells name a source and a destination. The
/// destination cell gets the length of the source cell's text, and the
/// cells after it, in the tape's direction, get its characters: as
/// values for explode proper, as code points where `ord` holds.
pub open spec fn explode_spec(t: TapeView, ord: bool) -> TapeView {
    let t1 = step_spec(t);
    let text = display_text(read_val_spec(t1.cells, read_int_spec(t1)));
    let t2 = step_spec(t1);
    let dest = read_int_spec(t2);
    TapeView {
        cells: write_chars(t2.cells.insert(dest, of_int(text.len() as int)), dest, text, t2.dir, ord),
        ..t2
    }
}

/// The texts of `n` cells in a row, joined: the cell at `at` first, then
/// each one step further in direction `dir`.
pub open spec fn joined(cells: Map<ValueView, ValueView>, at: ValueView, n: int, dir: bool) -> Seq<
    char,
>
    decreases n,
{
    if n <= 0 {
        Seq::empty()
    } else {
        display_text(read_val_spec(cells, at)) + joined(cells, advance_spec(at, dir), n - 1, dir)
    }
}

/// `x` is a Unicode scalar value.
pub open spec fn is_scalar(x: int) -> bool {
    0 <= x <= 0xD7FF || 0xE000 <= x <= 0x10FFFF
}

/// The character that a cell stands for by its code point: the
/// replacement character where the cell holds no scalar value.
pub open spec fn chr_of(v: ValueView) -> char {
    match v {
        ValueView::I(x) => if is_scalar(x) {
            x as char
        } else {
            '\u{fffd}'
        },
        _ => '\u{fffd}',
    }
}

/// The characters of `n` cells in a row, by code point: the cell at `at`
/// first, then each one step further in direction `dir`.
pub open spec fn joined_chr(
    cells: Map<ValueView, ValueView>,
    at: ValueView,
    n: int,
    dir: bool,
) -> Seq<char>
    decreases n,
{
    if n <= 0 {
        Seq::empty()
    } else {
        seq![chr_of(read_val_spec(cells, at))] + joined_chr(
            cells,
            advance_spec(at, dir),
            n - 1,
            dir,
        )
    }
}

/// Implode: the next three cells name a source, a count and a
/// destination. The destination cell gets what the joined texts of that
/// many cells from the source on are read as; where `chr` holds, each
/// source cell gives the character of its code point instead of its text.
/// Where the count is no integer, its cell is passed over and nothing else
/// happens.
pub open spec fn implode_spec(t: TapeView, chr: bool) -> TapeView {
    let t1 = step_spec(t);
    let src = read_int_spec(t1);
    let t2 = step_spec(t1);
    match read_int_spec(t2) {
        ValueView::I(n) => {
            let t3 = step_spec(t2);
            let text = if chr {
                joined_chr(t3.cells, src, n, t3.dir)
            } else {
                joined(t3.cells, src, n, t3.dir)
            };
            with_cell(t3, read_int_spec(t3), from_text(text))
        },
        _ => step_spec(t2),
    }
}

/// Rand, for the draw `k`: the cell that the next cell names, where it
/// holds a number, gets the canonical value of `k`. A cell that is not
/// filled or holds no number stays as it is.
pub open spec fn op15_spec(t: TapeView, k: int) -> TapeView {
    let t1 = step_spec(t);
    let a = read_int_spec(t1);
    if t1.cells.contains_key(a) && crate::value::is_number(t1.cells[a]) {
        with_cell(t1, a, of_int(k))
    } else {
        t1
    }
}

/// The largest draw that rand may make on `t`.
pub open spec fn op15_bound(t: TapeView) -> int {
    let t1 = step_spec(t);
    rand_bound(read_val_spec(t1.cells, read_int_spec(t1)))
}

/// The three operands of a call: what names the module, and the
/// positions on the calling tape where the module's output goes and
/// where its input comes from.
pub struct CallSite {
    pub ident: Value,
    pub oi: Value,
    pub ii: Value,
}

/// What a `CallSite` stands for in contracts.
pub struct CallSiteView {
    pub ident: ValueView,
    pub oi: ValueView,
    pub ii: ValueView,
}

impl View for CallSite {
    type V = CallSiteView;

    open spec fn view(&self) -> CallSiteView {
        CallSiteView { ident: self.ident@, oi: self.oi@, ii: self.ii@ }
    }
}

/// Call, as far as the calling tape alone decides it: the next cell
/// holds what names the module, and the two after it name the output and
/// the input position.
pub open spec fn op14_spec(t: TapeView) -> (TapeView, CallSiteView) {
    let t1 = step_spec(t);
    let t2 = step_spec(t1);
    let t3 = step_spec(t2);
    (
        t3,
        CallSiteView {
            ident: read_val_spec(t3.cells, t1.idx),
            oi: read_int_spec(t2),
            ii: read_int_spec(t3),
        },
    )
}

/// Why a tape handed control back.
pub enum Stop {
    /// Nothing asks for attention: the tape can run on.
    Next,
    /// The program quit, or the cursor came onto a cell that is not
    /// filled.
    Quit,
    /// Output: the value is to be emitted.
    Output(Value),
    /// Input: the cell at this position is to get the next input.
    Input(Value),
    /// Newline: a line break is to be emitted.
    Newline,
    /// Call: a module is to run against this tape.
    Call(CallSite),
    /// Rand: the cursor is on a rand instruction, which is still to run.
    Rand,
}

/// What a `Stop` stands for in contracts.
pub enum StopView {
    Next,
    Quit,
    Output(ValueView),
    Input(ValueView),
    Newline,
    Call(CallSiteView),
    Rand,
}

impl View for Stop {
    type V = StopView;

    open spec fn view(&self) -> StopView {
        match *self {
            Stop::Next => StopView::Next,
            Stop::Quit => StopView::Quit,
            Stop::Output(v) => StopView::Output(v@),
            Stop::Input(v) => StopView::Input(v@),
            Stop::Newline => StopView::Newline,
            Stop::Call(c) => StopView::Call(c@),
            Stop::Rand => StopView::Rand,
        }
    }
}

/// Reverse: the direction flips.
pub open spec fn op2_spec(t: TapeView) -> TapeView {
    TapeView { dir: !t.dir, ..t }
}

/// One instruction with the number `op`, on a tape whose cursor is on
/// it. Instructions that set the cursor themselves (6, 7 and 10) leave
/// it there; after every other one the cursor takes one step. Output,
/// input, newline and call do their part on the tape and hand the rest
/// back; quit and rand leave the tape as it is.
pub open spec fn exec_spec(t: TapeView, op: int) -> (TapeView, StopView) {
    if op == 1 {
        (step_spec(op1_spec(t)), StopView::Next)
    } else if op == 2 {
        (step_spec(op2_spec(t)), StopView::Next)
    } else if op == 3 {
        (t, StopView::Quit)
    } else if op == 4 {
        let t1 = step_spec(t);
        (step_spec(t1), StopView::Output(read_val_spec(t1.cells, read_int_spec(t1))))
    } else if op == 5 {
        let t1 = step_spec(t);
        (step_spec(t1), StopView::Input(read_int_spec(t1)))
    } else if op == 6 {
        (op6_spec(t), StopView::Next)
    } else if op == 7 {
        (op7_spec(t), StopView::Next)
    } else if op == 8 {
        (step_spec(op8_spec(t)), StopView::Next)
    } else if op == 9 {
        (step_spec(op9_spec(t)), StopView::Next)
    } else if op == 10 {
        (op10_spec(t), StopView::Next)
    } else if op == 11 {
        (step_spec(t), StopView::Newline)
    } else if op == 12 {
        (step_spec(explode_spec(t, false)), StopView::Next)
    } else if op == 13 {
        (step_spec(implode_spec(t, false)), StopView::Next)
    } else if op == 14 {
        (step_spec(op14_spec(t).0), StopView::Call(op14_spec(t).1))
    } else if op == 15 {
        (t, StopView::Rand)
    } else if op == 16 {
        (step_spec(explode_spec(t, true)), StopView::Next)
    } else if op == 17 {
        (step_spec(implode_spec(t, true)), StopView::Next)
    } else {
        (step_spec(t), StopView::Next)
    }
}

/// One cycle: the cell under the cursor is fetched and, where it holds
/// an integer, run as an instruction. A cell that is not filled ends the
/// run; one that holds no integer is passed over.
pub open spec fn cycle_spec(t: TapeView) -> (TapeView, StopView) {
    if !t.cells.contains_key(t.idx) {
        (t, StopView::Quit)
    } else {
        match t.cells[t.idx] {
            ValueView::I(op) => exec_spec(t, op),
            _ => (step_spec(t), StopView::Next),
        }
    }
}

/// Up to `fuel` cycles, ending early at the first that hands control
/// back. `Next` at the end says that the budget ran out first.
pub open spec fn run_spec(t: TapeView, fuel: nat) -> (TapeView, StopView)
    decreases fuel,
{
    if fuel == 0 {
        (t, StopView::Next)
    } else {
        let (t1, stop) = cycle_spec(t);
        if stop is Next {
            run_spec(t1, (fuel - 1) as nat)
        } else {
            (t1, stop)
        }
    }
}

/// `char::from_u32`: the character with code point `x`, where `x` is a
/// Unicode scalar value, and nothing otherwise.
#[verifier::external_body]
fn char_from_u32(x: u32) -> (r: Option<char>)
    ensures
        is_scalar(x as int) ==> r == Some(x as char),
        !is_scalar(x as int) ==> r is None,
{
    char::from_u32(x)
}

/// The code point of a character.
fn code_point(c: char) -> (r: i64)
    ensures
        r == c as int,
{
    let code: u32 = c as u32;
    code as i64
}

/// The canonical value of a length.
pub(crate) fn value_of_len(n: usize) -> (r: Value)
    ensures
        r@ == of_int(n as int),
{
    let n: u64 = n as u64;
    if n <= 0x7fff_ffff_ffff_ffff {
        Value::I(n as i64)
    } else {
        let over: u64 = n - 0x7fff_ffff_ffff_ffff;
        let mut r = Value::I(i64::MAX).incr_by(&Value::I((over - 1) as i64));
        proof {
            lemma_from_int_text(i64::MAX + over - 1);
        }
        r.incr();
        r
    }
}

impl Tape {
    /// An empty tape with its cursor at zero, going forward.
    pub fn new(root: Option<String>) -> (t: Tape)
        ensures
            t@.idx == ValueView::I(0),
            t@.cells == no_cells(),
            t@.dir,
            t.root == root,
    {
        Tape { idx: Value::I(0), dir: true, tape: cells_new(), root: root }
    }

    /// Moves the cursor one step in the tape's direction.
    pub fn step(&mut self)
        ensures
            final(self)@ == step_spec(old(self)@),
    {
        self.idx.advance(self.dir)
    }

    /// The content of the cell at `i`; zero where it is not filled.
    pub fn read_val(&self, i: &Value) -> (v: Value)
        ensures
            v@ == read_val_spec(self@.cells, i@),
    {
        if let Some(x) = cells_get(&self.tape, i) {
            x.clone()
        } else {
            Value::I(0)
        }
    }

    /// The operand under the cursor: the integer or numeric text in the
    /// current cell, and zero for anything else.
    pub fn read_int(&self) -> (v: Value)
        ensures
            v@ == read_int_spec(self@),
    {
        match cells_get(&self.tape, &self.idx) {
            Some(Value::I(x)) => Value::I(*x),
            Some(Value::S(s)) => {
                if is_num(s.as_str()) {
                    Value::S(s.clone())
                } else {
                    Value::I(0)
                }
            },
            _ => Value::I(0),
        }
    }

    /// Copy.
    pub fn op1(&mut self)
        ensures
            final(self)@ == op1_spec(old(self)@),
    {
        self.step();
        let a = self.read_int();
        let a = self.read_val(&a);
        self.step();
        let b = self.read_int();
        cells_insert(&mut self.tape, b, a);
    }

    /// Relative jump.
    pub fn op7(&mut self)
        ensures
            final(self)@ == op7_spec(old(self)@),
    {
        self.step();
        let a = self.read_int();
        self.idx = if self.dir {
            self.idx.incr_by(&a)
        } else {
            self.idx.decr_by(&a)
        };
    }

    /// Increment.
    pub fn op8(&mut self)
        ensures
            final(self)@ == op8_spec(old(self)@),
    {
        self.step();
        let a = self.read_int();
        let next = match cells_get(&self.tape, &a) {
            Some(v) => {
                let mut v = v.clone();
                v.incr();
                v
            },
            None => Value::I(1),
        };
        cells_insert(&mut self.tape, a, next);
    }

    /// Decrement.
    pub fn op9(&mut self)
        ensures
            final(self)@ == op9_spec(old(self)@),
    {
        self.step();
        let a = self.read_int();
        let next = match cells_get(&self.tape, &a) {
            Some(v) => {
                let mut v = v.clone();
                v.decr();
                v
            },
            None => Value::I(-1),
        };
        cells_insert(&mut self.tape, a, next);
    }

    /// Conditional jump.
    pub fn op10(&mut self)
        ensures
            final(self)@ == op10_spec(old(self)@),
    {
        self.step();
        let a = self.read_int();
        let a = self.read_val(&a);
        self.step();
        let b = self.read_int();
        let b = self.read_val(&b);
        if a != b {
            self.step();
        }
        self.step();
        self.idx = self.read_int();
    }

    /// Explode, for `ord == false`, and ord, for `ord == true`.
    fn explode(&mut self, ord: bool)
        ensures
            final(self)@ == explode_spec(old(self)@, ord),
    {
        self.step();
        let a = self.read_int();
        let a = self.read_val(&a);
        let (mut aiter, alen) = ValueAsChars::new(&a);
        self.step();
        let mut b = self.read_int();
        cells_insert(&mut self.tape, b.clone(), value_of_len(alen));
        let ghost t2 = step_spec(step_spec(old(self)@));
        let ghost goal = explode_spec(old(self)@, ord).cells;
        loop
            invariant
                t2 == step_spec(step_spec(old(self)@)),
                goal == explode_spec(old(self)@, ord).cells,
                self@.idx == t2.idx,
                self@.dir == t2.dir,
                self@.root == t2.root,
                write_chars(self@.cells, b@, aiter.remaining(), self@.dir, ord) == goal,
            ensures
                self@ == explode_spec(old(self)@, ord),
            decreases aiter.remaining().len(),
        {
            let ghost rem = aiter.remaining();
            let ghost before = self@.cells;
            let ghost at = b@;
            match aiter.next() {
                Some(ch) => {
                    b.advance(self.dir);
                    let v = if ord {
                        Value::I(code_point(ch))
                    } else {
                        Value::from(ch)
                    };
                    assert(v@ == cell_of_char(rem[0], ord));
                    cells_insert(&mut self.tape, b.clone(), v);
                    assert(write_chars(before, at, rem, self@.dir, ord) == write_chars(
                        self@.cells,
                        b@,
                        rem.drop_first(),
                        self@.dir,
                        ord,
                    ));
                },
                None => {
                    assert(write_chars(before, at, rem, self@.dir, ord) == before);
                    break ;
                },
            }
        }
    }

    /// Explode.
    pub fn op12(&mut self)
        ensures
            final(self)@ == explode_spec(old(self)@, false),
    {
        self.explode(false)
    }

    /// Ord: explode that writes code points.
    pub fn op16(&mut self)
        ensures
            final(self)@ == explode_spec(old(self)@, true),
    {
        self.explode(true)
    }

    /// Implode.
    pub fn op13(&mut self)
        ensures
            final(self)@ == implode_spec(old(self)@, false),
    {
        self.step();
        let mut a = self.read_int();
        self.step();
        match self.read_int() {
            Value::I(b) => {
                self.step();
                let c = self.read_int();
                let mut s = String::new();
                let ghost a0 = a@;
                let ghost cells = self@.cells;
                let ghost dir = self.dir;
                let mut k: i64 = 0;
                while k < b
                    invariant
                        self@.cells == cells,
                        self.dir == dir,
                        k <= b || k == 0,
                        s@ + joined(cells, a@, b - k, dir) == joined(cells, a0, b as int, dir),
                    decreases b - k,
                {
                    let piece = self.read_val(&a).to_string();
                    let ghost before = s@;
                    let ghost rest = joined(cells, advance_spec(a@, dir), b - k - 1, dir);
                    s.append(piece.as_str());
                    assert(s@ + rest =~= before + (piece@ + rest));
                    a.advance(self.dir);
                    k += 1;
                }
                assert(s@ + Seq::<char>::empty() =~= s@);
                cells_insert(&mut self.tape, c, Value::from(s));
            },
            _ => self.step(),
        }
    }

    /// Chr: implode that reads code points.
    pub fn op17(&mut self)
        ensures
            final(self)@ == implode_spec(old(self)@, true),
    {
        self.step();
        let mut a = self.read_int();
        self.step();
        match self.read_int() {
            Value::I(b) => {
                self.step();
                let c = self.read_int();
                let mut s: Vec<char> = Vec::new();
                let ghost a0 = a@;
                let ghost cells = self@.cells;
                let ghost dir = self.dir;
                let mut k: i64 = 0;
                while k < b
                    invariant
                        self@.cells == cells,
                        self.dir == dir,
                        k <= b || k == 0,
                        s@ + joined_chr(cells, a@, b - k, dir) == joined_chr(
                            cells,
                            a0,
                            b as int,
                            dir,
                        ),
                    decreases b - k,
                {
                    let ch = match self.read_val(&a) {
                        Value::I(x) => {
                            if x >= 0 && x <= 0x10ffff {
                                match char_from_u32(x as u32) {
                                    Some(ch) => ch,
                                    None => '\u{fffd}',
                                }
                            } else {
                                '\u{fffd}'
                            }
                        },
                        _ => '\u{fffd}',
                    };
                    let ghost before = s@;
                    let ghost rest = joined_chr(cells, advance_spec(a@, dir), b - k - 1, dir);
                    s.push(ch);
                    assert(s@ + rest =~= before + (seq![ch] + rest));
                    a.advance(self.dir);
                    k += 1;
                }
                assert(s@ + Seq::<char>::empty() =~= s@);
                cells_insert(&mut self.tape, c, Value::from(crate::value::string_of(s.as_slice())));
            },
            _ => self.step(),
        }
    }

    /// Rand: replaces the number in the cell that the next cell names by
    /// a random one between zero and itself.
    pub fn op15(&mut self)
        ensures
            exists|k: int|
                0 <= k <= op15_bound(old(self)@) && final(self)@ == #[trigger] op15_spec(
                    old(self)@,
                    k,
                ),
    {
        self.step();
        let a = self.read_int();
        let drawn = match cells_get(&self.tape, &a) {
            Some(v) => rand_value(v),
            None => None,
        };
        match drawn {
            Some(w) => {
                let ghost k = choose|k: int|
                    0 <= k <= op15_bound(old(self)@) && w@ == #[trigger] of_int(k);
                cells_insert(&mut self.tape, a, w);
                assert(self@ == op15_spec(old(self)@, k));
            },
            None => {
                assert(self@ == op15_spec(old(self)@, 0));
            },
        }
    }

    /// Call, as far as this tape alone decides it: reads the three
    /// operands.
    pub fn op14(&mut self) -> (site: CallSite)
        ensures
            (final(self)@, site@) == op14_spec(old(self)@),
    {
        self.step();
        let pathidx = self.idx.clone();
        self.step();
        let oi = self.read_int();
        self.step();
        let ii = self.read_int();
        let ident = self.read_val(&pathidx);
        CallSite { ident, oi, ii }
    }

    /// Runs the instruction with the number `op`, the cursor being on it.
    pub fn exec(&mut self, op: i64) -> (stop: Stop)
        ensures
            (final(self)@, stop@) == exec_spec(old(self)@, op as int),
    {
        match op {
            1 => self.op1(),
            2 => {
                self.dir = !self.dir;
            },
            3 => {
                return Stop::Quit;
            },
            4 => {
                self.step();
                let a = self.read_int();
                let v = self.read_val(&a);
                self.step();
                return Stop::Output(v);
            },
            5 => {
                self.step();
                let a = self.read_int();
                self.step();
                return Stop::Input(a);
            },
            6 => {
                self.step();
                self.idx = self.read_int();
                return Stop::Next;
            },
            7 => {
                self.op7();
                return Stop::Next;
            },
            8 => self.op8(),
            9 => self.op9(),
            10 => {
                self.op10();
                return Stop::Next;
            },
            11 => {
                self.step();
                return Stop::Newline;
            },
            12 => self.op12(),
            13 => self.op13(),
            14 => {
                let site = self.op14();
                self.step();
                return Stop::Call(site);
            },
            15 => {
                return Stop::Rand;
            },
            16 => self.op16(),
            17 => self.op17(),
            _ => {},
        }
        self.step();
        Stop::Next
    }

    /// One cycle: fetches the cell under the cursor and runs it.
    pub fn cycle(&mut self) -> (stop: Stop)
        ensures
            (final(self)@, stop@) == cycle_spec(old(self)@),
    {
        let op = match cells_get(&self.tape, &self.idx) {
            Some(Value::I(cell)) => Some(*cell),
            Some(_) => None,
            None => {
                return Stop::Quit;
            },
        };
        match op {
            Some(cell) => self.exec(cell),
            None => {
                self.step();
                Stop::Next
            },
        }
    }

    /// Runs the tape for up to `fuel` cycles, or until an instruction
    /// hands control back: to quit, for output or input, for a call, or
    /// for a random draw.
    pub fn run(&mut self, fuel: u64) -> (stop: Stop)
        ensures
            (final(self)@, stop@) == run_spec(old(self)@, fuel as nat),
    {
        let mut left = fuel;
        while left > 0
            invariant
                run_spec(self@, left as nat) == run_spec(old(self)@, fuel as nat),
            decreases left,
        {
            let stop = self.cycle();
            match stop {
                Stop::Next => {},
                _ => {
                    return stop;
                },
            }
            left -= 1;
        }
        Stop::Next
    }

}

/// Reverse undoes itself: two flips give back the direction, and so do
/// two reverse instructions in a row.
pub proof fn lemma_reverse_involution(t: TapeView)
    ensures
        op2_spec(op2_spec(t)) == t,
        exec_spec(exec_spec(t, 2).0, 2).0.dir == t.dir,
{
}

/// The direction changes with reverse only: every other instruction
/// leaves it as it was.
pub proof fn lemma_direction_kept(t: TapeView, op: int)
    requires
        op != 2,
    ensures
        exec_spec(t, op).0.dir == t.dir,
        exec_spec(t, 2).0.dir == !t.dir,
{
}

/// Jump lands on its target whatever the direction: the cursor ends on
/// the operand that stands one step after the instruction, with no step
/// added, and nothing else on the tape changes.
pub proof fn lemma_jump_lands(t: TapeView)
    ensures
        exec_spec(t, 6).0 == with_idx(
            t,
            as_operand(read_val_spec(t.cells, advance_spec(t.idx, t.dir))),
        ),
        exec_spec(t, 6).1 is Next,
{
}

/// The position of the cell that names the target of a conditional
/// jump: three steps after the instruction where the two compared cells
/// hold the same, four steps after it where they differ.
pub open spec fn op10_target_at(t: TapeView) -> ValueView {
    let first = advance_spec(t.idx, t.dir);
    let second = advance_spec(first, t.dir);
    let third = advance_spec(second, t.dir);
    let a = read_val_spec(t.cells, as_operand(read_val_spec(t.cells, first)));
    let b = read_val_spec(t.cells, as_operand(read_val_spec(t.cells, second)));
    if a != b {
        advance_spec(third, t.dir)
    } else {
        third
    }
}

/// Conditional jump lands on its target whatever the direction: the
/// cursor ends on the operand in the cell that names the target, with no
/// step added, and nothing else on the tape changes.
pub proof fn lemma_cond_jump_lands(t: TapeView)
    ensures
        exec_spec(t, 10).0 == with_idx(
            t,
            as_operand(read_val_spec(t.cells, op10_target_at(t))),
        ),
        exec_spec(t, 10).1 is Next,
{
}

/// The tape `t` with the directory `root`.
pub open spec fn with_root(t: TapeView, root: Option<Seq<char>>) -> TapeView {
    TapeView { root: root, ..t }
}

/// A cycle does not look at the tape's directory: on a tape that differs
/// in its directory only, it does the same and stops for the same.
pub proof fn lemma_cycle_ignores_root(t: TapeView, root: Option<Seq<char>>)
    ensures
        cycle_spec(with_root(t, root)) == (with_root(cycle_spec(t).0, root), cycle_spec(t).1),
{
    let u = with_root(t, root);
    if t.cells.contains_key(t.idx) {
        match t.cells[t.idx] {
            ValueView::I(op) => {
                assert(exec_spec(u, op) == (with_root(exec_spec(t, op).0, root), exec_spec(t, op).1));
            },
            _ => {},
        }
    }
}

} // verus!
