//! The link between a module that runs and the tape that called it: the
//! module writes its output to the calling tape and reads its input from
//! it, each at a cursor of its own.

use crate::cells::cells_insert;
use crate::tape::{
    cycle_spec, lemma_cycle_ignores_root, read_int_spec, read_val_spec, step_spec, with_cell,
    with_root, Stop, StopView, Tape, TapeView,
};
use crate::value::{advance_spec, Value, ValueView};
use vstd::prelude::*;

verus! {

/// The tape of a module that was called, with its two cursors into the
/// calling tape.
pub struct TapeChild {
    /// The module's own tape.
    pub tape: Tape,
    /// Where on the calling tape the next input is read.
    pub iidx: Value,
    /// Where on the calling tape the next output is written.
    pub oidx: Value,
}

/// What a `TapeChild` stands for in contracts.
pub struct TapeChildView {
    pub tape: TapeView,
    pub iidx: ValueView,
    pub oidx: ValueView,
}

impl View for TapeChild {
    type V = TapeChildView;

    open spec fn view(&self) -> TapeChildView {
        TapeChildView { tape: self.tape@, iidx: self.iidx@, oidx: self.oidx@ }
    }
}

/// One cycle of a called module `c` against the calling tape `p`.
/// Output goes into the cell of `p` under the output cursor, and input
/// comes from the cell of `p` under the input cursor; the cursor that was
/// used then takes one step in the direction of `p`. Newline does
/// nothing. Every other instruction is that of a tape on its own.
pub open spec fn child_cycle_spec(c: TapeChildView, p: TapeView) -> (
    TapeChildView,
    TapeView,
    StopView,
) {
    let (t1, stop) = cycle_spec(c.tape);
    match stop {
        StopView::Output(v) => (
            TapeChildView { tape: t1, oidx: advance_spec(c.oidx, p.dir), ..c },
            with_cell(p, c.oidx, v),
            StopView::Next,
        ),
        StopView::Input(a) => (
            TapeChildView {
                tape: with_cell(t1, a, read_val_spec(p.cells, c.iidx)),
                iidx: advance_spec(c.iidx, p.dir),
                ..c
            },
            p,
            StopView::Next,
        ),
        StopView::Newline => (TapeChildView { tape: t1, ..c }, p, StopView::Next),
        _ => (TapeChildView { tape: t1, ..c }, p, stop),
    }
}

/// Up to `fuel` cycles of a called module against the calling tape,
/// ending early at the first that hands control back.
pub open spec fn child_run_spec(c: TapeChildView, p: TapeView, fuel: nat) -> (
    TapeChildView,
    TapeView,
    StopView,
)
    decreases fuel,
{
    if fuel == 0 {
        (c, p, StopView::Next)
    } else {
        let (d, q, stop) = child_cycle_spec(c, p);
        if stop is Next {
            child_run_spec(d, q, (fuel - 1) as nat)
        } else {
            (d, q, stop)
        }
    }
}

impl TapeChild {
    /// Moves the module's cursor one step.
    pub fn step(&mut self)
        ensures
            final(self)@ == (TapeChildView { tape: step_spec(old(self)@.tape), ..old(self)@ }),
    {
        self.tape.step()
    }

    /// The content of the module's cell at `i`.
    pub fn read_val(&self, i: &Value) -> (v: Value)
        ensures
            v@ == read_val_spec(self@.tape.cells, i@),
    {
        self.tape.read_val(i)
    }

    /// The operand under the module's cursor.
    pub fn read_int(&self) -> (v: Value)
        ensures
            v@ == read_int_spec(self@.tape),
    {
        self.tape.read_int()
    }

    /// One cycle of the module against the calling tape.
    pub fn cycle(&mut self, parent: &mut Tape) -> (stop: Stop)
        ensures
            (final(self)@, final(parent)@, stop@) == child_cycle_spec(old(self)@, old(parent)@),
    {
        let stop = self.tape.cycle();
        match stop {
            Stop::Output(v) => {
                cells_insert(&mut parent.tape, self.oidx.clone(), v);
                self.oidx.advance(parent.dir);
                Stop::Next
            },
            Stop::Input(a) => {
                let v = parent.read_val(&self.iidx);
                cells_insert(&mut self.tape.tape, a, v);
                self.iidx.advance(parent.dir);
                Stop::Next
            },
            Stop::Newline => Stop::Next,
            _ => stop,
        }
    }

    /// Runs the module against the calling tape for up to `fuel` cycles,
    /// or until it quits, calls a module itself, or asks for a random
    /// draw.
    pub fn run(&mut self, parent: &mut Tape, fuel: u64) -> (stop: Stop)
        ensures
            (final(self)@, final(parent)@, stop@) == child_run_spec(
                old(self)@,
                old(parent)@,
                fuel as nat,
            ),
    {
        let mut left = fuel;
        while left > 0
            invariant
                child_run_spec(self@, parent@, left as nat) == child_run_spec(
                    old(self)@,
                    old(parent)@,
                    fuel as nat,
                ),
            decreases left,
        {
            let stop = self.cycle(parent);
            match stop {
                Stop::Next => {},
                _ => {
                    return stop;
                },
            }
            left -= 1;
        }
        Stop::Next
    }
}

/// A module that is about to run: its cursor at zero, going forward, and
/// its two cursors into the calling tape where the call put them.
pub open spec fn fresh_child(
    cells: Map<ValueView, ValueView>,
    root: Option<Seq<char>>,
    oi: ValueView,
    ii: ValueView,
) -> TapeChildView {
    TapeChildView {
        tape: TapeView { idx: ValueView::I(0), cells: cells, dir: true, root: root },
        iidx: ii,
        oidx: oi,
    }
}

/// The module `c` with the directory `root`.
pub open spec fn child_with_root(c: TapeChildView, root: Option<Seq<char>>) -> TapeChildView {
    TapeChildView { tape: with_root(c.tape, root), ..c }
}

/// A run of a module does not look at the module's directory.
pub proof fn lemma_child_run_ignores_root(
    c: TapeChildView,
    p: TapeView,
    root: Option<Seq<char>>,
    fuel: nat,
)
    ensures
        child_run_spec(child_with_root(c, root), p, fuel) == (
            child_with_root(child_run_spec(c, p, fuel).0, root),
            child_run_spec(c, p, fuel).1,
            child_run_spec(c, p, fuel).2,
        ),
    decreases fuel,
{
    if fuel > 0 {
        lemma_cycle_ignores_root(c.tape, root);
        let (d, q, stop) = child_cycle_spec(c, p);
        assert(child_cycle_spec(child_with_root(c, root), p) == (
            child_with_root(d, root),
            q,
            stop,
        ));
        if stop is Next {
            lemma_child_run_ignores_root(d, q, root, (fuel - 1) as nat);
        }
    }
}

/// Calling the same module twice from the same state has the same effect
/// on the calling tape. What a run of a module does to the tape that
/// called it, and what it stops for, is decided by the module's cells, by
/// where the call put the two cursors, and by the calling tape: not by
/// where the module was found. A run stops where the module asks for a
/// random draw or calls a module itself, so those are not part of it.
pub proof fn lemma_call_repeatable(
    cells: Map<ValueView, ValueView>,
    root1: Option<Seq<char>>,
    root2: Option<Seq<char>>,
    oi: ValueView,
    ii: ValueView,
    p: TapeView,
    fuel: nat,
)
    ensures
        child_run_spec(fresh_child(cells, root1, oi, ii), p, fuel).1 == child_run_spec(
            fresh_child(cells, root2, oi, ii),
            p,
            fuel,
        ).1,
        child_run_spec(fresh_child(cells, root1, oi, ii), p, fuel).2 == child_run_spec(
            fresh_child(cells, root2, oi, ii),
            p,
            fuel,
        ).2,
{
    let c = fresh_child(cells, None, oi, ii);
    lemma_child_run_ignores_root(c, p, root1, fuel);
    lemma_child_run_ignores_root(c, p, root2, fuel);
    assert(child_with_root(c, root1) == fresh_child(cells, root1, oi, ii));
    assert(child_with_root(c, root2) == fresh_child(cells, root2, oi, ii));
}

} // verus!
