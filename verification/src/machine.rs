//! The interpreter as a machine that a host drives: it runs instructions
//! until one needs the host (to write, to read a line, to find or read a
//! module's file) and goes on when the host has answered.

use crate::call::{child_cycle_spec, TapeChild, TapeChildView};
use crate::cells::{cell_map, cells_clone, cells_get, cells_insert, Cells};
use crate::modules::{
    cache_get, cache_insert, cache_map, cache_new, lib_get, lib_map, load_cells, no_modules,
    parse_lib, split_lines, ModCache, ModulesView, StdLib,
};
use crate::tape::{
    cycle_spec, op15_bound, op15_spec, step_spec, with_cell, CallSite, CallSiteView, Stop,
    StopView, Tape, TapeView,
};
use crate::value::{display_text, from_text, Value, ValueView};
use vstd::prelude::*;

verus! {

/// A called module on the machine's stack.
pub struct Frame {
    /// The module's tape and its cursors into the tape that called it.
    pub child: TapeChild,
    /// For a module that was read from a file: the path and the cells as
    /// they were read, which go into the cache when the module ends.
    pub cache_as: Option<(String, Cells)>,
}

/// What a `Frame` stands for in contracts.
pub struct FrameView {
    pub child: TapeChildView,
    pub cache_as: Option<(Seq<char>, Map<ValueView, ValueView>)>,
}

impl View for Frame {
    type V = FrameView;

    open spec fn view(&self) -> FrameView {
        FrameView {
            child: self.child@,
            cache_as: match self.cache_as {
                Some((path, cells)) => Some((path@, cell_map(cells))),
                None => None,
            },
        }
    }
}

/// What the machine waits for from its host.
pub enum Pending {
    /// Nothing: the machine can run.
    Nothing,
    /// A line of input, for the cell at this position of the top tape.
    Line(Value),
    /// The place of the module that this call names.
    Place(CallSite),
    /// The text of the file at `path`, for this call; `dir` is the
    /// directory of that file.
    File { site: CallSite, path: String, dir: Option<String> },
}

/// What a `Pending` stands for in contracts.
pub enum PendingView {
    Nothing,
    Line(ValueView),
    Place(CallSiteView),
    File { site: CallSiteView, path: Seq<char>, dir: Option<Seq<char>> },
}

/// The text of an optional string.
pub open spec fn opt_text(s: Option<String>) -> Option<Seq<char>> {
    match s {
        Some(t) => Some(t@),
        None => None,
    }
}

impl View for Pending {
    type V = PendingView;

    open spec fn view(&self) -> PendingView {
        match *self {
            Pending::Nothing => PendingView::Nothing,
            Pending::Line(a) => PendingView::Line(a@),
            Pending::Place(site) => PendingView::Place(site@),
            Pending::File { site, path, dir } => PendingView::File {
                site: site@,
                path: path@,
                dir: opt_text(dir),
            },
        }
    }
}

/// What the machine asks of its host when it hands control back.
pub enum Request {
    /// The budget ran out; the machine can run on.
    Paused,
    /// The program has ended.
    Done,
    /// Write this text to the output.
    Write(String),
    /// Write a line break to the output.
    Newline,
    /// Flush the output, read a line of input, and hand it over without
    /// its line break.
    ReadLine,
    /// Let the machine make its random draw.
    Draw,
    /// Say where the module `name` is, taken as a path from the directory
    /// `root`, and whether a file is there.
    Locate { root: String, name: String },
    /// Hand over the text of the file at `path`.
    ReadFile { path: String },
}

/// What a `Request` stands for in contracts.
pub enum RequestView {
    Paused,
    Done,
    Write(Seq<char>),
    Newline,
    ReadLine,
    Draw,
    Locate { root: Seq<char>, name: Seq<char> },
    ReadFile { path: Seq<char> },
}

impl View for Request {
    type V = RequestView;

    open spec fn view(&self) -> RequestView {
        match *self {
            Request::Paused => RequestView::Paused,
            Request::Done => RequestView::Done,
            Request::Write(s) => RequestView::Write(s@),
            Request::Newline => RequestView::Newline,
            Request::ReadLine => RequestView::ReadLine,
            Request::Draw => RequestView::Draw,
            Request::Locate { root, name } => RequestView::Locate { root: root@, name: name@ },
            Request::ReadFile { path } => RequestView::ReadFile { path: path@ },
        }
    }
}

/// The interpreter: the top tape, the modules that are running on top of
/// it, the library, the cache, and what the host still owes.
pub struct Machine {
    /// The tape of the program.
    pub top: Tape,
    /// The called modules, the innermost last. Each one was called by the
    /// one before it, the first by the top tape.
    pub frames: Vec<Frame>,
    /// The library of modules.
    pub stdlib: StdLib,
    /// The cache of modules read from files.
    pub modcache: ModCache,
    /// What the host still owes.
    pub pending: Pending,
}

/// What a `Machine` stands for in contracts.
pub struct MachineView {
    pub top: TapeView,
    pub frames: Seq<FrameView>,
    pub stdlib: ModulesView,
    pub modcache: ModulesView,
    pub pending: PendingView,
}

/// The views of a stack of frames.
pub open spec fn frames_view(frames: Seq<Frame>) -> Seq<FrameView> {
    Seq::new(frames.len(), |i: int| frames[i]@)
}

impl View for Machine {
    type V = MachineView;

    open spec fn view(&self) -> MachineView {
        MachineView {
            top: self.top@,
            frames: frames_view(self.frames@),
            stdlib: lib_map(self.stdlib),
            modcache: cache_map(self.modcache),
            pending: self.pending@,
        }
    }
}

/// The tape that runs: the innermost module's, or the top tape where no
/// module is running.
pub open spec fn current_tape(m: MachineView) -> TapeView {
    if m.frames.len() == 0 {
        m.top
    } else {
        m.frames.last().child.tape
    }
}

/// The machine with `t` as the tape that runs.
pub open spec fn with_current(m: MachineView, t: TapeView) -> MachineView {
    if m.frames.len() == 0 {
        MachineView { top: t, ..m }
    } else {
        let f = m.frames.last();
        MachineView {
            frames: m.frames.drop_last().push(
                FrameView { child: TapeChildView { tape: t, ..f.child }, ..f },
            ),
            ..m
        }
    }
}

/// A fresh tape for a module with the cells `cells`.
pub open spec fn module_tape(cells: Map<ValueView, ValueView>, root: Option<Seq<char>>) -> TapeView {
    TapeView { idx: ValueView::I(0), cells: cells, dir: true, root: root }
}

/// The machine with one more module on its stack, called at `site`.
pub open spec fn push_module(
    m: MachineView,
    cells: Map<ValueView, ValueView>,
    root: Option<Seq<char>>,
    site: CallSiteView,
    cache_as: Option<(Seq<char>, Map<ValueView, ValueView>)>,
) -> MachineView {
    MachineView {
        frames: m.frames.push(
            FrameView {
                child: TapeChildView {
                    tape: module_tape(cells, root),
                    iidx: site.ii,
                    oidx: site.oi,
                },
                cache_as: cache_as,
            },
        ),
        ..m
    }
}

/// What the machine asks for while the host owes it something.
pub open spec fn request_of(m: MachineView) -> RequestView {
    match m.pending {
        PendingView::Nothing => RequestView::Paused,
        PendingView::Line(_) => RequestView::ReadLine,
        PendingView::Place(site) => match current_tape(m).root {
            Some(root) => RequestView::Locate { root: root, name: display_text(site.ident) },
            None => RequestView::Paused,
        },
        PendingView::File { site, path, dir } => RequestView::ReadFile { path: path },
    }
}

/// A call by name alone: the module of the library that the text of
/// `site.ident` names starts to run, where `site.ident` is a text and
/// the library has such a module. Otherwise nothing happens.
pub open spec fn call_library(m: MachineView, site: CallSiteView) -> MachineView {
    let name = display_text(site.ident);
    if site.ident is S && m.stdlib.contains_key(name) {
        push_module(m, m.stdlib[name], None, site, None)
    } else {
        m
    }
}

/// A call at `site`, made by the tape that runs. Where that tape has a
/// directory, the host is asked where the module is; where it has none,
/// the call goes to the library.
pub open spec fn call_spec(m: MachineView, site: CallSiteView) -> (MachineView, RequestView) {
    match current_tape(m).root {
        Some(root) => {
            let m1 = MachineView { pending: PendingView::Place(site), ..m };
            (m1, request_of(m1))
        },
        None => (call_library(m, site), RequestView::Paused),
    }
}

/// The host's answer to `Locate`: the module's path, whether a file is
/// there, and the directory of that path. A name given as a text that
/// is no file goes to the library. Otherwise the module comes from the
/// cache, where the cache has the path, and else the host is asked for
/// the file's text.
pub open spec fn located_spec(
    m: MachineView,
    path: Seq<char>,
    is_file: bool,
    dir: Option<Seq<char>>,
) -> (MachineView, RequestView) {
    match m.pending {
        PendingView::Place(site) => {
            let m0 = MachineView { pending: PendingView::Nothing, ..m };
            if site.ident is S && !is_file {
                (call_library(m0, site), RequestView::Paused)
            } else if m.modcache.contains_key(path) {
                (push_module(m0, m.modcache[path], dir, site, None), RequestView::Paused)
            } else {
                let m1 = MachineView {
                    pending: PendingView::File { site: site, path: path, dir: dir },
                    ..m
                };
                (m1, request_of(m1))
            }
        },
        _ => (m, request_of(m)),
    }
}

/// The host's answer to `ReadFile`: the text of the file, or nothing
/// where it could not be read. The text's lines become the cells of a
/// module that starts to run, and that are kept for the cache. Without a
/// text the call is dropped.
pub open spec fn loaded_spec(m: MachineView, text: Option<Seq<char>>) -> MachineView {
    match m.pending {
        PendingView::File { site, path, dir } => {
            let m0 = MachineView { pending: PendingView::Nothing, ..m };
            match text {
                Some(t) => {
                    let cells = load_cells(split_lines(t));
                    push_module(m0, cells, dir, site, Some((path, cells)))
                },
                None => m0,
            }
        },
        _ => m,
    }
}

/// The host's answer to `ReadLine`: the line, which is read as a value
/// into the cell that waits for it.
pub open spec fn line_spec(m: MachineView, line: Seq<char>) -> MachineView {
    match m.pending {
        PendingView::Line(a) => MachineView {
            top: with_cell(m.top, a, from_text(line)),
            pending: PendingView::Nothing,
            ..m
        },
        _ => m,
    }
}

/// The end of the innermost module: it leaves the stack, and the cells
/// it was read with, if it came from a file, go into the cache.
pub open spec fn pop_module(m: MachineView) -> MachineView {
    let f = m.frames.last();
    MachineView {
        frames: m.frames.drop_last(),
        modcache: match f.cache_as {
            Some((path, cells)) => m.modcache.insert(path, cells),
            None => m.modcache,
        },
        ..m
    }
}

/// What a stop of the tape that runs means for the machine.
pub open spec fn after_stop(m: MachineView, stop: StopView) -> (MachineView, RequestView) {
    match stop {
        StopView::Next => (m, RequestView::Paused),
        StopView::Quit => if m.frames.len() == 0 {
            (m, RequestView::Done)
        } else {
            (pop_module(m), RequestView::Paused)
        },
        StopView::Output(v) => (m, RequestView::Write(display_text(v))),
        StopView::Input(a) => (
            MachineView { pending: PendingView::Line(a), ..m },
            RequestView::ReadLine,
        ),
        StopView::Newline => (m, RequestView::Newline),
        StopView::Call(site) => call_spec(m, site),
        StopView::Rand => (m, RequestView::Draw),
    }
}

/// The machine after one cycle of the tape that runs, before the stop of
/// that cycle is looked at. A module's cycle may write to the tape that
/// called it.
pub open spec fn cycle_machine(m: MachineView) -> (MachineView, StopView) {
    if m.frames.len() == 0 {
        let (t1, stop) = cycle_spec(m.top);
        (MachineView { top: t1, ..m }, stop)
    } else {
        let f = m.frames.last();
        let below = m.frames.drop_last();
        if below.len() == 0 {
            let (d, q, stop) = child_cycle_spec(f.child, m.top);
            (MachineView { top: q, frames: seq![FrameView { child: d, ..f }], ..m }, stop)
        } else {
            let g = below.last();
            let (d, q, stop) = child_cycle_spec(f.child, g.child.tape);
            (
                MachineView {
                    frames: below.drop_last().push(
                        FrameView { child: TapeChildView { tape: q, ..g.child }, ..g },
                    ).push(FrameView { child: d, ..f }),
                    ..m
                },
                stop,
            )
        }
    }
}

/// One turn of the machine: while the host owes something, the request
/// is made again; otherwise the tape that runs does one cycle, and what
/// it stopped for is dealt with. `Paused` says that the machine can take
/// another turn.
pub open spec fn turn_spec(m: MachineView) -> (MachineView, RequestView) {
    if !(m.pending is Nothing) {
        (m, request_of(m))
    } else {
        let (m1, stop) = cycle_machine(m);
        after_stop(m1, stop)
    }
}

/// Up to `fuel` turns, ending early at the first that asks something of
/// the host.
pub open spec fn machine_run_spec(m: MachineView, fuel: nat) -> (MachineView, RequestView)
    decreases fuel,
{
    if fuel == 0 {
        (m, RequestView::Paused)
    } else {
        let (m1, request) = turn_spec(m);
        if request is Paused {
            machine_run_spec(m1, (fuel - 1) as nat)
        } else {
            (m1, request)
        }
    }
}

/// The machine after the random draw `k`, made where the tape that runs
/// has its cursor on a rand instruction and the host owes nothing: the
/// instruction runs with that draw, and the cursor takes its step. A
/// machine in any other state stays as it is.
pub open spec fn draw_spec(m: MachineView, k: int) -> MachineView {
    let t = current_tape(m);
    if m.pending is Nothing && cycle_spec(t).1 is Rand {
        with_current(m, step_spec(op15_spec(t, k)))
    } else {
        m
    }
}

/// The largest draw that the machine may make.
pub open spec fn draw_bound(m: MachineView) -> int {
    op15_bound(current_tape(m))
}

/// The machine never changes its library, and never drops a module from
/// its cache: a turn and every answer of the host leave the library as it
/// was, and every path that the cache had it still has.
pub proof fn lemma_tables_kept(
    m: MachineView,
    path: Seq<char>,
    is_file: bool,
    dir: Option<Seq<char>>,
    text: Option<Seq<char>>,
    line: Seq<char>,
    k: int,
)
    ensures
        turn_spec(m).0.stdlib == m.stdlib,
        located_spec(m, path, is_file, dir).0.stdlib == m.stdlib,
        loaded_spec(m, text).stdlib == m.stdlib,
        line_spec(m, line).stdlib == m.stdlib,
        draw_spec(m, k).stdlib == m.stdlib,
        m.modcache.dom().subset_of(turn_spec(m).0.modcache.dom()),
        located_spec(m, path, is_file, dir).0.modcache == m.modcache,
        loaded_spec(m, text).modcache == m.modcache,
        line_spec(m, line).modcache == m.modcache,
        draw_spec(m, k).modcache == m.modcache,
{
}

proof fn lemma_frames_push(frames: Seq<Frame>, f: Frame)
    ensures
        frames_view(frames.push(f)) == frames_view(frames).push(f@),
{
    assert(frames_view(frames.push(f)) =~= frames_view(frames).push(f@));
}

proof fn lemma_frames_pop(frames: Seq<Frame>)
    requires
        frames.len() > 0,
    ensures
        frames_view(frames.drop_last()) == frames_view(frames).drop_last(),
        frames_view(frames).last() == frames.last()@,
{
    assert(frames_view(frames.drop_last()) =~= frames_view(frames).drop_last());
}

/// Tells whether the cursor of `tape` is on a rand instruction.
fn on_rand(tape: &Tape) -> (b: bool)
    ensures
        b == (cycle_spec(tape@).1 is Rand),
{
    match cells_get(&tape.tape, &tape.idx) {
        Some(Value::I(op)) => *op == 15,
        _ => false,
    }
}

impl Machine {
    /// A machine that is about to run the program on `top`, with the
    /// library `stdlib` and an empty cache.
    pub fn new(top: Tape, stdlib: StdLib) -> (m: Machine)
        ensures
            m@.top == top@,
            m@.frames.len() == 0,
            m@.stdlib == lib_map(stdlib),
            m@.modcache == no_modules(),
            m@.pending is Nothing,
    {
        Machine {
            top: top,
            frames: Vec::new(),
            stdlib: stdlib,
            modcache: cache_new(),
            pending: Pending::Nothing,
        }
    }

    /// The directory of the tape that runs.
    fn current_root(&self) -> (r: Option<String>)
        ensures
            opt_text(r) == current_tape(self@).root,
    {
        let n = self.frames.len();
        let root = if n == 0 {
            &self.top.root
        } else {
            &self.frames[n - 1].child.tape.root
        };
        match root {
            Some(r) => Some(r.clone()),
            None => None,
        }
    }

    /// The request that stands for what the host owes.
    fn request(&self) -> (r: Request)
        ensures
            r@ == request_of(self@),
    {
        match &self.pending {
            Pending::Nothing => Request::Paused,
            Pending::Line(_) => Request::ReadLine,
            Pending::Place(site) => match self.current_root() {
                Some(root) => Request::Locate { root: root, name: site.ident.to_string() },
                None => Request::Paused,
            },
            Pending::File { site, path, dir } => Request::ReadFile { path: path.clone() },
        }
    }

    /// Puts a module with the cells `cells` on the stack.
    fn push_module(
        &mut self,
        cells: Cells,
        root: Option<String>,
        site: CallSite,
        cache_as: Option<(String, Cells)>,
    )
        ensures
            final(self)@ == push_module(
                old(self)@,
                cell_map(cells),
                opt_text(root),
                site@,
                match cache_as {
                    Some((path, kept)) => Some((path@, cell_map(kept))),
                    None => None,
                },
            ),
    {
        let tape = Tape { idx: Value::I(0), tape: cells, dir: true, root: root };
        let f = Frame {
            child: TapeChild { tape: tape, iidx: site.ii, oidx: site.oi },
            cache_as: cache_as,
        };
        proof {
            lemma_frames_push(self.frames@, f);
        }
        self.frames.push(f);
    }

    /// A call by name alone.
    fn call_library(&mut self, site: CallSite)
        ensures
            final(self)@ == call_library(old(self)@, site@),
    {
        let found = match &site.ident {
            Value::S(name) => match lib_get(&self.stdlib, name.as_str()) {
                Some(cells) => Some(cells_clone(cells)),
                None => None,
            },
            _ => None,
        };
        match found {
            Some(cells) => self.push_module(cells, None, site, None),
            None => {},
        }
    }

    /// A call at `site`, made by the tape that runs.
    fn call(&mut self, site: CallSite) -> (r: Request)
        ensures
            (final(self)@, r@) == call_spec(old(self)@, site@),
    {
        match self.current_root() {
            Some(root) => {
                let name = site.ident.to_string();
                self.pending = Pending::Place(site);
                Request::Locate { root: root, name: name }
            },
            None => {
                self.call_library(site);
                Request::Paused
            },
        }
    }

    /// Takes what the host owes out of the machine.
    fn take_pending(&mut self) -> (p: Pending)
        ensures
            p == old(self).pending,
            final(self)@ == (MachineView { pending: PendingView::Nothing, ..old(self)@ }),
    {
        let mut p = Pending::Nothing;
        core::mem::swap(&mut self.pending, &mut p);
        p
    }

    /// The host's answer to `Locate`: the path of the module, whether a
    /// file is there, and the directory of that path. An answer that was
    /// not asked for changes nothing.
    pub fn located(&mut self, path: String, is_file: bool, dir: Option<String>) -> (r: Request)
        ensures
            (final(self)@, r@) == located_spec(old(self)@, path@, is_file, opt_text(dir)),
    {
        match self.take_pending() {
            Pending::Place(site) => {
                let is_text = match &site.ident {
                    Value::S(_) => true,
                    _ => false,
                };
                if is_text && !is_file {
                    self.call_library(site);
                    return Request::Paused;
                }
                let cached = match cache_get(&self.modcache, path.as_str()) {
                    Some(cells) => Some(cells_clone(cells)),
                    None => None,
                };
                match cached {
                    Some(cells) => {
                        self.push_module(cells, dir, site, None);
                        Request::Paused
                    },
                    None => {
                        let r = Request::ReadFile { path: path.clone() };
                        self.pending = Pending::File { site: site, path: path, dir: dir };
                        r
                    },
                }
            },
            p => {
                self.pending = p;
                self.request()
            },
        }
    }

    /// The host's answer to `ReadFile`: the text of the file, or `None`
    /// where it could not be read. An answer that was not asked for
    /// changes nothing.
    pub fn loaded(&mut self, text: Option<String>)
        ensures
            final(self)@ == loaded_spec(old(self)@, opt_text(text)),
    {
        match self.take_pending() {
            Pending::File { site, path, dir } => {
                match text {
                    Some(t) => {
                        let cells = parse_lib(t.as_str());
                        let kept = cells_clone(&cells);
                        self.push_module(cells, dir, site, Some((path, kept)));
                    },
                    None => {},
                }
            },
            p => {
                self.pending = p;
            },
        }
    }

    /// The host's answer to `ReadLine`: the line that was read, without
    /// its line break. An answer that was not asked for changes nothing.
    pub fn feed_line(&mut self, line: String)
        ensures
            final(self)@ == line_spec(old(self)@, line@),
    {
        match self.take_pending() {
            Pending::Line(a) => {
                cells_insert(&mut self.top.tape, a, Value::from(line));
            },
            p => {
                self.pending = p;
            },
        }
    }

    /// One cycle of the tape that runs.
    fn cycle(&mut self) -> (stop: Stop)
        ensures
            (final(self)@, stop@) == cycle_machine(old(self)@),
    {
        if self.frames.len() == 0 {
            return self.top.cycle();
        }
        proof {
            lemma_frames_pop(self.frames@);
        }
        let ghost all = self.frames@;
        let mut f = self.frames.pop().unwrap();
        if self.frames.len() == 0 {
            let stop = f.child.cycle(&mut self.top);
            proof {
                lemma_frames_push(self.frames@, f);
                assert(frames_view(self.frames@.push(f)) =~= seq![f@]);
            }
            self.frames.push(f);
            stop
        } else {
            proof {
                lemma_frames_pop(self.frames@);
            }
            let ghost below = self.frames@;
            let mut g = self.frames.pop().unwrap();
            let stop = f.child.cycle(&mut g.child.tape);
            proof {
                lemma_frames_push(self.frames@, g);
                lemma_frames_push(self.frames@.push(g), f);
                assert(below.drop_last() == self.frames@);
                assert(all.drop_last() == below);
            }
            self.frames.push(g);
            self.frames.push(f);
            stop
        }
    }

    /// Ends the innermost module.
    fn pop_module(&mut self)
        requires
            old(self).frames@.len() > 0,
        ensures
            final(self)@ == pop_module(old(self)@),
    {
        proof {
            lemma_frames_pop(self.frames@);
        }
        let f = self.frames.pop().unwrap();
        match f.cache_as {
            Some((path, cells)) => {
                cache_insert(&mut self.modcache, path, cells);
            },
            None => {},
        }
    }

    /// Deals with a stop of the tape that runs.
    fn after(&mut self, stop: Stop) -> (r: Request)
        ensures
            (final(self)@, r@) == after_stop(old(self)@, stop@),
    {
        match stop {
            Stop::Next => Request::Paused,
            Stop::Quit => {
                if self.frames.len() == 0 {
                    Request::Done
                } else {
                    self.pop_module();
                    Request::Paused
                }
            },
            Stop::Output(v) => Request::Write(v.to_string()),
            Stop::Input(a) => {
                self.pending = Pending::Line(a);
                Request::ReadLine
            },
            Stop::Newline => Request::Newline,
            Stop::Call(site) => self.call(site),
            Stop::Rand => Request::Draw,
        }
    }

    /// One turn of the machine.
    pub fn turn(&mut self) -> (r: Request)
        ensures
            (final(self)@, r@) == turn_spec(old(self)@),
    {
        match &self.pending {
            Pending::Nothing => {
                let stop = self.cycle();
                self.after(stop)
            },
            _ => self.request(),
        }
    }

    /// Makes the random draw that `Draw` stands for: the rand
    /// instruction under the cursor of the tape that runs replaces the
    /// number in its cell by a random one between zero and itself, and the
    /// cursor takes its step. Where no draw is due, nothing changes.
    pub fn draw(&mut self)
        ensures
            exists|k: int|
                0 <= k <= draw_bound(old(self)@) && final(self)@ == #[trigger] draw_spec(
                    old(self)@,
                    k,
                ),
    {
        let idle = match &self.pending {
            Pending::Nothing => true,
            _ => false,
        };
        if !idle {
            assert(self@ == draw_spec(old(self)@, 0));
            return ;
        }
        if self.frames.len() == 0 {
            if !on_rand(&self.top) {
                assert(self@ == draw_spec(old(self)@, 0));
                return ;
            }
            self.top.op15();
            let ghost k = choose|k: int|
                0 <= k <= op15_bound(old(self)@.top) && self@.top == #[trigger] op15_spec(
                    old(self)@.top,
                    k,
                );
            self.top.step();
            assert(self@ == draw_spec(old(self)@, k));
        } else {
            proof {
                lemma_frames_pop(self.frames@);
            }
            let ghost all = self.frames@;
            let mut f = self.frames.pop().unwrap();
            let ghost t = f.child.tape@;
            if !on_rand(&f.child.tape) {
                proof {
                    assert(self.frames@.push(f) =~= all);
                }
                self.frames.push(f);
                assert(self@ == draw_spec(old(self)@, 0));
                return ;
            }
            f.child.tape.op15();
            let ghost k = choose|k: int|
                0 <= k <= op15_bound(t) && f.child.tape@ == #[trigger] op15_spec(t, k);
            f.child.tape.step();
            proof {
                lemma_frames_push(self.frames@, f);
            }
            self.frames.push(f);
            assert(self@ == draw_spec(old(self)@, k));
        }
    }

    /// Runs the machine as `run` does, and makes every random draw that
    /// falls due on the way, for up to `fuel` rounds of up to `fuel` turns
    /// each: it hands control back for the host's own work only. Where no
    /// draw falls due within the first round, it does what `run` does.
    pub fn resume(&mut self, fuel: u64) -> (r: Request)
        ensures
            !(r@ is Draw),
            !(machine_run_spec(old(self)@, fuel as nat).1 is Draw) ==> (final(self)@, r@)
                == machine_run_spec(old(self)@, fuel as nat),
    {
        let mut left = fuel;
        let ghost mut drew = false;
        while left > 0
            invariant
                left <= fuel,
                !drew ==> left == fuel && self@ == old(self)@,
                drew ==> machine_run_spec(old(self)@, fuel as nat).1 is Draw,
            decreases left,
        {
            match self.run(fuel) {
                Request::Draw => {
                    self.draw();
                    proof {
                        drew = true;
                    }
                },
                r => {
                    return r;
                },
            }
            left -= 1;
        }
        Request::Paused
    }

    /// Runs the machine for up to `fuel` turns, or until it asks
    /// something of the host. `Paused` says that the budget ran out.
    pub fn run(&mut self, fuel: u64) -> (r: Request)
        ensures
            (final(self)@, r@) == machine_run_spec(old(self)@, fuel as nat),
    {
        let mut left = fuel;
        while left > 0
            invariant
                machine_run_spec(self@, left as nat) == machine_run_spec(old(self)@, fuel as nat),
            decreases left,
        {
            let r = self.turn();
            match r {
                Request::Paused => {},
                _ => {
                    return r;
                },
            }
            left -= 1;
        }
        Request::Paused
    }
}

} // verus!
