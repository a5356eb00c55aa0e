//! The assembler: from a program written with mnemonics and labels, one
//! statement per line, to the lines of the numeric form that a tape is
//! loaded from.

use crate::digits::int_text;
use crate::modules::{lines_of, split_lines, texts};
use crate::tape::value_of_len;
use crate::value::{chars_of, lemma_from_int_text, string_of};
use fxhash::FxHashMap;
use vstd::prelude::*;

verus! {

/// The labels of a program: the number of the line that each one stands
/// before.
pub type Labels = FxHashMap<String, usize>;

/// The labels that a table holds, by name.
pub uninterp spec fn label_map(labels: Labels) -> Map<Seq<char>, usize>;

/// No labels.
pub open spec fn no_labels() -> Map<Seq<char>, usize> {
    Map::empty()
}

/// `FxHashMap::default`: a table without labels.
#[verifier::external_body]
fn labels_new() -> (labels: Labels)
    ensures
        label_map(labels) == no_labels(),
{
    FxHashMap::default()
}

/// `HashMap::insert`: the table now has `name` at `line`; what it had
/// under that name before is handed back.
#[verifier::external_body]
fn labels_insert(labels: &mut Labels, name: String, line: usize) -> (r: Option<usize>)
    ensures
        label_map(*final(labels)) == label_map(*old(labels)).insert(name@, line),
        r == (if label_map(*old(labels)).contains_key(name@) {
            Some(label_map(*old(labels))[name@])
        } else {
            None
        }),
{
    labels.insert(name, line)
}

/// `HashMap::get`: the line that `name` stands before, if the table has
/// that label.
#[verifier::external_body]
fn labels_get(labels: &Labels, name: &str) -> (r: Option<usize>)
    ensures
        r == (if label_map(*labels).contains_key(name@) {
            Some(label_map(*labels)[name@])
        } else {
            None
        }),
{
    labels.get(name).copied()
}

/// The number that a mnemonic stands for, as the text that is emitted
/// for it; nothing for a line that is no mnemonic.
pub open spec fn opcode_text(line: Seq<char>) -> Option<Seq<char>> {
    if line == "nop"@ {
        Some("0"@)
    } else if line == "copy"@ || line == "mov"@ {
        Some("1"@)
    } else if line == "reverse"@ {
        Some("2"@)
    } else if line == "quit"@ || line == "exit"@ || line == "return"@ {
        Some("3"@)
    } else if line == "output"@ || line == "write"@ {
        Some("4"@)
    } else if line == "user_input"@ || line == "read"@ {
        Some("5"@)
    } else if line == "jump"@ || line == "jmp"@ {
        Some("6"@)
    } else if line == "relative_jump"@ || line == "jr"@ {
        Some("7"@)
    } else if line == "increment"@ || line == "+"@ {
        Some("8"@)
    } else if line == "decrement"@ || line == "-"@ {
        Some("9"@)
    } else if line == "conditional_jump"@ || line == "je"@ {
        Some("10"@)
    } else if line == "newline"@ {
        Some("11"@)
    } else if line == "explode"@ {
        Some("12"@)
    } else if line == "implode"@ {
        Some("13"@)
    } else if line == "call"@ {
        Some("14"@)
    } else if line == "rand"@ {
        Some("15"@)
    } else if line == "ord"@ {
        Some("16"@)
    } else if line == "chr"@ {
        Some("17"@)
    } else {
        None
    }
}

/// A line of the program that is emitted.
pub enum Item {
    /// A line that is emitted as it stands.
    Text(String),
    /// A reference to the label of this name.
    Ref(String),
}

/// What an `Item` stands for in contracts.
pub enum ItemView {
    Text(Seq<char>),
    Ref(Seq<char>),
}

impl View for Item {
    type V = ItemView;

    open spec fn view(&self) -> ItemView {
        match *self {
            Item::Text(t) => ItemView::Text(t@),
            Item::Ref(n) => ItemView::Ref(n@),
        }
    }
}

/// What the assembler has to say about a program.
pub enum Diagnostic {
    /// A label was declared twice: at line `old` and again at line `new`.
    /// The later declaration counts.
    DuplicateLabel { old: usize, new: usize },
    /// A reference names a label that is declared nowhere. The reference
    /// is emitted as it stands.
    UnknownLabel { name: String },
}

/// What a `Diagnostic` stands for in contracts.
pub enum DiagnosticView {
    DuplicateLabel { old: usize, new: usize },
    UnknownLabel { name: Seq<char> },
}

impl View for Diagnostic {
    type V = DiagnosticView;

    open spec fn view(&self) -> DiagnosticView {
        match *self {
            Diagnostic::DuplicateLabel { old, new } => DiagnosticView::DuplicateLabel {
                old: old,
                new: new,
            },
            Diagnostic::UnknownLabel { name } => DiagnosticView::UnknownLabel { name: name@ },
        }
    }
}

/// The views of a list of items.
pub open spec fn items_view(items: Seq<Item>) -> Seq<ItemView> {
    Seq::new(items.len(), |i: int| items[i]@)
}

/// The views of a list of diagnostics.
pub open spec fn diagnostics_view(diagnostics: Seq<Diagnostic>) -> Seq<DiagnosticView> {
    Seq::new(diagnostics.len(), |i: int| diagnostics[i]@)
}

/// What the first pass has gathered.
pub struct ScanView {
    /// The lines to emit, references not yet filled in.
    pub items: Seq<ItemView>,
    /// The labels declared so far.
    pub labels: Map<Seq<char>, usize>,
    /// The duplicate declarations met so far.
    pub diagnostics: Seq<DiagnosticView>,
}

/// The first pass over one line. A mnemonic emits its number. `$NAME`
/// emits a reference to the label `NAME`. `:NAME` declares the label
/// `NAME` before the next line that is emitted, and emits nothing.
/// `"TEXT` emits `TEXT`. A line that starts with `#` is a comment. Any
/// other line is emitted as it stands.
pub open spec fn scan_line(st: ScanView, line: Seq<char>) -> ScanView {
    match opcode_text(line) {
        Some(t) => ScanView { items: st.items.push(ItemView::Text(t)), ..st },
        None => if line.len() > 0 && line[0] == '$' {
            ScanView { items: st.items.push(ItemView::Ref(line.skip(1))), ..st }
        } else if line.len() > 0 && line[0] == ':' {
            let name = line.skip(1);
            ScanView {
                labels: st.labels.insert(name, st.items.len() as usize),
                diagnostics: if st.labels.contains_key(name) {
                    st.diagnostics.push(
                        DiagnosticView::DuplicateLabel {
                            old: st.labels[name],
                            new: st.items.len() as usize,
                        },
                    )
                } else {
                    st.diagnostics
                },
                ..st
            }
        } else if line.len() > 0 && line[0] == '"' {
            ScanView { items: st.items.push(ItemView::Text(line.skip(1))), ..st }
        } else if line.len() > 0 && line[0] == '#' {
            st
        } else {
            ScanView { items: st.items.push(ItemView::Text(line)), ..st }
        },
    }
}

/// The first pass over the lines of a program.
pub open spec fn scan(lines: Seq<Seq<char>>) -> ScanView
    decreases lines.len(),
{
    if lines.len() == 0 {
        ScanView { items: Seq::empty(), labels: no_labels(), diagnostics: Seq::empty() }
    } else {
        scan_line(scan(lines.drop_last()), lines.last())
    }
}

/// The line that an item is emitted as: a reference gives the number of
/// the line that its label stands before, and stays as it was written
/// where there is no such label.
pub open spec fn resolve(item: ItemView, labels: Map<Seq<char>, usize>) -> Seq<char> {
    match item {
        ItemView::Text(t) => t,
        ItemView::Ref(name) => if labels.contains_key(name) {
            int_text(labels[name] as int)
        } else {
            seq!['$'] + name
        },
    }
}

/// The lines that are emitted for the first `n` items.
pub open spec fn resolve_all(items: Seq<ItemView>, labels: Map<Seq<char>, usize>, n: int) -> Seq<
    Seq<char>,
> {
    Seq::new(n as nat, |i: int| resolve(items[i], labels))
}

/// The references among the items that name no label, in order.
pub open spec fn unknown_labels(items: Seq<ItemView>, labels: Map<Seq<char>, usize>) -> Seq<
    DiagnosticView,
>
    decreases items.len(),
{
    if items.len() == 0 {
        Seq::empty()
    } else {
        let before = unknown_labels(items.drop_last(), labels);
        match items.last() {
            ItemView::Ref(name) => if labels.contains_key(name) {
                before
            } else {
                before.push(DiagnosticView::UnknownLabel { name: name })
            },
            _ => before,
        }
    }
}

/// The outcome of assembling a program.
pub struct Assembly {
    /// The lines of the numeric form.
    pub lines: Vec<String>,
    /// What there is to say about the program: duplicate labels first,
    /// in the order of their declarations, then unknown labels, in the
    /// order of their references.
    pub diagnostics: Vec<Diagnostic>,
}

/// Tells whether the characters `line` spell `word`.
fn spells(line: &Vec<char>, word: &str) -> (b: bool)
    ensures
        b == (line@ == word@),
{
    let w = chars_of(word);
    if w.len() != line.len() {
        return false;
    }
    let mut i: usize = 0;
    while i < w.len()
        invariant
            i <= w@.len(),
            w@ == word@,
            w@.len() == line@.len(),
            forall|j: int| 0 <= j < i ==> w@[j] == line@[j],
        decreases w@.len() - i,
    {
        if w[i] != line[i] {
            assert(w@[i as int] != line@[i as int]);
            return false;
        }
        i += 1;
    }
    assert(w@ =~= line@);
    true
}

/// The text that is emitted for a mnemonic.
fn opcode_of(line: &Vec<char>) -> (r: Option<&'static str>)
    ensures
        match r {
            Some(t) => opcode_text(line@) == Some(t@),
            None => opcode_text(line@) is None,
        },
{
    if spells(line, "nop") {
        Some("0")
    } else if spells(line, "copy") || spells(line, "mov") {
        Some("1")
    } else if spells(line, "reverse") {
        Some("2")
    } else if spells(line, "quit") || spells(line, "exit") || spells(line, "return") {
        Some("3")
    } else if spells(line, "output") || spells(line, "write") {
        Some("4")
    } else if spells(line, "user_input") || spells(line, "read") {
        Some("5")
    } else if spells(line, "jump") || spells(line, "jmp") {
        Some("6")
    } else if spells(line, "relative_jump") || spells(line, "jr") {
        Some("7")
    } else if spells(line, "increment") || spells(line, "+") {
        Some("8")
    } else if spells(line, "decrement") || spells(line, "-") {
        Some("9")
    } else if spells(line, "conditional_jump") || spells(line, "je") {
        Some("10")
    } else if spells(line, "newline") {
        Some("11")
    } else if spells(line, "explode") {
        Some("12")
    } else if spells(line, "implode") {
        Some("13")
    } else if spells(line, "call") {
        Some("14")
    } else if spells(line, "rand") {
        Some("15")
    } else if spells(line, "ord") {
        Some("16")
    } else if spells(line, "chr") {
        Some("17")
    } else {
        None
    }
}

/// The text of `line` after its first character.
fn rest_of(line: &Vec<char>) -> (s: String)
    requires
        line@.len() > 0,
    ensures
        s@ == line@.skip(1),
{
    let tail = vstd::slice::slice_subrange(line.as_slice(), 1, line.len());
    assert(tail@ =~= line@.skip(1));
    string_of(tail)
}

/// Assembles a program: the lines to emit, in the numeric form, and what
/// there is to say about its labels.
pub fn assemble(source: &str) -> (out: Assembly)
    ensures
        texts(out.lines@) == resolve_all(
            scan(split_lines(source@)).items,
            scan(split_lines(source@)).labels,
            scan(split_lines(source@)).items.len() as int,
        ),
        diagnostics_view(out.diagnostics@) == scan(split_lines(source@)).diagnostics
            + unknown_labels(
            scan(split_lines(source@)).items,
            scan(split_lines(source@)).labels,
        ),
{
    let source_lines = lines_of(source);
    let ghost all = texts(source_lines@);
    let mut items: Vec<Item> = Vec::new();
    let mut labels = labels_new();
    let mut diagnostics: Vec<Diagnostic> = Vec::new();
    let mut i: usize = 0;
    proof {
        assert(all.take(0) =~= Seq::<Seq<char>>::empty());
        assert(items_view(items@) =~= Seq::<ItemView>::empty());
        assert(diagnostics_view(diagnostics@) =~= Seq::<DiagnosticView>::empty());
    }
    while i < source_lines.len()
        invariant
            i <= source_lines@.len(),
            all == texts(source_lines@),
            items_view(items@) == scan(all.take(i as int)).items,
            label_map(labels) == scan(all.take(i as int)).labels,
            diagnostics_view(diagnostics@) == scan(all.take(i as int)).diagnostics,
        decreases source_lines@.len() - i,
    {
        let line = chars_of(source_lines[i].as_str());
        let ghost before_items = items@;
        let ghost before_diags = diagnostics@;
        proof {
            assert(all.take(i + 1).drop_last() =~= all.take(i as int));
            assert(all.take(i + 1).last() == line@);
        }
        match opcode_of(&line) {
            Some(t) => {
                items.push(Item::Text(t.to_owned()));
                assert(items_view(items@) =~= items_view(before_items).push(ItemView::Text(t@)));
            },
            None => {
                if line.len() > 0 && line[0] == '$' {
                    items.push(Item::Ref(rest_of(&line)));
                    assert(items_view(items@) =~= items_view(before_items).push(
                        ItemView::Ref(line@.skip(1)),
                    ));
                } else if line.len() > 0 && line[0] == ':' {
                    let lineno = items.len();
                    match labels_insert(&mut labels, rest_of(&line), lineno) {
                        Some(old) => {
                            diagnostics.push(Diagnostic::DuplicateLabel { old: old, new: lineno });
                            assert(diagnostics_view(diagnostics@) =~= diagnostics_view(
                                before_diags,
                            ).push(DiagnosticView::DuplicateLabel { old: old, new: lineno }));
                        },
                        None => {},
                    }
                } else if line.len() > 0 && line[0] == '"' {
                    items.push(Item::Text(rest_of(&line)));
                    assert(items_view(items@) =~= items_view(before_items).push(
                        ItemView::Text(line@.skip(1)),
                    ));
                } else if line.len() > 0 && line[0] == '#' {
                } else {
                    items.push(Item::Text(string_of(line.as_slice())));
                    assert(items_view(items@) =~= items_view(before_items).push(
                        ItemView::Text(line@),
                    ));
                }
            },
        }
        i += 1;
    }
    assert(all.take(source_lines@.len() as int) =~= all);
    let ghost st = scan(all);
    let ghost first = diagnostics_view(diagnostics@);
    let mut lines: Vec<String> = Vec::new();
    let mut k: usize = 0;
    proof {
        assert(texts(lines@) =~= resolve_all(st.items, st.labels, 0));
        assert(st.items.take(0) =~= Seq::<ItemView>::empty());
        assert(first + Seq::<DiagnosticView>::empty() =~= first);
    }
    while k < items.len()
        invariant
            k <= items@.len(),
            st.items == items_view(items@),
            st.labels == label_map(labels),
            texts(lines@) == resolve_all(st.items, st.labels, k as int),
            diagnostics_view(diagnostics@) == first + unknown_labels(
                st.items.take(k as int),
                st.labels,
            ),
        decreases items@.len() - k,
    {
        let ghost before_lines = lines@;
        let ghost before_diags = diagnostics@;
        let ghost found = unknown_labels(st.items.take(k as int), st.labels);
        proof {
            assert(st.items.take(k + 1).drop_last() =~= st.items.take(k as int));
            assert(st.items.take(k + 1).last() == st.items[k as int]);
        }
        let emitted: String = match &items[k] {
            Item::Text(t) => t.clone(),
            Item::Ref(name) => match labels_get(&labels, name.as_str()) {
                Some(lineno) => {
                    proof {
                        lemma_from_int_text(lineno as int);
                    }
                    value_of_len(lineno).to_string()
                },
                None => {
                    diagnostics.push(Diagnostic::UnknownLabel { name: name.clone() });
                    assert(diagnostics_view(diagnostics@) =~= diagnostics_view(before_diags).push(
                        DiagnosticView::UnknownLabel { name: name@ },
                    ));
                    assert(diagnostics_view(diagnostics@) =~= first + found.push(
                        DiagnosticView::UnknownLabel { name: name@ },
                    ));
                    let mut text: Vec<char> = Vec::new();
                    text.push('$');
                    let mut rest = chars_of(name.as_str());
                    text.append(&mut rest);
                    assert(text@ =~= seq!['$'] + name@);
                    string_of(text.as_slice())
                },
            },
        };
        assert(st.items[k as int] == items@[k as int]@);
        assert(emitted@ == resolve(st.items[k as int], st.labels));
        lines.push(emitted);
        assert(texts(lines@) =~= texts(before_lines).push(emitted@));
        assert(texts(lines@) =~= resolve_all(st.items, st.labels, k + 1));
        k += 1;
    }
    assert(st.items.take(items@.len() as int) =~= st.items);
    Assembly { lines: lines, diagnostics: diagnostics }
}

} // verus!
