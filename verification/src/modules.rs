//! Modules: the text format of a tape, the library of modules that come
//! with the interpreter, and the cache of modules read from files.

use crate::cells::{cell_map, cells_insert, cells_new, no_cells, Cells};
use crate::value::{from_text, lemma_from_int_text, of_int, string_push, Value, ValueView};
use fnv::FnvHashMap;
use fxhash::FxHashMap;
use vstd::prelude::*;

verus! {

/// `fnv::FnvHasher`, the hasher of the library's table.
#[verifier::external_type_specification]
#[verifier::external_body]
pub struct ExFnvHasher(fnv::FnvHasher);

/// The library: the cells of each module that comes with the
/// interpreter, by the module's name.
pub type StdLib = FnvHashMap<String, Cells>;

/// The cache: the cells of each module that was read from a file, by the
/// file's path.
pub type ModCache = FxHashMap<String, Cells>;

/// The cells of a set of modules, by name.
pub type ModulesView = Map<Seq<char>, Map<ValueView, ValueView>>;

/// The modules that a library holds.
pub uninterp spec fn lib_map(lib: StdLib) -> ModulesView;

/// The modules that a cache holds.
pub uninterp spec fn cache_map(cache: ModCache) -> ModulesView;

/// No modules.
pub open spec fn no_modules() -> ModulesView {
    Map::empty()
}

/// `FnvHashMap::default`: a library without modules.
#[verifier::external_body]
pub(crate) fn lib_new() -> (lib: StdLib)
    ensures
        lib_map(lib) == no_modules(),
{
    FnvHashMap::default()
}

/// `HashMap::insert`: the library now holds `cells` under `name`, and
/// every other module as before.
#[verifier::external_body]
pub(crate) fn lib_insert(lib: &mut StdLib, name: String, cells: Cells)
    ensures
        lib_map(*final(lib)) == lib_map(*old(lib)).insert(name@, cell_map(cells)),
{
    lib.insert(name, cells);
}

/// `HashMap::get`: the cells of the module called `name`, if the library
/// holds one.
#[verifier::external_body]
pub(crate) fn lib_get<'a>(lib: &'a StdLib, name: &str) -> (r: Option<&'a Cells>)
    ensures
        match r {
            Some(cells) => lib_map(*lib).contains_key(name@) && cell_map(*cells) == lib_map(
                *lib,
            )[name@],
            None => !lib_map(*lib).contains_key(name@),
        },
{
    lib.get(name)
}

/// `FxHashMap::default`: a cache without modules.
#[verifier::external_body]
pub(crate) fn cache_new() -> (cache: ModCache)
    ensures
        cache_map(cache) == no_modules(),
{
    FxHashMap::default()
}

/// `HashMap::insert`: the cache now holds `cells` under `path`, and every
/// other module as before.
#[verifier::external_body]
pub(crate) fn cache_insert(cache: &mut ModCache, path: String, cells: Cells)
    ensures
        cache_map(*final(cache)) == cache_map(*old(cache)).insert(path@, cell_map(cells)),
{
    cache.insert(path, cells);
}

/// `HashMap::get`: the cells of the module cached under `path`, if there
/// is one.
#[verifier::external_body]
pub(crate) fn cache_get<'a>(cache: &'a ModCache, path: &str) -> (r: Option<&'a Cells>)
    ensures
        match r {
            Some(cells) => cache_map(*cache).contains_key(path@) && cell_map(*cells) == cache_map(
                *cache,
            )[path@],
            None => !cache_map(*cache).contains_key(path@),
        },
{
    cache.get(path)
}

/// The lines of a text, given the part `cur` of the current line that
/// was read already and the text `rest` that follows it. A line ends at
/// `'\n'`, which is not part of it; the last line need not end.
pub open spec fn split_from(cur: Seq<char>, rest: Seq<char>) -> Seq<Seq<char>>
    decreases rest.len(),
{
    if rest.len() == 0 {
        if cur.len() == 0 {
            Seq::empty()
        } else {
            seq![cur]
        }
    } else if rest[0] == '\n' {
        seq![cur] + split_from(Seq::empty(), rest.skip(1))
    } else {
        split_from(cur.push(rest[0]), rest.skip(1))
    }
}

/// The lines of a text.
pub open spec fn split_lines(text: Seq<char>) -> Seq<Seq<char>> {
    split_from(Seq::empty(), text)
}

/// The text that a list of lines makes: each line with a line break
/// after it.
pub open spec fn join_lines(lines: Seq<Seq<char>>) -> Seq<char>
    decreases lines.len(),
{
    if lines.len() == 0 {
        Seq::empty()
    } else {
        lines[0] + seq!['\n'] + join_lines(lines.skip(1))
    }
}

/// A text with a line break at its end, where it is not empty and has
/// none there.
pub open spec fn ended(text: Seq<char>) -> Seq<char> {
    if text.len() == 0 || text.last() == '\n' {
        text
    } else {
        text.push('\n')
    }
}

/// No character of `line` is a line break.
pub open spec fn unbroken(line: Seq<char>) -> bool {
    forall|i: int| 0 <= i < line.len() ==> #[trigger] line[i] != '\n'
}

proof fn lemma_split_from(cur: Seq<char>, rest: Seq<char>)
    requires
        unbroken(cur),
    ensures
        join_lines(split_from(cur, rest)) == ended(cur + rest),
        forall|i: int|
            0 <= i < split_from(cur, rest).len() ==> unbroken(#[trigger] split_from(cur, rest)[i]),
    decreases rest.len(),
{
    let lines = split_from(cur, rest);
    if rest.len() == 0 {
        assert(cur + rest =~= cur);
        if cur.len() > 0 {
            assert(lines.skip(1) =~= Seq::<Seq<char>>::empty());
            assert(join_lines(lines.skip(1)) =~= Seq::<char>::empty());
            assert(lines[0] == cur);
            assert(join_lines(lines) =~= cur.push('\n'));
        }
    } else if rest[0] == '\n' {
        let tail = split_from(Seq::empty(), rest.skip(1));
        lemma_split_from(Seq::empty(), rest.skip(1));
        assert(lines.skip(1) =~= tail);
        assert(Seq::<char>::empty() + rest.skip(1) =~= rest.skip(1));
        assert(cur + rest =~= cur + seq!['\n'] + rest.skip(1));
        assert(join_lines(lines) =~= cur + seq!['\n'] + ended(rest.skip(1)));
        assert(ended(cur + rest) =~= cur + seq!['\n'] + ended(rest.skip(1)));
        assert forall|i: int| 0 <= i < lines.len() implies unbroken(#[trigger] lines[i]) by {
            if i > 0 {
                assert(lines[i] == tail[i - 1]);
            }
        }
    } else {
        let more = cur.push(rest[0]);
        assert(unbroken(more)) by {
            assert forall|i: int| 0 <= i < more.len() implies #[trigger] more[i] != '\n' by {
                if i < cur.len() {
                    assert(more[i] == cur[i]);
                }
            }
        }
        lemma_split_from(more, rest.skip(1));
        assert(cur + rest =~= more + rest.skip(1));
    }
}

/// The lines of a text have no line break in them, and put together
/// again, a line break after each, they give the text, with a line break
/// at its end.
pub proof fn lemma_split_lines(text: Seq<char>)
    ensures
        join_lines(split_lines(text)) == ended(text),
        forall|i: int|
            0 <= i < split_lines(text).len() ==> unbroken(#[trigger] split_lines(text)[i]),
{
    lemma_split_from(Seq::empty(), text);
    assert(Seq::<char>::empty() + text =~= text);
}

/// The texts of a list of strings.
pub open spec fn texts(lines: Seq<String>) -> Seq<Seq<char>> {
    Seq::new(lines.len(), |i: int| lines[i]@)
}

/// The cells that a list of lines fills: line `i` is read as a value into
/// the cell at position `i`.
pub open spec fn load_cells(lines: Seq<Seq<char>>) -> Map<ValueView, ValueView>
    decreases lines.len(),
{
    if lines.len() == 0 {
        no_cells()
    } else {
        load_cells(lines.drop_last()).insert(of_int(lines.len() - 1), from_text(lines.last()))
    }
}

/// The cells that a list of lines fills, one by one: the cell at
/// position `i` holds what line `i` is read as, and no cell beyond the
/// last line is filled.
pub proof fn lemma_load_cells(lines: Seq<Seq<char>>, i: int)
    ensures
        0 <= i < lines.len() ==> load_cells(lines).contains_key(of_int(i)) && load_cells(
            lines,
        )[of_int(i)] == from_text(lines[i]),
        !(0 <= i < lines.len()) ==> !load_cells(lines).contains_key(of_int(i)),
    decreases lines.len(),
{
    if lines.len() > 0 {
        let last = lines.len() - 1;
        lemma_load_cells(lines.drop_last(), i);
        lemma_from_int_text(i);
        lemma_from_int_text(last);
        if i != last {
            assert(of_int(i) != of_int(last));
        }
    }
}

/// Splits a text into its lines.
pub fn lines_of(text: &str) -> (lines: Vec<String>)
    ensures
        texts(lines@) == split_lines(text@),
{
    let mut lines: Vec<String> = Vec::new();
    let mut cur = String::new();
    let mut it = text.chars();
    assert(texts(lines@) =~= Seq::<Seq<char>>::empty());
    assert(text@.skip(0) =~= text@);
    for c in iter: it
        invariant
            iter.seq() == text@,
            texts(lines@) + split_from(cur@, text@.skip(iter.index() as int)) == split_lines(
                text@,
            ),
    {
        let ghost rest = text@.skip(iter.index() as int);
        let ghost done = texts(lines@);
        assert(rest[0] == c);
        assert(rest.skip(1) =~= text@.skip(iter.index() + 1));
        if c == '\n' {
            let ghost line = cur@;
            lines.push(cur);
            cur = String::new();
            assert(texts(lines@) =~= done + seq![line]);
            assert((done + seq![line]) + split_from(cur@, rest.skip(1)) =~= done + (seq![line]
                + split_from(Seq::empty(), rest.skip(1))));
        } else {
            string_push(&mut cur, c);
        }
    }
    let ghost done = texts(lines@);
    assert(text@.skip(text@.len() as int) =~= Seq::<char>::empty());
    let empty = cur.as_str().is_empty();
    if !empty {
        let ghost line = cur@;
        lines.push(cur);
        assert(texts(lines@) =~= done + seq![line]);
    } else {
        assert(done + Seq::<Seq<char>>::empty() =~= done);
    }
    lines
}

/// Reads the text of a module: one cell per line, the first line at
/// position 0.
pub fn parse_lib(src: &str) -> (cells: Cells)
    ensures
        cell_map(cells) == load_cells(split_lines(src@)),
{
    let lines = lines_of(src);
    let mut cells = cells_new();
    let mut key = Value::I(0);
    let mut i: usize = 0;
    let ghost all = texts(lines@);
    assert(all.take(0) =~= Seq::<Seq<char>>::empty());
    while i < lines.len()
        invariant
            i <= lines@.len(),
            all == texts(lines@),
            key@ == of_int(i as int),
            cell_map(cells) == load_cells(all.take(i as int)),
        decreases lines@.len() - i,
    {
        let line = lines[i].clone();
        proof {
            assert(all.take(i + 1).drop_last() =~= all.take(i as int));
            assert(all.take(i + 1).last() == all[i as int]);
            lemma_from_int_text(i as int);
        }
        cells_insert(&mut cells, key.clone(), Value::from(line));
        key.incr();
        i += 1;
    }
    assert(all.take(lines@.len() as int) =~= all);
    cells
}

/// The names and texts of a list of modules.
pub open spec fn sources_view(sources: Seq<(String, String)>) -> Seq<(Seq<char>, Seq<char>)> {
    Seq::new(sources.len(), |i: int| (sources[i].0@, sources[i].1@))
}

/// The library that a list of modules makes: each name with the cells of
/// its text, a later module replacing an earlier one of the same name.
pub open spec fn libs_of(sources: Seq<(Seq<char>, Seq<char>)>) -> ModulesView
    decreases sources.len(),
{
    if sources.len() == 0 {
        no_modules()
    } else {
        libs_of(sources.drop_last()).insert(
            sources.last().0,
            load_cells(split_lines(sources.last().1)),
        )
    }
}

/// Builds the library from the names and texts of its modules.
pub fn gen_libs(sources: &Vec<(String, String)>) -> (libs: StdLib)
    ensures
        lib_map(libs) == libs_of(sources_view(sources@)),
{
    let mut libs = lib_new();
    let mut i: usize = 0;
    let ghost all = sources_view(sources@);
    assert(all.take(0) =~= Seq::<(Seq<char>, Seq<char>)>::empty());
    while i < sources.len()
        invariant
            i <= sources@.len(),
            all == sources_view(sources@),
            lib_map(libs) == libs_of(all.take(i as int)),
        decreases sources@.len() - i,
    {
        let name = sources[i].0.clone();
        let cells = parse_lib(sources[i].1.as_str());
        proof {
            assert(all.take(i + 1).drop_last() =~= all.take(i as int));
            assert(all.take(i + 1).last() == all[i as int]);
        }
        lib_insert(&mut libs, name, cells);
        i += 1;
    }
    assert(all.take(sources@.len() as int) =~= all);
    libs
}

} // verus!
