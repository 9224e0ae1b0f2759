//! Chunk assembly: one chunk for each class, one for each function outside
//! the classes, and fixed-size windows over the lines that are left.

use crate::ident::{is_chunk_id, new_chunk_id};
use crate::lines::{join_lines, lines_of, SourceLines};
use crate::text::{
    copy_range, has_prefix, starts_with_at, string_from_chars, to_chars, trim_bounds, trimmed,
};
use crate::assembly::{
    lemma_assembled_chunks_are_well_formed, lemma_short_text_without_constructs_has_no_chunk,
};
use crate::types::{
    all_well_formed, copy_functions, copy_imports, ChunkView, ClassInfo, ClassView, CodeChunk,
    Extraction, ExtractionView, FunctionInfo, FunctionView, ImportInfo, ImportView,
};
use vstd::prelude::*;
use vstd::string::StrSliceExecFns;

verus! {

/// Default chunk size, in tokens.
pub const DEFAULT_CHUNK_SIZE: usize = 512;

/// Default overlap between neighbouring chunks, in tokens.
pub const DEFAULT_OVERLAP: usize = 128;

/// Largest chunk size, in tokens.
pub const MAX_CHUNK_SIZE: usize = 1000;

/// Fewest characters, after trimming, of a chunk made of leftover lines.
pub const MIN_CHUNK_SIZE: usize = 50;

/// Most lines of a chunk made of leftover lines.
pub const MAX_LINES_PER_CHUNK: usize = 200;

/// Fewest lines of a run of leftover lines that is chunked at all.
pub const MIN_LINES_PER_CHUNK: usize = 5;

/// How many lines above a function are looked at for comments and blank
/// lines that belong to it.
pub const CONTEXT_LOOKBACK: usize = 3;

/// The estimated number of tokens of a text of `len` characters: none for
/// the empty text, else a quarter of its length and at least one.
pub open spec fn tokens_for(len: nat) -> nat {
    if len == 0 {
        0
    } else if len < 4 {
        1
    } else {
        len / 4
    }
}

/// The estimated number of tokens of `text`.
pub open spec fn token_estimate(text: Seq<char>) -> nat {
    tokens_for(text.len())
}

/// The estimated number of tokens of a text of `len` characters.
pub fn tokens_for_len(len: usize) -> (tokens: usize)
    ensures
        tokens == tokens_for(len as nat),
        len == 0 ==> tokens == 0,
        len > 0 ==> 1 <= tokens <= len,
{
    if len == 0 {
        0
    } else if len < 4 {
        1
    } else {
        len / 4
    }
}

/// Estimates the number of tokens of `text` from its length in characters.
pub fn estimate_tokens(text: &str) -> (tokens: usize)
    ensures
        tokens == token_estimate(text@),
        text@.len() == 0 ==> tokens == 0,
        text@.len() > 0 ==> tokens >= 1,
{
    tokens_for_len(text.unicode_len())
}

/// Whether the trimmed line `line` begins like an import: with `import `,
/// `use ` or `require(`.
pub open spec fn is_import_line(line: Seq<char>) -> bool {
    ||| has_prefix(line, "import "@)
    ||| has_prefix(line, "use "@)
    ||| has_prefix(line, "require("@)
}

/// The lines among `ls` that, trimmed, begin like an import; each trimmed,
/// in the order of `ls`, repeats included.
pub open spec fn dependencies_among(ls: Seq<Seq<char>>) -> Seq<Seq<char>>
    decreases ls.len(),
{
    if ls.len() == 0 {
        Seq::empty()
    } else {
        let before = dependencies_among(ls.drop_last());
        let line = trimmed(ls.last());
        if is_import_line(line) {
            before.push(line)
        } else {
            before
        }
    }
}

/// The import-like lines of `text`.
pub open spec fn dependencies_of(text: Seq<char>) -> Seq<Seq<char>> {
    dependencies_among(lines_of(text))
}

/// The import-like lines of the text that `text` holds.
pub fn dependencies_in(text: &Vec<char>) -> (deps: Vec<String>)
    ensures
        deps.deep_view() == dependencies_of(text@),
{
    let lines = SourceLines::from_chars(text);
    let import_word = to_chars("import ");
    let use_word = to_chars("use ");
    let require_word = to_chars("require(");
    let mut deps: Vec<String> = Vec::new();
    let mut i: usize = 0;
    assert(lines@.subrange(0, 0) =~= Seq::<Seq<char>>::empty());
    assert(deps.deep_view() =~= Seq::<Seq<char>>::empty());
    while i < lines.len()
        invariant
            i <= lines@.len(),
            import_word@ == "import "@,
            use_word@ == "use "@,
            require_word@ == "require("@,
            deps.deep_view() == dependencies_among(lines@.subrange(0, i as int)),
        decreases lines@.len() - i,
    {
        let row = &lines.rows[i];
        let (from, to) = trim_bounds(row);
        let found = starts_with_at(row, from, to, &import_word) || starts_with_at(
            row,
            from,
            to,
            &use_word,
        ) || starts_with_at(row, from, to, &require_word);
        let ghost before = deps.deep_view();
        proof {
            assert(lines@.subrange(0, i + 1).drop_last() =~= lines@.subrange(0, i as int));
            assert(lines@.subrange(0, i + 1).last() == row@);
        }
        if found {
            let line = copy_range(row, from, to);
            deps.push(string_from_chars(&line));
            assert(deps.deep_view() =~= before.push(trimmed(row@)));
        }
        i += 1;
    }
    proof {
        assert(lines@.subrange(0, lines@.len() as int) =~= lines@);
    }
    deps
}

/// Scans `text` for lines that begin like an import and returns each,
/// trimmed, in the order of the text.
pub fn extract_dependencies(text: &str) -> (deps: Vec<String>)
    ensures
        deps.deep_view() == dependencies_of(text@),
{
    let chars = to_chars(text);
    dependencies_in(&chars)
}

/// Whether `line` may belong to the construct below it: trimmed, it is empty
/// or begins with `//` or with `*`.
pub open spec fn is_context_line(line: Seq<char>) -> bool {
    let t = trimmed(line);
    ||| t.len() == 0
    ||| has_prefix(t, "//"@)
    ||| has_prefix(t, "*"@)
}

/// How many lines directly above line index `start_idx` are context lines,
/// counting upwards from `start_idx` and stopping at the first line that is
/// none, at the top of the text, or after `limit` lines.
pub open spec fn context_run(lines: Seq<Seq<char>>, start_idx: int, limit: nat) -> nat
    decreases limit,
{
    if limit == 0 || start_idx <= 0 || !is_context_line(lines[start_idx - 1]) {
        0
    } else {
        1 + context_run(lines, start_idx - 1, (limit - 1) as nat)
    }
}

/// The index of the first line of the context of the construct that starts
/// at line index `start_idx`; `start_idx` itself where it has none.
pub open spec fn context_start(lines: Seq<Seq<char>>, start_idx: int) -> int {
    start_idx - context_run(lines, start_idx, CONTEXT_LOOKBACK as nat)
}

/// Whether line `row` is a context line.
pub fn is_context_row(row: &Vec<char>) -> (b: bool)
    ensures
        b == is_context_line(row@),
{
    let (from, to) = trim_bounds(row);
    if from == to {
        return true;
    }
    let comment = to_chars("//");
    let star = to_chars("*");
    starts_with_at(row, from, to, &comment) || starts_with_at(row, from, to, &star)
}

/// Finds where the context of a construct begins: looks back from line
/// index `start_idx` over at most three lines and stops at the first that is
/// no context line.
pub fn find_preceding_context(lines: &SourceLines, start_idx: usize) -> (first: usize)
    requires
        start_idx <= lines@.len(),
    ensures
        first == context_start(lines@, start_idx as int),
        start_idx - CONTEXT_LOOKBACK <= first <= start_idx,
        forall|i: int| first <= i < start_idx ==> is_context_line(#[trigger] lines@[i]),
        first == 0 || first == start_idx - CONTEXT_LOOKBACK || !is_context_line(lines@[first - 1]),
{
    let mut first: usize = start_idx;
    let mut seen: usize = 0;
    while seen < CONTEXT_LOOKBACK && first > 0 && is_context_row(&lines.rows[first - 1])
        invariant
            seen <= CONTEXT_LOOKBACK,
            first + seen == start_idx,
            start_idx <= lines@.len(),
            forall|i: int| first <= i < start_idx ==> is_context_line(#[trigger] lines@[i]),
            context_run(lines@, start_idx as int, CONTEXT_LOOKBACK as nat) == seen + context_run(
                lines@,
                first as int,
                (CONTEXT_LOOKBACK - seen) as nat,
            ),
        decreases first,
    {
        first -= 1;
        seen += 1;
    }
    first
}

/// Whether the 1-based inclusive line range `start_line..=end_line` holds
/// the line with 0-based index `idx`.
pub open spec fn covers(start_line: nat, end_line: nat, idx: int) -> bool {
    start_line - 1 <= idx < end_line
}

/// The coverage record `covered` after the lines `start_line..=end_line`
/// were claimed: a range that reaches beyond the record claims what the
/// record has of it.
pub open spec fn marked(covered: Seq<bool>, start_line: nat, end_line: nat) -> Seq<bool> {
    Seq::new(covered.len(), |i: int| covered[i] || covers(start_line, end_line, i))
}

/// Marks the lines `start_line..=end_line` (1-based, inclusive) as covered.
pub fn mark_lines_covered(covered: &mut Vec<bool>, start_line: usize, end_line: usize)
    ensures
        final(covered)@ == marked(old(covered)@, start_line as nat, end_line as nat),
{
    let start_idx: usize = if start_line == 0 {
        0
    } else {
        start_line - 1
    };
    let end_idx: usize = if end_line < covered.len() {
        end_line
    } else {
        covered.len()
    };
    let ghost before = covered@;
    let mut i: usize = start_idx;
    while i < end_idx
        invariant
            start_idx <= i,
            i <= end_idx || i == start_idx,
            end_idx <= covered.len(),
            covered.len() == before.len(),
            forall|k: int|
                0 <= k < before.len() ==> covered@[k] == (before[k] || (start_idx <= k < i)),
        decreases end_idx - i,
    {
        covered[i] = true;
        i += 1;
    }
    proof {
        assert forall|k: int| 0 <= k < before.len() implies (start_idx <= k < i) == covers(
            start_line as nat,
            end_line as nat,
            k,
        ) by {}
        assert(covered@ =~= marked(before, start_line as nat, end_line as nat));
    }
}

/// Whether the lines of `f` all lie within the lines of `c`.
pub open spec fn inside_class(f: FunctionView, c: ClassView) -> bool {
    f.start_line >= c.start_line && f.end_line <= c.end_line
}

/// Whether the lines of `f` all lie within the lines of one of `classes`.
pub open spec fn inside_any_class(f: FunctionView, classes: Seq<ClassView>) -> bool {
    exists|i: int| 0 <= i < classes.len() && inside_class(f, #[trigger] classes[i])
}

/// Whether `func` lies within one of `classes`, and so is one of its methods.
pub fn is_inside_class(func: &FunctionInfo, classes: &Vec<ClassInfo>) -> (inside: bool)
    ensures
        inside == inside_any_class(func@, classes.deep_view()),
{
    let mut i: usize = 0;
    while i < classes.len()
        invariant
            i <= classes.len(),
            forall|k: int| 0 <= k < i ==> !inside_class(func@, #[trigger] classes.deep_view()[k]),
        decreases classes.len() - i,
    {
        let class = &classes[i];
        if func.start_line >= class.start_line && func.end_line <= class.end_line {
            assert(inside_class(func@, classes.deep_view()[i as int]));
            return true;
        }
        i += 1;
    }
    false
}

/// Index just past the last line of a range that ends at the 1-based line
/// `end_line`, in a text of `n` lines: the range ends where the text does,
/// at the latest.
pub open spec fn span_end(n: nat, end_line: nat) -> int {
    if end_line < n {
        end_line as int
    } else {
        n as int
    }
}

/// Index of the first line of the 1-based inclusive range
/// `start_line..=end_line` in a text of `n` lines; a range that starts after
/// its end, or after the text, starts where it ends and holds no line.
pub open spec fn span_start(n: nat, start_line: nat, end_line: nat) -> int {
    let first = if start_line == 0 {
        0
    } else {
        start_line - 1
    };
    if first < span_end(n, end_line) {
        first
    } else {
        span_end(n, end_line)
    }
}

/// The chunk with the text `text` and the given line range and descriptors:
/// its token count is estimated from the text, and its dependencies are
/// scanned from it.
pub open spec fn chunk_with(
    text: Seq<char>,
    start_line: nat,
    end_line: nat,
    language: Seq<char>,
    functions: Seq<FunctionView>,
    classes: Seq<ClassView>,
    imports: Seq<ImportView>,
) -> ChunkView {
    ChunkView {
        text,
        start_line,
        end_line,
        tokens: token_estimate(text),
        language,
        functions,
        classes,
        imports,
        dependencies: dependencies_of(text),
    }
}

/// The chunk of the class `class`: exactly its own lines, with the class
/// and its methods.
pub open spec fn class_chunk(
    lines: Seq<Seq<char>>,
    language: Seq<char>,
    class: ClassView,
    imports: Seq<ImportView>,
) -> ChunkView {
    let from = span_start(lines.len(), class.start_line, class.end_line);
    let to = span_end(lines.len(), class.end_line);
    chunk_with(
        join_lines(lines.subrange(from, to)),
        class.start_line,
        class.end_line,
        language,
        class.methods,
        seq![class],
        imports,
    )
}

/// The chunk of the function `function`: its own lines and, above them, its
/// context.
pub open spec fn function_chunk(
    lines: Seq<Seq<char>>,
    language: Seq<char>,
    function: FunctionView,
    imports: Seq<ImportView>,
) -> ChunkView {
    let first = span_start(lines.len(), function.start_line, function.end_line);
    let from = context_start(lines, first);
    let to = span_end(lines.len(), function.end_line);
    chunk_with(
        join_lines(lines.subrange(from, to)),
        (from + 1) as nat,
        function.end_line,
        language,
        seq![function],
        Seq::empty(),
        imports,
    )
}

/// The chunk of the leftover lines with indices `from..to`.
pub open spec fn filler_chunk(
    lines: Seq<Seq<char>>,
    language: Seq<char>,
    imports: Seq<ImportView>,
    from: int,
    to: int,
) -> ChunkView {
    chunk_with(
        join_lines(lines.subrange(from, to)),
        (from + 1) as nat,
        to as nat,
        language,
        Seq::empty(),
        Seq::empty(),
        imports,
    )
}

/// Whether a chunk of leftover lines with the text `text` is worth keeping:
/// trimmed, it has at least `MIN_CHUNK_SIZE` characters.
pub open spec fn is_substantial(text: Seq<char>) -> bool {
    trimmed(text).len() >= MIN_CHUNK_SIZE
}

/// The chunks of the leftover lines `from..to`, cut into windows of `size`
/// lines (the last one may be shorter); windows without substance are left
/// out.
pub open spec fn window_chunks(
    lines: Seq<Seq<char>>,
    language: Seq<char>,
    imports: Seq<ImportView>,
    from: int,
    to: int,
    size: int,
) -> Seq<ChunkView>
    decreases to - from,
{
    if from >= to || size <= 0 {
        Seq::empty()
    } else {
        let stop = if to - from < size {
            to
        } else {
            from + size
        };
        let window = filler_chunk(lines, language, imports, from, stop);
        let rest = window_chunks(lines, language, imports, stop, to, size);
        if is_substantial(window.text) {
            seq![window] + rest
        } else {
            rest
        }
    }
}

/// The chunks of one run of leftover lines, `from..to`: none where the run
/// has fewer than `MIN_LINES_PER_CHUNK` lines, else windows of at most
/// `MAX_LINES_PER_CHUNK` lines.
pub open spec fn run_chunks(
    lines: Seq<Seq<char>>,
    language: Seq<char>,
    imports: Seq<ImportView>,
    from: int,
    to: int,
) -> Seq<ChunkView> {
    if to - from >= MIN_LINES_PER_CHUNK {
        let size = if to - from < MAX_LINES_PER_CHUNK {
            to - from
        } else {
            MAX_LINES_PER_CHUNK as int
        };
        window_chunks(lines, language, imports, from, to, size)
    } else {
        Seq::empty()
    }
}

/// Index of the first covered line at or after `from`; the length of the
/// record where there is none.
pub open spec fn run_end(covered: Seq<bool>, from: int) -> int
    decreases covered.len() - from,
{
    if from >= covered.len() {
        covered.len() as int
    } else if covered[from] {
        from
    } else {
        run_end(covered, from + 1)
    }
}

/// The chunks of the leftover lines at or after index `from`: each longest
/// run of uncovered lines is chunked by itself, in the order of the text.
pub open spec fn filler_chunks(
    lines: Seq<Seq<char>>,
    language: Seq<char>,
    imports: Seq<ImportView>,
    covered: Seq<bool>,
    from: int,
) -> Seq<ChunkView>
    decreases covered.len() - from,
{
    if 0 <= from < covered.len() {
        if covered[from] {
            filler_chunks(lines, language, imports, covered, from + 1)
        } else {
            proof {
                lemma_run_end_bounds(covered, from);
            }
            let to = run_end(covered, from);
            run_chunks(lines, language, imports, from, to) + filler_chunks(
                lines,
                language,
                imports,
                covered,
                to,
            )
        }
    } else {
        Seq::empty()
    }
}

/// A run of uncovered lines ends after it starts, and within the record.
pub proof fn lemma_run_end_bounds(covered: Seq<bool>, from: int)
    requires
        0 <= from <= covered.len(),
    ensures
        from <= run_end(covered, from) <= covered.len(),
        from < covered.len() && !covered[from] ==> from < run_end(covered, from),
        forall|i: int| from <= i < run_end(covered, from) ==> !covered[i],
        run_end(covered, from) < covered.len() ==> covered[run_end(covered, from)],
    decreases covered.len() - from,
{
    if from < covered.len() && !covered[from] {
        lemma_run_end_bounds(covered, from + 1);
    }
}

/// Builds the chunk with the text `text` and the given line range and
/// descriptors, under a fresh identifier.
fn chunk_from_text(
    text: &Vec<char>,
    start_line: usize,
    end_line: usize,
    language: &str,
    functions: Vec<FunctionInfo>,
    classes: Vec<ClassInfo>,
    imports: &Vec<ImportInfo>,
) -> (chunk: CodeChunk)
    ensures
        chunk@ == chunk_with(
            text@,
            start_line as nat,
            end_line as nat,
            language@,
            functions.deep_view(),
            classes.deep_view(),
            imports.deep_view(),
        ),
        is_chunk_id(chunk.id@),
{
    CodeChunk {
        id: new_chunk_id(),
        text: string_from_chars(text),
        start_line,
        end_line,
        tokens: tokens_for_len(text.len()),
        language: language.to_owned(),
        functions,
        classes,
        imports: copy_imports(imports),
        dependencies: dependencies_in(text),
    }
}

/// Index of the first line and just past the last line of the 1-based
/// inclusive range `start_line..=end_line` within `n` lines.
fn span_bounds(n: usize, start_line: usize, end_line: usize) -> (bounds: (usize, usize))
    ensures
        bounds.0 == span_start(n as nat, start_line as nat, end_line as nat),
        bounds.1 == span_end(n as nat, end_line as nat),
        bounds.0 <= bounds.1 <= n,
        bounds.0 < start_line || start_line == 0,
{
    let to: usize = if end_line < n {
        end_line
    } else {
        n
    };
    let first: usize = if start_line == 0 {
        0
    } else {
        start_line - 1
    };
    let from: usize = if first < to {
        first
    } else {
        to
    };
    (from, to)
}

/// Builds the chunk of a class: exactly its own lines.
pub fn create_class_chunk(
    class: &ClassInfo,
    lines: &SourceLines,
    language: &str,
    imports: &Vec<ImportInfo>,
) -> (chunk: CodeChunk)
    ensures
        chunk@ == class_chunk(lines@, language@, class@, imports.deep_view()),
        is_chunk_id(chunk.id@),
{
    let (from, to) = span_bounds(lines.len(), class.start_line, class.end_line);
    let text = lines.join_chars(from, to);
    let mut classes: Vec<ClassInfo> = Vec::new();
    classes.push(class.clone());
    proof {
        assert(classes.deep_view() =~= seq![class@]);
    }
    chunk_from_text(
        &text,
        class.start_line,
        class.end_line,
        language,
        copy_functions(&class.methods),
        classes,
        imports,
    )
}

/// Builds the chunk of a function: its own lines and the context above them.
pub fn create_function_chunk(
    func: &FunctionInfo,
    lines: &SourceLines,
    language: &str,
    imports: &Vec<ImportInfo>,
) -> (chunk: CodeChunk)
    ensures
        chunk@ == function_chunk(lines@, language@, func@, imports.deep_view()),
        is_chunk_id(chunk.id@),
{
    let (first, to) = span_bounds(lines.len(), func.start_line, func.end_line);
    let from = find_preceding_context(lines, first);
    let text = lines.join_chars(from, to);
    let mut functions: Vec<FunctionInfo> = Vec::new();
    functions.push(func.clone());
    let classes: Vec<ClassInfo> = Vec::new();
    proof {
        assert(functions.deep_view() =~= seq![func@]);
        assert(classes.deep_view() =~= Seq::<ClassView>::empty());
    }
    chunk_from_text(&text, from + 1, func.end_line, language, functions, classes, imports)
}

/// Builds the chunks of the leftover lines `from..to`, in windows of `size`
/// lines.
fn create_window_chunks(
    lines: &SourceLines,
    language: &str,
    imports: &Vec<ImportInfo>,
    from: usize,
    to: usize,
    size: usize,
) -> (chunks: Vec<CodeChunk>)
    requires
        from <= to <= lines@.len(),
        size > 0,
    ensures
        chunks.deep_view() == window_chunks(
            lines@,
            language@,
            imports.deep_view(),
            from as int,
            to as int,
            size as int,
        ),
        forall|k: int| 0 <= k < chunks.len() ==> is_chunk_id(#[trigger] chunks@[k].id@),
{
    let mut chunks: Vec<CodeChunk> = Vec::new();
    let mut i: usize = from;
    let ghost all = window_chunks(
        lines@,
        language@,
        imports.deep_view(),
        from as int,
        to as int,
        size as int,
    );
    assert(chunks.deep_view() =~= Seq::<ChunkView>::empty());
    while i < to
        invariant
            from <= i <= to <= lines@.len(),
            size > 0,
            all == chunks.deep_view() + window_chunks(
                lines@,
                language@,
                imports.deep_view(),
                i as int,
                to as int,
                size as int,
            ),
            forall|k: int| 0 <= k < chunks.len() ==> is_chunk_id(#[trigger] chunks@[k].id@),
        decreases to - i,
    {
        let stop: usize = if to - i < size {
            to
        } else {
            i + size
        };
        let text = lines.join_chars(i, stop);
        let (first, last) = trim_bounds(&text);
        if last - first >= MIN_CHUNK_SIZE {
            let ghost before = chunks.deep_view();
            let functions: Vec<FunctionInfo> = Vec::new();
            let classes: Vec<ClassInfo> = Vec::new();
            proof {
                assert(functions.deep_view() =~= Seq::<FunctionView>::empty());
                assert(classes.deep_view() =~= Seq::<ClassView>::empty());
            }
            let chunk = chunk_from_text(&text, i + 1, stop, language, functions, classes, imports);
            chunks.push(chunk);
            proof {
                assert(chunks.deep_view() =~= before.push(chunk@));
            }
        }
        i = stop;
    }
    chunks
}

/// Builds the chunks of the lines that no class or function claimed.
pub fn create_uncovered_chunks(
    covered: &Vec<bool>,
    lines: &SourceLines,
    language: &str,
    imports: &Vec<ImportInfo>,
) -> (chunks: Vec<CodeChunk>)
    requires
        covered.len() == lines@.len(),
    ensures
        chunks.deep_view() == filler_chunks(lines@, language@, imports.deep_view(), covered@, 0),
        forall|k: int| 0 <= k < chunks.len() ==> is_chunk_id(#[trigger] chunks@[k].id@),
{
    let n: usize = covered.len();
    let mut chunks: Vec<CodeChunk> = Vec::new();
    let mut start_idx: usize = 0;
    let ghost all = filler_chunks(lines@, language@, imports.deep_view(), covered@, 0);
    assert(chunks.deep_view() =~= Seq::<ChunkView>::empty());
    while start_idx < n
        invariant
            n == covered.len(),
            n == lines@.len(),
            start_idx <= n,
            all == chunks.deep_view() + filler_chunks(
                lines@,
                language@,
                imports.deep_view(),
                covered@,
                start_idx as int,
            ),
            forall|k: int| 0 <= k < chunks.len() ==> is_chunk_id(#[trigger] chunks@[k].id@),
        decreases n - start_idx,
    {
        if covered[start_idx] {
            start_idx += 1;
        } else {
            let mut end_idx: usize = start_idx;
            while end_idx < n && !covered[end_idx]
                invariant
                    n == covered.len(),
                    start_idx <= end_idx <= n,
                    run_end(covered@, start_idx as int) == run_end(covered@, end_idx as int),
                decreases n - end_idx,
            {
                end_idx += 1;
            }
            let lines_count: usize = end_idx - start_idx;
            if lines_count >= MIN_LINES_PER_CHUNK {
                let chunk_size: usize = if lines_count < MAX_LINES_PER_CHUNK {
                    lines_count
                } else {
                    MAX_LINES_PER_CHUNK
                };
                let mut windows = create_window_chunks(
                    lines,
                    language,
                    imports,
                    start_idx,
                    end_idx,
                    chunk_size,
                );
                let ghost done = chunks.deep_view();
                let ghost run = windows.deep_view();
                chunks.append(&mut windows);
                proof {
                    assert(chunks.deep_view() =~= done + run);
                }
            }
            start_idx = end_idx;
        }
    }
    chunks
}

/// Whether one of the first `upto` classes holds the line with index `idx`.
pub open spec fn class_claims(classes: Seq<ClassView>, upto: int, idx: int) -> bool {
    exists|c: int|
        0 <= c < upto && covers((#[trigger] classes[c]).start_line, classes[c].end_line, idx)
}

/// Whether one of the first `upto` functions stands outside every class and
/// holds the line with index `idx`.
pub open spec fn function_claims(
    functions: Seq<FunctionView>,
    classes: Seq<ClassView>,
    upto: int,
    idx: int,
) -> bool {
    exists|f: int|
        0 <= f < upto && !inside_any_class(#[trigger] functions[f], classes) && covers(
            functions[f].start_line,
            functions[f].end_line,
            idx,
        )
}

/// The coverage record of a text of `n` lines once every class and every
/// function outside the classes has claimed its own lines.
pub open spec fn coverage(n: nat, functions: Seq<FunctionView>, classes: Seq<ClassView>) -> Seq<
    bool,
> {
    Seq::new(
        n,
        |idx: int|
            class_claims(classes, classes.len() as int, idx) || function_claims(
                functions,
                classes,
                functions.len() as int,
                idx,
            ),
    )
}

/// The test that a function stands outside every one of `classes`.
pub open spec fn outside(classes: Seq<ClassView>) -> spec_fn(FunctionView) -> bool {
    |f: FunctionView| !inside_any_class(f, classes)
}

/// The functions among `functions` that stand outside every class, in
/// their order.
pub open spec fn standalone(functions: Seq<FunctionView>, classes: Seq<ClassView>) -> Seq<
    FunctionView,
> {
    functions.filter(outside(classes))
}

/// The chunks of the classes, one for each in their order.
pub open spec fn class_chunks(
    lines: Seq<Seq<char>>,
    language: Seq<char>,
    classes: Seq<ClassView>,
    imports: Seq<ImportView>,
) -> Seq<ChunkView> {
    Seq::new(classes.len(), |i: int| class_chunk(lines, language, classes[i], imports))
}

/// The chunks of the functions `functions`, one for each in their order.
pub open spec fn function_chunks(
    lines: Seq<Seq<char>>,
    language: Seq<char>,
    functions: Seq<FunctionView>,
    imports: Seq<ImportView>,
) -> Seq<ChunkView> {
    Seq::new(functions.len(), |i: int| function_chunk(lines, language, functions[i], imports))
}

/// The chunks of the source text `source` in which `found` was found: first
/// one chunk for each class, then one for each function that is no method
/// of a class, then the chunks of the lines that none of them claimed.
pub open spec fn assemble(source: Seq<char>, language: Seq<char>, found: ExtractionView) -> Seq<
    ChunkView,
> {
    let lines = lines_of(source);
    class_chunks(lines, language, found.classes, found.imports) + function_chunks(
        lines,
        language,
        standalone(found.functions, found.classes),
        found.imports,
    ) + filler_chunks(
        lines,
        language,
        found.imports,
        coverage(lines.len(), found.functions, found.classes),
        0,
    )
}

/// Chunks the source text `source`, in which a structural extractor found
/// `found`, into semantic units: one chunk for each class, one for each
/// function outside the classes, and windows over the remaining lines, in
/// that order. Descriptors that reach beyond the text are cut to it; no
/// input is refused.
pub fn chunk_code(found: &Extraction, source: &str, language: &str) -> (chunks: Vec<CodeChunk>)
    ensures
        chunks.deep_view() == assemble(source@, language@, found@),
        forall|i: int| 0 <= i < chunks.len() ==> is_chunk_id(#[trigger] chunks@[i].id@),
        found@.fits(lines_of(source@).len()) ==> all_well_formed(chunks.deep_view()),
        source@.len() == 0 && found.classes.len() == 0 && found.functions.len() == 0
            ==> chunks.len() == 0,
{
    let lines = SourceLines::parse(source);
    let n: usize = lines.len();
    let ghost classes = found.classes.deep_view();
    let ghost functions = found.functions.deep_view();
    let ghost imports = found.imports.deep_view();

    let mut covered: Vec<bool> = Vec::new();
    while covered.len() < n
        invariant
            covered.len() <= n,
            forall|k: int| 0 <= k < covered.len() ==> !covered@[k],
        decreases n - covered.len(),
    {
        covered.push(false);
    }

    let mut chunks: Vec<CodeChunk> = Vec::new();
    let mut c: usize = 0;
    while c < found.classes.len()
        invariant
            n == lines@.len(),
            covered.len() == n,
            classes == found.classes.deep_view(),
            imports == found.imports.deep_view(),
            c <= found.classes.len(),
            chunks.len() == c,
            forall|i: int|
                0 <= i < c ==> (#[trigger] chunks@[i])@ == class_chunk(
                    lines@,
                    language@,
                    classes[i],
                    imports,
                ),
            forall|k: int| 0 <= k < n ==> covered@[k] == class_claims(classes, c as int, k),
            forall|i: int| 0 <= i < chunks.len() ==> is_chunk_id(#[trigger] chunks@[i].id@),
        decreases found.classes.len() - c,
    {
        let class = &found.classes[c];
        let chunk = create_class_chunk(class, &lines, language, &found.imports);
        mark_lines_covered(&mut covered, chunk.start_line, chunk.end_line);
        chunks.push(chunk);
        proof {
            assert(classes[c as int] == class@);
            assert forall|k: int| 0 <= k < n implies covered@[k] == class_claims(
                classes,
                c + 1,
                k,
            ) by {
                lemma_class_claims_step(classes, c as int, k);
            }
        }
        c += 1;
    }
    proof {
        assert(chunks.deep_view() =~= class_chunks(lines@, language@, classes, imports));
    }

    let ghost class_part = chunks.deep_view();
    let mut f: usize = 0;
    proof {
        reveal(Seq::filter);
        assert(functions.subrange(0, 0) =~= Seq::<FunctionView>::empty());
        assert(class_part + function_chunks(
            lines@,
            language@,
            standalone(functions.subrange(0, 0), classes),
            imports,
        ) =~= class_part);
    }
    while f < found.functions.len()
        invariant
            n == lines@.len(),
            covered.len() == n,
            classes == found.classes.deep_view(),
            functions == found.functions.deep_view(),
            imports == found.imports.deep_view(),
            f <= found.functions.len(),
            chunks.deep_view() == class_part + function_chunks(
                lines@,
                language@,
                standalone(functions.subrange(0, f as int), classes),
                imports,
            ),
            forall|k: int|
                0 <= k < n ==> covered@[k] == (class_claims(classes, classes.len() as int, k)
                    || function_claims(functions, classes, f as int, k)),
            forall|i: int| 0 <= i < chunks.len() ==> is_chunk_id(#[trigger] chunks@[i].id@),
        decreases found.functions.len() - f,
    {
        let func = &found.functions[f];
        let ghost before = chunks.deep_view();
        let ghost seen = functions.subrange(0, f as int);
        proof {
            assert(functions[f as int] == func@);
            assert(functions.subrange(0, f + 1) =~= seen.push(func@));
            seen.lemma_filter_push(func@, outside(classes));
        }
        if !is_inside_class(func, &found.classes) {
            let chunk = create_function_chunk(func, &lines, language, &found.imports);
            mark_lines_covered(&mut covered, func.start_line, func.end_line);
            chunks.push(chunk);
            proof {
                assert(chunks.deep_view() =~= before.push(chunk@));
                assert(function_chunks(
                    lines@,
                    language@,
                    standalone(seen, classes).push(func@),
                    imports,
                ) =~= function_chunks(lines@, language@, standalone(seen, classes), imports).push(
                    chunk@,
                ));
            }
        }
        proof {
            assert forall|k: int| 0 <= k < n implies covered@[k] == (class_claims(
                classes,
                classes.len() as int,
                k,
            ) || function_claims(functions, classes, f + 1, k)) by {
                lemma_function_claims_step(functions, classes, f as int, k);
            }
        }
        f += 1;
    }

    let mut filler = create_uncovered_chunks(&covered, &lines, language, &found.imports);
    proof {
        assert(functions.subrange(0, functions.len() as int) =~= functions);
        assert(covered@ =~= coverage(n as nat, functions, classes));
    }
    let ghost structural = chunks.deep_view();
    let ghost leftover = filler.deep_view();
    chunks.append(&mut filler);
    proof {
        assert(chunks.deep_view() =~= structural + leftover);
        if found@.fits(lines_of(source@).len()) {
            lemma_assembled_chunks_are_well_formed(source@, language@, found@);
        }
        if source@.len() == 0 && found.classes.len() == 0 && found.functions.len() == 0 {
            lemma_short_text_without_constructs_has_no_chunk(source@, language@, found@);
        }
    }
    chunks
}

/// The lines that the first `upto + 1` classes claim are those that the
/// first `upto` claim and those of the class with index `upto`.
proof fn lemma_class_claims_step(classes: Seq<ClassView>, upto: int, idx: int)
    requires
        0 <= upto < classes.len(),
    ensures
        class_claims(classes, upto + 1, idx) == (class_claims(classes, upto, idx) || covers(
            classes[upto].start_line,
            classes[upto].end_line,
            idx,
        )),
{
    if class_claims(classes, upto + 1, idx) {
        let c = choose|c: int|
            0 <= c < upto + 1 && covers(
                (#[trigger] classes[c]).start_line,
                classes[c].end_line,
                idx,
            );
        if c < upto {
            assert(class_claims(classes, upto, idx));
        }
    }
    if class_claims(classes, upto, idx) {
        let c = choose|c: int|
            0 <= c < upto && covers((#[trigger] classes[c]).start_line, classes[c].end_line, idx);
        assert(0 <= c < upto + 1);
    }
    if covers(classes[upto].start_line, classes[upto].end_line, idx) {
        assert(0 <= upto < upto + 1);
    }
}

/// The lines that the first `upto + 1` functions claim are those that the
/// first `upto` claim and, where it stands outside every class, those of
/// the function with index `upto`.
proof fn lemma_function_claims_step(
    functions: Seq<FunctionView>,
    classes: Seq<ClassView>,
    upto: int,
    idx: int,
)
    requires
        0 <= upto < functions.len(),
    ensures
        function_claims(functions, classes, upto + 1, idx) == (function_claims(
            functions,
            classes,
            upto,
            idx,
        ) || (!inside_any_class(functions[upto], classes) && covers(
            functions[upto].start_line,
            functions[upto].end_line,
            idx,
        ))),
{
    if function_claims(functions, classes, upto + 1, idx) {
        let f = choose|f: int|
            0 <= f < upto + 1 && !inside_any_class(#[trigger] functions[f], classes) && covers(
                functions[f].start_line,
                functions[f].end_line,
                idx,
            );
        if f < upto {
            assert(function_claims(functions, classes, upto, idx));
        }
    }
    if function_claims(functions, classes, upto, idx) {
        let f = choose|f: int|
            0 <= f < upto && !inside_any_class(#[trigger] functions[f], classes) && covers(
                functions[f].start_line,
                functions[f].end_line,
                idx,
            );
        assert(0 <= f < upto + 1);
    }
    if !inside_any_class(functions[upto], classes) && covers(
        functions[upto].start_line,
        functions[upto].end_line,
        idx,
    ) {
        assert(0 <= upto < upto + 1);
    }
}

} // verus!
