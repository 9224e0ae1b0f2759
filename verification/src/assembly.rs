//! What holds of the chunks of every source text.

use crate::chunker::{
    assemble, class_chunk, class_chunks, class_claims, context_run, context_start, coverage,
    covers, filler_chunk, filler_chunks, function_chunk, function_chunks, inside_any_class,
    inside_class, is_context_line, is_substantial, lemma_run_end_bounds, outside, run_end,
    span_end, span_start, standalone, window_chunks, CONTEXT_LOOKBACK, MAX_LINES_PER_CHUNK,
    MIN_LINES_PER_CHUNK,
};
use crate::lines::{
    are_single_lines, is_single_line, join_lines, lemma_join_holds_run, lemma_lines_are_single,
    lemma_lines_of_join_len, lines_of,
};
use crate::text::occurs_in;
use crate::types::{all_well_formed, ChunkView, ExtractionView, ImportView};
use vstd::prelude::*;

verus! {

/// The number of structural chunks of `found`: one for each class and one
/// for each function outside the classes. In the result of assembly they
/// come first.
pub open spec fn structural_count(found: ExtractionView) -> nat {
    found.classes.len() + standalone(found.functions, found.classes).len()
}

/// Whether both 1-based inclusive line ranges hold one and the same line.
pub open spec fn share_a_line(a: (nat, nat), b: (nat, nat)) -> bool {
    exists|idx: int| 0 <= idx && covers(a.0, a.1, idx) && covers(b.0, b.1, idx)
}

/// The lines that the structural chunk `chunk` claims in the coverage
/// record: those of its class or, without one, those of its function. The
/// context above a function is part of its chunk, and not claimed.
pub open spec fn claimed_lines(chunk: ChunkView) -> (nat, nat) {
    if chunk.classes.len() > 0 {
        (chunk.classes[0].start_line, chunk.classes[0].end_line)
    } else {
        (chunk.functions[0].start_line, chunk.functions[0].end_line)
    }
}

/// Whether `chunk` holds lines of the record `covered`, at least one, and
/// none that is covered.
pub open spec fn holds_unclaimed_lines(chunk: ChunkView, covered: Seq<bool>) -> bool {
    &&& 1 <= chunk.start_line <= chunk.end_line <= covered.len()
    &&& forall|idx: int| chunk.start_line - 1 <= idx < chunk.end_line ==> !covered[idx]
}

/// Whether `chunk` is a window over leftover lines: the chunk of the lines
/// `from..to`, at least one and none of them covered.
pub open spec fn is_window(
    chunk: ChunkView,
    lines: Seq<Seq<char>>,
    language: Seq<char>,
    imports: Seq<ImportView>,
    covered: Seq<bool>,
) -> bool {
    exists|from: int, to: int|
        0 <= from < to <= covered.len() && chunk == #[trigger] filler_chunk(
            lines,
            language,
            imports,
            from,
            to,
        ) && forall|idx: int| from <= idx < to ==> !covered[idx]
}

/// Whether each of `chunks` is a window over leftover lines.
pub open spec fn are_windows(
    chunks: Seq<ChunkView>,
    lines: Seq<Seq<char>>,
    language: Seq<char>,
    imports: Seq<ImportView>,
    covered: Seq<bool>,
) -> bool {
    forall|k: int|
        0 <= k < chunks.len() ==> is_window(#[trigger] chunks[k], lines, language, imports, covered)
}

/// The chunks of a run of uncovered lines are windows over leftover lines.
proof fn lemma_window_chunks_are_windows(
    lines: Seq<Seq<char>>,
    language: Seq<char>,
    imports: Seq<ImportView>,
    covered: Seq<bool>,
    from: int,
    to: int,
    size: int,
)
    requires
        0 <= from <= to <= covered.len(),
        forall|idx: int| from <= idx < to ==> !covered[idx],
    ensures
        are_windows(
            window_chunks(lines, language, imports, from, to, size),
            lines,
            language,
            imports,
            covered,
        ),
    decreases to - from,
{
    if from < to && size > 0 {
        let stop = if to - from < size {
            to
        } else {
            from + size
        };
        let window = filler_chunk(lines, language, imports, from, stop);
        let rest = window_chunks(lines, language, imports, stop, to, size);
        let all = window_chunks(lines, language, imports, from, to, size);
        lemma_window_chunks_are_windows(lines, language, imports, covered, stop, to, size);
        assert(is_window(window, lines, language, imports, covered));
        assert forall|k: int| 0 <= k < all.len() implies is_window(
            #[trigger] all[k],
            lines,
            language,
            imports,
            covered,
        ) by {
            if is_substantial(window.text) {
                if k > 0 {
                    assert(all[k] == rest[k - 1]);
                }
            }
        }
    }
}

/// The chunks of the leftover lines are windows over leftover lines.
proof fn lemma_filler_chunks_are_windows(
    lines: Seq<Seq<char>>,
    language: Seq<char>,
    imports: Seq<ImportView>,
    covered: Seq<bool>,
    from: int,
)
    requires
        0 <= from,
    ensures
        are_windows(
            filler_chunks(lines, language, imports, covered, from),
            lines,
            language,
            imports,
            covered,
        ),
    decreases covered.len() - from,
{
    if from < covered.len() {
        if covered[from] {
            lemma_filler_chunks_are_windows(lines, language, imports, covered, from + 1);
        } else {
            lemma_run_end_bounds(covered, from);
            let to = run_end(covered, from);
            let size = if to - from < MAX_LINES_PER_CHUNK {
                to - from
            } else {
                MAX_LINES_PER_CHUNK as int
            };
            let windows = window_chunks(lines, language, imports, from, to, size);
            let rest = filler_chunks(lines, language, imports, covered, to);
            let all = filler_chunks(lines, language, imports, covered, from);
            lemma_window_chunks_are_windows(lines, language, imports, covered, from, to, size);
            lemma_filler_chunks_are_windows(lines, language, imports, covered, to);
            assert forall|k: int| 0 <= k < all.len() implies is_window(
                #[trigger] all[k],
                lines,
                language,
                imports,
                covered,
            ) by {
                if to - from >= MIN_LINES_PER_CHUNK && k < windows.len() {
                    assert(all[k] == windows[k]);
                } else if to - from >= MIN_LINES_PER_CHUNK {
                    assert(all[k] == rest[k - windows.len()]);
                } else {
                    assert(all[k] == rest[k]);
                }
            }
        }
    }
}

/// Two places in a filtered sequence come from two places of the sequence
/// in the same order.
proof fn lemma_filter_keeps_order<A>(s: Seq<A>, pred: spec_fn(A) -> bool, p: int, q: int)
    requires
        0 <= p <= q < s.filter(pred).len(),
    ensures
        exists|i: int, j: int|
            0 <= i <= j < s.len() && (p < q ==> i < j) && #[trigger] s[i] == s.filter(pred)[p]
                && #[trigger] s[j] == s.filter(pred)[q] && pred(s[i]) && pred(s[j]),
    decreases s.len(),
{
    reveal(Seq::filter);
    let kept = s.filter(pred);
    if s.len() > 0 {
        let front = s.drop_last();
        let front_kept = front.filter(pred);
        if pred(s.last()) && q == kept.len() - 1 {
            let j = s.len() - 1;
            if p == q {
                assert(s[j] == kept[p] && s[j] == kept[q]);
            } else {
                lemma_filter_keeps_order(front, pred, p, p);
                let (i, i2) = choose|i: int, i2: int|
                    0 <= i <= i2 < front.len() && (p < p ==> i < i2) && #[trigger] front[i]
                        == front_kept[p] && #[trigger] front[i2] == front_kept[p] && pred(front[i])
                        && pred(front[i2]);
                assert(s[i] == kept[p] && s[j] == kept[q]);
            }
        } else {
            lemma_filter_keeps_order(front, pred, p, q);
            let (i, j) = choose|i: int, j: int|
                0 <= i <= j < front.len() && (p < q ==> i < j) && #[trigger] front[i]
                    == front_kept[p] && #[trigger] front[j] == front_kept[q] && pred(front[i])
                    && pred(front[j]);
            assert(s[i] == kept[p] && s[j] == kept[q]);
        }
    }
}

/// What stands at each place of the chunks of a source: the chunks of the
/// classes in their order, then the chunks of the functions outside the
/// classes in their order, then windows over leftover lines.
pub proof fn lemma_chunk_places(source: Seq<char>, language: Seq<char>, found: ExtractionView)
    ensures
        ({
            let lines = lines_of(source);
            let chunks = assemble(source, language, found);
            let alone = standalone(found.functions, found.classes);
            let covered = coverage(lines.len(), found.functions, found.classes);
            let classes = found.classes.len();
            &&& structural_count(found) <= chunks.len()
            &&& forall|k: int|
                0 <= k < classes ==> #[trigger] chunks[k] == class_chunk(
                    lines,
                    language,
                    found.classes[k],
                    found.imports,
                )
            &&& forall|k: int|
                classes <= k < structural_count(found) ==> #[trigger] chunks[k] == function_chunk(
                    lines,
                    language,
                    alone[k - classes],
                    found.imports,
                )
            &&& forall|k: int|
                structural_count(found) <= k < chunks.len() ==> is_window(
                    #[trigger] chunks[k],
                    lines,
                    language,
                    found.imports,
                    covered,
                )
        }),
{
    let lines = lines_of(source);
    let chunks = assemble(source, language, found);
    let alone = standalone(found.functions, found.classes);
    let covered = coverage(lines.len(), found.functions, found.classes);
    let first = class_chunks(lines, language, found.classes, found.imports);
    let second = function_chunks(lines, language, alone, found.imports);
    let third = filler_chunks(lines, language, found.imports, covered, 0);
    lemma_filler_chunks_are_windows(lines, language, found.imports, covered, 0);
    assert forall|k: int| 0 <= k < first.len() implies #[trigger] chunks[k] == class_chunk(
        lines,
        language,
        found.classes[k],
        found.imports,
    ) by {
        assert(chunks[k] == first[k]);
    }
    assert forall|k: int|
        first.len() <= k < first.len() + second.len() implies #[trigger] chunks[k]
        == function_chunk(lines, language, alone[k - first.len()], found.imports) by {
        assert(chunks[k] == second[k - first.len()]);
    }
    assert forall|k: int| first.len() + second.len() <= k < chunks.len() implies is_window(
        #[trigger] chunks[k],
        lines,
        language,
        found.imports,
        covered,
    ) by {
        assert(chunks[k] == third[k - first.len() - second.len()]);
    }
}

/// The function behind a structural chunk that is no chunk of a class is
/// one of the functions that were found, and stands outside every class.
pub proof fn lemma_function_chunk_origin(found: ExtractionView, k: int) -> (f: int)
    requires
        found.classes.len() <= k < structural_count(found),
    ensures
        0 <= f < found.functions.len(),
        found.functions[f] == standalone(found.functions, found.classes)[k - found.classes.len()],
        !inside_any_class(found.functions[f], found.classes),
{
    let p = k - found.classes.len();
    let alone = standalone(found.functions, found.classes);
    lemma_filter_keeps_order(found.functions, outside(found.classes), p, p);
    let (f, f2) = choose|f: int, f2: int|
        0 <= f <= f2 < found.functions.len() && #[trigger] found.functions[f] == alone[p]
            && #[trigger] found.functions[f2] == alone[p] && (outside(found.classes))(
            found.functions[f],
        ) && (outside(found.classes))(found.functions[f2]);
    f
}

/// The context of a construct begins at or after the top of the text, at
/// most `limit` lines above the construct.
pub proof fn lemma_context_run_bounds(lines: Seq<Seq<char>>, start_idx: int, limit: nat)
    requires
        0 <= start_idx,
    ensures
        context_run(lines, start_idx, limit) <= start_idx,
        context_run(lines, start_idx, limit) <= limit,
    decreases limit,
{
    if limit > 0 && start_idx > 0 && is_context_line(lines[start_idx - 1]) {
        lemma_context_run_bounds(lines, start_idx - 1, (limit - 1) as nat);
    }
}

/// The text of a run of lines of a text has no more lines than the run.
proof fn lemma_run_text_len(lines: Seq<Seq<char>>, from: int, to: int)
    requires
        are_single_lines(lines),
        0 <= from <= to <= lines.len(),
    ensures
        lines_of(join_lines(lines.subrange(from, to))).len() <= to - from,
{
    let held = lines.subrange(from, to);
    assert forall|i: int| 0 <= i < held.len() implies is_single_line(#[trigger] held[i]) by {
        assert(held[i] == lines[from + i]);
    }
    lemma_lines_of_join_len(held);
}

/// The text of every function that names lines of the source occurs in the
/// text of a chunk, and with it the first line of the function, which holds
/// its signature: in the chunk of a class that holds the function, or else
/// in the chunk of the function itself.
pub proof fn lemma_every_function_is_chunked(
    source: Seq<char>,
    language: Seq<char>,
    found: ExtractionView,
    f: int,
)
    requires
        0 <= f < found.functions.len(),
        found.functions[f].fits(lines_of(source).len()),
    ensures
        ({
            let chunks = assemble(source, language, found);
            let lines = lines_of(source);
            let function = found.functions[f];
            exists|k: int|
                0 <= k < chunks.len() && occurs_in(
                    lines[function.start_line - 1],
                    (#[trigger] chunks[k]).text,
                ) && occurs_in(
                    join_lines(lines.subrange(function.start_line - 1, function.end_line as int)),
                    chunks[k].text,
                )
        }),
{
    let lines = lines_of(source);
    let n = lines.len();
    let chunks = assemble(source, language, found);
    let function = found.functions[f];
    let alone = standalone(found.functions, found.classes);
    let a = function.start_line - 1;
    let b = function.end_line as int;
    lemma_chunk_places(source, language, found);
    assert(join_lines(lines.subrange(a, a + 1)) == lines[a]) by {
        assert(lines.subrange(a, a + 1) =~= seq![lines[a]]);
    }
    if inside_any_class(function, found.classes) {
        let c = choose|c: int|
            0 <= c < found.classes.len() && inside_class(function, #[trigger] found.classes[c]);
        let class = found.classes[c];
        let from = span_start(n, class.start_line, class.end_line);
        let to = span_end(n, class.end_line);
        lemma_join_holds_run(lines, from, to, a, b);
        lemma_join_holds_run(lines, from, to, a, a + 1);
        assert(occurs_in(lines[a], chunks[c].text));
    } else {
        found.functions.lemma_filter_contains(outside(found.classes), f);
        let p = choose|p: int| 0 <= p < alone.len() && alone[p] == function;
        let k = found.classes.len() + p;
        let from = context_start(lines, a);
        lemma_context_run_bounds(lines, a, CONTEXT_LOOKBACK as nat);
        lemma_join_holds_run(lines, from, b, a, b);
        lemma_join_holds_run(lines, from, b, a, a + 1);
        assert(occurs_in(lines[a], chunks[k].text));
    }
}

/// Every class has a chunk of its own. The chunk at the place of the class
/// spans the lines of the class, from its first to its last, and holds that
/// class and its methods; and a chunk holds a class only at the place of
/// one.
pub proof fn lemma_each_class_has_its_chunk(
    source: Seq<char>,
    language: Seq<char>,
    found: ExtractionView,
    c: int,
)
    requires
        0 <= c < found.classes.len(),
    ensures
        ({
            let chunks = assemble(source, language, found);
            &&& found.classes.len() <= chunks.len()
            &&& chunks[c].start_line == found.classes[c].start_line
            &&& chunks[c].end_line == found.classes[c].end_line
            &&& chunks[c].classes == seq![found.classes[c]]
            &&& chunks[c].functions == found.classes[c].methods
            &&& forall|k: int|
                0 <= k < chunks.len() ==> ((#[trigger] chunks[k]).classes.len() > 0 <==> k
                    < found.classes.len())
        }),
{
    lemma_chunk_places(source, language, found);
}

/// Only the chunk of a class spans the lines of a class: where functions
/// start at line 1 or later, a chunk with the line range of a class stands
/// at the place of a class with that range. So a class whose line range no
/// other class has is the only class, and its chunk the only chunk, with
/// that range.
pub proof fn lemma_only_class_chunks_span_a_class(
    source: Seq<char>,
    language: Seq<char>,
    found: ExtractionView,
    c: int,
    k: int,
)
    requires
        0 <= c < found.classes.len(),
        forall|f: int|
            0 <= f < found.functions.len() ==> 1 <= (#[trigger] found.functions[f]).start_line,
        0 <= k < assemble(source, language, found).len(),
        assemble(source, language, found)[k].start_line == found.classes[c].start_line,
        assemble(source, language, found)[k].end_line == found.classes[c].end_line,
    ensures
        k < found.classes.len(),
        found.classes[k].start_line == found.classes[c].start_line,
        found.classes[k].end_line == found.classes[c].end_line,
{
    let lines = lines_of(source);
    let n = lines.len();
    let chunks = assemble(source, language, found);
    let class = found.classes[c];
    lemma_chunk_places(source, language, found);
    if found.classes.len() <= k < structural_count(found) {
        let f = lemma_function_chunk_origin(found, k);
        let function = found.functions[f];
        let start = span_start(n, function.start_line, function.end_line);
        lemma_context_run_bounds(lines, start, CONTEXT_LOOKBACK as nat);
        assert(inside_class(function, found.classes[c]));
    } else if structural_count(found) <= k {
        let covered = coverage(n, found.functions, found.classes);
        let (from, to) = choose|from: int, to: int|
            0 <= from < to <= covered.len() && chunks[k] == #[trigger] filler_chunk(
                lines,
                language,
                found.imports,
                from,
                to,
            ) && forall|idx: int| from <= idx < to ==> !covered[idx];
        assert(covers(found.classes[c].start_line, found.classes[c].end_line, from));
        assert(class_claims(found.classes, found.classes.len() as int, from));
        assert(covered[from]);
    }
}

/// A function within the lines of a class has no chunk of its own: no chunk
/// but those of the classes holds it.
pub proof fn lemma_methods_have_no_chunk(
    source: Seq<char>,
    language: Seq<char>,
    found: ExtractionView,
    f: int,
)
    requires
        0 <= f < found.functions.len(),
        inside_any_class(found.functions[f], found.classes),
    ensures
        ({
            let chunks = assemble(source, language, found);
            forall|k: int|
                found.classes.len() <= k < chunks.len() ==> !(#[trigger] chunks[k]).functions.contains(
                    found.functions[f],
                )
        }),
{
    let chunks = assemble(source, language, found);
    lemma_chunk_places(source, language, found);
    assert forall|k: int| found.classes.len() <= k < chunks.len() implies !(
    #[trigger] chunks[k]).functions.contains(found.functions[f]) by {
        if chunks[k].functions.contains(found.functions[f]) {
            let i = choose|i: int|
                0 <= i < chunks[k].functions.len() && chunks[k].functions[i] == found.functions[f];
            if k < structural_count(found) {
                let origin = lemma_function_chunk_origin(found, k);
                assert(chunks[k].functions[0] == found.functions[origin]);
            }
        }
    }
}

/// No two structural chunks claim one and the same line, where no two of
/// the constructs behind them do: where no two classes share a line, no
/// class shares one with a function outside the classes, and no two
/// functions outside the classes share one. Functions within a class may
/// share its lines: they have no chunk.
pub proof fn lemma_structural_chunks_share_no_line(
    source: Seq<char>,
    language: Seq<char>,
    found: ExtractionView,
    a: int,
    b: int,
)
    requires
        forall|i: int, j: int|
            0 <= i < j < found.classes.len() ==> !share_a_line(
                (#[trigger] found.classes[i].start_line, found.classes[i].end_line),
                (#[trigger] found.classes[j].start_line, found.classes[j].end_line),
            ),
        forall|i: int, j: int|
            0 <= i < found.classes.len() && 0 <= j < found.functions.len() && !inside_any_class(
                found.functions[j],
                found.classes,
            ) ==> !share_a_line(
                (#[trigger] found.classes[i].start_line, found.classes[i].end_line),
                (#[trigger] found.functions[j].start_line, found.functions[j].end_line),
            ),
        forall|i: int, j: int|
            0 <= i < j < found.functions.len() && !inside_any_class(
                found.functions[i],
                found.classes,
            ) && !inside_any_class(found.functions[j], found.classes) ==> !share_a_line(
                (#[trigger] found.functions[i].start_line, found.functions[i].end_line),
                (#[trigger] found.functions[j].start_line, found.functions[j].end_line),
            ),
        0 <= a < b < structural_count(found),
    ensures
        ({
            let chunks = assemble(source, language, found);
            &&& structural_count(found) <= chunks.len()
            &&& !share_a_line(claimed_lines(chunks[a]), claimed_lines(chunks[b]))
        }),
{
    let alone = standalone(found.functions, found.classes);
    let classes = found.classes.len() as int;
    lemma_chunk_places(source, language, found);
    if b < classes {
    } else if a < classes {
        let j = lemma_function_chunk_origin(found, b);
        assert(!share_a_line(
            (found.classes[a].start_line, found.classes[a].end_line),
            (found.functions[j].start_line, found.functions[j].end_line),
        ));
    } else {
        let p = a - classes;
        let q = b - classes;
        lemma_filter_keeps_order(found.functions, outside(found.classes), p, q);
        let (i, j) = choose|i: int, j: int|
            0 <= i <= j < found.functions.len() && (p < q ==> i < j) && #[trigger] found.functions[i]
                == alone[p] && #[trigger] found.functions[j] == alone[q] && (outside(
                found.classes,
            ))(found.functions[i]) && (outside(found.classes))(found.functions[j]);
        assert(!share_a_line(
            (found.functions[i].start_line, found.functions[i].end_line),
            (found.functions[j].start_line, found.functions[j].end_line),
        ));
    }
}

/// The chunks after the structural ones hold leftover lines only: each
/// holds lines of the source, at least one, and none that a class or a
/// function outside the classes claimed.
pub proof fn lemma_leftover_chunks_hold_unclaimed_lines(
    source: Seq<char>,
    language: Seq<char>,
    found: ExtractionView,
    k: int,
)
    requires
        structural_count(found) <= k < assemble(source, language, found).len(),
    ensures
        assemble(source, language, found)[k].classes.len() == 0,
        assemble(source, language, found)[k].functions.len() == 0,
        holds_unclaimed_lines(
            assemble(source, language, found)[k],
            coverage(lines_of(source).len(), found.functions, found.classes),
        ),
{
    lemma_chunk_places(source, language, found);
}

/// Where every class and function names lines of the source, every chunk
/// is well-formed.
pub proof fn lemma_assembled_chunks_are_well_formed(
    source: Seq<char>,
    language: Seq<char>,
    found: ExtractionView,
)
    requires
        found.fits(lines_of(source).len()),
    ensures
        all_well_formed(assemble(source, language, found)),
{
    let lines = lines_of(source);
    let n = lines.len();
    let chunks = assemble(source, language, found);
    let covered = coverage(n, found.functions, found.classes);
    lemma_lines_are_single(source, 0);
    lemma_chunk_places(source, language, found);
    assert forall|k: int| 0 <= k < chunks.len() implies (#[trigger] chunks[k]).well_formed() by {
        if k < found.classes.len() {
            let class = found.classes[k];
            lemma_run_text_len(lines, class.start_line - 1, class.end_line as int);
        } else if k < structural_count(found) {
            let f = lemma_function_chunk_origin(found, k);
            let function = found.functions[f];
            let a = function.start_line - 1;
            lemma_context_run_bounds(lines, a, CONTEXT_LOOKBACK as nat);
            lemma_run_text_len(lines, context_start(lines, a), function.end_line as int);
        } else {
            let (from, to) = choose|from: int, to: int|
                0 <= from < to <= covered.len() && chunks[k] == #[trigger] filler_chunk(
                    lines,
                    language,
                    found.imports,
                    from,
                    to,
                ) && forall|idx: int| from <= idx < to ==> !covered[idx];
            lemma_run_text_len(lines, from, to);
        }
    }
}

/// A text of fewer than `MIN_LINES_PER_CHUNK` lines in which no class and
/// no function was found has no chunk. The empty text is such a text.
pub proof fn lemma_short_text_without_constructs_has_no_chunk(
    source: Seq<char>,
    language: Seq<char>,
    found: ExtractionView,
)
    requires
        found.classes.len() == 0,
        found.functions.len() == 0,
        lines_of(source).len() < MIN_LINES_PER_CHUNK,
    ensures
        assemble(source, language, found).len() == 0,
{
    reveal(Seq::filter);
    let lines = lines_of(source);
    let covered = coverage(lines.len(), found.functions, found.classes);
    if lines.len() > 0 {
        lemma_run_end_bounds(covered, 0);
        assert(run_end(covered, 0) == covered.len());
        assert(filler_chunks(lines, language, found.imports, covered, covered.len() as int).len()
            == 0);
    }
}

} // verus!
