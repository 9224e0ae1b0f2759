//! Splitting one chunk into pieces that fit a token budget.

use crate::chunker::{token_estimate, tokens_for_len};
use crate::ident::{is_chunk_id, new_chunk_id};
use crate::lines::{
    is_single_line, join_lines, lemma_join_len, lemma_lines_are_single, lemma_lines_of_join_len,
    lines_of, SourceLines,
};
use crate::types::{
    all_well_formed, copy_classes, copy_functions, copy_imports, copy_strings, ChunkView,
    CodeChunk,
};
use vstd::prelude::*;

verus! {

/// The sum of the token estimates of the lines `from..to`.
pub open spec fn span_tokens(lines: Seq<Seq<char>>, from: int, to: int) -> nat
    decreases to - from,
{
    if from >= to {
        0
    } else {
        span_tokens(lines, from, to - 1) + token_estimate(lines[to - 1])
    }
}

/// Where the piece that holds the lines `from..to` stops growing: at the
/// first line at or after `to` that would take it over `budget`, or at the
/// end of the lines.
pub open spec fn piece_end(lines: Seq<Seq<char>>, budget: nat, from: int, to: int) -> int
    decreases lines.len() - to,
{
    if to >= lines.len() {
        lines.len() as int
    } else if span_tokens(lines, from, to) + token_estimate(lines[to]) > budget {
        to
    } else {
        piece_end(lines, budget, from, to + 1)
    }
}

/// The pieces into which the lines at or after `from` are cut, each as the
/// indices of its first line and just past its last one. A piece takes at
/// least one line, and then every further line that keeps it within
/// `budget`.
pub open spec fn pieces(lines: Seq<Seq<char>>, budget: nat, from: int) -> Seq<(int, int)>
    decreases lines.len() - from,
{
    if 0 <= from < lines.len() {
        proof {
            lemma_piece_end_bounds(lines, budget, from, from + 1);
        }
        let to = piece_end(lines, budget, from, from + 1);
        seq![(from, to)] + pieces(lines, budget, to)
    } else {
        Seq::empty()
    }
}

/// The piece of `parent` that holds the lines `from..to` of its text
/// `lines`. Its line numbers count on from those of `parent`, and the piece
/// with the last line ends where `parent` ends; its token count is the sum
/// over its lines; everything else it has from `parent` as it stands.
pub open spec fn piece_chunk(parent: ChunkView, lines: Seq<Seq<char>>, from: int, to: int) -> ChunkView {
    ChunkView {
        text: join_lines(lines.subrange(from, to)),
        start_line: (parent.start_line + from) as nat,
        end_line: if to == lines.len() {
            parent.end_line
        } else {
            (parent.start_line + to - 1) as nat
        },
        tokens: span_tokens(lines, from, to),
        language: parent.language,
        functions: parent.functions,
        classes: parent.classes,
        imports: parent.imports,
        dependencies: parent.dependencies,
    }
}

/// The chunks that stand for `parent` under the token budget `budget`:
/// `parent` itself where its token count is within the budget, else the
/// pieces of its text.
pub open spec fn resplit(parent: ChunkView, budget: nat) -> Seq<ChunkView> {
    if parent.tokens <= budget {
        seq![parent]
    } else {
        let lines = lines_of(parent.text);
        let cuts = pieces(lines, budget, 0);
        Seq::new(cuts.len(), |k: int| piece_chunk(parent, lines, cuts[k].0, cuts[k].1))
    }
}

/// A piece stops at or after the line up to which it has grown, and within
/// the lines.
pub proof fn lemma_piece_end_bounds(lines: Seq<Seq<char>>, budget: nat, from: int, to: int)
    requires
        to <= lines.len(),
    ensures
        to <= piece_end(lines, budget, from, to) <= lines.len(),
    decreases lines.len() - to,
{
    if to < lines.len() && span_tokens(lines, from, to) + token_estimate(lines[to]) <= budget {
        lemma_piece_end_bounds(lines, budget, from, to + 1);
    }
}

/// Builds the piece of `chunk` that holds the lines `from..to` of its text,
/// under a fresh identifier.
fn create_piece(
    chunk: &CodeChunk,
    lines: &SourceLines,
    from: usize,
    to: usize,
    tokens: usize,
) -> (piece: CodeChunk)
    requires
        from < to <= lines@.len(),
        chunk.start_line + to - 1 <= usize::MAX,
        tokens == span_tokens(lines@, from as int, to as int),
    ensures
        piece@ == piece_chunk(chunk@, lines@, from as int, to as int),
        is_chunk_id(piece.id@),
{
    let end_line: usize = if to == lines.len() {
        chunk.end_line
    } else {
        chunk.start_line + (to - 1)
    };
    CodeChunk {
        id: new_chunk_id(),
        text: lines.join(from, to),
        start_line: chunk.start_line + from,
        end_line,
        tokens,
        language: chunk.language.clone(),
        functions: copy_functions(&chunk.functions),
        classes: copy_classes(&chunk.classes),
        imports: copy_imports(&chunk.imports),
        dependencies: copy_strings(&chunk.dependencies),
    }
}

/// Splits a chunk whose token count is over `target_size` into pieces:
/// line by line, a piece is closed before the line that would take it over
/// `target_size`, once it holds a line. A chunk within `target_size` comes
/// back alone and unchanged.
///
/// Every piece carries the functions, classes, imports and dependencies of
/// `chunk` as they stand, whichever lines it holds: a piece may name a
/// function or a class of which it holds no line. Whether a piece should
/// rather name what its own lines hold is an open question; consumers may
/// rely on what is done now.
pub fn split_large_chunk(chunk: &CodeChunk, target_size: usize) -> (chunks: Vec<CodeChunk>)
    requires
        chunk.tokens > target_size ==> chunk.start_line + lines_of(chunk.text@).len() - 1
            <= usize::MAX,
    ensures
        chunks.deep_view() == resplit(chunk@, target_size as nat),
        chunk.tokens <= target_size ==> chunks.len() == 1 && chunks@[0]@ == chunk@ && chunks@[0].id@
            == chunk.id@,
        chunk.tokens > target_size ==> forall|i: int|
            0 <= i < chunks.len() ==> is_chunk_id(#[trigger] chunks@[i].id@),
        chunk@.well_formed() ==> all_well_formed(chunks.deep_view()),
{
    let mut chunks: Vec<CodeChunk> = Vec::new();
    if chunk.tokens <= target_size {
        chunks.push(chunk.clone());
        proof {
            assert(chunks.deep_view() =~= seq![chunk@]);
        }
        return chunks;
    }
    let lines = SourceLines::parse(chunk.text.as_str());
    let n: usize = lines.len();
    let ghost budget = target_size as nat;
    let ghost cuts = pieces(lines@, budget, 0);
    proof {
        assert(chunks.deep_view() =~= Seq::<ChunkView>::empty());
    }
    if n == 0 {
        proof {
            assert(chunks.deep_view() =~= resplit(chunk@, budget));
        }
        return chunks;
    }
    let mut current_start: usize = 0;
    let mut current_size: usize = tokens_for_len(lines.rows[0].len());
    let mut i: usize = 1;
    proof {
        assert(span_tokens(lines@, 0, 0) == 0);
        assert(cuts =~= cuts.take(0) + cuts);
    }
    while i < n
        invariant
            n == lines@.len(),
            lines@ == lines_of(chunk.text@),
            chunk.start_line + n - 1 <= usize::MAX,
            budget == target_size,
            current_start < i <= n,
            current_size == span_tokens(lines@, current_start as int, i as int),
            piece_end(lines@, budget, current_start as int, current_start + 1) == piece_end(
                lines@,
                budget,
                current_start as int,
                i as int,
            ),
            cuts == cuts.take(chunks.len() as int) + pieces(lines@, budget, current_start as int),
            chunks.len() <= cuts.len(),
            forall|k: int|
                0 <= k < chunks.len() ==> (#[trigger] chunks@[k])@ == piece_chunk(
                    chunk@,
                    lines@,
                    cuts[k].0,
                    cuts[k].1,
                ),
            forall|k: int| 0 <= k < chunks.len() ==> is_chunk_id(#[trigger] chunks@[k].id@),
        decreases n - i,
    {
        let line_tokens: usize = tokens_for_len(lines.rows[i].len());
        if current_size > target_size || line_tokens > target_size - current_size {
            let piece = create_piece(chunk, &lines, current_start, i, current_size);
            proof {
                lemma_piece_end_bounds(lines@, budget, current_start as int, current_start + 1);
                assert(cuts[chunks.len() as int] == (current_start as int, i as int));
                assert(cuts =~= cuts.take(chunks.len() + 1) + pieces(lines@, budget, i as int));
                assert(span_tokens(lines@, i as int, i as int) == 0);
            }
            chunks.push(piece);
            current_start = i;
            current_size = line_tokens;
        } else {
            current_size += line_tokens;
        }
        i += 1;
    }
    let piece = create_piece(chunk, &lines, current_start, n, current_size);
    proof {
        lemma_piece_end_bounds(lines@, budget, current_start as int, current_start + 1);
        assert(pieces(lines@, budget, n as int) =~= Seq::<(int, int)>::empty());
        assert(cuts[chunks.len() as int] == (current_start as int, n as int));
        assert(cuts.len() == chunks.len() + 1);
    }
    chunks.push(piece);
    proof {
        assert(chunks.deep_view() =~= resplit(chunk@, budget));
        if chunk@.well_formed() {
            assert forall|k: int| 0 <= k < chunks.len() implies (#[trigger] chunks.deep_view()[
                k
            ]).well_formed() by {
                lemma_resplit_keeps_well_formed(chunk@, budget, k);
            }
        }
    }
    chunks
}

/// The pieces of the lines from `from` on follow one another without a gap
/// from `from` to the last line, and each holds a line.
pub proof fn lemma_pieces_chain(lines: Seq<Seq<char>>, budget: nat, from: int)
    requires
        0 <= from < lines.len(),
    ensures
        ({
            let cuts = pieces(lines, budget, from);
            &&& cuts.len() >= 1
            &&& cuts[0].0 == from
            &&& cuts.last().1 == lines.len()
            &&& forall|k: int|
                0 <= k < cuts.len() ==> from <= (#[trigger] cuts[k]).0 < cuts[k].1 <= lines.len()
            &&& forall|k: int| 0 <= k < cuts.len() - 1 ==> (#[trigger] cuts[k]).1 == cuts[k + 1].0
        }),
    decreases lines.len() - from,
{
    lemma_piece_end_bounds(lines, budget, from, from + 1);
    let to = piece_end(lines, budget, from, from + 1);
    let cuts = pieces(lines, budget, from);
    let rest = pieces(lines, budget, to);
    assert(cuts =~= seq![(from, to)] + rest);
    if to < lines.len() {
        lemma_pieces_chain(lines, budget, to);
        assert forall|k: int| 0 <= k < cuts.len() implies from <= (#[trigger] cuts[k]).0
            < cuts[k].1 <= lines.len() by {
            if k > 0 {
                assert(cuts[k] == rest[k - 1]);
            }
        }
        assert forall|k: int| 0 <= k < cuts.len() - 1 implies (#[trigger] cuts[k]).1 == cuts[k
            + 1].0 by {
            assert(cuts[k + 1] == rest[k]);
            if k > 0 {
                assert(cuts[k] == rest[k - 1]);
            }
        }
        assert(cuts.last() == rest.last());
    } else {
        assert(rest =~= Seq::<(int, int)>::empty());
    }
}

/// A chunk within the budget stands for itself: splitting gives that chunk
/// and no other.
pub proof fn lemma_resplit_keeps_small_chunk(parent: ChunkView, budget: nat)
    requires
        parent.tokens <= budget,
    ensures
        resplit(parent, budget) == seq![parent],
{
}

/// The chunks that stand for a well-formed chunk cover its lines, each
/// line once: the first starts where the chunk starts, each next one starts
/// on the line after the one before it, the last ends where the chunk ends,
/// and each holds a line.
pub proof fn lemma_resplit_covers_the_lines(parent: ChunkView, budget: nat)
    requires
        parent.well_formed(),
    ensures
        ({
            let parts = resplit(parent, budget);
            &&& parts.len() >= 1
            &&& parts[0].start_line == parent.start_line
            &&& parts.last().end_line == parent.end_line
            &&& forall|k: int|
                0 <= k < parts.len() ==> (#[trigger] parts[k]).start_line <= parts[k].end_line
            &&& forall|k: int|
                0 <= k < parts.len() - 1 ==> (#[trigger] parts[k + 1]).start_line
                    == parts[k].end_line + 1
        }),
{
    if parent.tokens > budget {
        let lines = lines_of(parent.text);
        let cuts = pieces(lines, budget, 0);
        let parts = resplit(parent, budget);
        assert(lines.len() > 0);
        lemma_pieces_chain(lines, budget, 0);
        assert forall|k: int| 0 <= k < parts.len() implies (#[trigger] parts[k]).start_line
            <= parts[k].end_line by {
            assert(0 <= cuts[k].0 < cuts[k].1 <= lines.len());
        }
        assert forall|k: int| 0 <= k < parts.len() - 1 implies (#[trigger] parts[k
            + 1]).start_line == parts[k].end_line + 1 by {
            assert(cuts[k].1 == cuts[k + 1].0);
            assert(0 <= cuts[k].0 < cuts[k].1 <= lines.len());
            assert(0 <= cuts[k + 1].0 < cuts[k + 1].1 <= lines.len());
        }
    }
}

/// The chunks that stand for a well-formed chunk are well-formed.
pub proof fn lemma_resplit_keeps_well_formed(parent: ChunkView, budget: nat, k: int)
    requires
        parent.well_formed(),
        0 <= k < resplit(parent, budget).len(),
    ensures
        resplit(parent, budget)[k].well_formed(),
{
    if parent.tokens > budget {
        let lines = lines_of(parent.text);
        let cuts = pieces(lines, budget, 0);
        let part = resplit(parent, budget)[k];
        lemma_pieces_chain(lines, budget, 0);
        let from = cuts[k].0;
        let to = cuts[k].1;
        assert(0 <= from < to <= lines.len());
        let held = lines.subrange(from, to);
        lemma_lines_are_single(parent.text, 0);
        assert forall|i: int| 0 <= i < held.len() implies is_single_line(#[trigger] held[i]) by {
            assert(held[i] == lines[from + i]);
        }
        lemma_lines_of_join_len(held);
        lemma_join_len(held);
        if part.text.len() == 0 {
            assert(to == from + 1);
            assert(held[0] == lines[from]);
            assert(span_tokens(lines, from, from) == 0);
        }
    }
}

} // verus!
