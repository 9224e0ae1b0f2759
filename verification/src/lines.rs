//! The lines of a text, and texts made of lines.

use crate::text::{copy_range, has_prefix_at, occurs_in, string_from_chars, to_chars};
use vstd::prelude::*;

verus! {

/// Index of the first line feed of `s` at or after `from`; the length of `s`
/// where there is none.
pub open spec fn line_end(s: Seq<char>, from: int) -> int
    decreases s.len() - from,
{
    if from >= s.len() {
        s.len() as int
    } else if s[from] == '\n' {
        from
    } else {
        line_end(s, from + 1)
    }
}

/// The line of `s` that starts at `from`, without its terminator. A line
/// ends at a line feed or at the end of the text; a carriage return directly
/// before the line feed belongs to the terminator.
pub open spec fn line_at(s: Seq<char>, from: int) -> Seq<char> {
    let end = line_end(s, from);
    if end < s.len() && from < end && s[end - 1] == '\r' {
        s.subrange(from, end - 1)
    } else {
        s.subrange(from, end)
    }
}

/// The lines of `s` from the line that starts at `from` on.
pub open spec fn lines_from(s: Seq<char>, from: int) -> Seq<Seq<char>>
    decreases s.len() - from,
{
    if 0 <= from < s.len() {
        proof {
            lemma_line_end_bounds(s, from);
        }
        if line_end(s, from) < s.len() {
            seq![line_at(s, from)] + lines_from(s, line_end(s, from) + 1)
        } else {
            seq![line_at(s, from)]
        }
    } else {
        Seq::empty()
    }
}

/// The lines of `s`. A final line feed ends the last line and starts no new
/// one, so the empty text has no line and `"a\n"` has one.
pub open spec fn lines_of(s: Seq<char>) -> Seq<Seq<char>> {
    lines_from(s, 0)
}

/// The lines `ls` put together with one line feed between neighbours.
pub open spec fn join_lines(ls: Seq<Seq<char>>) -> Seq<char>
    decreases ls.len(),
{
    if ls.len() == 0 {
        Seq::empty()
    } else if ls.len() == 1 {
        ls[0]
    } else {
        join_lines(ls.drop_last()) + seq!['\n'] + ls.last()
    }
}

/// A text cut into its lines, each held as its characters.
pub struct SourceLines {
    pub rows: Vec<Vec<char>>,
}

impl View for SourceLines {
    type V = Seq<Seq<char>>;

    open spec fn view(&self) -> Seq<Seq<char>> {
        Seq::new(self.rows@.len(), |i: int| self.rows@[i]@)
    }
}

impl SourceLines {
    /// The lines of `text`.
    pub fn parse(text: &str) -> (lines: SourceLines)
        ensures
            lines@ == lines_of(text@),
    {
        let chars = to_chars(text);
        SourceLines::from_chars(&chars)
    }

    /// The lines of the text that `text` holds.
    pub fn from_chars(text: &Vec<char>) -> (lines: SourceLines)
        ensures
            lines@ == lines_of(text@),
    {
        let n: usize = text.len();
        let mut lines = SourceLines { rows: Vec::new() };
        let mut start: usize = 0;
        assert(lines@ =~= Seq::<Seq<char>>::empty());
        while start < n
            invariant
                n == text.len(),
                start <= n,
                lines_of(text@) == lines@ + lines_from(text@, start as int),
            decreases n - start,
        {
            let mut end: usize = start;
            while end < n && text[end] != '\n'
                invariant
                    n == text.len(),
                    start <= end <= n,
                    line_end(text@, start as int) == line_end(text@, end as int),
                decreases n - end,
            {
                end += 1;
            }
            let stop: usize = if end < n && start < end && text[end - 1] == '\r' {
                end - 1
            } else {
                end
            };
            let row = copy_range(text, start, stop);
            let ghost before = lines@;
            lines.rows.push(row);
            proof {
                assert(row@ == line_at(text@, start as int));
                assert(lines@ =~= before.push(row@));
                assert(before + lines_from(text@, start as int) =~= lines@ + lines_from(
                    text@,
                    end + 1,
                ));
            }
            start = if end < n {
                end + 1
            } else {
                n
            };
        }
        lines
    }

    /// The number of lines.
    pub fn len(&self) -> (n: usize)
        ensures
            n == self@.len(),
    {
        self.rows.len()
    }

    /// The characters of lines `from..to`, with a line feed between
    /// neighbouring lines.
    pub fn join_chars(&self, from: usize, to: usize) -> (text: Vec<char>)
        requires
            from <= to <= self@.len(),
        ensures
            text@ == join_lines(self@.subrange(from as int, to as int)),
    {
        let mut text: Vec<char> = Vec::new();
        let mut i: usize = from;
        assert(self@.subrange(from as int, from as int) =~= Seq::<Seq<char>>::empty());
        while i < to
            invariant
                from <= i <= to <= self@.len(),
                text@ == join_lines(self@.subrange(from as int, i as int)),
            decreases to - i,
        {
            if i > from {
                text.push('\n');
            }
            let row = &self.rows[i];
            let ghost head = text@;
            let mut k: usize = 0;
            while k < row.len()
                invariant
                    k <= row.len(),
                    text@ == head + row@.subrange(0, k as int),
                decreases row.len() - k,
            {
                text.push(row[k]);
                k += 1;
                proof {
                    assert(row@.subrange(0, k as int) =~= row@.subrange(0, k - 1).push(
                        row@[k - 1],
                    ));
                }
            }
            proof {
                let so_far = self@.subrange(from as int, i as int);
                let next = self@.subrange(from as int, i + 1);
                assert(row@.subrange(0, row.len() as int) =~= row@);
                assert(next.drop_last() =~= so_far);
                assert(next.last() == row@);
                assert(text@ =~= join_lines(next));
            }
            i += 1;
        }
        text
    }

    /// Lines `from..to` as one string, with a line feed between neighbouring
    /// lines.
    pub fn join(&self, from: usize, to: usize) -> (text: String)
        requires
            from <= to <= self@.len(),
        ensures
            text@ == join_lines(self@.subrange(from as int, to as int)),
    {
        let chars = self.join_chars(from, to);
        string_from_chars(&chars)
    }
}

/// A line never ends before it starts nor after the text.
pub proof fn lemma_line_end_bounds(s: Seq<char>, from: int)
    requires
        0 <= from <= s.len(),
    ensures
        from <= line_end(s, from) <= s.len(),
        forall|i: int| from <= i < line_end(s, from) ==> s[i] != '\n',
        line_end(s, from) < s.len() ==> s[line_end(s, from)] == '\n',
    decreases s.len() - from,
{
    if from < s.len() && s[from] != '\n' {
        lemma_line_end_bounds(s, from + 1);
    }
}

/// Whether `line` holds no line feed.
pub open spec fn is_single_line(line: Seq<char>) -> bool {
    forall|i: int| 0 <= i < line.len() ==> line[i] != '\n'
}

/// Whether each of `ls` holds no line feed.
pub open spec fn are_single_lines(ls: Seq<Seq<char>>) -> bool {
    forall|k: int| 0 <= k < ls.len() ==> is_single_line(#[trigger] ls[k])
}

/// The lines of a text hold no line feed.
pub proof fn lemma_lines_are_single(s: Seq<char>, from: int)
    requires
        0 <= from,
    ensures
        are_single_lines(lines_from(s, from)),
    decreases s.len() - from,
{
    if from < s.len() {
        lemma_line_end_bounds(s, from);
        let end = line_end(s, from);
        assert(is_single_line(line_at(s, from)));
        if end < s.len() {
            lemma_lines_are_single(s, end + 1);
        }
    }
}

/// A text without a line feed is one line as it stands, unless it is empty.
pub proof fn lemma_lines_of_single_line(s: Seq<char>)
    requires
        is_single_line(s),
    ensures
        lines_of(s) == if s.len() == 0 {
            Seq::<Seq<char>>::empty()
        } else {
            seq![s]
        },
{
    if s.len() > 0 {
        lemma_line_end_bounds(s, 0);
        assert(line_end(s, 0) == s.len());
        assert(s.subrange(0, s.len() as int) =~= s);
    }
}

/// Joining two runs of lines gives the joined runs with a line feed between
/// them.
pub proof fn lemma_join_concat(a: Seq<Seq<char>>, b: Seq<Seq<char>>)
    requires
        a.len() > 0,
        b.len() > 0,
    ensures
        join_lines(a + b) == join_lines(a) + seq!['\n'] + join_lines(b),
    decreases b.len(),
{
    let all = a + b;
    assert(all.drop_last() =~= a + b.drop_last());
    assert(all.last() == b.last());
    if b.len() == 1 {
        assert(a + b.drop_last() =~= a);
    } else {
        lemma_join_concat(a, b.drop_last());
        assert(join_lines(all) =~= join_lines(a) + seq!['\n'] + join_lines(b));
    }
}

/// A joined text has a character for each line feed between neighbours, so
/// an empty one comes from no line, or from one empty line.
pub proof fn lemma_join_len(ls: Seq<Seq<char>>)
    ensures
        join_lines(ls).len() >= ls.len() - 1,
        ls.len() == 1 ==> join_lines(ls) == ls[0],
    decreases ls.len(),
{
    if ls.len() >= 2 {
        lemma_join_len(ls.drop_last());
    }
}

/// The line that ends first after `from + shift` in `s` ends at the same
/// place, counted from `shift`, in what `s` holds from `shift` on.
pub proof fn lemma_line_end_shift(s: Seq<char>, shift: int, from: int)
    requires
        0 <= shift <= s.len(),
        0 <= from <= s.len() - shift,
    ensures
        line_end(s, shift + from) == shift + line_end(s.skip(shift), from),
    decreases s.len() - shift - from,
{
    let rest = s.skip(shift);
    if from < rest.len() {
        assert(rest[from] == s[shift + from]);
        if s[shift + from] != '\n' {
            lemma_line_end_shift(s, shift, from + 1);
        }
    }
}

/// The lines of `s` from `shift + from` on are the lines, from `from` on,
/// of what `s` holds from `shift` on.
pub proof fn lemma_lines_from_shift(s: Seq<char>, shift: int, from: int)
    requires
        0 <= shift <= s.len(),
        0 <= from <= s.len() - shift,
    ensures
        lines_from(s, shift + from) == lines_from(s.skip(shift), from),
    decreases s.len() - shift - from,
{
    let rest = s.skip(shift);
    if from < rest.len() {
        lemma_line_end_shift(s, shift, from);
        lemma_line_end_bounds(rest, from);
        let end = line_end(rest, from);
        assert(rest.subrange(from, end) =~= s.subrange(shift + from, shift + end));
        if from < end {
            assert(rest[end - 1] == s[shift + end - 1]);
            assert(rest.subrange(from, end - 1) =~= s.subrange(shift + from, shift + end - 1));
        }
        assert(line_at(rest, from) == line_at(s, shift + from));
        if end < rest.len() {
            lemma_lines_from_shift(s, shift, end + 1);
        }
    }
}

/// Cutting a joined text into lines gives no more lines than were joined:
/// it gives one for each, but for an empty last line, which leaves no trace.
pub proof fn lemma_lines_of_join_len(ls: Seq<Seq<char>>)
    requires
        are_single_lines(ls),
    ensures
        lines_of(join_lines(ls)).len() <= ls.len(),
    decreases ls.len(),
{
    let text = join_lines(ls);
    if ls.len() == 1 {
        assert(is_single_line(ls[0]));
        lemma_lines_of_single_line(ls[0]);
    } else if ls.len() >= 2 {
        let head = ls.take(1);
        let tail = ls.skip(1);
        assert(head + tail =~= ls);
        assert(is_single_line(ls[0]));
        lemma_join_concat(head, tail);
        let first = ls[0];
        let rest = join_lines(tail);
        assert(join_lines(head) == first);
        assert(text == first + seq!['\n'] + rest);
        let cut = first.len() as int;
        assert(text[cut] == '\n');
        assert forall|i: int| 0 <= i < cut implies text[i] != '\n' by {
            assert(text[i] == first[i]);
        }
        lemma_line_end_first(text, 0, cut);
        assert(text.skip(cut + 1) =~= rest);
        lemma_lines_from_shift(text, cut + 1, 0);
        assert forall|k: int| 0 <= k < tail.len() implies is_single_line(#[trigger] tail[k]) by {
            assert(tail[k] == ls[k + 1]);
        }
        lemma_lines_of_join_len(tail);
    }
}

/// A line that starts at `from` ends at the first line feed after it.
pub proof fn lemma_line_end_first(s: Seq<char>, from: int, at: int)
    requires
        0 <= from <= at < s.len(),
        s[at] == '\n',
        forall|i: int| from <= i < at ==> s[i] != '\n',
    ensures
        line_end(s, from) == at,
    decreases at - from,
{
    if from < at {
        lemma_line_end_first(s, from + 1, at);
    }
}

/// A run of lines, joined, occurs in the joined text of every run that
/// holds it.
pub proof fn lemma_join_holds_run(ls: Seq<Seq<char>>, from: int, to: int, a: int, b: int)
    requires
        0 <= from <= a < b <= to <= ls.len(),
    ensures
        occurs_in(join_lines(ls.subrange(a, b)), join_lines(ls.subrange(from, to))),
{
    let before = ls.subrange(from, a);
    let run = ls.subrange(a, b);
    let after = ls.subrange(b, to);
    let rest = ls.subrange(a, to);
    let whole = ls.subrange(from, to);
    let text = join_lines(run);
    assert(before + rest =~= whole);
    assert(run + after =~= rest);
    if after.len() > 0 {
        lemma_join_concat(run, after);
    } else {
        assert(rest =~= run);
    }
    assert(has_prefix_at(join_lines(rest), 0, text)) by {
        assert(join_lines(rest).subrange(0, text.len() as int) =~= text);
    }
    if before.len() > 0 {
        lemma_join_concat(before, rest);
        let at = (join_lines(before).len() + 1) as int;
        assert(has_prefix_at(join_lines(whole), at, text)) by {
            assert(join_lines(whole).subrange(at, at + text.len()) =~= join_lines(rest).subrange(
                0,
                text.len() as int,
            ));
        }
    } else {
        assert(whole =~= rest);
    }
}

} // verus!
