use vstd::prelude::*;
use vstd::string::StringExecFns;
use crate::line::{has_newline, is_segment};

verus! {

/// Relies on `String::push`, which appends one character to the string.
#[verifier::external_body]
pub(crate) fn push_char(s: &mut String, c: char)
    ensures
        final(s)@ == old(s)@.push(c),
{
    s.push(c)
}

/// Copies the characters of a string slice into a vector, in order.
pub fn chars_of(s: &str) -> (r: Vec<char>)
    ensures
        r@ == s@,
{
    let mut r: Vec<char> = Vec::new();
    for c in it: s.chars()
        invariant
            it.seq() == s@,
            r@ == it.seq().take(it.index() as int),
    {
        r.push(c);
    }
    r
}

/// The newline-inclusive segments of a text, as `str::split_inclusive('\n')`
/// gives them: each segment ends at a newline, or at the end of the text.
/// The empty text has none.
pub open spec fn segments(s: Seq<char>) -> Seq<Seq<char>>
    decreases s.len(),
{
    if s.len() == 0 {
        seq![]
    } else {
        let prev = segments(s.drop_last());
        if prev.len() == 0 || has_newline(prev.last()) {
            prev.push(seq![s.last()])
        } else {
            prev.update(prev.len() - 1, prev.last().push(s.last()))
        }
    }
}

/// The lines written one after the other.
pub open spec fn join(lines: Seq<Seq<char>>) -> Seq<char>
    decreases lines.len(),
{
    if lines.len() == 0 {
        seq![]
    } else {
        join(lines.drop_last()) + lines.last()
    }
}

/// Splitting loses nothing: the segments of a text, written back one after
/// the other, give the text again. Each segment is non-empty, holds no
/// newline but possibly at its end, and all but the last end in one.
pub proof fn lemma_segments_rejoin(s: Seq<char>)
    ensures
        join(segments(s)) == s,
        forall|i: int|
            0 <= i < segments(s).len() ==> #[trigger] segments(s)[i].len() > 0 && is_segment(
                segments(s)[i],
            ),
        forall|i: int| 0 <= i < segments(s).len() - 1 ==> has_newline(#[trigger] segments(s)[i]),
    decreases s.len(),
{
    if s.len() > 0 {
        let prev = segments(s.drop_last());
        lemma_segments_rejoin(s.drop_last());
        let c = s.last();
        if prev.len() == 0 || has_newline(prev.last()) {
            assert(segments(s).drop_last() =~= prev);
            assert(join(prev) + seq![c] =~= s);
        } else {
            let last = prev.last();
            let segs = segments(s);
            assert(segs.drop_last() =~= prev.drop_last());
            assert(join(prev.drop_last()) + last.push(c) =~= join(prev) + seq![c]);
            assert(join(prev) + seq![c] =~= s);
            assert(is_segment(last.push(c))) by {
                assert forall|j: int| 0 <= j < last.push(c).len() - 1 implies last.push(c)[j]
                    != '\n' by {
                    if j < last.len() - 1 {
                        assert(last.push(c)[j] == last[j]);
                    }
                }
            }
            assert(segs[segs.len() - 1] == last.push(c));
        }
    }
}

/// Splits a text into its newline-inclusive segments.
pub fn split_lines(text: &str) -> (r: Vec<String>)
    ensures
        r.deep_view() == segments(text@),
{
    let mut out: Vec<String> = Vec::new();
    let mut cur = String::new();
    for c in it: text.chars()
        invariant
            it.seq() == text@,
            forall|i: int| 0 <= i < out.len() ==> has_newline(#[trigger] out.deep_view()[i]),
            !has_newline(cur@),
            segments(it.seq().take(it.index() as int)) == if cur@.len() == 0 {
                out.deep_view()
            } else {
                out.deep_view().push(cur@)
            },
    {
        let ghost prefix = it.seq().take(it.index() as int);
        let ghost next = it.seq().take(it.index() + 1);
        assert(next.drop_last() =~= prefix);
        assert(next.last() == c);
        let ghost old_cur = cur@;
        let ghost old_out = out.deep_view();
        proof {
            if old_cur.len() == 0 {
                assert(old_cur.push(c) =~= seq![c]);
                assert(old_out.len() == 0 || has_newline(old_out.last()));
                assert(segments(next) == old_out.push(seq![c]));
            } else {
                assert(old_out.push(old_cur).update(old_out.len() as int, old_cur.push(c))
                    =~= old_out.push(old_cur.push(c)));
                assert(segments(next) == old_out.push(old_cur.push(c)));
            }
        }
        push_char(&mut cur, c);
        if c == '\n' {
            let ghost before = out.deep_view();
            out.push(cur);
            assert(out.deep_view() =~= before.push(cur@));
            cur = String::new();
        }
        assert(segments(next) =~= if cur@.len() == 0 {
            out.deep_view()
        } else {
            out.deep_view().push(cur@)
        });
    }
    assert(text@.take(text@.len() as int) =~= text@);
    if !cur.as_str().is_empty() {
        let ghost before = out.deep_view();
        out.push(cur);
        assert(out.deep_view() =~= before.push(cur@));
    }
    out
}

/// Writes the lines one after the other into one text.
pub fn join_lines(lines: &Vec<String>) -> (r: String)
    ensures
        r@ == join(lines.deep_view()),
{
    let mut out = String::new();
    let mut i: usize = 0;
    while i < lines.len()
        invariant
            i <= lines.len(),
            out@ == join(lines.deep_view().take(i as int)),
        decreases lines.len() - i,
    {
        out.append(lines[i].as_str());
        assert(lines.deep_view().take(i + 1).drop_last() =~= lines.deep_view().take(i as int));
        i = i + 1;
    }
    assert(lines.deep_view().take(lines.len() as int) =~= lines.deep_view());
    out
}

} // verus!
