use vstd::prelude::*;
use vstd::string::StringExecFns;
use crate::text::{segments, join, split_lines, join_lines};
use crate::line::{normalize_line, normalized, is_blank, has_newline, content, lemma_trim_idempotent};

verus! {

/// Every line normalised on its own, in order.
pub open spec fn normalized_all(lines: Seq<Seq<char>>, normalize_eof: bool) -> Seq<Seq<char>> {
    lines.map_values(|l: Seq<char>| normalized(l, normalize_eof))
}

/// The lines without the run of blank lines at their end.
pub open spec fn drop_trailing_blank(lines: Seq<Seq<char>>) -> Seq<Seq<char>>
    decreases lines.len(),
{
    if lines.len() > 0 && is_blank(lines.last()) {
        drop_trailing_blank(lines.drop_last())
    } else {
        lines
    }
}

/// The cleaned form of a sequence of lines: each line normalised and, when
/// end-of-file normalisation is on, the blank lines at the end dropped.
pub open spec fn cleaned(lines: Seq<Seq<char>>, normalize_eof: bool) -> Seq<Seq<char>> {
    if normalize_eof {
        drop_trailing_blank(normalized_all(lines, true))
    } else {
        normalized_all(lines, false)
    }
}

/// A line normalised with end-of-file normalisation on is blank exactly when
/// it is a lone newline.
proof fn lemma_blank_normalized(l: Seq<char>)
    ensures
        is_blank(normalized(l, true)) == (normalized(l, true).len() == 1),
{
    let x = normalized(l, true);
    assert(x.drop_last() =~= content(l));
    lemma_trim_idempotent(crate::line::body(l));
}

/// Cleans a sequence of lines: trailing spaces and tabs leave every line, and
/// with `normalize_eof_newlines` every line ends in a newline and the blank
/// lines at the end are dropped; without it the last line keeps its
/// terminator as it was and no line is dropped.
pub fn clean_lines(lines: &[&str], normalize_eof_newlines: bool) -> (r: Vec<String>)
    ensures
        r.deep_view() == cleaned(lines.deep_view(), normalize_eof_newlines),
{
    let ghost all = normalized_all(lines.deep_view(), normalize_eof_newlines);
    let mut out: Vec<String> = Vec::new();
    let mut i: usize = 0;
    while i < lines.len()
        invariant
            i <= lines.len(),
            all == normalized_all(lines.deep_view(), normalize_eof_newlines),
            out.deep_view() == all.take(i as int),
        decreases lines.len() - i,
    {
        let (l, _) = normalize_line(lines[i], normalize_eof_newlines);
        assert(lines.deep_view()[i as int] == lines@[i as int]@);
        let ghost before = out.deep_view();
        out.push(l);
        assert(out.deep_view() =~= before.push(l@));
        assert(out.deep_view() =~= all.take(i + 1));
        i = i + 1;
    }
    assert(all.take(lines.len() as int) =~= all);
    if normalize_eof_newlines {
        while out.len() > 0 && out[out.len() - 1].as_str().unicode_len() == 1
            invariant
                all == normalized_all(lines.deep_view(), true),
                out.len() <= all.len(),
                out.deep_view() == all.take(out.len() as int),
                drop_trailing_blank(all) == drop_trailing_blank(out.deep_view()),
            decreases out.len(),
        {
            let ghost before = out.deep_view();
            proof {
                lemma_blank_normalized(lines.deep_view()[out.len() - 1]);
            }
            out.pop();
            assert(out.deep_view() =~= before.drop_last());
            assert(out.deep_view() =~= all.take(out.len() as int));
        }
        proof {
            if out.len() > 0 {
                lemma_blank_normalized(lines.deep_view()[out.len() - 1]);
            }
        }
    }
    out
}

/// A text once cleaned: its segments cleaned and written back one after the
/// other.
pub open spec fn cleaned_text(s: Seq<char>, normalize_eof: bool) -> Seq<char> {
    join(cleaned(segments(s), normalize_eof))
}

/// Cleans the content of a file. Gives the new content when it differs from
/// the old, and `None` when cleaning would leave the text as it is, so that
/// the file need not be written.
pub fn clean_text(text: &str, normalize_eof_newlines: bool) -> (r: Option<String>)
    ensures
        r is None <==> cleaned_text(text@, normalize_eof_newlines) == text@,
        r matches Some(t) ==> t@ == cleaned_text(text@, normalize_eof_newlines),
{
    let segs = split_lines(text);
    let mut refs: Vec<&str> = Vec::new();
    let mut i: usize = 0;
    while i < segs.len()
        invariant
            i <= segs.len(),
            refs.deep_view() == segs.deep_view().take(i as int),
        decreases segs.len() - i,
    {
        let ghost before = refs.deep_view();
        refs.push(segs[i].as_str());
        assert(refs.deep_view() =~= before.push(segs.deep_view()[i as int]));
        assert(segs.deep_view().take(i + 1) =~= before.push(segs.deep_view()[i as int]));
        i = i + 1;
    }
    assert(segs.deep_view().take(segs.len() as int) =~= segs.deep_view());
    let slice = refs.as_slice();
    assert(slice.deep_view() =~= refs.deep_view());
    let lines = clean_lines(slice, normalize_eof_newlines);
    let out = join_lines(&lines);
    let original = String::from_str(text);
    if out == original {
        None
    } else {
        Some(out)
    }
}

/// Blank lines appended to a sequence are what dropping the trailing blank
/// lines takes away.
proof fn lemma_drop_appended_blank(s: Seq<Seq<char>>, t: Seq<Seq<char>>)
    requires
        forall|i: int| 0 <= i < t.len() ==> is_blank(#[trigger] t[i]),
    ensures
        drop_trailing_blank(s + t) == drop_trailing_blank(s),
    decreases t.len(),
{
    if t.len() == 0 {
        assert(s + t =~= s);
    } else {
        assert((s + t).drop_last() =~= s + t.drop_last());
        assert(is_blank(t[t.len() - 1]));
        lemma_drop_appended_blank(s, t.drop_last());
    }
}

/// A file that ends in a run of blank lines after a line that is not blank:
/// with end-of-file normalisation the run is dropped and the file ends with
/// that line and its single newline; without it every blank line of the run
/// is kept, as a lone newline.
pub proof fn lemma_trailing_blank_lines(p: Seq<Seq<char>>, b: Seq<Seq<char>>)
    requires
        p.len() > 0,
        !is_blank(p.last()),
        b.len() > 0,
        forall|i: int| 0 <= i < b.len() ==> has_newline(#[trigger] b[i]) && is_blank(b[i]),
    ensures
        cleaned(p + b, true) == normalized_all(p, true),
        cleaned(p + b, true).last() == normalized(p.last(), true),
        has_newline(cleaned(p + b, true).last()),
        !is_blank(cleaned(p + b, true).last()),
        cleaned(p + b, false) == normalized_all(p, false) + Seq::new(
            b.len(),
            |i: int| seq!['\n'],
        ),
{
    let np = normalized_all(p, true);
    let nb = normalized_all(b, true);
    assert(normalized_all(p + b, true) =~= np + nb);
    assert forall|i: int| 0 <= i < nb.len() implies is_blank(#[trigger] nb[i]) by {
        lemma_blank_normalized(b[i]);
    }
    lemma_drop_appended_blank(np, nb);
    lemma_blank_normalized(p.last());
    assert(content(p.last()).len() > 0);
    assert(np.last() == normalized(p.last(), true));
    assert forall|i: int| 0 <= i < b.len() implies normalized(#[trigger] b[i], false) == seq![
        '\n',
    ] by {
        assert(content(b[i]).len() == 0);
        assert(content(b[i]) =~= Seq::<char>::empty());
    }
    assert(cleaned(p + b, false) =~= normalized_all(p, false) + Seq::new(
        b.len(),
        |i: int| seq!['\n'],
    ));
}

} // verus!
