use vstd::prelude::*;
use crate::text::{chars_of, push_char};

verus! {

/// Horizontal whitespace: the characters stripped from the end of a line.
pub open spec fn is_hspace(c: char) -> bool {
    c == ' ' || c == '\t'
}

/// The line ends with a newline character.
pub open spec fn has_newline(s: Seq<char>) -> bool {
    s.len() > 0 && s.last() == '\n'
}

/// The line without its terminating newline, if it has one.
pub open spec fn body(s: Seq<char>) -> Seq<char> {
    if has_newline(s) {
        s.drop_last()
    } else {
        s
    }
}

/// `s` with every trailing space and tab removed.
pub open spec fn trim_hspace(s: Seq<char>) -> Seq<char>
    decreases s.len(),
{
    if s.len() > 0 && is_hspace(s.last()) {
        trim_hspace(s.drop_last())
    } else {
        s
    }
}

/// What a line holds once its terminator and trailing whitespace are gone.
pub open spec fn content(s: Seq<char>) -> Seq<char> {
    trim_hspace(body(s))
}

/// A line whose content is empty: only spaces and tabs, maybe a newline.
pub open spec fn is_blank(s: Seq<char>) -> bool {
    content(s).len() == 0
}

/// A line segment of a text: no newline but possibly the last character.
pub open spec fn is_segment(s: Seq<char>) -> bool {
    forall|i: int| 0 <= i < s.len() - 1 ==> s[i] != '\n'
}

/// The normalised form of one line: its content, followed by a newline when
/// the line had one or when end-of-file normalisation is on.
pub open spec fn normalized(s: Seq<char>, normalize_eof: bool) -> Seq<char> {
    if has_newline(s) || normalize_eof {
        content(s).push('\n')
    } else {
        content(s)
    }
}

/// Trimming keeps a prefix, and the prefix it keeps ends in no space or tab.
pub proof fn lemma_trim_prefix(s: Seq<char>)
    ensures
        trim_hspace(s).len() <= s.len(),
        trim_hspace(s) == s.take(trim_hspace(s).len() as int),
        trim_hspace(s).len() > 0 ==> !is_hspace(trim_hspace(s).last()),
        forall|i: int| trim_hspace(s).len() <= i < s.len() ==> is_hspace(#[trigger] s[i]),
    decreases s.len(),
{
    if s.len() > 0 && is_hspace(s.last()) {
        lemma_trim_prefix(s.drop_last());
        assert forall|i: int| trim_hspace(s).len() <= i < s.len() implies is_hspace(
            #[trigger] s[i],
        ) by {
            if i < s.len() - 1 {
                assert(s[i] == s.drop_last()[i]);
            }
        }
        assert(s.drop_last().take(trim_hspace(s).len() as int) =~= s.take(
            trim_hspace(s).len() as int,
        ));
    } else {
        assert(s.take(s.len() as int) =~= s);
    }
}

/// Trimming a sequence that ends in no space or tab leaves it as it is.
pub proof fn lemma_trim_stable(s: Seq<char>)
    requires
        s.len() > 0 ==> !is_hspace(s.last()),
    ensures
        trim_hspace(s) == s,
{
}

/// Trimming twice is trimming once.
pub proof fn lemma_trim_idempotent(s: Seq<char>)
    ensures
        trim_hspace(trim_hspace(s)) == trim_hspace(s),
{
    lemma_trim_prefix(s);
    lemma_trim_stable(trim_hspace(s));
}

/// Trailing spaces and tabs of `s[0..n]`, counted back from `n`, are found
/// by trimming `s[0..n]`.
proof fn lemma_trim_step(s: Seq<char>, end: int)
    requires
        0 < end <= s.len(),
        is_hspace(s[end - 1]),
    ensures
        trim_hspace(s.take(end)) == trim_hspace(s.take(end - 1)),
{
    assert(s.take(end).drop_last() =~= s.take(end - 1));
}

/// Normalises one line: trailing spaces and tabs are removed, and a newline
/// is put back when the line had one or when `normalize_eof` is set. The
/// flag tells whether the result differs from the line.
pub fn normalize_line(line: &str, normalize_eof: bool) -> (r: (String, bool))
    ensures
        r.0@ == normalized(line@, normalize_eof),
        r.1 == (r.0@ != line@),
{
    let chars = chars_of(line);
    let n = chars.len();
    let had_newline = n > 0 && chars[n - 1] == '\n';
    let body_len: usize = if had_newline { n - 1 } else { n };
    let ghost b = body(line@);
    assert(b =~= chars@.take(body_len as int));
    let mut end: usize = body_len;
    while end > 0 && (chars[end - 1] == ' ' || chars[end - 1] == '\t')
        invariant
            end <= body_len <= n == chars@.len(),
            chars@ == line@,
            b == chars@.take(body_len as int),
            trim_hspace(b) == trim_hspace(chars@.take(end as int)),
            forall|i: int| end <= i < body_len ==> is_hspace(#[trigger] chars@[i]),
        decreases end,
    {
        proof {
            lemma_trim_step(chars@, end as int);
        }
        end = end - 1;
    }
    proof {
        lemma_trim_stable(chars@.take(end as int));
    }
    let mut out = String::new();
    let mut i: usize = 0;
    while i < end
        invariant
            i <= end <= chars@.len(),
            out@ == chars@.take(i as int),
        decreases end - i,
    {
        push_char(&mut out, chars[i]);
        assert(chars@.take(i + 1) =~= chars@.take(i as int).push(chars@[i as int]));
        i = i + 1;
    }
    assert(out@ == content(line@));
    let add_newline = had_newline || normalize_eof;
    if add_newline {
        push_char(&mut out, '\n');
    }
    let changed = end < body_len || (add_newline && !had_newline);
    proof {
        if !changed {
            assert(out@ =~= line@);
        } else if end < body_len {
            if out@.len() == line@.len() {
                // only possible without a newline in the line and with one added
                assert(out@[end as int] != line@[end as int]);
            }
        } else {
            assert(out@.len() != line@.len());
        }
    }
    (out, changed)
}

/// Appending spaces and tabs to text that ends in neither is undone by trimming.
proof fn lemma_trim_appended(c: Seq<char>, w: Seq<char>)
    requires
        c.len() > 0 ==> !is_hspace(c.last()),
        forall|i: int| 0 <= i < w.len() ==> is_hspace(#[trigger] w[i]),
    ensures
        trim_hspace(c + w) == c,
    decreases w.len(),
{
    if w.len() == 0 {
        assert(c + w =~= c);
    } else {
        assert((c + w).drop_last() =~= c + w.drop_last());
        assert(is_hspace(w[w.len() - 1]));
        lemma_trim_appended(c, w.drop_last());
    }
}

/// A line made of some text, then spaces and tabs, then a newline, is
/// normalised to that text and a single newline, whatever the flag.
pub proof fn lemma_trailing_whitespace_removed(c: Seq<char>, w: Seq<char>, normalize_eof: bool)
    requires
        c.len() > 0 ==> !is_hspace(c.last()),
        forall|i: int| 0 <= i < w.len() ==> is_hspace(#[trigger] w[i]),
    ensures
        normalized(c + w + seq!['\n'], normalize_eof) == c.push('\n'),
{
    let s = c + w + seq!['\n'];
    assert(s.drop_last() =~= c + w);
    lemma_trim_appended(c, w);
}

/// A trimmed segment without a terminator holds no newline at all.
proof fn lemma_trim_no_newline(s: Seq<char>)
    requires
        is_segment(s),
        !has_newline(s),
    ensures
        !has_newline(trim_hspace(s)),
        is_segment(trim_hspace(s)),
{
    lemma_trim_prefix(s);
    let t = trim_hspace(s);
    if t.len() > 0 {
        assert(t.last() == s[t.len() - 1]);
    }
    assert forall|i: int| 0 <= i < t.len() - 1 implies t[i] != '\n' by {
        assert(t[i] == s[i]);
    }
}

/// A last line without a newline gains exactly one when end-of-file
/// normalisation is on: its trimmed text, then a single newline.
pub proof fn lemma_eof_newline_added(s: Seq<char>)
    requires
        is_segment(s),
        !has_newline(s),
    ensures
        normalized(s, true) == trim_hspace(s).push('\n'),
        has_newline(normalized(s, true)),
        !has_newline(normalized(s, true).drop_last()),
{
    lemma_trim_no_newline(s);
    assert(normalized(s, true).drop_last() =~= trim_hspace(s));
}

/// A last line without a newline stays without one when end-of-file
/// normalisation is off, and still loses its trailing spaces and tabs.
pub proof fn lemma_eof_newline_not_added(s: Seq<char>)
    requires
        is_segment(s),
        !has_newline(s),
    ensures
        normalized(s, false) == trim_hspace(s),
        !has_newline(normalized(s, false)),
{
    lemma_trim_no_newline(s);
}

/// Normalising a normalised line again, with the same flag, changes nothing.
pub proof fn lemma_normalize_idempotent(s: Seq<char>, normalize_eof: bool)
    requires
        is_segment(s),
    ensures
        normalized(normalized(s, normalize_eof), normalize_eof) == normalized(s, normalize_eof),
{
    let t = normalized(s, normalize_eof);
    lemma_trim_idempotent(body(s));
    if has_newline(s) || normalize_eof {
        assert(t.drop_last() =~= content(s));
    } else {
        lemma_trim_no_newline(s);
    }
}

} // verus!
