use vstd::prelude::*;
use vstd::string::StringExecFns;
use crate::text::join;

verus! {

/// Why a file could not be cleaned.
#[derive(Debug, Clone, Copy, PartialEq, Eq, Structural)]
pub enum LinemanFileError {
    /// The file could not be read as text.
    FileNotOpened,
    /// The file was read but could not be written back; it may be left
    /// partly written.
    FileNotCleaned,
}

/// What processing a file came to when it succeeded.
#[derive(Debug, Clone, Copy, PartialEq, Eq, Structural)]
pub enum FileOutcome {
    /// The content changed and the file was rewritten.
    Cleaned,
    /// The content was already clean; the file was left untouched.
    Unchanged,
}

/// The three lists that a run builds while it walks the tree, in the order
/// in which their entries were met.
pub struct RunReport {
    pub cleaned: Vec<String>,
    pub skipped: Vec<String>,
    pub errors: Vec<String>,
}

/// One report entry: an indented line.
pub open spec fn entry_line(item: Seq<char>) -> Seq<char> {
    seq![' ', ' ', ' ', ' '] + item + seq!['\n']
}

/// A titled section of the report: the title, then each entry on its own line.
pub open spec fn section(title: Seq<char>, items: Seq<Seq<char>>) -> Seq<char> {
    title + join(items.map_values(|item: Seq<char>| entry_line(item)))
}

impl RunReport {
    /// The text of the report: cleaned files, skipped files, traversal errors.
    pub open spec fn text(&self) -> Seq<char> {
        section("Cleaned Files:\n"@, self.cleaned.deep_view()) + section(
            "Skipped Files:\n"@,
            self.skipped.deep_view(),
        ) + section("Walkdir Errors:\n"@, self.errors.deep_view())
    }

    /// A report with every list empty.
    pub fn new() -> (r: RunReport)
        ensures
            r.cleaned@.len() == 0,
            r.skipped@.len() == 0,
            r.errors@.len() == 0,
    {
        RunReport { cleaned: Vec::new(), skipped: Vec::new(), errors: Vec::new() }
    }

    /// Files an entry for a processed file: a rewritten file goes to the
    /// cleaned list, a failed one to the skipped list, and an unchanged one
    /// to neither.
    pub fn record_file(&mut self, path: String, outcome: Result<FileOutcome, LinemanFileError>)
        ensures
            final(self).errors@ == old(self).errors@,
            final(self).cleaned@ == if outcome == Ok::<FileOutcome, LinemanFileError>(
                FileOutcome::Cleaned,
            ) {
                old(self).cleaned@.push(path)
            } else {
                old(self).cleaned@
            },
            final(self).skipped@ == if outcome is Err {
                old(self).skipped@.push(path)
            } else {
                old(self).skipped@
            },
    {
        match outcome {
            Ok(FileOutcome::Cleaned) => self.cleaned.push(path),
            Ok(FileOutcome::Unchanged) => {},
            Err(_) => self.skipped.push(path),
        }
    }

    /// Files a failure met while walking the tree.
    pub fn record_traversal_error(&mut self, message: String)
        ensures
            final(self).cleaned@ == old(self).cleaned@,
            final(self).skipped@ == old(self).skipped@,
            final(self).errors@ == old(self).errors@.push(message),
    {
        self.errors.push(message);
    }

    /// Writes out the report as text.
    pub fn render(&self) -> (r: String)
        ensures
            r@ == self.text(),
    {
        let mut out = String::new();
        append_section(&mut out, "Cleaned Files:\n", &self.cleaned);
        append_section(&mut out, "Skipped Files:\n", &self.skipped);
        append_section(&mut out, "Walkdir Errors:\n", &self.errors);
        out
    }
}

/// Appends one titled section of the report.
fn append_section(out: &mut String, title: &str, items: &Vec<String>)
    ensures
        final(out)@ == old(out)@ + section(title@, items.deep_view()),
{
    let ghost lines = items.deep_view().map_values(|item: Seq<char>| entry_line(item));
    let ghost start = out@ + title@;
    out.append(title);
    let mut i: usize = 0;
    while i < items.len()
        invariant
            i <= items.len(),
            lines == items.deep_view().map_values(|item: Seq<char>| entry_line(item)),
            out@ == start + join(lines.take(i as int)),
        decreases items.len() - i,
    {
        out.append("    ");
        out.append(items[i].as_str());
        out.append("\n");
        proof {
            reveal_strlit("    ");
            reveal_strlit("\n");
            assert(lines.take(i + 1).drop_last() =~= lines.take(i as int));
            assert("    "@ =~= seq![' ', ' ', ' ', ' ']);
            assert("\n"@ =~= seq!['\n']);
        }
        i = i + 1;
    }
    assert(lines.take(items.len() as int) =~= lines);
    assert(start + join(lines) =~= old(out)@ + section(title@, items.deep_view()));
}

} // verus!
