use vstd::prelude::*;
use vstd::string::StringExecFns;

verus! {

/// The extension that the standard library reads off a path.
pub uninterp spec fn extension_of(path: Seq<char>) -> Option<Seq<char>>;

/// Relies on `std::path::Path::extension`: the part of the file name after
/// its last dot, if the name has one that does not open it. The result
/// depends on the path alone.
#[verifier::external_body]
fn path_extension(path: &str) -> (r: Option<String>)
    ensures
        r.deep_view() == extension_of(path@),
{
    std::path::Path::new(path).extension().and_then(|e| e.to_str()).map(|e| e.to_string())
}

/// An extension is selected when it is present and equals, character for
/// character, one of the configured extensions.
pub open spec fn is_listed(extension: Option<Seq<char>>, extensions: Seq<Seq<char>>) -> bool {
    extension matches Some(e) && extensions.contains(e)
}

/// Tells whether a file with the given extension is to be processed: the
/// comparison is exact, with no case folding and no leading dot.
pub fn extension_listed(extension: Option<&str>, extensions: &[String]) -> (r: bool)
    ensures
        r == is_listed(extension.deep_view(), extensions.deep_view()),
{
    match extension {
        None => false,
        Some(e) => {
            let wanted = String::from_str(e);
            let mut i: usize = 0;
            while i < extensions.len()
                invariant
                    i <= extensions.len(),
                    wanted@ == e@,
                    extension == Some(e),
                    forall|j: int| 0 <= j < i ==> extensions.deep_view()[j] != e@,
                decreases extensions.len() - i,
            {
                if extensions[i] == wanted {
                    assert(extensions.deep_view()[i as int] == e@);
                    assert(extensions.deep_view().contains(e@));
                    return true;
                }
                i = i + 1;
            }
            assert(!extensions.deep_view().contains(e@));
            false
        },
    }
}

/// Tells whether the file at `path` has one of the configured extensions.
pub fn file_matches(path: &str, extensions: &[String]) -> (r: bool)
    ensures
        r == is_listed(extension_of(path@), extensions.deep_view()),
{
    let ext = path_extension(path);
    match &ext {
        None => false,
        Some(e) => extension_listed(Some(e.as_str()), extensions),
    }
}

} // verus!
