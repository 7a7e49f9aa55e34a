//! The preprocessor: the rewriting of one chapter's text, and of all the
//! chapters of a book.

use vstd::prelude::*;
use crate::events::Shape;
use crate::markdown::{can_serialize, parse_markdown, parsed, serializable, serialize, serialized};
use crate::scanner::{law_without_delimiter_unchanged, no_delimiter, scan, scan_events};

verus! {

/// Why a chapter could not be written back.
#[derive(Clone, Copy, Debug, PartialEq, Eq)]
pub enum TransformError {
    /// The events left after the scan end a heading, a link or an image that
    /// they have not opened, or open a heading inside a heading: a frontmatter
    /// block has swallowed the other end.
    Unbalanced,
}

/// The events of a chapter after the scan.
pub open spec fn rewritten(text: Seq<char>) -> Seq<Shape<'static>> {
    scan(parsed(text))
}

/// A chapter without a delimiter goes to the serializer as the parser read
/// it: its new text is what parsing and serializing alone would give.
pub proof fn law_round_trip_without_delimiter(text: Seq<char>)
    requires
        no_delimiter(parsed(text)),
    ensures
        rewritten(text) == parsed(text),
        serialized(rewritten(text)) == serialized(parsed(text)),
{
    law_without_delimiter_unchanged(parsed(text));
}

/// Rewrites the text of a chapter: parses it, replaces each frontmatter
/// block by its table, and writes the events back as text. It fails exactly
/// where the events left after the scan cannot be written.
pub fn transform(text: &str) -> (result: Result<String, TransformError>)
    ensures
        result is Ok <==> serializable(rewritten(text@)),
        result matches Ok(out) ==> out@ == serialized(rewritten(text@)),
        result matches Err(error) ==> error == TransformError::Unbalanced,
{
    let events = scan_events(parse_markdown(text));
    if can_serialize(&events) {
        match serialize(&events) {
            Ok(out) => Ok(out),
            // never taken: the serializer fails only where its buffer does
            Err(_) => unreached(),
        }
    } else {
        Err(TransformError::Unbalanced)
    }
}

/// The preprocessor for frontmatter.
pub struct FrontmatterPreprocessor;

impl Default for FrontmatterPreprocessor {
    fn default() -> (preprocessor: Self)
        ensures
            preprocessor == FrontmatterPreprocessor,
    {
        FrontmatterPreprocessor
    }
}

impl FrontmatterPreprocessor {
    /// The name under which a book's configuration knows this preprocessor.
    pub fn name(&self) -> (name: &'static str)
        ensures
            name@ == "frontmatter-preprocessor"@,
    {
        "frontmatter-preprocessor"
    }

    /// Rewrites the texts of the chapters of a book, each by itself and in
    /// their order. It succeeds exactly where every chapter can be written
    /// back; otherwise the first chapter that cannot ends the run.
    pub fn run(&self, chapters: Vec<String>) -> (result: Result<Vec<String>, TransformError>)
        ensures
            result is Ok <==> forall|i: int|
                0 <= i < chapters.len() ==> serializable(rewritten(#[trigger] chapters[i]@)),
            result matches Ok(out) ==> {
                &&& out.len() == chapters.len()
                &&& forall|i: int|
                    0 <= i < chapters.len() ==> #[trigger] out[i]@ == serialized(
                        rewritten(chapters[i]@),
                    )
            },
            result matches Err(error) ==> error == TransformError::Unbalanced,
    {
        let mut out: Vec<String> = Vec::new();
        let mut i: usize = 0;
        while i < chapters.len()
            invariant
                i <= chapters.len(),
                out.len() == i,
                forall|j: int| 0 <= j < i ==> serializable(rewritten(#[trigger] chapters[j]@)),
                forall|j: int|
                    0 <= j < i ==> #[trigger] out[j]@ == serialized(rewritten(chapters[j]@)),
            decreases chapters.len() - i,
        {
            match transform(chapters[i].as_str()) {
                Ok(text) => out.push(text),
                Err(error) => {
                    assert(!serializable(rewritten(chapters[i as int]@)));
                    return Err(error);
                },
            }
            i = i + 1;
        }
        Ok(out)
    }
}

} // verus!
