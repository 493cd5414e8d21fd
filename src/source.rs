use vstd::prelude::*;

use crate::words::{count_text, Matcher};

verus! {

/// Why a source gave no count.
#[derive(Clone, Copy, Debug, PartialEq, Eq, Structural)]
pub enum SourceError {
    /// The source could not be opened or streamed.
    SourceUnreadable,
    /// Part of the source could not be decoded as text.
    SourceCorrupt,
}

/// One input text, as it was read: its whole content, or the reason it could not be had.
#[derive(Debug)]
pub enum Source {
    Text(String),
    Failed(SourceError),
}

/// What counting one source gives: the number of matching words, or the source's error.
pub open spec fn outcome(s: Source, variants: Seq<Seq<char>>) -> Result<usize, SourceError> {
    match s {
        Source::Text(t) => Ok(count_text(t@, variants) as usize),
        Source::Failed(e) => Err(e),
    }
}

/// The outcome of each source, in source order.
pub open spec fn outcomes(sources: Seq<Source>, variants: Seq<Seq<char>>) -> Seq<
    Result<usize, SourceError>,
> {
    sources.map_values(|s: Source| outcome(s, variants))
}

impl Source {
    /// The unit of work: counts the words of this source that `m` accepts.
    pub fn count(&self, m: &Matcher) -> (r: Result<usize, SourceError>)
        ensures
            r == outcome(*self, m@),
            r matches Ok(n) ==> n as nat == count_text(self->Text_0@, m@),
    {
        match self {
            Source::Text(t) => Ok(m.count_in(t.as_str())),
            Source::Failed(e) => Err(*e),
        }
    }
}

} // verus!
