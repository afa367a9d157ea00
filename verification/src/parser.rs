//! The parts of a document: raw text and the code regions between it.

use vstd::prelude::*;

verus! {

/// A snippet of code, as it stands in the document.
#[derive(Debug, PartialEq)]
pub struct Code(pub String);

impl View for Code {
    type V = Seq<char>;

    open spec fn view(&self) -> Seq<char> {
        self.0@
    }
}

/// One chunk of a document.
#[derive(Debug, PartialEq)]
pub enum Chunk {
    /// Code in a comment: it is executed and its result is discarded.
    Comment(Code),
    /// Interpolated code: it is executed and its result is inlined.
    Interpolate(Code),
    /// Raw text, which is not executed.
    Raw(String),
}

/// A document: its chunks, in order.
#[derive(Debug, PartialEq)]
pub struct Document {
    pub chunks: Vec<Chunk>,
}

} // verus!
