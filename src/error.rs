use vstd::prelude::*;

verus! {

/// Why decoding an archive or a scene document failed.
#[derive(Debug, Clone, Copy, PartialEq, Eq, Structural)]
pub enum ParseError {
    /// A record starts with none of the three known signatures.
    UnrecognizedSignature,
    /// A fixed field or a declared length runs past the end of the buffer.
    TruncatedInput,
    /// A name or a text document is not valid UTF-8.
    InvalidEncoding,
    /// The scene text does not follow the grammar.
    GrammarMismatch,
}

} // verus!
