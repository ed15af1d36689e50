//! The error of a failed parse.
use vstd::prelude::*;

verus! {

/// A parse that could not finish: the text breaks the lexical rules of its language.
#[derive(Debug)]
pub enum CoreError {
    SyntaxError(String),
}

/// Which lexical rule a text broke.
#[derive(Debug, Clone, Copy, PartialEq, Eq, Structural)]
pub enum SyntaxErrorKind {
    /// A line lacks the prefix that the language requires.
    MissingPrefix,
    /// A block comment (documentation or not) has no end.
    UnterminatedComment,
    /// A documentation string has no end.
    UnterminatedDocQuote,
    /// A literal string has no end.
    UnterminatedLitQuote,
    /// A string has no end.
    UnterminatedQuote,
    /// An embedded-language region has no end.
    UnterminatedSubLanguage,
}

impl SyntaxErrorKind {
    /// The message that the error carries.
    pub open spec fn spec_message(self) -> Seq<char> {
        match self {
            SyntaxErrorKind::MissingPrefix => "Missing line prefix."@,
            SyntaxErrorKind::UnterminatedComment => "No Comment Ending found."@,
            SyntaxErrorKind::UnterminatedDocQuote => "No Normal Document Quote Ending found."@,
            SyntaxErrorKind::UnterminatedLitQuote => "No Literal Quote Ending found."@,
            SyntaxErrorKind::UnterminatedQuote => "No Normal Quote Ending found."@,
            SyntaxErrorKind::UnterminatedSubLanguage => "Ended sub language part."@,
        }
    }

    /// The message that the error carries.
    pub fn message(&self) -> (r: String)
        ensures
            r@ == self.spec_message(),
    {
        match self {
            SyntaxErrorKind::MissingPrefix => "Missing line prefix.".to_owned(),
            SyntaxErrorKind::UnterminatedComment => "No Comment Ending found.".to_owned(),
            SyntaxErrorKind::UnterminatedDocQuote => "No Normal Document Quote Ending found.".to_owned(),
            SyntaxErrorKind::UnterminatedLitQuote => "No Literal Quote Ending found.".to_owned(),
            SyntaxErrorKind::UnterminatedQuote => "No Normal Quote Ending found.".to_owned(),
            SyntaxErrorKind::UnterminatedSubLanguage => "Ended sub language part.".to_owned(),
        }
    }

    /// The error that carries this kind's message.
    pub fn to_error(&self) -> (r: CoreError)
        ensures
            r matches CoreError::SyntaxError(m) && m@ == self.spec_message(),
    {
        CoreError::SyntaxError(self.message())
    }
}

} // verus!
