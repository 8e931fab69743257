use vstd::prelude::*;

verus! {

/// Why a rule did not match: where in the text it gave up, and whether it had
/// already committed to what it was reading.
///
/// `at` is the text from the offending position to the end. A committed
/// failure ends the parse: neither another alternative nor the end of a
/// repetition can recover from it.
#[derive(Debug, PartialEq, Eq, Clone, Copy)]
pub struct ParseError<'src> {
    pub at: &'src str,
    pub committed: bool,
}

/// The mathematical content of a [`ParseError`].
pub struct Failure {
    pub at: Seq<char>,
    pub committed: bool,
}

impl<'src> View for ParseError<'src> {
    type V = Failure;

    open spec fn view(&self) -> Failure {
        Failure { at: self.at@, committed: self.committed }
    }
}

impl<'src> ParseError<'src> {
    /// The offending position as a count of characters from the start of
    /// `source`, the text that was parsed: the length of `source` less the
    /// length of what the error still had before it.
    pub fn position(&self, source: &str) -> (p: usize)
        ensures
            p == if self.at@.len() <= source@.len() {
                source@.len() - self.at@.len()
            } else {
                0
            },
    {
        let whole = source.unicode_len();
        let left = self.at.unicode_len();
        if left <= whole {
            whole - left
        } else {
            0
        }
    }
}

/// Why an expression has no value.
#[derive(Debug, PartialEq, Eq, Clone, Copy)]
pub enum EvalError<'src> {
    /// The expression names something other than a predefined constant.
    UnboundIdentifier { name: &'src str },
}

} // verus!
