use std::str::Chars;
use vstd::prelude::*;
use vstd::std_specs::iter::IteratorSpec;

verus! {

/// `Chars::as_str` of std: the text that the iterator has not yet yielded, as a
/// slice of the string it walks. The contract says that this slice holds exactly
/// the characters still to come.
pub assume_specification<'a>[ Chars::<'a>::as_str ](chars: &Chars<'a>) -> (rest: &'a str)
    ensures
        rest@ == chars.remaining(),
;

/// The first character of `input`, if it has one.
pub fn peek_char(input: &str) -> (c: Option<char>)
    ensures
        c == if input@.len() > 0 { Some(input@[0]) } else { None },
{
    broadcast use vstd::string::group_string_axioms;
    let mut chars = input.chars();
    chars.next()
}

/// `input` without its first character; an empty input stays empty.
pub fn advance_char(input: &str) -> (rest: &str)
    ensures
        rest@ == if input@.len() > 0 { input@.skip(1) } else { input@ },
{
    broadcast use vstd::string::group_string_axioms;
    let mut chars = input.chars();
    chars.next();
    chars.as_str()
}

} // verus!
