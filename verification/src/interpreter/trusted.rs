//! Calls into code that Verus does not read. Each contract here is taken on trust.

use crate::interpreter::model::is_first_position;
use crate::interpreter::types::{idents, Identified};
use itertools::Itertools;
use vstd::prelude::*;

verus! {

/// `Itertools::find_position`, over the items of a vector, with the test "has this id".
///
/// Trusted: the result is the index of the first item that has `id`, and there is no
/// result exactly when no item has it.
#[verifier::external_body]
pub(crate) fn find_position_by_id<T: Identified>(items: &Vec<T>, id: usize) -> (found: Option<usize>)
    ensures
        match found {
            Some(i) => is_first_position(idents(items@), id, i as int),
            None => forall|j: int| 0 <= j < items@.len() ==> items@[j].ident() != id,
        },
{
    items.iter().find_position(|item| item.has_id(id)).map(|(index, _)| index)
}

/// `String::remove` at position 0.
///
/// Trusted: it takes the first character off a string that has one, and returns it.
#[verifier::external_body]
pub(crate) fn remove_first_char(text: &mut String) -> (first: char)
    requires
        old(text)@.len() > 0,
    ensures
        first == old(text)@[0],
        final(text)@ == old(text)@.skip(1),
{
    text.remove(0)
}

/// `String::push`.
///
/// Trusted: it adds one character at the end of the string.
#[verifier::external_body]
pub(crate) fn push_char(text: &mut String, c: char)
    ensures
        final(text)@ == old(text)@.push(c),
{
    text.push(c)
}

} // verus!
