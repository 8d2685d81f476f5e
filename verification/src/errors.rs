//! How a command's error is reported: the error and each of its causes, outermost first,
//! separated by `: `.
use vstd::prelude::*;

use crate::text::{join_with, push_str};

verus! {

#[verifier::external_type_specification]
#[verifier::external_body]
pub struct ExAnyhowError(anyhow::Error);

/// The messages of an error chain joined by `: ` (what `anyhow` prints for `{:#}`).
pub fn join_error_chain(messages: &Vec<String>) -> (r: String)
    ensures
        r@ == join_with(messages@.map_values(|m: String| m@), ": "@),
{
    let ghost mv = messages@.map_values(|m: String| m@);
    let mut r = String::new();
    let mut i: usize = 0;
    while i < messages.len()
        invariant
            i <= messages.len(),
            mv == messages@.map_values(|m: String| m@),
            r@ == join_with(mv.take(i as int), ": "@),
        decreases messages.len() - i,
    {
        assert(mv.take(i + 1).drop_last() =~= mv.take(i as int));
        if i > 0 {
            push_str(&mut r, ": ");
        } else {
            assert(mv.take(0) =~= Seq::<Seq<char>>::empty());
            assert(mv.take(1) =~= seq![mv[0]]);
        }
        push_str(&mut r, messages[i].as_str());
        i += 1;
    }
    assert(mv.take(messages.len() as int) =~= mv);
    r
}

/// The messages that an `anyhow::Error` holds: its own, then each cause's, outermost first
/// (the `Display` of each item of `Error::chain`).
pub uninterp spec fn error_chain_of(error: anyhow::Error) -> Seq<Seq<char>>;

/// `anyhow::Error::chain`, each item rendered by its `Display`. The messages are named by
/// `error_chain_of`; the chain starts with the error itself, so it is never empty.
#[verifier::external_body]
fn chain_messages(error: &anyhow::Error) -> (r: Vec<String>)
    ensures
        r@.map_values(|m: String| m@) == error_chain_of(*error),
        r@.len() >= 1,
{
    error.chain().map(|cause| cause.to_string()).collect()
}

/// The error and all its causes on one line, separated by `: `.
pub fn format_error_chain(error: &anyhow::Error) -> (r: String)
    ensures
        r@ == join_with(error_chain_of(*error), ": "@),
        error_chain_of(*error).len() >= 1,
{
    let messages = chain_messages(error);
    join_error_chain(&messages)
}

} // verus!
