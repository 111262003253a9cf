//! The checks a test client makes on a server's answer: the command name
//! before the first `;` of the trimmed line, and the `;`-separated
//! arguments after it.

use vstd::prelude::*;
use crate::text::{split, split_once, split_once_spec, split_spec, str_eq, trim, trim_spec, views};

verus! {

/// The arguments of a trimmed answer line, if it has a `;`.
pub open spec fn answer_args(payload: Seq<char>) -> Option<Seq<Seq<char>>> {
    match split_once_spec(trim_spec(payload), ';') {
        Some((_, rest)) => Some(split_spec(rest, ';')),
        None => None,
    }
}

/// Whether the answer names `command`; `false` for a line without `;`.
pub fn check_command(payload: &str, command: &str) -> (res: bool)
    ensures
        res == (split_once_spec(trim_spec(payload@), ';') matches Some((c, _)) && c == command@),
{
    match split_once(trim(payload), ';') {
        Some((c, _)) => str_eq(c, command),
        None => false,
    }
}

/// Whether the answer has `noa` arguments. `false` for a line
/// without `;`.
pub fn check_number_of_arguments(payload: &str, noa: usize) -> (res: bool)
    ensures
        res == (answer_args(payload@) matches Some(args) && args.len() == noa),
{
    match split_once(trim(payload), ';') {
        Some((_, rest)) => {
            let args = split(rest, ';');
            assert(views(args@).len() == args@.len());
            args.len() == noa
        },
        None => false,
    }
}

/// The text of argument `idx` of the answer, for the caller to parse;
/// `None` when the line has no `;` or too few arguments.
pub fn extract_arg<'a>(payload: &'a str, idx: usize) -> (res: Option<&'a str>)
    ensures
        match answer_args(payload@) {
            Some(args) => if idx < args.len() {
                res matches Some(a) && a@ == args[idx as int]
            } else {
                res is None
            },
            None => res is None,
        },
{
    match split_once(trim(payload), ';') {
        Some((_, rest)) => {
            let args = split(rest, ';');
            assert(views(args@).len() == args@.len());
            if idx < args.len() {
                assert(views(args@)[idx as int] == args@[idx as int]@);
                Some(args[idx])
            } else {
                None
            }
        },
        None => None,
    }
}

} // verus!
