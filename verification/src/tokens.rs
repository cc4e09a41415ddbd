//! The token recognisers of the `nom` crate, each with what it is trusted to do.
//!
//! Every function here returns the unconsumed rest first and the recognised
//! text second, as `nom` does, and `None` where `nom` reports an error.

use crate::text::{run_length, CharClass};
use vstd::prelude::*;

verus! {

/// `nom::bytes::complete::tag`: where `input` starts with `tag`, it is split
/// behind `tag`; otherwise the call fails.
#[verifier::external_body]
pub(crate) fn take_tag<'a>(input: &'a str, tag: &str) -> (r: Option<(&'a str, &'a str)>)
    ensures
        match r {
            Some((rest, found)) => tag@.is_prefix_of(input@) && found@ == tag@ && rest@
                == input@.skip(tag@.len() as int),
            None => !tag@.is_prefix_of(input@),
        },
{
    nom::bytes::complete::tag::<&str, &str, nom::error::Error<&str>>(tag)(input).ok()
}

/// `nom::bytes::complete::take_until`: `input` is split in front of the first
/// place at which `pattern` occurs in it; where it occurs nowhere, the call
/// fails.
#[verifier::external_body]
pub(crate) fn take_until<'a>(input: &'a str, pattern: &str) -> (r: Option<(&'a str, &'a str)>)
    ensures
        match r {
            Some((rest, found)) => {
                &&& input@ == found@ + rest@
                &&& pattern@.is_prefix_of(rest@)
                &&& forall|k: int|
                    0 <= k < found@.len() ==> !pattern@.is_prefix_of(#[trigger] input@.skip(k))
            },
            None => forall|k: int|
                0 <= k <= input@.len() ==> !pattern@.is_prefix_of(#[trigger] input@.skip(k)),
        },
{
    nom::bytes::complete::take_until::<&str, &str, nom::error::Error<&str>>(pattern)(input).ok()
}

/// `nom::character::complete::digit1`: `input` is split behind its leading
/// ASCII digits; where it starts with none, the call fails.
#[verifier::external_body]
pub(crate) fn take_digits<'a>(input: &'a str) -> (r: Option<(&'a str, &'a str)>)
    ensures
        match r {
            Some((rest, found)) => {
                &&& run_length(input@, CharClass::Digit) > 0
                &&& found@ == input@.take(run_length(input@, CharClass::Digit) as int)
                &&& rest@ == input@.skip(run_length(input@, CharClass::Digit) as int)
            },
            None => run_length(input@, CharClass::Digit) == 0,
        },
{
    nom::character::complete::digit1::<&str, nom::error::Error<&str>>(input).ok()
}

/// `nom::character::complete::alpha1`: `input` is split behind its leading
/// ASCII letters; where it starts with none, the call fails.
#[verifier::external_body]
pub(crate) fn take_letters<'a>(input: &'a str) -> (r: Option<(&'a str, &'a str)>)
    ensures
        match r {
            Some((rest, found)) => {
                &&& run_length(input@, CharClass::Letter) > 0
                &&& found@ == input@.take(run_length(input@, CharClass::Letter) as int)
                &&& rest@ == input@.skip(run_length(input@, CharClass::Letter) as int)
            },
            None => run_length(input@, CharClass::Letter) == 0,
        },
{
    nom::character::complete::alpha1::<&str, nom::error::Error<&str>>(input).ok()
}

/// `nom::character::complete::multispace0`: `input` is split behind its
/// leading spaces, tabs, carriage returns and line feeds. The call never fails.
#[verifier::external_body]
pub(crate) fn take_spaces<'a>(input: &'a str) -> (r: Option<(&'a str, &'a str)>)
    ensures
        match r {
            Some((rest, found)) => {
                &&& found@ == input@.take(run_length(input@, CharClass::Space) as int)
                &&& rest@ == input@.skip(run_length(input@, CharClass::Space) as int)
            },
            None => false,
        },
{
    nom::character::complete::multispace0::<&str, nom::error::Error<&str>>(input).ok()
}

} // verus!
