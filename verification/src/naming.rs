//! Case conversion of declared names, done by the `heck` crate.

use vstd::prelude::*;

verus! {

/// What `heck` makes of `name` in snake case.
pub uninterp spec fn snake_case(name: Seq<char>) -> Seq<char>;

/// What `heck` makes of `name` in upper camel case.
pub uninterp spec fn upper_camel_case(name: Seq<char>) -> Seq<char>;

/// Calls `heck::ToSnakeCase::to_snake_case` on a string slice. The conversion
/// reads nothing but the characters of `name`, so the result is `snake_case`
/// of them; nothing else is claimed of it.
#[verifier::external_body]
pub(crate) fn to_snake_case(name: &str) -> (converted: String)
    ensures
        converted@ == snake_case(name@),
{
    heck::ToSnakeCase::to_snake_case(name)
}

/// Calls `heck::ToUpperCamelCase::to_upper_camel_case` on a string slice. The
/// conversion reads nothing but the characters of `name`, so the result is
/// `upper_camel_case` of them; nothing else is claimed of it.
#[verifier::external_body]
pub(crate) fn to_upper_camel_case(name: &str) -> (converted: String)
    ensures
        converted@ == upper_camel_case(name@),
{
    heck::ToUpperCamelCase::to_upper_camel_case(name)
}

/// Each name of a list in snake case.
pub open spec fn snake_cases(names: Seq<Seq<char>>) -> Seq<Seq<char>> {
    Seq::new(names.len(), |i: int| snake_case(names[i]))
}

} // verus!
