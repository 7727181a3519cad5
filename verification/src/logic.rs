//! The three-valued logic of `and` and `or` in the shell's expressions: `false` and `true`
//! decide on their own, `null` is unknown, and any other value counts as false.

use vstd::prelude::*;

verus! {

/// A value as `and` and `or` read it.
#[derive(Debug, Clone, Copy, PartialEq, Eq, Structural)]
pub enum Logical {
    /// `true`.
    True,
    /// `false`.
    False,
    /// `null`: unknown.
    Null,
    /// Any other value.
    Other,
}

/// Whether a value counts as true: only `true` does.
pub open spec fn truthy_spec(v: Logical) -> bool {
    v == Logical::True
}

/// Whether a value counts as true.
pub fn truthy(v: Logical) -> (r: bool)
    ensures
        r == truthy_spec(v),
{
    v == Logical::True
}

/// `and`: `false` on either side decides, else `null` on either side is unknown, else both
/// must count as true.
pub open spec fn and_spec(left: Logical, right: Logical) -> Logical {
    if left == Logical::False || right == Logical::False {
        Logical::False
    } else if left == Logical::Null || right == Logical::Null {
        Logical::Null
    } else if truthy_spec(left) && truthy_spec(right) {
        Logical::True
    } else {
        Logical::False
    }
}

/// `or`: `true` on either side decides, else `null` on either side is unknown, else either
/// must count as true.
pub open spec fn or_spec(left: Logical, right: Logical) -> Logical {
    if left == Logical::True || right == Logical::True {
        Logical::True
    } else if left == Logical::Null || right == Logical::Null {
        Logical::Null
    } else if truthy_spec(left) || truthy_spec(right) {
        Logical::True
    } else {
        Logical::False
    }
}

/// The three-valued `and`.
pub fn kleene_and(left: Logical, right: Logical) -> (r: Logical)
    ensures
        r == and_spec(left, right),
{
    match (left, right) {
        (Logical::False, _) | (_, Logical::False) => Logical::False,
        (Logical::Null, _) | (_, Logical::Null) => Logical::Null,
        _ => if truthy(left) && truthy(right) {
            Logical::True
        } else {
            Logical::False
        },
    }
}

/// The three-valued `or`.
pub fn kleene_or(left: Logical, right: Logical) -> (r: Logical)
    ensures
        r == or_spec(left, right),
{
    match (left, right) {
        (Logical::True, _) | (_, Logical::True) => Logical::True,
        (Logical::Null, _) | (_, Logical::Null) => Logical::Null,
        _ => if truthy(left) || truthy(right) {
            Logical::True
        } else {
            Logical::False
        },
    }
}

/// `and` and `or` do not care which side a value stands on, and their answer is always a truth
/// value or unknown, never another value.
pub proof fn law_kleene_is_symmetric(a: Logical, b: Logical)
    ensures
        and_spec(a, b) == and_spec(b, a),
        or_spec(a, b) == or_spec(b, a),
        and_spec(a, b) != Logical::Other,
        or_spec(a, b) != Logical::Other,
{
}

/// Unknown stays unknown until a deciding value meets it: `null and true` is `null`, `null and
/// false` is `false`, `null or false` is `null`, `null or true` is `true`.
pub proof fn law_unknown_until_decided()
    ensures
        and_spec(Logical::Null, Logical::True) == Logical::Null,
        and_spec(Logical::Null, Logical::False) == Logical::False,
        or_spec(Logical::Null, Logical::False) == Logical::Null,
        or_spec(Logical::Null, Logical::True) == Logical::True,
{
}

} // verus!
