//! The order in which the match finder ranks two candidates.

use vstd::prelude::*;
use core::cmp::Ordering;
use crate::lzss::code::Code;

verus! {

/// How `lhs` ranks against `rhs`: `Less` is the better one.
///
/// Of two back-references the longer is better, and two of one length rank
/// alike, so that the finder keeps the one it met first, the nearer one. A
/// literal is better than a back-reference, and two literals rank alike.
pub open spec fn ranking(lhs: Code, rhs: Code) -> Ordering {
    match (lhs, rhs) {
        (Code::Reference { len, pos: _ }, Code::Reference { len: rlen, pos: _ }) => {
            if rlen < len {
                Ordering::Less
            } else if rlen == len {
                Ordering::Equal
            } else {
                Ordering::Greater
            }
        },
        (Code::Symbol(_), Code::Symbol(_)) => Ordering::Equal,
        (Code::Reference { .. }, Code::Symbol(_)) => Ordering::Greater,
        (Code::Symbol(_), Code::Reference { .. }) => Ordering::Less,
    }
}

/// Ranks two candidates of the match finder.
pub fn comparison(lhs: Code, rhs: Code) -> (order: Ordering)
    ensures
        order == ranking(lhs, rhs),
{
    match (lhs, rhs) {
        (Code::Reference { len, pos: _ }, Code::Reference { len: rlen, pos: _ }) => {
            if rlen < len {
                Ordering::Less
            } else if rlen == len {
                Ordering::Equal
            } else {
                Ordering::Greater
            }
        },
        (Code::Symbol(_), Code::Symbol(_)) => Ordering::Equal,
        (Code::Reference { .. }, Code::Symbol(_)) => Ordering::Greater,
        (Code::Symbol(_), Code::Reference { .. }) => Ordering::Less,
    }
}

} // verus!
