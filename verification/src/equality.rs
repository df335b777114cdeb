//! What `==` means between runs.

use vstd::prelude::*;
use vstd::std_specs::cmp::PartialEqSpec;
use crate::run::DocString;

verus! {

/// Equality of runs is equality of visible text: it is reflexive, symmetric
/// and transitive, and holds between runs of equal text whatever their
/// buffers, ranges and styles are.
pub proof fn lemma_equality_by_content(a: DocString, b: DocString, c: DocString)
    ensures
        a.eq_spec(&a),
        a.eq_spec(&b) == b.eq_spec(&a),
        a.eq_spec(&b) && b.eq_spec(&c) ==> a.eq_spec(&c),
        a@ == b@ ==> a.eq_spec(&b),
        a.eq_spec(&b) ==> a@ == b@,
{
}

} // verus!
