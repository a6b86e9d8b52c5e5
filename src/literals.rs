//! The finite sequences of literals that `regex_syntax` extracts from a pattern.

use vstd::prelude::*;

verus! {

#[verifier::external_type_specification]
#[verifier::external_body]
pub struct ExLiteralSeq(regex_syntax::hir::literal::Seq);

/// Whether the sequence is finite, so that its literals are known.
pub uninterp spec fn is_finite_of(s: regex_syntax::hir::literal::Seq) -> bool;

/// The bytes of the literals of a finite sequence, in order.
pub uninterp spec fn literals_of(s: regex_syntax::hir::literal::Seq) -> Seq<Seq<u8>>;

/// The byte strings held in a vector of vectors.
pub open spec fn views(v: Seq<Vec<u8>>) -> Seq<Seq<u8>> {
    v.map_values(|x: Vec<u8>| x@)
}

/// `m` is the length of the shortest of `lits`.
pub open spec fn is_min_len(lits: Seq<Seq<u8>>, m: nat) -> bool {
    &&& exists|i: int| 0 <= i < lits.len() && #[trigger] lits[i].len() == m
    &&& forall|i: int| 0 <= i < lits.len() ==> m <= #[trigger] lits[i].len()
}

/// Relies on `Seq::len`: the number of literals of a finite sequence, and
/// `None` for an infinite one.
#[verifier::external_body]
pub(crate) fn literal_count(s: &regex_syntax::hir::literal::Seq) -> (r: Option<usize>)
    ensures
        r is Some <==> is_finite_of(*s),
        r matches Some(n) ==> n == literals_of(*s).len(),
{
    s.len()
}

/// Relies on `Seq::min_literal_len`: the length of the shortest literal, and
/// `None` when the sequence is infinite or empty.
#[verifier::external_body]
pub(crate) fn min_literal_len(s: &regex_syntax::hir::literal::Seq) -> (r: Option<usize>)
    ensures
        (r is Some) == (is_finite_of(*s) && literals_of(*s).len() > 0),
        r matches Some(m) ==> is_min_len(literals_of(*s), m as nat),
{
    s.min_literal_len()
}

/// Relies on `Seq::literals` and `Literal::as_bytes`: the bytes of each
/// literal of a finite sequence, and `None` for an infinite one.
#[verifier::external_body]
pub(crate) fn literal_bytes(s: &regex_syntax::hir::literal::Seq) -> (r: Option<Vec<Vec<u8>>>)
    ensures
        r is Some <==> is_finite_of(*s),
        r matches Some(v) ==> views(v@) == literals_of(*s),
{
    s.literals().map(|lits| lits.iter().map(|l| l.as_bytes().to_vec()).collect())
}

} // verus!
