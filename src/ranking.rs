//! The summary of a candidate literal sequence, and how two summaries rank.

use crate::literals::{
    is_finite_of, is_min_len, literal_bytes, literal_count, literals_of, min_literal_len, views,
};
use crate::quality::{atom_quality, quality, MAX_ATOM_LEN};
use std::cmp::Ordering;
use vstd::std_specs::cmp::PartialOrdSpec;
use vstd::prelude::*;

verus! {

/// What ranks a candidate sequence of atoms: its number of atoms, and the
/// length and the quality of its worst atoms.
#[derive(Clone, Copy, Debug, PartialEq, Eq, Structural)]
pub struct SeqQuality {
    pub seq_len: u32,
    pub min_atom_len: u32,
    pub min_atom_quality: i32,
}

/// `a` ranks above `b`. The worst atom's quality decides first; with equal
/// shortest atoms the quality, then the smaller count; a sequence whose
/// shortest atom is one byte shorter wins only with at most a 256th of the
/// other's count; otherwise the better quality or the longer atoms win.
pub open spec fn ranks_above(a: SeqQuality, b: SeqQuality) -> bool {
    if a.min_atom_quality > b.min_atom_quality {
        true
    } else if a.min_atom_len == b.min_atom_len {
        if a.min_atom_quality == b.min_atom_quality {
            a.seq_len < b.seq_len
        } else {
            a.min_atom_quality > b.min_atom_quality
        }
    } else if a.min_atom_len + 1 == b.min_atom_len {
        a.seq_len * 256 <= b.seq_len
    } else if a.min_atom_len == b.min_atom_len + 1 {
        a.seq_len < b.seq_len * 256
    } else {
        a.min_atom_quality > b.min_atom_quality || a.min_atom_len > b.min_atom_len
    }
}

/// How `a` compares with `b`: never equal, one of the two ranks above.
pub open spec fn rank(a: SeqQuality, b: SeqQuality) -> Ordering {
    if ranks_above(a, b) {
        Ordering::Greater
    } else {
        Ordering::Less
    }
}

/// The sentinel that ranks below every sequence.
pub open spec fn worst() -> SeqQuality {
    SeqQuality { seq_len: u32::MAX, min_atom_len: 0, min_atom_quality: i32::MIN }
}

/// `q` is the lowest quality of the atoms `lits`.
pub open spec fn is_min_quality(lits: Seq<Seq<u8>>, q: int) -> bool {
    &&& exists|i: int| 0 <= i < lits.len() && quality(#[trigger] lits[i]) == q
    &&& forall|i: int| 0 <= i < lits.len() ==> q <= quality(#[trigger] lits[i])
}

/// Every atom of `lits` is short enough to be scored, and they can be counted
/// in a `u32`.
pub open spec fn scorable(lits: Seq<Seq<u8>>) -> bool {
    &&& lits.len() <= u32::MAX
    &&& forall|i: int| 0 <= i < lits.len() ==> #[trigger] lits[i].len() <= MAX_ATOM_LEN
}

/// `r` summarises the atoms `lits`: their number, the shortest length (0 when
/// there is none) and the lowest quality (`i32::MIN` when there is none).
pub open spec fn summarises(lits: Seq<Seq<u8>>, r: SeqQuality) -> bool {
    &&& r.seq_len == lits.len()
    &&& lits.len() == 0 ==> r.min_atom_len == 0 && r.min_atom_quality == i32::MIN
    &&& lits.len() > 0 ==> is_min_len(lits, r.min_atom_len as nat) && is_min_quality(
        lits,
        r.min_atom_quality as int,
    )
}

impl SeqQuality {
    /// The sentinel that ranks below every sequence.
    pub fn min() -> (r: Self)
        ensures
            r == worst(),
    {
        Self { seq_len: u32::MAX, min_atom_len: 0, min_atom_quality: i32::MIN }
    }
}

impl PartialOrd for SeqQuality {
    fn partial_cmp(&self, other: &Self) -> (r: Option<Ordering>) {
        // The worst atom of this sequence is better than the other's.
        if self.min_atom_quality > other.min_atom_quality {
            return Some(Ordering::Greater);
        }
        // With shortest atoms of the same length, the higher quality wins,
        // and with equal qualities the sequence with fewer atoms.
        if self.min_atom_len == other.min_atom_len {
            if self.min_atom_quality == other.min_atom_quality {
                if self.seq_len < other.seq_len {
                    return Some(Ordering::Greater);
                } else {
                    return Some(Ordering::Less);
                }
            } else if self.min_atom_quality > other.min_atom_quality {
                return Some(Ordering::Greater);
            } else {
                return Some(Ordering::Less);
            }
        }
        // One atom of length N is preferred over 256 atoms of length N+1.
        if self.min_atom_len as u64 + 1 == other.min_atom_len as u64 {
            if self.seq_len as u64 * 256 <= other.seq_len as u64 {
                return Some(Ordering::Greater);
            } else {
                return Some(Ordering::Less);
            }
        }
        if self.min_atom_len as u64 == other.min_atom_len as u64 + 1 {
            if (self.seq_len as u64) < other.seq_len as u64 * 256 {
                return Some(Ordering::Greater);
            } else {
                return Some(Ordering::Less);
            }
        }
        // Otherwise the better quality or the longer shortest atom wins.
        if self.min_atom_quality > other.min_atom_quality || self.min_atom_len
            > other.min_atom_len {
            Some(Ordering::Greater)
        } else {
            Some(Ordering::Less)
        }
    }
}

impl vstd::std_specs::cmp::PartialOrdSpecImpl for SeqQuality {
    open spec fn obeys_partial_cmp_spec() -> bool {
        true
    }

    open spec fn partial_cmp_spec(&self, other: &SeqQuality) -> Option<Ordering> {
        Some(rank(*self, *other))
    }
}

/// The lowest quality among the atoms `lits`, or `i32::MIN` when there is none.
pub fn min_atom_quality(lits: &Vec<Vec<u8>>) -> (r: i32)
    requires
        forall|i: int| 0 <= i < lits@.len() ==> #[trigger] lits@[i]@.len() <= MAX_ATOM_LEN,
    ensures
        lits@.len() == 0 ==> r == i32::MIN,
        lits@.len() > 0 ==> is_min_quality(views(lits@), r as int),
{
    let ghost ls = views(lits@);
    let mut m: i32 = i32::MIN;
    let mut i: usize = 0;
    while i < lits.len()
        invariant
            ls == views(lits@),
            i <= lits@.len(),
            forall|j: int| 0 <= j < lits@.len() ==> #[trigger] lits@[j]@.len() <= MAX_ATOM_LEN,
            i == 0 ==> m == i32::MIN,
            i > 0 ==> exists|j: int| 0 <= j < i && quality(#[trigger] ls[j]) == m,
            forall|j: int| 0 <= j < i ==> m <= quality(#[trigger] ls[j]),
        decreases lits@.len() - i,
    {
        let q = atom_quality(lits[i].as_slice());
        assert(ls[i as int] == lits@[i as int]@);
        if i == 0 || q < m {
            m = q;
        }
        assert(quality(ls[i as int]) >= m);
        i = i + 1;
    }
    m
}

/// Summarises a candidate sequence of literals, or `None` when the sequence
/// is infinite and no atoms can be taken from it.
pub fn seq_quality(seq: &regex_syntax::hir::literal::Seq) -> (r: Option<SeqQuality>)
    requires
        is_finite_of(*seq) ==> scorable(literals_of(*seq)),
    ensures
        r is Some <==> is_finite_of(*seq),
        r matches Some(q) ==> summarises(literals_of(*seq), q),
{
    match literal_count(seq) {
        None => None,
        Some(len) => {
            let min_len = match min_literal_len(seq) {
                Some(m) => m,
                None => 0,
            };
            let lits = match literal_bytes(seq) {
                Some(v) => v,
                None => Vec::new(),
            };
            assert(forall|i: int|
                0 <= i < lits@.len() ==> #[trigger] lits@[i]@ == views(lits@)[i]);
            let q = min_atom_quality(&lits);
            Some(
                SeqQuality {
                    seq_len: len as u32,
                    min_atom_len: min_len as u32,
                    min_atom_quality: q,
                },
            )
        },
    }
}

/// Summarises a candidate sequence as `seq_quality` does, after checking that
/// its atoms can be scored: `None` when the sequence is finite and has more
/// than `u32::MAX` literals or one longer than `MAX_ATOM_LEN`.
pub fn checked_seq_quality(seq: &regex_syntax::hir::literal::Seq) -> (r: Option<
    Option<SeqQuality>,
>)
    ensures
        (r is None) == (is_finite_of(*seq) && !scorable(literals_of(*seq))),
        r matches Some(x) ==> (x is Some <==> is_finite_of(*seq)),
        r matches Some(Some(q)) ==> summarises(literals_of(*seq), q),
{
    match literal_bytes(seq) {
        None => Some(seq_quality(seq)),
        Some(lits) => {
            if lits.len() > 0xffff_ffff {
                assert(literals_of(*seq).len() == lits@.len());
                return None;
            }
            let mut i: usize = 0;
            while i < lits.len()
                invariant
                    is_finite_of(*seq),
                    views(lits@) == literals_of(*seq),
                    i <= lits@.len(),
                    forall|j: int| 0 <= j < i ==> #[trigger] lits@[j]@.len() <= MAX_ATOM_LEN,
                decreases lits@.len() - i,
            {
                if lits[i].len() > MAX_ATOM_LEN {
                    assert(views(lits@)[i as int] == lits@[i as int]@);
                    assert(literals_of(*seq)[i as int].len() > MAX_ATOM_LEN);
                    return None;
                }
                i = i + 1;
            }
            assert forall|j: int| 0 <= j < lits@.len() implies #[trigger] literals_of(
                *seq,
            )[j].len() <= MAX_ATOM_LEN by {
                assert(views(lits@)[j] == lits@[j]@);
            }
            Some(seq_quality(seq))
        },
    }
}

/// The candidate chosen among the first `n` of `cands`, with its summary:
/// starting from the sentinel, a usable candidate that ranks above the one
/// chosen so far takes its place. No index when none ranked above the sentinel.
pub open spec fn best_of(cands: Seq<Option<SeqQuality>>, n: nat) -> (Option<int>, SeqQuality)
    decreases n,
{
    if n == 0 {
        (None, worst())
    } else {
        let prev = best_of(cands, (n - 1) as nat);
        match cands[n - 1] {
            Some(q) => if ranks_above(q, prev.1) {
                (Some(n - 1), q)
            } else {
                prev
            },
            None => prev,
        }
    }
}

/// The index of the best of the candidate summaries, `None` standing for a
/// sequence that cannot be used. Returns `None` when no candidate ranks above
/// the sentinel, as when every candidate is unusable.
pub fn best_candidate(cands: &[Option<SeqQuality>]) -> (r: Option<usize>)
    ensures
        r matches Some(i) ==> best_of(cands@, cands@.len()).0 == Some(i as int),
        r is None ==> best_of(cands@, cands@.len()).0 is None,
{
    let mut best: Option<usize> = None;
    let mut best_quality = SeqQuality::min();
    let mut i: usize = 0;
    while i < cands.len()
        invariant
            i <= cands@.len(),
            best_of(cands@, i as nat).1 == best_quality,
            best matches Some(j) ==> best_of(cands@, i as nat).0 == Some(j as int),
            best is None ==> best_of(cands@, i as nat).0 is None,
        decreases cands@.len() - i,
    {
        if let Some(q) = cands[i] {
            if q > best_quality {
                best = Some(i);
                best_quality = q;
            }
        }
        i = i + 1;
    }
    best
}

/// The sentinel ranks above no summary, not even above itself.
pub proof fn lemma_worst_never_wins(q: SeqQuality)
    ensures
        !ranks_above(worst(), q),
        worst().partial_cmp_spec(&q) == Some(Ordering::Less),
{
}

/// A sequence that cannot be used never ranks above one that can, not even
/// above the sentinel, and every usable sequence ranks above it.
pub proof fn lemma_absent_never_wins(q: SeqQuality)
    ensures
        <Option<SeqQuality> as PartialOrdSpec>::obeys_partial_cmp_spec(),
        None::<SeqQuality>.partial_cmp_spec(&Some(q)) == Some(Ordering::Less),
        Some(q).partial_cmp_spec(&None::<SeqQuality>) == Some(Ordering::Greater),
        None::<SeqQuality>.partial_cmp_spec(&Some(worst())) == Some(Ordering::Less),
{
}

} // verus!
