//! The quality of atoms, and the ranking of candidate literal sequences.

use crate::bits::{bits_of, count_ones, empty_bits, first_one, set_bit};
use vstd::arithmetic::power2::{lemma2_to64, pow2};
use vstd::prelude::*;

verus! {

/// The longest atom whose quality fits the `i32` it is computed in.
pub const MAX_ATOM_LEN: usize = 16777216;

/// The number of one bits in `x`.
pub open spec fn ones(x: nat) -> nat
    decreases x,
{
    if x == 0 {
        0
    } else {
        x % 2 + ones(x / 2)
    }
}

/// Byte values that are frequent in files: whitespace, NOP, padding, 0xff.
pub open spec fn is_common(b: u8) -> bool {
    b == 0x20 || b == 0x90 || b == 0xcc || b == 0xff
}

/// ASCII letters, `a`-`z` and `A`-`Z`.
pub open spec fn is_letter(b: u8) -> bool {
    (0x61 <= b && b <= 0x7a) || (0x41 <= b && b <= 0x5a)
}

/// The points that a fully known byte adds to the quality.
pub open spec fn known_points(b: u8) -> int {
    if is_common(b) {
        12
    } else if b == 0 {
        6
    } else if is_letter(b) {
        18
    } else {
        20
    }
}

/// The points that a byte with wildcard bits adds: two for each known bit,
/// minus one for each wildcard bit.
pub open spec fn masked_points(m: u8) -> int {
    2 * ones(m as nat) - (8 - ones(m as nat))
}

/// The points of one position of an atom.
pub open spec fn position_points(b: u8, m: u8) -> int {
    if m == 0xff {
        known_points(b)
    } else {
        masked_points(m)
    }
}

/// The length of the atom made of `bytes` and `masks`: the shorter of the two.
pub open spec fn atom_len(bytes: Seq<u8>, masks: Seq<u8>) -> nat {
    if bytes.len() <= masks.len() {
        bytes.len()
    } else {
        masks.len()
    }
}

/// The sum of the points of the first `n` positions.
pub open spec fn points(bytes: Seq<u8>, masks: Seq<u8>, n: nat) -> int
    decreases n,
{
    if n == 0 {
        0
    } else {
        points(bytes, masks, (n - 1) as nat) + position_points(bytes[n - 1], masks[n - 1])
    }
}

/// The values of the fully known bytes among the first `n` positions.
pub open spec fn known_values(bytes: Seq<u8>, masks: Seq<u8>, n: nat) -> Set<nat>
    decreases n,
{
    if n == 0 {
        Set::empty()
    } else if masks[n - 1] == 0xff {
        known_values(bytes, masks, (n - 1) as nat).insert(bytes[n - 1] as nat)
    } else {
        known_values(bytes, masks, (n - 1) as nat)
    }
}

/// Byte values whose repetition makes an atom almost useless.
pub open spec fn is_weak_value(v: nat) -> bool {
    v == 0x00 || v == 0x20 || v == 0x90 || v == 0xcc || v == 0xff
}

/// What the distinct known values add to an atom of length `len`: a heavy
/// penalty for a repeated weak byte, a small bonus for another repeated byte,
/// and two points per distinct value otherwise.
pub open spec fn distinct_bonus(known: Set<nat>, len: nat) -> int {
    if known.len() == 1 {
        if is_weak_value(known.choose()) {
            -10 * len
        } else {
            2
        }
    } else {
        2 * known.len() as int
    }
}

/// The quality of the atom made of `bytes` and `masks`.
pub open spec fn masked_quality(bytes: Seq<u8>, masks: Seq<u8>) -> int {
    let n = atom_len(bytes, masks);
    points(bytes, masks, n) + distinct_bonus(known_values(bytes, masks, n), n)
}

/// A mask of `n` fully known bytes.
pub open spec fn full_mask(n: nat) -> Seq<u8> {
    Seq::new(n, |i: int| 0xffu8)
}

/// The quality of an atom whose bytes are all fully known.
pub open spec fn quality(bytes: Seq<u8>) -> int {
    masked_quality(bytes, full_mask(bytes.len()))
}

proof fn lemma_ones_bound(x: nat, k: nat)
    requires
        x < pow2(k),
    ensures
        ones(x) <= k,
    decreases k,
{
    if x != 0 {
        if k == 0 {
            lemma2_to64();
        } else {
            vstd::arithmetic::power2::lemma_pow2_unfold(k);
            lemma_ones_bound(x / 2, (k - 1) as nat);
        }
    }
}

proof fn lemma_mask_ones(m: u8)
    ensures
        ones(m as nat) <= 8,
{
    lemma2_to64();
    lemma_ones_bound(m as nat, 8);
}

proof fn lemma_points_bounds(bytes: Seq<u8>, masks: Seq<u8>, n: nat)
    requires
        n <= bytes.len(),
        n <= masks.len(),
    ensures
        -8 * n <= points(bytes, masks, n) <= 20 * n,
    decreases n,
{
    if n > 0 {
        lemma_points_bounds(bytes, masks, (n - 1) as nat);
        lemma_mask_ones(masks[n - 1]);
    }
}

proof fn lemma_known_values_size(bytes: Seq<u8>, masks: Seq<u8>, n: nat)
    requires
        n <= bytes.len(),
        n <= masks.len(),
    ensures
        known_values(bytes, masks, n).finite(),
        known_values(bytes, masks, n).len() <= n,
    decreases n,
{
    if n > 0 {
        lemma_known_values_size(bytes, masks, (n - 1) as nat);
    }
}

/// In a set of one element, that element is the one `choose` picks.
proof fn lemma_single(s: Set<nat>, a: nat)
    requires
        s.finite(),
        s.len() == 1,
        s.contains(a),
    ensures
        s.choose() == a,
{
    let r = s.remove(a);
    assert(r.len() == 0);
    r.lemma_len0_is_empty();
    assert(s.contains(s.choose()));
    assert(!r.contains(s.choose()));
}

/// The number of one bits in a mask.
fn count_mask_ones(m: u8) -> (r: u32)
    ensures
        r as nat == ones(m as nat),
        r <= 8,
{
    proof { lemma_mask_ones(m); }
    let mut v: u8 = m;
    let mut c: u32 = 0;
    while v != 0
        invariant
            c as nat + ones(v as nat) == ones(m as nat),
            ones(m as nat) <= 8,
        decreases v,
    {
        c = c + (v % 2) as u32;
        v = v / 2;
    }
    c
}

/// Computes the quality of a masked atom. The atom is as long as the shorter
/// of `bytes` and `masks`.
///
/// A fully known byte adds 12 points when it is 0x20, 0x90, 0xcc or 0xff, 6
/// when it is 0x00, 18 when it is an ASCII letter, and 20 otherwise. A byte
/// with wildcard bits adds 2 points per known bit and takes 1 per wildcard
/// bit: ?? is -8, X? and ?X are +4. An atom that repeats one single known
/// byte value loses 10 points per byte when that value is 0x00, 0x20, 0x90,
/// 0xcc or 0xff, and gains 2 otherwise; any other atom gains 2 points per
/// distinct known byte value.
pub fn masked_atom_quality(bytes: &[u8], masks: &[u8]) -> (r: i32)
    requires
        atom_len(bytes@, masks@) <= MAX_ATOM_LEN,
    ensures
        r as int == masked_quality(bytes@, masks@),
{
    let n: usize = if bytes.len() <= masks.len() {
        bytes.len()
    } else {
        masks.len()
    };
    let mut q: i32 = 0;
    // Bit N is set when the atom holds the fully known byte N.
    let mut present = empty_bits();
    let mut i: usize = 0;
    while i < n
        invariant
            n == atom_len(bytes@, masks@),
            n <= MAX_ATOM_LEN,
            i <= n,
            q as int == points(bytes@, masks@, i as nat),
            bits_of(present) == known_values(bytes@, masks@, i as nat),
        decreases n - i,
    {
        proof {
            lemma_points_bounds(bytes@, masks@, i as nat);
        }
        let byte = bytes[i];
        let mask = masks[i];
        if mask != 0xff {
            let known = count_mask_ones(mask) as i32;
            q = q + 2 * known - (8 - known);
        } else {
            set_bit(&mut present, byte as usize);
            if byte == 0x20 || byte == 0x90 || byte == 0xcc || byte == 0xff {
                q = q + 12;
            } else if byte == 0x00 {
                q = q + 6;
            } else if (0x61 <= byte && byte <= 0x7a) || (0x41 <= byte && byte <= 0x5a) {
                q = q + 18;
            } else {
                q = q + 20;
            }
        }
        i = i + 1;
    }
    proof {
        lemma_points_bounds(bytes@, masks@, n as nat);
        lemma_known_values_size(bytes@, masks@, n as nat);
    }
    let unique = count_ones(&present);
    if unique == 1 {
        match first_one(&present) {
            Some(v) => {
                proof {
                    lemma_single(bits_of(present), v as nat);
                }
                if v == 0x00 || v == 0x20 || v == 0x90 || v == 0xcc || v == 0xff {
                    q = q - 10 * (n as i32);
                } else {
                    q = q + 2;
                }
            },
            // One bit is set, so there is a first one.
            None => {
                proof {
                    assert(Set::<nat>::empty().len() == 0);
                }
            },
        }
    } else {
        q = q + 2 * (unique as i32);
    }
    q
}

/// Computes the quality of an atom whose bytes are all fully known.
pub fn atom_quality(bytes: &[u8]) -> (r: i32)
    requires
        bytes@.len() <= MAX_ATOM_LEN,
    ensures
        r as int == quality(bytes@),
{
    let mut masks: Vec<u8> = Vec::new();
    let mut i: usize = 0;
    while i < bytes.len()
        invariant
            i <= bytes@.len(),
            masks@ == full_mask(i as nat),
        decreases bytes@.len() - i,
    {
        masks.push(0xff);
        i = i + 1;
        assert(masks@ =~= full_mask(i as nat));
    }
    masked_atom_quality(bytes, masks.as_slice())
}

/// An atom of `n` copies of the byte `c`.
pub open spec fn repeat(c: u8, n: nat) -> Seq<u8> {
    Seq::new(n, |i: int| c)
}

/// Points and known values depend only on the positions that they cover.
proof fn lemma_prefix(b1: Seq<u8>, m1: Seq<u8>, b2: Seq<u8>, m2: Seq<u8>, n: nat)
    requires
        n <= b1.len(),
        n <= m1.len(),
        n <= b2.len(),
        n <= m2.len(),
        forall|i: int| 0 <= i < n ==> b1[i] == b2[i] && m1[i] == m2[i],
    ensures
        points(b1, m1, n) == points(b2, m2, n),
        known_values(b1, m1, n) == known_values(b2, m2, n),
    decreases n,
{
    if n > 0 {
        lemma_prefix(b1, m1, b2, m2, (n - 1) as nat);
    }
}

proof fn lemma_repeat_parts(c: u8, n: nat, k: nat)
    requires
        k <= n,
    ensures
        points(repeat(c, n), full_mask(n), k) == k * known_points(c),
        k == 0 ==> known_values(repeat(c, n), full_mask(n), k) == Set::<nat>::empty(),
        k > 0 ==> known_values(repeat(c, n), full_mask(n), k) == set![c as nat],
    decreases k,
{
    if k > 0 {
        lemma_repeat_parts(c, n, (k - 1) as nat);
        assert(k * known_points(c) == (k - 1) * known_points(c) + known_points(c)) by (
        nonlinear_arith);
        if k > 1 {
            assert(set![c as nat].insert(c as nat) =~= set![c as nat]);
        } else {
            assert(Set::<nat>::empty().insert(c as nat) =~= set![c as nat]);
        }
    }
}

/// Swapping the two bytes of a two-byte atom keeps its quality: the letters
/// `ab` and `ba` score alike, as do any two bytes of one class.
pub proof fn lemma_swap_two(b1: u8, b2: u8)
    ensures
        quality(seq![b1, b2]) == quality(seq![b2, b1]),
{
    let s1 = seq![b1, b2];
    let s2 = seq![b2, b1];
    let m = full_mask(2);
    assert(m[0] == 0xff && m[1] == 0xff);
    assert(s1[0] == b1 && s1[1] == b2 && s2[0] == b2 && s2[1] == b1);
    assert(known_values(s1, m, 0) == Set::<nat>::empty());
    assert(known_values(s2, m, 0) == Set::<nat>::empty());
    assert(known_values(s1, m, 1) == set![b1 as nat]) by {
        assert(Set::<nat>::empty().insert(b1 as nat) =~= set![b1 as nat]);
    }
    assert(known_values(s2, m, 1) == set![b2 as nat]) by {
        assert(Set::<nat>::empty().insert(b2 as nat) =~= set![b2 as nat]);
    }
    assert(known_values(s1, m, 2) =~= known_values(s2, m, 2));
    assert(points(s1, m, 0) == 0 && points(s2, m, 0) == 0);
    assert(points(s1, m, 1) == known_points(b1));
    assert(points(s2, m, 1) == known_points(b2));
}

/// Appending a fully known byte that the atom does not hold yet raises its
/// quality, unless the atom held no known byte and the new one is 0x00, 0x20,
/// 0x90, 0xcc or 0xff, which an atom of one repeated value is penalised for.
pub proof fn lemma_append_new_byte(bytes: Seq<u8>, masks: Seq<u8>, x: u8)
    requires
        bytes.len() == masks.len(),
        !known_values(bytes, masks, bytes.len()).contains(x as nat),
        known_values(bytes, masks, bytes.len()).len() > 0 || !is_weak_value(x as nat),
    ensures
        masked_quality(bytes.push(x), masks.push(0xff)) > masked_quality(bytes, masks),
{
    let n = bytes.len();
    let b2 = bytes.push(x);
    let m2 = masks.push(0xff);
    lemma_prefix(b2, m2, bytes, masks, n);
    lemma_known_values_size(bytes, masks, n);
    let k = known_values(bytes, masks, n);
    let k2 = known_values(b2, m2, n + 1);
    assert(b2[n as int] == x && m2[n as int] == 0xff);
    assert(k2 == k.insert(x as nat));
    assert(k2.len() == k.len() + 1);
    assert(points(b2, m2, n + 1) == points(bytes, masks, n) + known_points(x));
    if k.len() == 0 {
        k.lemma_len0_is_empty();
        lemma_single(k2, x as nat);
    }
}

/// Atoms made of one repeated common byte (0x20, 0x90, 0xcc or 0xff) all
/// score alike: two points per byte.
pub proof fn lemma_common_repeats(c1: u8, c2: u8, n: nat)
    requires
        is_common(c1),
        is_common(c2),
    ensures
        quality(repeat(c1, n)) == quality(repeat(c2, n)),
        quality(repeat(c1, n)) == 2 * n,
{
    lemma_repeat_parts(c1, n, n);
    lemma_repeat_parts(c2, n, n);
    if n > 0 {
        assert(set![c1 as nat].len() == 1);
        assert(set![c2 as nat].len() == 1);
        lemma_single(set![c1 as nat], c1 as nat);
        lemma_single(set![c2 as nat], c2 as nat);
    }
}

/// The quality is a function of the bytes and masks alone: equal inputs
/// always score alike, whatever was scored before.
pub proof fn lemma_quality_deterministic(b1: Seq<u8>, m1: Seq<u8>, b2: Seq<u8>, m2: Seq<u8>)
    requires
        b1 == b2,
        m1 == m2,
    ensures
        masked_quality(b1, m1) == masked_quality(b2, m2),
{
}

} // verus!
