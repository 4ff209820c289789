//! Where the elements of a segmented vector lie.
//!
//! Segment `k` has room for `2^(b + k)` elements, where `2^b` is the
//! capacity of segment 0. Element `i` lies in the segment that it reaches
//! when the segments are filled one element at a time, in order.

use vstd::arithmetic::div_mod::{lemma_basic_div, lemma_fundamental_div_mod, lemma_mod_bound};
use vstd::arithmetic::power2::{
    lemma2_to64, lemma2_to64_rest, lemma_pow2_adds, lemma_pow2_pos, lemma_pow2_strictly_increases,
    lemma_pow2_unfold, pow2,
};
use vstd::bits::{lemma_u64_shr_is_div, lemma_usize_shl_is_mul, lemma_usize_shr_is_div};
use vstd::prelude::*;
use vstd::std_specs::bits::{axiom_u64_leading_zeros, u64_leading_zeros};

verus! {

/// Capacity of segment `k`, where segment 0 holds `2^b` elements.
pub open spec fn seg_capacity(b: nat, k: nat) -> nat {
    pow2(b + k)
}

/// Number of elements that the segments before segment `k` hold together.
pub open spec fn seg_start(b: nat, k: nat) -> nat {
    (pow2(b + k) - pow2(b)) as nat
}

/// Segment and offset of element `i`: the place it gets when elements
/// `0, 1, 2, ...` are put one after the other, each into the first segment
/// that is not yet full.
pub open spec fn slot_of(b: nat, i: nat) -> (nat, nat)
    decreases i,
{
    if i == 0 {
        (0, 0)
    } else {
        let (seg, off) = slot_of(b, (i - 1) as nat);
        if off + 1 < seg_capacity(b, seg) {
            (seg, off + 1)
        } else {
            (seg + 1, 0)
        }
    }
}

/// Number of segments in use when `n` elements are held.
pub open spec fn seg_count(b: nat, n: nat) -> nat {
    if n == 0 {
        0
    } else {
        slot_of(b, (n - 1) as nat).0 + 1
    }
}

/// Number of elements in segment `k` when `n` elements are held.
pub open spec fn seg_len(b: nat, n: nat, k: nat) -> nat {
    if n <= seg_start(b, k) {
        0
    } else if n >= seg_start(b, k + 1) {
        seg_capacity(b, k)
    } else {
        (n - seg_start(b, k)) as nat
    }
}

/// Each segment has room for something and begins where the one before it
/// is full; segment 0 begins at element 0.
pub proof fn lemma_seg_start_step(b: nat, k: nat)
    ensures
        seg_capacity(b, k) > 0,
        seg_start(b, 0) == 0,
        seg_start(b, k + 1) == seg_start(b, k) + seg_capacity(b, k),
        seg_capacity(b, k + 1) == 2 * seg_capacity(b, k),
{
    lemma_pow2_pos(b + k);
    lemma_pow2_unfold(b + k + 1);
    if k > 0 {
        lemma_pow2_strictly_increases(b, b + k);
    }
}

/// Later segments begin later.
pub proof fn lemma_seg_start_monotonic(b: nat, k1: nat, k2: nat)
    requires
        k1 <= k2,
    ensures
        seg_start(b, k1) <= seg_start(b, k2),
    decreases k2 - k1,
{
    if k1 < k2 {
        lemma_seg_start_monotonic(b, k1, (k2 - 1) as nat);
        lemma_seg_start_step(b, (k2 - 1) as nat);
    }
}

/// Element `i` lies inside its segment, as many places from the segment's
/// beginning as `i` is from the segment's first element.
pub proof fn lemma_slot_of_bounds(b: nat, i: nat)
    ensures
        slot_of(b, i).1 < seg_capacity(b, slot_of(b, i).0),
        seg_start(b, slot_of(b, i).0) + slot_of(b, i).1 == i,
    decreases i,
{
    if i == 0 {
        lemma_seg_start_step(b, 0);
    } else {
        lemma_slot_of_bounds(b, (i - 1) as nat);
        let (seg, off) = slot_of(b, (i - 1) as nat);
        lemma_seg_start_step(b, seg);
        lemma_seg_start_step(b, seg + 1);
    }
}

/// Index resolution in closed form: the only segment `k` and offset `off`
/// with `off < 2^(b + k)` and `2^(b + k) - 2^b + off == i` are those of
/// element `i`.
pub proof fn lemma_slot_unique(b: nat, i: nat, k: nat, off: nat)
    requires
        off < seg_capacity(b, k),
        seg_start(b, k) + off == i,
    ensures
        slot_of(b, i) == (k, off),
{
    lemma_slot_of_bounds(b, i);
    let (seg, o) = slot_of(b, i);
    if seg < k {
        lemma_seg_start_step(b, seg);
        lemma_seg_start_monotonic(b, seg + 1, k);
    } else if seg > k {
        lemma_seg_start_step(b, k);
        lemma_seg_start_monotonic(b, k + 1, seg);
    }
}

/// Elements with larger indices do not lie in earlier segments.
pub proof fn lemma_slot_of_monotonic(b: nat, i: nat, j: nat)
    requires
        i <= j,
    ensures
        slot_of(b, i).0 <= slot_of(b, j).0,
{
    lemma_slot_of_bounds(b, i);
    lemma_slot_of_bounds(b, j);
    let ki = slot_of(b, i).0;
    let kj = slot_of(b, j).0;
    if ki > kj {
        lemma_seg_start_step(b, kj);
        lemma_seg_start_monotonic(b, kj + 1, ki);
    }
}

/// While `n` elements are held, element `i < n` lies in a segment in use,
/// below that segment's length.
pub proof fn lemma_slot_in_shape(b: nat, n: nat, i: nat)
    requires
        i < n,
    ensures
        slot_of(b, i).0 < seg_count(b, n),
        slot_of(b, i).1 < seg_len(b, n, slot_of(b, i).0),
{
    lemma_slot_of_bounds(b, i);
    lemma_slot_of_monotonic(b, i, (n - 1) as nat);
    lemma_seg_start_step(b, slot_of(b, i).0);
}

/// The (non-empty) segments in use are full, but for the last, which holds
/// at least one element; no segment beyond them holds anything; and the
/// lengths of the segments add up to `n`.
pub proof fn lemma_shape(b: nat, n: nat, k: nat)
    ensures
        k + 1 < seg_count(b, n) ==> seg_len(b, n, k) == seg_capacity(b, k),
        k + 1 == seg_count(b, n) ==> 0 < seg_len(b, n, k) <= seg_capacity(b, k),
        k >= seg_count(b, n) ==> seg_len(b, n, k) == 0,
        k + 1 == seg_count(b, n) ==> seg_start(b, k) + seg_len(b, n, k) == n,
{
    lemma_seg_start_step(b, k);
    if n > 0 {
        let last = (n - 1) as nat;
        lemma_slot_of_bounds(b, last);
        let kl = slot_of(b, last).0;
        lemma_seg_start_step(b, kl);
        if k < kl {
            lemma_seg_start_monotonic(b, k + 1, kl);
        } else if k > kl {
            lemma_seg_start_monotonic(b, kl + 1, k);
        }
    }
}

/// What one more element changes: element `n` goes to the end of the last
/// segment in use, or to the beginning of a new one, and no other segment
/// changes its length.
pub proof fn lemma_shape_step(b: nat, n: nat)
    ensures
        seg_count(b, n + 1) == slot_of(b, n).0 + 1,
        seg_count(b, n) == if slot_of(b, n).1 == 0 {
            slot_of(b, n).0
        } else {
            slot_of(b, n).0 + 1
        },
        seg_len(b, n, slot_of(b, n).0) == slot_of(b, n).1,
        seg_len(b, n + 1, slot_of(b, n).0) == slot_of(b, n).1 + 1,
        forall|k: nat| k != slot_of(b, n).0 ==> seg_len(b, n + 1, k) == #[trigger] seg_len(b, n, k),
{
    let (s, o) = slot_of(b, n);
    lemma_slot_of_bounds(b, n);
    lemma_seg_start_step(b, s);
    if n > 0 {
        lemma_slot_of_bounds(b, (n - 1) as nat);
    }
    assert forall|k: nat| k != s implies seg_len(b, n + 1, k) == #[trigger] seg_len(b, n, k) by {
        lemma_seg_start_step(b, k);
        if k < s {
            lemma_seg_start_monotonic(b, k + 1, s);
        } else {
            lemma_seg_start_monotonic(b, s + 1, k);
        }
    }
}

/// The position of the highest set bit of `x` is the whole part of its
/// binary logarithm.
proof fn lemma_highest_bit(x: u64, k: nat)
    requires
        x > 0,
        k == 63 - u64_leading_zeros(x),
    ensures
        pow2(k) <= x < pow2(k + 1),
{
    axiom_u64_leading_zeros(x);
    let lz = u64_leading_zeros(x);
    let at = (63 - lz) as u64;
    let above = (64 - lz) as u64;
    let bit = x >> at;
    assert(bit & 1 != 0);
    assert(bit >= 1) by (bit_vector)
        requires
            bit & 1 != 0,
    ;
    lemma_u64_shr_is_div(x, at);
    lemma_pow2_pos(k);
    assert(pow2(k) <= x) by {
        if x < pow2(k) {
            lemma_basic_div(x as int, pow2(k) as int);
        }
    }
    assert(x < pow2(k + 1)) by {
        if lz == 0 {
            lemma2_to64();
            lemma2_to64_rest();
        } else {
            assert(x >> above == 0);
            lemma_u64_shr_is_div(x, above);
            assert(above as nat == k + 1);
            let d = pow2(k + 1) as int;
            let whole = x as int / d;
            assert(whole == 0);
            lemma_pow2_pos(k + 1);
            lemma_fundamental_div_mod(x as int, d);
            lemma_mod_bound(x as int, d);
            assert(d * whole == 0) by (nonlinear_arith)
                requires
                    whole == 0,
            ;
        }
    }
}

/// A quotient `q` with `pk <= q + 1 < 2 * pk` puts `i == pb * q + r`
/// between `pb * pk - pb` and `2 * pb * pk - pb`.
proof fn lemma_quotient_to_segment(pb: int, pk: int, q: int, r: int, i: int)
    by (nonlinear_arith)
    requires
        pb > 0,
        pk <= q + 1 < 2 * pk,
        0 <= r < pb,
        i == pb * q + r,
    ensures
        pb * pk - pb <= i < 2 * (pb * pk) - pb,
{
}

/// Segment and offset of the element with index `elem_i`, where segment 0
/// holds `2^base_exp` elements. Takes constant time: the segment is the
/// position of the highest set bit of `(elem_i >> base_exp) + 1`.
pub fn resolve(base_exp: u8, elem_i: usize) -> (slot: (usize, usize))
    requires
        base_exp < usize::BITS,
    ensures
        (slot.0 as nat, slot.1 as nat) == slot_of(base_exp as nat, elem_i as nat),
        seg_start(base_exp as nat, slot.0 as nat) + slot.1 == elem_i,
        slot.1 < seg_capacity(base_exp as nat, slot.0 as nat),
        slot.0 <= usize::BITS,
{
    proof {
        lemma_slot_of_bounds(base_exp as nat, elem_i as nat);
    }
    let b = base_exp as usize;
    let quot = elem_i >> b;
    proof {
        lemma_usize_shr_is_div(elem_i, b);
        lemma_pow2_pos(b as nat);
        lemma_fundamental_div_mod(elem_i as int, pow2(b as nat) as int);
        lemma_mod_bound(elem_i as int, pow2(b as nat) as int);
        lemma2_to64();
    }
    let ghost pb = pow2(b as nat) as int;
    let ghost rem = elem_i as int % pb;
    if quot == usize::MAX {
        proof {
            assert(pb == 1) by (nonlinear_arith)
                requires
                    pb > 0,
                    elem_i == pb * quot + rem,
                    0 <= rem,
                    elem_i <= quot,
                    quot > 0,
            ;
            if b > 0 {
                lemma_pow2_strictly_increases(0, b as nat);
            }
            assert(usize::BITS == 32 || usize::BITS == 64);
            lemma_slot_unique(0, elem_i as nat, usize::BITS as nat, 0);
        }
        return (usize::BITS as usize, 0);
    }
    let above = (quot + 1) as u64;
    let seg = 63 - above.leading_zeros();
    proof {
        lemma_highest_bit(above, seg as nat);
        let pk = pow2(seg as nat) as int;
        lemma_pow2_unfold(seg as nat + 1);
        lemma_quotient_to_segment(pb, pk, quot as int, rem, elem_i as int);
        lemma_pow2_adds(b as nat, seg as nat);
        lemma_seg_start_step(b as nat, seg as nat);
        assert(seg < usize::BITS) by {
            lemma2_to64_rest();
            assert(usize::BITS == 32 || usize::BITS == 64);
            if seg > usize::BITS {
                lemma_pow2_strictly_increases(usize::BITS as nat, seg as nat);
            }
        }
        lemma_pow2_pos(seg as nat);
        lemma_usize_shl_is_mul(1, seg as usize);
    }
    let seg = seg as usize;
    let full = (1usize << seg) - 1;
    proof {
        assert(full * pow2(b as nat) == seg_start(b as nat, seg as nat)) by (nonlinear_arith)
            requires
                full == pow2(seg as nat) - 1,
                pow2(b as nat) * pow2(seg as nat) == pow2(b as nat + seg as nat),
                seg_start(b as nat, seg as nat) == pow2(b as nat + seg as nat) - pow2(b as nat),
        ;
        lemma_usize_shl_is_mul(full, b);
    }
    let start = full << b;
    let off = elem_i - start;
    proof {
        lemma_slot_unique(b as nat, elem_i as nat, seg as nat, off as nat);
    }
    (seg, off)
}

} // verus!
