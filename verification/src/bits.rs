use vstd::prelude::*;

verus! {

/// Whether bit `i` of `bits` is set.
pub open spec fn has_bit(bits: u64, i: u64) -> bool {
    (bits >> i) & 1u64 == 1u64
}

pub proof fn lemma_or(a: u64, b: u64)
    ensures
        forall|i: u64| #![trigger has_bit(a | b, i)] i < 64 ==> (has_bit(a | b, i) == (has_bit(a, i) || has_bit(b, i))),
{
    assert(forall|i: u64| #![trigger (a | b) >> i] i < 64 ==> ((((a | b) >> i) & 1u64 == 1u64) == (((a >> i) & 1u64 == 1u64) || ((b >> i) & 1u64 == 1u64)))) by (bit_vector);
}

pub proof fn lemma_and(a: u64, b: u64)
    ensures
        forall|i: u64| #![trigger has_bit(a & b, i)] i < 64 ==> (has_bit(a & b, i) == (has_bit(a, i) && has_bit(b, i))),
{
    assert(forall|i: u64| #![trigger (a & b) >> i] i < 64 ==> ((((a & b) >> i) & 1u64 == 1u64) == (((a >> i) & 1u64 == 1u64) && ((b >> i) & 1u64 == 1u64)))) by (bit_vector);
}

pub proof fn lemma_xor(a: u64, b: u64)
    ensures
        forall|i: u64| #![trigger has_bit(a ^ b, i)] i < 64 ==> (has_bit(a ^ b, i) == (has_bit(a, i) != has_bit(b, i))),
{
    assert(forall|i: u64| #![trigger (a ^ b) >> i] i < 64 ==> ((((a ^ b) >> i) & 1u64 == 1u64) == (((a >> i) & 1u64 == 1u64) != ((b >> i) & 1u64 == 1u64)))) by (bit_vector);
}

pub proof fn lemma_and_not(a: u64, b: u64)
    ensures
        forall|i: u64| #![trigger has_bit(a & !b, i)] i < 64 ==> (has_bit(a & !b, i) == (has_bit(a, i) && !has_bit(b, i))),
{
    assert(forall|i: u64| #![trigger (a & !b) >> i] i < 64 ==> ((((a & !b) >> i) & 1u64 == 1u64) == (((a >> i) & 1u64 == 1u64) && !((b >> i) & 1u64 == 1u64)))) by (bit_vector);
}

pub proof fn lemma_single(j: u64)
    requires
        j < 64,
    ensures
        forall|i: u64| #![trigger has_bit(1u64 << j, i)] i < 64 ==> (has_bit(1u64 << j, i) == (i == j)),
{
    assert(j < 64 ==> forall|i: u64| #![trigger (1u64 << j) >> i] i < 64 ==> ((((1u64 << j) >> i) & 1u64 == 1u64) == (i == j))) by (bit_vector);
}

pub proof fn lemma_zero()
    ensures
        forall|i: u64| #![trigger has_bit(0u64, i)] i < 64 ==> !has_bit(0u64, i),
{
    assert(forall|i: u64| #![trigger 0u64 >> i] i < 64 ==> !(((0u64 >> i) & 1u64) == 1u64)) by (bit_vector);
}

/// The bits of `a` beyond the low `n` are clear.
pub open spec fn fits(a: u64, n: u64) -> bool {
    a & low_mask(n) == a
}

pub proof fn lemma_fits(a: u64, n: u64)
    requires
        n < 64,
    ensures
        fits(a, n) ==> forall|i: u64| #![trigger has_bit(a, i)] n <= i < 64 ==> !has_bit(a, i),
        forall|i: u64| #![trigger has_bit(a & low_mask(n), i)] i < 64 ==> (has_bit(a & low_mask(n), i) == (has_bit(a, i) && i < n)),
{
    assert(n < 64 ==> ((a & (((1u64 << n) - 1u64) as u64) == a) ==> forall|i: u64| #![trigger a >> i] n <= i < 64 ==> !(((a >> i) & 1u64) == 1u64))) by (bit_vector);
    assert(n < 64 ==> forall|i: u64| #![trigger (a & (((1u64 << n) - 1u64) as u64)) >> i] i < 64 ==> ((((a & (((1u64 << n) - 1u64) as u64)) >> i) & 1u64 == 1u64) == (((a >> i) & 1u64 == 1u64) && i < n))) by (bit_vector);
}

/// The low `n` bits set, for `n < 64`.
pub open spec fn low_mask(n: u64) -> u64 {
    ((1u64 << n) - 1u64) as u64
}

proof fn lemma_low_mask_step(a: u64, n: u64)
    requires
        1 <= n < 64,
        a & low_mask(n) != 0,
        a & low_mask((n - 1) as u64) == 0,
    ensures
        has_bit(a, (n - 1) as u64),
{
    let m = (n - 1) as u64;
    assert(1 <= n < 64 && m == n - 1 && a & (((1u64 << n) - 1u64) as u64) != 0 && a & (((1u64 << m) - 1u64) as u64) == 0 ==> (a >> m) & 1u64 == 1u64) by (bit_vector);
}

/// A nonzero value below `2^n` has one of its low `n` bits set.
pub proof fn lemma_nonzero_below(a: u64, n: u64)
    requires
        n < 64,
        a & low_mask(n) != 0,
    ensures
        exists|i: u64| i < n && #[trigger] has_bit(a, i),
    decreases n,
{
    if n == 0 {
        assert(a & (((1u64 << 0u64) - 1u64) as u64) == 0) by (bit_vector);
    } else if a & low_mask((n - 1) as u64) != 0 {
        lemma_nonzero_below(a, (n - 1) as u64);
        let i = choose|i: u64| i < n - 1 && #[trigger] has_bit(a, i);
        assert(i < n && has_bit(a, i));
    } else {
        lemma_low_mask_step(a, n);
        let j = (n - 1) as u64;
        assert(j < n && has_bit(a, j));
    }
}

pub proof fn lemma_fits_ops(a: u64, b: u64, n: u64)
    requires
        n < 64,
        fits(a, n),
        fits(b, n),
    ensures
        fits(a | b, n),
        fits(a & b, n),
        fits(a ^ b, n),
        fits(a & !b, n),
        fits(low_mask(n) & !a, n),
        fits(0u64, n),
        forall|j: u64| j < n ==> #[trigger] fits(1u64 << j, n),
{
    assert(n < 64 && (a & (((1u64 << n) - 1u64) as u64)) == a && (b & (((1u64 << n) - 1u64) as u64)) == b ==> {
        &&& ((a | b) & (((1u64 << n) - 1u64) as u64)) == (a | b)
        &&& ((a & b) & (((1u64 << n) - 1u64) as u64)) == (a & b)
        &&& ((a ^ b) & (((1u64 << n) - 1u64) as u64)) == (a ^ b)
        &&& ((a & !b) & (((1u64 << n) - 1u64) as u64)) == (a & !b)
        &&& (((((1u64 << n) - 1u64) as u64) & !a) & (((1u64 << n) - 1u64) as u64)) == ((((1u64 << n) - 1u64) as u64) & !a)
        &&& (0u64 & (((1u64 << n) - 1u64) as u64)) == 0u64
    }) by (bit_vector);
    assert(forall|j: u64| #![trigger (1u64 << j)] n < 64 && j < n ==> ((1u64 << j) & (((1u64 << n) - 1u64) as u64)) == (1u64 << j)) by (bit_vector);
}

pub proof fn lemma_fits_single(j: u64, n: u64)
    requires
        j < n < 64,
    ensures
        fits(1u64 << j, n),
{
    assert(j < n < 64 ==> ((1u64 << j) & (((1u64 << n) - 1u64) as u64)) == (1u64 << j)) by (bit_vector);
}

pub proof fn lemma_low_mask_bits(n: u64)
    requires
        n < 64,
    ensures
        forall|i: u64| #![trigger has_bit(low_mask(n), i)] i < 64 ==> (has_bit(low_mask(n), i) == (i < n)),
{
    assert(n < 64 ==> forall|i: u64| #![trigger (((1u64 << n) - 1u64) as u64) >> i] i < 64 ==> ((((((1u64 << n) - 1u64) as u64) >> i) & 1u64 == 1u64) == (i < n))) by (bit_vector);
}

} // verus!
