use vstd::prelude::*;

verus! {

/// `p` is a power of two.
pub open spec fn is_power_of_two(p: nat) -> bool
    decreases p,
{
    if p == 0 {
        false
    } else if p == 1 {
        true
    } else {
        p % 2 == 0 && is_power_of_two(p / 2)
    }
}

/// `p` is the smallest power of two that is at least `n`.
pub open spec fn is_next_power_of_two(n: nat, p: nat) -> bool {
    &&& is_power_of_two(p)
    &&& n <= p
    &&& forall|q: nat| is_power_of_two(q) && n <= q ==> p <= q
}

/// A buffer of `capacity` elements of `element_size` bytes has a size that is
/// a multiple of `alignment`.
pub open spec fn is_aligned(element_size: nat, capacity: nat, alignment: nat) -> bool {
    (element_size * capacity) % alignment == 0
}

/// Doubling a power of two gives the next one.
proof fn lemma_double(p: nat)
    requires
        is_power_of_two(p),
    ensures
        is_power_of_two(2 * p),
        forall|q: nat| is_power_of_two(q) && p < q ==> 2 * p <= q,
{
    assert((2 * p) / 2 == p);
    assert forall|q: nat| is_power_of_two(q) && p < q implies 2 * p <= q by {
        lemma_no_power_between(p, q);
    }
}

/// No power of two lies strictly between a power of two and its double.
proof fn lemma_no_power_between(p: nat, q: nat)
    requires
        is_power_of_two(p),
        is_power_of_two(q),
        p < q,
    ensures
        2 * p <= q,
    decreases q,
{
    if p == 1 {
        assert(q != 1);
        assert(q % 2 == 0);
    } else {
        assert(q != 1);
        lemma_no_power_between((p / 2) as nat, (q / 2) as nat);
    }
}

/// Every `2^k` is a power of two.
proof fn lemma_pow2_is_power_of_two(k: nat)
    ensures
        is_power_of_two(vstd::arithmetic::power2::pow2(k)),
    decreases k,
{
    if k == 0 {
        vstd::arithmetic::power2::lemma2_to64();
    } else {
        lemma_pow2_is_power_of_two((k - 1) as nat);
        vstd::arithmetic::power2::lemma_pow2_unfold(k);
        lemma_double(vstd::arithmetic::power2::pow2((k - 1) as nat));
    }
}

/// Some power of two lies between `n` and its double.
proof fn lemma_power_within_double(n: nat) -> (q: nat)
    requires
        n >= 1,
    ensures
        is_power_of_two(q),
        n <= q < 2 * n,
    decreases n,
{
    if n == 1 {
        1
    } else {
        let m = ((n + 1) / 2) as nat;
        let h = lemma_power_within_double(m);
        assert((2 * h) / 2 == h);
        if n % 2 == 1 {
            assert(h != n) by {
                if h == n {
                    assert(h != 1);
                    assert(h % 2 == 0);
                }
            }
        }
        2 * h
    }
}

/// A power of two below `2^64` is at most `2^63`.
proof fn lemma_power_fits(p: nat)
    requires
        is_power_of_two(p),
        p <= u64::MAX,
    ensures
        p <= 0x8000_0000_0000_0000,
{
    if p > 0x8000_0000_0000_0000 {
        lemma_pow2_is_power_of_two(63);
        vstd::arithmetic::power2::lemma2_to64_rest();
        lemma_no_power_between(0x8000_0000_0000_0000nat, p);
    }
}

/// A power of two divides every power of two at least as large.
proof fn lemma_power_divides(a: nat, p: nat)
    requires
        is_power_of_two(a),
        is_power_of_two(p),
        a <= p,
    ensures
        p % a == 0,
    decreases p,
{
    if a == p {
        vstd::arithmetic::div_mod::lemma_mod_self_0(a as int);
    } else {
        assert(p != 1);
        if a == 1 {
            assert(p % 1 == 0);
        } else {
            lemma_power_divides((a / 2) as nat, (p / 2) as nat);
            let (x, y) = ((a / 2) as int, (p / 2) as int);
            assert((2 * y) % (2 * x) == 0) by (nonlinear_arith)
                requires
                    y % x == 0,
                    x > 0,
            {
                let k = y / x;
                assert(y == x * k);
                assert(2 * y == (2 * x) * k);
                vstd::arithmetic::div_mod::lemma_mod_multiples_basic(k, 2 * x);
            }
        }
    }
}

/// A multiple of a multiple of `a` is a multiple of `a`.
proof fn lemma_aligned_multiple(element_size: nat, c: nat, a: nat)
    requires
        a > 0,
        c % a == 0,
    ensures
        is_aligned(element_size, c, a),
{
    let (s, x, y) = (element_size as int, c as int, a as int);
    assert((s * x) % y == 0) by (nonlinear_arith)
        requires
            x % y == 0,
            y > 0,
    {
        let k = x / y;
        assert(x == y * k);
        assert(s * x == y * (s * k));
        vstd::arithmetic::div_mod::lemma_mod_multiples_basic(s * k, y);
    }
}

/// The smallest power of two that is at least `n`.
pub fn next_power_of_two(n: u64) -> (r: u64)
    requires
        n <= 0x8000_0000_0000_0000,
    ensures
        is_next_power_of_two(n as nat, r as nat),
{
    let mut p: u64 = 1;
    while p < n
        invariant
            is_power_of_two(p as nat),
            1 <= p <= 0x8000_0000_0000_0000,
            n <= 0x8000_0000_0000_0000,
            forall|q: nat| is_power_of_two(q) && q < p ==> q < n,
        decreases 2 * n - p,
    {
        proof {
            lemma_double(p as nat);
            if p >= 0x4000_0000_0000_0001 {
                lemma_pow2_is_power_of_two(63);
                vstd::arithmetic::power2::lemma2_to64_rest();
                lemma_no_power_between(p as nat, 0x8000_0000_0000_0000nat);
            }
        }
        p = p * 2;
    }
    proof {
        assert forall|q: nat| is_power_of_two(q) && n <= q implies p <= q by {
            if q < p {
            }
        }
    }
    p
}

/// The number of elements to give a buffer asked to hold `capacity` elements
/// of `element_size` bytes: `capacity` itself when its size is a multiple of
/// `alignment`, else the smallest power of two above `capacity` whose size is.
pub fn aligned_capacity(element_size: u64, capacity: u64, alignment: u64) -> (r: u64)
    requires
        is_power_of_two(alignment as nat),
        capacity < 0x8000_0000_0000_0000,
        element_size * (2 * capacity + alignment) <= u64::MAX,
    ensures
        is_aligned(element_size as nat, r as nat, alignment as nat),
        is_aligned(element_size as nat, capacity as nat, alignment as nat) ==> r == capacity,
        !is_aligned(element_size as nat, capacity as nat, alignment as nat) ==> {
            &&& is_power_of_two(r as nat)
            &&& capacity < r
            &&& forall|q: nat|
                is_power_of_two(q) && capacity < q < r ==> !is_aligned(element_size as nat, q, alignment as nat)
        },
{
    let mut c = capacity;
    proof {
        vstd::arithmetic::mul::lemma_mul_inequality(capacity as int, 2 * capacity + alignment, element_size as int);
        vstd::arithmetic::mul::lemma_mul_is_commutative(capacity as int, element_size as int);
        vstd::arithmetic::mul::lemma_mul_is_commutative(2 * capacity + alignment, element_size as int);
    }
    while (element_size * c) % alignment != 0
        invariant
            is_power_of_two(alignment as nat),
            capacity < 0x8000_0000_0000_0000,
            element_size * (2 * capacity + alignment) <= u64::MAX,
            c <= 2 * capacity + alignment,
            element_size * c <= u64::MAX,
            c != capacity ==> !is_aligned(element_size as nat, capacity as nat, alignment as nat),
            c == capacity || {
                &&& is_power_of_two(c as nat)
                &&& capacity < c
                &&& forall|q: nat|
                    is_power_of_two(q) && capacity < q < c ==> !is_aligned(element_size as nat, q, alignment as nat)
            },
        decreases (if c == capacity { 1int } else { 0int }), alignment - c,
    {
        proof {
            if c != capacity {
                if c >= alignment {
                    lemma_power_divides(alignment as nat, c as nat);
                    lemma_aligned_multiple(element_size as nat, c as nat, alignment as nat);
                }
                assert(element_size != 0) by {
                    if element_size == 0 {
                        assert(element_size * c == 0);
                    }
                }
                assert(alignment <= u64::MAX) by {
                    vstd::arithmetic::mul::lemma_mul_inequality(1, element_size as int, 2 * capacity + alignment);
                }
                lemma_power_fits(alignment as nat);
            }
        }
        let ghost previous = c;
        c = next_power_of_two(c + 1);
        proof {
            if previous != capacity {
                lemma_double(previous as nat);
                assert(is_power_of_two(2 * previous as nat));
                assert(c == 2 * previous);
                lemma_no_power_between(previous as nat, alignment as nat);
            } else {
                let q = lemma_power_within_double(capacity as nat + 1);
                assert(alignment != 1) by {
                    if alignment == 1 {
                        assert((element_size * capacity) % 1 == 0);
                    }
                }
            }
            vstd::arithmetic::mul::lemma_mul_inequality(c as int, 2 * capacity + alignment, element_size as int);
            vstd::arithmetic::mul::lemma_mul_is_commutative(c as int, element_size as int);
            vstd::arithmetic::mul::lemma_mul_is_commutative(2 * capacity + alignment, element_size as int);
        }
    }
    c
}

/// The size to give a buffer of `current_size` bytes that must hold its first
/// `end` bytes: `None` when it already does, else the smallest power of two
/// that is at least `requested`.
pub fn grown_size(current_size: u64, end: u64, requested: u64) -> (r: Option<u64>)
    requires
        requested <= 0x8000_0000_0000_0000,
    ensures
        current_size >= end ==> r is None,
        current_size < end ==> (r matches Some(size) && is_next_power_of_two(requested as nat, size as nat)),
{
    if current_size < end {
        Some(next_power_of_two(requested))
    } else {
        None
    }
}

} // verus!
