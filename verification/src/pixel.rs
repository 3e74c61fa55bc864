use vstd::prelude::*;
use vstd::std_specs::ops::{AddSpec, AddSpecImpl, DivSpec, DivSpecImpl, MulSpec, MulSpecImpl, NegSpec, NegSpecImpl, SubSpec, SubSpecImpl};
use core::ops::{Add, Div, Mul, Neg, Sub};

verus! {

/// Types with an additive unit.
pub trait Zero: Sized {
    fn zero() -> Self;
}

impl Zero for i64 {
    fn zero() -> (z: i64)
        ensures
            z == 0,
    {
        0
    }
}

/// Areas, whose square roots are lengths.
pub trait Area {
    type Length;

    fn sqrt(self) -> Self::Length;
}

/// A vector of `N` components.
#[derive(Clone, Copy, PartialEq, Debug)]
pub struct Vex<const N: usize, T>(pub [T; N]);

/// The sum, starting from `zero`, of the products of the first `k` pairs of components.
pub open spec fn dot_prefix<T, A, S>(zero: S, l: Seq<T>, r: Seq<A>, k: int) -> S
    where
        T: Mul<A, Output = S>,
        S: Add<Output = S>,
    decreases k,
{
    if k <= 0 {
        zero
    } else {
        dot_prefix(zero, l, r, k - 1).add_spec(l[k - 1].mul_spec(r[k - 1]))
    }
}

/// Whether every partial sum of the products of the first `n` pairs can be formed.
pub open spec fn dot_computable<T, A, S>(zero: S, l: Seq<T>, r: Seq<A>, n: int) -> bool
    where
        T: Mul<A, Output = S>,
        S: Add<Output = S>,
{
    &&& T::obeys_mul_spec()
    &&& S::obeys_add_spec()
    &&& forall|k: int| 0 <= k < n ==> #[trigger] l[k].mul_req(r[k])
    &&& forall|k: int|
        0 <= k < n ==> #[trigger] dot_prefix(zero, l, r, k).add_req(l[k].mul_spec(r[k]))
}

/// `length` is a square root, as `S::sqrt` gives it, of the sum of the squares
/// of the first `n` components of `v`, summed from a zero that `S::zero` gives.
pub open spec fn is_norm<T, S>(v: Seq<T>, n: int, length: T) -> bool
    where
        T: Mul<T, Output = S>,
        S: Zero + Add<Output = S> + Area<Length = T>,
{
    exists|z: S| call_ensures(S::zero, (), z) && #[trigger] call_ensures(S::sqrt, (dot_prefix(z, v, v, n),), length)
}

impl<const N: usize, T: Copy> Vex<N, T> {
    /// Applies `f` to each component.
    pub fn map<A: Copy + Default, F: Fn(T) -> A>(self, f: F) -> (r: Vex<N, A>)
        requires
            forall|i: int| 0 <= i < N ==> call_requires(f, (#[trigger] self.0@[i],)),
        ensures
            forall|i: int| 0 <= i < N ==> call_ensures(f, (self.0@[i],), #[trigger] r.0@[i]),
    {
        let mut out = [A::default(); N];
        let mut i: usize = 0;
        while i < N
            invariant
                0 <= i <= N,
                forall|k: int| 0 <= k < N ==> call_requires(f, (#[trigger] self.0@[k],)),
                forall|k: int| 0 <= k < i ==> call_ensures(f, (self.0@[k],), #[trigger] out@[k]),
            decreases N - i,
        {
            out[i] = f(self.0[i]);
            i += 1;
        }
        Vex(out)
    }

    /// The dot product: the sum of the products of corresponding components.
    pub fn dot<A: Copy, S: Zero + Add<Output = S>>(self, other: Vex<N, A>) -> (r: S)
        where
            T: Zero + Mul<A, Output = S>,
        requires
            forall|z: S| call_ensures(S::zero, (), z) ==> dot_computable(z, self.0@, other.0@, N as int),
        ensures
            exists|z: S| call_ensures(S::zero, (), z) && r == dot_prefix(z, self.0@, other.0@, N as int),
    {
        let mut acc = S::zero();
        let ghost zero = acc;
        let mut i: usize = 0;
        while i < N
            invariant
                0 <= i <= N,
                call_ensures(S::zero, (), zero),
                dot_computable(zero, self.0@, other.0@, N as int),
                acc == dot_prefix(zero, self.0@, other.0@, i as int),
            decreases N - i,
        {
            let product = self.0[i] * other.0[i];
            acc = acc + product;
            i += 1;
        }
        acc
    }

    /// The length of the vector: the square root of its dot product with itself.
    pub fn norm<S: Zero + Add<Output = S> + Area<Length = T>>(self) -> (r: T)
        where
            T: Zero + Mul<T, Output = S>,
        requires
            forall|z: S| call_ensures(S::zero, (), z) ==> dot_computable(z, self.0@, self.0@, N as int),
        ensures
            is_norm::<T, S>(self.0@, N as int, r),
    {
        let square = self.dot(self);
        square.sqrt()
    }

    /// The vector divided by its length.
    pub fn normalized<K: Copy + Default, S: Zero + Add<Output = S> + Area<Length = T>>(self) -> (r: Vex<N, K>)
        where
            T: Zero + Mul<T, Output = S> + Div<T, Output = K>,
        requires
            forall|z: S| call_ensures(S::zero, (), z) ==> dot_computable(z, self.0@, self.0@, N as int),
            T::obeys_div_spec(),
            forall|l: T, i: int|
                0 <= i < N && is_norm::<T, S>(self.0@, N as int, l) ==> #[trigger] self.0@[i].div_req(l),
        ensures
            exists|l: T| #[trigger] is_norm::<T, S>(self.0@, N as int, l)
                && forall|i: int| 0 <= i < N ==> #[trigger] r.0@[i] == self.0@[i].div_spec(l),
    {
        let length = self.norm();
        let mut out = [K::default(); N];
        let mut i: usize = 0;
        while i < N
            invariant
                0 <= i <= N,
                T::obeys_div_spec(),
                is_norm::<T, S>(self.0@, N as int, length),
                forall|l: T, k: int|
                    0 <= k < N && is_norm::<T, S>(self.0@, N as int, l) ==> #[trigger] self.0@[k].div_req(l),
                forall|k: int| 0 <= k < i ==> #[trigger] out@[k] == self.0@[k].div_spec(length),
            decreases N - i,
        {
            out[i] = self.0[i] / length;
            i += 1;
        }
        Vex(out)
    }
}

impl<A: Copy> Vex<2, A> {
    /// The two-dimensional cross product: the signed area spanned by the two vectors.
    pub fn cross<B: Copy, P, D>(self, other: Vex<2, B>) -> (r: D)
        where
            A: Mul<B, Output = P>,
            P: Sub<P, Output = D>,
        requires
            A::obeys_mul_spec(),
            self.0@[0].mul_req(other.0@[1]),
            self.0@[1].mul_req(other.0@[0]),
            self.0@[0].mul_spec(other.0@[1]).sub_req(self.0@[1].mul_spec(other.0@[0])),
        ensures
            P::obeys_sub_spec() ==> r == self.0@[0].mul_spec(other.0@[1]).sub_spec(
                self.0@[1].mul_spec(other.0@[0]),
            ),
    {
        let l_x = self.0[0];
        let l_y = self.0[1];
        let r_x = other.0[0];
        let r_y = other.0[1];
        l_x * r_y - l_y * r_x
    }
}

/// Component `i` of `a` is `f(i)`.
pub open spec fn has_components<const N: usize, T>(a: [T; N], f: spec_fn(int) -> T) -> bool {
    forall|i: int| 0 <= i < N ==> #[trigger] a@[i] == f(i)
}

/// The vector whose component `i` is `f(i)`.
pub open spec fn componentwise<const N: usize, T>(f: spec_fn(int) -> T) -> Vex<N, T> {
    Vex(choose|a: [T; N]| #[trigger] has_components(a, f))
}

proof fn lemma_componentwise<const N: usize, T>(a: [T; N], f: spec_fn(int) -> T)
    requires
        forall|i: int| 0 <= i < N ==> #[trigger] a@[i] == f(i),
    ensures
        componentwise::<N, T>(f) == Vex(a),
{
    assert(has_components(a, f));
    let b = choose|b: [T; N]| #[trigger] has_components(b, f);
    assert(b@ =~= a@);
    broadcast use vstd::array::axiom_array_ext_equal;
    assert(b =~= a);
}

impl<const N: usize, T: Copy + Default + Add<Output = T>> Add for Vex<N, T> {
    type Output = Vex<N, T>;

    fn add(self, rhs: Vex<N, T>) -> (r: Vex<N, T>)
        ensures
            T::obeys_add_spec() ==> forall|k: int| 0 <= k < N ==> #[trigger] r.0@[k] == self.0@[k].add_spec(rhs.0@[k]),
    {
        let mut out = [T::default(); N];
        let mut i: usize = 0;
        while i < N
            invariant
                0 <= i <= N,
                forall|k: int| 0 <= k < N ==> (#[trigger] self.0@[k]).add_req(rhs.0@[k]),
                T::obeys_add_spec() ==> forall|k: int| 0 <= k < i ==> #[trigger] out@[k] == self.0@[k].add_spec(rhs.0@[k]),
            decreases N - i,
        {
            out[i] = self.0[i] + rhs.0[i];
            i += 1;
        }
        proof {
            if T::obeys_add_spec() {
                lemma_componentwise::<N, T>(out, |k: int| self.0@[k].add_spec(rhs.0@[k]));
            }
        }
        Vex(out)
    }
}

impl<const N: usize, T: Copy + Default + Add<Output = T>> AddSpecImpl for Vex<N, T> {
    open spec fn obeys_add_spec() -> bool {
        T::obeys_add_spec()
    }

    open spec fn add_req(self, rhs: Vex<N, T>) -> bool {
        forall|k: int| 0 <= k < N ==> (#[trigger] self.0@[k]).add_req(rhs.0@[k])
    }

    open spec fn add_spec(self, rhs: Vex<N, T>) -> Vex<N, T> {
        componentwise::<N, T>(|k: int| self.0@[k].add_spec(rhs.0@[k]))
    }
}

impl<const N: usize, T: Copy + Default + Sub<Output = T>> Sub for Vex<N, T> {
    type Output = Vex<N, T>;

    fn sub(self, rhs: Vex<N, T>) -> (r: Vex<N, T>)
        ensures
            T::obeys_sub_spec() ==> forall|k: int| 0 <= k < N ==> #[trigger] r.0@[k] == self.0@[k].sub_spec(rhs.0@[k]),
    {
        let mut out = [T::default(); N];
        let mut i: usize = 0;
        while i < N
            invariant
                0 <= i <= N,
                forall|k: int| 0 <= k < N ==> (#[trigger] self.0@[k]).sub_req(rhs.0@[k]),
                T::obeys_sub_spec() ==> forall|k: int| 0 <= k < i ==> #[trigger] out@[k] == self.0@[k].sub_spec(rhs.0@[k]),
            decreases N - i,
        {
            out[i] = self.0[i] - rhs.0[i];
            i += 1;
        }
        proof {
            if T::obeys_sub_spec() {
                lemma_componentwise::<N, T>(out, |k: int| self.0@[k].sub_spec(rhs.0@[k]));
            }
        }
        Vex(out)
    }
}

impl<const N: usize, T: Copy + Default + Sub<Output = T>> SubSpecImpl for Vex<N, T> {
    open spec fn obeys_sub_spec() -> bool {
        T::obeys_sub_spec()
    }

    open spec fn sub_req(self, rhs: Vex<N, T>) -> bool {
        forall|k: int| 0 <= k < N ==> (#[trigger] self.0@[k]).sub_req(rhs.0@[k])
    }

    open spec fn sub_spec(self, rhs: Vex<N, T>) -> Vex<N, T> {
        componentwise::<N, T>(|k: int| self.0@[k].sub_spec(rhs.0@[k]))
    }
}

impl<const N: usize, S: Copy + Default, T: Copy + Neg<Output = S>> Neg for Vex<N, T> {
    type Output = Vex<N, S>;

    fn neg(self) -> (r: Vex<N, S>)
        ensures
            T::obeys_neg_spec() ==> forall|k: int| 0 <= k < N ==> #[trigger] r.0@[k] == self.0@[k].neg_spec(),
    {
        let mut out = [S::default(); N];
        let mut i: usize = 0;
        while i < N
            invariant
                0 <= i <= N,
                forall|k: int| 0 <= k < N ==> (#[trigger] self.0@[k]).neg_req(),
                T::obeys_neg_spec() ==> forall|k: int| 0 <= k < i ==> #[trigger] out@[k] == self.0@[k].neg_spec(),
            decreases N - i,
        {
            out[i] = self.0[i].neg();
            i += 1;
        }
        proof {
            if T::obeys_neg_spec() {
                lemma_componentwise::<N, S>(out, |k: int| self.0@[k].neg_spec());
            }
        }
        Vex(out)
    }
}

impl<const N: usize, S: Copy + Default, T: Copy + Neg<Output = S>> NegSpecImpl for Vex<N, T> {
    open spec fn obeys_neg_spec() -> bool {
        T::obeys_neg_spec()
    }

    open spec fn neg_req(self) -> bool {
        forall|k: int| 0 <= k < N ==> (#[trigger] self.0@[k]).neg_req()
    }

    open spec fn neg_spec(self) -> Vex<N, S> {
        componentwise::<N, S>(|k: int| self.0@[k].neg_spec())
    }
}

impl<const N: usize, A: Copy, B: Copy + Default, T: Copy + Mul<A, Output = B>> Mul<A> for Vex<N, T> {
    type Output = Vex<N, B>;

    /// Scales each component by `rhs`.
    fn mul(self, rhs: A) -> (r: Vex<N, B>)
        ensures
            T::obeys_mul_spec() ==> forall|k: int| 0 <= k < N ==> #[trigger] r.0@[k] == self.0@[k].mul_spec(rhs),
    {
        let mut out = [B::default(); N];
        let mut i: usize = 0;
        while i < N
            invariant
                0 <= i <= N,
                forall|k: int| 0 <= k < N ==> (#[trigger] self.0@[k]).mul_req(rhs),
                T::obeys_mul_spec() ==> forall|k: int| 0 <= k < i ==> #[trigger] out@[k] == self.0@[k].mul_spec(rhs),
            decreases N - i,
        {
            out[i] = self.0[i] * rhs;
            i += 1;
        }
        proof {
            if T::obeys_mul_spec() {
                lemma_componentwise::<N, B>(out, |k: int| self.0@[k].mul_spec(rhs));
            }
        }
        Vex(out)
    }
}

impl<const N: usize, A: Copy, B: Copy + Default, T: Copy + Mul<A, Output = B>> MulSpecImpl<A> for Vex<N, T> {
    open spec fn obeys_mul_spec() -> bool {
        T::obeys_mul_spec()
    }

    open spec fn mul_req(self, rhs: A) -> bool {
        forall|k: int| 0 <= k < N ==> (#[trigger] self.0@[k]).mul_req(rhs)
    }

    open spec fn mul_spec(self, rhs: A) -> Vex<N, B> {
        componentwise::<N, B>(|k: int| self.0@[k].mul_spec(rhs))
    }
}

impl<const N: usize, A: Copy, B: Copy + Default, T: Copy + Div<A, Output = B>> Div<A> for Vex<N, T> {
    type Output = Vex<N, B>;

    /// Divides each component by `rhs`.
    fn div(self, rhs: A) -> (r: Vex<N, B>)
        ensures
            T::obeys_div_spec() ==> forall|k: int| 0 <= k < N ==> #[trigger] r.0@[k] == self.0@[k].div_spec(rhs),
    {
        let mut out = [B::default(); N];
        let mut i: usize = 0;
        while i < N
            invariant
                0 <= i <= N,
                forall|k: int| 0 <= k < N ==> (#[trigger] self.0@[k]).div_req(rhs),
                T::obeys_div_spec() ==> forall|k: int| 0 <= k < i ==> #[trigger] out@[k] == self.0@[k].div_spec(rhs),
            decreases N - i,
        {
            out[i] = self.0[i] / rhs;
            i += 1;
        }
        proof {
            if T::obeys_div_spec() {
                lemma_componentwise::<N, B>(out, |k: int| self.0@[k].div_spec(rhs));
            }
        }
        Vex(out)
    }
}

impl<const N: usize, A: Copy, B: Copy + Default, T: Copy + Div<A, Output = B>> DivSpecImpl<A> for Vex<N, T> {
    open spec fn obeys_div_spec() -> bool {
        T::obeys_div_spec()
    }

    open spec fn div_req(self, rhs: A) -> bool {
        forall|k: int| 0 <= k < N ==> (#[trigger] self.0@[k]).div_req(rhs)
    }

    open spec fn div_spec(self, rhs: A) -> Vex<N, B> {
        componentwise::<N, B>(|k: int| self.0@[k].div_spec(rhs))
    }
}

impl<const N: usize, T: Zero + Copy> Zero for Vex<N, T> {
    /// The vector of zeros.
    fn zero() -> (r: Vex<N, T>)
        ensures
            exists|z: T| call_ensures(T::zero, (), z) && forall|k: int| 0 <= k < N ==> #[trigger] r.0@[k] == z,
    {
        let z = T::zero();
        let r = Vex([z; N]);
        assert(forall|k: int| 0 <= k < N ==> #[trigger] r.0@[k] == z);
        r
    }
}

} // verus!
