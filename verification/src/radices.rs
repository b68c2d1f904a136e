//! Radix tuples for mixed-radix qudit systems.
//!
//! A qudit system is described by one radix (number of basis levels, at
//! least two) per qudit.  The tuple fixes a positional numbering of basis
//! states: the first qudit is the least-significant digit.  This module
//! provides the tuple type together with the digit-tuple/linear-index
//! conversions and the lemmas the rest of the crate builds on.

use vstd::prelude::*;

verus! {

/// Product of all radices in the tuple: the dimension of the composite
/// Hilbert space the tuple describes.
pub open spec fn radix_prod(s: Seq<usize>) -> nat
    decreases s.len(),
{
    if s.len() == 0 {
        1
    } else {
        (s[0] as nat) * radix_prod(s.drop_first())
    }
}

/// The linear index of a digit tuple, first digit least significant:
/// `digits[0] + radixes[0] * (digits[1] + radixes[1] * (...))`, which equals
/// the positional sum `digits[i] * prod(radixes[..i])` over all `i`.
pub open spec fn mixed_radix(digits: Seq<usize>, radixes: Seq<usize>) -> nat
    recommends
        digits.len() == radixes.len(),
    decreases digits.len(),
{
    if digits.len() == 0 {
        0
    } else {
        digits[0] as nat + (radixes[0] as nat) * mixed_radix(
            digits.drop_first(),
            radixes.drop_first(),
        )
    }
}

/// Every digit of the tuple is strictly below its radix.
pub open spec fn digits_in_range(digits: Seq<usize>, radixes: Seq<usize>) -> bool {
    &&& digits.len() == radixes.len()
    &&& forall|i: int| 0 <= i < digits.len() ==> digits[i] < radixes[i]
}

/// Appending a radix multiplies the product by it.
pub proof fn lemma_radix_prod_push(s: Seq<usize>, x: usize)
    ensures
        radix_prod(s.push(x)) == radix_prod(s) * x,
    decreases s.len(),
{
    if s.len() == 0 {
        assert(s.push(x).drop_first() =~= Seq::<usize>::empty());
        assert(s.push(x)[0] == x);
        assert(s.push(x).len() == 1);
        assert(radix_prod(s.push(x)) == (s.push(x)[0] as nat) * radix_prod(
            s.push(x).drop_first(),
        ));
        assert(radix_prod(s.push(x).drop_first()) == 1);
        assert(radix_prod(s.push(x)) == (x as nat) * radix_prod(s.push(x).drop_first()));
        assert(radix_prod(s.push(x)) == (x as nat) * 1);
        assert(radix_prod(s.push(x)) == x);
        assert(radix_prod(s) == 1);
    } else {
        assert(s.push(x).drop_first() =~= s.drop_first().push(x));
        assert(s.push(x)[0] == s[0]);
        lemma_radix_prod_push(s.drop_first(), x);
        assert((s[0] as nat) * (radix_prod(s.drop_first()) * (x as nat)) == ((s[0] as nat)
            * radix_prod(s.drop_first())) * (x as nat)) by (nonlinear_arith);
    }
}

/// The product over one radix is that radix.
pub proof fn lemma_radix_prod_singleton(r: usize)
    ensures
        radix_prod(seq![r]) == r,
{
    assert(seq![r].drop_first() =~= Seq::<usize>::empty());
    assert(radix_prod(seq![r]) == (r as nat) * radix_prod(seq![r].drop_first()));
    assert(radix_prod(seq![r]) == (r as nat) * 1);
}

/// The product over a pair of radices is their product.
pub proof fn lemma_radix_prod_pair(a: usize, b: usize)
    ensures
        radix_prod(seq![a, b]) == (a as nat) * (b as nat),
{
    assert(seq![a, b].drop_first() =~= seq![b]);
    lemma_radix_prod_singleton(b);
    assert(radix_prod(seq![a, b]) == (a as nat) * radix_prod(seq![a, b].drop_first()));
}

/// The product over a concatenation is the product of the two products.
pub proof fn lemma_radix_prod_concat(a: Seq<usize>, b: Seq<usize>)
    ensures
        radix_prod(a + b) == radix_prod(a) * radix_prod(b),
    decreases a.len(),
{
    if a.len() == 0 {
        assert(a + b =~= b);
        assert(radix_prod(a + b) == radix_prod(b));
        assert(radix_prod(a) == 1);
    } else {
        assert((a + b).drop_first() =~= a.drop_first() + b);
        assert((a + b)[0] == a[0]);
        lemma_radix_prod_concat(a.drop_first(), b);
        assert(radix_prod(a + b) == (a[0] as nat) * radix_prod((a + b).drop_first()));
        assert(radix_prod(a + b) == (a[0] as nat) * radix_prod(a.drop_first() + b));
        assert(radix_prod(a + b) == (a[0] as nat) * (radix_prod(a.drop_first()) * radix_prod(b)));
        assert((a[0] as nat) * (radix_prod(a.drop_first()) * radix_prod(b)) == ((a[0] as nat)
            * radix_prod(a.drop_first())) * radix_prod(b)) by (nonlinear_arith);
        assert(radix_prod(a) == (a[0] as nat) * radix_prod(a.drop_first()));
    }
}

/// With no zero radix the product is at least one.
pub proof fn lemma_radix_prod_pos(s: Seq<usize>)
    requires
        forall|i: int| 0 <= i < s.len() ==> s[i] >= 1,
    ensures
        radix_prod(s) >= 1,
    decreases s.len(),
{
    if s.len() > 0 {
        assert(forall|i: int|
            0 <= i < s.drop_first().len() ==> #[trigger] s.drop_first()[i] == s[i + 1]);
        lemma_radix_prod_pos(s.drop_first());
        assert((s[0] as nat) * radix_prod(s.drop_first()) >= 1 * 1) by (nonlinear_arith)
            requires
                s[0] as nat >= 1,
                radix_prod(s.drop_first()) >= 1,
        ;
    }
}

/// With no zero radix, a prefix of the tuple has a product no larger than
/// the whole tuple's.
pub proof fn lemma_radix_prod_prefix_le(s: Seq<usize>, i: int)
    requires
        0 <= i <= s.len(),
        forall|k: int| 0 <= k < s.len() ==> s[k] >= 1,
    ensures
        radix_prod(s.subrange(0, i)) <= radix_prod(s),
{
    assert(s =~= s.subrange(0, i) + s.subrange(i, s.len() as int));
    lemma_radix_prod_concat(s.subrange(0, i), s.subrange(i, s.len() as int));
    lemma_radix_prod_pos(s.subrange(i, s.len() as int));
    assert(radix_prod(s.subrange(0, i)) * radix_prod(s.subrange(i, s.len() as int)) >= radix_prod(
        s.subrange(0, i),
    ) * 1) by (nonlinear_arith)
        requires
            radix_prod(s.subrange(i, s.len() as int)) >= 1,
    ;
}

/// Appending one more digit adds its place value.
pub proof fn lemma_mixed_radix_push(digits: Seq<usize>, radixes: Seq<usize>, d: usize, r: usize)
    requires
        digits.len() == radixes.len(),
    ensures
        mixed_radix(digits.push(d), radixes.push(r)) == mixed_radix(digits, radixes) + (d as nat)
            * radix_prod(radixes),
    decreases digits.len(),
{
    if digits.len() == 0 {
        assert(digits.push(d).drop_first() =~= Seq::<usize>::empty());
        assert(radixes.push(r).drop_first() =~= Seq::<usize>::empty());
        assert(digits.push(d)[0] == d);
        assert(radixes.push(r)[0] == r);
        assert(mixed_radix(digits.push(d), radixes.push(r)) == (d as nat) + (r as nat)
            * mixed_radix(Seq::<usize>::empty(), Seq::<usize>::empty()));
        assert((r as nat) * 0 == 0) by (nonlinear_arith);
        assert(mixed_radix(digits.push(d), radixes.push(r)) == d as nat);
        assert(radix_prod(radixes) == 1);
        assert((d as nat) * 1 == d as nat) by (nonlinear_arith);
    } else {
        assert(digits.push(d).drop_first() =~= digits.drop_first().push(d));
        assert(radixes.push(r).drop_first() =~= radixes.drop_first().push(r));
        assert(digits.push(d)[0] == digits[0]);
        assert(radixes.push(r)[0] == radixes[0]);
        lemma_mixed_radix_push(digits.drop_first(), radixes.drop_first(), d, r);
        let m = mixed_radix(digits.drop_first(), radixes.drop_first());
        let p = radix_prod(radixes.drop_first());
        let r0 = radixes[0] as nat;
        let d0 = digits[0] as nat;
        assert(mixed_radix(digits.push(d), radixes.push(r)) == d0 + r0 * mixed_radix(
            digits.drop_first().push(d),
            radixes.drop_first().push(r),
        ));
        assert(mixed_radix(digits.push(d), radixes.push(r)) == d0 + r0 * (m + (d as nat) * p));
        assert(r0 * (m + (d as nat) * p) == r0 * m + (d as nat) * (r0 * p)) by (nonlinear_arith);
        assert(mixed_radix(digits, radixes) == d0 + r0 * m);
        assert(radix_prod(radixes) == r0 * p);
    }
}

/// An in-range digit tuple always indexes inside the composite dimension.
pub proof fn lemma_mixed_radix_bound(digits: Seq<usize>, radixes: Seq<usize>)
    requires
        digits_in_range(digits, radixes),
    ensures
        mixed_radix(digits, radixes) < radix_prod(radixes),
    decreases digits.len(),
{
    if digits.len() == 0 {
    } else {
        assert(digits_in_range(digits.drop_first(), radixes.drop_first()));
        lemma_mixed_radix_bound(digits.drop_first(), radixes.drop_first());
        let d0 = digits[0] as nat;
        let r0 = radixes[0] as nat;
        let m = mixed_radix(digits.drop_first(), radixes.drop_first());
        let p = radix_prod(radixes.drop_first());
        assert(d0 + r0 * m < r0 * p) by (nonlinear_arith)
            requires
                d0 < r0,
                m < p,
        ;
    }
}

/// The index determines the digit tuple: the mixed-radix encoding of
/// in-range digits is injective.
pub proof fn lemma_mixed_radix_injective(a: Seq<usize>, b: Seq<usize>, radixes: Seq<usize>)
    requires
        digits_in_range(a, radixes),
        digits_in_range(b, radixes),
        mixed_radix(a, radixes) == mixed_radix(b, radixes),
    ensures
        a =~= b,
    decreases radixes.len(),
{
    if radixes.len() > 0 {
        let r0 = radixes[0] as nat;
        let ma = mixed_radix(a.drop_first(), radixes.drop_first());
        let mb = mixed_radix(b.drop_first(), radixes.drop_first());
        assert(a[0] as nat + r0 * ma == b[0] as nat + r0 * mb);
        assert(a[0] == b[0] && ma == mb) by (nonlinear_arith)
            requires
                (a[0] as nat) < r0,
                (b[0] as nat) < r0,
                a[0] as nat + r0 * ma == b[0] as nat + r0 * mb,
        ;
        assert(digits_in_range(a.drop_first(), radixes.drop_first()));
        assert(digits_in_range(b.drop_first(), radixes.drop_first()));
        lemma_mixed_radix_injective(a.drop_first(), b.drop_first(), radixes.drop_first());
        assert(a =~= seq![a[0]] + a.drop_first());
        assert(b =~= seq![b[0]] + b.drop_first());
    }
}

/// An ordered tuple of radices, one per qudit, each at least two.  The
/// first qudit is the least-significant digit of the positional numbering.
#[derive(Hash, PartialEq, Eq, Debug)]
pub struct QuditRadices {
    radices: Vec<usize>,
}

impl View for QuditRadices {
    type V = Seq<usize>;

    closed spec fn view(&self) -> Seq<usize> {
        self.radices@
    }
}

impl QuditRadices {
    /// Every radix describes at least a two-level system.
    pub open spec fn wf(&self) -> bool {
        forall|i: int| 0 <= i < self@.len() ==> self@[i] >= 2
    }

    /// Builds a radix tuple from its list of radices.
    pub fn new(radices: Vec<usize>) -> (r: Self)
        requires
            forall|i: int| 0 <= i < radices@.len() ==> radices@[i] >= 2,
        ensures
            r@ == radices@,
            r.wf(),
    {
        QuditRadices { radices }
    }

    /// Number of qudits described by this tuple.
    pub fn len(&self) -> (n: usize)
        ensures
            n == self@.len(),
    {
        self.radices.len()
    }

    /// The radix of the qudit at `index`.
    pub fn get(&self, index: usize) -> (r: usize)
        requires
            index < self@.len(),
        ensures
            r == self@[index as int],
    {
        self.radices[index]
    }

    /// Concatenates two radix tuples: the qudits of `other` follow the
    /// qudits of `self` as more significant digits.
    pub fn concat(&self, other: &QuditRadices) -> (r: Self)
        ensures
            r@ == self@ + other@,
            self.wf() && other.wf() ==> r.wf(),
    {
        let mut combined: Vec<usize> = Vec::new();
        let mut i: usize = 0;
        while i < self.radices.len()
            invariant
                i <= self.radices.len(),
                combined@ =~= self.radices@.subrange(0, i as int),
            decreases self.radices.len() - i,
        {
            combined.push(self.radices[i]);
            i = i + 1;
        }
        assert(combined@ =~= self.radices@);
        let mut j: usize = 0;
        while j < other.radices.len()
            invariant
                j <= other.radices.len(),
                combined@ =~= self.radices@ + other.radices@.subrange(0, j as int),
            decreases other.radices.len() - j,
        {
            combined.push(other.radices[j]);
            j = j + 1;
        }
        assert(combined@ =~= self.radices@ + other.radices@);
        let r = QuditRadices { radices: combined };
        proof {
            assert(r@ == self@ + other@);
            if self.wf() && other.wf() {
                assert forall|k: int| 0 <= k < r@.len() implies r@[k] >= 2 by {
                    if k < self@.len() {
                        assert(self@[k] >= 2);
                    } else {
                        assert(other@[k - self@.len()] >= 2);
                    }
                }
            }
        }
        r
    }

    /// The dimension of the composite space, if it fits the machine word:
    /// the product of all radices.
    pub fn try_dimension(&self) -> (d: Option<usize>)
        requires
            self.wf(),
        ensures
            match d {
                Some(n) => n == radix_prod(self@),
                None => radix_prod(self@) > usize::MAX,
            },
    {
        let ghost s = self.radices@;
        proof {
            assert forall|k: int| 0 <= k < s.len() implies s[k] >= 2 by {
                assert(self@[k] >= 2);
            }
        }
        let mut acc: usize = 1;
        let mut i: usize = 0;
        assert(s.subrange(0, 0) =~= Seq::<usize>::empty());
        while i < self.radices.len()
            invariant
                i <= s.len(),
                s == self.radices@,
                forall|k: int| 0 <= k < s.len() ==> s[k] >= 2,
                acc == radix_prod(s.subrange(0, i as int)),
            decreases s.len() - i,
        {
            let r = self.radices[i];
            proof {
                assert(s.subrange(0, i as int + 1) =~= s.subrange(0, i as int).push(s[i as int]));
                lemma_radix_prod_push(s.subrange(0, i as int), r);
            }
            match acc.checked_mul(r) {
                Some(next) => {
                    acc = next;
                },
                None => {
                    proof {
                        lemma_radix_prod_prefix_le(s, i as int + 1);
                    }
                    return None;
                },
            }
            i = i + 1;
        }
        assert(s.subrange(0, i as int) =~= s);
        Some(acc)
    }

    /// The dimension of the composite space: the product of all radices.
    pub fn dimension(&self) -> (d: usize)
        requires
            self.wf(),
            radix_prod(self@) <= usize::MAX,
        ensures
            d == radix_prod(self@),
    {
        let d = self.try_dimension();
        d.unwrap()
    }

    /// Converts a digit tuple (first digit least significant) into its
    /// linear index.
    pub fn compress(&self, digits: &Vec<usize>) -> (index: usize)
        requires
            self.wf(),
            radix_prod(self@) <= usize::MAX,
            digits_in_range(digits@, self@),
        ensures
            index == mixed_radix(digits@, self@),
    {
        let ghost s = self.radices@;
        proof {
            assert forall|k: int| 0 <= k < s.len() implies s[k] >= 2 by {
                assert(self@[k] >= 2);
            }
        }
        let mut index: usize = 0;
        let mut place: usize = 1;
        let mut i: usize = 0;
        assert(s.subrange(0, 0) =~= Seq::<usize>::empty());
        assert(digits@.subrange(0, 0) =~= Seq::<usize>::empty());
        while i < self.radices.len()
            invariant
                i <= s.len(),
                forall|k: int| 0 <= k < s.len() ==> s[k] >= 2,
                s == self.radices@,
                radix_prod(s) <= usize::MAX,
                digits_in_range(digits@, s),
                place == radix_prod(s.subrange(0, i as int)),
                index == mixed_radix(digits@.subrange(0, i as int), s.subrange(0, i as int)),
            decreases s.len() - i,
        {
            let r = self.radices[i];
            let d = digits[i];
            proof {
                assert(s.subrange(0, i as int + 1) =~= s.subrange(0, i as int).push(s[i as int]));
                assert(digits@.subrange(0, i as int + 1) =~= digits@.subrange(0, i as int).push(
                    digits@[i as int],
                ));
                assert(digits_in_range(
                    digits@.subrange(0, i as int),
                    s.subrange(0, i as int),
                ));
                lemma_mixed_radix_bound(digits@.subrange(0, i as int), s.subrange(0, i as int));
                lemma_mixed_radix_push(
                    digits@.subrange(0, i as int),
                    s.subrange(0, i as int),
                    d,
                    r,
                );
                lemma_radix_prod_push(s.subrange(0, i as int), r);
                lemma_radix_prod_prefix_le(s, i as int + 1);
                let pre = radix_prod(s.subrange(0, i as int));
                assert(index + (d as nat) * pre < pre * (r as nat)) by (nonlinear_arith)
                    requires
                        index < pre,
                        (d as nat) < (r as nat),
                ;
            }
            index = index + d * place;
            place = place * r;
            i = i + 1;
        }
        assert(s.subrange(0, i as int) =~= s);
        assert(digits@.subrange(0, i as int) =~= digits@);
        index
    }

    /// Converts a linear index into its digit tuple, first digit least
    /// significant: the inverse of `compress`.
    pub fn expand(&self, index: usize) -> (digits: Vec<usize>)
        requires
            self.wf(),
            radix_prod(self@) <= usize::MAX,
            index < radix_prod(self@),
        ensures
            digits_in_range(digits@, self@),
            mixed_radix(digits@, self@) == index,
    {
        let ghost s = self.radices@;
        let mut digits: Vec<usize> = Vec::new();
        let mut rem: usize = index;
        let mut i: usize = 0;
        proof {
            assert forall|k: int| 0 <= k < s.len() implies s[k] >= 2 by {
                assert(self@[k] >= 2);
            }
            assert(s.subrange(0, 0) =~= Seq::<usize>::empty());
            assert(s.subrange(0, s.len() as int) =~= s);
            assert(mixed_radix(digits@, s.subrange(0, 0)) == 0);
            assert((rem as nat) * radix_prod(s.subrange(0, 0)) == rem) by (nonlinear_arith)
                requires
                    radix_prod(s.subrange(0, 0)) == 1,
            ;
        }
        while i < self.radices.len()
            invariant
                i <= s.len(),
                forall|k: int| 0 <= k < s.len() ==> s[k] >= 2,
                s == self.radices@,
                radix_prod(s) <= usize::MAX,
                digits@.len() == i,
                digits_in_range(digits@, s.subrange(0, i as int)),
                (rem as nat) < radix_prod(s.subrange(i as int, s.len() as int)),
                index == mixed_radix(digits@, s.subrange(0, i as int)) + (rem as nat) * radix_prod(
                    s.subrange(0, i as int),
                ),
            decreases s.len() - i,
        {
            let r = self.radices[i];
            assert(r >= 2) by {
                assert(s[i as int] >= 2);
            }
            let d = rem % r;
            let next_rem = rem / r;
            proof {
                let pre = s.subrange(0, i as int);
                let suf = s.subrange(i as int, s.len() as int);
                assert(suf.drop_first() =~= s.subrange(i as int + 1, s.len() as int));
                assert(suf[0] == s[i as int]);
                // suffix product unfolds as r * (product of the rest)
                assert(radix_prod(suf) == (r as nat) * radix_prod(
                    s.subrange(i as int + 1, s.len() as int),
                ));
                assert((next_rem as nat) < radix_prod(s.subrange(i as int + 1, s.len() as int)))
                    by (nonlinear_arith)
                    requires
                        (rem as nat) < (r as nat) * radix_prod(
                            s.subrange(i as int + 1, s.len() as int),
                        ),
                        next_rem == rem / r,
                        d == rem % r,
                        r >= 2,
                ;
                assert(s.subrange(0, i as int + 1) =~= pre.push(s[i as int]));
                lemma_mixed_radix_push(digits@, pre, d, r);
                lemma_radix_prod_push(pre, r);
                assert(rem == d + r * next_rem) by (nonlinear_arith)
                    requires
                        d == rem % r,
                        next_rem == rem / r,
                        r >= 2,
                ;
                let p = radix_prod(pre);
                assert((rem as nat) * p == (d as nat) * p + (next_rem as nat) * (p * (r as nat)))
                    by (nonlinear_arith)
                    requires
                        rem == d + r * next_rem,
                ;
            }
            digits.push(d);
            rem = next_rem;
            i = i + 1;
        }
        proof {
            assert(s.subrange(0, i as int) =~= s);
            assert(s.subrange(i as int, s.len() as int) =~= Seq::<usize>::empty());
            assert(rem == 0);
        }
        digits
    }
}

impl Clone for QuditRadices {
    /// Copies the tuple; the copy describes the same radices.
    fn clone(&self) -> (r: Self)
        ensures
            r@ == self@,
            r.wf() == self.wf(),
    {
        let mut copied: Vec<usize> = Vec::new();
        let mut i: usize = 0;
        while i < self.radices.len()
            invariant
                i <= self.radices.len(),
                copied@ =~= self.radices@.subrange(0, i as int),
            decreases self.radices.len() - i,
        {
            copied.push(self.radices[i]);
            i = i + 1;
        }
        assert(copied@ =~= self.radices@);
        let r = QuditRadices { radices: copied };
        proof {
            assert(r@ == self@);
            if self.wf() {
                assert forall|k: int| 0 <= k < r@.len() implies r@[k] >= 2 by {
                    assert(self@[k] >= 2);
                }
            }
            if r.wf() {
                assert forall|k: int| 0 <= k < self@.len() implies self@[k] >= 2 by {
                    assert(r@[k] >= 2);
                }
            }
        }
        r
    }
}

} // verus!
