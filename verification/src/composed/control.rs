//! The controlled-gate synthesizer.
//!
//! A controlled gate applies a target gate `G` exactly when its control
//! qudits stand in one of the chosen activation levels.  Its unitary is
//! `(I_p - P_c) ⊗ I + P_c ⊗ G`, where `P_c` projects onto the activating
//! control states.  The synthesizer never forms the projector: it starts
//! from the identity on the composite space and overwrites one diagonal
//! block with `G` for every activating combination of control levels.
//!
//! The block offsets come from the mixed-radix position of each level
//! combination, with the first control qudit as the least-significant
//! digit — the same convention the enumerator uses, so every combination
//! lands on its own diagonal block.

use vstd::prelude::*;

use crate::expr::UnitaryExpression;
use crate::expr::UnitaryExpressionGenerator;
use crate::radices::QuditRadices;
use crate::radices::digits_in_range;
use crate::radices::mixed_radix;
use crate::radices::radix_prod;

verus! {

/// The cartesian product of the per-qudit level sets, one level per
/// qudit per tuple, built up qudit by qudit: the first qudit's level
/// varies fastest across the sequence.
pub open spec fn level_product(levels: Seq<Seq<usize>>) -> Seq<Seq<usize>>
    decreases levels.len(),
{
    if levels.len() == 0 {
        Seq::empty()
    } else if levels.len() == 1 {
        levels[0].map_values(|l: usize| seq![l])
    } else {
        extend_tuples(level_product(levels.drop_last()), levels.last())
    }
}

/// Every tuple extended by the same level.
pub open spec fn push_each(tuples: Seq<Seq<usize>>, x: usize) -> Seq<Seq<usize>> {
    tuples.map_values(|v: Seq<usize>| v.push(x))
}

/// One enumeration step: for every level in `level` (outer), for every
/// tuple built so far (inner), the tuple extended by that level.
pub open spec fn extend_tuples(tuples: Seq<Seq<usize>>, level: Seq<usize>) -> Seq<Seq<usize>>
    decreases level.len(),
{
    if level.len() == 0 {
        Seq::empty()
    } else {
        push_each(tuples, level[0]) + extend_tuples(tuples, level.drop_first())
    }
}

/// Number of tuples the enumerator emits: the product of the set sizes.
pub open spec fn sizes_prod(levels: Seq<Seq<usize>>) -> nat
    decreases levels.len(),
{
    if levels.len() == 0 {
        1
    } else {
        sizes_prod(levels.drop_last()) * levels.last().len()
    }
}

/// One enumeration step multiplies the tuple count by the set size.
pub proof fn lemma_extend_tuples_len(tuples: Seq<Seq<usize>>, level: Seq<usize>)
    ensures
        extend_tuples(tuples, level).len() == tuples.len() * level.len(),
    decreases level.len(),
{
    if level.len() == 0 {
        assert(tuples.len() * 0 == 0) by (nonlinear_arith);
    } else {
        lemma_extend_tuples_len(tuples, level.drop_first());
        assert(tuples.len() + tuples.len() * (level.len() - 1) == tuples.len() * level.len())
            by (nonlinear_arith);
    }
}

/// One enumeration step appends one batch per level: appending a level at
/// the end appends its whole batch after the existing tuples.
pub proof fn lemma_extend_tuples_push(tuples: Seq<Seq<usize>>, level: Seq<usize>, x: usize)
    ensures
        extend_tuples(tuples, level.push(x)) == extend_tuples(tuples, level) + push_each(
            tuples,
            x,
        ),
    decreases level.len(),
{
    if level.len() == 0 {
        let lp = level.push(x);
        assert(lp[0] == x);
        assert(lp.drop_first() =~= Seq::<usize>::empty());
        assert(extend_tuples(tuples, lp) == push_each(tuples, lp[0]) + extend_tuples(
            tuples,
            lp.drop_first(),
        ));
        assert(extend_tuples(tuples, lp.drop_first()) == Seq::<Seq<usize>>::empty());
        assert(extend_tuples(tuples, lp) =~= extend_tuples(tuples, level) + push_each(tuples, x));
    } else {
        assert(level.push(x)[0] == level[0]);
        assert(level.push(x).drop_first() =~= level.drop_first().push(x));
        lemma_extend_tuples_push(tuples, level.drop_first(), x);
        assert(extend_tuples(tuples, level.push(x)) =~= extend_tuples(tuples, level) + push_each(
            tuples,
            x,
        ));
    }
}

/// The tuple at position `a * tuples.len() + b` of one enumeration step
/// is the tuple at position `b` extended by the level at position `a`:
/// the tuples built earlier vary faster than the level added last.
pub proof fn lemma_extend_tuples_index(
    tuples: Seq<Seq<usize>>,
    level: Seq<usize>,
    a: int,
    b: int,
)
    requires
        0 <= a < level.len(),
        0 <= b < tuples.len(),
    ensures
        0 <= a * tuples.len() + b < extend_tuples(tuples, level).len(),
        extend_tuples(tuples, level)[a * tuples.len() + b] == tuples[b].push(level[a]),
    decreases level.len(),
{
    lemma_extend_tuples_len(tuples, level);
    assert(a * tuples.len() + b < level.len() * tuples.len()) by (nonlinear_arith)
        requires
            0 <= a < level.len(),
            0 <= b < tuples.len(),
    ;
    let n = tuples.len() as int;
    let batch = push_each(tuples, level[0]);
    if a == 0 {
        assert(extend_tuples(tuples, level)[b] == batch[b]);
        assert(batch[b] == tuples[b].push(level[0]));
    } else {
        assert(a * n + b - n == (a - 1) * n + b) by (nonlinear_arith);
        assert(a * n + b >= n) by (nonlinear_arith)
            requires
                a >= 1,
                b >= 0,
                n >= 1,
        ;
        lemma_extend_tuples_index(tuples, level.drop_first(), a - 1, b);
        assert(extend_tuples(tuples, level)[a * n + b] == extend_tuples(
            tuples,
            level.drop_first(),
        )[(a - 1) * n + b]);
        assert(level.drop_first()[a - 1] == level[a]);
    }
}

/// With every level set non-empty the enumerator emits at least one
/// tuple, and exactly the product of the set sizes.
pub proof fn lemma_level_product_len(levels: Seq<Seq<usize>>)
    requires
        levels.len() >= 1,
    ensures
        level_product(levels).len() == sizes_prod(levels),
    decreases levels.len(),
{
    if levels.len() == 1 {
        assert(levels.drop_last() =~= Seq::<Seq<usize>>::empty());
        assert(sizes_prod(levels) == sizes_prod(levels.drop_last()) * levels.last().len());
        assert(sizes_prod(levels.drop_last()) == 1);
        assert(levels.last() == levels[0]);
        assert(level_product(levels) == levels[0].map_values(|l: usize| seq![l]));
        assert(level_product(levels).len() == levels[0].len());
        assert(sizes_prod(levels) == 1 * levels[0].len());
    } else {
        lemma_level_product_len(levels.drop_last());
        lemma_extend_tuples_len(level_product(levels.drop_last()), levels.last());
    }
}

/// The product of non-empty set sizes is positive.
pub proof fn lemma_sizes_prod_pos(levels: Seq<Seq<usize>>)
    requires
        forall|i: int| 0 <= i < levels.len() ==> #[trigger] levels[i].len() > 0,
    ensures
        sizes_prod(levels) >= 1,
    decreases levels.len(),
{
    if levels.len() > 0 {
        assert(forall|i: int|
            0 <= i < levels.drop_last().len() ==> #[trigger] levels.drop_last()[i] == levels[i]);
        lemma_sizes_prod_pos(levels.drop_last());
        assert(levels.last().len() >= 1);
        assert(sizes_prod(levels.drop_last()) * levels.last().len() >= 1 * 1) by (nonlinear_arith)
            requires
                sizes_prod(levels.drop_last()) >= 1,
                levels.last().len() >= 1,
        ;
    }
}

/// Every emitted tuple picks one level per qudit, each from that qudit's
/// level set.
pub proof fn lemma_level_product_membership(levels: Seq<Seq<usize>>, k: int)
    requires
        0 <= k < level_product(levels).len(),
    ensures
        level_product(levels)[k].len() == levels.len(),
        forall|i: int|
            0 <= i < levels.len() ==> #[trigger] levels[i].contains(level_product(levels)[k][i]),
    decreases levels.len(),
{
    if levels.len() == 0 {
    } else if levels.len() == 1 {
        assert(level_product(levels)[k] == seq![levels[0][k]]);
        assert(levels[0].contains(levels[0][k]));
        assert(forall|i: int|
            0 <= i < 1 ==> #[trigger] levels[i].contains(level_product(levels)[k][i]));
    } else {
        let prev = level_product(levels.drop_last());
        let last = levels.last();
        let n = prev.len() as int;
        lemma_extend_tuples_len(prev, last);
        assert(n >= 1) by (nonlinear_arith)
            requires
                0 <= k < n * last.len(),
        ;
        let a = k / n;
        let b = k % n;
        assert(k == a * n + b && 0 <= b < n) by (nonlinear_arith)
            requires
                n >= 1,
                a == k / n,
                b == k % n,
                k >= 0,
        ;
        assert(a < last.len()) by (nonlinear_arith)
            requires
                n >= 1,
                0 <= k < n * last.len(),
                a == k / n,
        ;
        lemma_extend_tuples_index(prev, last, a, b);
        assert(level_product(levels)[k] == prev[b].push(last[a]));
        lemma_level_product_membership(levels.drop_last(), b);
        let tuple = level_product(levels)[k];
        assert forall|i: int| 0 <= i < levels.len() implies #[trigger] levels[i].contains(
            tuple[i],
        ) by {
            if i < levels.len() - 1 {
                assert(levels.drop_last()[i] == levels[i]);
                assert(tuple[i] == prev[b][i]);
                assert(levels.drop_last()[i].contains(prev[b][i]));
            } else {
                assert(tuple[i] == last[a]);
                assert(last.contains(last[a]));
            }
        }
    }
}

/// Why a control specification was rejected.
///
/// Construction validates the whole specification before any expression
/// is built; the first violation found, in the order below, is returned
/// and no partial gate escapes.
#[derive(Debug, Clone, Copy, PartialEq, Eq, Hash)]
pub enum ControlError {
    /// Control radices and control levels have different lengths.
    LengthMismatch,
    /// Some control qudit's activation set is empty.
    EmptyLevelSet,
    /// A level is at least as large as its qudit's radix.
    LevelOutOfRange,
    /// A level set contains a repeated value.
    DuplicateLevel,
    /// The composite dimension does not fit the machine word.
    OverflowError,
}

/// The level lists and the radix tuple pair up one to one.
pub open spec fn lengths_match(radixes: Seq<usize>, levels: Seq<Seq<usize>>) -> bool {
    radixes.len() == levels.len()
}

/// Some activation set is empty.
pub open spec fn has_empty_set(levels: Seq<Seq<usize>>) -> bool {
    exists|i: int| 0 <= i < levels.len() && #[trigger] levels[i].len() == 0
}

/// Every level lies below its qudit's radix.
pub open spec fn levels_in_range(radixes: Seq<usize>, levels: Seq<Seq<usize>>) -> bool {
    forall|i: int, j: int|
        0 <= i < levels.len() && 0 <= j < levels[i].len() ==> #[trigger] levels[i][j] < radixes[i]
}

/// No level repeats within one activation set.
pub open spec fn sets_distinct(levels: Seq<Seq<usize>>) -> bool {
    forall|i: int, j: int, k: int|
        0 <= i < levels.len() && 0 <= j < k < levels[i].len() ==> levels[i][j] != levels[i][k]
}

/// A valid control specification: lengths match, no set is empty, every
/// level is in range and no set repeats a level.
pub open spec fn control_spec_wf(radixes: Seq<usize>, levels: Seq<Seq<usize>>) -> bool {
    &&& lengths_match(radixes, levels)
    &&& !has_empty_set(levels)
    &&& levels_in_range(radixes, levels)
    &&& sets_distinct(levels)
}

/// Copies a digit tuple.
fn clone_usize_vec(v: &Vec<usize>) -> (r: Vec<usize>)
    ensures
        r@ == v@,
{
    let mut r: Vec<usize> = Vec::new();
    let mut i: usize = 0;
    while i < v.len()
        invariant
            i <= v.len(),
            r@ =~= v@.subrange(0, i as int),
        decreases v.len() - i,
    {
        r.push(v[i]);
        i = i + 1;
    }
    assert(r@ =~= v@);
    r
}

/// The built expression of a controlled gate, described exactly: an
/// identity on the composite space (controls first, then the target's
/// qudits), named after the target, with one well-formed block of the
/// target's radices embedded per activating level combination.  The
/// block for the combination at position `k` of the enumeration sits on
/// the diagonal at the offset given by the combination's mixed-radix
/// index times the target's dimension.  Which expression each block is
/// stands beside this layout, in the constructor's contract, through the
/// target's `gen_matches`.
pub open spec fn controlled_expr_layout(
    e: UnitaryExpression,
    target_name: Seq<char>,
    target_radices: Seq<usize>,
    control_radices: Seq<usize>,
    control_levels: Seq<Seq<usize>>,
) -> bool {
    let d = radix_prod(target_radices);
    let tuples = level_product(control_levels);
    &&& e.embed_base() matches UnitaryExpression::Identity { name, radices } && name@
        == "Controlled("@ + target_name + ")"@ && radices@ == control_radices + target_radices
    &&& e.embed_layers().len() == tuples.len()
    &&& forall|k: int|
        0 <= k < tuples.len() ==> {
            let layer = #[trigger] e.embed_layers()[k];
            &&& layer.0.wf()
            &&& layer.0.spec_radices() == target_radices
            &&& layer.1 == mixed_radix(tuples[k], control_radices) * d
            &&& layer.2 == mixed_radix(tuples[k], control_radices) * d
        }
}

/// With duplicate-free level sets the enumerator never repeats a
/// combination.
pub proof fn lemma_level_product_distinct(levels: Seq<Seq<usize>>, k1: int, k2: int)
    requires
        sets_distinct(levels),
        0 <= k1 < level_product(levels).len(),
        0 <= k2 < level_product(levels).len(),
        k1 != k2,
    ensures
        level_product(levels)[k1] != level_product(levels)[k2],
    decreases levels.len(),
{
    if levels.len() == 0 {
    } else if levels.len() == 1 {
        assert(level_product(levels)[k1] == seq![levels[0][k1]]);
        assert(level_product(levels)[k2] == seq![levels[0][k2]]);
        assert(levels[0][k1] != levels[0][k2]);
        assert(seq![levels[0][k1]][0] == levels[0][k1]);
        assert(seq![levels[0][k2]][0] == levels[0][k2]);
    } else {
        let prev = level_product(levels.drop_last());
        let last = levels.last();
        let n = prev.len() as int;
        lemma_extend_tuples_len(prev, last);
        assert(n >= 1) by (nonlinear_arith)
            requires
                0 <= k1 < n * last.len(),
        ;
        let a1 = k1 / n;
        let b1 = k1 % n;
        let a2 = k2 / n;
        let b2 = k2 % n;
        assert(k1 == a1 * n + b1 && 0 <= b1 < n && k2 == a2 * n + b2 && 0 <= b2 < n)
            by (nonlinear_arith)
            requires
                n >= 1,
                a1 == k1 / n,
                b1 == k1 % n,
                a2 == k2 / n,
                b2 == k2 % n,
                k1 >= 0,
                k2 >= 0,
        ;
        assert(a1 < last.len() && a2 < last.len()) by (nonlinear_arith)
            requires
                n >= 1,
                0 <= k1 < n * last.len(),
                0 <= k2 < n * last.len(),
                a1 == k1 / n,
                a2 == k2 / n,
        ;
        lemma_extend_tuples_index(prev, last, a1, b1);
        lemma_extend_tuples_index(prev, last, a2, b2);
        let t1 = level_product(levels)[k1];
        let t2 = level_product(levels)[k2];
        assert(t1 == prev[b1].push(last[a1]));
        assert(t2 == prev[b2].push(last[a2]));
        if a1 != a2 {
            assert(last == levels[levels.len() - 1]);
            assert(last[a1] != last[a2]);
            assert(t1.last() == last[a1]);
            assert(t2.last() == last[a2]);
        } else {
            assert(b1 != b2) by (nonlinear_arith)
                requires
                    k1 != k2,
                    k1 == a1 * n + b1,
                    k2 == a2 * n + b2,
                    a1 == a2,
            ;
            assert(forall|i: int, j: int, k: int|
                0 <= i < levels.drop_last().len() && 0 <= j < k < levels.drop_last()[i].len()
                    ==> levels.drop_last()[i][j] != levels.drop_last()[i][k]) by {
                assert(forall|i: int|
                    0 <= i < levels.drop_last().len() ==> #[trigger] levels.drop_last()[i]
                        == levels[i]);
            }
            lemma_level_product_distinct(levels.drop_last(), b1, b2);
            assert(prev[b1] =~= t1.drop_last());
            assert(prev[b2] =~= t2.drop_last());
        }
    }
}

/// Distinct activation combinations land on distinct diagonal blocks:
/// the enumerator's digit order and the mixed-radix mapper's convention
/// agree (first control qudit least significant in both), so no two
/// combinations of a valid specification share a block offset.
pub proof fn lemma_activated_blocks_distinct(
    control_radices: Seq<usize>,
    control_levels: Seq<Seq<usize>>,
    k1: int,
    k2: int,
)
    requires
        control_spec_wf(control_radices, control_levels),
        0 <= k1 < level_product(control_levels).len(),
        0 <= k2 < level_product(control_levels).len(),
        k1 != k2,
    ensures
        mixed_radix(level_product(control_levels)[k1], control_radices) != mixed_radix(
            level_product(control_levels)[k2],
            control_radices,
        ),
{
    let t1 = level_product(control_levels)[k1];
    let t2 = level_product(control_levels)[k2];
    lemma_level_product_distinct(control_levels, k1, k2);
    lemma_level_product_membership(control_levels, k1);
    lemma_level_product_membership(control_levels, k2);
    assert forall|q: int| 0 <= q < t1.len() implies t1[q] < control_radices[q] by {
        assert(control_levels[q].contains(t1[q]));
        let w = choose|w: int| 0 <= w < control_levels[q].len() && control_levels[q][w] == t1[q];
        assert(control_levels[q][w] < control_radices[q]);
    }
    assert forall|q: int| 0 <= q < t2.len() implies t2[q] < control_radices[q] by {
        assert(control_levels[q].contains(t2[q]));
        let w = choose|w: int| 0 <= w < control_levels[q].len() && control_levels[q][w] == t2[q];
        assert(control_levels[q][w] < control_radices[q]);
    }
    assert(digits_in_range(t1, control_radices));
    assert(digits_in_range(t2, control_radices));
    if mixed_radix(t1, control_radices) == mixed_radix(t2, control_radices) {
        crate::radices::lemma_mixed_radix_injective(t1, t2, control_radices);
    }
}

/// The dimension law of controlled gates: the composite radices are the
/// control radices followed by the target's, so the composite dimension
/// is the product of the control radices times the target's dimension.
pub proof fn lemma_controlled_dimension(
    composite: Seq<usize>,
    control_radices: Seq<usize>,
    target_radices: Seq<usize>,
)
    requires
        composite == control_radices + target_radices,
    ensures
        radix_prod(composite) == radix_prod(control_radices) * radix_prod(target_radices),
{
    crate::radices::lemma_radix_prod_concat(control_radices, target_radices);
}

/// The activation sets that select every level of every control qudit.
pub open spec fn full_levels(radixes: Seq<usize>) -> Seq<Seq<usize>> {
    Seq::new(radixes.len(), |i: int| Seq::new(radixes[i] as nat, |l: int| l as usize))
}

/// Selecting every level of every control qudit activates every control
/// combination, and the enumerator lists them in index order: the
/// combination at position `k` has mixed-radix index exactly `k`.
pub proof fn lemma_full_activation_enumerates_in_order(radixes: Seq<usize>)
    requires
        radixes.len() >= 1,
    ensures
        level_product(full_levels(radixes)).len() == radix_prod(radixes),
        forall|k: int|
            0 <= k < radix_prod(radixes) ==> mixed_radix(
                #[trigger] level_product(full_levels(radixes))[k],
                radixes,
            ) == k,
    decreases radixes.len(),
{
    let fl = full_levels(radixes);
    if radixes.len() == 1 {
        assert(radixes =~= seq![radixes[0]]);
        crate::radices::lemma_radix_prod_singleton(radixes[0]);
        assert(radix_prod(radixes) == radixes[0]);
        let ids = Seq::new(radixes[0] as nat, |l: int| l as usize);
        assert(fl[0] == ids);
        assert(level_product(fl) == fl[0].map_values(|l: usize| seq![l]));
        assert(level_product(fl).len() == radixes[0]);
        assert forall|k: int| 0 <= k < radix_prod(radixes) implies mixed_radix(
            #[trigger] level_product(fl)[k],
            radixes,
        ) == k by {
            assert(ids.len() == radixes[0] as nat);
            assert(0 <= k < ids.len());
            assert(fl[0].map_values(|l: usize| seq![l])[k] == seq![fl[0][k]]);
            assert(fl[0][k] == ids[k]);
            assert(ids[k] == k as usize);
            assert(level_product(fl)[k] == seq![ids[k]]);
            let tuple = level_product(fl)[k];
            assert(tuple.drop_first() =~= Seq::<usize>::empty());
            assert(radixes.drop_first() =~= Seq::<usize>::empty());
            assert(mixed_radix(tuple, radixes) == tuple[0] + (radixes[0] as nat) * mixed_radix(
                tuple.drop_first(),
                radixes.drop_first(),
            ));
            assert((radixes[0] as nat) * 0 == 0) by (nonlinear_arith);
        }
    } else {
        let front = radixes.drop_last();
        let last = radixes.last();
        let ids = Seq::new(last as nat, |l: int| l as usize);
        assert(fl.drop_last() =~= full_levels(front));
        assert(fl.last() == ids);
        lemma_full_activation_enumerates_in_order(front);
        let prev = level_product(full_levels(front));
        let n = prev.len() as int;
        assert(n == radix_prod(front));
        assert(level_product(fl) == extend_tuples(prev, ids));
        lemma_extend_tuples_len(prev, ids);
        crate::radices::lemma_radix_prod_push(front, last);
        assert(radixes =~= front.push(last));
        assert(level_product(fl).len() == radix_prod(radixes));
        assert forall|k: int| 0 <= k < radix_prod(radixes) implies mixed_radix(
            #[trigger] level_product(fl)[k],
            radixes,
        ) == k by {
            assert(n >= 1) by (nonlinear_arith)
                requires
                    0 <= k < n * (last as int),
            ;
            let a = k / n;
            let b = k % n;
            assert(k == a * n + b && 0 <= b < n) by (nonlinear_arith)
                requires
                    n >= 1,
                    a == k / n,
                    b == k % n,
                    k >= 0,
            ;
            assert(a < last as int) by (nonlinear_arith)
                requires
                    n >= 1,
                    0 <= k < n * (last as int),
                    a == k / n,
            ;
            lemma_extend_tuples_index(prev, ids, a, b);
            assert(level_product(fl)[k] == prev[b].push(ids[a]));
            assert(ids[a] == a as usize);
            lemma_level_product_membership(full_levels(front), b);
            assert(prev[b].len() == front.len());
            crate::radices::lemma_mixed_radix_push(prev[b], front, a as usize, last);
            assert(mixed_radix(prev[b], front) == b);
            assert(mixed_radix(prev[b].push(a as usize), front.push(last)) == b + (a as nat)
                * radix_prod(front));
            assert((a as nat) * radix_prod(front) == a * n) by (nonlinear_arith)
                requires
                    n == radix_prod(front),
                    a >= 0,
            ;
        }
    }
}

/// With the full activation sets the controlled construction embeds its
/// target at every diagonal block, in order: block `k` sits at offset
/// `k * dimension(target)`.  The result applies the target on every
/// control state — the tensor product of the identity on the control
/// space with the target, a gate with no effective control.
pub proof fn lemma_full_activation_covers_every_block(
    e: UnitaryExpression,
    target_name: Seq<char>,
    target_radices: Seq<usize>,
    control_radices: Seq<usize>,
)
    requires
        control_radices.len() >= 1,
        controlled_expr_layout(
            e,
            target_name,
            target_radices,
            control_radices,
            full_levels(control_radices),
        ),
    ensures
        e.embed_layers().len() == radix_prod(control_radices),
        forall|k: int|
            0 <= k < e.embed_layers().len() ==> {
                let layer = #[trigger] e.embed_layers()[k];
                &&& layer.0.wf()
                &&& layer.0.spec_radices() == target_radices
                &&& layer.1 == k * radix_prod(target_radices)
                &&& layer.2 == k * radix_prod(target_radices)
            },
{
    lemma_full_activation_enumerates_in_order(control_radices);
    let tuples = level_product(full_levels(control_radices));
    assert forall|k: int| 0 <= k < e.embed_layers().len() implies {
        let layer = #[trigger] e.embed_layers()[k];
        &&& layer.0.wf()
        &&& layer.0.spec_radices() == target_radices
        &&& layer.1 == k * radix_prod(target_radices)
        &&& layer.2 == k * radix_prod(target_radices)
    } by {
        assert(mixed_radix(tuples[k], control_radices) == k);
    }
}

/// An arbitrary controlled gate.
///
/// Given any gate, `ControlledGate` adds control qudits of arbitrary
/// radices with arbitrary activation level sets, generalized to qudit
/// and mixed-radix systems.  Its expression is an identity on the
/// composite space with the target gate's expression embedded at one
/// diagonal block per activating combination of control levels; every
/// embedded copy shares the same parameter names, so the controlled gate
/// has exactly the target gate's parameters.
#[derive(Clone, Debug, Hash, PartialEq, Eq)]
pub struct ControlledGate {
    expr: UnitaryExpression,
}

impl ControlledGate {
    /// The expression this value carries.
    pub closed spec fn expr_spec(&self) -> UnitaryExpression {
        self.expr
    }

    /// A controlled gate is well formed when its expression is.
    pub open spec fn wf(&self) -> bool {
        self.expr_spec().wf()
    }

    /// Builds a controlled gate: the target gate `gate`, controlled by
    /// qudits with radices `control_radices`, activated exactly when each
    /// control qudit stands in one of its levels in `control_levels`.
    ///
    /// The specification is validated first — mismatched lengths, an
    /// empty level set, an out-of-range level, a repeated level, or a
    /// composite dimension beyond the machine word each return their own
    /// error and build nothing.  On success the built expression is the
    /// identity on the composite space with one copy of the target's
    /// expression embedded per activating level combination, every copy
    /// sharing the target's parameter names.
    #[verifier::loop_isolation(false)]
    pub fn new<E: UnitaryExpressionGenerator>(
        gate: E,
        control_radices: QuditRadices,
        control_levels: Vec<Vec<usize>>,
    ) -> (r: Result<ControlledGate, ControlError>)
        requires
            gate.gen_wf(),
            control_radices.wf(),
        ensures
            match r {
                Ok(g) => {
                    &&& control_spec_wf(control_radices@, control_levels.deep_view())
                    &&& radix_prod(control_radices@) * radix_prod(gate.gen_radices())
                        <= usize::MAX
                    &&& g.wf()
                    &&& g.expr_spec().spec_radices() == control_radices@ + gate.gen_radices()
                    &&& g.expr_spec().spec_name() == "Controlled("@ + gate.gen_name() + ")"@
                    &&& control_levels.deep_view().len() > 0 ==> g.expr_spec().spec_vars().len()
                        == gate.gen_params()
                    &&& control_levels.deep_view().len() == 0 ==> g.expr_spec().spec_vars().len()
                        == 0
                    &&& controlled_expr_layout(
                        g.expr_spec(),
                        gate.gen_name(),
                        gate.gen_radices(),
                        control_radices@,
                        control_levels.deep_view(),
                    )
                    &&& forall|k: int|
                        0 <= k < g.expr_spec().embed_layers().len() ==> gate.gen_matches(
                            (#[trigger] g.expr_spec().embed_layers()[k]).0,
                        )
                },
                Err(ControlError::LengthMismatch) => !lengths_match(
                    control_radices@,
                    control_levels.deep_view(),
                ),
                Err(ControlError::EmptyLevelSet) => lengths_match(
                    control_radices@,
                    control_levels.deep_view(),
                ) && has_empty_set(control_levels.deep_view()),
                Err(ControlError::LevelOutOfRange) => lengths_match(
                    control_radices@,
                    control_levels.deep_view(),
                ) && !has_empty_set(control_levels.deep_view()) && !levels_in_range(
                    control_radices@,
                    control_levels.deep_view(),
                ),
                Err(ControlError::DuplicateLevel) => lengths_match(
                    control_radices@,
                    control_levels.deep_view(),
                ) && !has_empty_set(control_levels.deep_view()) && levels_in_range(
                    control_radices@,
                    control_levels.deep_view(),
                ) && !sets_distinct(control_levels.deep_view()),
                Err(ControlError::OverflowError) => control_spec_wf(
                    control_radices@,
                    control_levels.deep_view(),
                ) && radix_prod(control_radices@) * radix_prod(gate.gen_radices()) > usize::MAX,
            },
    {
        let ghost cr = control_radices@;
        let ghost cl = control_levels.deep_view();
        proof {
            assert(cl.len() == control_levels@.len());
        }

        if control_radices.len() != control_levels.len() {
            return Err(ControlError::LengthMismatch);
        }

        let mut i: usize = 0;
        while i < control_levels.len()
            invariant
                i <= control_levels@.len(),
                forall|k: int| 0 <= k < i ==> #[trigger] cl[k].len() > 0,
            decreases control_levels@.len() - i,
        {
            proof {
                assert(cl[i as int] == control_levels@[i as int].deep_view());
            }
            if control_levels[i].len() == 0 {
                proof {
                    assert(cl[i as int].len() == 0);
                }
                return Err(ControlError::EmptyLevelSet);
            }
            i = i + 1;
        }
        proof {
            assert(!has_empty_set(cl)) by {
                if has_empty_set(cl) {
                    let w = choose|w: int| 0 <= w < cl.len() && #[trigger] cl[w].len() == 0;
                }
            }
        }

        let mut i: usize = 0;
        while i < control_levels.len()
            invariant
                i <= control_levels@.len(),
                forall|k: int, t: int|
                    0 <= k < i && 0 <= t < cl[k].len() ==> #[trigger] cl[k][t] < cr[k],
            decreases control_levels@.len() - i,
        {
            let level = &control_levels[i];
            let radix = control_radices.get(i);
            proof {
                assert(cl[i as int] == control_levels@[i as int].deep_view());
                assert(cl[i as int] =~= level@);
            }
            let mut j: usize = 0;
            while j < level.len()
                invariant
                    j <= level@.len(),
                    forall|t: int| 0 <= t < j ==> #[trigger] level@[t] < radix,
                decreases level@.len() - j,
            {
                if level[j] >= radix {
                    proof {
                        assert(cl[i as int][j as int] >= cr[i as int]);
                    }
                    return Err(ControlError::LevelOutOfRange);
                }
                j = j + 1;
            }
            i = i + 1;
        }
        proof {
            assert(levels_in_range(cr, cl));
        }

        let mut i: usize = 0;
        while i < control_levels.len()
            invariant
                i <= control_levels@.len(),
                forall|k: int, x: int, y: int|
                    0 <= k < i && 0 <= x < y < cl[k].len() ==> #[trigger] cl[k][x] != #[trigger] cl[k][y],
            decreases control_levels@.len() - i,
        {
            let level = &control_levels[i];
            proof {
                assert(cl[i as int] == control_levels@[i as int].deep_view());
                assert(cl[i as int] =~= level@);
            }
            let mut a: usize = 0;
            while a < level.len()
                invariant
                    a <= level@.len(),
                    forall|x: int, y: int|
                        0 <= x < y < level@.len() && x < a ==> #[trigger] level@[x]
                            != #[trigger] level@[y],
                decreases level@.len() - a,
            {
                let mut b: usize = a + 1;
                while b < level.len()
                    invariant
                        a < b <= level@.len() || (a + 1 == b && b >= level@.len()),
                        a < level@.len(),
                        forall|y: int| a < y < b ==> level@[a as int] != #[trigger] level@[y],
                    decreases level@.len() - b,
                {
                    if level[a] == level[b] {
                        proof {
                            assert(cl[i as int][a as int] == cl[i as int][b as int]);
                            assert(!sets_distinct(cl));
                        }
                        return Err(ControlError::DuplicateLevel);
                    }
                    b = b + 1;
                }
                a = a + 1;
            }
            i = i + 1;
        }
        proof {
            assert(sets_distinct(cl));
            assert(control_spec_wf(cr, cl));
        }

        let target = gate.gen_expr();
        proof {
            crate::expr::lemma_wf_radices_elems(target);
            crate::expr::lemma_wf_vars_distinct(target);
            crate::expr::lemma_wf_dimension_bound(target);
            assert(forall|q: int|
                0 <= q < target.spec_radices().len() ==> #[trigger] target.spec_radices()[q]
                    >= 1);
            crate::radices::lemma_radix_prod_pos(target.spec_radices());
        }
        let d_g = target.dimension();
        let p = match control_radices.try_dimension() {
            Some(p) => p,
            None => {
                proof {
                    assert(radix_prod(cr) * radix_prod(target.spec_radices()) >= radix_prod(cr)
                        * 1) by (nonlinear_arith)
                        requires
                            radix_prod(target.spec_radices()) >= 1,
                    ;
                }
                return Err(ControlError::OverflowError);
            },
        };
        let total = match p.checked_mul(d_g) {
            Some(t) => t,
            None => {
                return Err(ControlError::OverflowError);
            },
        };

        let target_name = target.name();
        let mut name = String::from_str("Controlled(");
        name.append(target_name.as_str());
        name.append(")");
        let target_radices = target.radices();
        let composite = control_radices.concat(&target_radices);
        proof {
            crate::radices::lemma_radix_prod_concat(cr, target.spec_radices());
            assert(radix_prod(composite@) == total);
        }
        let mut expr = UnitaryExpression::identity(name, composite);
        let ghost base0 = expr;

        let tuples = Self::cartesian_product(control_levels);
        proof {
            if cl.len() > 0 {
                lemma_level_product_len(cl);
                lemma_sizes_prod_pos(cl);
            }
        }
        let ghost tv = level_product(cl);
        let mut t: usize = 0;
        while t < tuples.len()
            invariant
                t <= tuples@.len(),
                expr.wf(),
                expr.spec_radices() == cr + target.spec_radices(),
                expr.spec_name() == "Controlled("@ + target.spec_name() + ")"@,
                expr.embed_base() == base0,
                expr.embed_layers().len() == t,
                forall|k: int|
                    0 <= k < t ==> {
                        let layer = #[trigger] expr.embed_layers()[k];
                        &&& layer.0.wf()
                        &&& layer.0.spec_radices() == target.spec_radices()
                        &&& gate.gen_matches(layer.0)
                        &&& layer.1 == mixed_radix(tv[k], cr) * radix_prod(
                            target.spec_radices(),
                        )
                        &&& layer.2 == mixed_radix(tv[k], cr) * radix_prod(
                            target.spec_radices(),
                        )
                    },
                expr.spec_vars() == if t == 0 {
                    Seq::<Seq<char>>::empty()
                } else {
                    target.spec_vars()
                },
            decreases tuples@.len() - t,
        {
            let tuple = &tuples[t];
            proof {
                assert(tuples.deep_view()[t as int] == tuples@[t as int].deep_view());
                assert(tuples@[t as int].deep_view() =~= tuple@);
                assert(tuple@ == tv[t as int]);
                lemma_level_product_membership(cl, t as int);
                assert forall|q: int| 0 <= q < tuple@.len() implies tuple@[q] < cr[q] by {
                    assert(cl[q].contains(tuple@[q]));
                    let w = choose|w: int| 0 <= w < cl[q].len() && cl[q][w] == tuple@[q];
                    assert(cl[q][w] < cr[q]);
                };
                assert(digits_in_range(tuple@, cr));
                crate::radices::lemma_mixed_radix_bound(tuple@, cr);
            }
            let b = control_radices.compress(tuple);
            proof {
                assert(b < p);
                assert(b * d_g + d_g <= total) by (nonlinear_arith)
                    requires
                        b < p,
                        total == p * d_g,
                        d_g >= 0,
                ;
            }
            let offset = b * d_g;
            let block = target.clone();
            proof {
                crate::expr::lemma_sim_observables(block, target);
                crate::expr::lemma_sim_sym(block, target);
                gate.gen_matches_respects_sim(target, block);
            }
            let ghost prev_vars = expr.spec_vars();
            expr = expr.embed(block, offset, offset);
            proof {
                if t == 0 {
                    assert(prev_vars =~= Seq::<Seq<char>>::empty());
                    assert(prev_vars + block.spec_vars() =~= block.spec_vars());
                    crate::expr::lemma_union_vars_disjoint(prev_vars, block.spec_vars());
                    assert(prev_vars + block.spec_vars() == block.spec_vars());
                    assert(expr.spec_vars() == target.spec_vars());
                } else {
                    assert forall|q: int| 0 <= q < block.spec_vars().len() implies
                        prev_vars.contains(#[trigger] block.spec_vars()[q]) by {
                        assert(block.spec_vars()[q] == target.spec_vars()[q]);
                        assert(target.spec_vars().contains(target.spec_vars()[q]));
                    }
                    crate::expr::lemma_union_vars_absorbed(prev_vars, block.spec_vars());
                    assert(expr.spec_vars() == target.spec_vars());
                }
                assert(expr.embed_layers()[t as int] == (block, offset, offset));
                assert forall|k: int| 0 <= k < t + 1 implies {
                    let layer = #[trigger] expr.embed_layers()[k];
                    &&& layer.0.wf()
                    &&& layer.0.spec_radices() == target.spec_radices()
                    &&& gate.gen_matches(layer.0)
                    &&& layer.1 == mixed_radix(tv[k], cr) * radix_prod(target.spec_radices())
                    &&& layer.2 == mixed_radix(tv[k], cr) * radix_prod(target.spec_radices())
                } by {
                    if k < t {
                        assert(expr.embed_layers()[k] == expr.embed_layers().drop_last()[k]);
                    } else {
                        assert(expr.embed_layers()[k] == (block, offset, offset));
                    }
                }
            }
            t = t + 1;
        }

        let g = ControlledGate { expr };
        proof {
            assert(g.expr_spec() == expr);
            assert(controlled_expr_layout(
                g.expr_spec(),
                target.spec_name(),
                target.spec_radices(),
                cr,
                cl,
            ));
            if cl.len() > 0 {
                assert(tuples@.len() >= 1);
            } else {
                assert(tv =~= Seq::<Seq<usize>>::empty());
                assert(tuples@.len() == 0);
            }
        }
        Ok(g)
    }

    /// The number of free parameters: those of the target gate, shared by
    /// every embedded copy.
    pub fn num_params(&self) -> (n: usize)
        requires
            self.wf(),
        ensures
            n == self.expr_spec().spec_vars().len(),
    {
        self.expr.num_params()
    }

    /// The radices of the composite system: control qudits first, then
    /// the target gate's qudits.
    pub fn radices(&self) -> (r: QuditRadices)
        requires
            self.wf(),
        ensures
            r@ == self.expr_spec().spec_radices(),
    {
        self.expr.radices()
    }

    /// The number of qudits of the composite system.
    pub fn num_qudits(&self) -> (n: usize)
        requires
            self.wf(),
        ensures
            n == self.expr_spec().spec_radices().len(),
    {
        self.expr.num_qudits()
    }

    /// The dimension of the composite system: the product of the control
    /// radices times the target gate's dimension.
    pub fn dimension(&self) -> (d: usize)
        requires
            self.wf(),
        ensures
            d == radix_prod(self.expr_spec().spec_radices()),
    {
        self.expr.dimension()
    }

    /// Enumerates the cartesian product of the control levels: one level
    /// per qudit per tuple, the first qudit's level varying fastest.
    ///
    /// Level sets `[[0, 1], [0, 1]]` enumerate to
    /// `[[0, 0], [1, 0], [0, 1], [1, 1]]`.
    pub fn cartesian_product(control_levels: Vec<Vec<usize>>) -> (r: Vec<Vec<usize>>)
        requires
            forall|i: int|
                0 <= i < control_levels.deep_view().len()
                    ==> #[trigger] control_levels.deep_view()[i].len() > 0,
        ensures
            r.deep_view() == level_product(control_levels.deep_view()),
    {
        let ghost cl = control_levels.deep_view();
        let mut prod: Vec<Vec<usize>> = Vec::new();
        proof {
            assert(cl.take(0) =~= Seq::<Seq<usize>>::empty());
            assert(prod.deep_view() =~= Seq::<Seq<usize>>::empty());
        }
        let mut idx: usize = 0;
        while idx < control_levels.len()
            invariant
                idx <= control_levels@.len(),
                cl == control_levels.deep_view(),
                cl.len() == control_levels@.len(),
                forall|i: int| 0 <= i < cl.len() ==> #[trigger] cl[i].len() > 0,
                prod.deep_view() == level_product(cl.take(idx as int)),
                idx >= 1 ==> prod@.len() >= 1,
            decreases control_levels@.len() - idx,
        {
            let level = &control_levels[idx];
            proof {
                assert(cl[idx as int] == control_levels@[idx as int].deep_view());
                assert(level.deep_view() =~= level@);
                assert(cl[idx as int] == level@);
            }
            if prod.len() == 0 {
                proof {
                    assert(idx == 0);
                }
                let mut j: usize = 0;
                proof {
                    assert(level@.take(0) =~= Seq::<usize>::empty());
                    assert(level@.take(0).map_values(|l: usize| seq![l])
                        =~= Seq::<Seq<usize>>::empty());
                }
                while j < level.len()
                    invariant
                        j <= level@.len(),
                        prod.deep_view() =~= level@.take(j as int).map_values(
                            |l: usize| seq![l],
                        ),
                    decreases level@.len() - j,
                {
                    let mut single: Vec<usize> = Vec::new();
                    single.push(level[j]);
                    proof {
                        assert(single.deep_view() =~= seq![level@[j as int]]);
                    }
                    let ghost before = prod.deep_view();
                    prod.push(single);
                    proof {
                        assert forall|k: int| 0 <= k < prod@.len() implies prod.deep_view()[k]
                            == before.push(seq![level@[j as int]])[k] by {
                            assert(prod.deep_view()[k] == prod@[k].deep_view());
                            if k < before.len() {
                                assert(before[k] == prod@[k].deep_view());
                            }
                        }
                        assert(prod.deep_view() =~= before.push(seq![level@[j as int]]));
                        let taken = level@.take(j as int + 1);
                        assert(taken =~= level@.take(j as int).push(level@[j as int]));
                        assert forall|k: int| 0 <= k < taken.len() implies taken.map_values(
                            |l: usize| seq![l],
                        )[k] == prod.deep_view()[k] by {
                            assert(taken.map_values(|l: usize| seq![l])[k] == seq![taken[k]]);
                        }
                        assert(prod.deep_view() =~= taken.map_values(|l: usize| seq![l]));
                    }
                    j = j + 1;
                }
                proof {
                    assert(level@.take(level@.len() as int) =~= level@);
                    let next = cl.take(idx as int + 1);
                    assert(next.len() == 1);
                    assert(next[0] == cl[0]);
                    assert(level_product(next) == next[0].map_values(|l: usize| seq![l]));
                    assert(prod.deep_view() =~= level_product(next));
                }
            } else {
                proof {
                    if idx == 0 {
                        assert(prod.deep_view().len() == 0);
                    }
                    assert(idx >= 1);
                }
                let ghost tuples = prod.deep_view();
                let mut new_prod: Vec<Vec<usize>> = Vec::new();
                let mut a: usize = 0;
                proof {
                    assert(level@.take(0) =~= Seq::<usize>::empty());
                    assert(new_prod.deep_view() =~= extend_tuples(tuples, level@.take(0)));
                }
                while a < level.len()
                    invariant
                        a <= level@.len(),
                        tuples.len() == prod@.len(),
                        tuples == prod.deep_view(),
                        new_prod.deep_view() =~= extend_tuples(tuples, level@.take(a as int)),
                    decreases level@.len() - a,
                {
                    let x = level[a];
                    let ghost batch = push_each(tuples, x);
                    let mut b: usize = 0;
                    proof {
                        assert(batch.take(0) =~= Seq::<Seq<usize>>::empty());
                        assert(new_prod.deep_view() + batch.take(0) =~= new_prod.deep_view());
                    }
                    let ghost outer_before = new_prod.deep_view();
                    while b < prod.len()
                        invariant
                            b <= prod@.len(),
                            x == level@[a as int],
                            a < level@.len(),
                            tuples.len() == prod@.len(),
                            tuples == prod.deep_view(),
                            batch == push_each(tuples, x),
                            outer_before == extend_tuples(tuples, level@.take(a as int)),
                            new_prod.deep_view() =~= outer_before + batch.take(b as int),
                        decreases prod@.len() - b,
                    {
                        let mut extended = clone_usize_vec(&prod[b]);
                        proof {
                            assert(tuples[b as int] == prod@[b as int].deep_view());
                            assert(prod@[b as int].deep_view() =~= prod@[b as int]@);
                            assert(extended@ == tuples[b as int]);
                        }
                        extended.push(x);
                        proof {
                            assert(extended.deep_view() =~= tuples[b as int].push(x));
                            assert(batch[b as int] == tuples[b as int].push(x));
                        }
                        let ghost before = new_prod.deep_view();
                        new_prod.push(extended);
                        proof {
                            assert forall|k: int| 0 <= k < new_prod@.len() implies
                                new_prod.deep_view()[k] == before.push(batch[b as int])[k] by {
                                assert(new_prod.deep_view()[k] == new_prod@[k].deep_view());
                                if k < before.len() {
                                    assert(before[k] == new_prod@[k].deep_view());
                                }
                            }
                            assert(new_prod.deep_view() =~= before.push(batch[b as int]));
                            assert(batch.take(b as int + 1) =~= batch.take(b as int).push(
                                batch[b as int],
                            ));
                            assert(new_prod.deep_view() =~= outer_before + batch.take(
                                b as int + 1,
                            ));
                        }
                        b = b + 1;
                    }
                    proof {
                        assert(batch.take(batch.len() as int) =~= batch);
                        assert(new_prod.deep_view() =~= outer_before + batch);
                        assert(level@.take(a as int + 1) =~= level@.take(a as int).push(
                            level@[a as int],
                        ));
                        lemma_extend_tuples_push(tuples, level@.take(a as int), x);
                        assert(new_prod.deep_view() =~= extend_tuples(
                            tuples,
                            level@.take(a as int + 1),
                        ));
                    }
                    a = a + 1;
                }
                proof {
                    assert(level@.take(level@.len() as int) =~= level@);
                }
                prod = new_prod;
                proof {
                    let next = cl.take(idx as int + 1);
                    assert(next.len() == idx + 1 >= 2);
                    assert(next.drop_last() =~= cl.take(idx as int));
                    assert(next.last() == cl[idx as int]);
                    assert(level_product(next) == extend_tuples(
                        level_product(cl.take(idx as int)),
                        level@,
                    ));
                    assert(prod.deep_view() =~= level_product(next));
                    lemma_level_product_len(next);
                    assert forall|i: int| 0 <= i < next.len() implies #[trigger] next[i].len()
                        > 0 by {
                        assert(next[i] == cl[i]);
                    }
                    lemma_sizes_prod_pos(next);
                    assert(prod@.len() == prod.deep_view().len());
                }
            }
            idx = idx + 1;
        }
        proof {
            assert(cl.take(cl.len() as int) =~= cl);
        }
        prod
    }
}

impl UnitaryExpressionGenerator for ControlledGate {
    open spec fn gen_wf(&self) -> bool {
        self.wf()
    }

    open spec fn gen_name(&self) -> Seq<char> {
        self.expr_spec().spec_name()
    }

    open spec fn gen_radices(&self) -> Seq<usize> {
        self.expr_spec().spec_radices()
    }

    open spec fn gen_params(&self) -> nat {
        self.expr_spec().spec_vars().len()
    }

    open spec fn gen_matches(&self, e: UnitaryExpression) -> bool {
        e.sim(self.expr_spec())
    }

    proof fn gen_matches_respects_sim(&self, a: UnitaryExpression, b: UnitaryExpression) {
        crate::expr::lemma_sim_sym(a, b);
        crate::expr::lemma_sim_trans(b, a, self.expr_spec());
    }

    fn gen_expr(&self) -> (e: UnitaryExpression) {
        let e = self.expr.clone();
        proof {
            crate::expr::lemma_sim_observables(e, self.expr);
        }
        e
    }
}

} // verus!
