//! Symbolic unitary expressions.
//!
//! An expression describes a parameterized unitary matrix without ever
//! evaluating it: either a closed-form formula over named parameters, an
//! identity matrix, or an operation (diagonal block embedding, elementwise
//! conjugation, transposition) applied to other expressions.  A separate
//! expression engine turns the finished description into numbers; this
//! crate only builds the description and tracks its observable data: name,
//! radices, and the list of free parameter names.
//!
//! The parameter list follows the engine's convention: an embedding merges
//! the parameter names of the two expressions, keeping one copy of each
//! name, so embedding the same block several times never duplicates its
//! parameters.

use vstd::prelude::*;

use crate::radices::QuditRadices;
use crate::radices::radix_prod;

verus! {

/// No variable name occurs twice.
pub open spec fn distinct_vars(vars: Seq<Seq<char>>) -> bool {
    forall|i: int, j: int| 0 <= i < j < vars.len() ==> vars[i] != vars[j]
}

/// The engine's variable merge: walk `extra` in order and append each name
/// not already present in the accumulated list.
pub open spec fn union_vars(acc: Seq<Seq<char>>, extra: Seq<Seq<char>>) -> Seq<Seq<char>>
    decreases extra.len(),
{
    if extra.len() == 0 {
        acc
    } else {
        let next = if acc.contains(extra[0]) {
            acc
        } else {
            acc.push(extra[0])
        };
        union_vars(next, extra.drop_first())
    }
}

/// Merging names that are all present already changes nothing.
pub proof fn lemma_union_vars_absorbed(acc: Seq<Seq<char>>, extra: Seq<Seq<char>>)
    requires
        forall|i: int| 0 <= i < extra.len() ==> acc.contains(#[trigger] extra[i]),
    ensures
        union_vars(acc, extra) == acc,
    decreases extra.len(),
{
    if extra.len() > 0 {
        assert(acc.contains(extra[0]));
        assert(forall|i: int|
            0 <= i < extra.drop_first().len() ==> #[trigger] extra.drop_first()[i] == extra[i + 1]);
        lemma_union_vars_absorbed(acc, extra.drop_first());
    }
}

/// Merging a duplicate-free list into a list disjoint from it appends it
/// whole.
pub proof fn lemma_union_vars_disjoint(acc: Seq<Seq<char>>, extra: Seq<Seq<char>>)
    requires
        distinct_vars(acc + extra),
    ensures
        union_vars(acc, extra) == acc + extra,
    decreases extra.len(),
{
    if extra.len() == 0 {
        assert(acc + extra =~= acc);
    } else {
        let e0 = extra[0];
        assert((acc + extra)[acc.len() as int] == e0);
        assert(!acc.contains(e0)) by {
            if acc.contains(e0) {
                let i = choose|i: int| 0 <= i < acc.len() && acc[i] == e0;
                assert((acc + extra)[i] == e0);
            }
        }
        let next = acc.push(e0);
        assert(next + extra.drop_first() =~= acc + extra);
        lemma_union_vars_disjoint(next, extra.drop_first());
    }
}

/// A symbolic expression for a parameterized unitary matrix.
///
/// `Formula` is a closed-form matrix given as source text for the
/// expression engine, together with the data the engine would report for
/// it: its name, its radices and its parameter names.  The other variants
/// record one engine operation each, applied to finished expressions.
#[derive(Debug, Hash, PartialEq, Eq)]
pub enum UnitaryExpression {
    Formula { name: String, radices: QuditRadices, variables: Vec<String>, source: String },
    Identity { name: String, radices: QuditRadices },
    Embed {
        base: Box<UnitaryExpression>,
        block: Box<UnitaryExpression>,
        row: usize,
        col: usize,
    },
    Conjugate { inner: Box<UnitaryExpression> },
    Transpose { inner: Box<UnitaryExpression> },
}

impl UnitaryExpression {
    /// The radices of the qudit system the expression acts on.  Embedding
    /// happens inside a larger expression and keeps its radices;
    /// conjugation and transposition act entrywise on a square matrix.
    pub open spec fn spec_radices(self) -> Seq<usize>
        decreases self,
    {
        match self {
            UnitaryExpression::Formula { radices, .. } => radices@,
            UnitaryExpression::Identity { radices, .. } => radices@,
            UnitaryExpression::Embed { base, .. } => base.spec_radices(),
            UnitaryExpression::Conjugate { inner } => inner.spec_radices(),
            UnitaryExpression::Transpose { inner } => inner.spec_radices(),
        }
    }

    /// The expression's name, unchanged by every operation.
    pub open spec fn spec_name(self) -> Seq<char>
        decreases self,
    {
        match self {
            UnitaryExpression::Formula { name, .. } => name@,
            UnitaryExpression::Identity { name, .. } => name@,
            UnitaryExpression::Embed { base, .. } => base.spec_name(),
            UnitaryExpression::Conjugate { inner } => inner.spec_name(),
            UnitaryExpression::Transpose { inner } => inner.spec_name(),
        }
    }

    /// The ordered list of free parameter names.  An identity has none;
    /// an embedding merges the two lists, keeping one copy of each name.
    pub open spec fn spec_vars(self) -> Seq<Seq<char>>
        decreases self,
    {
        match self {
            UnitaryExpression::Formula { variables, .. } => variables.deep_view(),
            UnitaryExpression::Identity { .. } => Seq::empty(),
            UnitaryExpression::Embed { base, block, .. } => union_vars(
                base.spec_vars(),
                block.spec_vars(),
            ),
            UnitaryExpression::Conjugate { inner } => inner.spec_vars(),
            UnitaryExpression::Transpose { inner } => inner.spec_vars(),
        }
    }

    /// Well-formedness: radices describe real qudits and a dimension that
    /// fits the machine word, parameter names are duplicate-free, and
    /// every embedded block lies inside its base expression.
    pub open spec fn wf(self) -> bool
        decreases self,
    {
        match self {
            UnitaryExpression::Formula { radices, variables, .. } => {
                &&& radices.wf()
                &&& radix_prod(radices@) <= usize::MAX
                &&& distinct_vars(variables.deep_view())
            },
            UnitaryExpression::Identity { radices, .. } => {
                &&& radices.wf()
                &&& radix_prod(radices@) <= usize::MAX
            },
            UnitaryExpression::Embed { base, block, row, col } => {
                &&& base.wf()
                &&& block.wf()
                &&& row + radix_prod(block.spec_radices()) <= radix_prod(base.spec_radices())
                &&& col + radix_prod(block.spec_radices()) <= radix_prod(base.spec_radices())
            },
            UnitaryExpression::Conjugate { inner } => inner.wf(),
            UnitaryExpression::Transpose { inner } => inner.wf(),
        }
    }

    /// The expression every embedding started from: the expression below
    /// the chain of embeddings, if any.
    pub open spec fn embed_base(self) -> UnitaryExpression
        decreases self,
    {
        match self {
            UnitaryExpression::Embed { base, .. } => base.embed_base(),
            _ => self,
        }
    }

    /// The chain of embeddings applied to the base expression, innermost
    /// first: for each, the embedded block and its row and column offsets.
    pub open spec fn embed_layers(self) -> Seq<(UnitaryExpression, usize, usize)>
        decreases self,
    {
        match self {
            UnitaryExpression::Embed { base, block, row, col } => base.embed_layers().push(
                (*block, row, col),
            ),
            _ => Seq::empty(),
        }
    }

    /// Structural equality of two expressions, comparing all text and all
    /// numbers by value.
    pub open spec fn sim(self, other: Self) -> bool
        decreases self,
    {
        match (self, other) {
            (
                UnitaryExpression::Formula { name, radices, variables, source },
                UnitaryExpression::Formula {
                    name: name2,
                    radices: radices2,
                    variables: variables2,
                    source: source2,
                },
            ) => {
                &&& name@ == name2@
                &&& radices@ == radices2@
                &&& variables.deep_view() == variables2.deep_view()
                &&& source@ == source2@
            },
            (
                UnitaryExpression::Identity { name, radices },
                UnitaryExpression::Identity { name: name2, radices: radices2 },
            ) => {
                &&& name@ == name2@
                &&& radices@ == radices2@
            },
            (
                UnitaryExpression::Embed { base, block, row, col },
                UnitaryExpression::Embed { base: base2, block: block2, row: row2, col: col2 },
            ) => {
                &&& base.sim(*base2)
                &&& block.sim(*block2)
                &&& row == row2
                &&& col == col2
            },
            (
                UnitaryExpression::Conjugate { inner },
                UnitaryExpression::Conjugate { inner: inner2 },
            ) => inner.sim(*inner2),
            (
                UnitaryExpression::Transpose { inner },
                UnitaryExpression::Transpose { inner: inner2 },
            ) => inner.sim(*inner2),
            _ => false,
        }
    }
}

/// Merging never introduces a duplicate name.
pub proof fn lemma_union_vars_distinct(acc: Seq<Seq<char>>, extra: Seq<Seq<char>>)
    requires
        distinct_vars(acc),
    ensures
        distinct_vars(union_vars(acc, extra)),
    decreases extra.len(),
{
    if extra.len() > 0 {
        let e0 = extra[0];
        if acc.contains(e0) {
            lemma_union_vars_distinct(acc, extra.drop_first());
        } else {
            let next = acc.push(e0);
            assert forall|i: int, j: int| 0 <= i < j < next.len() implies next[i] != next[j] by {
                if j < acc.len() {
                } else {
                    if next[i] == e0 {
                        assert(acc.contains(acc[i]));
                    }
                }
            }
            lemma_union_vars_distinct(next, extra.drop_first());
        }
    }
}

/// A well-formed expression never lists a parameter name twice.
pub proof fn lemma_wf_vars_distinct(e: UnitaryExpression)
    requires
        e.wf(),
    ensures
        distinct_vars(e.spec_vars()),
    decreases e,
{
    match e {
        UnitaryExpression::Formula { .. } => {},
        UnitaryExpression::Identity { .. } => {},
        UnitaryExpression::Embed { base, block, .. } => {
            lemma_wf_vars_distinct(*base);
            lemma_union_vars_distinct(base.spec_vars(), block.spec_vars());
        },
        UnitaryExpression::Conjugate { inner } => {
            lemma_wf_vars_distinct(*inner);
        },
        UnitaryExpression::Transpose { inner } => {
            lemma_wf_vars_distinct(*inner);
        },
    }
}

/// A well-formed expression acts on real qudits: every radix is at least
/// two.
pub proof fn lemma_wf_radices_elems(e: UnitaryExpression)
    requires
        e.wf(),
    ensures
        forall|i: int| 0 <= i < e.spec_radices().len() ==> #[trigger] e.spec_radices()[i] >= 2,
    decreases e,
{
    match e {
        UnitaryExpression::Formula { radices, .. } => {
            assert(e.spec_radices() == radices@);
            assert forall|i: int| 0 <= i < e.spec_radices().len() implies #[trigger] e
                .spec_radices()[i] >= 2 by {
                assert(radices@[i] >= 2);
            }
        },
        UnitaryExpression::Identity { radices, .. } => {
            assert(e.spec_radices() == radices@);
            assert forall|i: int| 0 <= i < e.spec_radices().len() implies #[trigger] e
                .spec_radices()[i] >= 2 by {
                assert(radices@[i] >= 2);
            }
        },
        UnitaryExpression::Embed { base, .. } => {
            lemma_wf_radices_elems(*base);
            assert forall|i: int| 0 <= i < e.spec_radices().len() implies #[trigger] e
                .spec_radices()[i] >= 2 by {
                assert(base.spec_radices()[i] >= 2);
            }
        },
        UnitaryExpression::Conjugate { inner } => {
            lemma_wf_radices_elems(*inner);
            assert forall|i: int| 0 <= i < e.spec_radices().len() implies #[trigger] e
                .spec_radices()[i] >= 2 by {
                assert(inner.spec_radices()[i] >= 2);
            }
        },
        UnitaryExpression::Transpose { inner } => {
            lemma_wf_radices_elems(*inner);
            assert forall|i: int| 0 <= i < e.spec_radices().len() implies #[trigger] e
                .spec_radices()[i] >= 2 by {
                assert(inner.spec_radices()[i] >= 2);
            }
        },
    }
}

/// A well-formed expression has a dimension that fits the machine word.
pub proof fn lemma_wf_dimension_bound(e: UnitaryExpression)
    requires
        e.wf(),
    ensures
        radix_prod(e.spec_radices()) <= usize::MAX,
    decreases e,
{
    match e {
        UnitaryExpression::Formula { .. } => {},
        UnitaryExpression::Identity { .. } => {},
        UnitaryExpression::Embed { base, .. } => {
            lemma_wf_dimension_bound(*base);
        },
        UnitaryExpression::Conjugate { inner } => {
            lemma_wf_dimension_bound(*inner);
        },
        UnitaryExpression::Transpose { inner } => {
            lemma_wf_dimension_bound(*inner);
        },
    }
}

/// Structurally equal expressions agree on every observable and on
/// well-formedness.
pub proof fn lemma_sim_observables(a: UnitaryExpression, b: UnitaryExpression)
    requires
        a.sim(b),
    ensures
        a.spec_radices() == b.spec_radices(),
        a.spec_name() == b.spec_name(),
        a.spec_vars() == b.spec_vars(),
        a.wf() == b.wf(),
    decreases a,
{
    match (a, b) {
        (
            UnitaryExpression::Embed { base, block, .. },
            UnitaryExpression::Embed { base: base2, block: block2, .. },
        ) => {
            lemma_sim_observables(*base, *base2);
            lemma_sim_observables(*block, *block2);
        },
        (
            UnitaryExpression::Conjugate { inner },
            UnitaryExpression::Conjugate { inner: inner2 },
        ) => {
            lemma_sim_observables(*inner, *inner2);
        },
        (
            UnitaryExpression::Transpose { inner },
            UnitaryExpression::Transpose { inner: inner2 },
        ) => {
            lemma_sim_observables(*inner, *inner2);
        },
        _ => {},
    }
}

impl UnitaryExpression {
    /// Builds a closed-form formula expression from its source text and
    /// the data the engine would report for it.
    pub fn formula(name: String, radices: QuditRadices, variables: Vec<String>, source: String)
        -> (e: Self)
        requires
            radices.wf(),
            radix_prod(radices@) <= usize::MAX,
            distinct_vars(variables.deep_view()),
        ensures
            e == (UnitaryExpression::Formula { name, radices, variables, source }),
            e.wf(),
            e.spec_name() == name@,
            e.spec_radices() == radices@,
            e.spec_vars() == variables.deep_view(),
    {
        UnitaryExpression::Formula { name, radices, variables, source }
    }

    /// Builds the identity expression on the given qudit system.
    pub fn identity(name: String, radices: QuditRadices) -> (e: Self)
        requires
            radices.wf(),
            radix_prod(radices@) <= usize::MAX,
        ensures
            e == (UnitaryExpression::Identity { name, radices }),
            e.wf(),
            e.spec_name() == name@,
            e.spec_radices() == radices@,
            e.spec_vars() == Seq::<Seq<char>>::empty(),
            e.embed_base() == e,
            e.embed_layers() == Seq::<(UnitaryExpression, usize, usize)>::empty(),
    {
        UnitaryExpression::Identity { name, radices }
    }

    /// Overwrites the square block of this expression whose top-left
    /// corner is at (`row`, `col`) with `block`.  The caller keeps the
    /// block inside the matrix; the engine rejects anything else.
    pub fn embed(self, block: UnitaryExpression, row: usize, col: usize) -> (e: Self)
        requires
            self.wf(),
            block.wf(),
            row + radix_prod(block.spec_radices()) <= radix_prod(self.spec_radices()),
            col + radix_prod(block.spec_radices()) <= radix_prod(self.spec_radices()),
        ensures
            e.wf(),
            e.spec_radices() == self.spec_radices(),
            e.spec_name() == self.spec_name(),
            e.spec_vars() == union_vars(self.spec_vars(), block.spec_vars()),
            e.embed_base() == self.embed_base(),
            e.embed_layers() == self.embed_layers().push((block, row, col)),
            e matches UnitaryExpression::Embed { base, block: b, row: r, col: c }
                && *base == self && *b == block && r == row && c == col,
    {
        UnitaryExpression::Embed { base: Box::new(self), block: Box::new(block), row, col }
    }

    /// Conjugates every entry of the expression.
    pub fn conjugate(self) -> (e: Self)
        requires
            self.wf(),
        ensures
            e.wf(),
            e.spec_radices() == self.spec_radices(),
            e.spec_name() == self.spec_name(),
            e.spec_vars() == self.spec_vars(),
            e matches UnitaryExpression::Conjugate { inner } && *inner == self,
    {
        UnitaryExpression::Conjugate { inner: Box::new(self) }
    }

    /// Transposes the expression, exchanging row and column roles.
    pub fn transpose(self) -> (e: Self)
        requires
            self.wf(),
        ensures
            e.wf(),
            e.spec_radices() == self.spec_radices(),
            e.spec_name() == self.spec_name(),
            e.spec_vars() == self.spec_vars(),
            e matches UnitaryExpression::Transpose { inner } && *inner == self,
    {
        UnitaryExpression::Transpose { inner: Box::new(self) }
    }

    /// The radices of the qudit system the expression acts on.
    pub fn radices(&self) -> (r: QuditRadices)
        requires
            self.wf(),
        ensures
            r@ == self.spec_radices(),
            r.wf(),
        decreases *self,
    {
        match self {
            UnitaryExpression::Formula { radices, .. } => radices.clone(),
            UnitaryExpression::Identity { radices, .. } => radices.clone(),
            UnitaryExpression::Embed { base, .. } => base.radices(),
            UnitaryExpression::Conjugate { inner } => inner.radices(),
            UnitaryExpression::Transpose { inner } => inner.radices(),
        }
    }

    /// The number of qudits the expression acts on.
    pub fn num_qudits(&self) -> (n: usize)
        requires
            self.wf(),
        ensures
            n == self.spec_radices().len(),
    {
        let r = self.radices();
        r.len()
    }

    /// The dimension of the matrix the expression describes.
    pub fn dimension(&self) -> (d: usize)
        requires
            self.wf(),
        ensures
            d == radix_prod(self.spec_radices()),
    {
        let r = self.radices();
        proof {
            lemma_wf_dimension_bound(*self);
        }
        r.dimension()
    }

    /// The expression's name.
    pub fn name(&self) -> (n: String)
        requires
            self.wf(),
        ensures
            n@ == self.spec_name(),
        decreases *self,
    {
        match self {
            UnitaryExpression::Formula { name, .. } => name.clone(),
            UnitaryExpression::Identity { name, .. } => name.clone(),
            UnitaryExpression::Embed { base, .. } => base.name(),
            UnitaryExpression::Conjugate { inner } => inner.name(),
            UnitaryExpression::Transpose { inner } => inner.name(),
        }
    }

    /// The ordered list of free parameter names.
    pub fn variables(&self) -> (v: Vec<String>)
        requires
            self.wf(),
        ensures
            v.deep_view() == self.spec_vars(),
        decreases *self,
    {
        match self {
            UnitaryExpression::Formula { variables, .. } => clone_string_vec(variables),
            UnitaryExpression::Identity { .. } => {
                let v: Vec<String> = Vec::new();
                assert(v.deep_view() =~= Seq::<Seq<char>>::empty());
                v
            },
            UnitaryExpression::Embed { base, block, .. } => {
                let acc = base.variables();
                let extra = block.variables();
                merge_vars(acc, &extra)
            },
            UnitaryExpression::Conjugate { inner } => inner.variables(),
            UnitaryExpression::Transpose { inner } => inner.variables(),
        }
    }

    /// The number of free parameters of the expression.
    pub fn num_params(&self) -> (n: usize)
        requires
            self.wf(),
        ensures
            n == self.spec_vars().len(),
    {
        let v = self.variables();
        v.len()
    }
}

/// Copies a list of parameter names.
fn clone_string_vec(v: &Vec<String>) -> (r: Vec<String>)
    ensures
        r.deep_view() == v.deep_view(),
{
    let mut r: Vec<String> = Vec::new();
    let mut i: usize = 0;
    while i < v.len()
        invariant
            i <= v.len(),
            r.deep_view() =~= v.deep_view().subrange(0, i as int),
        decreases v.len() - i,
    {
        let c = v[i].clone();
        proof {
            assert(v.deep_view()[i as int] == v@[i as int]@);
            assert(c@ == v.deep_view()[i as int]);
        }
        let ghost before = r.deep_view();
        r.push(c);
        proof {
            assert forall|k: int| 0 <= k < r@.len() implies r.deep_view()[k] == before.push(c@)[k]
            by {
                assert(r.deep_view()[k] == r@[k]@);
                if k < before.len() {
                    assert(before[k] == r@[k]@);
                }
            }
            assert(r.deep_view() =~= before.push(c@));
            assert(r.deep_view() =~= v.deep_view().subrange(0, i as int + 1));
        }
        i = i + 1;
    }
    assert(r.deep_view() =~= v.deep_view());
    r
}

/// True exactly when some name in the list reads the same as `s`.
fn vars_contain(v: &Vec<String>, s: &String) -> (b: bool)
    ensures
        b == v.deep_view().contains(s@),
{
    let mut i: usize = 0;
    while i < v.len()
        invariant
            i <= v.len(),
            forall|k: int| 0 <= k < i ==> v.deep_view()[k] != s@,
        decreases v.len() - i,
    {
        proof {
            assert(v.deep_view()[i as int] == v@[i as int]@);
        }
        if v[i] == *s {
            assert(v.deep_view()[i as int] == s@);
            return true;
        }
        i = i + 1;
    }
    assert(!v.deep_view().contains(s@)) by {
        if v.deep_view().contains(s@) {
            let k = choose|k: int| 0 <= k < v.deep_view().len() && v.deep_view()[k] == s@;
        }
    }
    false
}

/// The engine's variable merge: appends to `acc` each name of `extra` not
/// already present.
fn merge_vars(acc: Vec<String>, extra: &Vec<String>) -> (r: Vec<String>)
    ensures
        r.deep_view() == union_vars(acc.deep_view(), extra.deep_view()),
{
    let ghost acc0 = acc.deep_view();
    let ghost extra_v = extra.deep_view();
    let mut acc = acc;
    proof {
        assert(extra_v.skip(0) =~= extra_v);
    }
    let mut j: usize = 0;
    while j < extra.len()
        invariant
            j <= extra.len(),
            extra_v == extra.deep_view(),
            union_vars(acc.deep_view(), extra_v.skip(j as int)) == union_vars(acc0, extra_v),
        decreases extra.len() - j,
    {
        let ghost before = acc.deep_view();
        proof {
            assert(extra_v.skip(j as int).len() > 0);
            assert(extra_v.skip(j as int)[0] == extra_v[j as int]);
            assert(extra_v.skip(j as int).drop_first() =~= extra_v.skip(j as int + 1));
            assert(extra.deep_view()[j as int] == extra@[j as int]@);
        }
        if !vars_contain(&acc, &extra[j]) {
            let c = extra[j].clone();
            proof {
                assert(c@ == extra_v[j as int]);
            }
            acc.push(c);
            proof {
                assert forall|k: int| 0 <= k < acc@.len() implies acc.deep_view()[k]
                    == before.push(c@)[k] by {
                    assert(acc.deep_view()[k] == acc@[k]@);
                    if k < before.len() {
                        assert(before[k] == acc@[k]@);
                    }
                }
                assert(acc.deep_view() =~= before.push(extra_v[j as int]));
            }
        }
        j = j + 1;
    }
    proof {
        assert(extra_v.skip(j as int) =~= Seq::<Seq<char>>::empty());
    }
    acc
}

impl Clone for UnitaryExpression {
    /// Copies the expression; the copy is structurally equal to the
    /// original.
    fn clone(&self) -> (r: Self)
        ensures
            r.sim(*self),
        decreases self,
    {
        match self {
            UnitaryExpression::Formula { name, radices, variables, source } => {
                UnitaryExpression::Formula {
                    name: name.clone(),
                    radices: radices.clone(),
                    variables: clone_string_vec(variables),
                    source: source.clone(),
                }
            },
            UnitaryExpression::Identity { name, radices } => {
                UnitaryExpression::Identity { name: name.clone(), radices: radices.clone() }
            },
            UnitaryExpression::Embed { base, block, row, col } => {
                UnitaryExpression::Embed {
                    base: Box::new((**base).clone()),
                    block: Box::new((**block).clone()),
                    row: *row,
                    col: *col,
                }
            },
            UnitaryExpression::Conjugate { inner } => {
                UnitaryExpression::Conjugate { inner: Box::new((**inner).clone()) }
            },
            UnitaryExpression::Transpose { inner } => {
                UnitaryExpression::Transpose { inner: Box::new((**inner).clone()) }
            },
        }
    }
}

/// Structural equality is symmetric.
pub proof fn lemma_sim_sym(a: UnitaryExpression, b: UnitaryExpression)
    requires
        a.sim(b),
    ensures
        b.sim(a),
    decreases a,
{
    match (a, b) {
        (
            UnitaryExpression::Embed { base, block, .. },
            UnitaryExpression::Embed { base: base2, block: block2, .. },
        ) => {
            lemma_sim_sym(*base, *base2);
            lemma_sim_sym(*block, *block2);
        },
        (
            UnitaryExpression::Conjugate { inner },
            UnitaryExpression::Conjugate { inner: inner2 },
        ) => {
            lemma_sim_sym(*inner, *inner2);
        },
        (
            UnitaryExpression::Transpose { inner },
            UnitaryExpression::Transpose { inner: inner2 },
        ) => {
            lemma_sim_sym(*inner, *inner2);
        },
        _ => {},
    }
}

/// Structural equality is transitive.
pub proof fn lemma_sim_trans(a: UnitaryExpression, b: UnitaryExpression, c: UnitaryExpression)
    requires
        a.sim(b),
        b.sim(c),
    ensures
        a.sim(c),
    decreases a,
{
    match (a, b, c) {
        (
            UnitaryExpression::Embed { base, block, .. },
            UnitaryExpression::Embed { base: base2, block: block2, .. },
            UnitaryExpression::Embed { base: base3, block: block3, .. },
        ) => {
            lemma_sim_trans(*base, *base2, *base3);
            lemma_sim_trans(*block, *block2, *block3);
        },
        (
            UnitaryExpression::Conjugate { inner },
            UnitaryExpression::Conjugate { inner: inner2 },
            UnitaryExpression::Conjugate { inner: inner3 },
        ) => {
            lemma_sim_trans(*inner, *inner2, *inner3);
        },
        (
            UnitaryExpression::Transpose { inner },
            UnitaryExpression::Transpose { inner: inner2 },
            UnitaryExpression::Transpose { inner: inner3 },
        ) => {
            lemma_sim_trans(*inner, *inner2, *inner3);
        },
        _ => {},
    }
}

/// Something that can describe itself as a unitary expression.
///
/// Every gate kind of this crate implements it.  The specification
/// functions fix what the generated expression reports — name, radices
/// and parameter count — and `gen_matches` pins the generated expression
/// itself, up to structural equality, so that users of a generic gate
/// know exactly which expression they received.
pub trait UnitaryExpressionGenerator: Sized {
    /// When the implementer describes a valid gate.
    spec fn gen_wf(&self) -> bool;

    /// Name of the generated expression.
    spec fn gen_name(&self) -> Seq<char>;

    /// Radices of the generated expression.
    spec fn gen_radices(&self) -> Seq<usize>;

    /// Number of free parameters of the generated expression.
    spec fn gen_params(&self) -> nat;

    /// Exactly the expressions this implementer generates.  Each
    /// implementation pins the expression up to structural equality:
    /// two expressions accepted by the same implementer are structurally
    /// equal.
    spec fn gen_matches(&self, e: UnitaryExpression) -> bool;

    /// `gen_matches` respects structural equality: it looks only at the
    /// text and numbers of the expression, never at its identity.
    proof fn gen_matches_respects_sim(&self, a: UnitaryExpression, b: UnitaryExpression)
        requires
            self.gen_matches(a),
            a.sim(b),
        ensures
            self.gen_matches(b),
    ;

    /// Generates the symbolic unitary expression of this gate.
    fn gen_expr(&self) -> (e: UnitaryExpression)
        requires
            self.gen_wf(),
        ensures
            e.wf(),
            e.spec_name() == self.gen_name(),
            e.spec_radices() == self.gen_radices(),
            e.spec_vars().len() == self.gen_params(),
            self.gen_matches(e),
    ;
}

} // verus!
