//! The swap gate.

use vstd::prelude::*;
use vstd::string::StringExecFns;

use crate::decimal::dec_of;
use crate::decimal::usize_to_string;
use crate::expr::UnitaryExpression;
use crate::expr::UnitaryExpressionGenerator;
use crate::radices::QuditRadices;
use crate::radices::lemma_radix_prod_pair;

verus! {

/// The two-qudit swap gate: it exchanges the states of two qudits of the
/// same radix, `SWAP = sum over a, b of |ab><ba|`.
#[derive(Hash, PartialEq, Eq, Clone, Debug)]
pub struct SwapGate {
    pub radix: usize,
}

impl SwapGate {
    /// Builds the swap gate on a pair of qudits with the given number of
    /// levels each.
    pub fn new(radix: usize) -> (g: Self)
        requires
            radix >= 2,
            radix * radix <= usize::MAX,
        ensures
            g.radix == radix,
            g.gen_wf(),
    {
        Self { radix }
    }
}

/// The cell text at row `i`, column `j` of the swap matrix: one exactly
/// when the column's pair of levels is the row's pair reversed.
pub open spec fn swap_cell(radix: nat, i: nat, j: nat) -> Seq<char> {
    if i / radix == j % radix && i % radix == j / radix {
        "1,"@
    } else {
        "0,"@
    }
}

/// The first `j` cells of row `i`.
pub open spec fn swap_row(radix: nat, i: nat, j: nat) -> Seq<char>
    decreases j,
{
    if j == 0 {
        Seq::empty()
    } else {
        swap_row(radix, i, (j - 1) as nat) + swap_cell(radix, i, (j - 1) as nat)
    }
}

/// The first `i` bracketed rows of the swap matrix, each of `dim` cells.
pub open spec fn swap_rows(radix: nat, dim: nat, i: nat) -> Seq<char>
    decreases i,
{
    if i == 0 {
        Seq::empty()
    } else {
        swap_rows(radix, dim, (i - 1) as nat) + "["@ + swap_row(radix, (i - 1) as nat, dim)
            + "],"@
    }
}

/// The whole formula source the swap gate emits.
pub open spec fn swap_source(radix: nat) -> Seq<char> {
    "utry Swap<"@ + dec_of(radix) + ", "@ + dec_of(radix) + ">(){["@ + swap_rows(
        radix,
        radix * radix,
        radix * radix,
    ) + "]}"@
}

impl UnitaryExpressionGenerator for SwapGate {
    open spec fn gen_wf(&self) -> bool {
        self.radix >= 2 && self.radix * self.radix <= usize::MAX
    }

    open spec fn gen_name(&self) -> Seq<char> {
        "Swap"@
    }

    open spec fn gen_radices(&self) -> Seq<usize> {
        seq![self.radix, self.radix]
    }

    open spec fn gen_params(&self) -> nat {
        0
    }

    open spec fn gen_matches(&self, e: UnitaryExpression) -> bool {
        e matches UnitaryExpression::Formula { name, radices, variables, source } && name@
            == "Swap"@ && radices@ == seq![self.radix, self.radix] && variables.deep_view()
            == Seq::<Seq<char>>::empty() && source@ == swap_source(self.radix as nat)
    }

    proof fn gen_matches_respects_sim(&self, a: UnitaryExpression, b: UnitaryExpression) {
    }

    fn gen_expr(&self) -> (e: UnitaryExpression) {
        let ghost r = self.radix as nat;
        let mut source = String::from_str("utry Swap<");
        let radix_text = usize_to_string(self.radix);
        source.append(radix_text.as_str());
        source.append(", ");
        source.append(radix_text.as_str());
        source.append(">(){[");
        let ghost header = "utry Swap<"@ + dec_of(r) + ", "@ + dec_of(r) + ">(){["@;
        proof {
            assert(source@ =~= header);
        }
        let dim = self.radix * self.radix;
        let ghost d = dim as nat;
        proof {
            assert(d == r * r);
        }
        let mut i: usize = 0;
        while i < dim
            invariant
                i <= dim,
                r == self.radix as nat,
                d == dim as nat,
                d == r * r,
                self.radix >= 2,
                source@ =~= header + swap_rows(r, d, i as nat),
            decreases dim - i,
        {
            source.append("[");
            let a_i = i / self.radix;
            let b_i = i % self.radix;
            let mut j: usize = 0;
            while j < dim
                invariant
                    j <= dim,
                    i < dim,
                    r == self.radix as nat,
                    d == dim as nat,
                    d == r * r,
                    self.radix >= 2,
                    a_i == i / self.radix,
                    b_i == i % self.radix,
                    source@ =~= header + swap_rows(r, d, i as nat) + "["@ + swap_row(
                        r,
                        i as nat,
                        j as nat,
                    ),
                decreases dim - j,
            {
                let a_j = j / self.radix;
                let b_j = j % self.radix;
                if a_i == b_j && b_i == a_j {
                    source.append("1,");
                } else {
                    source.append("0,");
                }
                proof {
                    assert(swap_row(r, i as nat, j as nat + 1) == swap_row(r, i as nat, j as nat)
                        + swap_cell(r, i as nat, j as nat));
                    assert(source@ =~= header + swap_rows(r, d, i as nat) + "["@ + swap_row(
                        r,
                        i as nat,
                        j as nat + 1,
                    ));
                }
                j = j + 1;
            }
            source.append("],");
            proof {
                assert(swap_rows(r, d, i as nat + 1) == swap_rows(r, d, i as nat) + "["@
                    + swap_row(r, i as nat, d) + "],"@);
                assert(source@ =~= header + swap_rows(r, d, i as nat + 1));
            }
            i = i + 1;
        }
        source.append("]}");
        proof {
            assert(source@ =~= swap_source(r));
        }

        let mut radix_vec: Vec<usize> = Vec::new();
        radix_vec.push(self.radix);
        radix_vec.push(self.radix);
        proof {
            assert(radix_vec@ =~= seq![self.radix, self.radix]);
            lemma_radix_prod_pair(self.radix, self.radix);
        }
        let radices = QuditRadices::new(radix_vec);
        let variables: Vec<String> = Vec::new();
        proof {
            assert(variables.deep_view() =~= Seq::<Seq<char>>::empty());
        }
        UnitaryExpression::formula(String::from_str("Swap"), radices, variables, source)
    }
}

} // verus!
