//! The identity gate.

use vstd::prelude::*;
use vstd::string::StringExecFns;

use crate::decimal::dec_of;
use crate::decimal::usize_to_string;
use crate::expr::UnitaryExpression;
use crate::expr::UnitaryExpressionGenerator;
use crate::radices::QuditRadices;
use crate::radices::lemma_radix_prod_singleton;

verus! {

/// The identity or no-op gate on one qudit.
#[derive(Hash, PartialEq, Eq, Clone, Debug)]
pub struct IGate {
    pub radix: usize,
}

impl IGate {
    /// Builds the identity gate on a qudit with the given number of levels.
    pub fn new(radix: usize) -> (g: Self)
        requires
            radix >= 2,
        ensures
            g.radix == radix,
            g.gen_wf(),
    {
        Self { radix }
    }
}

/// The cell text at row `i`, column `j` of the identity matrix.
pub open spec fn i_cell(i: nat, j: nat) -> Seq<char> {
    if i == j {
        "1,"@
    } else {
        "0,"@
    }
}

/// The first `j` cells of row `i`.
pub open spec fn i_row(i: nat, j: nat) -> Seq<char>
    decreases j,
{
    if j == 0 {
        Seq::empty()
    } else {
        i_row(i, (j - 1) as nat) + i_cell(i, (j - 1) as nat)
    }
}

/// The first `i` bracketed rows of the identity matrix.
pub open spec fn i_rows(radix: nat, i: nat) -> Seq<char>
    decreases i,
{
    if i == 0 {
        Seq::empty()
    } else {
        i_rows(radix, (i - 1) as nat) + "["@ + i_row((i - 1) as nat, radix) + "],"@
    }
}

/// The whole formula source the identity gate emits.
pub open spec fn i_source(radix: nat) -> Seq<char> {
    "utry I<"@ + dec_of(radix) + ">(){["@ + i_rows(radix, radix) + "]}"@
}

impl UnitaryExpressionGenerator for IGate {
    open spec fn gen_wf(&self) -> bool {
        self.radix >= 2
    }

    open spec fn gen_name(&self) -> Seq<char> {
        "I"@
    }

    open spec fn gen_radices(&self) -> Seq<usize> {
        seq![self.radix]
    }

    open spec fn gen_params(&self) -> nat {
        0
    }

    open spec fn gen_matches(&self, e: UnitaryExpression) -> bool {
        e matches UnitaryExpression::Formula { name, radices, variables, source } && name@
            == "I"@ && radices@ == seq![self.radix] && variables.deep_view()
            == Seq::<Seq<char>>::empty() && source@ == i_source(self.radix as nat)
    }

    proof fn gen_matches_respects_sim(&self, a: UnitaryExpression, b: UnitaryExpression) {
    }

    fn gen_expr(&self) -> (e: UnitaryExpression) {
        let ghost r = self.radix as nat;
        let mut source = String::from_str("utry I<");
        let radix_text = usize_to_string(self.radix);
        source.append(radix_text.as_str());
        source.append(">(){[");
        let ghost header = "utry I<"@ + dec_of(r) + ">(){["@;
        proof {
            assert(source@ =~= header);
        }
        let mut i: usize = 0;
        while i < self.radix
            invariant
                i <= self.radix,
                r == self.radix as nat,
                source@ =~= header + i_rows(r, i as nat),
            decreases self.radix - i,
        {
            source.append("[");
            let mut j: usize = 0;
            while j < self.radix
                invariant
                    j <= self.radix,
                    i < self.radix,
                    r == self.radix as nat,
                    source@ =~= header + i_rows(r, i as nat) + "["@ + i_row(i as nat, j as nat),
                decreases self.radix - j,
            {
                if i == j {
                    source.append("1,");
                } else {
                    source.append("0,");
                }
                proof {
                    assert(i_row(i as nat, j as nat + 1) == i_row(i as nat, j as nat) + i_cell(
                        i as nat,
                        j as nat,
                    ));
                    assert(source@ =~= header + i_rows(r, i as nat) + "["@ + i_row(
                        i as nat,
                        j as nat + 1,
                    ));
                }
                j = j + 1;
            }
            source.append("],");
            proof {
                assert(i_rows(r, i as nat + 1) == i_rows(r, i as nat) + "["@ + i_row(
                    i as nat,
                    r,
                ) + "],"@);
                assert(source@ =~= header + i_rows(r, i as nat + 1));
            }
            i = i + 1;
        }
        source.append("]}");
        proof {
            assert(source@ =~= i_source(r));
        }

        let mut radix_vec: Vec<usize> = Vec::new();
        radix_vec.push(self.radix);
        proof {
            assert(radix_vec@ =~= seq![self.radix]);
            lemma_radix_prod_singleton(self.radix);
        }
        let radices = QuditRadices::new(radix_vec);
        let variables: Vec<String> = Vec::new();
        proof {
            assert(variables.deep_view() =~= Seq::<Seq<char>>::empty());
        }
        UnitaryExpression::formula(String::from_str("I"), radices, variables, source)
    }
}

} // verus!
