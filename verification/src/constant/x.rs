//! The shift gate.

use vstd::prelude::*;
use vstd::string::StringExecFns;

use crate::decimal::dec_of;
use crate::decimal::usize_to_string;
use crate::expr::UnitaryExpression;
use crate::expr::UnitaryExpressionGenerator;
use crate::radices::QuditRadices;
use crate::radices::lemma_radix_prod_singleton;

verus! {

/// The one-qudit shift (X) gate.
///
/// This gate shifts the state of a qudit up by one level, modulo the
/// radix: `X = sum over a of |a + 1 mod d><a|`.  On a qubit this is the
/// Pauli-X gate; on a qutrit it cycles the three levels.
#[derive(Hash, PartialEq, Eq, Clone, Debug)]
pub struct XGate {
    pub radix: usize,
}

impl XGate {
    /// Builds the shift gate on a qudit with the given number of levels.
    pub fn new(radix: usize) -> (g: Self)
        requires
            radix >= 2,
        ensures
            g.radix == radix,
            g.gen_wf(),
    {
        Self { radix }
    }
}

/// The cell text at row `i`, column `j` of the shift matrix: one exactly
/// when the column's level shifts onto the row's level.
pub open spec fn x_cell(radix: nat, i: nat, j: nat) -> Seq<char> {
    if (j + 1) % radix == i {
        "1, "@
    } else {
        "0, "@
    }
}

/// The first `j` cells of row `i`.
pub open spec fn x_row(radix: nat, i: nat, j: nat) -> Seq<char>
    decreases j,
{
    if j == 0 {
        Seq::empty()
    } else {
        x_row(radix, i, (j - 1) as nat) + x_cell(radix, i, (j - 1) as nat)
    }
}

/// The first `i` bracketed rows of the shift matrix.
pub open spec fn x_rows(radix: nat, i: nat) -> Seq<char>
    decreases i,
{
    if i == 0 {
        Seq::empty()
    } else {
        x_rows(radix, (i - 1) as nat) + "["@ + x_row(radix, (i - 1) as nat, radix) + "],"@
    }
}

/// The whole formula source the shift gate emits.
pub open spec fn x_source(radix: nat) -> Seq<char> {
    "utry X<"@ + dec_of(radix) + ">(){["@ + x_rows(radix, radix) + "]}"@
}

impl UnitaryExpressionGenerator for XGate {
    open spec fn gen_wf(&self) -> bool {
        self.radix >= 2
    }

    open spec fn gen_name(&self) -> Seq<char> {
        "X"@
    }

    open spec fn gen_radices(&self) -> Seq<usize> {
        seq![self.radix]
    }

    open spec fn gen_params(&self) -> nat {
        0
    }

    open spec fn gen_matches(&self, e: UnitaryExpression) -> bool {
        e matches UnitaryExpression::Formula { name, radices, variables, source } && name@
            == "X"@ && radices@ == seq![self.radix] && variables.deep_view()
            == Seq::<Seq<char>>::empty() && source@ == x_source(self.radix as nat)
    }

    proof fn gen_matches_respects_sim(&self, a: UnitaryExpression, b: UnitaryExpression) {
    }

    fn gen_expr(&self) -> (e: UnitaryExpression) {
        let ghost r = self.radix as nat;
        let mut source = String::from_str("utry X<");
        let radix_text = usize_to_string(self.radix);
        source.append(radix_text.as_str());
        source.append(">(){[");
        let ghost header = "utry X<"@ + dec_of(r) + ">(){["@;
        proof {
            assert(source@ =~= header);
        }
        let mut i: usize = 0;
        while i < self.radix
            invariant
                i <= self.radix,
                r == self.radix as nat,
                source@ =~= header + x_rows(r, i as nat),
            decreases self.radix - i,
        {
            source.append("[");
            let mut j: usize = 0;
            while j < self.radix
                invariant
                    j <= self.radix,
                    i < self.radix,
                    r == self.radix as nat,
                    source@ =~= header + x_rows(r, i as nat) + "["@ + x_row(
                        r,
                        i as nat,
                        j as nat,
                    ),
                decreases self.radix - j,
            {
                if (j + 1) % self.radix == i {
                    source.append("1, ");
                } else {
                    source.append("0, ");
                }
                proof {
                    assert(x_row(r, i as nat, j as nat + 1) == x_row(r, i as nat, j as nat)
                        + x_cell(r, i as nat, j as nat));
                    assert(source@ =~= header + x_rows(r, i as nat) + "["@ + x_row(
                        r,
                        i as nat,
                        j as nat + 1,
                    ));
                }
                j = j + 1;
            }
            source.append("],");
            proof {
                assert(x_rows(r, i as nat + 1) == x_rows(r, i as nat) + "["@ + x_row(
                    r,
                    i as nat,
                    r,
                ) + "],"@);
                assert(source@ =~= header + x_rows(r, i as nat + 1));
            }
            i = i + 1;
        }
        source.append("]}");
        proof {
            assert(source@ =~= x_source(r));
        }

        let mut radix_vec: Vec<usize> = Vec::new();
        radix_vec.push(self.radix);
        proof {
            assert(radix_vec@ =~= seq![self.radix]);
            lemma_radix_prod_singleton(self.radix);
        }
        let radices = QuditRadices::new(radix_vec);
        let variables: Vec<String> = Vec::new();
        proof {
            assert(variables.deep_view() =~= Seq::<Seq<char>>::empty());
        }
        UnitaryExpression::formula(String::from_str("X"), radices, variables, source)
    }
}

} // verus!
