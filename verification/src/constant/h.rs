//! The Hadamard gate.

use vstd::prelude::*;
use vstd::string::StringExecFns;

use crate::decimal::dec_of;
use crate::decimal::usize_to_string;
use crate::expr::UnitaryExpression;
use crate::expr::UnitaryExpressionGenerator;
use crate::radices::QuditRadices;
use crate::radices::lemma_radix_prod_singleton;

verus! {

/// The one-qudit Hadamard gate.
///
/// On a qubit this is the familiar matrix with entries of absolute value
/// `1/sqrt(2)`.  In general the entry at row `i`, column `j` is
/// `omega^(i*j) / sqrt(d)` where `omega = e^(2*pi*i/d)` and `d` is the
/// radix.
#[derive(Hash, PartialEq, Eq, Clone, Debug)]
pub struct HGate {
    pub radix: usize,
}

impl HGate {
    /// Builds the Hadamard gate on a qudit with the given number of levels.
    pub fn new(radix: usize) -> (g: Self)
        requires
            radix >= 2,
        ensures
            g.radix == radix,
            g.gen_wf(),
    {
        Self { radix }
    }
}

/// The cell text at row `i`, column `j` of the general Hadamard matrix:
/// the root of unity raised to `i*j`.
pub open spec fn h_cell(radix: nat, i: nat, j: nat) -> Seq<char> {
    "e^(2*π*i/"@ + dec_of(radix) + ")^("@ + dec_of(i) + "*"@ + dec_of(j) + "), "@
}

/// The first `j` cells of row `i`.
pub open spec fn h_row(radix: nat, i: nat, j: nat) -> Seq<char>
    decreases j,
{
    if j == 0 {
        Seq::empty()
    } else {
        h_row(radix, i, (j - 1) as nat) + h_cell(radix, i, (j - 1) as nat)
    }
}

/// The first `i` bracketed rows of the general Hadamard matrix.
pub open spec fn h_rows(radix: nat, i: nat) -> Seq<char>
    decreases i,
{
    if i == 0 {
        Seq::empty()
    } else {
        h_rows(radix, (i - 1) as nat) + "["@ + h_row(radix, (i - 1) as nat, radix) + "],"@
    }
}

/// The whole formula source the Hadamard gate emits: a closed form on a
/// qubit, the root-of-unity matrix scaled by `1/sqrt(d)` otherwise.
pub open spec fn h_source(radix: nat) -> Seq<char> {
    if radix == 2 {
        "utry H<"@ + dec_of(radix) + ">(){"@
            + "[[1/sqrt(2), 1/sqrt(2)], [1/sqrt(2), ~1/sqrt(2)]]"@ + "}"@
    } else {
        "utry H<"@ + dec_of(radix) + ">(){"@ + "1/sqrt("@ + dec_of(radix) + ") * ["@ + h_rows(
            radix,
            radix,
        ) + "]"@ + "}"@
    }
}

impl UnitaryExpressionGenerator for HGate {
    open spec fn gen_wf(&self) -> bool {
        self.radix >= 2
    }

    open spec fn gen_name(&self) -> Seq<char> {
        "H"@
    }

    open spec fn gen_radices(&self) -> Seq<usize> {
        seq![self.radix]
    }

    open spec fn gen_params(&self) -> nat {
        0
    }

    open spec fn gen_matches(&self, e: UnitaryExpression) -> bool {
        e matches UnitaryExpression::Formula { name, radices, variables, source } && name@
            == "H"@ && radices@ == seq![self.radix] && variables.deep_view()
            == Seq::<Seq<char>>::empty() && source@ == h_source(self.radix as nat)
    }

    proof fn gen_matches_respects_sim(&self, a: UnitaryExpression, b: UnitaryExpression) {
    }

    fn gen_expr(&self) -> (e: UnitaryExpression) {
        let ghost r = self.radix as nat;
        let mut source = String::from_str("utry H<");
        let radix_text = usize_to_string(self.radix);
        source.append(radix_text.as_str());
        source.append(">(){");
        let ghost header = "utry H<"@ + dec_of(r) + ">(){"@;
        proof {
            assert(source@ =~= header);
        }
        if self.radix == 2 {
            source.append("[[1/sqrt(2), 1/sqrt(2)], [1/sqrt(2), ~1/sqrt(2)]]");
        } else {
            source.append("1/sqrt(");
            source.append(radix_text.as_str());
            source.append(") * [");
            let ghost opening = header + "1/sqrt("@ + dec_of(r) + ") * ["@;
            proof {
                assert(source@ =~= opening);
            }
            let mut i: usize = 0;
            while i < self.radix
                invariant
                    i <= self.radix,
                    r == self.radix as nat,
                    radix_text@ == dec_of(r),
                    opening == header + "1/sqrt("@ + dec_of(r) + ") * ["@,
                    source@ =~= opening + h_rows(r, i as nat),
                decreases self.radix - i,
            {
                source.append("[");
                let i_text = usize_to_string(i);
                let mut j: usize = 0;
                while j < self.radix
                    invariant
                        j <= self.radix,
                        i < self.radix,
                        r == self.radix as nat,
                        radix_text@ == dec_of(r),
                        i_text@ == dec_of(i as nat),
                        opening == header + "1/sqrt("@ + dec_of(r) + ") * ["@,
                        source@ =~= opening + h_rows(r, i as nat) + "["@ + h_row(
                            r,
                            i as nat,
                            j as nat,
                        ),
                    decreases self.radix - j,
                {
                    let ghost before_cell = source@;
                    source.append("e^(2*π*i/");
                    source.append(radix_text.as_str());
                    source.append(")^(");
                    source.append(i_text.as_str());
                    source.append("*");
                    let j_text = usize_to_string(j);
                    source.append(j_text.as_str());
                    source.append("), ");
                    proof {
                        assert(source@ =~= before_cell + h_cell(r, i as nat, j as nat));
                        assert(h_row(r, i as nat, j as nat + 1) == h_row(r, i as nat, j as nat)
                            + h_cell(r, i as nat, j as nat));
                        assert(source@ =~= opening + h_rows(r, i as nat) + "["@ + h_row(
                            r,
                            i as nat,
                            j as nat + 1,
                        ));
                    }
                    j = j + 1;
                }
                source.append("],");
                proof {
                    assert(h_rows(r, i as nat + 1) == h_rows(r, i as nat) + "["@ + h_row(
                        r,
                        i as nat,
                        r,
                    ) + "],"@);
                    assert(source@ =~= opening + h_rows(r, i as nat + 1));
                }
                i = i + 1;
            }
            source.append("]");
        }
        source.append("}");
        proof {
            assert(source@ =~= h_source(r));
        }

        let mut radix_vec: Vec<usize> = Vec::new();
        radix_vec.push(self.radix);
        proof {
            assert(radix_vec@ =~= seq![self.radix]);
            lemma_radix_prod_singleton(self.radix);
        }
        let radices = QuditRadices::new(radix_vec);
        let variables: Vec<String> = Vec::new();
        proof {
            assert(variables.deep_view() =~= Seq::<Seq<char>>::empty());
        }
        UnitaryExpression::formula(String::from_str("H"), radices, variables, source)
    }
}

} // verus!
