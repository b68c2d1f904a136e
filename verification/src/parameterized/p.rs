//! The phase gate.

use vstd::prelude::*;
use vstd::string::StringExecFns;

use crate::decimal::dec_of;
use crate::decimal::lemma_marked_dec_distinct;
use crate::decimal::usize_to_string;
use crate::expr::UnitaryExpression;
use crate::expr::UnitaryExpressionGenerator;
use crate::radices::QuditRadices;
use crate::radices::lemma_radix_prod_singleton;

verus! {

/// The single-qudit phase gate.
///
/// This gate is diagonal: the first level keeps phase one and each of the
/// remaining `d - 1` levels carries its own parameterized relative phase
/// `e^(i*θk)`, so it has `d - 1` free parameters.
#[derive(Hash, PartialEq, Eq, Clone, Debug)]
pub struct PGate {
    pub radix: usize,
}

impl PGate {
    /// Builds the phase gate on a qudit with the given number of levels.
    pub fn new(radix: usize) -> (g: Self)
        requires
            radix >= 2,
        ensures
            g.radix == radix,
            g.gen_wf(),
    {
        Self { radix }
    }
}

/// The name of the phase parameter with the given index.
pub open spec fn theta_name(k: nat) -> Seq<char> {
    seq!['θ'] + dec_of(k)
}

/// The first `k` phase parameter names, each followed by a separator.
pub open spec fn theta_list(k: nat) -> Seq<char>
    decreases k,
{
    if k == 0 {
        Seq::empty()
    } else {
        theta_list((k - 1) as nat) + theta_name((k - 1) as nat) + ", "@
    }
}

/// The first `k` phase parameter names as a list of names.
pub open spec fn theta_names(k: nat) -> Seq<Seq<char>> {
    Seq::new(k, |t: int| theta_name(t as nat))
}

/// The cell text at row `i`, column `j` of the phase matrix: one on the
/// first diagonal entry, a parameterized phase on the others.
pub open spec fn p_cell(i: nat, j: nat) -> Seq<char> {
    if i == j {
        if i == 0 {
            "1, "@
        } else {
            "e^(i*"@ + theta_name((i - 1) as nat) + "), "@
        }
    } else {
        "0, "@
    }
}

/// The first `j` cells of row `i`.
pub open spec fn p_row(i: nat, j: nat) -> Seq<char>
    decreases j,
{
    if j == 0 {
        Seq::empty()
    } else {
        p_row(i, (j - 1) as nat) + p_cell(i, (j - 1) as nat)
    }
}

/// The first `i` bracketed rows of the phase matrix.
pub open spec fn p_rows(radix: nat, i: nat) -> Seq<char>
    decreases i,
{
    if i == 0 {
        Seq::empty()
    } else {
        p_rows(radix, (i - 1) as nat) + "["@ + p_row((i - 1) as nat, radix) + "],"@
    }
}

/// The whole formula source the phase gate emits.
pub open spec fn p_source(radix: nat) -> Seq<char> {
    "utry P<"@ + dec_of(radix) + ">("@ + theta_list((radix - 1) as nat) + ")"@ + "{["@ + p_rows(
        radix,
        radix,
    ) + "]}"@
}

/// Renders the phase parameter name with the given index.
fn theta_text(k: usize) -> (s: String)
    ensures
        s@ == theta_name(k as nat),
{
    let mut s = String::from_str("θ");
    let k_text = usize_to_string(k);
    s.append(k_text.as_str());
    proof {
        reveal_strlit("θ");
        assert("θ"@ =~= seq!['θ']);
    }
    s
}

impl UnitaryExpressionGenerator for PGate {
    open spec fn gen_wf(&self) -> bool {
        self.radix >= 2
    }

    open spec fn gen_name(&self) -> Seq<char> {
        "P"@
    }

    open spec fn gen_radices(&self) -> Seq<usize> {
        seq![self.radix]
    }

    open spec fn gen_params(&self) -> nat {
        (self.radix - 1) as nat
    }

    open spec fn gen_matches(&self, e: UnitaryExpression) -> bool {
        e matches UnitaryExpression::Formula { name, radices, variables, source } && name@
            == "P"@ && radices@ == seq![self.radix] && variables.deep_view() == theta_names(
            (self.radix - 1) as nat,
        ) && source@ == p_source(self.radix as nat)
    }

    proof fn gen_matches_respects_sim(&self, a: UnitaryExpression, b: UnitaryExpression) {
    }

    fn gen_expr(&self) -> (e: UnitaryExpression) {
        let ghost r = self.radix as nat;
        let mut source = String::from_str("utry P<");
        let radix_text = usize_to_string(self.radix);
        source.append(radix_text.as_str());
        source.append(">(");
        let ghost header = "utry P<"@ + dec_of(r) + ">("@;
        proof {
            assert(source@ =~= header);
        }
        let mut variables: Vec<String> = Vec::new();
        let mut k: usize = 0;
        while k < self.radix - 1
            invariant
                self.radix >= 2,
                r == self.radix as nat,
                k <= self.radix - 1,
                variables.deep_view().len() == k,
                forall|t: int| 0 <= t < k ==> variables.deep_view()[t] == theta_name(t as nat),
                source@ =~= header + theta_list(k as nat),
            decreases self.radix - 1 - k,
        {
            let name = theta_text(k);
            source.append(name.as_str());
            source.append(", ");
            proof {
                assert(theta_list(k as nat + 1) == theta_list(k as nat) + theta_name(k as nat)
                    + ", "@);
                assert(source@ =~= header + theta_list(k as nat + 1));
            }
            let ghost before = variables.deep_view();
            variables.push(name);
            proof {
                assert forall|t: int| 0 <= t < variables@.len() implies variables.deep_view()[t]
                    == before.push(theta_name(k as nat))[t] by {
                    assert(variables.deep_view()[t] == variables@[t]@);
                    if t < before.len() {
                        assert(before[t] == variables@[t]@);
                    }
                }
                assert(variables.deep_view() =~= before.push(theta_name(k as nat)));
            }
            k = k + 1;
        }
        source.append(")");
        source.append("{[");
        let ghost opening = header + theta_list((r - 1) as nat) + ")"@ + "{["@;
        proof {
            assert(source@ =~= opening);
        }
        let mut i: usize = 0;
        while i < self.radix
            invariant
                self.radix >= 2,
                r == self.radix as nat,
                i <= self.radix,
                opening == header + theta_list((r - 1) as nat) + ")"@ + "{["@,
                source@ =~= opening + p_rows(r, i as nat),
            decreases self.radix - i,
        {
            source.append("[");
            let mut j: usize = 0;
            while j < self.radix
                invariant
                    self.radix >= 2,
                    r == self.radix as nat,
                    j <= self.radix,
                    i < self.radix,
                    opening == header + theta_list((r - 1) as nat) + ")"@ + "{["@,
                    source@ =~= opening + p_rows(r, i as nat) + "["@ + p_row(i as nat, j as nat),
                decreases self.radix - j,
            {
                if i == j {
                    if i == 0 {
                        source.append("1, ");
                    } else {
                        source.append("e^(i*");
                        let phase_name = theta_text(i - 1);
                        source.append(phase_name.as_str());
                        source.append("), ");
                    }
                } else {
                    source.append("0, ");
                }
                proof {
                    assert(p_row(i as nat, j as nat + 1) == p_row(i as nat, j as nat) + p_cell(
                        i as nat,
                        j as nat,
                    ));
                    assert(source@ =~= opening + p_rows(r, i as nat) + "["@ + p_row(
                        i as nat,
                        j as nat + 1,
                    ));
                }
                j = j + 1;
            }
            source.append("],");
            proof {
                assert(p_rows(r, i as nat + 1) == p_rows(r, i as nat) + "["@ + p_row(i as nat, r)
                    + "],"@);
                assert(source@ =~= opening + p_rows(r, i as nat + 1));
            }
            i = i + 1;
        }
        source.append("]}");
        proof {
            assert(source@ =~= p_source(r));
            assert(variables.deep_view() =~= theta_names((r - 1) as nat));
            assert forall|a: int, b: int|
                0 <= a < b < variables.deep_view().len() implies variables.deep_view()[a]
                != variables.deep_view()[b] by {
                lemma_marked_dec_distinct('θ', a as nat, b as nat);
            }
        }
        let mut radix_vec: Vec<usize> = Vec::new();
        radix_vec.push(self.radix);
        proof {
            assert(radix_vec@ =~= seq![self.radix]);
            lemma_radix_prod_singleton(self.radix);
        }
        let radices = QuditRadices::new(radix_vec);
        UnitaryExpression::formula(String::from_str("P"), radices, variables, source)
    }
}

} // verus!
