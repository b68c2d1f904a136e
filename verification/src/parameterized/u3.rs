//! The U3 gate.

use vstd::prelude::*;
use vstd::string::StringExecFns;

use crate::expr::UnitaryExpression;
use crate::expr::UnitaryExpressionGenerator;
use crate::radices::QuditRadices;
use crate::radices::lemma_radix_prod_singleton;

verus! {

/// The whole formula source the U3 gate emits.
pub open spec fn u3_source() -> Seq<char> {
    "utry U3(θ0, θ1, θ2){"@ + "[[cos(θ0/2), ~e^(i*θ2)*sin(θ0/2)], "@
        + "[e^(i*θ1)*sin(θ0/2), e^(i*(θ1+θ2))*cos(θ0/2)]]"@ + "}"@
}

/// The single-qubit U3 gate: a general single-qubit unitary parameterized
/// by three angles.
#[derive(Debug, Clone, Copy, Hash, PartialEq, Eq)]
pub struct U3Gate;

impl UnitaryExpressionGenerator for U3Gate {
    open spec fn gen_wf(&self) -> bool {
        true
    }

    open spec fn gen_name(&self) -> Seq<char> {
        "U3"@
    }

    open spec fn gen_radices(&self) -> Seq<usize> {
        seq![2usize]
    }

    open spec fn gen_params(&self) -> nat {
        3
    }

    open spec fn gen_matches(&self, e: UnitaryExpression) -> bool {
        e matches UnitaryExpression::Formula { name, radices, variables, source } && name@
            == "U3"@ && radices@ == seq![2usize] && variables.deep_view() == seq![
            "θ0"@,
            "θ1"@,
            "θ2"@,
        ] && source@ == u3_source()
    }

    proof fn gen_matches_respects_sim(&self, a: UnitaryExpression, b: UnitaryExpression) {
    }

    fn gen_expr(&self) -> (e: UnitaryExpression) {
        let mut source = String::from_str("utry U3(θ0, θ1, θ2){");
        source.append("[[cos(θ0/2), ~e^(i*θ2)*sin(θ0/2)], ");
        source.append("[e^(i*θ1)*sin(θ0/2), e^(i*(θ1+θ2))*cos(θ0/2)]]");
        source.append("}");
        proof {
            assert(source@ =~= u3_source());
        }

        let mut variables: Vec<String> = Vec::new();
        variables.push(String::from_str("θ0"));
        variables.push(String::from_str("θ1"));
        variables.push(String::from_str("θ2"));
        proof {
            reveal_strlit("θ0");
            reveal_strlit("θ1");
            reveal_strlit("θ2");
            assert(variables.deep_view() =~= seq!["θ0"@, "θ1"@, "θ2"@]);
            assert("θ0"@ != "θ1"@) by {
                assert("θ0"@[1] == '0' && "θ1"@[1] == '1');
            }
            assert("θ0"@ != "θ2"@) by {
                assert("θ0"@[1] == '0' && "θ2"@[1] == '2');
            }
            assert("θ1"@ != "θ2"@) by {
                assert("θ1"@[1] == '1' && "θ2"@[1] == '2');
            }
        }
        let mut radix_vec: Vec<usize> = Vec::new();
        radix_vec.push(2);
        proof {
            assert(radix_vec@ =~= seq![2usize]);
            lemma_radix_prod_singleton(2);
        }
        let radices = QuditRadices::new(radix_vec);
        UnitaryExpression::formula(String::from_str("U3"), radices, variables, source)
    }
}

} // verus!
