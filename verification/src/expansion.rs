use crate::field::FieldElement;
use crate::gate::GateView;
use crate::gate::linear_terms;
use crate::ivc::ProgramError;
use crate::r1cs::ConstraintView;
use crate::r1cs::Term;
use crate::witness::WitnessID;
use vstd::prelude::*;

verus! {

/// The state of the expansion of a list of gates into rank-1 constraints:
/// the assignment so far, the next free identifier and the constraints
/// emitted so far.
pub struct Expansion {
    pub assignment: Map<WitnessID, FieldElement>,
    pub num_witness: nat,
    pub constraints: Seq<ConstraintView>,
}

/// The constraint `(left_value * left) * (right_value * right) =
/// (product_value * product)` that ties a product variable to its factors.
pub open spec fn bilinear_constraint(
    left_value: FieldElement,
    left: WitnessID,
    right_value: FieldElement,
    right: WitnessID,
    product_value: FieldElement,
    product: WitnessID,
) -> ConstraintView {
    ConstraintView {
        a: seq![Term::LC { coefficient: left_value, var_id: left }],
        b: seq![Term::LC { coefficient: right_value, var_id: right }],
        c: seq![Term::LC { coefficient: product_value, var_id: product }],
    }
}

/// The constraint `combination * 1 = 0`.
pub open spec fn closing_constraint(combination: Seq<Term>) -> ConstraintView {
    ConstraintView {
        a: combination,
        b: seq![Term::Const(FieldElement::from_nat(1))],
        c: Seq::empty(),
    }
}

/// Expands one multiplication term. Both factors are looked up in the
/// assignment so far, their product gets the next free identifier, one
/// bilinear constraint is emitted, and `coefficient * product` joins the
/// gate's linear combination.
pub open spec fn expand_mul_term(
    term: (FieldElement, WitnessID, WitnessID),
    st: Expansion,
    lc: Seq<Term>,
) -> Result<(Expansion, Seq<Term>), ProgramError> {
    let (coefficient, left, right) = term;
    if !st.assignment.contains_key(left) {
        Err(ProgramError::MissingWitness(left))
    } else if !st.assignment.contains_key(right) {
        Err(ProgramError::MissingWitness(right))
    } else if st.num_witness >= u32::MAX {
        Err(ProgramError::TooManyWitnesses)
    } else {
        let left_value = st.assignment[left];
        let right_value = st.assignment[right];
        let product_value = left_value.mul_spec(right_value);
        let product = st.num_witness as u32;
        Ok(
            (
                Expansion {
                    assignment: st.assignment.insert(product, product_value),
                    num_witness: st.num_witness + 1,
                    constraints: st.constraints.push(
                        bilinear_constraint(
                            left_value,
                            left,
                            right_value,
                            right,
                            product_value,
                            product,
                        ),
                    ),
                },
                lc.push(Term::LC { coefficient, var_id: product }),
            ),
        )
    }
}

/// Expands the multiplication terms of a gate in order, from the state `st`
/// and an empty linear combination.
pub open spec fn expand_mul_terms(
    terms: Seq<(FieldElement, WitnessID, WitnessID)>,
    st: Expansion,
) -> Result<(Expansion, Seq<Term>), ProgramError>
    decreases terms.len(),
{
    if terms.len() == 0 {
        Ok((st, Seq::empty()))
    } else {
        match expand_mul_terms(terms.drop_last(), st) {
            Ok((s, lc)) => expand_mul_term(terms.last(), s, lc),
            Err(e) => Err(e),
        }
    }
}

/// The linear combination of a gate once its multiplication terms have
/// been replaced by `products`.
pub open spec fn gate_combination(products: Seq<Term>, gate: GateView) -> Seq<Term> {
    products + linear_terms(gate.add_terms) + seq![Term::Const(gate.constant_term)]
}

/// Expands one gate: its multiplication terms, then one closing constraint
/// that asserts that its linear combination is zero.
pub open spec fn expand_gate(gate: GateView, st: Expansion) -> Result<Expansion, ProgramError> {
    match expand_mul_terms(gate.mul_terms, st) {
        Ok((s, products)) => Ok(
            Expansion {
                assignment: s.assignment,
                num_witness: s.num_witness,
                constraints: s.constraints.push(
                    closing_constraint(gate_combination(products, gate)),
                ),
            },
        ),
        Err(e) => Err(e),
    }
}

/// Expands a list of gates in order.
pub open spec fn expand_gates(gates: Seq<GateView>, st: Expansion) -> Result<
    Expansion,
    ProgramError,
>
    decreases gates.len(),
{
    if gates.len() == 0 {
        Ok(st)
    } else {
        match expand_gates(gates.drop_last(), st) {
            Ok(s) => expand_gate(gates.last(), s),
            Err(e) => Err(e),
        }
    }
}

/// The state before the first gate: the solved assignment, no constraints,
/// and as next free identifier the number of entries of the assignment.
pub open spec fn expansion_start(solved: Map<WitnessID, FieldElement>) -> Result<
    Expansion,
    ProgramError,
> {
    if solved.len() > u32::MAX {
        Err(ProgramError::TooManyWitnesses)
    } else {
        Ok(Expansion { assignment: solved, num_witness: solved.len(), constraints: Seq::empty() })
    }
}

/// The expansion of a list of gates over a solved assignment.
pub open spec fn expansion(gates: Seq<GateView>, solved: Map<WitnessID, FieldElement>) -> Result<
    Expansion,
    ProgramError,
> {
    match expansion_start(solved) {
        Ok(st) => expand_gates(gates, st),
        Err(e) => Err(e),
    }
}

/// Once a prefix of the multiplication terms has failed, the whole list
/// fails the same way.
pub proof fn lemma_mul_terms_error_persists(
    terms: Seq<(FieldElement, WitnessID, WitnessID)>,
    k: int,
    st: Expansion,
)
    requires
        0 <= k <= terms.len(),
        expand_mul_terms(terms.take(k), st) is Err,
    ensures
        expand_mul_terms(terms, st) == expand_mul_terms(terms.take(k), st),
    decreases terms.len() - k,
{
    if k < terms.len() {
        assert(terms.take(k + 1).drop_last() =~= terms.take(k));
        lemma_mul_terms_error_persists(terms, k + 1, st);
    } else {
        assert(terms.take(k) =~= terms);
    }
}

/// Once a prefix of the gates has failed, the whole list fails the same way.
pub proof fn lemma_gates_error_persists(gates: Seq<GateView>, k: int, st: Expansion)
    requires
        0 <= k <= gates.len(),
        expand_gates(gates.take(k), st) is Err,
    ensures
        expand_gates(gates, st) == expand_gates(gates.take(k), st),
    decreases gates.len() - k,
{
    if k < gates.len() {
        assert(gates.take(k + 1).drop_last() =~= gates.take(k));
        lemma_gates_error_persists(gates, k + 1, st);
    } else {
        assert(gates.take(k) =~= gates);
    }
}

} // verus!
