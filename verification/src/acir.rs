use crate::field::AcirFieldElement;
use crate::limbs::Limbs;
use crate::ordered::increasing;
use crate::witness::WitnessID;
use acvm::acir::circuit::Opcode as AcvmOpcode;
use acvm::acir::native_types::Expression;
use acvm::acir::native_types::Witness as AcvmWitness;
use acvm::acir::native_types::WitnessMap;
use acvm::blackbox_solver::StubbedBlackBoxSolver;
use acvm::pwg::ACVM;
use acvm::pwg::ACVMStatus;
use ark_ff::PrimeField;
use vstd::prelude::*;

verus! {

/// The solver's quadratic expression: multiplication terms, linear terms
/// and a constant.
#[verifier::external_type_specification]
#[verifier::external_body]
pub struct ExExpression(Expression);

/// The solver's assignment of values to witness identifiers.
#[verifier::external_type_specification]
#[verifier::external_body]
pub struct ExWitnessMap(WitnessMap);

/// The multiplication terms of an expression, in order: coefficient, left
/// and right identifier.
pub uninterp spec fn expression_mul_terms(e: Expression) -> Seq<
    (AcirFieldElement, WitnessID, WitnessID),
>;

/// The linear terms of an expression, in order: coefficient and identifier.
pub uninterp spec fn expression_linear_terms(e: Expression) -> Seq<(AcirFieldElement, WitnessID)>;

/// The constant of an expression.
pub uninterp spec fn expression_constant(e: Expression) -> AcirFieldElement;

/// The entries of a witness map.
pub uninterp spec fn witness_map_entries(m: WitnessMap) -> Map<WitnessID, AcirFieldElement>;

/// What the solver ends with when it is run on a list of expressions, each
/// asserted to be zero, from an initial assignment: the assignment that it
/// has solved for, or the status at which it stopped.
pub uninterp spec fn solver_outcome(
    opcodes: Seq<ExpressionView>,
    initial: Map<WitnessID, AcirFieldElement>,
) -> Result<Map<WitnessID, AcirFieldElement>, Seq<char>>;

/// The terms of an expression.
pub struct ExpressionView {
    pub mul_terms: Seq<(AcirFieldElement, WitnessID, WitnessID)>,
    pub linear_combinations: Seq<(AcirFieldElement, WitnessID)>,
    pub q_c: AcirFieldElement,
}

impl ExpressionView {
    /// Whether every coefficient is a reduced residue.
    pub open spec fn wf(self) -> bool {
        &&& forall|i: int| 0 <= i < self.mul_terms.len() ==> (#[trigger] self.mul_terms[i]).0.wf()
        &&& forall|i: int|
            0 <= i < self.linear_combinations.len() ==> (
            #[trigger] self.linear_combinations[i]).0.wf()
        &&& self.q_c.wf()
    }
}

/// What an expression says.
pub open spec fn expression_view(e: Expression) -> ExpressionView {
    ExpressionView {
        mul_terms: expression_mul_terms(e),
        linear_combinations: expression_linear_terms(e),
        q_c: expression_constant(e),
    }
}

/// What a list of expressions says.
pub open spec fn expression_views(es: Seq<Expression>) -> Seq<ExpressionView> {
    Seq::new(es.len(), |i: int| expression_view(es[i]))
}

/// `Clone` for `Expression` is derived: the copy has the same terms and the
/// same constant.
pub assume_specification[ <Expression as Clone>::clone ](e: &Expression) -> (copy: Expression)
    ensures
        expression_mul_terms(copy) == expression_mul_terms(*e),
        expression_linear_terms(copy) == expression_linear_terms(*e),
        expression_constant(copy) == expression_constant(*e),
;

/// Calls `Expression::from_field`, which gives the expression made of the
/// constant alone.
#[verifier::external_body]
pub(crate) fn expression_from_field(q_c: &AcirFieldElement) -> (e: Expression)
    requires
        q_c.wf(),
    ensures
        expression_mul_terms(e) == Seq::<(AcirFieldElement, WitnessID, WitnessID)>::empty(),
        expression_linear_terms(e) == Seq::<(AcirFieldElement, WitnessID)>::empty(),
        expression_constant(e) == *q_c,
{
    Expression::from_field(acvm::FieldElement::from_repr(ark_bn254::Fr::new(ark_ff::BigInt([q_c.limbs.l0, q_c.limbs.l1, q_c.limbs.l2, q_c.limbs.l3]))))
}

/// Calls `Expression::push_multiplication_term`, which puts one term at the
/// end of the multiplication terms and leaves the rest as it is.
#[verifier::external_body]
pub(crate) fn expression_push_multiplication_term(
    e: &mut Expression,
    coefficient: &AcirFieldElement,
    lhs: WitnessID,
    rhs: WitnessID,
)
    requires
        coefficient.wf(),
    ensures
        expression_mul_terms(*final(e)) == expression_mul_terms(*old(e)).push(
            (*coefficient, lhs, rhs),
        ),
        expression_linear_terms(*final(e)) == expression_linear_terms(*old(e)),
        expression_constant(*final(e)) == expression_constant(*old(e)),
{
    let l = coefficient.limbs;
    let c = acvm::FieldElement::from_repr(ark_bn254::Fr::new(ark_ff::BigInt([l.l0, l.l1, l.l2, l.l3])));
    e.push_multiplication_term(c, AcvmWitness(lhs), AcvmWitness(rhs));
}

/// Calls `Expression::push_addition_term`, which puts one term at the end
/// of the linear terms and leaves the rest as it is.
#[verifier::external_body]
pub(crate) fn expression_push_addition_term(
    e: &mut Expression,
    coefficient: &AcirFieldElement,
    variable: WitnessID,
)
    requires
        coefficient.wf(),
    ensures
        expression_mul_terms(*final(e)) == expression_mul_terms(*old(e)),
        expression_linear_terms(*final(e)) == expression_linear_terms(*old(e)).push(
            (*coefficient, variable),
        ),
        expression_constant(*final(e)) == expression_constant(*old(e)),
{
    let l = coefficient.limbs;
    let c = acvm::FieldElement::from_repr(ark_bn254::Fr::new(ark_ff::BigInt([l.l0, l.l1, l.l2, l.l3])));
    e.push_addition_term(c, AcvmWitness(variable));
}

/// Reads the multiplication terms of an expression from its field
/// `mul_terms`. Each coefficient comes out through `into_repr` and
/// `into_bigint`, which give the reduced residue.
#[verifier::external_body]
pub(crate) fn expression_read_mul_terms(e: &Expression) -> (terms: Vec<
    (AcirFieldElement, WitnessID, WitnessID),
>)
    ensures
        terms@ == expression_mul_terms(*e),
        forall|i: int| 0 <= i < terms@.len() ==> (#[trigger] terms@[i]).0.wf(),
{
    e.mul_terms.iter().map(
        |t|
            {
                let [l0, l1, l2, l3] = t.0.into_repr().into_bigint().0;
                (AcirFieldElement { limbs: Limbs { l0, l1, l2, l3 } }, t.1.0, t.2.0)
            },
    ).collect()
}

/// Reads the linear terms of an expression from its field
/// `linear_combinations`. Each coefficient comes out through `into_repr`
/// and `into_bigint`, which give the reduced residue.
#[verifier::external_body]
pub(crate) fn expression_read_linear_terms(e: &Expression) -> (terms: Vec<
    (AcirFieldElement, WitnessID),
>)
    ensures
        terms@ == expression_linear_terms(*e),
        forall|i: int| 0 <= i < terms@.len() ==> (#[trigger] terms@[i]).0.wf(),
{
    e.linear_combinations.iter().map(
        |t|
            {
                let [l0, l1, l2, l3] = t.0.into_repr().into_bigint().0;
                (AcirFieldElement { limbs: Limbs { l0, l1, l2, l3 } }, t.1.0)
            },
    ).collect()
}

/// Reads the constant of an expression from its field `q_c`. It comes out
/// through `into_repr` and `into_bigint`, which give the reduced residue.
#[verifier::external_body]
pub(crate) fn expression_read_constant(e: &Expression) -> (q_c: AcirFieldElement)
    ensures
        q_c == expression_constant(*e),
        q_c.wf(),
{
    let [l0, l1, l2, l3] = e.q_c.into_repr().into_bigint().0;
    AcirFieldElement { limbs: Limbs { l0, l1, l2, l3 } }
}

/// Calls `WitnessMap::new`, which gives the map without entries.
#[verifier::external_body]
pub(crate) fn witness_map_new() -> (fresh: WitnessMap)
    ensures
        witness_map_entries(fresh) == (Map::<WitnessID, AcirFieldElement>::empty()),
{
    WitnessMap::new()
}

/// Calls `WitnessMap::insert`, which gives an identifier a value, in place
/// of an earlier one if there was one.
#[verifier::external_body]
pub(crate) fn witness_map_insert(m: &mut WitnessMap, id: WitnessID, value: &AcirFieldElement)
    requires
        value.wf(),
    ensures
        witness_map_entries(*final(m)) == witness_map_entries(*old(m)).insert(id, *value),
{
    let l = value.limbs;
    let v = acvm::FieldElement::from_repr(ark_bn254::Fr::new(ark_ff::BigInt([l.l0, l.l1, l.l2, l.l3])));
    m.insert(AcvmWitness(id), v);
}

/// Walks a witness map with `into_iter`, which hands out the entries of the
/// `BTreeMap` inside in increasing order of identifier. Each value comes
/// out through `into_repr` and `into_bigint`, which give the reduced
/// residue.
#[verifier::external_body]
pub(crate) fn witness_map_into_entries(m: WitnessMap) -> (entries: Vec<
    (WitnessID, AcirFieldElement),
>)
    ensures
        increasing(Seq::new(entries@.len(), |i: int| entries@[i].0)),
        forall|i: int|
            0 <= i < entries@.len() ==> witness_map_entries(m).contains_key(
                (#[trigger] entries@[i]).0,
            ) && witness_map_entries(m)[entries@[i].0] == entries@[i].1 && entries@[i].1.wf(),
        forall|k: WitnessID|
            witness_map_entries(m).contains_key(k) ==> exists|i: int|
                0 <= i < entries@.len() && (#[trigger] entries@[i]).0 == k,
{
    m.into_iter().map(
        |(k, v)|
            {
                let [l0, l1, l2, l3] = v.into_repr().into_bigint().0;
                (k.0, AcirFieldElement { limbs: Limbs { l0, l1, l2, l3 } })
            },
    ).collect()
}

/// Runs the solver: makes an `ACVM` with `ACVM::new` over the expressions,
/// each as an assert-zero opcode, and the initial witness map, with the
/// stubbed black box solver and neither unconstrained functions nor
/// assertion payloads; calls `solve`; and where the status is `Solved`
/// takes the witness map with `finalize`. Any other status comes back as
/// its `Debug` text. The solver works on its arguments alone, so the
/// contract gives what comes back a name.
#[verifier::external_body]
pub(crate) fn acvm_solve(opcodes: &Vec<Expression>, initial: WitnessMap) -> (out: Result<
    WitnessMap,
    String,
>)
    ensures
        match out {
            Ok(solved) => solver_outcome(expression_views(opcodes@), witness_map_entries(initial))
                == Ok::<Map<WitnessID, AcirFieldElement>, Seq<char>>(witness_map_entries(solved)),
            Err(status) => solver_outcome(expression_views(opcodes@), witness_map_entries(initial))
                == Err::<Map<WitnessID, AcirFieldElement>, Seq<char>>(status@),
        },
{
    let ops: Vec<AcvmOpcode> = opcodes.iter().cloned().map(AcvmOpcode::AssertZero).collect();
    let mut vm = ACVM::new(&StubbedBlackBoxSolver, &ops, initial, &[], &[]);
    match vm.solve() {
        ACVMStatus::Solved => Ok(vm.finalize()),
        status => Err(format!("{:?}", status)),
    }
}

} // verus!
