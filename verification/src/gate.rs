use crate::Error;
use crate::acir::ExpressionView;
use crate::acir::expression_from_field;
use crate::acir::expression_push_addition_term;
use crate::acir::expression_push_multiplication_term;
use crate::acir::expression_read_constant;
use crate::acir::expression_read_linear_terms;
use crate::acir::expression_read_mul_terms;
use crate::acir::expression_view;
use crate::field::AcirFieldElement;
use crate::field::FieldElement;
use crate::field::ff_to_ark_prime_field;
use crate::field::field_add;
use crate::field::field_mul;
use crate::field::generic_ark_ff_to_prime_field;
use crate::field::lemma_field_round_trip;
use crate::load::UnsupportedProgramError;
use crate::r1cs::Term;
use crate::r1cs::lc_value_from;
use crate::witness::WitnessID;
use acvm::acir::native_types::Expression;
use vstd::prelude::*;

verus! {

/// An arithmetic gate: the sum of `coefficient * left * right` over the
/// multiplication terms, of `coefficient * variable` over the addition terms,
/// and of the constant term, asserted to be zero.
#[derive(Debug, PartialEq, Eq)]
pub struct AcirArithGate {
    pub mul_terms: Vec<(FieldElement, WitnessID, WitnessID)>,
    pub add_terms: Vec<(FieldElement, WitnessID)>,
    pub constant_term: FieldElement,
}

/// The terms of an arithmetic gate, in order.
pub struct GateView {
    pub mul_terms: Seq<(FieldElement, WitnessID, WitnessID)>,
    pub add_terms: Seq<(FieldElement, WitnessID)>,
    pub constant_term: FieldElement,
}

impl View for AcirArithGate {
    type V = GateView;

    open spec fn view(&self) -> GateView {
        GateView {
            mul_terms: self.mul_terms@,
            add_terms: self.add_terms@,
            constant_term: self.constant_term,
        }
    }
}

impl Clone for AcirArithGate {
    fn clone(&self) -> (r: Self)
        ensures
            r@ == self@,
    {
        AcirArithGate {
            mul_terms: copy_terms(&self.mul_terms),
            add_terms: copy_terms(&self.add_terms),
            constant_term: self.constant_term,
        }
    }
}

/// A copy of a list of terms.
pub fn copy_terms<T: Copy>(terms: &Vec<T>) -> (r: Vec<T>)
    ensures
        r@ == terms@,
{
    let mut r: Vec<T> = Vec::new();
    let mut i: usize = 0;
    while i < terms.len()
        invariant
            i <= terms.len(),
            r@ == terms@.take(i as int),
        decreases terms.len() - i,
    {
        r.push(terms[i]);
        assert(terms@.take(i + 1) =~= terms@.take(i as int).push(terms@[i as int]));
        i += 1;
    }
    assert(terms@.take(terms.len() as int) =~= terms@);
    r
}

impl GateView {
    /// Whether every coefficient is a reduced residue.
    pub open spec fn wf(self) -> bool {
        &&& forall|i: int| 0 <= i < self.mul_terms.len() ==> (#[trigger] self.mul_terms[i]).0.wf()
        &&& forall|i: int| 0 <= i < self.add_terms.len() ==> (#[trigger] self.add_terms[i]).0.wf()
        &&& self.constant_term.wf()
    }

    /// Every identifier that one of its terms names.
    pub open spec fn ids(self) -> Set<WitnessID> {
        mul_term_ids(self.mul_terms) + add_term_ids(self.add_terms)
    }
}

/// Every identifier that a multiplication term names.
pub open spec fn mul_term_ids(terms: Seq<(FieldElement, WitnessID, WitnessID)>) -> Set<WitnessID> {
    Set::new(
        |id: WitnessID|
            exists|i: int|
                0 <= i < terms.len() && ((#[trigger] terms[i]).1 == id || terms[i].2 == id),
    )
}

/// Every identifier that an addition term names.
pub open spec fn add_term_ids(terms: Seq<(FieldElement, WitnessID)>) -> Set<WitnessID> {
    Set::new(|id: WitnessID| exists|i: int| 0 <= i < terms.len() && (#[trigger] terms[i]).1 == id)
}

/// Every identifier that a term of one of the gates names.
pub open spec fn gates_ids(gates: Seq<GateView>) -> Set<WitnessID> {
    Set::new(
        |id: WitnessID| exists|i: int| 0 <= i < gates.len() && (#[trigger] gates[i]).ids().contains(id),
    )
}

/// One more multiplication term adds its two identifiers.
pub proof fn lemma_mul_term_ids_step(terms: Seq<(FieldElement, WitnessID, WitnessID)>, i: int)
    requires
        0 <= i < terms.len(),
    ensures
        mul_term_ids(terms.take(i + 1)) == mul_term_ids(terms.take(i)).insert(terms[i].1).insert(
            terms[i].2,
        ),
        mul_term_ids(terms.take(0)) == Set::<WitnessID>::empty(),
        mul_term_ids(terms.take(terms.len() as int)) == mul_term_ids(terms),
{
    let more = terms.take(i + 1);
    let less = terms.take(i);
    let goal = mul_term_ids(less).insert(terms[i].1).insert(terms[i].2);
    assert forall|id: WitnessID| mul_term_ids(more).contains(id) <==> goal.contains(id) by {
        if mul_term_ids(more).contains(id) {
            let j = choose|j: int|
                0 <= j < more.len() && ((#[trigger] more[j]).1 == id || more[j].2 == id);
            if j < i {
                assert(less[j] == more[j]);
            }
        }
        if mul_term_ids(less).contains(id) {
            let j = choose|j: int|
                0 <= j < less.len() && ((#[trigger] less[j]).1 == id || less[j].2 == id);
            assert(more[j] == less[j]);
        }
        if id == terms[i].1 || id == terms[i].2 {
            assert(more[i] == terms[i]);
        }
    }
    assert(mul_term_ids(more) =~= goal);
    assert(mul_term_ids(terms.take(0)) =~= Set::<WitnessID>::empty());
    assert(terms.take(terms.len() as int) =~= terms);
}

/// One more addition term adds its identifier.
pub proof fn lemma_add_term_ids_step(terms: Seq<(FieldElement, WitnessID)>, i: int)
    requires
        0 <= i < terms.len(),
    ensures
        add_term_ids(terms.take(i + 1)) == add_term_ids(terms.take(i)).insert(terms[i].1),
        add_term_ids(terms.take(0)) == Set::<WitnessID>::empty(),
        add_term_ids(terms.take(terms.len() as int)) == add_term_ids(terms),
{
    let more = terms.take(i + 1);
    let less = terms.take(i);
    let goal = add_term_ids(less).insert(terms[i].1);
    assert forall|id: WitnessID| add_term_ids(more).contains(id) <==> goal.contains(id) by {
        if add_term_ids(more).contains(id) {
            let j = choose|j: int| 0 <= j < more.len() && (#[trigger] more[j]).1 == id;
            if j < i {
                assert(less[j] == more[j]);
            }
        }
        if add_term_ids(less).contains(id) {
            let j = choose|j: int| 0 <= j < less.len() && (#[trigger] less[j]).1 == id;
            assert(more[j] == less[j]);
        }
        if id == terms[i].1 {
            assert(more[i] == terms[i]);
        }
    }
    assert(add_term_ids(more) =~= goal);
    assert(add_term_ids(terms.take(0)) =~= Set::<WitnessID>::empty());
    assert(terms.take(terms.len() as int) =~= terms);
}

/// One more gate adds its identifiers.
pub proof fn lemma_gates_ids_step(gates: Seq<GateView>, i: int)
    requires
        0 <= i < gates.len(),
    ensures
        gates_ids(gates.take(i + 1)) == gates_ids(gates.take(i)) + gates[i].ids(),
        gates_ids(gates.take(0)) == Set::<WitnessID>::empty(),
        gates_ids(gates.take(gates.len() as int)) == gates_ids(gates),
{
    let more = gates.take(i + 1);
    let less = gates.take(i);
    let goal = gates_ids(less) + gates[i].ids();
    assert forall|id: WitnessID| gates_ids(more).contains(id) <==> goal.contains(id) by {
        if gates_ids(more).contains(id) {
            let j = choose|j: int| 0 <= j < more.len() && (#[trigger] more[j]).ids().contains(id);
            if j < i {
                assert(less[j] == more[j]);
            }
        }
        if gates_ids(less).contains(id) {
            let j = choose|j: int| 0 <= j < less.len() && (#[trigger] less[j]).ids().contains(id);
            assert(more[j] == less[j]);
        }
        if gates[i].ids().contains(id) {
            assert(more[i] == gates[i]);
        }
    }
    assert(gates_ids(more) =~= goal);
    assert(gates_ids(gates.take(0)) =~= Set::<WitnessID>::empty());
    assert(gates.take(gates.len() as int) =~= gates);
}

/// The addition terms of a gate as terms of a linear combination.
pub open spec fn linear_terms(add_terms: Seq<(FieldElement, WitnessID)>) -> Seq<Term> {
    Seq::new(
        add_terms.len(),
        |i: int| Term::LC { coefficient: add_terms[i].0, var_id: add_terms[i].1 },
    )
}

/// The sum of `coefficient * left * right` over multiplication terms, taken
/// in order, under an assignment.
pub open spec fn mul_terms_value(
    terms: Seq<(FieldElement, WitnessID, WitnessID)>,
    w: Map<WitnessID, FieldElement>,
) -> nat
    decreases terms.len(),
{
    if terms.len() == 0 {
        0
    } else {
        let (coefficient, left, right) = terms.last();
        field_add(
            mul_terms_value(terms.drop_last(), w),
            field_mul(coefficient@, field_mul(w[left]@, w[right]@)),
        )
    }
}

/// The value of a gate's expression under an assignment.
pub open spec fn gate_value(gate: GateView, w: Map<WitnessID, FieldElement>) -> nat {
    field_add(
        lc_value_from(mul_terms_value(gate.mul_terms, w), linear_terms(gate.add_terms), w),
        field_mul(gate.constant_term@, 1),
    )
}

/// Whether an assignment satisfies a gate.
pub open spec fn gate_holds(gate: GateView, w: Map<WitnessID, FieldElement>) -> bool {
    gate_value(gate, w) == 0
}

/// Whether an assignment has a value for every identifier of a gate.
pub open spec fn gate_defined(gate: GateView, w: Map<WitnessID, FieldElement>) -> bool {
    &&& forall|i: int|
        0 <= i < gate.mul_terms.len() ==> w.contains_key((#[trigger] gate.mul_terms[i]).1)
            && w.contains_key(gate.mul_terms[i].2)
    &&& forall|i: int|
        0 <= i < gate.add_terms.len() ==> w.contains_key((#[trigger] gate.add_terms[i]).1)
}

/// What a list of gates says.
pub open spec fn gates_view(gates: Seq<AcirArithGate>) -> Seq<GateView> {
    Seq::new(gates.len(), |i: int| gates[i]@)
}

/// One instruction of a circuit as the solver knows it.
#[derive(Clone, Debug, PartialEq, Eq)]
pub enum Opcode {
    /// An expression asserted to be zero.
    AssertZero(Expression),
    /// An instruction of any other sort, kept as its text.
    Other(String),
}

/// The terms of a gate with each coefficient in the solver's encoding.
pub open spec fn to_expression_view(gate: GateView) -> ExpressionView {
    ExpressionView {
        mul_terms: Seq::new(
            gate.mul_terms.len(),
            |i: int|
                (gate.mul_terms[i].0.to_acir_spec(), gate.mul_terms[i].1, gate.mul_terms[i].2),
        ),
        linear_combinations: Seq::new(
            gate.add_terms.len(),
            |i: int| (gate.add_terms[i].0.to_acir_spec(), gate.add_terms[i].1),
        ),
        q_c: gate.constant_term.to_acir_spec(),
    }
}

/// The terms of an expression with each coefficient in the constraint
/// system's encoding.
pub open spec fn to_gate_view(e: ExpressionView) -> GateView {
    GateView {
        mul_terms: Seq::new(
            e.mul_terms.len(),
            |i: int| (e.mul_terms[i].0.to_field_spec(), e.mul_terms[i].1, e.mul_terms[i].2),
        ),
        add_terms: Seq::new(
            e.linear_combinations.len(),
            |i: int| (e.linear_combinations[i].0.to_field_spec(), e.linear_combinations[i].1),
        ),
        constant_term: e.q_c.to_field_spec(),
    }
}

/// A gate that went to the solver's form and back is the same gate that set
/// out: the same terms in the same order with the same coefficients.
pub proof fn lemma_gate_round_trip(gate: GateView)
    requires
        gate.wf(),
    ensures
        to_expression_view(gate).wf(),
        to_gate_view(to_expression_view(gate)) == gate,
{
    let e = to_expression_view(gate);
    let back = to_gate_view(e);
    let any = AcirFieldElement::from_nat(0);
    AcirFieldElement::lemma_from_nat(0);
    assert forall|i: int| 0 <= i < gate.mul_terms.len() implies (#[trigger] e.mul_terms[i]).0.wf()
        && back.mul_terms[i] == gate.mul_terms[i] by {
        lemma_field_round_trip(gate.mul_terms[i].0, any);
    }
    assert forall|i: int| 0 <= i < gate.add_terms.len() implies (
    #[trigger] e.linear_combinations[i]).0.wf() && back.add_terms[i] == gate.add_terms[i] by {
        lemma_field_round_trip(gate.add_terms[i].0, any);
    }
    lemma_field_round_trip(gate.constant_term, any);
    assert(back.mul_terms =~= gate.mul_terms);
    assert(back.add_terms =~= gate.add_terms);
}

/// An expression that went to the form of a gate and back is the same
/// expression that set out.
pub proof fn lemma_expression_round_trip(e: ExpressionView)
    requires
        e.wf(),
    ensures
        to_gate_view(e).wf(),
        to_expression_view(to_gate_view(e)) == e,
{
    let gate = to_gate_view(e);
    let back = to_expression_view(gate);
    let any = FieldElement::from_nat(0);
    FieldElement::lemma_from_nat(0);
    assert forall|i: int| 0 <= i < e.mul_terms.len() implies (#[trigger] gate.mul_terms[i]).0.wf()
        && back.mul_terms[i] == e.mul_terms[i] by {
        lemma_field_round_trip(any, e.mul_terms[i].0);
    }
    assert forall|i: int| 0 <= i < e.linear_combinations.len() implies (
    #[trigger] gate.add_terms[i]).0.wf() && back.linear_combinations[i]
        == e.linear_combinations[i] by {
        lemma_field_round_trip(any, e.linear_combinations[i].0);
    }
    lemma_field_round_trip(any, e.q_c);
    assert(back.mul_terms =~= e.mul_terms);
    assert(back.linear_combinations =~= e.linear_combinations);
}

impl AcirArithGate {
    /// The assert-zero opcode that says what this gate says, with each
    /// coefficient carried to the solver's encoding.
    pub fn to_opcode(&self) -> (r: Result<Opcode, Error>)
        requires
            self@.wf(),
        ensures
            r matches Ok(Opcode::AssertZero(e)) && expression_view(e) == to_expression_view(self@),
    {
        match self.to_expression() {
            Ok(e) => Ok(Opcode::AssertZero(e)),
            Err(e) => Err(e),
        }
    }

    /// The solver's expression that says what this gate says, with each
    /// coefficient carried to the solver's encoding.
    pub fn to_expression(&self) -> (r: Result<Expression, Error>)
        requires
            self@.wf(),
        ensures
            r matches Ok(e) && expression_view(e) == to_expression_view(self@),
    {
        let constant = match ff_to_ark_prime_field(&self.constant_term) {
            Ok(c) => c,
            Err(e) => {
                return Err(e);
            },
        };
        let mut expression = expression_from_field(&constant);
        let ghost goal = to_expression_view(self@);
        let mut i: usize = 0;
        while i < self.mul_terms.len()
            invariant
                i <= self.mul_terms.len(),
                self@.wf(),
                goal == to_expression_view(self@),
                expression_view(expression).mul_terms == goal.mul_terms.take(i as int),
                expression_view(expression).linear_combinations == Seq::<
                    (AcirFieldElement, WitnessID),
                >::empty(),
                expression_view(expression).q_c == goal.q_c,
            decreases self.mul_terms.len() - i,
        {
            let (c, l, r) = self.mul_terms[i];
            assert(self@.mul_terms[i as int].0.wf());
            let c = match ff_to_ark_prime_field(&c) {
                Ok(c) => c,
                Err(e) => {
                    return Err(e);
                },
            };
            expression_push_multiplication_term(&mut expression, &c, l, r);
            proof {
                assert(goal.mul_terms.take(i + 1) =~= goal.mul_terms.take(i as int).push(
                    goal.mul_terms[i as int],
                ));
            }
            i += 1;
        }
        let mut k: usize = 0;
        while k < self.add_terms.len()
            invariant
                k <= self.add_terms.len(),
                self@.wf(),
                goal == to_expression_view(self@),
                expression_view(expression).mul_terms == goal.mul_terms.take(
                    self.mul_terms.len() as int,
                ),
                expression_view(expression).linear_combinations == goal.linear_combinations.take(
                    k as int,
                ),
                expression_view(expression).q_c == goal.q_c,
            decreases self.add_terms.len() - k,
        {
            let (c, w) = self.add_terms[k];
            assert(self@.add_terms[k as int].0.wf());
            let c = match ff_to_ark_prime_field(&c) {
                Ok(c) => c,
                Err(e) => {
                    return Err(e);
                },
            };
            expression_push_addition_term(&mut expression, &c, w);
            proof {
                assert(goal.linear_combinations.take(k + 1) =~= goal.linear_combinations.take(
                    k as int,
                ).push(goal.linear_combinations[k as int]));
            }
            k += 1;
        }
        proof {
            assert(goal.mul_terms.take(self.mul_terms.len() as int) =~= goal.mul_terms);
            assert(goal.linear_combinations.take(k as int) =~= goal.linear_combinations);
        }
        Ok(expression)
    }

    /// A gate that says what an assert-zero opcode says, with each
    /// coefficient carried to the constraint system's encoding. An opcode
    /// of any other sort is refused with its text.
    pub fn from_opcode(opcode: &Opcode) -> (r: Result<AcirArithGate, Error>)
        ensures
            match *opcode {
                Opcode::AssertZero(e) => r matches Ok(g) && g@.wf() && g@ == to_gate_view(
                    expression_view(e),
                ),
                Opcode::Other(text) => r matches Err(
                    Error::UnsupportedProgram(UnsupportedProgramError::NonAssertZeroOpcode(t)),
                ) && t@ == text@,
            },
    {
        match opcode {
            Opcode::AssertZero(expression) => {
                let ghost goal = to_gate_view(expression_view(*expression));
                let source_mul = expression_read_mul_terms(expression);
                let mut mul_terms: Vec<(FieldElement, WitnessID, WitnessID)> = Vec::new();
                let mut i: usize = 0;
                while i < source_mul.len()
                    invariant
                        i <= source_mul.len(),
                        source_mul@ == expression_view(*expression).mul_terms,
                        forall|j: int|
                            0 <= j < source_mul@.len() ==> (#[trigger] source_mul@[j]).0.wf(),
                        goal == to_gate_view(expression_view(*expression)),
                        mul_terms@ == goal.mul_terms.take(i as int),
                        forall|j: int| 0 <= j < i ==> (#[trigger] mul_terms@[j]).0.wf(),
                    decreases source_mul.len() - i,
                {
                    let (c, l, r) = source_mul[i];
                    assert(source_mul@[i as int].0.wf());
                    let c = match generic_ark_ff_to_prime_field(&c) {
                        Ok(c) => c,
                        Err(e) => {
                            return Err(e);
                        },
                    };
                    mul_terms.push((c, l, r));
                    proof {
                        assert(goal.mul_terms.take(i + 1) =~= goal.mul_terms.take(i as int).push(
                            goal.mul_terms[i as int],
                        ));
                    }
                    i += 1;
                }
                let source_add = expression_read_linear_terms(expression);
                let mut add_terms: Vec<(FieldElement, WitnessID)> = Vec::new();
                let mut k: usize = 0;
                while k < source_add.len()
                    invariant
                        k <= source_add.len(),
                        source_add@ == expression_view(*expression).linear_combinations,
                        forall|j: int|
                            0 <= j < source_add@.len() ==> (#[trigger] source_add@[j]).0.wf(),
                        goal == to_gate_view(expression_view(*expression)),
                        add_terms@ == goal.add_terms.take(k as int),
                        forall|j: int| 0 <= j < k ==> (#[trigger] add_terms@[j]).0.wf(),
                    decreases source_add.len() - k,
                {
                    let (c, w) = source_add[k];
                    assert(source_add@[k as int].0.wf());
                    let c = match generic_ark_ff_to_prime_field(&c) {
                        Ok(c) => c,
                        Err(e) => {
                            return Err(e);
                        },
                    };
                    add_terms.push((c, w));
                    proof {
                        assert(goal.add_terms.take(k + 1) =~= goal.add_terms.take(k as int).push(
                            goal.add_terms[k as int],
                        ));
                    }
                    k += 1;
                }
                let constant = expression_read_constant(expression);
                let constant_term = match generic_ark_ff_to_prime_field(&constant) {
                    Ok(c) => c,
                    Err(e) => {
                        return Err(e);
                    },
                };
                proof {
                    assert(goal.mul_terms.take(i as int) =~= goal.mul_terms);
                    assert(goal.add_terms.take(k as int) =~= goal.add_terms);
                }
                Ok(AcirArithGate { mul_terms, add_terms, constant_term })
            },
            Opcode::Other(text) => Err(
                Error::UnsupportedProgram(
                    UnsupportedProgramError::NonAssertZeroOpcode(text.clone()),
                ),
            ),
        }
    }
}

} // verus!
