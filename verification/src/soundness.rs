use crate::expansion::Expansion;
use crate::expansion::bilinear_constraint;
use crate::expansion::closing_constraint;
use crate::expansion::expand_gate;
use crate::expansion::expand_gates;
use crate::expansion::expand_mul_term;
use crate::expansion::expand_mul_terms;
use crate::expansion::expansion;
use crate::expansion::gate_combination;
use crate::field::FieldElement;
use crate::field::field_add;
use crate::field::field_mul;
use crate::gate::GateView;
use crate::gate::gate_defined;
use crate::gate::gate_holds;
use crate::gate::gate_value;
use crate::gate::linear_terms;
use crate::gate::mul_terms_value;
use crate::limbs::modulus;
use crate::r1cs::ConstraintView;
use crate::r1cs::Term;
use crate::r1cs::constraint_holds;
use crate::r1cs::lc_defined;
use crate::r1cs::lc_value;
use crate::r1cs::lc_value_from;
use crate::r1cs::term_value;
use crate::witness::WitnessID;
use crate::witness::assignment_wf;
use vstd::arithmetic::div_mod::lemma_mul_mod_noop_general;
use vstd::prelude::*;

verus! {

/// Whether `bigger` has every entry of `smaller`.
pub open spec fn extends(
    smaller: Map<WitnessID, FieldElement>,
    bigger: Map<WitnessID, FieldElement>,
) -> bool {
    forall|k: WitnessID| #[trigger]
        smaller.contains_key(k) ==> bigger.contains_key(k) && bigger[k] == smaller[k]
}

/// Whether the identifiers of an assignment are below the number of its entries.
pub open spec fn dense(w: Map<WitnessID, FieldElement>) -> bool {
    forall|k: WitnessID| w.contains_key(k) ==> k < w.len()
}

/// Whether an assignment has a value for every variable of a constraint.
pub open spec fn constraint_defined(c: ConstraintView, w: Map<WitnessID, FieldElement>) -> bool {
    lc_defined(c.a, w) && lc_defined(c.b, w) && lc_defined(c.c, w)
}

/// How much is asked of the state of an expansion.
pub enum Care {
    /// The bilinear constraints hold.
    Products,
    /// Every constraint, moreover, speaks of identifiers in use.
    Defined,
    /// Every constraint, moreover, holds.
    All,
}

/// Whether the state of an expansion is consistent: the values are reduced,
/// the identifiers in use are below the next free one, and every bilinear
/// constraint speaks of identifiers in use and holds; with more care, so
/// do the closing constraints.
pub open spec fn sound(st: Expansion, care: Care) -> bool {
    &&& assignment_wf(st.assignment)
    &&& forall|k: WitnessID| st.assignment.contains_key(k) ==> k < st.num_witness
    &&& forall|i: int|
        0 <= i < st.constraints.len() && (!(care is Products) || st.constraints[i].c.len() != 0)
            ==> constraint_defined(#[trigger] st.constraints[i], st.assignment)
    &&& forall|i: int|
        0 <= i < st.constraints.len() && (care is All || st.constraints[i].c.len() != 0)
            ==> constraint_holds(#[trigger] st.constraints[i], st.assignment)
}

/// The value of a linear combination depends only on the values of its
/// own variables.
pub proof fn lemma_lc_value_extends(
    init: nat,
    lc: Seq<Term>,
    w: Map<WitnessID, FieldElement>,
    bigger: Map<WitnessID, FieldElement>,
)
    requires
        lc_defined(lc, w),
        extends(w, bigger),
    ensures
        lc_value_from(init, lc, bigger) == lc_value_from(init, lc, w),
        lc_defined(lc, bigger),
    decreases lc.len(),
{
    if lc.len() > 0 {
        let front = lc.drop_last();
        assert forall|i: int| 0 <= i < front.len() implies match #[trigger] front[i] {
            Term::LC { coefficient, var_id } => w.contains_key(var_id),
            Term::Const(_) => true,
        } by {
            assert(front[i] == lc[i]);
        }
        lemma_lc_value_extends(init, front, w, bigger);
        assert(lc[lc.len() - 1] == lc.last());
        assert forall|i: int| 0 <= i < lc.len() implies match #[trigger] lc[i] {
            Term::LC { coefficient, var_id } => bigger.contains_key(var_id),
            Term::Const(_) => true,
        } by {
            match lc[i] {
                Term::LC { coefficient, var_id } => {
                    assert(w.contains_key(var_id));
                },
                Term::Const(_) => {},
            }
        }
    }
}

/// The value of two linear combinations put end to end.
pub proof fn lemma_lc_value_concat(
    init: nat,
    first: Seq<Term>,
    second: Seq<Term>,
    w: Map<WitnessID, FieldElement>,
)
    ensures
        lc_value_from(init, first + second, w) == lc_value_from(
            lc_value_from(init, first, w),
            second,
            w,
        ),
    decreases second.len(),
{
    if second.len() == 0 {
        assert(first + second =~= first);
    } else {
        assert((first + second).drop_last() =~= first + second.drop_last());
        assert((first + second).last() == second.last());
        lemma_lc_value_concat(init, first, second.drop_last(), w);
    }
}

/// `(x * x) * (y * y)` and `(x * y) * (x * y)` are the same residue.
proof fn lemma_square_product(x: nat, y: nat)
    ensures
        field_mul(field_mul(x, x), field_mul(y, y)) == field_mul(field_mul(x, y), field_mul(x, y)),
{
    let p = modulus() as int;
    lemma_mul_mod_noop_general((x * x) as int, (y * y) as int, p);
    lemma_mul_mod_noop_general((x * y) as int, (x * y) as int, p);
    assert((x * x) * (y * y) == (x * y) * (x * y)) by (nonlinear_arith);
}

/// The value of a combination of one term.
proof fn lemma_single_term_value(init: nat, t: Term, w: Map<WitnessID, FieldElement>)
    ensures
        lc_value_from(init, seq![t], w) == field_add(init, term_value(t, w)),
{
    let lc = seq![t];
    assert(lc.drop_last() =~= Seq::<Term>::empty());
    assert(lc.last() == t);
    assert(lc_value_from(init, lc.drop_last(), w) == init);
}

/// Expanding one multiplication term keeps the state consistent, keeps
/// every earlier entry, and adds `coefficient * left * right` to the value
/// of the linear combination.
pub proof fn lemma_expand_mul_term_sound(
    term: (FieldElement, WitnessID, WitnessID),
    st: Expansion,
    lc: Seq<Term>,
    care: Care,
)
    requires
        sound(st, care),
        lc_defined(lc, st.assignment),
        expand_mul_term(term, st, lc) is Ok,
    ensures
        ({
            let (s, lc2) = expand_mul_term(term, st, lc)->Ok_0;
            &&& sound(s, care)
            &&& extends(st.assignment, s.assignment)
            &&& st.constraints.is_prefix_of(s.constraints)
            &&& lc_defined(lc2, s.assignment)
            &&& lc_value(lc2, s.assignment) == field_add(
                lc_value(lc, st.assignment),
                field_mul(
                    term.0@,
                    field_mul(st.assignment[term.1]@, st.assignment[term.2]@),
                ),
            )
        }),
{
    let (coefficient, left, right) = term;
    let (s, lc2) = expand_mul_term(term, st, lc)->Ok_0;
    let left_value = st.assignment[left];
    let right_value = st.assignment[right];
    let product_value = left_value.mul_spec(right_value);
    let product = st.num_witness as u32;
    FieldElement::lemma_from_nat(field_mul(left_value@, right_value@));
    assert(!st.assignment.contains_key(product));
    assert(s.assignment == st.assignment.insert(product, product_value));
    assert(extends(st.assignment, s.assignment));
    assert(assignment_wf(s.assignment)) by {
        assert forall|k: WitnessID| s.assignment.contains_key(k) implies (
        #[trigger] s.assignment[k]).wf() by {
            if k != product {
                assert(st.assignment.contains_key(k));
                assert(st.assignment[k].wf());
            }
        }
    }
    let fresh = bilinear_constraint(left_value, left, right_value, right, product_value, product);
    assert(s.constraints == st.constraints.push(fresh));
    assert forall|i: int| 0 <= i < s.constraints.len() implies ((!(care is Products)
        || s.constraints[i].c.len() != 0) ==> constraint_defined(
        #[trigger] s.constraints[i],
        s.assignment,
    )) && ((care is All || s.constraints[i].c.len() != 0) ==> constraint_holds(
        s.constraints[i],
        s.assignment,
    )) by {
        if i < st.constraints.len() {
            let c = st.constraints[i];
            assert(s.constraints[i] == c);
            if !(care is Products) || c.c.len() != 0 {
                assert(constraint_defined(c, st.assignment));
                lemma_lc_value_extends(0, c.a, st.assignment, s.assignment);
                lemma_lc_value_extends(0, c.b, st.assignment, s.assignment);
                lemma_lc_value_extends(0, c.c, st.assignment, s.assignment);
            }
            if care is All || c.c.len() != 0 {
                assert(constraint_holds(c, st.assignment));
            }
        } else {
            assert(s.constraints[i] == fresh);
            lemma_single_term_value(0, fresh.a[0], s.assignment);
            lemma_single_term_value(0, fresh.b[0], s.assignment);
            lemma_single_term_value(0, fresh.c[0], s.assignment);
            assert(fresh.a =~= seq![fresh.a[0]]);
            assert(fresh.b =~= seq![fresh.b[0]]);
            assert(fresh.c =~= seq![fresh.c[0]]);
            assert(s.assignment[left] == left_value);
            assert(s.assignment[right] == right_value);
            assert(s.assignment[product] == product_value);
            lemma_square_product(left_value@, right_value@);
        }
    }
    lemma_lc_value_extends(0, lc, st.assignment, s.assignment);
    assert(lc2.drop_last() =~= lc);
    assert(lc2.last() == Term::LC { coefficient, var_id: product });
    assert forall|i: int| 0 <= i < lc2.len() implies match #[trigger] lc2[i] {
        Term::LC { coefficient, var_id } => s.assignment.contains_key(var_id),
        Term::Const(_) => true,
    } by {
        if i < lc.len() {
            assert(lc2[i] == lc[i]);
        }
    }
}

/// Expanding the multiplication terms of a gate keeps the state consistent
/// and every earlier entry. Where the factors have their values in the
/// assignment `base`, it gives a combination whose value is the sum of the
/// terms under `base`.
pub proof fn lemma_expand_mul_terms_sound(
    terms: Seq<(FieldElement, WitnessID, WitnessID)>,
    st: Expansion,
    base: Map<WitnessID, FieldElement>,
    care: Care,
)
    requires
        sound(st, care),
        !(care is Products) ==> extends(base, st.assignment),
        !(care is Products) ==> forall|i: int|
            0 <= i < terms.len() ==> base.contains_key((#[trigger] terms[i]).1)
                && base.contains_key(terms[i].2),
        expand_mul_terms(terms, st) is Ok,
    ensures
        ({
            let (s, lc) = expand_mul_terms(terms, st)->Ok_0;
            &&& sound(s, care)
            &&& extends(st.assignment, s.assignment)
            &&& st.constraints.is_prefix_of(s.constraints)
            &&& lc_defined(lc, s.assignment)
            &&& !(care is Products) ==> extends(base, s.assignment) && lc_value(lc, s.assignment)
                == mul_terms_value(terms, base)
        }),
    decreases terms.len(),
{
    if terms.len() > 0 {
        let front = terms.drop_last();
        if !(care is Products) {
            assert forall|i: int| 0 <= i < front.len() implies base.contains_key(
                (#[trigger] front[i]).1,
            ) && base.contains_key(front[i].2) by {
                assert(front[i] == terms[i]);
            }
        }
        lemma_expand_mul_terms_sound(front, st, base, care);
        let (s1, lc1) = expand_mul_terms(front, st)->Ok_0;
        let term = terms.last();
        assert(term == terms[terms.len() - 1]);
        lemma_expand_mul_term_sound(term, s1, lc1, care);
        if !(care is Products) {
            assert(s1.assignment[term.1] == base[term.1]);
            assert(s1.assignment[term.2] == base[term.2]);
        }
    }
}

/// Expanding a gate keeps the state consistent and every earlier entry.
/// Where its identifiers have their values in the assignment
/// `base`, the closing constraint that it emits has a combination whose
/// value is the value of that gate under `base`.
pub proof fn lemma_expand_gate_sound(
    gate: GateView,
    st: Expansion,
    base: Map<WitnessID, FieldElement>,
    care: Care,
)
    requires
        sound(st, care),
        !(care is Products) ==> extends(base, st.assignment) && gate_defined(gate, base),
        care is All ==> gate_holds(gate, base),
        expand_gate(gate, st) is Ok,
    ensures
        ({
            let s = expand_gate(gate, st)->Ok_0;
            &&& sound(s, care)
            &&& extends(st.assignment, s.assignment)
            &&& st.constraints.is_prefix_of(s.constraints)
            &&& s.constraints.len() > st.constraints.len()
            &&& !(care is Products) ==> extends(base, s.assignment) && lc_value(
                s.constraints.last().a,
                s.assignment,
            ) == gate_value(gate, base)
        }),
{
    lemma_expand_mul_terms_sound(gate.mul_terms, st, base, care);
    let (s1, products) = expand_mul_terms(gate.mul_terms, st)->Ok_0;
    let s = expand_gate(gate, st)->Ok_0;
    let w = s1.assignment;
    let linear = linear_terms(gate.add_terms);
    let constant = seq![Term::Const(gate.constant_term)];
    let combination = gate_combination(products, gate);
    let closing = closing_constraint(combination);
    assert(s.constraints == s1.constraints.push(closing));
    if !(care is Products) {
        assert(lc_defined(linear, base)) by {
            assert forall|i: int| 0 <= i < linear.len() implies match #[trigger] linear[i] {
                Term::LC { coefficient, var_id } => base.contains_key(var_id),
                Term::Const(_) => true,
            } by {
                assert(base.contains_key(gate.add_terms[i].1));
            }
        }
        lemma_lc_value_extends(mul_terms_value(gate.mul_terms, base), linear, base, w);
        lemma_lc_value_concat(0, products, linear, w);
        lemma_lc_value_concat(0, products + linear, constant, w);
        lemma_single_term_value(
            lc_value_from(0, products + linear, w),
            Term::Const(gate.constant_term),
            w,
        );
        assert(lc_value(combination, w) == gate_value(gate, base));
        assert(lc_defined(combination, w)) by {
            assert forall|i: int| 0 <= i < combination.len() implies match #[trigger] combination[i] {
                Term::LC { coefficient, var_id } => w.contains_key(var_id),
                Term::Const(_) => true,
            } by {
                if i < products.len() {
                    assert(combination[i] == products[i]);
                } else if i < products.len() + linear.len() {
                    assert(combination[i] == linear[i - products.len()]);
                } else {
                    assert(combination[i] == constant[i - products.len() - linear.len()]);
                }
            }
        }
        FieldElement::lemma_from_nat(1);
        lemma_single_term_value(0, closing.b[0], w);
        assert(closing.b =~= seq![closing.b[0]]);
        assert(lc_value(closing.c, w) == 0);
    }
    assert forall|i: int| 0 <= i < s.constraints.len() implies ((!(care is Products)
        || s.constraints[i].c.len() != 0) ==> constraint_defined(
        #[trigger] s.constraints[i],
        s.assignment,
    )) && ((care is All || s.constraints[i].c.len() != 0) ==> constraint_holds(
        s.constraints[i],
        s.assignment,
    )) by {
        if i < s1.constraints.len() {
            assert(s.constraints[i] == s1.constraints[i]);
            if !(care is Products) || s1.constraints[i].c.len() != 0 {
                assert(constraint_defined(s1.constraints[i], s1.assignment));
            }
            if care is All || s1.constraints[i].c.len() != 0 {
                assert(constraint_holds(s1.constraints[i], s1.assignment));
            }
        } else {
            assert(s.constraints[i] == closing);
        }
    }
}

/// Expanding a list of gates keeps the state consistent and every earlier
/// entry.
pub proof fn lemma_expand_gates_sound(
    gates: Seq<GateView>,
    st: Expansion,
    base: Map<WitnessID, FieldElement>,
    care: Care,
)
    requires
        sound(st, care),
        !(care is Products) ==> extends(base, st.assignment) && forall|i: int|
            0 <= i < gates.len() ==> gate_defined(#[trigger] gates[i], base),
        care is All ==> forall|i: int| 0 <= i < gates.len() ==> gate_holds(#[trigger] gates[i], base),
        expand_gates(gates, st) is Ok,
    ensures
        sound(expand_gates(gates, st)->Ok_0, care),
        extends(st.assignment, expand_gates(gates, st)->Ok_0.assignment),
        st.constraints.is_prefix_of(expand_gates(gates, st)->Ok_0.constraints),
        !(care is Products) ==> extends(base, expand_gates(gates, st)->Ok_0.assignment),
    decreases gates.len(),
{
    if gates.len() > 0 {
        let front = gates.drop_last();
        assert forall|i: int| 0 <= i < front.len() implies (!(care is Products) ==> gate_defined(
            #[trigger] front[i],
            base,
        )) && (care is All ==> gate_holds(front[i], base)) by {
            assert(front[i] == gates[i]);
        }
        lemma_expand_gates_sound(front, st, base, care);
        let s1 = expand_gates(front, st)->Ok_0;
        assert(gates.last() == gates[gates.len() - 1]);
        lemma_expand_gate_sound(gates.last(), s1, base, care);
    }
}

/// Where an assignment that has every entry of the expanded one satisfies
/// the constraints that the expansion of a list of gates has added, the
/// assignment `base` satisfies the gates.
pub proof fn lemma_expand_gates_reflect(
    gates: Seq<GateView>,
    st: Expansion,
    base: Map<WitnessID, FieldElement>,
    bigger: Map<WitnessID, FieldElement>,
)
    requires
        sound(st, Care::Defined),
        extends(base, st.assignment),
        forall|i: int| 0 <= i < gates.len() ==> gate_defined(#[trigger] gates[i], base),
        expand_gates(gates, st) is Ok,
        extends(expand_gates(gates, st)->Ok_0.assignment, bigger),
        forall|i: int|
            st.constraints.len() <= i < expand_gates(gates, st)->Ok_0.constraints.len()
                ==> constraint_holds(
                #[trigger] expand_gates(gates, st)->Ok_0.constraints[i],
                bigger,
            ),
    ensures
        forall|i: int| 0 <= i < gates.len() ==> gate_holds(#[trigger] gates[i], base),
    decreases gates.len(),
{
    if gates.len() > 0 {
        let front = gates.drop_last();
        let last = gates.last();
        let e = expand_gates(gates, st)->Ok_0;
        assert forall|i: int| 0 <= i < front.len() implies gate_defined(#[trigger] front[i], base) by {
            assert(front[i] == gates[i]);
        }
        assert(last == gates[gates.len() - 1]);
        lemma_expand_gates_sound(front, st, base, Care::Defined);
        let s1 = expand_gates(front, st)->Ok_0;
        lemma_expand_gate_sound(last, s1, base, Care::Defined);
        let closing = e.constraints.last();
        assert(closing == e.constraints[e.constraints.len() - 1]);
        assert(constraint_defined(closing, e.assignment));
        lemma_lc_value_extends(0, closing.a, e.assignment, bigger);
        lemma_lc_value_extends(0, closing.b, e.assignment, bigger);
        lemma_lc_value_extends(0, closing.c, e.assignment, bigger);
        assert(constraint_holds(closing, bigger));
        let products = expand_mul_terms(last.mul_terms, s1)->Ok_0.1;
        assert(closing == closing_constraint(gate_combination(products, last)));
        FieldElement::lemma_from_nat(1);
        lemma_single_term_value(0, closing.b[0], e.assignment);
        assert(closing.b =~= seq![closing.b[0]]);
        assert(lc_value(closing.c, e.assignment) == 0);
        let v = gate_value(last, base);
        assert(lc_value(closing.a, bigger) == v);
        assert(lc_value(closing.b, bigger) == 1);
        assert(field_mul(v, 1) == 0);
        assert(v < modulus());
        assert(v * 1 == v);
        assert(gate_holds(last, base));
        assert forall|i: int|
            st.constraints.len() <= i < s1.constraints.len() implies constraint_holds(
            #[trigger] s1.constraints[i],
            bigger,
        ) by {
            assert(s1.constraints[i] == e.constraints[i]);
        }
        lemma_expand_gates_reflect(front, st, base, bigger);
        assert forall|i: int| 0 <= i < gates.len() implies gate_holds(#[trigger] gates[i], base) by {
            if i < front.len() {
                assert(front[i] == gates[i]);
            }
        }
    }
}

/// Every bilinear constraint that the expansion of a list of gates emits
/// holds under the expanded assignment: the product of the values of its
/// two left-hand combinations is the value of its right-hand combination.
/// This is so for a solved assignment with reduced values whose identifiers
/// are below the number of its entries.
pub proof fn lemma_bilinear_constraints_hold(
    gates: Seq<GateView>,
    solved: Map<WitnessID, FieldElement>,
)
    requires
        assignment_wf(solved),
        dense(solved),
        expansion(gates, solved) is Ok,
    ensures
        ({
            let e = expansion(gates, solved)->Ok_0;
            forall|i: int|
                0 <= i < e.constraints.len() && e.constraints[i].c.len() != 0 ==> constraint_holds(
                    #[trigger] e.constraints[i],
                    e.assignment,
                )
        }),
{
    let start = Expansion {
        assignment: solved,
        num_witness: solved.len(),
        constraints: Seq::empty(),
    };
    lemma_expand_gates_sound(gates, start, solved, Care::Products);
}

/// Where the solved assignment satisfies every gate, the expanded
/// assignment satisfies every constraint that the expansion emits, the
/// closing ones included: there a gate's linear combination has the value
/// zero. This is so for a solved assignment with reduced values whose
/// identifiers are below the number of its entries and cover the gates.
pub proof fn lemma_expansion_keeps_satisfaction(
    gates: Seq<GateView>,
    solved: Map<WitnessID, FieldElement>,
)
    requires
        assignment_wf(solved),
        dense(solved),
        forall|i: int| 0 <= i < gates.len() ==> gate_defined(#[trigger] gates[i], solved),
        forall|i: int| 0 <= i < gates.len() ==> gate_holds(#[trigger] gates[i], solved),
        expansion(gates, solved) is Ok,
    ensures
        ({
            let e = expansion(gates, solved)->Ok_0;
            &&& extends(solved, e.assignment)
            &&& forall|i: int|
                0 <= i < e.constraints.len() ==> constraint_holds(
                    #[trigger] e.constraints[i],
                    e.assignment,
                )
        }),
{
    let start = Expansion {
        assignment: solved,
        num_witness: solved.len(),
        constraints: Seq::empty(),
    };
    lemma_expand_gates_sound(gates, start, solved, Care::All);
}

/// Where the expanded assignment satisfies every constraint that the
/// expansion emits, the solved assignment satisfies every gate. This is so
/// for a solved assignment with reduced values whose identifiers are below
/// the number of its entries and cover the gates.
pub proof fn lemma_expansion_reflects_satisfaction(
    gates: Seq<GateView>,
    solved: Map<WitnessID, FieldElement>,
)
    requires
        assignment_wf(solved),
        dense(solved),
        forall|i: int| 0 <= i < gates.len() ==> gate_defined(#[trigger] gates[i], solved),
        expansion(gates, solved) is Ok,
        forall|i: int|
            0 <= i < expansion(gates, solved)->Ok_0.constraints.len() ==> constraint_holds(
                #[trigger] expansion(gates, solved)->Ok_0.constraints[i],
                expansion(gates, solved)->Ok_0.assignment,
            ),
    ensures
        forall|i: int| 0 <= i < gates.len() ==> gate_holds(#[trigger] gates[i], solved),
{
    let start = Expansion {
        assignment: solved,
        num_witness: solved.len(),
        constraints: Seq::empty(),
    };
    lemma_expand_gates_reflect(gates, start, solved, expansion(gates, solved)->Ok_0.assignment);
}

} // verus!
