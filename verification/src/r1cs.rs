use crate::field::FieldElement;
use crate::field::field_add;
use crate::field::field_mul;
use crate::witness::WitnessID;
use vstd::prelude::*;

verus! {

/// One term of a linear combination: a coefficient times a variable, or a
/// constant.
#[derive(Clone, Copy, Debug, PartialEq, Eq, Structural)]
pub enum Term {
    LC { coefficient: FieldElement, var_id: WitnessID },
    Const(FieldElement),
}

/// A linear combination: the sum of its terms.
#[derive(Debug, PartialEq, Eq)]
pub struct LC(pub Vec<Term>);

impl View for LC {
    type V = Seq<Term>;

    open spec fn view(&self) -> Seq<Term> {
        self.0@
    }
}

impl Clone for LC {
    fn clone(&self) -> (r: Self)
        ensures
            r@ == self@,
    {
        let r = LC(self.0.clone());
        assert(r@ =~= self@);
        r
    }
}

impl LC {
    /// The combination without terms, which stands for zero.
    pub fn new() -> (r: LC)
        ensures
            r@ == Seq::<Term>::empty(),
    {
        LC(Vec::new())
    }

    /// The combination of one term.
    pub fn single(term: Term) -> (r: LC)
        ensures
            r@ == seq![term],
    {
        let mut terms: Vec<Term> = Vec::new();
        terms.push(term);
        assert(terms@ =~= seq![term]);
        LC(terms)
    }
}

/// A rank-1 constraint: the product of `a` and `b` equals `c`.
#[derive(Debug, PartialEq, Eq)]
pub struct R1CSConstraint {
    pub a: LC,
    pub b: LC,
    pub c: LC,
}

/// What a rank-1 constraint says: three sequences of terms.
pub struct ConstraintView {
    pub a: Seq<Term>,
    pub b: Seq<Term>,
    pub c: Seq<Term>,
}

impl View for R1CSConstraint {
    type V = ConstraintView;

    open spec fn view(&self) -> ConstraintView {
        ConstraintView { a: self.a@, b: self.b@, c: self.c@ }
    }
}

impl Clone for R1CSConstraint {
    fn clone(&self) -> (r: Self)
        ensures
            r@ == self@,
    {
        R1CSConstraint { a: self.a.clone(), b: self.b.clone(), c: self.c.clone() }
    }
}

/// What a list of constraints says.
pub open spec fn constraints_view(cs: Seq<R1CSConstraint>) -> Seq<ConstraintView> {
    Seq::new(cs.len(), |i: int| cs[i]@)
}

/// The value of a term under an assignment.
pub open spec fn term_value(t: Term, w: Map<WitnessID, FieldElement>) -> nat {
    match t {
        Term::LC { coefficient, var_id } => field_mul(coefficient@, w[var_id]@),
        Term::Const(c) => field_mul(c@, 1),
    }
}

/// The sum of `init` and the terms of a linear combination, taken in order,
/// under an assignment.
pub open spec fn lc_value_from(init: nat, lc: Seq<Term>, w: Map<WitnessID, FieldElement>) -> nat
    decreases lc.len(),
{
    if lc.len() == 0 {
        init
    } else {
        field_add(lc_value_from(init, lc.drop_last(), w), term_value(lc.last(), w))
    }
}

/// The value of a linear combination under an assignment.
pub open spec fn lc_value(lc: Seq<Term>, w: Map<WitnessID, FieldElement>) -> nat {
    lc_value_from(0, lc, w)
}

/// Whether every variable of a linear combination has a value.
pub open spec fn lc_defined(lc: Seq<Term>, w: Map<WitnessID, FieldElement>) -> bool {
    forall|i: int|
        0 <= i < lc.len() ==> match #[trigger] lc[i] {
            Term::LC { coefficient, var_id } => w.contains_key(var_id),
            Term::Const(_) => true,
        }
}

/// Whether an assignment satisfies a rank-1 constraint.
pub open spec fn constraint_holds(c: ConstraintView, w: Map<WitnessID, FieldElement>) -> bool {
    field_mul(lc_value(c.a, w), lc_value(c.b, w)) == lc_value(c.c, w)
}

} // verus!
