//! The relation `a * b = c` as a rank-1 constraint system: two witness
//! variables, one public input and one constraint.

use crate::error::SynthesisError;
use crate::field::{scalar_modulus, FieldElement};
use vstd::prelude::*;

verus! {

/// What a constraint system is filled for.
#[derive(Clone, Copy, Debug, PartialEq, Eq, Structural)]
pub enum SynthesisMode {
    /// Only the shape is recorded: no variable gets a value.
    Setup,
    /// Every variable gets a value.
    Prove,
}

/// A variable of a constraint system.
#[derive(Clone, Copy, Debug, PartialEq, Eq, Structural)]
pub enum Variable {
    /// The constant one.
    One,
    /// The public variable with the given index; index 0 is the constant one.
    Instance(usize),
    /// The private variable with the given index.
    Witness(usize),
}

/// A variable times a coefficient.
#[derive(Clone, Copy, Debug, PartialEq, Eq, Structural)]
pub struct Term {
    pub coeff: FieldElement,
    pub var: Variable,
}

/// A rank-1 constraint: the sum of the terms of `a` times the sum of the
/// terms of `b` is the sum of the terms of `c`.
#[derive(Clone, Debug, PartialEq, Eq)]
pub struct Constraint {
    pub a: Vec<Term>,
    pub b: Vec<Term>,
    pub c: Vec<Term>,
}

/// A constraint as a value of the model.
pub struct ConstraintView {
    pub a: Seq<Term>,
    pub b: Seq<Term>,
    pub c: Seq<Term>,
}

impl View for Constraint {
    type V = ConstraintView;

    /// The three sums as sequences of terms.
    open spec fn view(&self) -> ConstraintView {
        ConstraintView { a: self.a@, b: self.b@, c: self.c@ }
    }
}

/// A constraint system: its variables in the order in which they were
/// allocated, each with its value where it has one, and its constraints.
#[derive(Clone, Debug, PartialEq, Eq)]
pub struct ConstraintSystem {
    pub mode: SynthesisMode,
    /// The public variables. The first is the constant one.
    pub instance: Vec<Option<FieldElement>>,
    /// The private variables.
    pub witness: Vec<Option<FieldElement>>,
    pub constraints: Vec<Constraint>,
}

/// A constraint system as a value of the model.
pub struct ConstraintSystemView {
    pub mode: SynthesisMode,
    pub instance: Seq<Option<FieldElement>>,
    pub witness: Seq<Option<FieldElement>>,
    pub constraints: Seq<ConstraintView>,
}

impl View for ConstraintSystem {
    type V = ConstraintSystemView;

    /// The variables and the constraints as sequences.
    open spec fn view(&self) -> ConstraintSystemView {
        ConstraintSystemView {
            mode: self.mode,
            instance: self.instance@,
            witness: self.witness@,
            constraints: Seq::new(self.constraints@.len(), |i: int| self.constraints@[i]@),
        }
    }
}

/// The shape of a constraint system: what a key is bound to.
pub struct Topology {
    pub instance: nat,
    pub witness: nat,
    pub constraints: Seq<ConstraintView>,
}

/// The field element one.
pub open spec fn one() -> FieldElement {
    FieldElement { repr: crate::bigint::U256 { w0: 1, w1: 0, w2: 0, w3: 0 } }
}

/// The sum that consists of one variable, taken once.
pub open spec fn single(var: Variable) -> Seq<Term> {
    seq![Term { coeff: one(), var }]
}

impl ConstraintSystemView {
    /// The system without variables and constraints, but for the constant.
    pub open spec fn empty(mode: SynthesisMode) -> ConstraintSystemView {
        ConstraintSystemView {
            mode,
            instance: seq![Some(one())],
            witness: Seq::empty(),
            constraints: Seq::empty(),
        }
    }

    /// The numbers of variables and the constraints.
    pub open spec fn topology(self) -> Topology {
        Topology {
            instance: self.instance.len(),
            witness: self.witness.len(),
            constraints: self.constraints,
        }
    }

    /// The value that a slot gets in this system: none while only the shape
    /// is recorded.
    pub open spec fn recorded(self, slot: Option<FieldElement>) -> Option<FieldElement> {
        match self.mode {
            SynthesisMode::Setup => None,
            SynthesisMode::Prove => slot,
        }
    }

    /// The value of a variable, if it has one.
    pub open spec fn value_of(self, var: Variable) -> Option<FieldElement> {
        match var {
            Variable::One => Some(one()),
            Variable::Instance(i) => if i < self.instance.len() {
                self.instance[i as int]
            } else {
                None
            },
            Variable::Witness(i) => if i < self.witness.len() {
                self.witness[i as int]
            } else {
                None
            },
        }
    }
}

/// The circuit of the relation: the two private factors and their public
/// product, each with its value or without.
#[derive(Clone, Copy, Debug, PartialEq, Eq, Structural)]
pub struct Circuit {
    pub a: Option<FieldElement>,
    pub b: Option<FieldElement>,
    pub c: Option<FieldElement>,
}

impl Circuit {
    /// Whether a value is missing that synthesis in this mode needs.
    pub open spec fn lacks_value(self, mode: SynthesisMode) -> bool {
        mode == SynthesisMode::Prove && (self.a is None || self.b is None || self.c is None)
    }

    /// The system after the circuit was synthesized into `cs`: two more
    /// witness variables, for `a` and `b` in this order, one more public
    /// variable, for `c`, and one more constraint, `a * b = c`.
    pub open spec fn synthesized(self, cs: ConstraintSystemView) -> ConstraintSystemView {
        ConstraintSystemView {
            mode: cs.mode,
            instance: cs.instance.push(cs.recorded(self.c)),
            witness: cs.witness.push(cs.recorded(self.a)).push(cs.recorded(self.b)),
            constraints: cs.constraints.push(
                ConstraintView {
                    a: single(Variable::Witness(cs.witness.len() as usize)),
                    b: single(Variable::Witness((cs.witness.len() + 1) as usize)),
                    c: single(Variable::Instance(cs.instance.len() as usize)),
                },
            ),
        }
    }

    /// The circuit without values, which fixes the shape alone.
    pub fn topology() -> (r: Circuit)
        ensures
            r == (Circuit { a: None, b: None, c: None }),
    {
        Circuit { a: None, b: None, c: None }
    }

    /// The circuit for the factors `a` and `b`, with their product in the
    /// field as the public value.
    pub fn from_witness(a: FieldElement, b: FieldElement) -> (r: Circuit)
        ensures
            r.a == Some(a),
            r.b == Some(b),
            r.c matches Some(c) && c@ == (a@ * b@) % scalar_modulus() && c.valid(),
    {
        Circuit { a: Some(a), b: Some(b), c: Some(a.mul(&b)) }
    }

    /// The circuit for two 32-bit factors, with their product as the public
    /// value.
    pub fn assignment(a: u32, b: u32) -> (r: Circuit)
        ensures
            r.a matches Some(x) && x@ == a && x.valid(),
            r.b matches Some(y) && y@ == b && y.valid(),
            r.c matches Some(z) && z@ == a * b && z.valid(),
    {
        let wide_a: u64 = a as u64;
        let wide_b: u64 = b as u64;
        assert(wide_a * wide_b <= 0xffff_ffff * 0xffff_ffff) by (nonlinear_arith)
            requires
                wide_a <= 0xffff_ffff,
                wide_b <= 0xffff_ffff,
        ;
        Circuit {
            a: Some(FieldElement::from_u32(a)),
            b: Some(FieldElement::from_u32(b)),
            c: Some(FieldElement::from_u64(wide_a * wide_b)),
        }
    }

    /// The public inputs of the circuit: its public value, if it has one.
    pub fn public_input(&self) -> (r: Option<Vec<FieldElement>>)
        ensures
            match self.c {
                Some(c) => r matches Some(v) && v@ == seq![c],
                None => r is None,
            },
    {
        match self.c {
            Some(c) => {
                let mut v: Vec<FieldElement> = Vec::new();
                v.push(c);
                assert(v@ =~= seq![c]);
                Some(v)
            },
            None => None,
        }
    }

    /// Synthesizes the circuit into `cs`. Where the system records values
    /// and one is missing, nothing is changed and the error says so.
    pub fn synthesize(self, cs: &mut ConstraintSystem) -> (r: Result<(), SynthesisError>)
        ensures
            self.lacks_value(old(cs)@.mode) ==> r == Err::<(), SynthesisError>(
                SynthesisError::AssignmentMissing,
            ) && final(cs)@ == old(cs)@,
            !self.lacks_value(old(cs)@.mode) ==> r is Ok && final(cs)@ == self.synthesized(
                old(cs)@,
            ),
    {
        let recording = match cs.mode {
            SynthesisMode::Setup => false,
            SynthesisMode::Prove => true,
        };
        if recording && (self.a.is_none() || self.b.is_none() || self.c.is_none()) {
            return Err(SynthesisError::AssignmentMissing);
        }
        let first: usize = cs.witness.len();
        let public: usize = cs.instance.len();
        let unit = FieldElement::from_u64(1);
        let ghost before = cs@;
        if recording {
            cs.witness.push(self.a);
            cs.witness.push(self.b);
            cs.instance.push(self.c);
        } else {
            cs.witness.push(None);
            cs.witness.push(None);
            cs.instance.push(None);
        }
        let second: usize = cs.witness.len() - 1;
        let mut a: Vec<Term> = Vec::new();
        a.push(Term { coeff: unit, var: Variable::Witness(first) });
        let mut b: Vec<Term> = Vec::new();
        b.push(Term { coeff: unit, var: Variable::Witness(second) });
        let mut c: Vec<Term> = Vec::new();
        c.push(Term { coeff: unit, var: Variable::Instance(public) });
        cs.constraints.push(Constraint { a, b, c });
        proof {
            let after = self.synthesized(before);
            assert(a@ =~= single(Variable::Witness(first)));
            assert(b@ =~= single(Variable::Witness(second)));
            assert(c@ =~= single(Variable::Instance(public)));
            assert(cs@.constraints =~= after.constraints);
            assert(cs@.witness =~= after.witness);
            assert(cs@.instance =~= after.instance);
        }
        Ok(())
    }
}

/// The value of a sum of terms in the field, if each of its variables has a
/// value.
pub open spec fn sum_value(cs: ConstraintSystemView, terms: Seq<Term>) -> Option<nat>
    decreases terms.len(),
{
    if terms.len() == 0 {
        Some(0)
    } else {
        match (sum_value(cs, terms.drop_last()), cs.value_of(terms.last().var)) {
            (Some(s), Some(v)) => Some(
                (s + (terms.last().coeff@ * v@) % scalar_modulus()) % scalar_modulus(),
            ),
            _ => None,
        }
    }
}

/// Whether a constraint holds, if each of its variables has a value.
pub open spec fn constraint_holds(cs: ConstraintSystemView, k: ConstraintView) -> Option<bool> {
    match (sum_value(cs, k.a), sum_value(cs, k.b), sum_value(cs, k.c)) {
        (Some(a), Some(b), Some(c)) => Some((a * b) % scalar_modulus() == c),
        _ => None,
    }
}

/// Whether the first `n` constraints hold. The answer is `Ok(false)` at the
/// first that does not hold, and an error at the first that has a variable
/// without a value, whichever comes first.
pub open spec fn holds_up_to(cs: ConstraintSystemView, n: nat) -> Result<bool, SynthesisError>
    decreases n,
{
    if n == 0 {
        Ok(true)
    } else {
        match holds_up_to(cs, (n - 1) as nat) {
            Ok(true) => match constraint_holds(cs, cs.constraints[n - 1]) {
                Some(held) => Ok(held),
                None => Err(SynthesisError::AssignmentMissing),
            },
            other => other,
        }
    }
}

/// Whether the values of a system satisfy its constraints. A system that
/// records no values gives an error.
pub open spec fn satisfaction(cs: ConstraintSystemView) -> Result<bool, SynthesisError> {
    match cs.mode {
        SynthesisMode::Setup => Err(SynthesisError::AssignmentMissing),
        SynthesisMode::Prove => holds_up_to(cs, cs.constraints.len()),
    }
}

impl ConstraintSystem {
    /// The value of a variable, if it has one.
    pub fn assigned_value(&self, var: Variable) -> (r: Option<FieldElement>)
        ensures
            r == self@.value_of(var),
    {
        match var {
            Variable::One => Some(FieldElement::from_u64(1)),
            Variable::Instance(i) => if i < self.instance.len() {
                self.instance[i]
            } else {
                None
            },
            Variable::Witness(i) => if i < self.witness.len() {
                self.witness[i]
            } else {
                None
            },
        }
    }

    /// The value of a sum of terms, if each of its variables has a value.
    pub fn evaluate(&self, terms: &Vec<Term>) -> (r: Option<FieldElement>)
        ensures
            match sum_value(self@, terms@) {
                Some(v) => r matches Some(x) && x@ == v,
                None => r is None,
            },
    {
        let mut acc = FieldElement::from_u64(0);
        let mut i: usize = 0;
        while i < terms.len()
            invariant
                i <= terms@.len(),
                sum_value(self@, terms@.take(i as int)) == Some(acc@),
            decreases terms@.len() - i,
        {
            proof {
                let next = terms@.take(i + 1);
                assert(next.drop_last() =~= terms@.take(i as int));
                assert(next.last() == terms@[i as int]);
            }
            match self.assigned_value(terms[i].var) {
                Some(v) => {
                    acc = acc.add(&terms[i].coeff.mul(&v));
                },
                None => {
                    proof {
                        lemma_sum_missing(self@, terms@, (i + 1) as nat);
                    }
                    return None;
                },
            }
            i += 1;
        }
        proof {
            assert(terms@.take(terms@.len() as int) =~= terms@);
        }
        Some(acc)
    }

    /// Whether the values of the system satisfy its constraints.
    pub fn is_satisfied(&self) -> (r: Result<bool, SynthesisError>)
        ensures
            r == satisfaction(self@),
    {
        match self.mode {
            SynthesisMode::Setup => {
                return Err(SynthesisError::AssignmentMissing);
            },
            SynthesisMode::Prove => {},
        }
        let mut i: usize = 0;
        while i < self.constraints.len()
            invariant
                i <= self.constraints@.len(),
                self.mode == SynthesisMode::Prove,
                holds_up_to(self@, i as nat) == Ok::<bool, SynthesisError>(true),
            decreases self.constraints@.len() - i,
        {
            let k = &self.constraints[i];
            assert(self@.constraints[i as int] == k@);
            let held = match (self.evaluate(&k.a), self.evaluate(&k.b), self.evaluate(&k.c)) {
                (Some(a), Some(b), Some(c)) => {
                    let product = a.mul(&b);
                    proof {
                        crate::bigint::lemma_order(product.repr, c.repr);
                    }
                    Some(product.repr == c.repr)
                },
                _ => None,
            };
            assert(held == constraint_holds(self@, k@));
            match held {
                Some(true) => {},
                Some(false) => {
                    proof {
                        lemma_holds_stops(self@, (i + 1) as nat, self@.constraints.len());
                    }
                    return Ok(false);
                },
                None => {
                    proof {
                        lemma_holds_stops(self@, (i + 1) as nat, self@.constraints.len());
                    }
                    return Err(SynthesisError::AssignmentMissing);
                },
            }
            i += 1;
        }
        Ok(true)
    }

    /// A system with the constant alone.
    pub fn new(mode: SynthesisMode) -> (r: ConstraintSystem)
        ensures
            r@ == ConstraintSystemView::empty(mode),
    {
        let mut instance: Vec<Option<FieldElement>> = Vec::new();
        instance.push(Some(FieldElement::from_u64(1)));
        let r = ConstraintSystem {
            mode,
            instance,
            witness: Vec::new(),
            constraints: Vec::new(),
        };
        proof {
            assert(r@.instance =~= seq![Some(one())]);
            assert(r@.witness =~= Seq::<Option<FieldElement>>::empty());
            assert(r@.constraints =~= Seq::<ConstraintView>::empty());
        }
        r
    }
}

/// A sum whose first `k` terms have no value has none.
pub proof fn lemma_sum_missing(cs: ConstraintSystemView, terms: Seq<Term>, k: nat)
    requires
        k <= terms.len(),
        sum_value(cs, terms.take(k as int)) is None,
    ensures
        sum_value(cs, terms) is None,
    decreases terms.len() - k,
{
    if k < terms.len() {
        let next = terms.take((k + 1) as int);
        assert(next.drop_last() =~= terms.take(k as int));
        lemma_sum_missing(cs, terms, k + 1);
    } else {
        assert(terms.take(k as int) =~= terms);
    }
}

/// The value of a sum is reduced.
pub proof fn lemma_sum_reduced(cs: ConstraintSystemView, terms: Seq<Term>)
    ensures
        sum_value(cs, terms) matches Some(v) ==> v < scalar_modulus(),
    decreases terms.len(),
{
    if terms.len() > 0 {
        lemma_sum_reduced(cs, terms.drop_last());
    }
}

/// Once the first `k` constraints are found not to hold, or not to have
/// their values, the answer for the first `n` is the same.
pub proof fn lemma_holds_stops(cs: ConstraintSystemView, k: nat, n: nat)
    requires
        k <= n,
        holds_up_to(cs, k) != Ok::<bool, SynthesisError>(true),
    ensures
        holds_up_to(cs, n) == holds_up_to(cs, k),
    decreases n - k,
{
    if k < n {
        lemma_holds_stops(cs, k, (n - 1) as nat);
    }
}

/// The value of a sum of one variable, taken once, is the value of the
/// variable, reduced.
pub proof fn lemma_single_value(cs: ConstraintSystemView, var: Variable)
    ensures
        sum_value(cs, single(var)) == match cs.value_of(var) {
            Some(v) => Some(v@ % scalar_modulus()),
            None => None,
        },
{
    let terms = single(var);
    assert(terms.len() == 1);
    assert(terms.last() == Term { coeff: one(), var });
    assert(terms.drop_last() =~= Seq::<Term>::empty());
    assert(sum_value(cs, terms.drop_last()) == Some(0nat));
    assert(one()@ == 1);
    if let Some(v) = cs.value_of(var) {
        let m = scalar_modulus();
        assert(1 * v@ == v@);
        vstd::arithmetic::div_mod::lemma_mod_twice(v@ as int, m as int);
    }
}

/// The system made from a circuit with its three values is satisfied
/// exactly when the public value is the product of the two factors in the
/// field.
pub proof fn lemma_satisfied_by_product(a: FieldElement, b: FieldElement, c: FieldElement)
    ensures
        satisfaction(
            (Circuit { a: Some(a), b: Some(b), c: Some(c) }).synthesized(
                ConstraintSystemView::empty(SynthesisMode::Prove),
            ),
        ) == Ok::<bool, SynthesisError>(
            (a@ * b@) % scalar_modulus() == c@ % scalar_modulus(),
        ),
{
    let circuit = Circuit { a: Some(a), b: Some(b), c: Some(c) };
    let cs = circuit.synthesized(ConstraintSystemView::empty(SynthesisMode::Prove));
    let m = scalar_modulus();
    let k = cs.constraints[0];
    assert(cs.constraints.len() == 1);
    assert(cs.witness.len() == 2 && cs.instance.len() == 2);
    assert(cs.witness[0] == Some(a) && cs.witness[1] == Some(b) && cs.instance[1] == Some(c));
    lemma_single_value(cs, Variable::Witness(0));
    lemma_single_value(cs, Variable::Witness(1));
    lemma_single_value(cs, Variable::Instance(1));
    assert(k.a == single(Variable::Witness(0)));
    assert(k.b == single(Variable::Witness(1)));
    assert(k.c == single(Variable::Instance(1)));
    vstd::arithmetic::div_mod::lemma_mul_mod_noop_general(a@ as int, b@ as int, m as int);
    assert(constraint_holds(cs, k) == Some((a@ * b@) % m == c@ % m));
    assert(holds_up_to(cs, 0) == Ok::<bool, SynthesisError>(true));
    assert(holds_up_to(cs, 1) == Ok::<bool, SynthesisError>((a@ * b@) % m == c@ % m));
}

/// The shape that synthesis gives does not depend on the values of the
/// circuit nor on the mode: a key made from the circuit without values fits
/// the circuit with values.
pub proof fn lemma_same_topology(
    shape: Circuit,
    filled: Circuit,
    setup: ConstraintSystemView,
    prove: ConstraintSystemView,
)
    requires
        setup.topology() == prove.topology(),
    ensures
        shape.synthesized(setup).topology() == filled.synthesized(prove).topology(),
{
}

} // verus!
