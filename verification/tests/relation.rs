use rust_zkp::circuit::{
    Circuit, Constraint, ConstraintSystem, SynthesisMode, Term, Variable,
};
use rust_zkp::error::SynthesisError;
use rust_zkp::field::FieldElement;

fn fe(x: u64) -> FieldElement {
    FieldElement::from_u64(x)
}

fn single(var: Variable) -> Vec<Term> {
    vec![Term { coeff: fe(1), var }]
}

#[test]
fn assignment_has_the_product_as_public_value() {
    let c = Circuit::assignment(4, 2);
    assert_eq!(c.a, Some(fe(4)));
    assert_eq!(c.b, Some(fe(2)));
    assert_eq!(c.c, Some(fe(8)));
    assert_eq!(c.public_input(), Some(vec![fe(8)]));
}

#[test]
fn assignment_does_not_wrap() {
    let c = Circuit::assignment(u32::MAX, u32::MAX);
    assert_eq!(c.c, Some(fe(0xffff_fffe_0000_0001)));
    let d = Circuit::assignment(65536, 65536);
    assert_eq!(d.c, Some(fe(1 << 32)));
}

#[test]
fn from_witness_multiplies_in_the_field() {
    let c = Circuit::from_witness(fe(6), fe(7));
    assert_eq!(c.c, Some(fe(42)));
    assert_eq!(c, Circuit::assignment(6, 7));
}

#[test]
fn topology_has_no_values() {
    let t = Circuit::topology();
    assert_eq!(t, Circuit { a: None, b: None, c: None });
    assert_eq!(t.public_input(), None);
}

#[test]
fn new_system_holds_the_constant_alone() {
    let cs = ConstraintSystem::new(SynthesisMode::Prove);
    assert_eq!(cs.instance, vec![Some(fe(1))]);
    assert!(cs.witness.is_empty());
    assert!(cs.constraints.is_empty());
    assert_eq!(cs.is_satisfied(), Ok(true));
    assert_eq!(
        ConstraintSystem::new(SynthesisMode::Setup).is_satisfied(),
        Err(SynthesisError::AssignmentMissing)
    );
}

#[test]
fn synthesis_allocates_two_witnesses_then_one_input() {
    let mut cs = ConstraintSystem::new(SynthesisMode::Prove);
    assert_eq!(Circuit::assignment(4, 2).synthesize(&mut cs), Ok(()));
    assert_eq!(cs.witness, vec![Some(fe(4)), Some(fe(2))]);
    assert_eq!(cs.instance, vec![Some(fe(1)), Some(fe(8))]);
    assert_eq!(
        cs.constraints,
        vec![Constraint {
            a: single(Variable::Witness(0)),
            b: single(Variable::Witness(1)),
            c: single(Variable::Instance(1)),
        }]
    );
    assert_eq!(cs.is_satisfied(), Ok(true));
}

#[test]
fn synthesis_for_setup_records_no_value() {
    let mut setup = ConstraintSystem::new(SynthesisMode::Setup);
    assert_eq!(Circuit::topology().synthesize(&mut setup), Ok(()));
    assert_eq!(setup.witness, vec![None, None]);
    assert_eq!(setup.instance, vec![Some(fe(1)), None]);
    assert_eq!(setup.constraints.len(), 1);

    let mut with_values = ConstraintSystem::new(SynthesisMode::Setup);
    assert_eq!(Circuit::assignment(4, 2).synthesize(&mut with_values), Ok(()));
    assert_eq!(with_values, setup);
}

#[test]
fn setup_and_proving_give_one_shape() {
    let mut setup = ConstraintSystem::new(SynthesisMode::Setup);
    Circuit::topology().synthesize(&mut setup).unwrap();
    let mut prove = ConstraintSystem::new(SynthesisMode::Prove);
    Circuit::assignment(9, 9).synthesize(&mut prove).unwrap();
    assert_eq!(setup.constraints, prove.constraints);
    assert_eq!(setup.witness.len(), prove.witness.len());
    assert_eq!(setup.instance.len(), prove.instance.len());
}

#[test]
fn missing_value_fails_and_changes_nothing() {
    for broken in [
        Circuit { a: None, b: Some(fe(2)), c: Some(fe(8)) },
        Circuit { a: Some(fe(4)), b: None, c: Some(fe(8)) },
        Circuit { a: Some(fe(4)), b: Some(fe(2)), c: None },
        Circuit::topology(),
    ] {
        let mut cs = ConstraintSystem::new(SynthesisMode::Prove);
        assert_eq!(broken.synthesize(&mut cs), Err(SynthesisError::AssignmentMissing));
        assert_eq!(cs, ConstraintSystem::new(SynthesisMode::Prove));
    }
}

#[test]
fn second_synthesis_continues_the_numbering() {
    let mut cs = ConstraintSystem::new(SynthesisMode::Prove);
    Circuit::assignment(4, 2).synthesize(&mut cs).unwrap();
    Circuit::assignment(3, 5).synthesize(&mut cs).unwrap();
    assert_eq!(cs.witness.len(), 4);
    assert_eq!(cs.instance.len(), 3);
    assert_eq!(cs.constraints[1].a, single(Variable::Witness(2)));
    assert_eq!(cs.constraints[1].b, single(Variable::Witness(3)));
    assert_eq!(cs.constraints[1].c, single(Variable::Instance(2)));
    assert_eq!(cs.is_satisfied(), Ok(true));
}

#[test]
fn wrong_product_is_not_satisfied() {
    let mut cs = ConstraintSystem::new(SynthesisMode::Prove);
    let wrong = Circuit { a: Some(fe(4)), b: Some(fe(2)), c: Some(fe(9)) };
    wrong.synthesize(&mut cs).unwrap();
    assert_eq!(cs.is_satisfied(), Ok(false));
}

#[test]
fn sums_are_evaluated_term_by_term() {
    let mut cs = ConstraintSystem::new(SynthesisMode::Prove);
    Circuit::assignment(4, 2).synthesize(&mut cs).unwrap();
    let terms = vec![
        Term { coeff: fe(3), var: Variable::Witness(0) },
        Term { coeff: fe(5), var: Variable::Witness(1) },
        Term { coeff: fe(7), var: Variable::One },
        Term { coeff: fe(1), var: Variable::Instance(1) },
    ];
    assert_eq!(cs.evaluate(&terms), Some(fe(3 * 4 + 5 * 2 + 7 + 8)));
    assert_eq!(cs.evaluate(&vec![]), Some(fe(0)));
    assert_eq!(cs.assigned_value(Variable::Instance(0)), Some(fe(1)));
    assert_eq!(cs.assigned_value(Variable::Witness(1)), Some(fe(2)));
    assert_eq!(cs.assigned_value(Variable::Witness(2)), None);
    let dangling = vec![Term { coeff: fe(1), var: Variable::Witness(7) }];
    assert_eq!(cs.evaluate(&dangling), None);
}

#[test]
fn constraint_on_a_missing_variable_is_an_error() {
    let mut cs = ConstraintSystem::new(SynthesisMode::Prove);
    Circuit::assignment(4, 2).synthesize(&mut cs).unwrap();
    cs.constraints.push(Constraint {
        a: single(Variable::Witness(5)),
        b: single(Variable::One),
        c: single(Variable::One),
    });
    assert_eq!(cs.is_satisfied(), Err(SynthesisError::AssignmentMissing));

    let mut earlier = ConstraintSystem::new(SynthesisMode::Prove);
    Circuit { a: Some(fe(4)), b: Some(fe(2)), c: Some(fe(9)) }.synthesize(&mut earlier).unwrap();
    earlier.constraints.push(Constraint {
        a: single(Variable::Witness(5)),
        b: single(Variable::One),
        c: single(Variable::One),
    });
    assert_eq!(earlier.is_satisfied(), Ok(false));
}
