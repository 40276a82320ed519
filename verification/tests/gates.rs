use std::collections::HashMap;

use acvm::acir::native_types::{Witness as AcvmWitness, WitnessMap};
use ark_bn254::Fr;
use ark_ff::PrimeField;
use ark_relations::r1cs::{ConstraintSystem as ArkSystem, ConstraintSystemRef, SynthesisMode};
use constraint_counter::acir::{Expression, Opcode, Witness};
use constraint_counter::bridge::{allocate_variable, count_demand, AcirCircuitSonobe};
use constraint_counter::error::SynthesisError;
use constraint_counter::field::FieldElement;
use constraint_counter::r1cs::{ConstraintSystem, Variable};

fn fr(x: i64) -> Fr {
    if x >= 0 {
        Fr::from(x as u64)
    } else {
        -Fr::from((-x) as u64)
    }
}

fn fe(x: i64) -> FieldElement {
    FieldElement { limbs: fr(x).into_bigint().0 }
}

fn assignment(values: &[(u32, i64)]) -> WitnessMap {
    let mut map = WitnessMap::new();
    for (index, value) in values {
        map.insert(AcvmWitness(*index), acvm::FieldElement::from_repr(fr(*value)));
    }
    map
}

fn system(mode: SynthesisMode) -> ConstraintSystemRef<Fr> {
    let cs = ArkSystem::<Fr>::new_ref();
    cs.set_mode(mode);
    cs
}

fn prove() -> ConstraintSystem {
    ConstraintSystem { inner: system(SynthesisMode::Prove { construct_matrices: true }) }
}

fn setup() -> ConstraintSystem {
    ConstraintSystem { inner: system(SynthesisMode::Setup) }
}

/// `coeff * w0 * w1 + w2 + 2 == 0`
fn mock_gate(coeff: i64) -> Vec<Opcode> {
    vec![Opcode::AssertZero(Expression {
        mul_terms: vec![(fe(coeff), Witness(0), Witness(1))],
        linear_combinations: vec![(fe(1), Witness(2))],
        q_c: fe(2),
    })]
}

#[test]
fn satisfying_assignment_satisfies() {
    let opcodes = mock_gate(1);
    let circuit = AcirCircuitSonobe {
        opcodes: &opcodes,
        values: assignment(&[(0, 2), (1, 3), (2, -8)]),
        already_assigned_witnesses: HashMap::new(),
    };
    let mut cs = prove();
    assert_eq!(circuit.generate_constraints(&mut cs), Ok(()));
    assert_eq!(cs.inner.num_constraints(), 1);
    assert_eq!(cs.inner.num_witness_variables(), 4);
    assert_eq!(cs.inner.is_satisfied(), Ok(true));
}

#[test]
fn other_assignment_does_not_satisfy() {
    let opcodes = mock_gate(1);
    let circuit = AcirCircuitSonobe {
        opcodes: &opcodes,
        values: assignment(&[(0, 2), (1, 3), (2, -7)]),
        already_assigned_witnesses: HashMap::new(),
    };
    let mut cs = prove();
    assert_eq!(circuit.generate_constraints(&mut cs), Ok(()));
    assert_eq!(cs.inner.is_satisfied(), Ok(false));
}

#[test]
fn missing_value_fails_in_prove_mode_only() {
    let opcodes = mock_gate(1);
    let circuit = AcirCircuitSonobe {
        opcodes: &opcodes,
        values: assignment(&[(0, 2), (1, 3)]),
        already_assigned_witnesses: HashMap::new(),
    };
    let mut prove = prove();
    assert_eq!(circuit.generate_constraints(&mut prove), Err(SynthesisError::AssignmentMissing));
    assert_eq!(prove.inner.num_constraints(), 0);
    let mut setup = setup();
    assert_eq!(circuit.generate_constraints(&mut setup), Ok(()));
    assert_eq!(setup.inner.num_constraints(), 1);
    assert_eq!(setup.inner.num_witness_variables(), 4);
}

#[test]
fn setup_mode_needs_no_values_at_all() {
    let opcodes = mock_gate(1);
    let circuit = AcirCircuitSonobe {
        opcodes: &opcodes,
        values: WitnessMap::new(),
        already_assigned_witnesses: HashMap::new(),
    };
    let mut cs = setup();
    assert_eq!(circuit.generate_constraints(&mut cs), Ok(()));
    assert_eq!(cs.inner.num_constraints(), 1);
    let mut cs = prove();
    assert_eq!(circuit.generate_constraints(&mut cs), Err(SynthesisError::AssignmentMissing));
}

#[test]
fn auxiliary_variable_holds_the_value_of_the_term() {
    let opcodes = mock_gate(5);
    let circuit = AcirCircuitSonobe {
        opcodes: &opcodes,
        values: assignment(&[(0, 2), (1, 3), (2, -32)]),
        already_assigned_witnesses: HashMap::new(),
    };
    let mut cs = prove();
    assert_eq!(circuit.generate_constraints(&mut cs), Ok(()));
    let values = cs.inner.borrow().unwrap().witness_assignment.clone();
    assert_eq!(values, vec![fr(2), fr(3), fr(30), fr(-32)]);
    assert_eq!(cs.inner.is_satisfied(), Ok(true));
}

#[test]
fn the_constraint_is_one_times_the_accumulator() {
    let opcodes = mock_gate(1);
    let circuit = AcirCircuitSonobe {
        opcodes: &opcodes,
        values: assignment(&[(0, 2), (1, 3), (2, -8)]),
        already_assigned_witnesses: HashMap::new(),
    };
    let mut cs = prove();
    assert_eq!(circuit.generate_constraints(&mut cs), Ok(()));
    let matrices = cs.inner.to_matrices().unwrap();
    assert_eq!(matrices.a, vec![vec![(fr(1), 0)]]);
    // column 0 is the constant one; witness variable k is column 1 + k
    assert_eq!(matrices.b, vec![vec![(fr(2), 0), (fr(1), 3), (fr(1), 4)]]);
    assert_eq!(matrices.c, vec![Vec::<(Fr, usize)>::new()]);
}

#[test]
fn zero_coefficient_still_takes_its_variables() {
    let opcodes = vec![Opcode::AssertZero(Expression {
        mul_terms: vec![(fe(0), Witness(0), Witness(1))],
        linear_combinations: vec![(fe(0), Witness(2))],
        q_c: fe(0),
    })];
    let circuit = AcirCircuitSonobe {
        opcodes: &opcodes,
        values: assignment(&[(0, 2), (1, 3), (2, 9)]),
        already_assigned_witnesses: HashMap::new(),
    };
    let mut cs = prove();
    assert_eq!(circuit.generate_constraints(&mut cs), Ok(()));
    assert_eq!(cs.inner.num_witness_variables(), 4);
    let values = cs.inner.borrow().unwrap().witness_assignment.clone();
    assert_eq!(values, vec![fr(2), fr(3), fr(0), fr(9)]);
    assert_eq!(cs.inner.is_satisfied(), Ok(true));
}

#[test]
fn linear_gate_gives_a_linear_constraint() {
    let opcodes = vec![Opcode::AssertZero(Expression {
        mul_terms: vec![],
        linear_combinations: vec![(fe(3), Witness(7)), (fe(1), Witness(9))],
        q_c: fe(-10),
    })];
    let circuit = AcirCircuitSonobe {
        opcodes: &opcodes,
        values: assignment(&[(7, 2), (9, 4)]),
        already_assigned_witnesses: HashMap::new(),
    };
    let mut cs = prove();
    assert_eq!(circuit.generate_constraints(&mut cs), Ok(()));
    assert_eq!(cs.inner.num_witness_variables(), 2);
    assert_eq!(cs.inner.num_constraints(), 1);
    let matrices = cs.inner.to_matrices().unwrap();
    assert_eq!(matrices.b, vec![vec![(fr(-10), 0), (fr(3), 1), (fr(1), 2)]]);
    assert_eq!(cs.inner.is_satisfied(), Ok(true));
}

#[test]
fn other_instructions_leave_no_trace() {
    let mut opcodes = mock_gate(1);
    opcodes.insert(0, Opcode::Other);
    opcodes.push(Opcode::Other);
    opcodes.extend(mock_gate(1));
    let circuit = AcirCircuitSonobe {
        opcodes: &opcodes,
        values: assignment(&[(0, 2), (1, 3), (2, -8)]),
        already_assigned_witnesses: HashMap::new(),
    };
    let mut cs = prove();
    assert_eq!(circuit.generate_constraints(&mut cs), Ok(()));
    assert_eq!(cs.inner.num_constraints(), 2);
    // three witnesses resolved once, and one auxiliary variable per product
    assert_eq!(cs.inner.num_witness_variables(), 5);
    assert_eq!(cs.inner.is_satisfied(), Ok(true));
}

#[test]
fn two_passes_number_alike() {
    let opcodes = mock_gate(4);
    let circuit = AcirCircuitSonobe {
        opcodes: &opcodes,
        values: assignment(&[(0, 2), (1, 3), (2, -26)]),
        already_assigned_witnesses: HashMap::new(),
    };
    let mut first = prove();
    let mut second = prove();
    assert_eq!(circuit.generate_constraints(&mut first), Ok(()));
    assert_eq!(circuit.generate_constraints(&mut second), Ok(()));
    assert_eq!(first.inner.num_constraints(), second.inner.num_constraints());
    assert_eq!(first.inner.num_witness_variables(), second.inner.num_witness_variables());
    assert_eq!(first.inner.to_matrices(), second.inner.to_matrices());
    let mut shape = setup();
    assert_eq!(circuit.generate_constraints(&mut shape), Ok(()));
    assert_eq!(shape.inner.to_matrices(), first.inner.to_matrices());
}

#[test]
fn known_variables_are_reused() {
    let opcodes = vec![Opcode::AssertZero(Expression {
        mul_terms: vec![],
        linear_combinations: vec![(fe(1), Witness(0)), (fe(-1), Witness(1))],
        q_c: fe(0),
    })];
    let ark = system(SynthesisMode::Prove { construct_matrices: true });
    let state = ark.new_input_variable(|| Ok(fr(7))).unwrap();
    assert_eq!(state, ark_relations::r1cs::Variable::Instance(1));
    let mut known = HashMap::new();
    known.insert(0, Variable::Instance(1));
    let circuit = AcirCircuitSonobe {
        opcodes: &opcodes,
        values: assignment(&[(0, 7), (1, 7)]),
        already_assigned_witnesses: known,
    };
    let mut cs = ConstraintSystem { inner: ark };
    assert_eq!(circuit.generate_constraints(&mut cs), Ok(()));
    assert_eq!(cs.inner.num_instance_variables(), 2);
    assert_eq!(cs.inner.num_witness_variables(), 1);
    let matrices = cs.inner.to_matrices().unwrap();
    // column 1 is the caller's instance variable, column 2 the one fresh witness
    assert_eq!(matrices.b, vec![vec![(fr(1), 1), (fr(-1), 2)]]);
    assert_eq!(cs.inner.is_satisfied(), Ok(true));
}

#[test]
fn known_variable_needs_no_value() {
    let opcodes = vec![Opcode::AssertZero(Expression {
        mul_terms: vec![],
        linear_combinations: vec![(fe(1), Witness(0))],
        q_c: fe(-7),
    })];
    let ark = system(SynthesisMode::Prove { construct_matrices: true });
    ark.new_witness_variable(|| Ok(fr(7))).unwrap();
    let mut known = HashMap::new();
    known.insert(0, Variable::Witness(0));
    let circuit = AcirCircuitSonobe {
        opcodes: &opcodes,
        values: WitnessMap::new(),
        already_assigned_witnesses: known,
    };
    let mut cs = ConstraintSystem { inner: ark };
    assert_eq!(circuit.generate_constraints(&mut cs), Ok(()));
    assert_eq!(cs.inner.num_witness_variables(), 1);
    assert_eq!(cs.inner.is_satisfied(), Ok(true));
}

#[test]
fn allocation_is_idempotent() {
    let mut cs = prove();
    let mut table = HashMap::new();
    let first = allocate_variable(&mut table, Witness(12), Some(fe(5)), &mut cs);
    let second = allocate_variable(&mut table, Witness(12), Some(fe(6)), &mut cs);
    let third = allocate_variable(&mut table, Witness(3), Some(fe(6)), &mut cs);
    let fourth = allocate_variable(&mut table, Witness(12), None, &mut cs);
    assert_eq!(first, Ok(Variable::Witness(0)));
    assert_eq!(second, Ok(Variable::Witness(0)));
    assert_eq!(third, Ok(Variable::Witness(1)));
    assert_eq!(fourth, Ok(Variable::Witness(0)));
    assert_eq!(cs.inner.num_witness_variables(), 2);
    let values = cs.inner.borrow().unwrap().witness_assignment.clone();
    assert_eq!(values, vec![fr(5), fr(6)]);
    assert_eq!(table.len(), 2);
}

#[test]
fn allocation_without_a_value() {
    let mut table = HashMap::new();
    let mut cs = prove();
    let r = allocate_variable(&mut table, Witness(0), None, &mut cs);
    assert_eq!(r, Err(SynthesisError::AssignmentMissing));
    assert!(table.is_empty());
    let mut cs = setup();
    let r = allocate_variable(&mut table, Witness(0), None, &mut cs);
    assert_eq!(r, Ok(Variable::Witness(0)));
    assert_eq!(table.get(&0), Some(&Variable::Witness(0)));
}

#[test]
fn detached_handle_refuses() {
    let mut cs = ConstraintSystem { inner: ConstraintSystemRef::None };
    let mut table = HashMap::new();
    let r = allocate_variable(&mut table, Witness(0), Some(fe(1)), &mut cs);
    assert_eq!(r, Err(SynthesisError::MissingCS));
    let opcodes = mock_gate(1);
    let circuit = AcirCircuitSonobe {
        opcodes: &opcodes,
        values: assignment(&[(0, 2), (1, 3), (2, -8)]),
        already_assigned_witnesses: HashMap::new(),
    };
    assert_eq!(circuit.generate_constraints(&mut cs), Err(SynthesisError::MissingCS));
    let empty = Vec::new();
    let nothing = AcirCircuitSonobe {
        opcodes: &empty,
        values: WitnessMap::new(),
        already_assigned_witnesses: HashMap::new(),
    };
    assert_eq!(nothing.generate_constraints(&mut cs), Ok(()));
}

#[test]
fn constant_assertion_makes_no_variable() {
    let opcodes = vec![Opcode::AssertZero(Expression {
        mul_terms: vec![],
        linear_combinations: vec![],
        q_c: fe(2),
    })];
    let circuit = AcirCircuitSonobe {
        opcodes: &opcodes,
        values: WitnessMap::new(),
        already_assigned_witnesses: HashMap::new(),
    };
    let mut cs = ConstraintSystem::new(false);
    assert_eq!(cs.counts(), (1, 0, 0));
    assert_eq!(circuit.generate_constraints(&mut cs), Ok(()));
    assert_eq!(cs.counts(), (1, 0, 1));
    assert_eq!(cs.inner.is_satisfied(), Ok(false));
    let mut cs = ConstraintSystem::new(true);
    assert!(cs.inner.is_in_setup_mode());
    assert_eq!(circuit.generate_constraints(&mut cs), Ok(()));
    assert_eq!(cs.counts(), (1, 0, 1));
}

#[test]
fn a_pass_makes_one_variable_per_index_and_product() {
    // three distinct indices, one of them bound, and two products
    let opcodes = vec![
        Opcode::AssertZero(Expression {
            mul_terms: vec![(fe(1), Witness(0), Witness(1)), (fe(1), Witness(1), Witness(1))],
            linear_combinations: vec![(fe(1), Witness(2)), (fe(1), Witness(0))],
            q_c: fe(0),
        }),
        Opcode::Other,
    ];
    let ark = system(SynthesisMode::Prove { construct_matrices: true });
    ark.new_input_variable(|| Ok(fr(3))).unwrap();
    let mut known = HashMap::new();
    known.insert(2, Variable::Instance(1));
    let circuit = AcirCircuitSonobe {
        opcodes: &opcodes,
        values: assignment(&[(0, 1), (1, 2), (2, 3)]),
        already_assigned_witnesses: known,
    };
    let mut cs = ConstraintSystem { inner: ark };
    assert_eq!(cs.counts(), (2, 0, 0));
    assert_eq!(circuit.generate_constraints(&mut cs), Ok(()));
    assert_eq!(cs.counts(), (2, 4, 1));
    let values = cs.inner.borrow().unwrap().witness_assignment.clone();
    assert_eq!(values, vec![fr(1), fr(2), fr(2), fr(4)]);
}

#[test]
fn demand_counts_terms_and_assertions() {
    let mut opcodes = mock_gate(1);
    opcodes.push(Opcode::Other);
    opcodes.push(Opcode::AssertZero(Expression {
        mul_terms: vec![(fe(1), Witness(0), Witness(1)), (fe(1), Witness(0), Witness(0))],
        linear_combinations: vec![],
        q_c: fe(0),
    }));
    assert_eq!(count_demand(&opcodes), Some((10, 2)));
    assert_eq!(count_demand(&Vec::new()), Some((0, 0)));
}

#[test]
fn room_is_counted_against_the_counters() {
    let opcodes = mock_gate(1);
    let circuit = AcirCircuitSonobe {
        opcodes: &opcodes,
        values: WitnessMap::new(),
        already_assigned_witnesses: HashMap::new(),
    };
    let cs = setup();
    assert!(circuit.has_room(&cs));
    assert!(cs.has_room(usize::MAX, usize::MAX / 3));
    assert!(!cs.has_room(usize::MAX, usize::MAX / 3 + 1));
    cs.inner.borrow_mut().unwrap().num_witness_variables = usize::MAX - 3;
    assert!(!circuit.has_room(&cs));
    assert!(cs.has_room(3, 0));
    assert!(!cs.has_room(4, 0));
    cs.inner.borrow_mut().unwrap().num_witness_variables = usize::MAX - 4;
    assert!(circuit.has_room(&cs));
    cs.inner.borrow_mut().unwrap().num_constraints = usize::MAX;
    assert!(!circuit.has_room(&cs));
    assert!(!cs.has_room(0, 1));
    cs.inner.borrow_mut().unwrap().num_constraints = 0;
    cs.inner.borrow_mut().unwrap().num_linear_combinations = usize::MAX - 2;
    assert!(!circuit.has_room(&cs));
    cs.inner.borrow_mut().unwrap().num_linear_combinations = usize::MAX - 3;
    assert!(circuit.has_room(&cs));
}
