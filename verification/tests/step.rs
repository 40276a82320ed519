use std::collections::BTreeSet;

use acvm::acir::circuit::brillig::BrilligBytecode;
use acvm::acir::circuit::opcodes::{BlockId, FunctionInput, MemOp};
use acvm::acir::circuit::{Circuit, ExpressionWidth, Opcode as AcirOpcode, Program, PublicInputs};
use acvm::acir::native_types::{Expression as AcirExpression, Witness as AcirWitness, WitnessMap};
use ark_bn254::Fr;
use ark_ff::PrimeField;
use ark_relations::r1cs::{ConstraintSystem as ArkSystem, ConstraintSystemRef, SynthesisMode};
use constraint_counter::error::{LoadError, SolveError, SynthesisError};
use constraint_counter::field::FieldElement;
use constraint_counter::noir::NoirFCircuit;
use constraint_counter::r1cs::{AllocatedFp, ConstraintSystem, Variable};

fn fr(x: i64) -> Fr {
    if x >= 0 {
        Fr::from(x as u64)
    } else {
        -Fr::from((-x) as u64)
    }
}

fn fe(x: i64) -> FieldElement {
    FieldElement { limbs: fr(x).into_bigint().0 }
}

fn acir(x: i64) -> acvm::FieldElement {
    acvm::FieldElement::from_repr(fr(x))
}

fn witnesses(indices: &[u32]) -> BTreeSet<AcirWitness> {
    indices.iter().map(|i| AcirWitness(*i)).collect()
}

fn circuit(opcodes: Vec<AcirOpcode>, public: &[u32], private: &[u32], results: &[u32]) -> Circuit {
    Circuit {
        current_witness_index: 16,
        opcodes,
        expression_width: ExpressionWidth::Unbounded,
        private_parameters: witnesses(private),
        public_parameters: PublicInputs(witnesses(public)),
        return_values: PublicInputs(witnesses(results)),
        assert_messages: Vec::new(),
        recursive: false,
    }
}

/// `left * right - out == 0`
fn product(left: u32, right: u32, out: u32) -> AcirOpcode {
    AcirOpcode::AssertZero(AcirExpression {
        mul_terms: vec![(acir(1), AcirWitness(left), AcirWitness(right))],
        linear_combinations: vec![(acir(-1), AcirWitness(out))],
        q_c: acir(0),
    })
}

/// `out0 = in0 * ext0; out1 = in1 * ext1`
fn squaring_program() -> Program {
    Program {
        functions: vec![circuit(vec![product(0, 2, 4), product(1, 3, 5)], &[0, 1], &[2, 3], &[4, 5])],
        unconstrained_functions: Vec::new(),
    }
}

fn system(mode: SynthesisMode) -> ConstraintSystemRef<Fr> {
    let cs = ArkSystem::<Fr>::new_ref();
    cs.set_mode(mode);
    cs
}

fn allocate(cs: &ConstraintSystemRef<Fr>, values: &[i64]) -> Vec<AllocatedFp> {
    values
        .iter()
        .map(|v| match cs.new_witness_variable(|| Ok(fr(*v))).unwrap() {
            ark_relations::r1cs::Variable::Witness(index) => {
                AllocatedFp { value: Some(fe(*v)), variable: Variable::Witness(index) }
            }
            _ => unreachable!(),
        })
        .collect()
}

#[test]
fn step_multiplies_state_by_input() {
    let step = NoirFCircuit::from_program(squaring_program(), 2).unwrap();
    let ark = system(SynthesisMode::Prove { construct_matrices: true });
    let z_i = allocate(&ark, &[2, 5]);
    let external = allocate(&ark, &[2, 5]);
    let mut cs = ConstraintSystem { inner: ark };
    assert!(step.accepts_inputs(2, 2));
    assert!(step.has_room(&cs));
    let next = step.generate_step_constraints(&mut cs, &z_i, &external).unwrap();
    assert_eq!(
        next,
        vec![
            AllocatedFp { value: Some(fe(4)), variable: Variable::Witness(4) },
            AllocatedFp { value: Some(fe(25)), variable: Variable::Witness(5) },
        ]
    );
    assert_eq!(cs.inner.num_constraints(), 2);
    // four inputs, two outputs, and for each assertion one auxiliary variable and its result
    assert_eq!(cs.inner.num_witness_variables(), 10);
    assert_eq!(cs.inner.num_instance_variables(), 1);
    assert_eq!(cs.inner.is_satisfied(), Ok(true));
}

#[test]
fn step_reuses_the_variables_of_the_state() {
    let program = Program {
        functions: vec![circuit(
            vec![AcirOpcode::AssertZero(AcirExpression {
                mul_terms: Vec::new(),
                linear_combinations: vec![
                    (acir(1), AcirWitness(0)),
                    (acir(1), AcirWitness(1)),
                    (acir(-1), AcirWitness(2)),
                ],
                q_c: acir(0),
            })],
            &[0],
            &[1],
            &[2],
        )],
        unconstrained_functions: Vec::new(),
    };
    let step = NoirFCircuit::from_program(program, 1).unwrap();
    let ark = system(SynthesisMode::Prove { construct_matrices: true });
    let z_i = allocate(&ark, &[10]);
    let external = allocate(&ark, &[32]);
    let mut cs = ConstraintSystem { inner: ark };
    let next = step.try_generate_step_constraints(&mut cs, &z_i, &external).unwrap().unwrap();
    assert_eq!(next, vec![AllocatedFp { value: Some(fe(42)), variable: Variable::Witness(2) }]);
    // the output, and the variable that the pass made for the return value
    assert_eq!(cs.inner.num_witness_variables(), 4);
    assert_eq!(cs.inner.num_instance_variables(), 1);
    let matrices = cs.inner.to_matrices().unwrap();
    // columns 1 and 2 are the caller's variables for the state and the input;
    // the matrix leaves out the constant, whose coefficient is zero
    assert_eq!(matrices.b, vec![vec![(fr(1), 1), (fr(1), 2), (fr(-1), 4)]]);
    assert_eq!(cs.inner.is_satisfied(), Ok(true));
}

#[test]
fn step_runs_twice_on_fresh_systems_alike() {
    let step = NoirFCircuit::from_program(squaring_program(), 2).unwrap();
    let mut runs = Vec::new();
    for _ in 0..2 {
        let ark = system(SynthesisMode::Prove { construct_matrices: true });
        let z_i = allocate(&ark, &[3, 4]);
        let external = allocate(&ark, &[5, 6]);
        let mut cs = ConstraintSystem { inner: ark };
        let next = step.generate_step_constraints(&mut cs, &z_i, &external).unwrap();
        runs.push((next, cs.inner.to_matrices(), cs.inner.num_witness_variables()));
    }
    assert_eq!(runs[0], runs[1]);
    assert_eq!(runs[0].0[0].value, Some(fe(15)));
    assert_eq!(runs[0].0[1].value, Some(fe(24)));
}

#[test]
fn step_with_a_given_assignment() {
    let step = NoirFCircuit::from_program(squaring_program(), 2).unwrap();
    let ark = system(SynthesisMode::Prove { construct_matrices: true });
    let z_i = allocate(&ark, &[2, 5]);
    let external = allocate(&ark, &[2, 5]);
    let mut cs = ConstraintSystem { inner: ark };
    let mut solved = WitnessMap::new();
    for (index, value) in [(0, 2), (1, 5), (2, 2), (3, 5), (4, 4)] {
        solved.insert(AcirWitness(index), acir(value));
    }
    // the second return value has no value: the first output stays allocated
    let r = step.generate_step_constraints_with(&mut cs, &z_i, &external, solved.clone());
    assert_eq!(r, Err(SynthesisError::AssignmentMissing));
    assert_eq!(cs.inner.num_witness_variables(), 5);
    assert_eq!(cs.inner.num_constraints(), 0);

    let ark = system(SynthesisMode::Prove { construct_matrices: true });
    let z_i = allocate(&ark, &[2, 5]);
    let external = allocate(&ark, &[2, 5]);
    let mut cs = ConstraintSystem { inner: ark };
    solved.insert(AcirWitness(5), acir(26));
    let next = step.generate_step_constraints_with(&mut cs, &z_i, &external, solved).unwrap();
    assert_eq!(next[1], AllocatedFp { value: Some(fe(26)), variable: Variable::Witness(5) });
    assert_eq!(cs.inner.num_constraints(), 2);
    // 5 * 5 is not 26
    assert_eq!(cs.inner.is_satisfied(), Ok(false));
}

#[test]
fn step_in_setup_mode_reports_no_values() {
    let step = NoirFCircuit::from_program(squaring_program(), 2).unwrap();
    let ark = system(SynthesisMode::Setup);
    let v = |index: usize, value: i64| AllocatedFp {
        value: Some(fe(value)),
        variable: Variable::Witness(index),
    };
    ark.borrow_mut().unwrap().num_witness_variables = 4;
    let mut cs = ConstraintSystem { inner: ark };
    let next = step
        .generate_step_constraints(&mut cs, &[v(0, 2), v(1, 5)], &[v(2, 2), v(3, 5)])
        .unwrap();
    assert_eq!(
        next,
        vec![
            AllocatedFp { value: None, variable: Variable::Witness(4) },
            AllocatedFp { value: None, variable: Variable::Witness(5) },
        ]
    );
    assert_eq!(cs.inner.num_constraints(), 2);
    assert_eq!(cs.inner.num_witness_variables(), 10);
}

#[test]
fn step_without_input_values_writes_nothing() {
    let step = NoirFCircuit::from_program(squaring_program(), 2).unwrap();
    let ark = system(SynthesisMode::Prove { construct_matrices: true });
    let mut z_i = allocate(&ark, &[2, 5]);
    let external = allocate(&ark, &[2, 5]);
    z_i[1].value = None;
    let mut cs = ConstraintSystem { inner: ark };
    let r = step.generate_step_constraints(&mut cs, &z_i, &external);
    assert_eq!(r, Err(SynthesisError::AssignmentMissing));
    assert_eq!(cs.inner.num_witness_variables(), 4);
    assert_eq!(cs.inner.num_constraints(), 0);
}

#[test]
fn step_fails_where_the_solver_fails() {
    // `in0 - 3 == 0` does not hold of the state 2
    let program = Program {
        functions: vec![circuit(
            vec![AcirOpcode::AssertZero(AcirExpression {
                mul_terms: Vec::new(),
                linear_combinations: vec![(acir(1), AcirWitness(0))],
                q_c: acir(-3),
            })],
            &[0],
            &[],
            &[0],
        )],
        unconstrained_functions: Vec::new(),
    };
    let step = NoirFCircuit::from_program(program, 1).unwrap();
    let ark = system(SynthesisMode::Prove { construct_matrices: true });
    let z_i = allocate(&ark, &[2]);
    let mut cs = ConstraintSystem { inner: ark };
    let r = step.generate_step_constraints(&mut cs, &z_i, &[]);
    assert_eq!(r, Err(SynthesisError::Solve(SolveError::Unsatisfiable)));
    assert_eq!(cs.inner.num_witness_variables(), 1);
    assert_eq!(cs.inner.num_constraints(), 0);

    // `w7 * w8 == 0` with neither known cannot be solved
    let program = Program {
        functions: vec![circuit(
            vec![AcirOpcode::AssertZero(AcirExpression {
                mul_terms: vec![(acir(1), AcirWitness(7), AcirWitness(8))],
                linear_combinations: Vec::new(),
                q_c: acir(0),
            })],
            &[0],
            &[],
            &[0],
        )],
        unconstrained_functions: Vec::new(),
    };
    let step = NoirFCircuit::from_program(program, 1).unwrap();
    let r = step.generate_step_constraints(&mut cs, &z_i, &[]);
    assert_eq!(r, Err(SynthesisError::Solve(SolveError::Unsolvable)));
}

#[test]
fn step_fails_where_the_program_calls_out() {
    let call = |id: u32| Program {
        functions: vec![circuit(
            vec![AcirOpcode::Call { id, inputs: Vec::new(), outputs: Vec::new(), predicate: None }],
            &[0],
            &[],
            &[0],
        )],
        unconstrained_functions: Vec::new(),
    };
    let ark = system(SynthesisMode::Prove { construct_matrices: true });
    let z_i = allocate(&ark, &[2]);
    let mut cs = ConstraintSystem { inner: ark };
    // a circuit may not call the main circuit
    let step = NoirFCircuit::from_program(call(0), 1).unwrap();
    let r = step.generate_step_constraints(&mut cs, &z_i, &[]);
    assert_eq!(r, Err(SynthesisError::Solve(SolveError::Trap)));
    // a call of another circuit waits for an answer that nothing gives
    let step = NoirFCircuit::from_program(call(1), 1).unwrap();
    let r = step.generate_step_constraints(&mut cs, &z_i, &[]);
    assert_eq!(r, Err(SynthesisError::Solve(SolveError::Suspended)));
    assert_eq!(cs.inner.num_witness_variables(), 1);
}

#[test]
fn step_fails_where_a_subroutine_is_missing() {
    let call = AcirOpcode::BrilligCall {
        id: 1,
        inputs: Vec::new(),
        outputs: Vec::new(),
        predicate: None,
    };
    let program = |subroutines: usize| Program {
        functions: vec![circuit(vec![call.clone()], &[0], &[], &[0])],
        unconstrained_functions: vec![
            acvm::acir::circuit::brillig::BrilligBytecode { bytecode: Vec::new() };
            subroutines
        ],
    };
    let ark = system(SynthesisMode::Prove { construct_matrices: true });
    let z_i = allocate(&ark, &[2]);
    let mut cs = ConstraintSystem { inner: ark };
    let step = NoirFCircuit::from_program(program(1), 1).unwrap();
    assert_eq!(step.shape().opcodes, vec![constraint_counter::acir::Opcode::BrilligCall { id: 1 }]);
    let r = step.generate_step_constraints(&mut cs, &z_i, &[]);
    assert_eq!(r, Err(SynthesisError::Solve(SolveError::MissingSubroutine)));
    assert_eq!(cs.inner.num_witness_variables(), 1);
    let step = NoirFCircuit::from_program(program(0), 1).unwrap();
    let r = step.generate_step_constraints(&mut cs, &z_i, &[]);
    assert_eq!(r, Err(SynthesisError::Solve(SolveError::MissingSubroutine)));
    assert!(constraint_counter::acir::check_calls(&step.shape().opcodes, 2));
    assert!(!constraint_counter::acir::check_calls(&step.shape().opcodes, 1));
}

#[test]
fn step_keeps_unvouched_instructions_from_the_solver() {
    let ark = system(SynthesisMode::Prove { construct_matrices: true });
    let z_i = allocate(&ark, &[2]);
    let mut cs = ConstraintSystem { inner: ark };
    let trap = Err(SynthesisError::Solve(SolveError::Trap));

    // a call of a subroutine that is there, but empty
    let call =
        AcirOpcode::BrilligCall { id: 0, inputs: Vec::new(), outputs: Vec::new(), predicate: None };
    let program = Program {
        functions: vec![circuit(vec![call], &[0], &[], &[0])],
        unconstrained_functions: vec![BrilligBytecode { bytecode: Vec::new() }],
    };
    let step = NoirFCircuit::from_program(program, 1).unwrap();
    assert_eq!(step.generate_step_constraints(&mut cs, &z_i, &[]), trap);

    // a read from memory at an index that is a witness
    let read = AcirOpcode::MemoryOp {
        block_id: BlockId(0),
        op: MemOp::read_at_mem_index(AcirWitness(0).into(), AcirWitness(1)),
        predicate: None,
    };
    let init = AcirOpcode::MemoryInit { block_id: BlockId(0), init: vec![AcirWitness(0)] };
    let program = Program {
        functions: vec![circuit(vec![init.clone(), read], &[0], &[], &[0])],
        unconstrained_functions: Vec::new(),
    };
    let step = NoirFCircuit::from_program(program, 1).unwrap();
    assert_eq!(step.generate_step_constraints(&mut cs, &z_i, &[]), trap);
    assert_eq!(cs.inner.num_witness_variables(), 1);
    assert_eq!(cs.inner.num_constraints(), 0);

    // the first filling of memory and a range check go to the solver
    let range = |bits: u32| {
        AcirOpcode::BlackBoxFuncCall(acvm::acir::circuit::opcodes::BlackBoxFuncCall::RANGE {
            input: FunctionInput { witness: AcirWitness(0), num_bits: bits },
        })
    };
    let program = |bits: u32| Program {
        functions: vec![circuit(vec![init.clone(), range(bits)], &[0], &[], &[0])],
        unconstrained_functions: Vec::new(),
    };
    let step = NoirFCircuit::from_program(program(1), 1).unwrap();
    assert_eq!(
        step.generate_step_constraints(&mut cs, &z_i, &[]),
        Err(SynthesisError::Solve(SolveError::Unsatisfiable))
    );
    let step = NoirFCircuit::from_program(program(2), 1).unwrap();
    let next = step.generate_step_constraints(&mut cs, &z_i, &[]).unwrap();
    assert_eq!(next, vec![AllocatedFp { value: Some(fe(2)), variable: Variable::Witness(1) }]);
    assert_eq!(cs.inner.num_constraints(), 0);

    // a bitwise operation goes to the solver if both sides have the same width,
    // and digits if the radix is one that a byte can hold digits to
    let and = |left: u32, right: u32| {
        AcirOpcode::BlackBoxFuncCall(acvm::acir::circuit::opcodes::BlackBoxFuncCall::AND {
            lhs: FunctionInput { witness: AcirWitness(0), num_bits: left },
            rhs: FunctionInput { witness: AcirWitness(0), num_bits: right },
            output: AcirWitness(1),
        })
    };
    let digits = |radix: u32| {
        AcirOpcode::Directive(acvm::acir::circuit::directives::Directive::ToLeRadix {
            a: AcirWitness(0).into(),
            b: vec![AcirWitness(2), AcirWitness(3)],
            radix,
        })
    };
    let program = |op: AcirOpcode, result: u32| Program {
        functions: vec![circuit(vec![op], &[0], &[], &[result])],
        unconstrained_functions: Vec::new(),
    };
    let step = NoirFCircuit::from_program(program(and(8, 4), 1), 1).unwrap();
    assert_eq!(step.generate_step_constraints(&mut cs, &z_i, &[]), trap);
    let step = NoirFCircuit::from_program(program(and(8, 8), 1), 1).unwrap();
    let next = step.generate_step_constraints(&mut cs, &z_i, &[]).unwrap();
    assert_eq!(next[0].value, Some(fe(2)));
    for radix in [0, 1, 257] {
        let step = NoirFCircuit::from_program(program(digits(radix), 3), 1).unwrap();
        assert_eq!(step.generate_step_constraints(&mut cs, &z_i, &[]), trap);
    }
    let step = NoirFCircuit::from_program(program(digits(2), 3), 1).unwrap();
    let next = step.generate_step_constraints(&mut cs, &z_i, &[]).unwrap();
    assert_eq!(next[0].value, Some(fe(1)));
}

#[test]
fn step_checks_that_parameters_have_a_place() {
    let step = NoirFCircuit::from_program(squaring_program(), 2).unwrap();
    assert!(step.accepts_inputs(2, 2));
    assert!(step.accepts_inputs(2, 3));
    assert!(!step.accepts_inputs(2, 1));
    assert!(!step.accepts_inputs(1, 3));
    assert!(!step.accepts_inputs(3, 2));
    let ark = system(SynthesisMode::Prove { construct_matrices: true });
    let z_i = allocate(&ark, &[2, 5]);
    let external = allocate(&ark, &[2]);
    let mut cs = ConstraintSystem { inner: ark };
    assert_eq!(step.try_generate_step_constraints(&mut cs, &z_i, &external), None);
    assert_eq!(cs.inner.num_witness_variables(), 3);
    let external = allocate(&cs.inner, &[2, 5]);
    cs.inner.borrow_mut().unwrap().num_constraints = usize::MAX - 1;
    assert!(!step.has_room(&cs));
    assert_eq!(step.try_generate_step_constraints(&mut cs, &z_i, &external), None);
    cs.inner.borrow_mut().unwrap().num_constraints = usize::MAX - 2;
    assert!(step.has_room(&cs));
}

#[test]
fn arity_must_match() {
    let ok = NoirFCircuit::from_program(squaring_program(), 2).unwrap();
    assert_eq!(ok.shape().public_parameters, vec![0, 1]);
    assert_eq!(ok.shape().private_parameters, vec![2, 3]);
    assert_eq!(ok.shape().return_values, vec![4, 5]);
    assert_eq!(ok.shape().opcodes.len(), 2);
    assert!(ok.unconstrained_functions.is_empty());

    let lopsided = Program {
        functions: vec![circuit(vec![product(0, 2, 4)], &[0, 1], &[2, 3], &[4])],
        unconstrained_functions: Vec::new(),
    };
    assert_eq!(
        NoirFCircuit::from_program(lopsided, 2).err(),
        Some(LoadError::ArityMismatch { public_io_length: 2, ivc_return_length: 1 })
    );
    assert_eq!(
        NoirFCircuit::from_program(squaring_program(), 3).err(),
        Some(LoadError::ArityMismatch { public_io_length: 2, ivc_return_length: 2 })
    );
    let empty = Program { functions: Vec::new(), unconstrained_functions: Vec::new() };
    assert_eq!(NoirFCircuit::from_program(empty, 0).err(), Some(LoadError::Deserialization));
}
