use std::collections::BTreeSet;

use acvm::acir::circuit::brillig::BrilligBytecode;
use acvm::acir::circuit::{Circuit, ExpressionWidth, Opcode as AcirOpcode, Program, PublicInputs};
use acvm::acir::native_types::{Expression as AcirExpression, Witness as AcirWitness};
use ark_bn254::Fr;
use ark_ff::PrimeField;
use ark_relations::r1cs::{ConstraintSystem as ArkSystem, OptimizationGoal, SynthesisMode};
use constraint_counter::acir::{Expression, Opcode, Witness};
use constraint_counter::error::{LoadError, SynthesisError};
use constraint_counter::field::FieldElement;
use constraint_counter::noir::{NoirFCircuit, ProgramArtifactGeneric};
use constraint_counter::r1cs::ConstraintSystem;
use constraint_counter::simple::NoirProgram;

fn fr(x: i64) -> Fr {
    if x >= 0 {
        Fr::from(x as u64)
    } else {
        -Fr::from((-x) as u64)
    }
}

fn fe(x: i64) -> FieldElement {
    FieldElement { limbs: fr(x).into_bigint().0 }
}

fn acir(x: i64) -> acvm::FieldElement {
    acvm::FieldElement::from_repr(fr(x))
}

/// `x0 * w0 + w1 + 2 == 0`, with `x0` public
fn mock_program() -> Program {
    Program {
        functions: vec![Circuit {
            current_witness_index: 2,
            opcodes: vec![
                AcirOpcode::MemoryInit {
                    block_id: acvm::acir::circuit::opcodes::BlockId(0),
                    init: Vec::new(),
                },
                AcirOpcode::AssertZero(AcirExpression {
                    mul_terms: vec![(acir(1), AcirWitness(0), AcirWitness(1))],
                    linear_combinations: vec![(acir(1), AcirWitness(2))],
                    q_c: acir(2),
                }),
            ],
            expression_width: ExpressionWidth::Unbounded,
            private_parameters: BTreeSet::from([AcirWitness(1), AcirWitness(2)]),
            public_parameters: PublicInputs(BTreeSet::from([AcirWitness(0)])),
            return_values: PublicInputs(BTreeSet::new()),
            assert_messages: Vec::new(),
            recursive: false,
        }],
        unconstrained_functions: vec![BrilligBytecode { bytecode: Vec::new() }],
    }
}

fn artifact(program: &Program) -> Vec<u8> {
    let bytecode = Program::serialize_program_base64(program, serde_json::value::Serializer).unwrap();
    let mut object = serde_json::Map::new();
    object.insert("noir_version".to_string(), serde_json::Value::String("0.30.0".to_string()));
    object.insert("bytecode".to_string(), bytecode);
    serde_json::to_vec(&serde_json::Value::Object(object)).unwrap()
}

#[test]
fn test_mock_noir_circuit() {
    // Circuit definition:
    // x_0 * w_0 + w_1 + 2 == 0
    let noir_json = artifact(&mock_program());

    let mut cs = ArkSystem::<Fr>::new();
    cs.mode = SynthesisMode::Setup;
    cs.optimization_goal = OptimizationGoal::Constraints;
    let cs = ark_relations::r1cs::ConstraintSystemRef::new(cs);

    let program = NoirProgram::new(&noir_json).unwrap();
    let mut handle = ConstraintSystem { inner: cs.clone() };
    assert_eq!(program.generate_constraints(&mut handle), Ok(()));
    cs.finalize();

    cs.set_mode(SynthesisMode::Prove { construct_matrices: true });

    assert_eq!(cs.num_constraints(), 1);
    assert_eq!(cs.num_instance_variables(), 1);
    assert_eq!(cs.num_witness_variables(), 4);
    // The 0th instance assignment is the constant term enabler.
    // This example is:
    // 2 * 3 + (-8) + 2 == 0
    cs.borrow_mut().unwrap().instance_assignment = vec![fr(1)];
    cs.borrow_mut().unwrap().witness_assignment = vec![fr(2), fr(3), fr(6), fr(-8)];
    assert_eq!(cs.is_satisfied(), Ok(true));
    cs.borrow_mut().unwrap().witness_assignment = vec![fr(2), fr(3), fr(6), fr(-7)];
    assert_eq!(cs.is_satisfied(), Ok(false));
}

#[test]
fn artifact_round_trip() {
    let program = NoirProgram::new(&artifact(&mock_program())).unwrap();
    assert!(program.bytecode == mock_program());
    assert!(program.circuit() == Some(&mock_program().functions[0]));
    assert_eq!(program.unconstrained_functions().len(), 1);
    let other = ProgramArtifactGeneric::from_slice(&artifact(&mock_program())).unwrap();
    assert!(other.bytecode == mock_program());
}

#[test]
fn malformed_artifacts_are_refused() {
    assert_eq!(NoirProgram::new(b"").err(), Some(LoadError::Deserialization));
    assert_eq!(NoirProgram::new(b"{").err(), Some(LoadError::Deserialization));
    assert_eq!(NoirProgram::new(b"{}").err(), Some(LoadError::Deserialization));
    assert_eq!(NoirProgram::new(b"[1, 2]").err(), Some(LoadError::Deserialization));
    assert_eq!(NoirProgram::new(b"{\"bytecode\": 7}").err(), Some(LoadError::Deserialization));
    assert_eq!(
        NoirProgram::new(b"{\"bytecode\": \"not base64!\"}").err(),
        Some(LoadError::Deserialization)
    );
    assert_eq!(
        NoirProgram::new(b"{\"bytecode\": \"aGVsbG8=\"}").err(),
        Some(LoadError::Deserialization)
    );
    assert_eq!(
        ProgramArtifactGeneric::from_slice(b"{\"bytecode\": \"aGVsbG8=\"}").err(),
        Some(LoadError::Deserialization)
    );
    assert_eq!(NoirFCircuit::new(b"{}", 0).err(), Some(LoadError::Deserialization));
}

#[test]
fn step_circuit_from_an_artifact() {
    let bytes = artifact(&mock_program());
    assert_eq!(
        NoirFCircuit::new(&bytes, 1).err(),
        Some(LoadError::ArityMismatch { public_io_length: 1, ivc_return_length: 0 })
    );
    let mut program = mock_program();
    program.functions[0].return_values = PublicInputs(BTreeSet::from([AcirWitness(2)]));
    let step = NoirFCircuit::new(&artifact(&program), 1).unwrap();
    assert!(step.circuit == program.functions[0]);
    assert_eq!(step.unconstrained_functions.len(), 1);
    assert_eq!(step.shape().public_parameters, vec![0]);
    assert_eq!(step.shape().private_parameters, vec![1, 2]);
    assert_eq!(step.shape().return_values, vec![2]);
    assert_eq!(
        step.shape().opcodes,
        vec![
            Opcode::Other,
            Opcode::AssertZero(Expression {
                mul_terms: vec![(fe(1), Witness(0), Witness(1))],
                linear_combinations: vec![(fe(1), Witness(2))],
                q_c: fe(2),
            }),
        ]
    );
    let empty = Program { functions: Vec::new(), unconstrained_functions: Vec::new() };
    assert_eq!(NoirFCircuit::new(&artifact(&empty), 0).err(), Some(LoadError::Deserialization));
}

#[test]
fn program_without_values_fails_in_prove_mode() {
    let program = NoirProgram { bytecode: mock_program() };
    let cs = ArkSystem::<Fr>::new_ref();
    let mut handle = ConstraintSystem { inner: cs.clone() };
    assert!(program.has_room(&handle));
    assert_eq!(program.generate_constraints(&mut handle), Err(SynthesisError::AssignmentMissing));
    assert_eq!(cs.num_constraints(), 0);
}

#[test]
fn program_without_a_circuit_is_left_alone() {
    let empty = NoirProgram {
        bytecode: Program { functions: Vec::new(), unconstrained_functions: Vec::new() },
    };
    assert!(empty.circuit().is_none());
    assert!(empty.unconstrained_functions().is_empty());
    let cs = ArkSystem::<Fr>::new_ref();
    cs.set_mode(SynthesisMode::Setup);
    let mut handle = ConstraintSystem { inner: cs.clone() };
    assert!(!empty.has_room(&handle));
    assert_eq!(empty.try_generate_constraints(&mut handle), None);
    let program = NoirProgram { bytecode: mock_program() };
    assert_eq!(program.try_generate_constraints(&mut handle), Some(Ok(())));
    assert_eq!(cs.num_constraints(), 1);
    assert_eq!(cs.num_witness_variables(), 4);
}
