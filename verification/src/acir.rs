//! The bytecode as this library reads it.
//!
//! A program and its circuits are `acvm`'s and stay opaque to the verifier:
//! the solver runs them as they are. What is constrained of a circuit (its
//! zero-assertions and its three parameter lists) is handed out as plain
//! values, and the assignment that the solver fills stays `acvm`'s
//! `WitnessMap`, read and written through a few calls whose contracts are
//! taken on trust.

use crate::error::SolveError;
use crate::field::{option_value, FieldElement};
use acvm::acir::circuit::opcodes::BlackBoxFuncCall;
use acvm::acir::circuit::Opcode as AcirOpcode;
use ark_ff::{BigInteger, PrimeField};
use vstd::prelude::*;

verus! {

/// The index of a value slot of the bytecode.
#[derive(Clone, Copy, PartialEq, Eq, Structural, Debug, Hash)]
pub struct Witness(pub u32);

/// A quadratic expression that a zero-assertion sets to zero: products of two
/// witnesses, multiples of one witness, and a constant, each with its
/// coefficient.
#[derive(Clone, PartialEq, Eq, Debug)]
pub struct Expression {
    pub mul_terms: Vec<(FieldElement, Witness, Witness)>,
    pub linear_combinations: Vec<(FieldElement, Witness)>,
    pub q_c: FieldElement,
}

/// An instruction. Only zero-assertions are constrained; every other
/// instruction matters to the solver alone.
#[derive(Clone, PartialEq, Eq, Debug)]
pub enum Opcode {
    /// The assertion that an expression is zero.
    AssertZero(Expression),
    /// A call of the auxiliary subroutine with this number.
    BrilligCall { id: u32 },
    /// Anything else.
    Other,
}

/// How the solver takes an instruction.
#[derive(Clone, Copy, PartialEq, Eq, Structural, Debug)]
pub enum Solving {
    /// A zero-assertion: solved for one unknown, or checked.
    Arithmetic,
    /// A range check of one witness.
    Range,
    /// A bitwise `and` or `xor` of two witnesses, each read at so many bits.
    Logic { left_bits: u32, right_bits: u32 },
    /// The digits of a value to this radix.
    Radix { radix: u32 },
    /// The first filling of a block of memory.
    MemoryInit,
    /// A call of another circuit, which the solver hands back unanswered.
    Call,
    /// Anything else: a memory operation, another built-in function, a call
    /// of an auxiliary subroutine.
    Unvouched,
}

/// What is constrained of a circuit, as plain values: its
/// instructions in order, and its public parameters, private parameters and
/// return values, each in ascending order.
#[derive(Clone, PartialEq, Eq, Debug)]
pub struct CircuitShape {
    pub opcodes: Vec<Opcode>,
    pub public_parameters: Vec<u32>,
    pub private_parameters: Vec<u32>,
    pub return_values: Vec<u32>,
}

/// A circuit's shape, as mathematics.
pub struct Shape {
    pub opcodes: Seq<Opcode>,
    pub public_parameters: Seq<u32>,
    pub private_parameters: Seq<u32>,
    pub return_values: Seq<u32>,
}

impl View for CircuitShape {
    type V = Shape;

    open spec fn view(&self) -> Shape {
        Shape {
            opcodes: self.opcodes@,
            public_parameters: self.public_parameters@,
            private_parameters: self.private_parameters@,
            return_values: self.return_values@,
        }
    }
}

/// Every subroutine that the instructions call is one of the first
/// `subroutines`.
pub open spec fn calls_resolve(ops: Seq<Opcode>, subroutines: nat) -> bool {
    forall|i: int|
        0 <= i < ops.len() ==> (#[trigger] ops[i] matches Opcode::BrilligCall { id } ==> id
            < subroutines)
}

/// Whether every subroutine that the instructions call is one of the first
/// `subroutines`.
pub fn check_calls(ops: &Vec<Opcode>, subroutines: usize) -> (r: bool)
    ensures
        r == calls_resolve(ops@, subroutines as nat),
{
    let mut i: usize = 0;
    while i < ops.len()
        invariant
            i <= ops@.len(),
            calls_resolve(ops@.take(i as int), subroutines as nat),
        decreases ops@.len() - i,
    {
        match &ops[i] {
            Opcode::BrilligCall { id } => {
                if *id as usize >= subroutines {
                    return false;
                }
            },
            _ => {},
        }
        assert forall|k: int| 0 <= k < i + 1 implies (#[trigger] ops@.take(
            i + 1,
        )[k] matches Opcode::BrilligCall { id } ==> id < subroutines) by {
            if k < i {
                assert(ops@.take(i as int)[k] == ops@[k]);
            }
        }
        i += 1;
    }
    assert(ops@.take(i as int) == ops@);
    true
}

/// The solver is vouched for on an instruction of this kind: it is none of
/// the kinds set aside, a bitwise operation reads both sides at the same
/// number of bits, and a radix is one that digits in a byte can be to.
pub open spec fn vouched_for(kind: Solving) -> bool {
    match kind {
        Solving::Unvouched => false,
        Solving::Logic { left_bits, right_bits } => left_bits == right_bits,
        Solving::Radix { radix } => 2 <= radix <= 256,
        _ => true,
    }
}

/// The solver is vouched for on every instruction.
pub open spec fn vouched(kinds: Seq<Solving>) -> bool {
    forall|i: int| 0 <= i < kinds.len() ==> vouched_for(#[trigger] kinds[i])
}

/// Whether the solver is vouched for on every instruction.
pub fn check_vouched(kinds: &Vec<Solving>) -> (r: bool)
    ensures
        r == vouched(kinds@),
{
    let mut i: usize = 0;
    while i < kinds.len()
        invariant
            i <= kinds@.len(),
            forall|k: int| 0 <= k < i ==> vouched_for(#[trigger] kinds@[k]),
        decreases kinds@.len() - i,
    {
        let sound = match kinds[i] {
            Solving::Unvouched => false,
            Solving::Logic { left_bits, right_bits } => left_bits == right_bits,
            Solving::Radix { radix } => 2 <= radix && radix <= 256,
            _ => true,
        };
        if !sound {
            return false;
        }
        i += 1;
    }
    true
}

/// The value that a partial assignment holds for an index.
pub open spec fn lookup(values: Map<u32, nat>, index: u32) -> Option<nat> {
    if values.contains_key(index) {
        Some(values[index])
    } else {
        None
    }
}

/// `acvm`'s `WitnessMap`: an assignment, partial or complete.
#[verifier::external_type_specification]
#[verifier::external_body]
pub struct ExWitnessMap(acvm::acir::native_types::WitnessMap);

/// What a witness map holds: for each index that has an entry, the entry's
/// field element as an integer below the modulus.
pub uninterp spec fn witness_map_values(map: acvm::acir::native_types::WitnessMap) -> Map<u32, nat>;

/// `WitnessMap::new` of `acvm`: a map without entries.
#[verifier::external_body]
pub(crate) fn witness_map_new() -> (r: acvm::acir::native_types::WitnessMap)
    ensures
        witness_map_values(r) == (Map::<u32, nat>::empty()),
{
    acvm::acir::native_types::WitnessMap::new()
}

/// `WitnessMap::insert` of `acvm`: the entry of `index` becomes `value`,
/// whatever it was.
#[verifier::external_body]
pub(crate) fn witness_map_insert(
    map: &mut acvm::acir::native_types::WitnessMap,
    index: u32,
    value: FieldElement,
)
    ensures
        witness_map_values(*final(map)) == witness_map_values(*old(map)).insert(index, value@),
{
    let value = ark_bn254::Fr::from_le_bytes_mod_order(
        &ark_ff::BigInt::new(value.limbs).to_bytes_le(),
    );
    map.insert(acvm::acir::native_types::Witness(index), acvm::FieldElement::from_repr(value));
}

/// `WitnessMap::get` of `acvm`: the entry of `index`, if there is one.
#[verifier::external_body]
pub(crate) fn witness_map_get(map: &acvm::acir::native_types::WitnessMap, index: u32) -> (r: Option<
    FieldElement,
>)
    ensures
        option_value(r) == lookup(witness_map_values(*map), index),
        r matches Some(v) ==> v.is_canonical(),
{
    map.get(&acvm::acir::native_types::Witness(index)).map(
        |f| FieldElement { limbs: f.into_repr().into_bigint().0 },
    )
}

/// `acvm`'s `Program`: circuits and auxiliary subroutines.
#[verifier::external_type_specification]
#[verifier::external_body]
pub struct ExProgram(acvm::acir::circuit::Program);

/// `acvm`'s `Circuit`: instructions, parameters and return values.
#[verifier::external_type_specification]
#[verifier::external_body]
pub struct ExCircuit(acvm::acir::circuit::Circuit);

/// `acvm`'s `BrilligBytecode`: one auxiliary subroutine.
#[verifier::external_type_specification]
#[verifier::external_body]
pub struct ExBrilligBytecode(acvm::acir::circuit::brillig::BrilligBytecode);

/// `serde_json`'s `Error`.
#[verifier::external_type_specification]
#[verifier::external_body]
pub struct ExJsonError(serde_json::Error);

/// The circuits of a program, in order.
pub uninterp spec fn program_circuits(program: acvm::acir::circuit::Program) -> Seq<
    acvm::acir::circuit::Circuit,
>;

/// The auxiliary subroutines of a program, in order.
pub uninterp spec fn program_subroutines(program: acvm::acir::circuit::Program) -> Seq<
    acvm::acir::circuit::brillig::BrilligBytecode,
>;

/// The instructions of a circuit, in order: each zero-assertion with its
/// terms and coefficients, each call of an auxiliary subroutine with the
/// subroutine's number, every other instruction as `Other`.
pub uninterp spec fn circuit_opcodes(circuit: acvm::acir::circuit::Circuit) -> Seq<Opcode>;

/// The indices of a circuit's public parameters, private parameters and
/// return values, each list in ascending order.
pub uninterp spec fn circuit_parameters(circuit: acvm::acir::circuit::Circuit) -> (
    Seq<u32>,
    Seq<u32>,
    Seq<u32>,
);

/// How the solver takes each instruction of a circuit, in order.
pub uninterp spec fn circuit_solving(circuit: acvm::acir::circuit::Circuit) -> Seq<Solving>;

/// The program that an artifact holds, if the bytes are one. It stands for
/// two calls, one after the other: `serde_json::from_slice` reads the bytes
/// as a JSON value, and `Program::deserialize_program_base64` of `acvm` reads
/// the member `bytecode` of that value, a string, as the base64 form of a
/// compressed, serialised program. Where either call fails there is no
/// program.
pub uninterp spec fn parsed_artifact(bytes: Seq<u8>) -> Option<acvm::acir::circuit::Program>;

/// The field `functions` of `acvm`'s `Program`.
#[verifier::external_body]
pub(crate) fn program_functions(program: &acvm::acir::circuit::Program) -> (r: &Vec<
    acvm::acir::circuit::Circuit,
>)
    ensures
        r@ == program_circuits(*program),
{
    &program.functions
}

/// The field `unconstrained_functions` of `acvm`'s `Program`.
#[verifier::external_body]
pub(crate) fn program_unconstrained_functions(program: &acvm::acir::circuit::Program) -> (r: &Vec<
    acvm::acir::circuit::brillig::BrilligBytecode,
>)
    ensures
        r@ == program_subroutines(*program),
{
    &program.unconstrained_functions
}

/// Both fields of `acvm`'s `Program`, moved out of it.
#[verifier::external_body]
pub(crate) fn program_into_parts(program: acvm::acir::circuit::Program) -> (r: (
    Vec<acvm::acir::circuit::Circuit>,
    Vec<acvm::acir::circuit::brillig::BrilligBytecode>,
))
    ensures
        r.0@ == program_circuits(program),
        r.1@ == program_subroutines(program),
{
    (program.functions, program.unconstrained_functions)
}

/// The field `opcodes` of `acvm`'s `Circuit`, each instruction converted.
#[verifier::external_body]
pub(crate) fn opcodes_of(circuit: &acvm::acir::circuit::Circuit) -> (r: Vec<Opcode>)
    ensures
        r@ == circuit_opcodes(*circuit),
{
    let field = |f: &acvm::FieldElement| FieldElement { limbs: f.into_repr().into_bigint().0 };
    circuit.opcodes.iter().map(|op| match op {
        AcirOpcode::AssertZero(e) => Opcode::AssertZero(Expression {
            mul_terms: e.mul_terms.iter().map(
                |t| (field(&t.0), Witness(t.1.0), Witness(t.2.0)),
            ).collect(),
            linear_combinations: e.linear_combinations.iter().map(
                |t| (field(&t.0), Witness(t.1.0)),
            ).collect(),
            q_c: field(&e.q_c),
        }),
        AcirOpcode::BrilligCall { id, .. } => Opcode::BrilligCall { id: *id },
        _ => Opcode::Other,
    }).collect()
}

/// The field `opcodes` of `acvm`'s `Circuit`, each instruction by the arm
/// of `ACVM::solve_opcode` that takes it.
#[verifier::external_body]
pub(crate) fn solving_of(circuit: &acvm::acir::circuit::Circuit) -> (r: Vec<Solving>)
    ensures
        r@ == circuit_solving(*circuit),
{
    circuit.opcodes.iter().map(|op| match op {
        AcirOpcode::AssertZero(_) => Solving::Arithmetic,
        AcirOpcode::BlackBoxFuncCall(BlackBoxFuncCall::RANGE { .. }) => Solving::Range,
        AcirOpcode::BlackBoxFuncCall(
            BlackBoxFuncCall::AND { lhs, rhs, .. } | BlackBoxFuncCall::XOR { lhs, rhs, .. },
        ) => Solving::Logic { left_bits: lhs.num_bits, right_bits: rhs.num_bits },
        AcirOpcode::Directive(acvm::acir::circuit::directives::Directive::ToLeRadix {
            radix,
            ..
        }) => Solving::Radix { radix: *radix },
        AcirOpcode::MemoryInit { .. } => Solving::MemoryInit,
        AcirOpcode::Call { .. } => Solving::Call,
        _ => Solving::Unvouched,
    }).collect()
}

/// The fields `public_parameters`, `private_parameters` and `return_values`
/// of `acvm`'s `Circuit`, each set walked in its order.
#[verifier::external_body]
pub(crate) fn parameters_of(circuit: &acvm::acir::circuit::Circuit) -> (r: (
    Vec<u32>,
    Vec<u32>,
    Vec<u32>,
))
    ensures
        (r.0@, r.1@, r.2@) == circuit_parameters(*circuit),
{
    (
        circuit.public_parameters.0.iter().map(|w| w.0).collect(),
        circuit.private_parameters.iter().map(|w| w.0).collect(),
        circuit.return_values.0.iter().map(|w| w.0).collect(),
    )
}

/// The shape of a circuit: what its instructions and its parameter sets
/// hold.
pub open spec fn circuit_shape(circuit: acvm::acir::circuit::Circuit) -> Shape {
    Shape {
        opcodes: circuit_opcodes(circuit),
        public_parameters: circuit_parameters(circuit).0,
        private_parameters: circuit_parameters(circuit).1,
        return_values: circuit_parameters(circuit).2,
    }
}

/// Reads the shape of a circuit.
pub fn shape_of(circuit: &acvm::acir::circuit::Circuit) -> (r: CircuitShape)
    ensures
        r@ == circuit_shape(*circuit),
{
    let opcodes = opcodes_of(circuit);
    let (public_parameters, private_parameters, return_values) = parameters_of(circuit);
    CircuitShape { opcodes, public_parameters, private_parameters, return_values }
}

/// `serde_json::from_slice` into a JSON value, and
/// `Program::deserialize_program_base64` of `acvm` on its member `bytecode`.
#[verifier::external_body]
pub(crate) fn parse_artifact(bytes: &[u8]) -> (r: Result<
    acvm::acir::circuit::Program,
    serde_json::Error,
>)
    ensures
        match r {
            Ok(program) => parsed_artifact(bytes@) == Some(program),
            Err(_) => parsed_artifact(bytes@) is None,
        },
{
    let json: serde_json::Value = serde_json::from_slice(bytes)?;
    acvm::acir::circuit::Program::deserialize_program_base64(&json["bytecode"])
}

/// What the solver makes of a circuit, its auxiliary subroutines and a seed:
/// the assignment that it completes the seed to, or the reason why it gives
/// none.
pub uninterp spec fn solution(
    circuit: acvm::acir::circuit::Circuit,
    subroutines: Seq<acvm::acir::circuit::brillig::BrilligBytecode>,
    seed: Map<u32, nat>,
) -> Result<Map<u32, nat>, SolveError>;

/// The witness solver: `ACVM::new` of `acvm` on the circuit's instructions,
/// with the stubbed black-box solver and `initial` as its witness map, then
/// `ACVM::solve`, and `ACVM::finalize` where the status is `Solved`. The
/// solver runs the same on the same input, so its result has a name; what
/// the assignment holds is not stated.
///
/// The solver is called on vouched instructions only. On those it comes
/// back: it takes each instruction once, and the arms that take them answer
/// every input with a value or an error. These are `ExpressionSolver::solve`,
/// `solve_range_opcode`, `MemoryOpSolver::init` and `solve_call_opcode`;
/// `and` and `xor`, which assert only that both sides are read at the same
/// number of bits; and `solve_directives`, whose call of `to_radix_le` asks
/// for a radix from 2 to 256. The other arms index, unwrap or assert on what
/// only solving brings forth: a memory operation unwraps the index's
/// conversion and the witness that it reads into, the other built-in
/// functions assert on their inputs, and the VM of the subroutines indexes
/// its bytecode, unwraps the kinds of its values and need not halt. No
/// instruction of those kinds reaches the solver, and so no assumption about
/// them is made.
#[verifier::external_body]
pub(crate) fn solve(
    circuit: &acvm::acir::circuit::Circuit,
    subroutines: &Vec<acvm::acir::circuit::brillig::BrilligBytecode>,
    initial: acvm::acir::native_types::WitnessMap,
) -> (r: Result<acvm::acir::native_types::WitnessMap, SolveError>)
    requires
        vouched(circuit_solving(*circuit)),
    ensures
        match r {
            Ok(map) => solution(*circuit, subroutines@, witness_map_values(initial)) matches Ok(
                values,
            ) && values == witness_map_values(map),
            Err(e) => solution(*circuit, subroutines@, witness_map_values(initial)) matches Err(
                reason,
            ) && reason == e,
        },
{
    let backend = acvm::blackbox_solver::StubbedBlackBoxSolver;
    let mut vm = acvm::pwg::ACVM::new(&backend, &circuit.opcodes, initial, subroutines, &[]);
    match vm.solve() {
        acvm::pwg::ACVMStatus::Solved => Ok(vm.finalize()),
        acvm::pwg::ACVMStatus::Failure(
            acvm::pwg::OpcodeResolutionError::UnsatisfiedConstrain { .. },
        ) => Err(SolveError::Unsatisfiable),
        acvm::pwg::ACVMStatus::Failure(acvm::pwg::OpcodeResolutionError::OpcodeNotSolvable(_)) => {
            Err(SolveError::Unsolvable)
        },
        acvm::pwg::ACVMStatus::Failure(_) => Err(SolveError::Trap),
        _ => Err(SolveError::Suspended),
    }
}

} // verus!
