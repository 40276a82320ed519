//! The step circuit: one step of an incremental computation, wired into the
//! constraint system of the scheme that folds it.

use crate::acir::{
    calls_resolve, check_calls, check_vouched, circuit_parameters, circuit_shape,
    circuit_solving, parameters_of, parse_artifact, solving_of, vouched,
    parsed_artifact, program_circuits, program_into_parts, program_subroutines, shape_of,
    solution, solve, witness_map_values, CircuitShape, Opcode, Shape,
};
use crate::error::{LoadError, SolveError, SynthesisError};
use crate::model::{assertions, demand, Step};
use crate::r1cs::{AllocatedFp, ConstraintSystem, CsModel};
use crate::step::answers;
use vstd::prelude::*;

verus! {

/// A program as an artifact holds it.
pub struct ProgramArtifactGeneric {
    pub bytecode: acvm::acir::circuit::Program,
}

impl ProgramArtifactGeneric {
    /// Loads a program from the bytes of an artifact.
    pub fn from_slice(bin: &[u8]) -> (r: Result<ProgramArtifactGeneric, LoadError>)
        ensures
            match r {
                Ok(artifact) => parsed_artifact(bin@) == Some(artifact.bytecode),
                Err(e) => e == LoadError::Deserialization && parsed_artifact(bin@) is None,
            },
    {
        match parse_artifact(bin) {
            Ok(bytecode) => Ok(ProgramArtifactGeneric { bytecode }),
            Err(_) => Err(LoadError::Deserialization),
        }
    }
}

/// A circuit that maps a state and an external input to the next state.
///
/// Its public parameters take the state, its private parameters the external
/// input, and its return values are the next state.
pub struct NoirFCircuit {
    /// The circuit.
    pub circuit: acvm::acir::circuit::Circuit,
    /// The auxiliary subroutines, which only the solver runs.
    pub unconstrained_functions: Vec<acvm::acir::circuit::brillig::BrilligBytecode>,
}

impl View for NoirFCircuit {
    type V = Shape;

    /// The shape of the circuit.
    open spec fn view(&self) -> Shape {
        circuit_shape(self.circuit)
    }
}

impl NoirFCircuit {
    /// What the solver makes of the circuit when it is seeded with the
    /// values of the inputs.
    pub open spec fn solved(&self, z_i: Seq<AllocatedFp>, external: Seq<AllocatedFp>) -> Result<
        Map<u32, nat>,
        SolveError,
    > {
        solution(self.circuit, self.unconstrained_functions@, self@.seed(z_i, external))
    }

    /// The step that `generate_step_constraints` makes, if it gets as far as
    /// writing to the constraint system: the step under the solver's
    /// assignment. It gets that far if every input has a value, every
    /// subroutine that the circuit calls is there, the solver is vouched for
    /// on every instruction, and the solver comes through.
    pub open spec fn step_on(
        &self,
        cs: CsModel,
        z_i: Seq<AllocatedFp>,
        external: Seq<AllocatedFp>,
    ) -> Option<Step> {
        if !self@.inputs_valued(z_i, external) || !calls_resolve(
            self@.opcodes,
            self.unconstrained_functions@.len(),
        ) || !vouched(circuit_solving(self.circuit)) {
            None
        } else {
            match self.solved(z_i, external) {
                Ok(values) => Some(self@.step_under(cs, z_i, external, values)),
                Err(_) => None,
            }
        }
    }

    /// What one step does to a constraint system, and its answer. Without a
    /// value for every input the step ends for want of an assignment. Where
    /// the circuit calls a subroutine that is not there, or holds an
    /// instruction that the solver is not vouched for, or the solver fails,
    /// it ends with the solver's error. In these cases nothing is written.
    /// Otherwise the step is the one under the solver's assignment.
    pub open spec fn steps(
        &self,
        before: CsModel,
        after: CsModel,
        z_i: Seq<AllocatedFp>,
        external: Seq<AllocatedFp>,
        r: Result<Vec<AllocatedFp>, SynthesisError>,
    ) -> bool {
        match self.step_on(before, z_i, external) {
            Some(step) => after == step.cs && answers(r, step),
            None => {
                &&& after == before
                &&& r matches Err(e)
                &&& e == if !self@.inputs_valued(z_i, external) {
                    SynthesisError::AssignmentMissing
                } else if !calls_resolve(self@.opcodes, self.unconstrained_functions@.len()) {
                    SynthesisError::Solve(SolveError::MissingSubroutine)
                } else if !vouched(circuit_solving(self.circuit)) {
                    SynthesisError::Solve(SolveError::Trap)
                } else {
                    SynthesisError::Solve(self.solved(z_i, external)->Err_0)
                }
            },
        }
    }

    /// Builds the step circuit of a program: its first circuit, which must
    /// take and return a state of `state_len` values.
    pub fn from_program(program: acvm::acir::circuit::Program, state_len: usize) -> (r: Result<
        NoirFCircuit,
        LoadError,
    >)
        ensures
            match r {
                Ok(circuit) => {
                    &&& program_circuits(program).len() > 0
                    &&& circuit.circuit == program_circuits(program)[0]
                    &&& circuit.unconstrained_functions@ == program_subroutines(program)
                    &&& circuit@.has_arity(state_len)
                },
                Err(LoadError::Deserialization) => program_circuits(program).len() == 0,
                Err(LoadError::ArityMismatch { public_io_length, ivc_return_length }) => {
                    let parameters = circuit_parameters(program_circuits(program)[0]);
                    &&& program_circuits(program).len() > 0
                    &&& public_io_length == parameters.0.len()
                    &&& ivc_return_length == parameters.2.len()
                    &&& !(public_io_length == state_len && ivc_return_length == state_len)
                },
            },
    {
        let (mut circuits, unconstrained_functions) = program_into_parts(program);
        if circuits.len() == 0 {
            return Err(LoadError::Deserialization);
        }
        let circuit = circuits.remove(0);
        let (public_parameters, _, return_values) = parameters_of(&circuit);
        let public_io_length = public_parameters.len();
        let ivc_return_length = return_values.len();
        if public_io_length != ivc_return_length || public_io_length != state_len {
            return Err(LoadError::ArityMismatch { public_io_length, ivc_return_length });
        }
        Ok(NoirFCircuit { circuit, unconstrained_functions })
    }

    /// Builds the step circuit of the program that an artifact holds.
    pub fn new(bin: &[u8], state_len: usize) -> (r: Result<NoirFCircuit, LoadError>)
        ensures
            parsed_artifact(bin@) is None ==> r matches Err(LoadError::Deserialization),
            parsed_artifact(bin@) matches Some(program) ==> match r {
                Ok(circuit) => {
                    &&& program_circuits(program).len() > 0
                    &&& circuit.circuit == program_circuits(program)[0]
                    &&& circuit.unconstrained_functions@ == program_subroutines(program)
                    &&& circuit@.has_arity(state_len)
                },
                Err(LoadError::Deserialization) => program_circuits(program).len() == 0,
                Err(LoadError::ArityMismatch { public_io_length, ivc_return_length }) => {
                    let parameters = circuit_parameters(program_circuits(program)[0]);
                    &&& program_circuits(program).len() > 0
                    &&& public_io_length == parameters.0.len()
                    &&& ivc_return_length == parameters.2.len()
                    &&& !(public_io_length == state_len && ivc_return_length == state_len)
                },
            },
    {
        match ProgramArtifactGeneric::from_slice(bin) {
            Ok(artifact) => NoirFCircuit::from_program(artifact.bytecode, state_len),
            Err(e) => Err(e),
        }
    }

    /// What is constrained of the circuit, as plain values.
    pub fn shape(&self) -> (r: CircuitShape)
        ensures
            r@ == self@,
    {
        shape_of(&self.circuit)
    }

    /// Whether a state of `state_len` values and an external input of
    /// `external_len` values have a place for every parameter.
    pub fn accepts_inputs(&self, state_len: usize, external_len: usize) -> (r: bool)
        ensures
            r == self@.accepts(state_len as nat, external_len as nat),
    {
        self.shape().accepts_inputs(state_len, external_len)
    }

    /// Whether `cs` has room for whatever a step may ask of it. It has, if
    /// its counters can take one witness variable for every return value,
    /// three for every product, one for every linear term, and one
    /// constraint for every zero-assertion.
    pub fn has_room(&self, cs: &ConstraintSystem) -> (r: bool)
        ensures
            r == cs@.room(
                self@.return_values.len() + demand(self@.opcodes, self@.opcodes.len()),
                assertions(self@.opcodes, self@.opcodes.len()),
            ),
            r ==> forall|z_i: Seq<AllocatedFp>, external: Seq<AllocatedFp>, values: Map<u32, nat>|
                (#[trigger] self@.step_under(cs@, z_i, external, values)).cs.fits(),
    {
        self.shape().has_room(cs)
    }

    /// One step under an assignment that is already solved: the next state
    /// is allocated in `cs`, and the constraints of the circuit are written
    /// to `cs` over the variables of `z_i` and `external_inputs`.
    pub fn generate_step_constraints_with(
        &self,
        cs: &mut ConstraintSystem,
        z_i: &[AllocatedFp],
        external_inputs: &[AllocatedFp],
        witness_map: acvm::acir::native_types::WitnessMap,
    ) -> (r: Result<Vec<AllocatedFp>, SynthesisError>)
        requires
            self@.accepts(z_i@.len(), external_inputs@.len()),
            self@.step_under(
                old(cs)@,
                z_i@,
                external_inputs@,
                witness_map_values(witness_map),
            ).cs.fits(),
        ensures
            final(cs)@ == self@.step_under(
                old(cs)@,
                z_i@,
                external_inputs@,
                witness_map_values(witness_map),
            ).cs,
            answers(
                r,
                self@.step_under(old(cs)@, z_i@, external_inputs@, witness_map_values(witness_map)),
            ),
    {
        self.shape().constrain_step(cs, z_i, external_inputs, witness_map)
    }

    /// One step, for a caller that knows nothing of the inputs or of `cs`:
    /// `generate_step_constraints`, if every parameter has its place in the
    /// inputs and `cs` has room; otherwise nothing is done.
    pub fn try_generate_step_constraints(
        &self,
        cs: &mut ConstraintSystem,
        z_i: &[AllocatedFp],
        external_inputs: &[AllocatedFp],
    ) -> (r: Option<Result<Vec<AllocatedFp>, SynthesisError>>)
        ensures
            r is Some <==> self@.accepts(z_i@.len(), external_inputs@.len()) && old(cs)@.room(
                self@.return_values.len() + demand(self@.opcodes, self@.opcodes.len()),
                assertions(self@.opcodes, self@.opcodes.len()),
            ),
            r is None ==> final(cs)@ == old(cs)@,
            r matches Some(answer) ==> self.steps(
                old(cs)@,
                final(cs)@,
                z_i@,
                external_inputs@,
                answer,
            ),
    {
        if self.accepts_inputs(z_i.len(), external_inputs.len()) && self.has_room(cs) {
            Some(self.generate_step_constraints(cs, z_i, external_inputs))
        } else {
            None
        }
    }

    /// One step: from the state `z_i` and the external input to the next
    /// state, with the constraints of the transition written to `cs`.
    ///
    /// The solver is seeded with the values of the inputs and run on the
    /// circuit. If an input has no value, or the solver fails, nothing is
    /// written to `cs`. Otherwise the step is the one that the solver's
    /// assignment leads to, whatever that assignment is.
    ///
    /// Every parameter must have its place in the inputs, which
    /// `accepts_inputs` tells, and the counters of `cs` must be able to take
    /// what the step adds to them, which `has_room` tells.
    pub fn generate_step_constraints(
        &self,
        cs: &mut ConstraintSystem,
        z_i: &[AllocatedFp],
        external_inputs: &[AllocatedFp],
    ) -> (r: Result<Vec<AllocatedFp>, SynthesisError>)
        requires
            self@.accepts(z_i@.len(), external_inputs@.len()),
            self.step_on(old(cs)@, z_i@, external_inputs@) matches Some(step) ==> step.cs.fits(),
        ensures
            self.steps(old(cs)@, final(cs)@, z_i@, external_inputs@, r),
    {
        let shape = self.shape();
        let seed = match shape.bind_inputs(z_i, external_inputs).1 {
            Some(seed) => seed,
            None => {
                return Err(SynthesisError::AssignmentMissing);
            },
        };
        if !check_calls(&shape.opcodes, self.unconstrained_functions.len()) {
            return Err(SynthesisError::Solve(SolveError::MissingSubroutine));
        }
        if !check_vouched(&solving_of(&self.circuit)) {
            return Err(SynthesisError::Solve(SolveError::Trap));
        }
        let witness_map = match solve(&self.circuit, &self.unconstrained_functions, seed) {
            Ok(witness_map) => witness_map,
            Err(e) => {
                return Err(SynthesisError::Solve(e));
            },
        };
        shape.constrain_step(cs, z_i, external_inputs, witness_map)
    }
}

} // verus!
