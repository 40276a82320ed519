//! What can go wrong, by stage.

use vstd::prelude::*;

verus! {

/// Why an artifact gave no circuit.
#[derive(Clone, Copy, PartialEq, Eq, Structural, Debug)]
pub enum LoadError {
    /// The bytes are no artifact, or the program in them has no circuit.
    Deserialization,
    /// The circuit does not take and return a state of the declared length.
    ArityMismatch { public_io_length: usize, ivc_return_length: usize },
}

/// Why the witness solver gave no assignment.
#[derive(Clone, Copy, PartialEq, Eq, Structural, Debug)]
pub enum SolveError {
    /// An assertion of the program does not hold of the seeded values.
    Unsatisfiable,
    /// An instruction has too many unknowns to be solved.
    Unsolvable,
    /// The circuit calls an auxiliary subroutine that the program lacks.
    MissingSubroutine,
    /// The solver stopped on an instruction, or the circuit holds an
    /// instruction that the solver is not vouched for.
    Trap,
    /// The program asks for a call that nothing here can answer.
    Suspended,
}

/// Why constraints could not be emitted.
#[derive(Clone, Copy, PartialEq, Eq, Structural, Debug)]
pub enum SynthesisError {
    /// The handle refers to no constraint system.
    MissingCS,
    /// A value was needed and none was known.
    AssignmentMissing,
    /// The witness solver failed.
    Solve(SolveError),
}

} // verus!
