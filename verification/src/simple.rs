//! A loaded program, constrained as it stands: no values, no bindings.

use crate::acir::{
    circuit_opcodes, opcodes_of, parse_artifact, parsed_artifact, program_circuits,
    program_functions, program_subroutines, program_unconstrained_functions, witness_map_new,
};
use crate::bridge::AcirCircuitSonobe;
use crate::error::{LoadError, SynthesisError};
use crate::model::{assertions, demand, outcome, constrain, Environment};
use crate::r1cs::ConstraintSystem;
use std::collections::HashMap;
use vstd::prelude::*;

verus! {

/// A program as an artifact holds it.
pub struct NoirProgram {
    pub bytecode: acvm::acir::circuit::Program,
}

/// The environment of a pass that knows no value and no binding.
pub open spec fn bare() -> Environment {
    Environment { values: Map::empty(), known: Map::empty() }
}

impl NoirProgram {
    /// Whether the program has a circuit to constrain.
    pub open spec fn has_circuit(&self) -> bool {
        program_circuits(self.bytecode).len() > 0
    }

    /// The instructions of the first circuit.
    pub open spec fn opcodes(&self) -> Seq<crate::acir::Opcode> {
        circuit_opcodes(program_circuits(self.bytecode)[0])
    }

    /// Loads a program from the bytes of an artifact.
    pub fn new(bin: &[u8]) -> (r: Result<NoirProgram, LoadError>)
        ensures
            match r {
                Ok(program) => parsed_artifact(bin@) == Some(program.bytecode),
                Err(e) => e == LoadError::Deserialization && parsed_artifact(bin@) is None,
            },
    {
        match parse_artifact(bin) {
            Ok(bytecode) => Ok(NoirProgram { bytecode }),
            Err(_) => Err(LoadError::Deserialization),
        }
    }

    /// The first circuit of the program, the only one that is used.
    pub fn circuit(&self) -> (r: Option<&acvm::acir::circuit::Circuit>)
        ensures
            match r {
                Some(circuit) => self.has_circuit() && *circuit == program_circuits(
                    self.bytecode,
                )[0],
                None => !self.has_circuit(),
            },
    {
        let functions = program_functions(&self.bytecode);
        if functions.len() > 0 {
            Some(&functions[0])
        } else {
            None
        }
    }

    /// The auxiliary subroutines, which only the solver runs.
    pub fn unconstrained_functions(&self) -> (r: &Vec<
        acvm::acir::circuit::brillig::BrilligBytecode,
    >)
        ensures
            r@ == program_subroutines(self.bytecode),
    {
        program_unconstrained_functions(&self.bytecode)
    }

    /// Whether the program has a circuit and `cs` has room for whatever a
    /// pass over it may ask.
    pub fn has_room(&self, cs: &ConstraintSystem) -> (r: bool)
        ensures
            r == (self.has_circuit() && cs@.room(
                demand(self.opcodes(), self.opcodes().len()),
                assertions(self.opcodes(), self.opcodes().len()),
            )),
            r ==> constrain(cs@, bare(), self.opcodes()).cs.fits(),
    {
        let functions = program_functions(&self.bytecode);
        if functions.len() == 0 {
            return false;
        }
        let opcodes = opcodes_of(&functions[0]);
        let circuit = AcirCircuitSonobe {
            opcodes: &opcodes,
            values: witness_map_new(),
            already_assigned_witnesses: HashMap::new(),
        };
        assert(circuit.env() == bare());
        circuit.has_room(cs)
    }

    /// `generate_constraints`, for a caller that knows nothing of the program
    /// or of `cs`: it is done if the program has a circuit and `cs` has room;
    /// otherwise nothing is done.
    pub fn try_generate_constraints(self, cs: &mut ConstraintSystem) -> (r: Option<
        Result<(), SynthesisError>,
    >)
        ensures
            r is Some <==> self.has_circuit() && old(cs)@.room(
                demand(self.opcodes(), self.opcodes().len()),
                assertions(self.opcodes(), self.opcodes().len()),
            ),
            r is None ==> final(cs)@ == old(cs)@,
            r matches Some(answer) ==> {
                &&& final(cs)@ == constrain(old(cs)@, bare(), self.opcodes()).cs
                &&& answer == outcome(constrain(old(cs)@, bare(), self.opcodes()), ())
            },
    {
        if self.has_room(cs) {
            Some(self.generate_constraints(cs))
        } else {
            None
        }
    }

    /// Writes the constraints of the first circuit to `cs`, one for every
    /// zero-assertion, with no value known. A system in setup mode takes
    /// them all. A system in prove mode asks for the value of the first
    /// witness that an assertion mentions, and the pass ends there.
    ///
    /// The program must have a circuit, and the counters of `cs` must be
    /// able to take what the pass adds to them: `has_room` tells both.
    pub fn generate_constraints(self, cs: &mut ConstraintSystem) -> (r: Result<(), SynthesisError>)
        requires
            self.has_circuit(),
            constrain(old(cs)@, bare(), self.opcodes()).cs.fits(),
        ensures
            final(cs)@ == constrain(old(cs)@, bare(), self.opcodes()).cs,
            r == outcome(constrain(old(cs)@, bare(), self.opcodes()), ()),
    {
        let functions = program_functions(&self.bytecode);
        let opcodes = opcodes_of(&functions[0]);
        let circuit = AcirCircuitSonobe {
            opcodes: &opcodes,
            values: witness_map_new(),
            already_assigned_witnesses: HashMap::new(),
        };
        assert(circuit.env() == bare());
        circuit.generate_constraints(cs)
    }
}

} // verus!
