//! What a pass over the instructions of a circuit does, as mathematics.
//!
//! A pass walks the instructions in order and, for every zero-assertion,
//! writes one constraint `1 * accumulator = 0`. The functions here say what
//! the constraint system and the allocation table hold after each stage of a
//! pass. The executable code is proved to do exactly this.

use crate::acir::{lookup, Expression, Opcode, Witness};
use crate::error::SynthesisError;
use crate::field::{field_mul, FieldElement};
use crate::r1cs::{add_term, Constraint, CsModel, Variable};
use vstd::prelude::*;

verus! {

/// What a pass is given and never changes.
pub struct Environment {
    /// The assignment: the value of each witness index that has one.
    pub values: Map<u32, nat>,
    /// The variables that the caller has already bound to witness indices.
    pub known: Map<u32, Variable>,
}

/// Where a pass stands.
pub struct Pass {
    /// The constraint system.
    pub cs: CsModel,
    /// The allocation table: the variable that each witness index resolved to
    /// earlier in the pass.
    pub table: Map<u32, Variable>,
    /// The error that ended the pass, if it has ended early.
    pub failure: Option<SynthesisError>,
}

/// A pass in the middle of one zero-assertion, with the linear combination
/// accumulated so far.
pub struct Gate {
    pub pass: Pass,
    pub acc: Map<Variable, nat>,
}

/// The answer of a stage that yields a value unless the pass has failed.
pub open spec fn outcome<T>(pass: Pass, value: T) -> Result<T, SynthesisError> {
    match pass.failure {
        Some(e) => Err(e),
        None => Ok(value),
    }
}

/// The linear combination that holds the constant one alone.
pub open spec fn one_term() -> Map<Variable, nat> {
    add_term(Map::empty(), 1, Variable::One)
}

impl Pass {
    /// A pass that starts on `cs` with an empty table.
    pub open spec fn start(cs: CsModel) -> Pass {
        Pass { cs, table: Map::empty(), failure: None }
    }

    /// The pass has ended early.
    pub open spec fn failed(self) -> bool {
        self.failure is Some
    }

    /// A fresh witness variable is asked of the constraint system, seeded
    /// with `value`. A pass that has failed stays as it is.
    pub open spec fn allocate(self, value: Option<nat>) -> (Pass, Variable) {
        if self.failed() {
            (self, Variable::Zero)
        } else {
            let (cs, answer) = self.cs.new_witness(value);
            match answer {
                Ok(var) => (Pass { cs, ..self }, var),
                Err(e) => (Pass { cs, failure: Some(e), ..self }, Variable::Zero),
            }
        }
    }

    /// The table's answer for `index`: the variable recorded for it, or else
    /// a fresh one, seeded with `value`, which is then recorded.
    pub open spec fn lookup_or_allocate(self, index: u32, value: Option<nat>) -> (Pass, Variable) {
        if self.failed() {
            (self, Variable::Zero)
        } else if self.table.contains_key(index) {
            (self, self.table[index])
        } else {
            let (pass, var) = self.allocate(value);
            if pass.failed() {
                (pass, var)
            } else {
                (Pass { table: pass.table.insert(index, var), ..pass }, var)
            }
        }
    }

    /// The variable that stands for `index` in a constraint: the caller's,
    /// where the caller has bound one, or else the table's, seeded with the
    /// assignment's value.
    pub open spec fn resolve(self, env: Environment, index: u32) -> (Pass, Variable) {
        if self.failed() {
            (self, Variable::Zero)
        } else if env.known.contains_key(index) {
            (self, env.known[index])
        } else {
            self.lookup_or_allocate(index, lookup(env.values, index))
        }
    }

    /// The constraint `1 * acc = 0` is enforced.
    pub open spec fn emit(self, acc: Map<Variable, nat>) -> Pass {
        if self.failed() {
            self
        } else {
            let (cs, answer) = self.cs.enforce(
                Constraint { a: one_term(), b: acc, c: Map::empty() },
            );
            match answer {
                Ok(_) => Pass { cs, ..self },
                Err(e) => Pass { cs, failure: Some(e), ..self },
            }
        }
    }

    /// The terms of one zero-assertion are folded into one accumulator: its
    /// products and then its linear terms, each in order.
    pub open spec fn folded(self, env: Environment, expr: Expression) -> Gate {
        let products = (Gate { pass: self, acc: Map::empty() }).mul_terms(
            env,
            expr.mul_terms@,
            expr.mul_terms@.len(),
        );
        products.linear_terms(env, expr.linear_combinations@, expr.linear_combinations@.len())
    }

    /// The linear combination that one zero-assertion comes to: its
    /// terms folded, and its constant as a multiple of the constant one.
    pub open spec fn accumulator(self, env: Environment, expr: Expression) -> Map<Variable, nat> {
        add_term(self.folded(env, expr).acc, expr.q_c@, Variable::One)
    }

    /// One zero-assertion is constrained: its terms and its constant are
    /// folded into one accumulator, and the constraint is emitted.
    pub open spec fn gate(self, env: Environment, expr: Expression) -> Pass {
        self.folded(env, expr).pass.emit(self.accumulator(env, expr))
    }

    /// One instruction is passed over. Only a zero-assertion leaves a trace.
    pub open spec fn opcode(self, env: Environment, op: Opcode) -> Pass {
        match op {
            Opcode::AssertZero(expr) => self.gate(env, expr),
            _ => self,
        }
    }

    /// The first `n` instructions are passed over, in order.
    pub open spec fn opcodes(self, env: Environment, ops: Seq<Opcode>, n: nat) -> Pass
        decreases n,
    {
        if n == 0 {
            self
        } else {
            self.opcodes(env, ops, (n - 1) as nat).opcode(env, ops[n - 1])
        }
    }
}

/// The value of a product of two witnesses under an assignment: zero unless
/// both are assigned.
pub open spec fn product_value(values: Map<u32, nat>, left: u32, right: u32) -> nat {
    if values.contains_key(left) && values.contains_key(right) {
        field_mul(values[left], values[right])
    } else {
        0
    }
}

impl Gate {
    /// One product `coeff * left * right` is folded in. Both witnesses are
    /// resolved, left first. A fresh auxiliary variable is allocated, seeded
    /// with the value of the whole term, and enters the accumulator with
    /// coefficient one.
    pub open spec fn mul_term(self, env: Environment, term: (FieldElement, Witness, Witness)) -> Gate {
        let (left, _) = self.pass.resolve(env, term.1.0);
        let (right, _) = left.resolve(env, term.2.0);
        let value = field_mul(term.0@, product_value(env.values, term.1.0, term.2.0));
        let (pass, aux) = right.allocate(Some(value));
        if pass.failed() {
            Gate { pass, acc: self.acc }
        } else {
            Gate { pass, acc: add_term(self.acc, 1, aux) }
        }
    }

    /// One linear term `coeff * witness` is folded in: the witness is
    /// resolved and its variable enters the accumulator with `coeff`.
    pub open spec fn linear_term(self, env: Environment, term: (FieldElement, Witness)) -> Gate {
        let (pass, var) = self.pass.resolve(env, term.1.0);
        if pass.failed() {
            Gate { pass, acc: self.acc }
        } else {
            Gate { pass, acc: add_term(self.acc, term.0@, var) }
        }
    }

    /// The first `n` products are folded in, in order.
    pub open spec fn mul_terms(
        self,
        env: Environment,
        terms: Seq<(FieldElement, Witness, Witness)>,
        n: nat,
    ) -> Gate
        decreases n,
    {
        if n == 0 {
            self
        } else {
            self.mul_terms(env, terms, (n - 1) as nat).mul_term(env, terms[n - 1])
        }
    }

    /// The first `n` linear terms are folded in, in order.
    pub open spec fn linear_terms(
        self,
        env: Environment,
        terms: Seq<(FieldElement, Witness)>,
        n: nat,
    ) -> Gate
        decreases n,
    {
        if n == 0 {
            self
        } else {
            self.linear_terms(env, terms, (n - 1) as nat).linear_term(env, terms[n - 1])
        }
    }
}

/// A whole pass over `ops`, from a fresh table.
pub open spec fn constrain(cs: CsModel, env: Environment, ops: Seq<Opcode>) -> Pass {
    Pass::start(cs).opcodes(env, ops, ops.len())
}

/// The number of zero-assertions among the first `n` instructions.
pub open spec fn assertions(ops: Seq<Opcode>, n: nat) -> nat
    decreases n,
{
    if n == 0 {
        0
    } else {
        assertions(ops, (n - 1) as nat) + if ops[n - 1] is AssertZero {
            1nat
        } else {
            0nat
        }
    }
}

/// The most witness variables that one zero-assertion can ask for: three for
/// a product, one for a linear term.
pub open spec fn gate_demand(expr: Expression) -> nat {
    3 * expr.mul_terms@.len() + expr.linear_combinations@.len()
}

/// The most witness variables that the first `n` instructions can ask for.
pub open spec fn demand(ops: Seq<Opcode>, n: nat) -> nat
    decreases n,
{
    if n == 0 {
        0
    } else {
        demand(ops, (n - 1) as nat) + match ops[n - 1] {
            Opcode::AssertZero(expr) => gate_demand(expr),
            _ => 0,
        }
    }
}

/// Where one step of the incremental computation stands.
pub struct Step {
    /// The constraint system.
    pub cs: CsModel,
    /// The next state so far: each output's variable, with the value that
    /// the system reports for it.
    pub outputs: Seq<(Variable, Option<nat>)>,
    /// The error that ended the step, if it has ended early.
    pub failure: Option<SynthesisError>,
}

impl Step {
    /// A step that starts on `cs`.
    pub open spec fn start(cs: CsModel) -> Step {
        Step { cs, outputs: Seq::empty(), failure: None }
    }

    /// The step has ended early.
    pub open spec fn failed(self) -> bool {
        self.failure is Some
    }

    /// The output for one return index is allocated: a fresh witness
    /// variable, seeded with the assignment's value. Without a value the
    /// step ends, before the system is asked.
    pub open spec fn output(self, values: Map<u32, nat>, index: u32) -> Step {
        if self.failed() {
            self
        } else {
            match lookup(values, index) {
                None => Step { failure: Some(SynthesisError::AssignmentMissing), ..self },
                Some(value) => {
                    let (cs, answer) = self.cs.new_witness(Some(value));
                    match answer {
                        Ok(var) => Step {
                            cs,
                            outputs: self.outputs.push(
                                (var, cs.witness_value(self.cs.num_witness)),
                            ),
                            failure: None,
                        },
                        Err(e) => Step { cs, failure: Some(e), ..self },
                    }
                },
            }
        }
    }

    /// The outputs for the first `n` return indices are allocated, in order.
    pub open spec fn outputs_upto(self, values: Map<u32, nat>, results: Seq<u32>, n: nat) -> Step
        decreases n,
    {
        if n == 0 {
            self
        } else {
            self.outputs_upto(values, results, (n - 1) as nat).output(values, results[n - 1])
        }
    }

    /// The answer of the step: the next state, unless the step has failed.
    pub open spec fn answer(self) -> Result<Seq<(Variable, Option<nat>)>, SynthesisError> {
        match self.failure {
            Some(e) => Err(e),
            None => Ok(self.outputs),
        }
    }
}

/// A whole step under a solved assignment: the outputs are allocated for the
/// return indices, and then the instructions are constrained, the caller's
/// bindings taking the place of fresh variables.
pub open spec fn step(cs: CsModel, env: Environment, results: Seq<u32>, ops: Seq<Opcode>) -> Step {
    let allocated = Step::start(cs).outputs_upto(env.values, results, results.len());
    if allocated.failed() {
        allocated
    } else {
        let pass = constrain(allocated.cs, env, ops);
        Step { cs: pass.cs, outputs: allocated.outputs, failure: pass.failure }
    }
}

} // verus!
