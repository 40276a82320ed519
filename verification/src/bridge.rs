//! Writes one rank-1 constraint for every zero-assertion of a circuit.

use crate::acir::{witness_map_get, witness_map_values, Expression, Opcode, Witness};
use crate::field::{option_value, FieldElement};
use crate::model::{
    assertions, demand, gate_demand, outcome, constrain, Environment, Gate, Pass,
};
use crate::error::SynthesisError;
use crate::r1cs::{add_term, ConstraintSystem, CsModel, LinearCombination, Variable};
use std::collections::HashMap;
use vstd::prelude::*;

verus! {

broadcast use vstd::std_specs::hash::group_hash_axioms;

/// The pass that a constraint system and a table stand for while the
/// code runs.
pub open spec fn running(cs: CsModel, table: Map<u32, Variable>) -> Pass {
    Pass { cs, table, failure: None }
}

/// The environment that an assignment and the caller's bindings make.
pub open spec fn environment(
    values: acvm::acir::native_types::WitnessMap,
    known: Map<u32, Variable>,
) -> Environment {
    Environment { values: witness_map_values(values), known }
}

/// A pass that has failed is left alone by every later product.
pub proof fn lemma_mul_terms_stay_failed(
    gate: Gate,
    env: Environment,
    terms: Seq<(FieldElement, Witness, Witness)>,
    i: nat,
    n: nat,
)
    requires
        i <= n,
        gate.mul_terms(env, terms, i).pass.failed(),
    ensures
        gate.mul_terms(env, terms, n) == gate.mul_terms(env, terms, i),
    decreases n,
{
    if i < n {
        lemma_mul_terms_stay_failed(gate, env, terms, i, (n - 1) as nat);
    }
}

/// A pass that has failed is left alone by every later linear term.
pub proof fn lemma_linear_terms_stay_failed(
    gate: Gate,
    env: Environment,
    terms: Seq<(FieldElement, Witness)>,
    i: nat,
    n: nat,
)
    requires
        i <= n,
        gate.linear_terms(env, terms, i).pass.failed(),
    ensures
        gate.linear_terms(env, terms, n) == gate.linear_terms(env, terms, i),
    decreases n,
{
    if i < n {
        lemma_linear_terms_stay_failed(gate, env, terms, i, (n - 1) as nat);
    }
}

/// A pass that has failed is left alone by a zero-assertion.
pub proof fn lemma_gate_stays_failed(pass: Pass, env: Environment, expr: Expression)
    requires
        pass.failed(),
    ensures
        pass.gate(env, expr) == pass,
{
    let start = Gate { pass, acc: Map::empty() };
    lemma_mul_terms_stay_failed(start, env, expr.mul_terms@, 0, expr.mul_terms@.len());
    lemma_linear_terms_stay_failed(
        start,
        env,
        expr.linear_combinations@,
        0,
        expr.linear_combinations@.len(),
    );
}

/// A pass that has failed is left alone by every later instruction.
pub proof fn lemma_opcodes_stay_failed(pass: Pass, env: Environment, ops: Seq<Opcode>, i: nat, n: nat)
    requires
        i <= n,
        pass.opcodes(env, ops, i).failed(),
    ensures
        pass.opcodes(env, ops, n) == pass.opcodes(env, ops, i),
    decreases n,
{
    if i < n {
        lemma_opcodes_stay_failed(pass, env, ops, i, (n - 1) as nat);
        match ops[n - 1] {
            Opcode::AssertZero(expr) => {
                lemma_gate_stays_failed(pass.opcodes(env, ops, i), env, expr);
            },
            _ => {},
        }
    }
}

/// The counters never go back while products are folded in.
pub proof fn lemma_mul_terms_count_up(
    gate: Gate,
    env: Environment,
    terms: Seq<(FieldElement, Witness, Witness)>,
    i: nat,
    n: nat,
)
    requires
        i <= n,
    ensures
        gate.mul_terms(env, terms, i).pass.cs.before(gate.mul_terms(env, terms, n).pass.cs),
    decreases n,
{
    if i < n {
        lemma_mul_terms_count_up(gate, env, terms, i, (n - 1) as nat);
    }
}

/// The counters never go back while linear terms are folded in.
pub proof fn lemma_linear_terms_count_up(
    gate: Gate,
    env: Environment,
    terms: Seq<(FieldElement, Witness)>,
    i: nat,
    n: nat,
)
    requires
        i <= n,
    ensures
        gate.linear_terms(env, terms, i).pass.cs.before(gate.linear_terms(env, terms, n).pass.cs),
    decreases n,
{
    if i < n {
        lemma_linear_terms_count_up(gate, env, terms, i, (n - 1) as nat);
    }
}

/// The counters never go back within a zero-assertion.
pub proof fn lemma_gate_counts_up(pass: Pass, env: Environment, expr: Expression)
    ensures
        pass.cs.before(pass.gate(env, expr).cs),
{
    let start = Gate { pass, acc: Map::empty() };
    lemma_mul_terms_count_up(start, env, expr.mul_terms@, 0, expr.mul_terms@.len());
    let products = start.mul_terms(env, expr.mul_terms@, expr.mul_terms@.len());
    lemma_linear_terms_count_up(
        products,
        env,
        expr.linear_combinations@,
        0,
        expr.linear_combinations@.len(),
    );
}

/// The counters never go back from one instruction to a later one.
pub proof fn lemma_opcodes_count_up(pass: Pass, env: Environment, ops: Seq<Opcode>, i: nat, n: nat)
    requires
        i <= n,
    ensures
        pass.opcodes(env, ops, i).cs.before(pass.opcodes(env, ops, n).cs),
    decreases n,
{
    if i < n {
        lemma_opcodes_count_up(pass, env, ops, i, (n - 1) as nat);
        match ops[n - 1] {
            Opcode::AssertZero(expr) => {
                lemma_gate_counts_up(pass.opcodes(env, ops, (n - 1) as nat), env, expr);
            },
            _ => {},
        }
    }
}

/// Folding `n` products asks for at most three witness variables each, and
/// writes no constraint.
pub proof fn lemma_mul_terms_demand(
    gate: Gate,
    env: Environment,
    terms: Seq<(FieldElement, Witness, Witness)>,
    n: nat,
)
    ensures
        gate.mul_terms(env, terms, n).pass.cs.num_witness <= gate.pass.cs.num_witness + 3 * n,
        gate.mul_terms(env, terms, n).pass.cs.num_constraints == gate.pass.cs.num_constraints,
        gate.mul_terms(env, terms, n).pass.cs.num_linear_combinations
            == gate.pass.cs.num_linear_combinations,
        gate.mul_terms(env, terms, n).pass.cs.num_instance == gate.pass.cs.num_instance,
    decreases n,
{
    if n > 0 {
        lemma_mul_terms_demand(gate, env, terms, (n - 1) as nat);
    }
}

/// Folding `n` linear terms asks for at most one witness variable each, and
/// writes no constraint.
pub proof fn lemma_linear_terms_demand(
    gate: Gate,
    env: Environment,
    terms: Seq<(FieldElement, Witness)>,
    n: nat,
)
    ensures
        gate.linear_terms(env, terms, n).pass.cs.num_witness <= gate.pass.cs.num_witness + n,
        gate.linear_terms(env, terms, n).pass.cs.num_constraints == gate.pass.cs.num_constraints,
        gate.linear_terms(env, terms, n).pass.cs.num_linear_combinations
            == gate.pass.cs.num_linear_combinations,
        gate.linear_terms(env, terms, n).pass.cs.num_instance == gate.pass.cs.num_instance,
    decreases n,
{
    if n > 0 {
        lemma_linear_terms_demand(gate, env, terms, (n - 1) as nat);
    }
}

/// One zero-assertion asks for no more than its demand, and writes at most
/// one constraint.
pub proof fn lemma_gate_demand(pass: Pass, env: Environment, expr: Expression)
    ensures
        pass.gate(env, expr).cs.num_witness <= pass.cs.num_witness + gate_demand(expr),
        pass.gate(env, expr).cs.num_constraints <= pass.cs.num_constraints + 1,
        pass.gate(env, expr).cs.num_linear_combinations <= pass.cs.num_linear_combinations + 3,
        pass.gate(env, expr).cs.num_instance == pass.cs.num_instance,
{
    let start = Gate { pass, acc: Map::empty() };
    lemma_mul_terms_demand(start, env, expr.mul_terms@, expr.mul_terms@.len());
    lemma_linear_terms_demand(
        start.mul_terms(env, expr.mul_terms@, expr.mul_terms@.len()),
        env,
        expr.linear_combinations@,
        expr.linear_combinations@.len(),
    );
}

/// The first `n` instructions ask for no more than their demand, and write
/// at most one constraint for every zero-assertion.
pub proof fn lemma_opcodes_demand(pass: Pass, env: Environment, ops: Seq<Opcode>, n: nat)
    ensures
        pass.opcodes(env, ops, n).cs.num_witness <= pass.cs.num_witness + demand(ops, n),
        pass.opcodes(env, ops, n).cs.num_constraints <= pass.cs.num_constraints + assertions(
            ops,
            n,
        ),
        pass.opcodes(env, ops, n).cs.num_linear_combinations <= pass.cs.num_linear_combinations
            + 3 * assertions(ops, n),
        pass.opcodes(env, ops, n).cs.num_instance == pass.cs.num_instance,
    decreases n,
{
    if n > 0 {
        lemma_opcodes_demand(pass, env, ops, (n - 1) as nat);
        match ops[n - 1] {
            Opcode::AssertZero(expr) => {
                lemma_gate_demand(pass.opcodes(env, ops, (n - 1) as nat), env, expr);
            },
            _ => {},
        }
    }
}

/// A system with room for the demand of the instructions and for one
/// constraint for every zero-assertion has room for any pass over them.
pub proof fn lemma_room_is_enough(cs: CsModel, env: Environment, ops: Seq<Opcode>)
    requires
        cs.room(demand(ops, ops.len()), assertions(ops, ops.len())),
    ensures
        constrain(cs, env, ops).cs.fits(),
{
    lemma_opcodes_demand(Pass::start(cs), env, ops, ops.len());
}

/// The demand of the instructions and the number of zero-assertions among
/// them, or nothing where either is more than the machine can count.
pub fn count_demand(ops: &Vec<Opcode>) -> (r: Option<(usize, usize)>)
    ensures
        match r {
            Some((witnesses, constraints)) => {
                &&& witnesses == demand(ops@, ops@.len())
                &&& constraints == assertions(ops@, ops@.len())
            },
            None => demand(ops@, ops@.len()) > usize::MAX || assertions(ops@, ops@.len())
                > usize::MAX,
        },
{
    let mut witnesses: usize = 0;
    let mut constraints: usize = 0;
    let mut i: usize = 0;
    while i < ops.len()
        invariant
            i <= ops@.len(),
            witnesses == demand(ops@, i as nat),
            constraints == assertions(ops@, i as nat),
        decreases ops@.len() - i,
    {
        proof {
            lemma_demand_grows(ops@, (i + 1) as nat, ops@.len());
        }
        match &ops[i] {
            Opcode::AssertZero(expr) => {
                let products = match expr.mul_terms.len().checked_mul(3) {
                    Some(n) => n,
                    None => {
                        return None;
                    },
                };
                let terms = match products.checked_add(expr.linear_combinations.len()) {
                    Some(n) => n,
                    None => {
                        return None;
                    },
                };
                witnesses = match witnesses.checked_add(terms) {
                    Some(n) => n,
                    None => {
                        return None;
                    },
                };
                constraints = match constraints.checked_add(1) {
                    Some(n) => n,
                    None => {
                        return None;
                    },
                };
            },
            _ => {},
        }
        i += 1;
    }
    Some((witnesses, constraints))
}

/// Neither the demand nor the number of zero-assertions goes down with more
/// instructions.
pub proof fn lemma_demand_grows(ops: Seq<Opcode>, i: nat, n: nat)
    requires
        i <= n,
    ensures
        demand(ops, i) <= demand(ops, n),
        assertions(ops, i) <= assertions(ops, n),
    decreases n,
{
    if i < n {
        lemma_demand_grows(ops, i, (n - 1) as nat);
    }
}

/// The allocation table's one operation: the variable of `witness`. The
/// first request for an index allocates a witness variable in `cs`, seeded
/// with `value`, and records it; every later one hands the recorded variable
/// back and leaves `cs` alone.
///
/// The count of witness variables must stay within what the machine can
/// count: `cs.has_room(1, 0)` is enough.
pub fn allocate_variable(
    witness_map: &mut HashMap<u32, Variable>,
    witness: Witness,
    value: Option<FieldElement>,
    cs: &mut ConstraintSystem,
) -> (r: Result<Variable, SynthesisError>)
    requires
        running(old(cs)@, old(witness_map)@).lookup_or_allocate(
            witness.0,
            option_value(value),
        ).0.cs.num_witness <= usize::MAX,
    ensures
        ({
            let (pass, var) = running(old(cs)@, old(witness_map)@).lookup_or_allocate(
                witness.0,
                option_value(value),
            );
            &&& final(cs)@ == pass.cs
            &&& final(witness_map)@ == pass.table
            &&& r == outcome(pass, var)
        }),
{
    let found = match witness_map.get(&witness.0) {
        Some(var) => Some(*var),
        None => None,
    };
    match found {
        Some(var) => Ok(var),
        None => {
            match cs.new_witness_variable(value) {
                Ok(var) => {
                    witness_map.insert(witness.0, var);
                    Ok(var)
                },
                Err(e) => Err(e),
            }
        },
    }
}

/// The variable that stands for `index` in a constraint.
fn resolve(
    cs: &mut ConstraintSystem,
    table: &mut HashMap<u32, Variable>,
    values: &acvm::acir::native_types::WitnessMap,
    known: &HashMap<u32, Variable>,
    index: u32,
) -> (r: Result<Variable, SynthesisError>)
    requires
        running(old(cs)@, old(table)@).resolve(environment(*values, known@), index).0.cs.fits(),
    ensures
        ({
            let (pass, var) = running(old(cs)@, old(table)@).resolve(
                environment(*values, known@),
                index,
            );
            &&& final(cs)@ == pass.cs
            &&& final(table)@ == pass.table
            &&& r == outcome(pass, var)
        }),
{
    let bound = match known.get(&index) {
        Some(var) => Some(*var),
        None => None,
    };
    match bound {
        Some(var) => Ok(var),
        None => {
            let value = witness_map_get(values, index);
            allocate_variable(table, Witness(index), value, cs)
        },
    }
}

/// One product is folded into the accumulator.
fn fold_mul_term(
    cs: &mut ConstraintSystem,
    table: &mut HashMap<u32, Variable>,
    acc: &mut LinearCombination,
    values: &acvm::acir::native_types::WitnessMap,
    known: &HashMap<u32, Variable>,
    term: (FieldElement, Witness, Witness),
) -> (r: Result<(), SynthesisError>)
    requires
        (Gate { pass: running(old(cs)@, old(table)@), acc: old(acc)@ }).mul_term(
            environment(*values, known@),
            term,
        ).pass.cs.fits(),
    ensures
        ({
            let gate = (Gate { pass: running(old(cs)@, old(table)@), acc: old(acc)@ }).mul_term(
                environment(*values, known@),
                term,
            );
            &&& final(cs)@ == gate.pass.cs
            &&& final(table)@ == gate.pass.table
            &&& final(acc)@ == gate.acc
            &&& r == outcome(gate.pass, ())
        }),
{
    match resolve(cs, table, values, known, term.1.0) {
        Ok(_) => {},
        Err(e) => {
            return Err(e);
        },
    }
    match resolve(cs, table, values, known, term.2.0) {
        Ok(_) => {},
        Err(e) => {
            return Err(e);
        },
    }
    let product = match (witness_map_get(values, term.1.0), witness_map_get(values, term.2.0)) {
        (Some(left), Some(right)) => left.mul(&right),
        _ => FieldElement::zero(),
    };
    let value = term.0.mul(&product);
    match cs.new_witness_variable(Some(value)) {
        Ok(aux) => {
            acc.add_assign(FieldElement::one(), aux);
            Ok(())
        },
        Err(e) => Err(e),
    }
}

/// One linear term is folded into the accumulator.
fn fold_linear_term(
    cs: &mut ConstraintSystem,
    table: &mut HashMap<u32, Variable>,
    acc: &mut LinearCombination,
    values: &acvm::acir::native_types::WitnessMap,
    known: &HashMap<u32, Variable>,
    term: (FieldElement, Witness),
) -> (r: Result<(), SynthesisError>)
    requires
        (Gate { pass: running(old(cs)@, old(table)@), acc: old(acc)@ }).linear_term(
            environment(*values, known@),
            term,
        ).pass.cs.fits(),
    ensures
        ({
            let gate = (Gate { pass: running(old(cs)@, old(table)@), acc: old(acc)@ }).linear_term(
                environment(*values, known@),
                term,
            );
            &&& final(cs)@ == gate.pass.cs
            &&& final(table)@ == gate.pass.table
            &&& final(acc)@ == gate.acc
            &&& r == outcome(gate.pass, ())
        }),
{
    match resolve(cs, table, values, known, term.1.0) {
        Ok(var) => {
            acc.add_assign(term.0, var);
            Ok(())
        },
        Err(e) => Err(e),
    }
}

/// One zero-assertion becomes one constraint.
fn constrain_gate(
    cs: &mut ConstraintSystem,
    table: &mut HashMap<u32, Variable>,
    values: &acvm::acir::native_types::WitnessMap,
    known: &HashMap<u32, Variable>,
    expr: &Expression,
) -> (r: Result<(), SynthesisError>)
    requires
        running(old(cs)@, old(table)@).gate(environment(*values, known@), *expr).cs.fits(),
    ensures
        ({
            let pass = running(old(cs)@, old(table)@).gate(environment(*values, known@), *expr);
            &&& final(cs)@ == pass.cs
            &&& final(table)@ == pass.table
            &&& r == outcome(pass, ())
        }),
{
    let ghost env = environment(*values, known@);
    let ghost start = Gate { pass: running(cs@, table@), acc: Map::empty() };
    let ghost products = start.mul_terms(env, expr.mul_terms@, expr.mul_terms@.len());
    let ghost linear = products.linear_terms(
        env,
        expr.linear_combinations@,
        expr.linear_combinations@.len(),
    );
    let ghost end = running(cs@, table@).gate(env, *expr);
    proof {
        lemma_linear_terms_count_up(
            products,
            env,
            expr.linear_combinations@,
            0,
            expr.linear_combinations@.len(),
        );
    }
    let mut acc = LinearCombination::new();
    let mut i: usize = 0;
    while i < expr.mul_terms.len()
        invariant
            i <= expr.mul_terms@.len(),
            env == environment(*values, known@),
            (Gate { pass: running(cs@, table@), acc: acc@ }) == start.mul_terms(
                env,
                expr.mul_terms@,
                i as nat,
            ),
            start == (Gate { pass: running(old(cs)@, old(table)@), acc: Map::empty() }),
            products == start.mul_terms(env, expr.mul_terms@, expr.mul_terms@.len()),
            products.pass.cs.fits(),
            end == start.pass.gate(env, *expr),
        decreases expr.mul_terms@.len() - i,
    {
        let term = expr.mul_terms[i];
        proof {
            lemma_mul_terms_count_up(
                start,
                env,
                expr.mul_terms@,
                (i + 1) as nat,
                expr.mul_terms@.len(),
            );
        }
        match fold_mul_term(cs, table, &mut acc, values, known, term) {
            Ok(_) => {},
            Err(e) => {
                proof {
                    lemma_mul_terms_stay_failed(
                        start,
                        env,
                        expr.mul_terms@,
                        (i + 1) as nat,
                        expr.mul_terms@.len(),
                    );
                    lemma_linear_terms_stay_failed(
                        products,
                        env,
                        expr.linear_combinations@,
                        0,
                        expr.linear_combinations@.len(),
                    );
                }
                return Err(e);
            },
        }
        i += 1;
    }
    let mut j: usize = 0;
    while j < expr.linear_combinations.len()
        invariant
            j <= expr.linear_combinations@.len(),
            env == environment(*values, known@),
            (Gate { pass: running(cs@, table@), acc: acc@ }) == products.linear_terms(
                env,
                expr.linear_combinations@,
                j as nat,
            ),
            linear == products.linear_terms(
                env,
                expr.linear_combinations@,
                expr.linear_combinations@.len(),
            ),
            linear.pass.cs.fits(),
            end == running(old(cs)@, old(table)@).gate(env, *expr),
            end == linear.pass.emit(add_term(linear.acc, expr.q_c@, Variable::One)),
        decreases expr.linear_combinations@.len() - j,
    {
        let term = expr.linear_combinations[j];
        proof {
            lemma_linear_terms_count_up(
                products,
                env,
                expr.linear_combinations@,
                (j + 1) as nat,
                expr.linear_combinations@.len(),
            );
        }
        match fold_linear_term(cs, table, &mut acc, values, known, term) {
            Ok(_) => {},
            Err(e) => {
                proof {
                    lemma_linear_terms_stay_failed(
                        products,
                        env,
                        expr.linear_combinations@,
                        (j + 1) as nat,
                        expr.linear_combinations@.len(),
                    );
                }
                return Err(e);
            },
        }
        j += 1;
    }
    acc.add_assign(expr.q_c, Variable::One);
    let mut one = LinearCombination::new();
    one.add_assign(FieldElement::one(), Variable::One);
    let zero = LinearCombination::new();
    cs.enforce_constraint(one, acc, zero)
}

/// A circuit's instructions, the assignment to constrain them under, and
/// the variables that the caller has already bound.
pub struct AcirCircuitSonobe<'a> {
    /// The instructions, in order.
    pub opcodes: &'a Vec<Opcode>,
    /// The assignment. It may be partial, or empty.
    pub values: acvm::acir::native_types::WitnessMap,
    /// The caller's variables, by the witness index that each stands for.
    pub already_assigned_witnesses: HashMap<u32, Variable>,
}

impl<'a> AcirCircuitSonobe<'a> {
    /// The environment of the pass that `generate_constraints` makes.
    pub open spec fn env(&self) -> Environment {
        environment(self.values, self.already_assigned_witnesses@)
    }

    /// Whether `cs` has room for whatever a pass over the instructions may
    /// ask of it. It has, if its counters can take three witness variables
    /// for every product, one for every linear term, and one constraint for
    /// every zero-assertion.
    pub fn has_room(&self, cs: &ConstraintSystem) -> (r: bool)
        ensures
            r == cs@.room(
                demand(self.opcodes@, self.opcodes@.len()),
                assertions(self.opcodes@, self.opcodes@.len()),
            ),
            r ==> constrain(cs@, self.env(), self.opcodes@).cs.fits(),
    {
        let fits = match count_demand(self.opcodes) {
            Some((witnesses, constraints)) => cs.has_room(witnesses, constraints),
            None => false,
        };
        proof {
            if fits {
                lemma_room_is_enough(cs@, self.env(), self.opcodes@);
            }
        }
        fits
    }

    /// Writes one constraint to `cs` for every zero-assertion, in order, on a
    /// fresh allocation table. The pass ends at the first allocation or
    /// enforcement that `cs` refuses, with that error; what was written to
    /// `cs` until then stays.
    ///
    /// The counters of `cs` must be able to take what the pass adds to them.
    /// `has_room` tells whether they can, whatever the assignment.
    pub fn generate_constraints(&self, cs: &mut ConstraintSystem) -> (r: Result<(), SynthesisError>)
        requires
            constrain(old(cs)@, self.env(), self.opcodes@).cs.fits(),
        ensures
            final(cs)@ == constrain(old(cs)@, self.env(), self.opcodes@).cs,
            r == outcome(constrain(old(cs)@, self.env(), self.opcodes@), ()),
    {
        let ghost env = self.env();
        let ghost start = Pass::start(cs@);
        let mut table: HashMap<u32, Variable> = HashMap::new();
        let mut i: usize = 0;
        while i < self.opcodes.len()
            invariant
                i <= self.opcodes@.len(),
                env == self.env(),
                start == Pass::start(old(cs)@),
                running(cs@, table@) == start.opcodes(env, self.opcodes@, i as nat),
                start.opcodes(env, self.opcodes@, self.opcodes@.len()).cs.fits(),
            decreases self.opcodes@.len() - i,
        {
            proof {
                lemma_opcodes_count_up(
                    start,
                    env,
                    self.opcodes@,
                    (i + 1) as nat,
                    self.opcodes@.len(),
                );
            }
            match &self.opcodes[i] {
                Opcode::AssertZero(expr) => {
                    match constrain_gate(
                        cs,
                        &mut table,
                        &self.values,
                        &self.already_assigned_witnesses,
                        expr,
                    ) {
                        Ok(_) => {},
                        Err(e) => {
                            proof {
                                lemma_opcodes_stay_failed(
                                    start,
                                    env,
                                    self.opcodes@,
                                    (i + 1) as nat,
                                    self.opcodes@.len(),
                                );
                            }
                            return Err(e);
                        },
                    }
                },
                _ => {},
            }
            i += 1;
        }
        Ok(())
    }
}

} // verus!
