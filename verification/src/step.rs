//! One step of an incremental computation over a circuit's shape: which
//! input each parameter is bound to, how the next state is allocated, and
//! what the whole step writes to the constraint system.

use crate::acir::{
    witness_map_get, witness_map_insert, witness_map_new, witness_map_values, CircuitShape,
    Opcode, Shape,
};
use crate::bridge::{
    count_demand, lemma_opcodes_count_up, lemma_opcodes_demand, AcirCircuitSonobe,
};
use crate::error::SynthesisError;
use crate::field::option_value;
use crate::laws::{
    all_covered, appends, law_one_variable_per_index, law_pass_only_appends,
    law_prove_comes_through, products,
};
use crate::model::{assertions, constrain, demand, step, Environment, Pass, Step};
use crate::r1cs::{AllocatedFp, ConstraintSystem, CsModel, Variable};
use std::collections::HashMap;
use vstd::prelude::*;

verus! {

broadcast use vstd::std_specs::hash::group_hash_axioms;

/// Whether `w` is among the first `n` of `params`.
pub open spec fn among(params: Seq<u32>, n: int, w: u32) -> bool {
    exists|k: int| 0 <= k < n && #[trigger] params[k] == w
}

/// The values as the contracts read them: each variable with its value.
pub open spec fn allocated_view(vars: Seq<AllocatedFp>) -> Seq<(Variable, Option<nat>)> {
    vars.map_values(|fp: AllocatedFp| (fp.variable, option_value(fp.value)))
}

impl Shape {
    /// The circuit takes a state of `state_len` values and returns one.
    pub open spec fn has_arity(self, state_len: usize) -> bool {
        &&& self.public_parameters.len() == state_len
        &&& self.return_values.len() == state_len
    }

    /// Every parameter has its place in the inputs: a public parameter's
    /// index is a place in the state, and a private parameter's index, less
    /// the length of the state, is a place in the external input.
    pub open spec fn accepts(self, state_len: nat, external_len: nat) -> bool {
        &&& forall|k: int|
            0 <= k < self.public_parameters.len()
                ==> #[trigger] self.public_parameters[k] < state_len
        &&& forall|k: int|
            0 <= k < self.private_parameters.len() ==> state_len
                <= #[trigger] self.private_parameters[k] < state_len + external_len
    }

    /// The input that a witness index is bound to, if it is a parameter. An
    /// index that is both private and public goes by the external input.
    pub open spec fn input(self, z_i: Seq<AllocatedFp>, external: Seq<AllocatedFp>, w: u32) -> Option<
        AllocatedFp,
    > {
        if among(self.private_parameters, self.private_parameters.len() as int, w) {
            Some(external[w - z_i.len()])
        } else if among(
            self.public_parameters,
            self.public_parameters.len() as int,
            w,
        ) {
            Some(z_i[w as int])
        } else {
            None
        }
    }

    /// The caller's variables, by the witness index that each is bound to.
    pub open spec fn known(self, z_i: Seq<AllocatedFp>, external: Seq<AllocatedFp>) -> Map<
        u32,
        Variable,
    > {
        Map::new(
            |w: u32| self.input(z_i, external, w) is Some,
            |w: u32| self.input(z_i, external, w).unwrap().variable,
        )
    }

    /// The values that the solver is seeded with: those of the inputs.
    pub open spec fn seed(self, z_i: Seq<AllocatedFp>, external: Seq<AllocatedFp>) -> Map<
        u32,
        nat,
    > {
        Map::new(
            |w: u32| self.input(z_i, external, w) is Some,
            |w: u32| self.input(z_i, external, w).unwrap().value.unwrap()@,
        )
    }

    /// Every input that a parameter is bound to has a value.
    pub open spec fn inputs_valued(self, z_i: Seq<AllocatedFp>, external: Seq<AllocatedFp>) -> bool {
        &&& forall|k: int|
            0 <= k < self.public_parameters.len()
                ==> z_i[(#[trigger] self.public_parameters[k]) as int].value is Some
        &&& forall|k: int|
            0 <= k < self.private_parameters.len()
                ==> external[(#[trigger] self.private_parameters[k]) - z_i.len()].value is Some
    }

    /// The step that an assignment leads to.
    pub open spec fn step_under(
        self,
        cs: CsModel,
        z_i: Seq<AllocatedFp>,
        external: Seq<AllocatedFp>,
        values: Map<u32, nat>,
    ) -> Step {
        step(
            cs,
            Environment { values, known: self.known(z_i, external) },
            self.return_values,
            self.opcodes,
        )
    }

    /// A public parameter that is not also private is bound to the state's
    /// own variable at its index.
    pub proof fn law_state_is_bound(self, z_i: Seq<AllocatedFp>, external: Seq<AllocatedFp>, k: int)
        requires
            0 <= k < self.public_parameters.len(),
            !among(
                self.private_parameters,
                self.private_parameters.len() as int,
                self.public_parameters[k],
            ),
        ensures
            self.known(z_i, external).contains_key(self.public_parameters[k]),
            self.known(z_i, external)[self.public_parameters[k]]
                == z_i[self.public_parameters[k] as int].variable,
    {
    }

    /// A private parameter is bound to the external input's own variable at
    /// its index less the length of the state.
    pub proof fn law_external_input_is_bound(
        self,
        z_i: Seq<AllocatedFp>,
        external: Seq<AllocatedFp>,
        k: int,
    )
        requires
            0 <= k < self.private_parameters.len(),
        ensures
            self.known(z_i, external).contains_key(self.private_parameters[k]),
            self.known(z_i, external)[self.private_parameters[k]]
                == external[self.private_parameters[k] - z_i.len()].variable,
    {
    }
}

/// Whether an answer is the one that a step has come to.
pub open spec fn answers(r: Result<Vec<AllocatedFp>, SynthesisError>, step: Step) -> bool {
    match r {
        Ok(outputs) => step.failure is None && allocated_view(outputs@) == step.outputs,
        Err(e) => step.failure == Some(e),
    }
}

/// Being among the first `n + 1` is being among the first `n` or being the
/// next.
pub proof fn lemma_among_next(params: Seq<u32>, n: int, w: u32)
    requires
        0 <= n < params.len(),
    ensures
        among(params, n + 1, w) <==> (among(params, n, w) || params[n] == w),
{
    if among(params, n + 1, w) {
        let k = choose|k: int| 0 <= k < n + 1 && #[trigger] params[k] == w;
        if k < n {
            assert(among(params, n, w));
        }
    }
    if among(params, n, w) {
        let k = choose|k: int| 0 <= k < n && #[trigger] params[k] == w;
        assert(0 <= k < n + 1 && params[k] == w);
    }
    if params[n] == w {
        assert(0 <= n < n + 1 && params[n] == w);
    }
}

/// A step that has failed is left alone by every later output.
pub proof fn lemma_outputs_stay_failed(
    start: Step,
    values: Map<u32, nat>,
    results: Seq<u32>,
    i: nat,
    n: nat,
)
    requires
        i <= n,
        start.outputs_upto(values, results, i).failed(),
    ensures
        start.outputs_upto(values, results, n) == start.outputs_upto(values, results, i),
    decreases n,
{
    if i < n {
        lemma_outputs_stay_failed(start, values, results, i, (n - 1) as nat);
    }
}

/// The counters never go back while outputs are allocated.
pub proof fn lemma_outputs_count_up(
    start: Step,
    values: Map<u32, nat>,
    results: Seq<u32>,
    i: nat,
    n: nat,
)
    requires
        i <= n,
    ensures
        start.outputs_upto(values, results, i).cs.before(
            start.outputs_upto(values, results, n).cs,
        ),
    decreases n,
{
    if i < n {
        lemma_outputs_count_up(start, values, results, i, (n - 1) as nat);
    }
}

/// What the outputs are once `n` of them are allocated without failure.
proof fn lemma_outputs_listed(cs: CsModel, values: Map<u32, nat>, results: Seq<u32>, n: nat)
    requires
        n <= results.len(),
        !Step::start(cs).outputs_upto(values, results, n).failed(),
    ensures
        ({
            let after = Step::start(cs).outputs_upto(values, results, n);
            &&& after.outputs.len() == n
            &&& after.cs.mode == cs.mode
            &&& after.cs.num_witness == cs.num_witness + n
            &&& after.cs.witness_values.len() == cs.witness_values.len() + if cs.mode is Prove {
                n
            } else {
                0
            }
            &&& !(cs.mode is Prove) ==> after.cs.witness_values == cs.witness_values
            &&& forall|k: int|
                0 <= k < n ==> {
                    &&& values.contains_key(results[k])
                    &&& (#[trigger] after.outputs[k]).0 == Variable::Witness(
                        (cs.num_witness + k) as usize,
                    )
                    &&& after.outputs[k].1 == if cs.mode is Prove {
                        if cs.witness_values.len() == cs.num_witness {
                            Some(values[results[k]])
                        } else {
                            after.outputs[k].1
                        }
                    } else {
                        cs.witness_value((cs.num_witness + k) as nat)
                    }
                }
        }),
    decreases n,
{
    if n > 0 {
        if Step::start(cs).outputs_upto(values, results, (n - 1) as nat).failed() {
            lemma_outputs_stay_failed(Step::start(cs), values, results, (n - 1) as nat, n);
        } else {
            lemma_outputs_listed(cs, values, results, (n - 1) as nat);
            let before = Step::start(cs).outputs_upto(values, results, (n - 1) as nat);
            let after = before.output(values, results[n - 1]);
            assert forall|k: int| 0 <= k < n - 1 implies #[trigger] after.outputs[k]
                == before.outputs[k] by {}
        }
    }
}

/// The next state of a step that comes through: one output for every return
/// value, in order. The outputs are the witness variables that follow those
/// which the system had. On a system in prove mode that has a value for
/// every witness variable, each output carries the assignment's value for
/// its return value; on a system in setup mode without values, none.
pub proof fn law_next_state(
    cs: CsModel,
    env: Environment,
    results: Seq<u32>,
    ops: Seq<Opcode>,
    k: int,
)
    requires
        step(cs, env, results, ops).failure is None,
        0 <= k < results.len(),
    ensures
        step(cs, env, results, ops).outputs.len() == results.len(),
        step(cs, env, results, ops).outputs[k].0 == Variable::Witness(
            (cs.num_witness + k) as usize,
        ),
        cs.mode is Prove && cs.witness_values.len() == cs.num_witness ==> env.values.contains_key(
            results[k],
        ) && step(cs, env, results, ops).outputs[k].1 == Some(env.values[results[k]]),
        cs.mode is Setup && cs.witness_values.len() == 0 ==> step(
            cs,
            env,
            results,
            ops,
        ).outputs[k].1 is None,
{
    lemma_outputs_listed(cs, env.values, results, results.len());
}

/// Allocating outputs only appends.
proof fn lemma_outputs_append(start: Step, values: Map<u32, nat>, results: Seq<u32>, n: nat)
    ensures
        appends(start.cs, start.outputs_upto(values, results, n).cs),
    decreases n,
{
    if n > 0 {
        lemma_outputs_append(start, values, results, (n - 1) as nat);
        let before = start.outputs_upto(values, results, (n - 1) as nat);
        assert(appends(before.cs, before.output(values, results[n - 1]).cs));
    }
}

/// Outputs whose return values all have a value come through in prove mode.
proof fn lemma_outputs_come_through(start: Step, values: Map<u32, nat>, results: Seq<u32>, n: nat)
    requires
        n <= results.len(),
        start.cs.mode is Prove,
        !start.failed(),
        forall|k: int| 0 <= k < results.len() ==> values.contains_key(#[trigger] results[k]),
    ensures
        start.outputs_upto(values, results, n).cs.mode is Prove,
        !start.outputs_upto(values, results, n).failed(),
    decreases n,
{
    if n > 0 {
        lemma_outputs_come_through(start, values, results, (n - 1) as nat);
        assert(values.contains_key(results[n - 1]));
    }
}

/// A step only appends, and it makes no instance variable. Whatever the
/// mode and whether or not it comes through, the system keeps its mode and
/// its count of instance variables, and every value and every constraint
/// that it had stays in its place.
pub proof fn law_step_only_appends(cs: CsModel, env: Environment, results: Seq<u32>, ops: Seq<Opcode>)
    ensures
        appends(cs, step(cs, env, results, ops).cs),
        step(cs, env, results, ops).cs.num_instance == cs.num_instance,
{
    let allocated = Step::start(cs).outputs_upto(env.values, results, results.len());
    lemma_outputs_append(Step::start(cs), env.values, results, results.len());
    law_pass_only_appends(allocated.cs, env, ops);
}

/// On a system in prove mode a step comes through if every return value
/// has a value and every witness index that a zero-assertion mentions has a
/// value or a binding.
pub proof fn law_step_comes_through(cs: CsModel, env: Environment, results: Seq<u32>, ops: Seq<Opcode>)
    requires
        cs.mode is Prove,
        forall|k: int| 0 <= k < results.len() ==> env.values.contains_key(#[trigger] results[k]),
        all_covered(env, ops, ops.len()),
    ensures
        step(cs, env, results, ops).failure is None,
{
    let allocated = Step::start(cs).outputs_upto(env.values, results, results.len());
    lemma_outputs_come_through(Step::start(cs), env.values, results, results.len());
    law_prove_comes_through(allocated.cs, env, ops);
}

/// The table of the pass that a step makes once the outputs are allocated.
pub open spec fn step_table(cs: CsModel, env: Environment, results: Seq<u32>, ops: Seq<Opcode>) -> Map<
    u32,
    Variable,
> {
    constrain(
        Step::start(cs).outputs_upto(env.values, results, results.len()).cs,
        env,
        ops,
    ).table
}

/// A step that comes through makes exactly one witness variable for every
/// return value, one for every witness index in the table of its pass, and
/// one for every product, and none else. The table holds no index that the
/// caller has bound: see `law_table_holds_the_unbound_indices`.
pub proof fn law_step_makes(cs: CsModel, env: Environment, results: Seq<u32>, ops: Seq<Opcode>)
    requires
        step(cs, env, results, ops).failure is None,
        step(cs, env, results, ops).cs.num_witness <= usize::MAX,
    ensures
        step_table(cs, env, results, ops).dom().finite(),
        step(cs, env, results, ops).cs.num_witness == cs.num_witness + results.len() + step_table(
            cs,
            env,
            results,
            ops,
        ).dom().len() + products(ops, ops.len()),
{
    let allocated = Step::start(cs).outputs_upto(env.values, results, results.len());
    lemma_outputs_listed(cs, env.values, results, results.len());
    law_one_variable_per_index(allocated.cs, env, ops, 0, 0);
}

/// Allocating `n` outputs asks for at most one witness variable each, and
/// writes no constraint.
pub proof fn lemma_outputs_demand(start: Step, values: Map<u32, nat>, results: Seq<u32>, n: nat)
    ensures
        start.outputs_upto(values, results, n).cs.num_witness <= start.cs.num_witness + n,
        start.outputs_upto(values, results, n).cs.num_constraints == start.cs.num_constraints,
        start.outputs_upto(values, results, n).cs.num_linear_combinations
            == start.cs.num_linear_combinations,
        start.outputs_upto(values, results, n).cs.num_instance == start.cs.num_instance,
    decreases n,
{
    if n > 0 {
        lemma_outputs_demand(start, values, results, (n - 1) as nat);
    }
}

/// A system with room for one witness variable for every return value, for
/// the demand of the instructions and for one constraint for every
/// zero-assertion has room for any step.
pub proof fn lemma_room_for_step(
    cs: CsModel,
    env: Environment,
    results: Seq<u32>,
    ops: Seq<Opcode>,
)
    requires
        cs.room(results.len() + demand(ops, ops.len()), assertions(ops, ops.len())),
    ensures
        step(cs, env, results, ops).cs.fits(),
{
    let allocated = Step::start(cs).outputs_upto(env.values, results, results.len());
    lemma_outputs_demand(Step::start(cs), env.values, results, results.len());
    lemma_opcodes_demand(Pass::start(allocated.cs), env, ops, ops.len());
}

impl CircuitShape {
    /// Whether `cs` has room for whatever a step may ask of it. It has, if
    /// its counters can take one witness variable for every return value,
    /// three for every product, one for every linear term, and one
    /// constraint for every zero-assertion.
    pub fn has_room(&self, cs: &ConstraintSystem) -> (r: bool)
        ensures
            r == cs@.room(
                self@.return_values.len() + demand(
                    self@.opcodes,
                    self@.opcodes.len(),
                ),
                assertions(self@.opcodes, self@.opcodes.len()),
            ),
            r ==> forall|z_i: Seq<AllocatedFp>, external: Seq<AllocatedFp>, values: Map<u32, nat>|
                (#[trigger] self@.step_under(cs@, z_i, external, values)).cs.fits(),
    {
        let fits = match count_demand(&self.opcodes) {
            Some((witnesses, constraints)) => match witnesses.checked_add(
                self.return_values.len(),
            ) {
                Some(witnesses) => cs.has_room(witnesses, constraints),
                None => false,
            },
            None => false,
        };
        proof {
            if fits {
                assert forall|z_i: Seq<AllocatedFp>, external: Seq<AllocatedFp>, values: Map<u32, nat>|
                    (#[trigger] self@.step_under(cs@, z_i, external, values)).cs.fits() by {
                    lemma_room_for_step(
                        cs@,
                        Environment { values, known: self@.known(z_i, external) },
                        self@.return_values,
                        self@.opcodes,
                    );
                }
            }
        }
        fits
    }

    /// Whether a state of `state_len` values and an external input of
    /// `external_len` values have a place for every parameter.
    pub fn accepts_inputs(&self, state_len: usize, external_len: usize) -> (r: bool)
        ensures
            r == self@.accepts(state_len as nat, external_len as nat),
    {
        let mut i: usize = 0;
        while i < self.public_parameters.len()
            invariant
                i <= self@.public_parameters.len(),
                forall|k: int|
                    0 <= k < i ==> #[trigger] self@.public_parameters[k] < state_len,
            decreases self@.public_parameters.len() - i,
        {
            if self.public_parameters[i] as usize >= state_len {
                return false;
            }
            i += 1;
        }
        let mut j: usize = 0;
        while j < self.private_parameters.len()
            invariant
                j <= self@.private_parameters.len(),
                forall|k: int|
                    0 <= k < self@.public_parameters.len()
                        ==> #[trigger] self@.public_parameters[k] < state_len,
                forall|k: int|
                    0 <= k < j ==> state_len <= #[trigger] self@.private_parameters[k]
                        < state_len + external_len,
            decreases self@.private_parameters.len() - j,
        {
            let w = self.private_parameters[j] as usize;
            if w < state_len || w - state_len >= external_len {
                return false;
            }
            j += 1;
        }
        true
    }

    /// Binds every parameter to its input: the variable goes to the table of
    /// known variables and the value to the solver's seed. Without a value
    /// for every input there is no seed.
    pub(crate) fn bind_inputs(&self, z_i: &[AllocatedFp], external_inputs: &[AllocatedFp]) -> (r: (
        HashMap<u32, Variable>,
        Option<acvm::acir::native_types::WitnessMap>,
    ))
        requires
            self@.accepts(z_i@.len(), external_inputs@.len()),
        ensures
            r.0@ == self@.known(z_i@, external_inputs@),
            match r.1 {
                Some(seed) => {
                    &&& self@.inputs_valued(z_i@, external_inputs@)
                    &&& witness_map_values(seed) == self@.seed(z_i@, external_inputs@)
                },
                None => !self@.inputs_valued(z_i@, external_inputs@),
            },
    {
        let ghost public = self@.public_parameters;
        let ghost private = self@.private_parameters;
        let mut known: HashMap<u32, Variable> = HashMap::new();
        let mut seed = witness_map_new();
        let mut valued = true;
        let mut i: usize = 0;
        while i < self.public_parameters.len()
            invariant
                i <= public.len(),
                public == self@.public_parameters,
                self@.accepts(z_i@.len(), external_inputs@.len()),
                known@ == Map::new(
                    |w: u32| among(public, i as int, w),
                    |w: u32| z_i@[w as int].variable,
                ),
                valued <==> forall|k: int|
                    0 <= k < i ==> z_i@[(#[trigger] public[k]) as int].value is Some,
                valued ==> witness_map_values(seed) == Map::new(
                    |w: u32| among(public, i as int, w),
                    |w: u32| z_i@[w as int].value.unwrap()@,
                ),
            decreases public.len() - i,
        {
            let w = self.public_parameters[i];
            let input = z_i[w as usize];
            known.insert(w, input.variable);
            match input.value {
                Some(value) => {
                    if valued {
                        witness_map_insert(&mut seed, w, value);
                    }
                },
                None => {
                    valued = false;
                },
            }
            proof {
                assert forall|v: u32|
                    among(public, i + 1, v) <==> (among(public, i as int, v) || public[i as int]
                        == v) by {
                    lemma_among_next(public, i as int, v);
                }
                assert(known@ =~= Map::new(
                    |w: u32| among(public, i + 1, w),
                    |w: u32| z_i@[w as int].variable,
                ));
                if valued {
                    assert(witness_map_values(seed) =~= Map::new(
                        |w: u32| among(public, i + 1, w),
                        |w: u32| z_i@[w as int].value.unwrap()@,
                    ));
                }
            }
            i += 1;
        }
        let mut j: usize = 0;
        while j < self.private_parameters.len()
            invariant
                j <= private.len(),
                public == self@.public_parameters,
                private == self@.private_parameters,
                self@.accepts(z_i@.len(), external_inputs@.len()),
                known@ == Map::new(
                    |w: u32| among(private, j as int, w) || among(public, public.len() as int, w),
                    |w: u32|
                        if among(private, j as int, w) {
                            external_inputs@[w - z_i@.len()].variable
                        } else {
                            z_i@[w as int].variable
                        },
                ),
                valued <==> {
                    &&& forall|k: int|
                        0 <= k < public.len() ==> z_i@[(#[trigger] public[k]) as int].value is Some
                    &&& forall|k: int|
                        0 <= k < j ==> external_inputs@[(#[trigger] private[k])
                            - z_i@.len()].value is Some
                },
                valued ==> witness_map_values(seed) == Map::new(
                    |w: u32| among(private, j as int, w) || among(public, public.len() as int, w),
                    |w: u32|
                        if among(private, j as int, w) {
                            external_inputs@[w - z_i@.len()].value.unwrap()@
                        } else {
                            z_i@[w as int].value.unwrap()@
                        },
                ),
            decreases private.len() - j,
        {
            let w = self.private_parameters[j];
            let input = external_inputs[w as usize - z_i.len()];
            known.insert(w, input.variable);
            match input.value {
                Some(value) => {
                    if valued {
                        witness_map_insert(&mut seed, w, value);
                    }
                },
                None => {
                    valued = false;
                },
            }
            proof {
                assert forall|v: u32|
                    among(private, j + 1, v) <==> (among(private, j as int, v) || private[j as int]
                        == v) by {
                    lemma_among_next(private, j as int, v);
                }
                assert(known@ =~= Map::new(
                    |w: u32| among(private, j + 1, w) || among(public, public.len() as int, w),
                    |w: u32|
                        if among(private, j + 1, w) {
                            external_inputs@[w - z_i@.len()].variable
                        } else {
                            z_i@[w as int].variable
                        },
                ));
                if valued {
                    assert(witness_map_values(seed) =~= Map::new(
                        |w: u32|
                            among(private, j + 1, w) || among(public, public.len() as int, w),
                        |w: u32|
                            if among(private, j + 1, w) {
                                external_inputs@[w - z_i@.len()].value.unwrap()@
                            } else {
                                z_i@[w as int].value.unwrap()@
                            },
                    ));
                }
            }
            j += 1;
        }
        proof {
            assert(known@ =~= self@.known(z_i@, external_inputs@));
            if valued {
                assert(witness_map_values(seed) =~= self@.seed(z_i@, external_inputs@));
            }
        }
        if valued {
            (known, Some(seed))
        } else {
            (known, None)
        }
    }

    /// Allocates the next state: one fresh witness variable for every return
    /// value, seeded with the assignment's value.
    fn allocate_outputs(
        &self,
        cs: &mut ConstraintSystem,
        witness_map: &acvm::acir::native_types::WitnessMap,
    ) -> (r: Result<Vec<AllocatedFp>, SynthesisError>)
        requires
            Step::start(old(cs)@).outputs_upto(
                witness_map_values(*witness_map),
                self@.return_values,
                self@.return_values.len(),
            ).cs.fits(),
        ensures
            ({
                let allocated = Step::start(old(cs)@).outputs_upto(
                    witness_map_values(*witness_map),
                    self@.return_values,
                    self@.return_values.len(),
                );
                &&& final(cs)@ == allocated.cs
                &&& answers(r, allocated)
            }),
    {
        let ghost values = witness_map_values(*witness_map);
        let ghost results = self@.return_values;
        let ghost start = Step::start(cs@);
        let mut outputs: Vec<AllocatedFp> = Vec::new();
        let mut i: usize = 0;
        assert(allocated_view(outputs@) =~= Seq::empty());
        while i < self.return_values.len()
            invariant
                i <= results.len(),
                results == self@.return_values,
                values == witness_map_values(*witness_map),
                start == Step::start(old(cs)@),
                (Step { cs: cs@, outputs: allocated_view(outputs@), failure: None })
                    == start.outputs_upto(values, results, i as nat),
                start.outputs_upto(values, results, results.len()).cs.fits(),
            decreases results.len() - i,
        {
            proof {
                lemma_outputs_count_up(start, values, results, (i + 1) as nat, results.len());
            }
            let value = match witness_map_get(witness_map, self.return_values[i]) {
                Some(value) => value,
                None => {
                    proof {
                        lemma_outputs_stay_failed(
                            start,
                            values,
                            results,
                            (i + 1) as nat,
                            results.len(),
                        );
                    }
                    return Err(SynthesisError::AssignmentMissing);
                },
            };
            match cs.new_witness_fp(Some(value)) {
                Ok(output) => {
                    let ghost before = outputs@;
                    outputs.push(output);
                    assert(allocated_view(outputs@) =~= allocated_view(before).push(
                        (output.variable, option_value(output.value)),
                    ));
                },
                Err(e) => {
                    proof {
                        lemma_outputs_stay_failed(
                            start,
                            values,
                            results,
                            (i + 1) as nat,
                            results.len(),
                        );
                    }
                    return Err(e);
                },
            }
            i += 1;
        }
        Ok(outputs)
    }

    /// What a step writes, under an assignment that is already solved. The
    /// next state is allocated in `cs`, one fresh witness variable for every
    /// return value, and then the constraints are written to `cs`, with the
    /// variables of `z_i` and `external_inputs` standing for the parameters
    /// that they are bound to.
    pub fn constrain_step(
        &self,
        cs: &mut ConstraintSystem,
        z_i: &[AllocatedFp],
        external_inputs: &[AllocatedFp],
        witness_map: acvm::acir::native_types::WitnessMap,
    ) -> (r: Result<Vec<AllocatedFp>, SynthesisError>)
        requires
            self@.accepts(z_i@.len(), external_inputs@.len()),
            self@.step_under(
                old(cs)@,
                z_i@,
                external_inputs@,
                witness_map_values(witness_map),
            ).cs.fits(),
        ensures
            final(cs)@ == self@.step_under(
                old(cs)@,
                z_i@,
                external_inputs@,
                witness_map_values(witness_map),
            ).cs,
            answers(
                r,
                self@.step_under(old(cs)@, z_i@, external_inputs@, witness_map_values(witness_map)),
            ),
    {
        let ghost values = witness_map_values(witness_map);
        let ghost env = Environment { values, known: self@.known(z_i@, external_inputs@) };
        let ghost allocated = Step::start(cs@).outputs_upto(
            values,
            self@.return_values,
            self@.return_values.len(),
        );
        proof {
            if !allocated.failed() {
                lemma_opcodes_count_up(
                    Pass::start(allocated.cs),
                    env,
                    self@.opcodes,
                    0,
                    self@.opcodes.len(),
                );
            }
        }
        let (known, _) = self.bind_inputs(z_i, external_inputs);
        let outputs = match self.allocate_outputs(cs, &witness_map) {
            Ok(outputs) => outputs,
            Err(e) => {
                return Err(e);
            },
        };
        let circuit = AcirCircuitSonobe {
            opcodes: &self.opcodes,
            values: witness_map,
            already_assigned_witnesses: known,
        };
        assert(circuit.env() == env);
        match circuit.generate_constraints(cs) {
            Ok(_) => Ok(outputs),
            Err(e) => Err(e),
        }
    }
}

} // verus!
