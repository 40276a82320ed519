//! What holds of every pass over the instructions of a circuit.

use crate::acir::{Expression, Opcode, Witness};
use crate::bridge::{
    lemma_gate_counts_up, lemma_linear_terms_count_up, lemma_linear_terms_stay_failed,
    lemma_mul_terms_count_up, lemma_mul_terms_stay_failed, lemma_opcodes_count_up,
    lemma_opcodes_demand, lemma_opcodes_stay_failed,
};
use crate::error::SynthesisError;
use crate::field::FieldElement;
use crate::model::{assertions, one_term, constrain, Environment, Gate, Pass};
use crate::r1cs::{CsModel, Mode, Variable};
use vstd::prelude::*;

verus! {

/// Two constraint systems number alike: they are in the same mode and their
/// counters agree. What they have stored may differ.
pub open spec fn same_counters(a: CsModel, b: CsModel) -> bool {
    &&& a.mode == b.mode
    &&& a.num_instance == b.num_instance
    &&& a.num_witness == b.num_witness
    &&& a.num_constraints == b.num_constraints
    &&& a.num_linear_combinations == b.num_linear_combinations
}

/// Two passes stand alike: same table, same failure, systems that number
/// alike.
pub open spec fn alike(p: Pass, q: Pass) -> bool {
    &&& p.table == q.table
    &&& p.failure == q.failure
    &&& same_counters(p.cs, q.cs)
}

/// Resolving a witness index a second time hands back the variable of the
/// first time and changes nothing.
pub proof fn law_resolve_twice(pass: Pass, env: Environment, index: u32)
    requires
        !pass.resolve(env, index).0.failed(),
    ensures
        pass.resolve(env, index).0.resolve(env, index) == pass.resolve(env, index),
{
}

/// The allocation table answers a second request for an index with the
/// variable of the first, whatever value the second request carries, and
/// allocates nothing.
pub proof fn law_table_allocates_once(pass: Pass, index: u32, first: Option<nat>, second: Option<nat>)
    requires
        !pass.lookup_or_allocate(index, first).0.failed(),
    ensures
        pass.lookup_or_allocate(index, first).0.lookup_or_allocate(index, second)
            == pass.lookup_or_allocate(index, first),
{
}

/// A witness index that the caller has bound resolves to the caller's
/// variable: nothing is allocated for it and the table does not record it.
pub proof fn law_known_is_reused(pass: Pass, env: Environment, index: u32)
    requires
        !pass.failed(),
        env.known.contains_key(index),
    ensures
        pass.resolve(env, index) == (pass, env.known[index]),
{
}

/// Products that are folded into gates that stand alike leave them alike.
proof fn lemma_mul_terms_alike(
    g: Gate,
    h: Gate,
    env: Environment,
    terms: Seq<(FieldElement, Witness, Witness)>,
    n: nat,
)
    requires
        alike(g.pass, h.pass),
        g.acc == h.acc,
    ensures
        alike(g.mul_terms(env, terms, n).pass, h.mul_terms(env, terms, n).pass),
        g.mul_terms(env, terms, n).acc == h.mul_terms(env, terms, n).acc,
    decreases n,
{
    if n > 0 {
        lemma_mul_terms_alike(g, h, env, terms, (n - 1) as nat);
    }
}

/// Linear terms that are folded into gates that stand alike leave them
/// alike.
proof fn lemma_linear_terms_alike(
    g: Gate,
    h: Gate,
    env: Environment,
    terms: Seq<(FieldElement, Witness)>,
    n: nat,
)
    requires
        alike(g.pass, h.pass),
        g.acc == h.acc,
    ensures
        alike(g.linear_terms(env, terms, n).pass, h.linear_terms(env, terms, n).pass),
        g.linear_terms(env, terms, n).acc == h.linear_terms(env, terms, n).acc,
    decreases n,
{
    if n > 0 {
        lemma_linear_terms_alike(g, h, env, terms, (n - 1) as nat);
    }
}

/// A zero-assertion leaves passes that stand alike alike.
proof fn lemma_gate_alike(p: Pass, q: Pass, env: Environment, expr: Expression)
    requires
        alike(p, q),
    ensures
        alike(p.gate(env, expr), q.gate(env, expr)),
{
    let g = Gate { pass: p, acc: Map::empty() };
    let h = Gate { pass: q, acc: Map::empty() };
    lemma_mul_terms_alike(g, h, env, expr.mul_terms@, expr.mul_terms@.len());
    lemma_linear_terms_alike(
        g.mul_terms(env, expr.mul_terms@, expr.mul_terms@.len()),
        h.mul_terms(env, expr.mul_terms@, expr.mul_terms@.len()),
        env,
        expr.linear_combinations@,
        expr.linear_combinations@.len(),
    );
}

/// Instructions leave passes that stand alike alike.
proof fn lemma_opcodes_alike(p: Pass, q: Pass, env: Environment, ops: Seq<Opcode>, n: nat)
    requires
        alike(p, q),
    ensures
        alike(p.opcodes(env, ops, n), q.opcodes(env, ops, n)),
    decreases n,
{
    if n > 0 {
        lemma_opcodes_alike(p, q, env, ops, (n - 1) as nat);
        match ops[n - 1] {
            Opcode::AssertZero(expr) => {
                lemma_gate_alike(
                    p.opcodes(env, ops, (n - 1) as nat),
                    q.opcodes(env, ops, (n - 1) as nat),
                    env,
                    expr,
                );
            },
            _ => {},
        }
    }
}

/// A pass is determined by the instructions, the assignment, the caller's
/// bindings, and the mode and counters of the constraint system. On two
/// systems that number alike it resolves every witness index to the same
/// variable, ends with the same answer, and leaves the same counts of
/// variables and of constraints.
pub proof fn law_same_inputs_same_numbering(a: CsModel, b: CsModel, env: Environment, ops: Seq<Opcode>)
    requires
        same_counters(a, b),
    ensures
        constrain(a, env, ops).table == constrain(b, env, ops).table,
        constrain(a, env, ops).failure == constrain(b, env, ops).failure,
        same_counters(constrain(a, env, ops).cs, constrain(b, env, ops).cs),
{
    lemma_opcodes_alike(Pass::start(a), Pass::start(b), env, ops, ops.len());
}

/// Folding terms writes no constraint: what the system holds of
/// constraints stays, and so does its mode. In setup mode it cannot fail.
pub open spec fn terms_only(before: Pass, after: Pass) -> bool {
    &&& after.cs.mode == before.cs.mode
    &&& after.cs.num_constraints == before.cs.num_constraints
    &&& after.cs.num_linear_combinations == before.cs.num_linear_combinations
    &&& after.cs.constraints == before.cs.constraints
    &&& before.cs.mode is Setup && !before.failed() ==> !after.failed()
    &&& before.failed() ==> after == before
}

/// Products are terms only.
pub proof fn lemma_mul_terms_only(
    g: Gate,
    env: Environment,
    terms: Seq<(FieldElement, Witness, Witness)>,
    n: nat,
)
    ensures
        terms_only(g.pass, g.mul_terms(env, terms, n).pass),
    decreases n,
{
    if n > 0 {
        lemma_mul_terms_only(g, env, terms, (n - 1) as nat);
    }
}

/// Linear terms are terms only.
pub proof fn lemma_linear_terms_only(
    g: Gate,
    env: Environment,
    terms: Seq<(FieldElement, Witness)>,
    n: nat,
)
    ensures
        terms_only(g.pass, g.linear_terms(env, terms, n).pass),
    decreases n,
{
    if n > 0 {
        lemma_linear_terms_only(g, env, terms, (n - 1) as nat);
    }
}

/// What one zero-assertion does to the count of constraints: a pass that
/// comes through it has one more, and the mode stays.
pub proof fn lemma_gate_counts(p: Pass, env: Environment, expr: Expression)
    ensures
        p.gate(env, expr).cs.mode == p.cs.mode,
        p.failed() ==> p.gate(env, expr) == p,
        !p.gate(env, expr).failed() ==> !p.failed() && p.gate(env, expr).cs.num_constraints
            == p.cs.num_constraints + 1,
        p.cs.mode is Setup && !p.failed() ==> !p.gate(env, expr).failed(),
{
    let g = Gate { pass: p, acc: Map::empty() };
    let products = g.mul_terms(env, expr.mul_terms@, expr.mul_terms@.len());
    lemma_mul_terms_only(g, env, expr.mul_terms@, expr.mul_terms@.len());
    lemma_linear_terms_only(
        products,
        env,
        expr.linear_combinations@,
        expr.linear_combinations@.len(),
    );
}

proof fn lemma_opcodes_count(p: Pass, env: Environment, ops: Seq<Opcode>, n: nat)
    ensures
        p.opcodes(env, ops, n).cs.mode == p.cs.mode,
        !p.opcodes(env, ops, n).failed() ==> !p.failed() && p.opcodes(
            env,
            ops,
            n,
        ).cs.num_constraints == p.cs.num_constraints + assertions(ops, n),
        p.cs.mode is Setup && !p.failed() ==> !p.opcodes(env, ops, n).failed(),
    decreases n,
{
    if n > 0 {
        lemma_opcodes_count(p, env, ops, (n - 1) as nat);
        match ops[n - 1] {
            Opcode::AssertZero(expr) => {
                lemma_gate_counts(p.opcodes(env, ops, (n - 1) as nat), env, expr);
            },
            _ => {},
        }
    }
}

/// A pass that comes through has written exactly one constraint for every
/// zero-assertion, whatever the assignment and the mode.
pub proof fn law_one_constraint_per_assertion(cs: CsModel, env: Environment, ops: Seq<Opcode>)
    requires
        constrain(cs, env, ops).failure is None,
    ensures
        constrain(cs, env, ops).cs.num_constraints == cs.num_constraints + assertions(
            ops,
            ops.len(),
        ),
{
    lemma_opcodes_count(Pass::start(cs), env, ops, ops.len());
}

/// On a system in setup mode a pass comes through whatever the assignment
/// holds, even nothing: no value is ever asked for.
pub proof fn law_setup_needs_no_values(cs: CsModel, env: Environment, ops: Seq<Opcode>)
    requires
        cs.mode is Setup,
    ensures
        constrain(cs, env, ops).failure is None,
{
    lemma_opcodes_count(Pass::start(cs), env, ops, ops.len());
}

/// A zero-assertion mentions a witness index: as a factor of a product or
/// in a linear term.
pub open spec fn mentions(expr: Expression, w: u32) -> bool {
    ||| exists|k: int|
        0 <= k < expr.mul_terms@.len() && ((#[trigger] expr.mul_terms@[k]).1.0 == w
            || expr.mul_terms@[k].2.0 == w)
    ||| exists|k: int|
        0 <= k < expr.linear_combinations@.len() && (
        #[trigger] expr.linear_combinations@[k]).1.0 == w
}

/// A pass on a system in prove mode that has not resolved `w`, for which
/// there is neither a value nor a binding: it can only have failed for want
/// of a value.
pub open spec fn wanting(p: Pass, w: u32) -> bool {
    &&& p.cs.mode is Prove
    &&& match p.failure {
        None => !p.table.contains_key(w),
        Some(e) => e == SynthesisError::AssignmentMissing,
    }
}

proof fn lemma_mul_terms_wanting(
    g: Gate,
    env: Environment,
    terms: Seq<(FieldElement, Witness, Witness)>,
    n: nat,
    w: u32,
)
    requires
        wanting(g.pass, w),
        !env.values.contains_key(w),
        !env.known.contains_key(w),
    ensures
        wanting(g.mul_terms(env, terms, n).pass, w),
        forall|k: int|
            0 <= k < n && ((#[trigger] terms[k]).1.0 == w || terms[k].2.0 == w) ==> g.mul_terms(
                env,
                terms,
                n,
            ).pass.failed(),
    decreases n,
{
    if n > 0 {
        lemma_mul_terms_wanting(g, env, terms, (n - 1) as nat, w);
    }
}

proof fn lemma_linear_terms_wanting(
    g: Gate,
    env: Environment,
    terms: Seq<(FieldElement, Witness)>,
    n: nat,
    w: u32,
)
    requires
        wanting(g.pass, w),
        !env.values.contains_key(w),
        !env.known.contains_key(w),
    ensures
        wanting(g.linear_terms(env, terms, n).pass, w),
        forall|k: int|
            0 <= k < n && (#[trigger] terms[k]).1.0 == w ==> g.linear_terms(
                env,
                terms,
                n,
            ).pass.failed(),
    decreases n,
{
    if n > 0 {
        lemma_linear_terms_wanting(g, env, terms, (n - 1) as nat, w);
    }
}

proof fn lemma_gate_wanting(p: Pass, env: Environment, expr: Expression, w: u32)
    requires
        wanting(p, w),
        !env.values.contains_key(w),
        !env.known.contains_key(w),
    ensures
        wanting(p.gate(env, expr), w),
        mentions(expr, w) ==> p.gate(env, expr).failed(),
{
    let g = Gate { pass: p, acc: Map::empty() };
    let products = g.mul_terms(env, expr.mul_terms@, expr.mul_terms@.len());
    lemma_mul_terms_wanting(g, env, expr.mul_terms@, expr.mul_terms@.len(), w);
    lemma_linear_terms_wanting(
        products,
        env,
        expr.linear_combinations@,
        expr.linear_combinations@.len(),
        w,
    );
    lemma_linear_terms_only(
        products,
        env,
        expr.linear_combinations@,
        expr.linear_combinations@.len(),
    );
}

proof fn lemma_opcodes_wanting(p: Pass, env: Environment, ops: Seq<Opcode>, n: nat, w: u32)
    requires
        wanting(p, w),
        !env.values.contains_key(w),
        !env.known.contains_key(w),
    ensures
        wanting(p.opcodes(env, ops, n), w),
        forall|i: int|
            0 <= i < n && (#[trigger] ops[i] matches Opcode::AssertZero(expr) && mentions(expr, w))
                ==> p.opcodes(env, ops, n).failed(),
    decreases n,
{
    if n > 0 {
        lemma_opcodes_wanting(p, env, ops, (n - 1) as nat, w);
        let before = p.opcodes(env, ops, (n - 1) as nat);
        match ops[n - 1] {
            Opcode::AssertZero(expr) => {
                lemma_gate_wanting(before, env, expr, w);
                lemma_gate_counts(before, env, expr);
            },
            _ => {},
        }
    }
}

/// On a system in prove mode a pass needs a value or a binding for every
/// witness index that a zero-assertion mentions: where one has neither, the
/// pass ends for want of an assignment.
pub proof fn law_prove_needs_values(cs: CsModel, env: Environment, ops: Seq<Opcode>, i: int, w: u32)
    requires
        cs.mode is Prove,
        0 <= i < ops.len(),
        ops[i] matches Opcode::AssertZero(expr) && mentions(expr, w),
        !env.values.contains_key(w),
        !env.known.contains_key(w),
    ensures
        constrain(cs, env, ops).failure == Some(SynthesisError::AssignmentMissing),
{
    lemma_opcodes_wanting(Pass::start(cs), env, ops, ops.len(), w);
}

/// A table is tidy: it records nothing for an index that the caller has
/// bound, and what it records are witness variables.
pub open spec fn tidy(p: Pass, env: Environment) -> bool {
    forall|w: u32| #[trigger]
        p.table.contains_key(w) ==> !env.known.contains_key(w) && p.table[w] is Witness
}

/// What a later stage of a pass keeps of an earlier one: every entry of the
/// table.
pub open spec fn extends(before: Pass, after: Pass) -> bool {
    forall|w: u32| #[trigger]
        before.table.contains_key(w) ==> after.table.contains_key(w) && after.table[w]
            == before.table[w]
}

proof fn lemma_mul_terms_tidy(
    g: Gate,
    env: Environment,
    terms: Seq<(FieldElement, Witness, Witness)>,
    n: nat,
)
    requires
        tidy(g.pass, env),
    ensures
        tidy(g.mul_terms(env, terms, n).pass, env),
        extends(g.pass, g.mul_terms(env, terms, n).pass),
    decreases n,
{
    if n > 0 {
        lemma_mul_terms_tidy(g, env, terms, (n - 1) as nat);
    }
}

proof fn lemma_linear_terms_tidy(
    g: Gate,
    env: Environment,
    terms: Seq<(FieldElement, Witness)>,
    n: nat,
)
    requires
        tidy(g.pass, env),
    ensures
        tidy(g.linear_terms(env, terms, n).pass, env),
        extends(g.pass, g.linear_terms(env, terms, n).pass),
    decreases n,
{
    if n > 0 {
        lemma_linear_terms_tidy(g, env, terms, (n - 1) as nat);
    }
}

proof fn lemma_gate_tidy(p: Pass, env: Environment, expr: Expression)
    requires
        tidy(p, env),
    ensures
        tidy(p.gate(env, expr), env),
        extends(p, p.gate(env, expr)),
{
    let g = Gate { pass: p, acc: Map::empty() };
    let products = g.mul_terms(env, expr.mul_terms@, expr.mul_terms@.len());
    lemma_mul_terms_tidy(g, env, expr.mul_terms@, expr.mul_terms@.len());
    lemma_linear_terms_tidy(
        products,
        env,
        expr.linear_combinations@,
        expr.linear_combinations@.len(),
    );
}

proof fn lemma_opcodes_tidy(p: Pass, env: Environment, ops: Seq<Opcode>, i: nat, n: nat)
    requires
        tidy(p, env),
        i <= n,
    ensures
        tidy(p.opcodes(env, ops, n), env),
        extends(p.opcodes(env, ops, i), p.opcodes(env, ops, n)),
    decreases n,
{
    if n > 0 {
        if i < n {
            lemma_opcodes_tidy(p, env, ops, i, (n - 1) as nat);
        } else {
            lemma_opcodes_tidy(p, env, ops, (n - 1) as nat, (n - 1) as nat);
        }
        let before = p.opcodes(env, ops, (n - 1) as nat);
        match ops[n - 1] {
            Opcode::AssertZero(expr) => {
                lemma_gate_tidy(before, env, expr);
            },
            _ => {},
        }
    }
}

/// Within one pass a witness index has one variable: what the table has
/// recorded after `i` instructions it still holds, unchanged, after any
/// `n >= i`.
pub proof fn law_table_only_grows(
    cs: CsModel,
    env: Environment,
    ops: Seq<Opcode>,
    i: nat,
    n: nat,
    w: u32,
)
    requires
        i <= n,
        Pass::start(cs).opcodes(env, ops, i).table.contains_key(w),
    ensures
        Pass::start(cs).opcodes(env, ops, n).table.contains_key(w),
        Pass::start(cs).opcodes(env, ops, n).table[w] == Pass::start(cs).opcodes(
            env,
            ops,
            i,
        ).table[w],
{
    lemma_opcodes_tidy(Pass::start(cs), env, ops, i, n);
}

/// A pass makes no second variable for what the caller has bound, and none
/// that is public: its table never records a bound index, and every variable
/// that it records is a witness variable.
pub proof fn law_no_duplicate_for_known(cs: CsModel, env: Environment, ops: Seq<Opcode>, w: u32)
    requires
        constrain(cs, env, ops).table.contains_key(w),
    ensures
        !env.known.contains_key(w),
        constrain(cs, env, ops).table[w] is Witness,
{
    lemma_opcodes_tidy(Pass::start(cs), env, ops, 0, ops.len());
}

/// The system keeps the shape of what is enforced.
pub open spec fn keeps_shape(mode: Mode) -> bool {
    match mode {
        Mode::Detached => false,
        Mode::Setup => true,
        Mode::Prove { construct_matrices } => construct_matrices,
    }
}

proof fn lemma_linear_terms_reference(
    g: Gate,
    env: Environment,
    terms: Seq<(FieldElement, Witness)>,
    n: nat,
    k: int,
)
    requires
        0 <= k < n,
        env.known.contains_key(terms[k].1.0),
        !g.linear_terms(env, terms, n).pass.failed(),
    ensures
        g.linear_terms(env, terms, n).acc.contains_key(env.known[terms[k].1.0]),
    decreases n,
{
    if k < n - 1 {
        lemma_linear_terms_reference(g, env, terms, (n - 1) as nat, k);
    }
}

/// The one constraint of a zero-assertion is `1 * b = 0`, and `b` holds the
/// caller's own variable for every linear term whose witness index the
/// caller has bound, and the constant one for the constant.
pub proof fn law_constraint_uses_known(pass: Pass, env: Environment, expr: Expression, k: int)
    requires
        keeps_shape(pass.cs.mode),
        !pass.gate(env, expr).failed(),
        0 <= k < expr.linear_combinations@.len(),
        env.known.contains_key(expr.linear_combinations@[k].1.0),
    ensures
        pass.gate(env, expr).cs.constraints.len() == pass.cs.constraints.len() + 1,
        pass.gate(env, expr).cs.constraints.last().a == one_term(),
        pass.gate(env, expr).cs.constraints.last().c == Map::<Variable, nat>::empty(),
        pass.gate(env, expr).cs.constraints.last().b.contains_key(
            env.known[expr.linear_combinations@[k].1.0],
        ),
        pass.gate(env, expr).cs.constraints.last().b.contains_key(Variable::One),
{
    let g = Gate { pass, acc: Map::empty() };
    let products = g.mul_terms(env, expr.mul_terms@, expr.mul_terms@.len());
    lemma_mul_terms_only(g, env, expr.mul_terms@, expr.mul_terms@.len());
    lemma_linear_terms_only(
        products,
        env,
        expr.linear_combinations@,
        expr.linear_combinations@.len(),
    );
    lemma_linear_terms_reference(
        products,
        env,
        expr.linear_combinations@,
        expr.linear_combinations@.len(),
        k,
    );
}

/// A pass makes no instance variable: the system has as many after it as
/// before, whether the pass comes through or not.
pub proof fn law_pass_leaves_instances(cs: CsModel, env: Environment, ops: Seq<Opcode>)
    ensures
        constrain(cs, env, ops).cs.num_instance == cs.num_instance,
{
    lemma_opcodes_demand(Pass::start(cs), env, ops, ops.len());
}

/// The allocation table's operation makes no instance variable and writes
/// no constraint, makes at most one witness variable, and leaves every other
/// entry of the table as it was.
pub proof fn law_table_touches_one_entry(pass: Pass, index: u32, value: Option<nat>, other: u32)
    requires
        other != index,
    ensures
        pass.lookup_or_allocate(index, value).0.cs.num_instance == pass.cs.num_instance,
        pass.lookup_or_allocate(index, value).0.cs.num_constraints == pass.cs.num_constraints,
        pass.lookup_or_allocate(index, value).0.cs.constraints == pass.cs.constraints,
        pass.cs.num_witness <= pass.lookup_or_allocate(index, value).0.cs.num_witness
            <= pass.cs.num_witness + 1,
        pass.lookup_or_allocate(index, value).0.table.contains_key(other)
            == pass.table.contains_key(other),
        pass.table.contains_key(other) ==> pass.lookup_or_allocate(index, value).0.table[other]
            == pass.table[other],
{
}

/// The later system has what the earlier one had, in place: the mode, the
/// count of instance variables, every recorded value and every stored
/// constraint. It may have more values and more constraints, and no counter
/// has gone back.
pub open spec fn appends(before: CsModel, after: CsModel) -> bool {
    &&& after.mode == before.mode
    &&& after.num_instance == before.num_instance
    &&& before.before(after)
    &&& before.witness_values.len() <= after.witness_values.len()
    &&& forall|i: int|
        0 <= i < before.witness_values.len() ==> #[trigger] after.witness_values[i]
            == before.witness_values[i]
    &&& before.constraints.len() <= after.constraints.len()
    &&& forall|i: int|
        0 <= i < before.constraints.len() ==> #[trigger] after.constraints[i]
            == before.constraints[i]
}

proof fn lemma_mul_terms_append(
    g: Gate,
    env: Environment,
    terms: Seq<(FieldElement, Witness, Witness)>,
    n: nat,
)
    ensures
        appends(g.pass.cs, g.mul_terms(env, terms, n).pass.cs),
    decreases n,
{
    if n > 0 {
        lemma_mul_terms_append(g, env, terms, (n - 1) as nat);
        let before = g.mul_terms(env, terms, (n - 1) as nat);
        assert(appends(before.pass.cs, before.mul_term(env, terms[n - 1]).pass.cs));
    }
}

proof fn lemma_linear_terms_append(
    g: Gate,
    env: Environment,
    terms: Seq<(FieldElement, Witness)>,
    n: nat,
)
    ensures
        appends(g.pass.cs, g.linear_terms(env, terms, n).pass.cs),
    decreases n,
{
    if n > 0 {
        lemma_linear_terms_append(g, env, terms, (n - 1) as nat);
        let before = g.linear_terms(env, terms, (n - 1) as nat);
        assert(appends(before.pass.cs, before.linear_term(env, terms[n - 1]).pass.cs));
    }
}

/// A zero-assertion only appends.
pub proof fn lemma_gate_appends_only(p: Pass, env: Environment, expr: Expression)
    ensures
        appends(p.cs, p.gate(env, expr).cs),
{
    let g = Gate { pass: p, acc: Map::empty() };
    let products = g.mul_terms(env, expr.mul_terms@, expr.mul_terms@.len());
    let folded = p.folded(env, expr);
    lemma_mul_terms_append(g, env, expr.mul_terms@, expr.mul_terms@.len());
    lemma_linear_terms_append(
        products,
        env,
        expr.linear_combinations@,
        expr.linear_combinations@.len(),
    );
    assert(appends(folded.pass.cs, p.gate(env, expr).cs));
}

/// Instructions only append.
pub proof fn lemma_opcodes_append(p: Pass, env: Environment, ops: Seq<Opcode>, n: nat)
    ensures
        appends(p.cs, p.opcodes(env, ops, n).cs),
    decreases n,
{
    if n > 0 {
        lemma_opcodes_append(p, env, ops, (n - 1) as nat);
        match ops[n - 1] {
            Opcode::AssertZero(expr) => {
                lemma_gate_appends_only(p.opcodes(env, ops, (n - 1) as nat), env, expr);
            },
            _ => {},
        }
    }
}

/// A pass only appends. Whatever the mode and whether or not it comes
/// through, the system keeps its mode and its count of instance variables,
/// and every value and every constraint that it had stays in its place.
pub proof fn law_pass_only_appends(cs: CsModel, env: Environment, ops: Seq<Opcode>)
    ensures
        appends(cs, constrain(cs, env, ops).cs),
{
    lemma_opcodes_append(Pass::start(cs), env, ops, ops.len());
}

/// A witness index has a value or a binding.
pub open spec fn covered(env: Environment, w: u32) -> bool {
    env.values.contains_key(w) || env.known.contains_key(w)
}

/// A pass that runs on a system in prove mode.
pub open spec fn proving(p: Pass) -> bool {
    p.cs.mode is Prove && !p.failed()
}

proof fn lemma_mul_terms_come_through(
    g: Gate,
    env: Environment,
    terms: Seq<(FieldElement, Witness, Witness)>,
    n: nat,
)
    requires
        proving(g.pass),
        forall|k: int|
            0 <= k < n ==> covered(env, (#[trigger] terms[k]).1.0) && covered(env, terms[k].2.0),
    ensures
        proving(g.mul_terms(env, terms, n).pass),
    decreases n,
{
    if n > 0 {
        lemma_mul_terms_come_through(g, env, terms, (n - 1) as nat);
        assert(covered(env, terms[n - 1].1.0));
    }
}

proof fn lemma_linear_terms_come_through(
    g: Gate,
    env: Environment,
    terms: Seq<(FieldElement, Witness)>,
    n: nat,
)
    requires
        proving(g.pass),
        forall|k: int| 0 <= k < n ==> covered(env, (#[trigger] terms[k]).1.0),
    ensures
        proving(g.linear_terms(env, terms, n).pass),
    decreases n,
{
    if n > 0 {
        lemma_linear_terms_come_through(g, env, terms, (n - 1) as nat);
        assert(covered(env, terms[n - 1].1.0));
    }
}

proof fn lemma_gate_comes_through(p: Pass, env: Environment, expr: Expression)
    requires
        proving(p),
        forall|w: u32| mentions(expr, w) ==> covered(env, w),
    ensures
        proving(p.gate(env, expr)),
{
    let g = Gate { pass: p, acc: Map::empty() };
    assert forall|k: int| 0 <= k < expr.mul_terms@.len() implies covered(
        env,
        (#[trigger] expr.mul_terms@[k]).1.0,
    ) && covered(env, expr.mul_terms@[k].2.0) by {
        assert(mentions(expr, expr.mul_terms@[k].1.0));
        assert(mentions(expr, expr.mul_terms@[k].2.0));
    }
    assert forall|k: int| 0 <= k < expr.linear_combinations@.len() implies covered(
        env,
        (#[trigger] expr.linear_combinations@[k]).1.0,
    ) by {
        assert(mentions(expr, expr.linear_combinations@[k].1.0));
    }
    lemma_mul_terms_come_through(g, env, expr.mul_terms@, expr.mul_terms@.len());
    lemma_linear_terms_come_through(
        g.mul_terms(env, expr.mul_terms@, expr.mul_terms@.len()),
        env,
        expr.linear_combinations@,
        expr.linear_combinations@.len(),
    );
}

/// An instruction mentions a witness index: it is a zero-assertion that
/// does.
pub open spec fn op_mentions(op: Opcode, w: u32) -> bool {
    op matches Opcode::AssertZero(expr) && mentions(expr, w)
}

/// Every witness index that one of the first `n` instructions mentions has
/// a value or a binding.
pub open spec fn all_covered(env: Environment, ops: Seq<Opcode>, n: nat) -> bool {
    forall|i: int, w: u32| 0 <= i < n && #[trigger] op_mentions(ops[i], w) ==> covered(env, w)
}

/// Instructions whose indices are all covered come through in prove mode.
pub proof fn lemma_opcodes_come_through(p: Pass, env: Environment, ops: Seq<Opcode>, n: nat)
    requires
        n <= ops.len(),
        proving(p),
        all_covered(env, ops, n),
    ensures
        proving(p.opcodes(env, ops, n)),
    decreases n,
{
    if n > 0 {
        lemma_opcodes_come_through(p, env, ops, (n - 1) as nat);
        match ops[n - 1] {
            Opcode::AssertZero(expr) => {
                assert forall|w: u32| mentions(expr, w) implies covered(env, w) by {
                    assert(op_mentions(ops[n - 1], w));
                }
                lemma_gate_comes_through(p.opcodes(env, ops, (n - 1) as nat), env, expr);
            },
            _ => {},
        }
    }
}

/// On a system in prove mode a pass comes through if every witness index
/// that a zero-assertion mentions has a value or a binding.
pub proof fn law_prove_comes_through(cs: CsModel, env: Environment, ops: Seq<Opcode>)
    requires
        cs.mode is Prove,
        all_covered(env, ops, ops.len()),
    ensures
        constrain(cs, env, ops).failure is None,
{
    lemma_opcodes_come_through(Pass::start(cs), env, ops, ops.len());
}

/// A pass on a system in setup mode keeps abreast of a pass on a system in
/// prove mode: same table, same counts of variables and of constraints.
pub open spec fn abreast(p: Pass, q: Pass) -> bool {
    &&& p.cs.mode is Setup
    &&& q.cs.mode is Prove
    &&& !p.failed()
    &&& p.table == q.table
    &&& p.cs.num_instance == q.cs.num_instance
    &&& p.cs.num_witness == q.cs.num_witness
    &&& p.cs.num_constraints == q.cs.num_constraints
}

proof fn lemma_mul_terms_abreast(
    g: Gate,
    h: Gate,
    env: Environment,
    terms: Seq<(FieldElement, Witness, Witness)>,
    n: nat,
)
    requires
        abreast(g.pass, h.pass),
        g.acc == h.acc,
        !h.mul_terms(env, terms, n).pass.failed(),
    ensures
        abreast(g.mul_terms(env, terms, n).pass, h.mul_terms(env, terms, n).pass),
        g.mul_terms(env, terms, n).acc == h.mul_terms(env, terms, n).acc,
    decreases n,
{
    if n > 0 {
        if h.mul_terms(env, terms, (n - 1) as nat).pass.failed() {
            lemma_mul_terms_stay_failed(h, env, terms, (n - 1) as nat, n);
        }
        lemma_mul_terms_abreast(g, h, env, terms, (n - 1) as nat);
    }
}

proof fn lemma_linear_terms_abreast(
    g: Gate,
    h: Gate,
    env: Environment,
    terms: Seq<(FieldElement, Witness)>,
    n: nat,
)
    requires
        abreast(g.pass, h.pass),
        g.acc == h.acc,
        !h.linear_terms(env, terms, n).pass.failed(),
    ensures
        abreast(g.linear_terms(env, terms, n).pass, h.linear_terms(env, terms, n).pass),
        g.linear_terms(env, terms, n).acc == h.linear_terms(env, terms, n).acc,
    decreases n,
{
    if n > 0 {
        if h.linear_terms(env, terms, (n - 1) as nat).pass.failed() {
            lemma_linear_terms_stay_failed(h, env, terms, (n - 1) as nat, n);
        }
        lemma_linear_terms_abreast(g, h, env, terms, (n - 1) as nat);
    }
}

proof fn lemma_gate_abreast(p: Pass, q: Pass, env: Environment, expr: Expression)
    requires
        abreast(p, q),
        !q.gate(env, expr).failed(),
    ensures
        abreast(p.gate(env, expr), q.gate(env, expr)),
{
    let g = Gate { pass: p, acc: Map::empty() };
    let h = Gate { pass: q, acc: Map::empty() };
    let hp = h.mul_terms(env, expr.mul_terms@, expr.mul_terms@.len());
    if hp.pass.failed() {
        lemma_linear_terms_stay_failed(
            hp,
            env,
            expr.linear_combinations@,
            0,
            expr.linear_combinations@.len(),
        );
    }
    lemma_mul_terms_abreast(g, h, env, expr.mul_terms@, expr.mul_terms@.len());
    lemma_linear_terms_abreast(
        g.mul_terms(env, expr.mul_terms@, expr.mul_terms@.len()),
        hp,
        env,
        expr.linear_combinations@,
        expr.linear_combinations@.len(),
    );
}

/// Instructions keep a setup pass abreast of a prove pass that comes through.
pub proof fn lemma_opcodes_abreast(p: Pass, q: Pass, env: Environment, ops: Seq<Opcode>, n: nat)
    requires
        abreast(p, q),
        !q.opcodes(env, ops, n).failed(),
    ensures
        abreast(p.opcodes(env, ops, n), q.opcodes(env, ops, n)),
    decreases n,
{
    if n > 0 {
        if q.opcodes(env, ops, (n - 1) as nat).failed() {
            lemma_opcodes_stay_failed(q, env, ops, (n - 1) as nat, n);
        }
        lemma_opcodes_abreast(p, q, env, ops, (n - 1) as nat);
        match ops[n - 1] {
            Opcode::AssertZero(expr) => {
                lemma_gate_abreast(
                    p.opcodes(env, ops, (n - 1) as nat),
                    q.opcodes(env, ops, (n - 1) as nat),
                    env,
                    expr,
                );
            },
            _ => {},
        }
    }
}

/// A pass in setup mode numbers as a pass in prove mode does. Where the
/// pass on the proving system comes through, the pass on a system in setup
/// mode with the same counts resolves every witness index to the same
/// variable and leaves the same counts of variables and of constraints.
pub proof fn law_setup_numbers_as_prove(
    setup: CsModel,
    prove: CsModel,
    env: Environment,
    ops: Seq<Opcode>,
)
    requires
        setup.mode is Setup,
        prove.mode is Prove,
        setup.num_instance == prove.num_instance,
        setup.num_witness == prove.num_witness,
        setup.num_constraints == prove.num_constraints,
        constrain(prove, env, ops).failure is None,
    ensures
        constrain(setup, env, ops).failure is None,
        constrain(setup, env, ops).table == constrain(prove, env, ops).table,
        constrain(setup, env, ops).cs.num_instance == constrain(prove, env, ops).cs.num_instance,
        constrain(setup, env, ops).cs.num_witness == constrain(prove, env, ops).cs.num_witness,
        constrain(setup, env, ops).cs.num_constraints == constrain(
            prove,
            env,
            ops,
        ).cs.num_constraints,
{
    lemma_opcodes_abreast(Pass::start(setup), Pass::start(prove), env, ops, ops.len());
}

/// The number of products among the first `n` instructions.
pub open spec fn products(ops: Seq<Opcode>, n: nat) -> nat
    decreases n,
{
    if n == 0 {
        0
    } else {
        products(ops, (n - 1) as nat) + match ops[n - 1] {
            Opcode::AssertZero(expr) => expr.mul_terms@.len(),
            _ => 0,
        }
    }
}

/// A witness variable with an index from `base` on and below `counter`.
pub open spec fn made(v: Variable, base: nat, counter: nat) -> bool {
    v matches Variable::Witness(i) && base <= i < counter
}

/// The table of a running pass is snug. It is finite and one to one, every
/// variable in it is a witness variable that the pass has made, so one from
/// `base` on and below the counter, and the pass has made exactly one
/// witness variable for every entry and `aux` more.
pub open spec fn snug(p: Pass, base: nat, aux: nat) -> bool {
    &&& !p.failed()
    &&& p.cs.num_witness <= usize::MAX
    &&& p.table.dom().finite()
    &&& p.cs.num_witness == base + p.table.dom().len() + aux
    &&& forall|w: u32| #[trigger]
        p.table.contains_key(w) ==> made(p.table[w], base, p.cs.num_witness)
    &&& forall|v: u32, w: u32|
        #![trigger p.table[v], p.table[w]]
        p.table.contains_key(v) && p.table.contains_key(w) && v != w ==> p.table[v] != p.table[w]
}

proof fn lemma_resolve_snug(p: Pass, env: Environment, index: u32, base: nat, aux: nat)
    requires
        snug(p, base, aux),
        !p.resolve(env, index).0.failed(),
        p.resolve(env, index).0.cs.num_witness <= usize::MAX,
    ensures
        snug(p.resolve(env, index).0, base, aux),
{
    let after = p.resolve(env, index).0;
    if !env.known.contains_key(index) && !p.table.contains_key(index) {
        assert(after.table.dom() =~= p.table.dom().insert(index));
        assert(after.table[index] == Variable::Witness(p.cs.num_witness as usize));
        assert forall|w: u32| #[trigger] after.table.contains_key(w) implies made(
            after.table[w],
            base,
            after.cs.num_witness,
        ) by {
            if w != index {
                assert(p.table.contains_key(w));
            }
        }
        assert forall|v: u32, w: u32|
            #![trigger after.table[v], after.table[w]]
            after.table.contains_key(v) && after.table.contains_key(w) && v != w implies after.table[v]
                != after.table[w] by {
            if v != index {
                assert(p.table.contains_key(v));
            }
            if w != index {
                assert(p.table.contains_key(w));
            }
        }
    }
}

proof fn lemma_mul_term_snug(
    g: Gate,
    env: Environment,
    term: (FieldElement, Witness, Witness),
    base: nat,
    aux: nat,
)
    requires
        snug(g.pass, base, aux),
        !g.mul_term(env, term).pass.failed(),
        g.mul_term(env, term).pass.cs.num_witness <= usize::MAX,
    ensures
        snug(g.mul_term(env, term).pass, base, aux + 1),
{
    let (left, _) = g.pass.resolve(env, term.1.0);
    let (right, _) = left.resolve(env, term.2.0);
    lemma_resolve_snug(g.pass, env, term.1.0, base, aux);
    lemma_resolve_snug(left, env, term.2.0, base, aux);
    let after = g.mul_term(env, term).pass;
    assert(after.table == right.table);
    assert forall|w: u32| #[trigger] after.table.contains_key(w) implies made(
        after.table[w],
        base,
        after.cs.num_witness,
    ) by {
        assert(right.table.contains_key(w));
    }
}

proof fn lemma_mul_terms_snug(
    g: Gate,
    env: Environment,
    terms: Seq<(FieldElement, Witness, Witness)>,
    n: nat,
    base: nat,
    aux: nat,
)
    requires
        snug(g.pass, base, aux),
        !g.mul_terms(env, terms, n).pass.failed(),
        g.mul_terms(env, terms, n).pass.cs.num_witness <= usize::MAX,
    ensures
        snug(g.mul_terms(env, terms, n).pass, base, aux + n),
    decreases n,
{
    if n > 0 {
        if g.mul_terms(env, terms, (n - 1) as nat).pass.failed() {
            lemma_mul_terms_stay_failed(g, env, terms, (n - 1) as nat, n);
        }
        lemma_mul_terms_count_up(g, env, terms, (n - 1) as nat, n);
        lemma_mul_terms_snug(g, env, terms, (n - 1) as nat, base, aux);
        lemma_mul_term_snug(
            g.mul_terms(env, terms, (n - 1) as nat),
            env,
            terms[n - 1],
            base,
            aux + (n - 1) as nat,
        );
    }
}

proof fn lemma_linear_terms_snug(
    g: Gate,
    env: Environment,
    terms: Seq<(FieldElement, Witness)>,
    n: nat,
    base: nat,
    aux: nat,
)
    requires
        snug(g.pass, base, aux),
        !g.linear_terms(env, terms, n).pass.failed(),
        g.linear_terms(env, terms, n).pass.cs.num_witness <= usize::MAX,
    ensures
        snug(g.linear_terms(env, terms, n).pass, base, aux),
    decreases n,
{
    if n > 0 {
        let before = g.linear_terms(env, terms, (n - 1) as nat);
        if before.pass.failed() {
            lemma_linear_terms_stay_failed(g, env, terms, (n - 1) as nat, n);
        }
        lemma_linear_terms_count_up(g, env, terms, (n - 1) as nat, n);
        lemma_linear_terms_snug(g, env, terms, (n - 1) as nat, base, aux);
        lemma_resolve_snug(before.pass, env, terms[n - 1].1.0, base, aux);
    }
}

proof fn lemma_gate_snug(p: Pass, env: Environment, expr: Expression, base: nat, aux: nat)
    requires
        snug(p, base, aux),
        !p.gate(env, expr).failed(),
        p.gate(env, expr).cs.num_witness <= usize::MAX,
    ensures
        snug(p.gate(env, expr), base, aux + expr.mul_terms@.len()),
{
    let g = Gate { pass: p, acc: Map::empty() };
    let hp = g.mul_terms(env, expr.mul_terms@, expr.mul_terms@.len());
    let folded = p.folded(env, expr);
    if hp.pass.failed() {
        lemma_linear_terms_stay_failed(
            hp,
            env,
            expr.linear_combinations@,
            0,
            expr.linear_combinations@.len(),
        );
    }
    lemma_linear_terms_count_up(
        hp,
        env,
        expr.linear_combinations@,
        0,
        expr.linear_combinations@.len(),
    );
    lemma_mul_terms_snug(g, env, expr.mul_terms@, expr.mul_terms@.len(), base, aux);
    lemma_linear_terms_snug(
        hp,
        env,
        expr.linear_combinations@,
        expr.linear_combinations@.len(),
        base,
        aux + expr.mul_terms@.len(),
    );
    let after = p.gate(env, expr);
    assert(after.table == folded.pass.table);
    assert forall|w: u32| #[trigger] after.table.contains_key(w) implies made(
        after.table[w],
        base,
        after.cs.num_witness,
    ) by {
        assert(folded.pass.table.contains_key(w));
    }
}

/// Instructions that come through leave the table snug, with one more
/// witness variable for every product.
pub proof fn lemma_opcodes_snug(
    p: Pass,
    env: Environment,
    ops: Seq<Opcode>,
    n: nat,
    base: nat,
    aux: nat,
)
    requires
        snug(p, base, aux),
        !p.opcodes(env, ops, n).failed(),
        p.opcodes(env, ops, n).cs.num_witness <= usize::MAX,
    ensures
        snug(p.opcodes(env, ops, n), base, aux + products(ops, n)),
    decreases n,
{
    if n > 0 {
        let before = p.opcodes(env, ops, (n - 1) as nat);
        if before.failed() {
            lemma_opcodes_stay_failed(p, env, ops, (n - 1) as nat, n);
        }
        lemma_opcodes_count_up(p, env, ops, (n - 1) as nat, n);
        lemma_opcodes_snug(p, env, ops, (n - 1) as nat, base, aux);
        match ops[n - 1] {
            Opcode::AssertZero(expr) => {
                lemma_gate_snug(before, env, expr, base, aux + products(ops, (n - 1) as nat));
            },
            _ => {},
        }
    }
}

/// A pass that comes through has made exactly one witness variable for
/// every witness index in its table and one for every product, and none
/// else. Its table is one to one, and each variable in it is one of those
/// that the pass has made.
pub proof fn law_one_variable_per_index(
    cs: CsModel,
    env: Environment,
    ops: Seq<Opcode>,
    v: u32,
    w: u32,
)
    requires
        constrain(cs, env, ops).failure is None,
        constrain(cs, env, ops).cs.num_witness <= usize::MAX,
    ensures
        constrain(cs, env, ops).table.dom().finite(),
        constrain(cs, env, ops).cs.num_witness == cs.num_witness + constrain(
            cs,
            env,
            ops,
        ).table.dom().len() + products(ops, ops.len()),
        constrain(cs, env, ops).table.contains_key(w) ==> made(
            constrain(cs, env, ops).table[w],
            cs.num_witness,
            constrain(cs, env, ops).cs.num_witness,
        ),
        constrain(cs, env, ops).table.contains_key(v) && constrain(cs, env, ops).table.contains_key(
            w,
        ) && v != w ==> constrain(cs, env, ops).table[v] != constrain(cs, env, ops).table[w],
{
    lemma_opcodes_count_up(Pass::start(cs), env, ops, 0, ops.len());
    assert(Pass::start(cs).table.dom() =~= Set::<u32>::empty());
    lemma_opcodes_snug(Pass::start(cs), env, ops, ops.len(), cs.num_witness, 0);
}

/// One of the first `n` products has `w` as a factor.
pub open spec fn factor_among(terms: Seq<(FieldElement, Witness, Witness)>, n: nat, w: u32) -> bool {
    exists|k: int| 0 <= k < n && ((#[trigger] terms[k]).1.0 == w || terms[k].2.0 == w)
}

/// One of the first `n` linear terms is a multiple of `w`.
pub open spec fn term_among(terms: Seq<(FieldElement, Witness)>, n: nat, w: u32) -> bool {
    exists|k: int| 0 <= k < n && (#[trigger] terms[k]).1.0 == w
}

/// One of the first `n` instructions mentions `w`.
pub open spec fn mentioned(ops: Seq<Opcode>, n: nat, w: u32) -> bool {
    exists|i: int| 0 <= i < n && #[trigger] op_mentions(ops[i], w)
}

proof fn lemma_mul_terms_keys(
    g: Gate,
    env: Environment,
    terms: Seq<(FieldElement, Witness, Witness)>,
    n: nat,
)
    requires
        !g.mul_terms(env, terms, n).pass.failed(),
    ensures
        forall|w: u32|
            #[trigger] g.mul_terms(env, terms, n).pass.table.contains_key(w) <==> (
            g.pass.table.contains_key(w) || (!env.known.contains_key(w) && factor_among(
                terms,
                n,
                w,
            ))),
    decreases n,
{
    if n > 0 {
        let before = g.mul_terms(env, terms, (n - 1) as nat);
        let after = g.mul_terms(env, terms, n);
        if before.pass.failed() {
            lemma_mul_terms_stay_failed(g, env, terms, (n - 1) as nat, n);
        }
        lemma_mul_terms_keys(g, env, terms, (n - 1) as nat);
        let l = terms[n - 1].1.0;
        let r = terms[n - 1].2.0;
        assert forall|w: u32| #[trigger] after.pass.table.contains_key(w) <==> (
        g.pass.table.contains_key(w) || (!env.known.contains_key(w) && factor_among(
            terms,
            n,
            w,
        ))) by {
            assert(after.pass.table.contains_key(w) <==> (before.pass.table.contains_key(w) || (
            !env.known.contains_key(w) && (w == l || w == r))));
            if factor_among(terms, n, w) {
                let k = choose|k: int|
                    0 <= k < n && ((#[trigger] terms[k]).1.0 == w || terms[k].2.0 == w);
                if k < n - 1 {
                    assert(factor_among(terms, (n - 1) as nat, w));
                }
            }
            if factor_among(terms, (n - 1) as nat, w) {
                let k = choose|k: int|
                    0 <= k < n - 1 && ((#[trigger] terms[k]).1.0 == w || terms[k].2.0 == w);
                assert(0 <= k < n && (terms[k].1.0 == w || terms[k].2.0 == w));
            }
            if w == l || w == r {
                assert(0 <= n - 1 < n && (terms[n - 1].1.0 == w || terms[n - 1].2.0 == w));
            }
        }
    }
}

proof fn lemma_linear_terms_keys(
    g: Gate,
    env: Environment,
    terms: Seq<(FieldElement, Witness)>,
    n: nat,
)
    requires
        !g.linear_terms(env, terms, n).pass.failed(),
    ensures
        forall|w: u32|
            #[trigger] g.linear_terms(env, terms, n).pass.table.contains_key(w) <==> (
            g.pass.table.contains_key(w) || (!env.known.contains_key(w) && term_among(
                terms,
                n,
                w,
            ))),
    decreases n,
{
    if n > 0 {
        let before = g.linear_terms(env, terms, (n - 1) as nat);
        let after = g.linear_terms(env, terms, n);
        if before.pass.failed() {
            lemma_linear_terms_stay_failed(g, env, terms, (n - 1) as nat, n);
        }
        lemma_linear_terms_keys(g, env, terms, (n - 1) as nat);
        let x = terms[n - 1].1.0;
        assert forall|w: u32| #[trigger] after.pass.table.contains_key(w) <==> (
        g.pass.table.contains_key(w) || (!env.known.contains_key(w) && term_among(terms, n, w))) by {
            assert(after.pass.table.contains_key(w) <==> (before.pass.table.contains_key(w) || (
            !env.known.contains_key(w) && w == x)));
            if term_among(terms, n, w) {
                let k = choose|k: int| 0 <= k < n && (#[trigger] terms[k]).1.0 == w;
                if k < n - 1 {
                    assert(term_among(terms, (n - 1) as nat, w));
                }
            }
            if term_among(terms, (n - 1) as nat, w) {
                let k = choose|k: int| 0 <= k < n - 1 && (#[trigger] terms[k]).1.0 == w;
                assert(0 <= k < n && terms[k].1.0 == w);
            }
            if w == x {
                assert(0 <= n - 1 < n && terms[n - 1].1.0 == w);
            }
        }
    }
}

proof fn lemma_gate_keys(p: Pass, env: Environment, expr: Expression)
    requires
        !p.gate(env, expr).failed(),
    ensures
        forall|w: u32|
            #[trigger] p.gate(env, expr).table.contains_key(w) <==> (p.table.contains_key(w) || (
            !env.known.contains_key(w) && mentions(expr, w))),
{
    let g = Gate { pass: p, acc: Map::empty() };
    let hp = g.mul_terms(env, expr.mul_terms@, expr.mul_terms@.len());
    let folded = p.folded(env, expr);
    if hp.pass.failed() {
        lemma_linear_terms_stay_failed(
            hp,
            env,
            expr.linear_combinations@,
            0,
            expr.linear_combinations@.len(),
        );
    }
    lemma_mul_terms_keys(g, env, expr.mul_terms@, expr.mul_terms@.len());
    lemma_linear_terms_keys(hp, env, expr.linear_combinations@, expr.linear_combinations@.len());
    assert(p.gate(env, expr).table == folded.pass.table);
    assert forall|w: u32| #[trigger] p.gate(env, expr).table.contains_key(w) <==> (
    p.table.contains_key(w) || (!env.known.contains_key(w) && mentions(expr, w))) by {
        assert(mentions(expr, w) <==> (factor_among(expr.mul_terms@, expr.mul_terms@.len(), w)
            || term_among(expr.linear_combinations@, expr.linear_combinations@.len(), w)));
        assert(folded.pass.table.contains_key(w) <==> (hp.pass.table.contains_key(w) || (
        !env.known.contains_key(w) && term_among(
            expr.linear_combinations@,
            expr.linear_combinations@.len(),
            w,
        ))));
        assert(hp.pass.table.contains_key(w) <==> (p.table.contains_key(w) || (
        !env.known.contains_key(w) && factor_among(expr.mul_terms@, expr.mul_terms@.len(), w))));
    }
}

/// What the table holds after instructions that come through: what it held,
/// and every witness index that they mention and the caller has not bound.
pub proof fn lemma_opcodes_keys(p: Pass, env: Environment, ops: Seq<Opcode>, n: nat)
    requires
        !p.opcodes(env, ops, n).failed(),
    ensures
        forall|w: u32|
            #[trigger] p.opcodes(env, ops, n).table.contains_key(w) <==> (p.table.contains_key(w)
                || (!env.known.contains_key(w) && mentioned(ops, n, w))),
    decreases n,
{
    if n > 0 {
        let before = p.opcodes(env, ops, (n - 1) as nat);
        let after = p.opcodes(env, ops, n);
        if before.failed() {
            lemma_opcodes_stay_failed(p, env, ops, (n - 1) as nat, n);
        }
        lemma_opcodes_keys(p, env, ops, (n - 1) as nat);
        match ops[n - 1] {
            Opcode::AssertZero(expr) => {
                lemma_gate_keys(before, env, expr);
            },
            _ => {},
        }
        assert forall|w: u32| #[trigger] after.table.contains_key(w) <==> (p.table.contains_key(w)
            || (!env.known.contains_key(w) && mentioned(ops, n, w))) by {
            assert(after.table.contains_key(w) <==> (before.table.contains_key(w) || (
            !env.known.contains_key(w) && op_mentions(ops[n - 1], w))));
            if mentioned(ops, n, w) {
                let i = choose|i: int| 0 <= i < n && #[trigger] op_mentions(ops[i], w);
                if i < n - 1 {
                    assert(mentioned(ops, (n - 1) as nat, w));
                }
            }
            if mentioned(ops, (n - 1) as nat, w) {
                let i = choose|i: int| 0 <= i < n - 1 && #[trigger] op_mentions(ops[i], w);
                assert(0 <= i < n && op_mentions(ops[i], w));
            }
            if op_mentions(ops[n - 1], w) {
                assert(0 <= n - 1 < n && op_mentions(ops[n - 1], w));
            }
        }
    }
}

/// The table of a pass that comes through holds exactly the witness indices
/// that a zero-assertion mentions and the caller has not bound. With
/// `law_one_variable_per_index`: the pass makes one witness variable for
/// every such index, one for every product, and none else.
pub proof fn law_table_holds_the_unbound_indices(
    cs: CsModel,
    env: Environment,
    ops: Seq<Opcode>,
    w: u32,
)
    requires
        constrain(cs, env, ops).failure is None,
    ensures
        constrain(cs, env, ops).table.contains_key(w) <==> (!env.known.contains_key(w)
            && mentioned(ops, ops.len(), w)),
{
    lemma_opcodes_keys(Pass::start(cs), env, ops, ops.len());
}

/// What a pass that comes through leaves of a system that nothing had been
/// written to: the one instance variable that it had, one witness variable
/// for every witness index that a zero-assertion mentions and the caller has
/// not bound, one for every product, and one constraint for every
/// zero-assertion.
pub proof fn law_pass_on_fresh_system(mode: Mode, env: Environment, ops: Seq<Opcode>)
    requires
        constrain(CsModel::fresh(mode), env, ops).failure is None,
        constrain(CsModel::fresh(mode), env, ops).cs.num_witness <= usize::MAX,
    ensures
        constrain(CsModel::fresh(mode), env, ops).cs.num_instance == 1,
        constrain(CsModel::fresh(mode), env, ops).table.dom().finite(),
        constrain(CsModel::fresh(mode), env, ops).cs.num_witness == constrain(
            CsModel::fresh(mode),
            env,
            ops,
        ).table.dom().len() + products(ops, ops.len()),
        constrain(CsModel::fresh(mode), env, ops).cs.num_constraints == assertions(ops, ops.len()),
{
    law_pass_leaves_instances(CsModel::fresh(mode), env, ops);
    law_one_variable_per_index(CsModel::fresh(mode), env, ops, 0, 0);
    law_one_constraint_per_assertion(CsModel::fresh(mode), env, ops);
}

} // verus!
