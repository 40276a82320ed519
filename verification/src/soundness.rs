//! The constraint of a zero-assertion says what the assertion says.
//!
//! Under the values that the constraint system holds for its variables, the
//! linear combination that a pass accumulates for a zero-assertion has the
//! value of the assertion's expression under the assignment. So the
//! constraint `1 * accumulator = 0` holds of the system's values exactly if
//! the expression is zero in the field.

use crate::acir::{Expression, Opcode, Witness};
use crate::bridge::{
    lemma_demand_grows, lemma_linear_terms_count_up, lemma_linear_terms_stay_failed,
    lemma_mul_terms_count_up, lemma_mul_terms_stay_failed, lemma_opcodes_count_up,
    lemma_opcodes_stay_failed,
};
use crate::laws::{keeps_shape, lemma_linear_terms_only, lemma_mul_terms_only};
use crate::field::{modulus, FieldElement};
use crate::model::{assertions, one_term, step, constrain, Environment, Gate, Pass, Step};
use crate::step::{lemma_outputs_count_up, lemma_outputs_stay_failed};
use crate::r1cs::Constraint;
use crate::r1cs::{add_term, CsModel, Variable};
use vstd::arithmetic::div_mod::*;
use vstd::prelude::*;

verus! {

/// The value that a constraint system holds for a variable: what the
/// constants stand for, and what is recorded for a witness variable. Of
/// instance variables the model holds nothing.
pub open spec fn variable_value(cs: CsModel, v: Variable) -> Option<nat> {
    match v {
        Variable::Zero => Some(0),
        Variable::One => Some(1),
        Variable::Witness(index) => cs.witness_value(index as nat),
        Variable::Instance(_) => None,
    }
}

/// The coefficient of a variable in a linear combination: zero where the
/// variable does not occur.
pub open spec fn coefficient(terms: Map<Variable, nat>, v: Variable) -> nat {
    if terms.contains_key(v) {
        terms[v]
    } else {
        0
    }
}

/// The coefficient of the witness variable with this index.
pub open spec fn witness_coefficient(terms: Map<Variable, nat>, index: int) -> nat {
    coefficient(terms, Variable::Witness(index as usize))
}

/// The sum of the first `n` witness variables' values, each times its
/// coefficient.
pub open spec fn witness_part(terms: Map<Variable, nat>, values: Seq<nat>, n: nat) -> int
    decreases n,
{
    if n == 0 {
        0
    } else {
        witness_part(terms, values, (n - 1) as nat) + witness_coefficient(terms, n - 1)
            * values[n - 1]
    }
}

/// The value of a linear combination over the constants and the witness
/// variables, in the field, under the values that the system holds.
pub open spec fn combination_value(terms: Map<Variable, nat>, cs: CsModel) -> int {
    (coefficient(terms, Variable::One) + witness_part(
        terms,
        cs.witness_values,
        cs.witness_values.len(),
    )) % (modulus() as int)
}

/// Every variable that occurs in the combination has a value in the system.
pub open spec fn valued(terms: Map<Variable, nat>, cs: CsModel) -> bool {
    forall|v: Variable| #[trigger] terms.contains_key(v) ==> variable_value(cs, v) is Some
}

/// The later system holds every value that the earlier one holds, at the
/// same place.
pub open spec fn keeps_values(before: CsModel, after: CsModel) -> bool {
    &&& before.witness_values.len() <= after.witness_values.len()
    &&& forall|i: int|
        0 <= i < before.witness_values.len() ==> #[trigger] after.witness_values[i]
            == before.witness_values[i]
}

/// The witness part reads the coefficients of witness variables and the
/// values at their places, and nothing else.
proof fn lemma_witness_part_reads(
    a: Map<Variable, nat>,
    b: Map<Variable, nat>,
    x: Seq<nat>,
    y: Seq<nat>,
    n: nat,
)
    requires
        n <= x.len(),
        n <= y.len(),
        forall|i: int| 0 <= i < n ==> #[trigger] x[i] == y[i],
        forall|i: int|
            0 <= i < n ==> #[trigger] witness_coefficient(a, i) == witness_coefficient(b, i),
    ensures
        witness_part(a, x, n) == witness_part(b, y, n),
    decreases n,
{
    if n > 0 {
        lemma_witness_part_reads(a, b, x, y, (n - 1) as nat);
        assert(x[n - 1] == y[n - 1]);
        assert(witness_coefficient(a, n - 1) == witness_coefficient(b, n - 1));
    }
}

/// Witness variables without a coefficient add nothing.
proof fn lemma_witness_part_tail(terms: Map<Variable, nat>, values: Seq<nat>, m: nat, n: nat)
    requires
        m <= n <= values.len(),
        forall|i: int| m <= i < n ==> #[trigger] witness_coefficient(terms, i) == 0,
    ensures
        witness_part(terms, values, n) == witness_part(terms, values, m),
    decreases n,
{
    if m < n {
        lemma_witness_part_tail(terms, values, m, (n - 1) as nat);
        assert(witness_coefficient(terms, n - 1) == 0);
    }
}

/// A change of one witness variable's coefficient changes the witness part
/// by the difference times the variable's value.
proof fn lemma_witness_part_point(
    a: Map<Variable, nat>,
    b: Map<Variable, nat>,
    values: Seq<nat>,
    n: nat,
    j: nat,
)
    requires
        j < n <= values.len(),
        n <= usize::MAX + 1,
        forall|i: int|
            0 <= i < n && i != j ==> #[trigger] witness_coefficient(a, i) == witness_coefficient(
                b,
                i,
            ),
    ensures
        witness_part(b, values, n) == witness_part(a, values, n) + (witness_coefficient(
            b,
            j as int,
        ) - witness_coefficient(a, j as int)) * values[j as int],
    decreases n,
{
    let da = witness_coefficient(a, j as int);
    let db = witness_coefficient(b, j as int);
    if n - 1 == j {
        lemma_witness_part_reads(a, b, values, values, j);
        assert(witness_part(b, values, n) == witness_part(b, values, j) + db * values[j as int]);
        assert(witness_part(a, values, n) == witness_part(a, values, j) + da * values[j as int]);
        assert(db * values[j as int] == da * values[j as int] + (db - da) * values[j as int])
            by (nonlinear_arith);
    } else {
        lemma_witness_part_point(a, b, values, (n - 1) as nat, j);
        assert(witness_coefficient(a, n - 1) == witness_coefficient(b, n - 1));
    }
}

/// A combination has the same value in a later system that keeps the
/// values, as long as every variable in it had a value before.
pub proof fn lemma_value_is_kept(terms: Map<Variable, nat>, before: CsModel, after: CsModel)
    requires
        keeps_values(before, after),
        valued(terms, before),
        after.witness_values.len() <= usize::MAX + 1,
    ensures
        combination_value(terms, after) == combination_value(terms, before),
        valued(terms, after),
{
    let m = before.witness_values.len();
    let n = after.witness_values.len();
    assert forall|i: int| m <= i < n implies #[trigger] witness_coefficient(terms, i) == 0 by {
        if terms.contains_key(Variable::Witness(i as usize)) {
            assert(variable_value(before, Variable::Witness(i as usize)) is Some);
        }
    }
    lemma_witness_part_tail(terms, after.witness_values, m, n);
    lemma_witness_part_reads(terms, terms, after.witness_values, before.witness_values, m);
    assert forall|v: Variable| #[trigger] terms.contains_key(v) implies variable_value(
        after,
        v,
    ) is Some by {
        assert(variable_value(before, v) is Some);
    }
}

/// Adding `((a + c) mod p - a) * x` to a sum is, in the field, adding
/// `c * x`.
proof fn lemma_field_shift(total: int, a: int, c: int, x: int)
    ensures
        (total + ((a + c) % (modulus() as int) - a) * x) % (modulus() as int) == (total % (
        modulus() as int) + c * x) % (modulus() as int),
{
    let p = modulus() as int;
    let q = (a + c) / p;
    let b = (a + c) % p;
    lemma_fundamental_div_mod(a + c, p);
    assert((b - a) * x == c * x + p * (-(q * x))) by (nonlinear_arith)
        requires
            a + c == p * q + b,
    ;
    lemma_mod_multiples_vanish(-(q * x), total + c * x, p);
    lemma_add_mod_noop(total, c * x, p);
    lemma_add_mod_noop(total % p, c * x, p);
    lemma_mod_twice(total, p);
}

/// Adding `coeff * var` to a combination adds `coeff` times the value of
/// `var` to its value, in the field.
pub proof fn lemma_add_term_value(
    terms: Map<Variable, nat>,
    coeff: nat,
    var: Variable,
    cs: CsModel,
)
    requires
        variable_value(cs, var) is Some,
        cs.witness_values.len() <= usize::MAX + 1,
    ensures
        combination_value(add_term(terms, coeff, var), cs) == (combination_value(terms, cs)
            + coeff * variable_value(cs, var).unwrap()) % (modulus() as int),
{
    let p = modulus() as int;
    let after = add_term(terms, coeff, var);
    let values = cs.witness_values;
    let n = values.len();
    let held = coefficient(terms, var) as int;
    let x = variable_value(cs, var).unwrap() as int;
    let one = coefficient(terms, Variable::One) as int;
    let part = witness_part(terms, values, n);
    assert(coefficient(after, var) == (held + coeff) % p);
    match var {
        Variable::Witness(index) => {
            assert forall|i: int| 0 <= i < n && i != index implies #[trigger] witness_coefficient(
                terms,
                i,
            ) == witness_coefficient(after, i) by {}
            assert(Variable::Witness((index as nat) as usize) == var);
            lemma_witness_part_point(terms, after, values, n, index as nat);
            lemma_field_shift(one + part, held, coeff as int, x);
        },
        Variable::One => {
            lemma_witness_part_reads(terms, after, values, values, n);
            lemma_field_shift(one + part, held, coeff as int, 1);
            assert(((held + coeff) % p - held) * 1 == (held + coeff) % p - held);
            assert(coeff * 1 == coeff);
        },
        Variable::Zero => {
            lemma_witness_part_reads(terms, after, values, values, n);
            assert(coeff * 0 == 0);
            lemma_mod_twice(one + part, p);
        },
        Variable::Instance(_) => {},
    }
}

/// The value of the first `n` products under an assignment.
pub open spec fn products_value(
    terms: Seq<(FieldElement, Witness, Witness)>,
    values: Map<u32, nat>,
    n: nat,
) -> int
    decreases n,
{
    if n == 0 {
        0
    } else {
        products_value(terms, values, (n - 1) as nat) + terms[n - 1].0@ * (values[terms[n
            - 1].1.0] * values[terms[n - 1].2.0])
    }
}

/// The value of the first `n` linear terms under an assignment.
pub open spec fn linear_value(terms: Seq<(FieldElement, Witness)>, values: Map<u32, nat>, n: nat) -> int
    decreases n,
{
    if n == 0 {
        0
    } else {
        linear_value(terms, values, (n - 1) as nat) + terms[n - 1].0@ * values[terms[n - 1].1.0]
    }
}

/// The value of an expression under an assignment, in the field.
pub open spec fn expression_value(expr: Expression, values: Map<u32, nat>) -> int {
    (products_value(expr.mul_terms@, values, expr.mul_terms@.len()) + linear_value(
        expr.linear_combinations@,
        values,
        expr.linear_combinations@.len(),
    ) + expr.q_c@) % (modulus() as int)
}

/// A pass stands on firm ground: it runs, on a system in prove mode that
/// has recorded a value for every witness variable, and every variable that
/// the table or the caller gives for a witness index has, in the system, the
/// value that the assignment gives the index.
pub open spec fn grounded(pass: Pass, env: Environment) -> bool {
    &&& pass.cs.mode is Prove
    &&& pass.failure is None
    &&& pass.cs.witness_values.len() == pass.cs.num_witness
    &&& pass.cs.num_witness <= usize::MAX
    &&& forall|w: u32| #[trigger]
        pass.table.contains_key(w) ==> env.values.contains_key(w) && variable_value(
            pass.cs,
            pass.table[w],
        ) == Some(env.values[w])
    &&& forall|w: u32| #[trigger]
        env.known.contains_key(w) ==> env.values.contains_key(w) && variable_value(
            pass.cs,
            env.known[w],
        ) == Some(env.values[w])
}

/// Resolving an index on firm ground gives a variable that has the index's
/// value, and leaves the ground firm.
proof fn lemma_resolve_grounded(pass: Pass, env: Environment, index: u32)
    requires
        grounded(pass, env),
        !pass.resolve(env, index).0.failed(),
        pass.resolve(env, index).0.cs.fits(),
    ensures
        grounded(pass.resolve(env, index).0, env),
        keeps_values(pass.cs, pass.resolve(env, index).0.cs),
        env.values.contains_key(index),
        variable_value(pass.resolve(env, index).0.cs, pass.resolve(env, index).1) == Some(
            env.values[index],
        ),
{
    let (after, var) = pass.resolve(env, index);
    if !env.known.contains_key(index) && !pass.table.contains_key(index) {
        assert(var == Variable::Witness(pass.cs.num_witness as usize));
        assert forall|w: u32| #[trigger] after.table.contains_key(w) implies env.values.contains_key(
            w,
        ) && variable_value(after.cs, after.table[w]) == Some(env.values[w]) by {
            if w != index {
                assert(pass.table.contains_key(w));
            }
        }
    }
}

/// Folding a product on firm ground adds the product's value to the value
/// of the accumulator.
proof fn lemma_mul_term_value(
    g: Gate,
    env: Environment,
    term: (FieldElement, Witness, Witness),
    total: int,
)
    requires
        grounded(g.pass, env),
        valued(g.acc, g.pass.cs),
        combination_value(g.acc, g.pass.cs) == total % (modulus() as int),
        !g.mul_term(env, term).pass.failed(),
        g.mul_term(env, term).pass.cs.fits(),
    ensures
        grounded(g.mul_term(env, term).pass, env),
        valued(g.mul_term(env, term).acc, g.mul_term(env, term).pass.cs),
        keeps_values(g.pass.cs, g.mul_term(env, term).pass.cs),
        combination_value(g.mul_term(env, term).acc, g.mul_term(env, term).pass.cs) == (total
            + term.0@ * (env.values[term.1.0] * env.values[term.2.0])) % (modulus() as int),
{
    let p = modulus() as int;
    let (left, _) = g.pass.resolve(env, term.1.0);
    let (right, _) = left.resolve(env, term.2.0);
    let h = g.mul_term(env, term);
    lemma_resolve_grounded(g.pass, env, term.1.0);
    lemma_resolve_grounded(left, env, term.2.0);
    let coeff = term.0@ as int;
    let product = (env.values[term.1.0] * env.values[term.2.0]) as int;
    let value = (coeff * (product % p)) % p;
    let aux = Variable::Witness(right.cs.num_witness as usize);
    assert(variable_value(h.pass.cs, aux) == Some(value as nat));
    assert(keeps_values(g.pass.cs, h.pass.cs));
    lemma_value_is_kept(g.acc, g.pass.cs, h.pass.cs);
    lemma_add_term_value(g.acc, 1, aux, h.pass.cs);
    assert(1 * (value as nat) == value);
    lemma_mul_mod_noop_right(coeff, product, p);
    lemma_add_mod_noop(total, coeff * product, p);
    assert forall|w: u32| #[trigger] h.pass.table.contains_key(w) implies env.values.contains_key(
        w,
    ) && variable_value(h.pass.cs, h.pass.table[w]) == Some(env.values[w]) by {
        assert(right.table.contains_key(w));
    }
    assert forall|w: u32| #[trigger] env.known.contains_key(w) implies env.values.contains_key(w)
        && variable_value(h.pass.cs, env.known[w]) == Some(env.values[w]) by {
        assert(variable_value(right.cs, env.known[w]) == Some(env.values[w]));
    }
}

/// Folding a linear term on firm ground adds the term's value to the value
/// of the accumulator.
proof fn lemma_linear_term_value(
    g: Gate,
    env: Environment,
    term: (FieldElement, Witness),
    total: int,
)
    requires
        grounded(g.pass, env),
        valued(g.acc, g.pass.cs),
        combination_value(g.acc, g.pass.cs) == total % (modulus() as int),
        !g.linear_term(env, term).pass.failed(),
        g.linear_term(env, term).pass.cs.fits(),
    ensures
        grounded(g.linear_term(env, term).pass, env),
        valued(g.linear_term(env, term).acc, g.linear_term(env, term).pass.cs),
        keeps_values(g.pass.cs, g.linear_term(env, term).pass.cs),
        combination_value(g.linear_term(env, term).acc, g.linear_term(env, term).pass.cs) == (
        total + term.0@ * env.values[term.1.0]) % (modulus() as int),
{
    let p = modulus() as int;
    let (pass, var) = g.pass.resolve(env, term.1.0);
    lemma_resolve_grounded(g.pass, env, term.1.0);
    lemma_value_is_kept(g.acc, g.pass.cs, pass.cs);
    lemma_add_term_value(g.acc, term.0@, var, pass.cs);
    let value = (term.0@ * env.values[term.1.0]) as int;
    lemma_add_mod_noop(total, value, p);
    lemma_add_mod_noop(total % p, value, p);
    lemma_mod_twice(total, p);
}

/// Folding products on firm ground adds their value to the value of the
/// accumulator.
proof fn lemma_mul_terms_value(
    g: Gate,
    env: Environment,
    terms: Seq<(FieldElement, Witness, Witness)>,
    n: nat,
    total: int,
)
    requires
        n <= terms.len(),
        grounded(g.pass, env),
        valued(g.acc, g.pass.cs),
        combination_value(g.acc, g.pass.cs) == total % (modulus() as int),
        !g.mul_terms(env, terms, n).pass.failed(),
        g.mul_terms(env, terms, n).pass.cs.fits(),
    ensures
        grounded(g.mul_terms(env, terms, n).pass, env),
        valued(g.mul_terms(env, terms, n).acc, g.mul_terms(env, terms, n).pass.cs),
        keeps_values(g.pass.cs, g.mul_terms(env, terms, n).pass.cs),
        combination_value(g.mul_terms(env, terms, n).acc, g.mul_terms(env, terms, n).pass.cs) == (
        total + products_value(terms, env.values, n)) % (modulus() as int),
    decreases n,
{
    if n > 0 {
        let before = g.mul_terms(env, terms, (n - 1) as nat);
        if before.pass.failed() {
            lemma_mul_terms_stay_failed(g, env, terms, (n - 1) as nat, n);
        }
        lemma_mul_terms_count_up(g, env, terms, (n - 1) as nat, n);
        lemma_mul_terms_value(g, env, terms, (n - 1) as nat, total);
        lemma_mul_term_value(
            before,
            env,
            terms[n - 1],
            total + products_value(terms, env.values, (n - 1) as nat),
        );
    }
}

/// Folding linear terms on firm ground adds their value to the value of the
/// accumulator.
proof fn lemma_linear_terms_value(
    g: Gate,
    env: Environment,
    terms: Seq<(FieldElement, Witness)>,
    n: nat,
    total: int,
)
    requires
        n <= terms.len(),
        grounded(g.pass, env),
        valued(g.acc, g.pass.cs),
        combination_value(g.acc, g.pass.cs) == total % (modulus() as int),
        !g.linear_terms(env, terms, n).pass.failed(),
        g.linear_terms(env, terms, n).pass.cs.fits(),
    ensures
        grounded(g.linear_terms(env, terms, n).pass, env),
        valued(g.linear_terms(env, terms, n).acc, g.linear_terms(env, terms, n).pass.cs),
        keeps_values(g.pass.cs, g.linear_terms(env, terms, n).pass.cs),
        combination_value(g.linear_terms(env, terms, n).acc, g.linear_terms(env, terms, n).pass.cs)
            == (total + linear_value(terms, env.values, n)) % (modulus() as int),
    decreases n,
{
    if n > 0 {
        let before = g.linear_terms(env, terms, (n - 1) as nat);
        if before.pass.failed() {
            lemma_linear_terms_stay_failed(g, env, terms, (n - 1) as nat, n);
        }
        lemma_linear_terms_count_up(g, env, terms, (n - 1) as nat, n);
        lemma_linear_terms_value(g, env, terms, (n - 1) as nat, total);
        lemma_linear_term_value(
            before,
            env,
            terms[n - 1],
            total + linear_value(terms, env.values, (n - 1) as nat),
        );
    }
}

/// The constraint says what the assertion says. On firm ground, a
/// zero-assertion that is constrained without failure gives a linear
/// combination whose value, under what the system holds, is the value of the
/// assertion's expression under the assignment. The combination that it is
/// multiplied with has the value one, and the right-hand side the value
/// zero. The ground stays firm for the next assertion.
pub proof fn law_accumulator_has_the_value(pass: Pass, env: Environment, expr: Expression)
    requires
        grounded(pass, env),
        !pass.gate(env, expr).failed(),
        pass.gate(env, expr).cs.fits(),
    ensures
        grounded(pass.gate(env, expr), env),
        keeps_values(pass.cs, pass.gate(env, expr).cs),
        valued(pass.accumulator(env, expr), pass.gate(env, expr).cs),
        combination_value(pass.accumulator(env, expr), pass.gate(env, expr).cs)
            == expression_value(expr, env.values),
        combination_value(one_term(), pass.gate(env, expr).cs) == 1,
        combination_value(Map::empty(), pass.gate(env, expr).cs) == 0,
{
    let p = modulus() as int;
    let start = Gate { pass, acc: Map::empty() };
    let products = start.mul_terms(env, expr.mul_terms@, expr.mul_terms@.len());
    let folded = pass.folded(env, expr);
    let after = pass.gate(env, expr);
    let values = after.cs.witness_values;
    if products.pass.failed() {
        lemma_linear_terms_stay_failed(
            products,
            env,
            expr.linear_combinations@,
            0,
            expr.linear_combinations@.len(),
        );
    }
    lemma_linear_terms_count_up(
        products,
        env,
        expr.linear_combinations@,
        0,
        expr.linear_combinations@.len(),
    );
    lemma_witness_part_tail(Map::empty(), pass.cs.witness_values, 0, pass.cs.witness_values.len());
    lemma_mul_terms_value(start, env, expr.mul_terms@, expr.mul_terms@.len(), 0);
    let so_far = products_value(expr.mul_terms@, env.values, expr.mul_terms@.len());
    lemma_linear_terms_value(
        products,
        env,
        expr.linear_combinations@,
        expr.linear_combinations@.len(),
        so_far,
    );
    let terms = so_far + linear_value(
        expr.linear_combinations@,
        env.values,
        expr.linear_combinations@.len(),
    );
    assert(after.cs.witness_values == folded.pass.cs.witness_values);
    lemma_add_term_value(folded.acc, expr.q_c@, Variable::One, after.cs);
    lemma_witness_part_reads(
        folded.acc,
        folded.acc,
        folded.pass.cs.witness_values,
        values,
        values.len(),
    );
    assert(expr.q_c@ * 1 == expr.q_c@);
    lemma_add_mod_noop(terms, expr.q_c@ as int, p);
    lemma_add_mod_noop(terms % p, expr.q_c@ as int, p);
    lemma_mod_twice(terms, p);
    lemma_witness_part_tail(Map::empty(), values, 0, values.len());
    lemma_add_term_value(Map::empty(), 1, Variable::One, after.cs);
    assert(1nat * 1nat == 1);
    assert forall|v: Variable| #[trigger]
        pass.accumulator(env, expr).contains_key(v) implies variable_value(after.cs, v) is Some by {
        if v != Variable::One {
            assert(folded.acc.contains_key(v));
            assert(variable_value(folded.pass.cs, v) is Some);
        }
    }
}

/// A constraint `a * b = c` holds of the values that the system holds.
pub open spec fn holds(constraint: Constraint, cs: CsModel) -> bool {
    (combination_value(constraint.a, cs) * combination_value(constraint.b, cs)) % (
    modulus() as int) == combination_value(constraint.c, cs)
}

/// A constraint says what a zero-assertion says: it is `1 * b = 0`, and the
/// value of `b` under what the system holds is the value of the assertion's
/// expression under the assignment.
pub open spec fn says(
    constraint: Constraint,
    cs: CsModel,
    expr: Expression,
    values: Map<u32, nat>,
) -> bool {
    &&& constraint.a == one_term()
    &&& constraint.c == Map::<Variable, nat>::empty()
    &&& valued(constraint.b, cs)
    &&& combination_value(constraint.b, cs) == expression_value(expr, values)
}

/// The place, among the constraints of the system, of the constraint for
/// the `i`-th instruction of a pass that started on `cs`.
pub open spec fn place(cs: CsModel, ops: Seq<Opcode>, i: int) -> int {
    (cs.constraints.len() + assertions(ops, i as nat)) as int
}

/// The constant one alone has the value one, and the empty combination the
/// value zero.
proof fn lemma_one_and_zero(cs: CsModel)
    requires
        cs.witness_values.len() <= usize::MAX + 1,
    ensures
        combination_value(one_term(), cs) == 1,
        combination_value(Map::empty(), cs) == 0,
{
    lemma_witness_part_tail(Map::empty(), cs.witness_values, 0, cs.witness_values.len());
    lemma_add_term_value(Map::empty(), 1, Variable::One, cs);
    assert(1nat * 1nat == 1);
}

/// A constraint that says what an assertion says holds exactly if the
/// assertion's expression is zero in the field.
proof fn lemma_says_and_holds(
    constraint: Constraint,
    cs: CsModel,
    expr: Expression,
    values: Map<u32, nat>,
)
    requires
        says(constraint, cs, expr, values),
        cs.witness_values.len() <= usize::MAX + 1,
    ensures
        holds(constraint, cs) <==> expression_value(expr, values) == 0,
{
    let p = modulus() as int;
    let b = combination_value(constraint.b, cs);
    lemma_one_and_zero(cs);
    assert(1 * b == b);
    lemma_mod_twice(
        coefficient(constraint.b, Variable::One) + witness_part(
            constraint.b,
            cs.witness_values,
            cs.witness_values.len(),
        ),
        p,
    );
}

/// What a zero-assertion that comes through adds to the constraints of a
/// system that keeps the shape: its one constraint, at the end.
proof fn lemma_gate_appends(pass: Pass, env: Environment, expr: Expression)
    requires
        !pass.gate(env, expr).failed(),
        keeps_shape(pass.cs.mode),
    ensures
        pass.gate(env, expr).cs.mode == pass.cs.mode,
        pass.gate(env, expr).cs.constraints == pass.cs.constraints.push(
            Constraint { a: one_term(), b: pass.accumulator(env, expr), c: Map::empty() },
        ),
{
    let start = Gate { pass, acc: Map::empty() };
    let products = start.mul_terms(env, expr.mul_terms@, expr.mul_terms@.len());
    lemma_mul_terms_only(start, env, expr.mul_terms@, expr.mul_terms@.len());
    lemma_linear_terms_only(
        products,
        env,
        expr.linear_combinations@,
        expr.linear_combinations@.len(),
    );
}

/// Every constraint that the first `n` instructions have written says what
/// its assertion says, under what the system holds after them.
proof fn lemma_opcodes_say(start: Pass, env: Environment, ops: Seq<Opcode>, n: nat)
    requires
        n <= ops.len(),
        grounded(start, env),
        keeps_shape(start.cs.mode),
        !start.opcodes(env, ops, n).failed(),
        start.opcodes(env, ops, n).cs.fits(),
    ensures
        grounded(start.opcodes(env, ops, n), env),
        keeps_values(start.cs, start.opcodes(env, ops, n).cs),
        start.opcodes(env, ops, n).cs.mode == start.cs.mode,
        start.opcodes(env, ops, n).cs.constraints.len() == place(start.cs, ops, n as int),
        forall|i: int|
            0 <= i < n ==> (#[trigger] ops[i] matches Opcode::AssertZero(expr) ==> says(
                start.opcodes(env, ops, n).cs.constraints[place(start.cs, ops, i)],
                start.opcodes(env, ops, n).cs,
                expr,
                env.values,
            )),
    decreases n,
{
    if n > 0 {
        let before = start.opcodes(env, ops, (n - 1) as nat);
        let after = start.opcodes(env, ops, n);
        if before.failed() {
            lemma_opcodes_stay_failed(start, env, ops, (n - 1) as nat, n);
        }
        lemma_opcodes_count_up(start, env, ops, (n - 1) as nat, n);
        lemma_opcodes_say(start, env, ops, (n - 1) as nat);
        match ops[n - 1] {
            Opcode::AssertZero(last) => {
                law_accumulator_has_the_value(before, env, last);
                lemma_gate_appends(before, env, last);
                assert forall|i: int| 0 <= i < n implies (#[trigger] ops[i] matches Opcode::AssertZero(
                    expr,
                ) ==> says(
                    after.cs.constraints[place(start.cs, ops, i)],
                    after.cs,
                    expr,
                    env.values,
                )) by {
                    if i < n - 1 {
                        if let Opcode::AssertZero(expr) = ops[i] {
                            lemma_demand_grows(ops, (i + 1) as nat, (n - 1) as nat);
                            let constraint = before.cs.constraints[place(start.cs, ops, i)];
                            assert(after.cs.constraints[place(start.cs, ops, i)] == constraint);
                            lemma_value_is_kept(constraint.b, before.cs, after.cs);
                        }
                    }
                }
            },
            _ => {},
        }
    }
}

/// Every constraint of a pass says what its assertion says. After a pass
/// that came through, on firm ground and on a system that keeps the shape,
/// the constraint for a zero-assertion holds of the values that the system
/// holds exactly if the assertion's expression is zero, in the field, under
/// the assignment.
pub proof fn law_constraint_holds_iff_expression_is_zero(
    cs: CsModel,
    env: Environment,
    ops: Seq<Opcode>,
    i: int,
)
    requires
        grounded(Pass::start(cs), env),
        keeps_shape(cs.mode),
        constrain(cs, env, ops).failure is None,
        constrain(cs, env, ops).cs.fits(),
        0 <= i < ops.len(),
        ops[i] is AssertZero,
    ensures
        place(cs, ops, i) < constrain(cs, env, ops).cs.constraints.len(),
        holds(constrain(cs, env, ops).cs.constraints[place(cs, ops, i)], constrain(cs, env, ops).cs)
            <==> expression_value(ops[i]->AssertZero_0, env.values) == 0,
{
    let after = constrain(cs, env, ops);
    lemma_opcodes_say(Pass::start(cs), env, ops, ops.len());
    lemma_demand_grows(ops, (i + 1) as nat, ops.len());
    lemma_says_and_holds(
        after.cs.constraints[place(cs, ops, i)],
        after.cs,
        ops[i]->AssertZero_0,
        env.values,
    );
}

/// Allocating outputs leaves the ground firm and writes no constraint.
proof fn lemma_outputs_grounded(cs: CsModel, env: Environment, results: Seq<u32>, n: nat)
    requires
        n <= results.len(),
        grounded(Pass::start(cs), env),
        !Step::start(cs).outputs_upto(env.values, results, n).failed(),
        Step::start(cs).outputs_upto(env.values, results, n).cs.fits(),
    ensures
        grounded(Pass::start(Step::start(cs).outputs_upto(env.values, results, n).cs), env),
        Step::start(cs).outputs_upto(env.values, results, n).cs.constraints == cs.constraints,
        Step::start(cs).outputs_upto(env.values, results, n).cs.mode == cs.mode,
    decreases n,
{
    if n > 0 {
        let before = Step::start(cs).outputs_upto(env.values, results, (n - 1) as nat);
        let after = Step::start(cs).outputs_upto(env.values, results, n);
        if before.failed() {
            lemma_outputs_stay_failed(Step::start(cs), env.values, results, (n - 1) as nat, n);
        }
        lemma_outputs_count_up(Step::start(cs), env.values, results, (n - 1) as nat, n);
        lemma_outputs_grounded(cs, env, results, (n - 1) as nat);
        assert forall|w: u32| #[trigger] env.known.contains_key(w) implies env.values.contains_key(w)
            && variable_value(after.cs, env.known[w]) == Some(env.values[w]) by {
            assert(variable_value(before.cs, env.known[w]) == Some(env.values[w]));
        }
    }
}

/// Every constraint of a step says what its assertion says. After a step
/// that came through, on a system in prove mode that keeps the shape and
/// holds a value for every witness variable, and with inputs whose variables
/// have in the system the values that the assignment gives their
/// parameters, the constraint for a zero-assertion holds of the values that
/// the system holds exactly if the assertion's expression is zero, in the
/// field, under the assignment.
pub proof fn law_step_constraint_holds_iff_expression_is_zero(
    cs: CsModel,
    env: Environment,
    results: Seq<u32>,
    ops: Seq<Opcode>,
    i: int,
)
    requires
        grounded(Pass::start(cs), env),
        keeps_shape(cs.mode),
        step(cs, env, results, ops).failure is None,
        step(cs, env, results, ops).cs.fits(),
        0 <= i < ops.len(),
        ops[i] is AssertZero,
    ensures
        place(cs, ops, i) < step(cs, env, results, ops).cs.constraints.len(),
        holds(
            step(cs, env, results, ops).cs.constraints[place(cs, ops, i)],
            step(cs, env, results, ops).cs,
        ) <==> expression_value(ops[i]->AssertZero_0, env.values) == 0,
{
    let allocated = Step::start(cs).outputs_upto(env.values, results, results.len());
    lemma_opcodes_count_up(Pass::start(allocated.cs), env, ops, 0, ops.len());
    lemma_outputs_grounded(cs, env, results, results.len());
    law_constraint_holds_iff_expression_is_zero(allocated.cs, env, ops, i);
}

} // verus!
