//! The rank-1 constraint system that constraints are written to.
//!
//! The system itself is `ark_relations`' and stays opaque to the verifier.
//! This module gives it a mathematical model, [`CsModel`], says in spec
//! functions what allocation and enforcement do to the model, and holds the
//! few calls into `ark_relations` and `ark_r1cs_std` whose contracts are
//! taken on trust.

use crate::error::SynthesisError;
use crate::field::{field_add, option_value, FieldElement};
use ark_ff::{BigInteger, PrimeField};
use ark_r1cs_std::alloc::AllocVar;
use ark_r1cs_std::fields::fp::FpVar;
use vstd::prelude::*;

verus! {

/// A variable of the constraint system: one of the two constants, a public
/// instance variable or a private witness variable, each by its index.
#[derive(Clone, Copy, PartialEq, Eq, Structural, Debug)]
pub enum Variable {
    Zero,
    One,
    Instance(usize),
    Witness(usize),
}

/// How a constraint system treats what is written to it.
pub enum Mode {
    /// The handle refers to no system: every write fails.
    Detached,
    /// Only the shape is recorded; values are never asked for.
    Setup,
    /// Values are recorded, and the shape too if `construct_matrices`.
    Prove { construct_matrices: bool },
}

/// One constraint `a * b = c`. Each side is a linear combination, given as
/// the coefficient of every variable that occurs in it.
pub struct Constraint {
    pub a: Map<Variable, nat>,
    pub b: Map<Variable, nat>,
    pub c: Map<Variable, nat>,
}

/// What a constraint system holds, as far as this library reads or writes it.
pub struct CsModel {
    pub mode: Mode,
    /// The number of instance variables, the constant one among them.
    pub num_instance: nat,
    /// The number of witness variables handed out.
    pub num_witness: nat,
    /// The values recorded for witness variables, in order of recording.
    pub witness_values: Seq<nat>,
    /// The number of constraints enforced.
    pub num_constraints: nat,
    /// The number of linear combinations stored.
    pub num_linear_combinations: nat,
    /// The constraints whose shape was recorded, in order.
    pub constraints: Seq<Constraint>,
}

impl CsModel {
    /// The system after a request for a new witness variable, and the
    /// answer, as `new_witness_variable` of `ark_relations` has it. A
    /// detached handle refuses. In setup mode the counter moves and the value
    /// is not looked at. In prove mode the counter moves first, and then the
    /// value is recorded, or found missing.
    pub open spec fn new_witness(self, value: Option<nat>) -> (CsModel, Result<Variable, SynthesisError>) {
        let counted = CsModel { num_witness: self.num_witness + 1, ..self };
        match self.mode {
            Mode::Detached => (self, Err(SynthesisError::MissingCS)),
            Mode::Setup => (counted, Ok(Variable::Witness(self.num_witness as usize))),
            Mode::Prove { .. } => match value {
                Some(v) => (
                    CsModel { witness_values: self.witness_values.push(v), ..counted },
                    Ok(Variable::Witness(self.num_witness as usize)),
                ),
                None => (counted, Err(SynthesisError::AssignmentMissing)),
            },
        }
    }

    /// The system after a constraint is enforced, and the answer, as
    /// `enforce_constraint` of `ark_relations` has it. A detached handle
    /// refuses. Otherwise the constraint is counted, and where the shape is
    /// kept its three sides are stored, each as a linear combination of its
    /// own.
    pub open spec fn enforce(self, constraint: Constraint) -> (CsModel, Result<(), SynthesisError>) {
        let counted = CsModel { num_constraints: self.num_constraints + 1, ..self };
        let stored = CsModel {
            num_linear_combinations: self.num_linear_combinations + 3,
            constraints: self.constraints.push(constraint),
            ..counted
        };
        match self.mode {
            Mode::Detached => (self, Err(SynthesisError::MissingCS)),
            Mode::Setup => (stored, Ok(())),
            Mode::Prove { construct_matrices } => if construct_matrices {
                (stored, Ok(()))
            } else {
                (counted, Ok(()))
            },
        }
    }

    /// The value that the system reports for its `index`-th witness variable.
    pub open spec fn witness_value(self, index: nat) -> Option<nat> {
        if index < self.witness_values.len() {
            Some(self.witness_values[index as int])
        } else {
            None
        }
    }

    /// A system that nothing has been written to: one instance variable, the
    /// constant one, and nothing else.
    pub open spec fn fresh(mode: Mode) -> CsModel {
        CsModel {
            mode,
            num_instance: 1,
            num_witness: 0,
            witness_values: Seq::empty(),
            num_constraints: 0,
            num_linear_combinations: 0,
            constraints: Seq::empty(),
        }
    }

    /// All three counters are within what the machine can count.
    pub open spec fn fits(self) -> bool {
        &&& self.num_witness <= usize::MAX
        &&& self.num_constraints <= usize::MAX
        &&& self.num_linear_combinations <= usize::MAX
    }

    /// The counters leave room for so many more witness variables and
    /// constraints, each constraint with its three linear combinations.
    pub open spec fn room(self, witnesses: nat, constraints: nat) -> bool {
        &&& self.num_witness + witnesses <= usize::MAX
        &&& self.num_constraints + constraints <= usize::MAX
        &&& self.num_linear_combinations + 3 * constraints <= usize::MAX
    }

    /// No counter of `self` is ahead of `later`'s.
    pub open spec fn before(self, later: CsModel) -> bool {
        &&& self.num_witness <= later.num_witness
        &&& self.num_constraints <= later.num_constraints
        &&& self.num_linear_combinations <= later.num_linear_combinations
    }
}

/// The linear combination after `coeff * var` is added to it, as `+=` of
/// `ark_relations` has it: the coefficient of `var` grows by `coeff`, in the
/// field, from zero if `var` did not occur.
pub open spec fn add_term(terms: Map<Variable, nat>, coeff: nat, var: Variable) -> Map<Variable, nat> {
    let held: nat = if terms.contains_key(var) {
        terms[var]
    } else {
        0
    };
    terms.insert(var, field_add(held, coeff))
}

/// A field variable that a constraint system has allocated: its variable,
/// and the value that the system reported for it, if any.
#[derive(Clone, Copy, PartialEq, Eq, Debug)]
pub struct AllocatedFp {
    pub value: Option<FieldElement>,
    pub variable: Variable,
}

/// A handle to a constraint system of `ark_relations`.
///
/// The field is public because a handle can be put in and taken out in no
/// other way: the verifier takes no function whose signature names the
/// handle's type. What the contracts assume of a handle is said here, once.
///
/// Handles that were cloned from one another share one system. The
/// contracts of this library read a `&mut ConstraintSystem` as the only
/// writer of the system behind it for as long as the borrow lasts, and they
/// take it that nobody holds a `Ref` or `RefMut` of the system meanwhile:
/// `ark_relations` borrows the system anew in every call.
#[verifier::external_body]
pub struct ConstraintSystem {
    pub inner: ark_relations::r1cs::ConstraintSystemRef<ark_bn254::Fr>,
}

/// What the system behind a handle holds: the mode, the counters
/// `num_instance_variables`, `num_witness_variables`, `num_constraints` and
/// `num_linear_combinations`,
/// `witness_assignment` as integers below the modulus, and, for each
/// constraint stored, the coefficients of its three linear combinations. For
/// `ConstraintSystemRef::None` the mode is `Detached`, the counters are zero
/// and the sequences empty.
pub uninterp spec fn constraint_system_model(cs: ConstraintSystem) -> CsModel;

impl View for ConstraintSystem {
    type V = CsModel;

    open spec fn view(&self) -> CsModel {
        constraint_system_model(*self)
    }
}

/// A linear combination of `ark_relations`. Only this module makes one and
/// adds to it.
#[verifier::external_body]
pub struct LinearCombination {
    inner: ark_relations::r1cs::LinearCombination<ark_bn254::Fr>,
}

/// What a linear combination holds: for each variable that occurs among its
/// entries, the sum in the field of the coefficients that stand with it.
pub uninterp spec fn linear_combination_terms(lc: LinearCombination) -> Map<Variable, nat>;

impl View for LinearCombination {
    type V = Map<Variable, nat>;

    open spec fn view(&self) -> Map<Variable, nat> {
        linear_combination_terms(*self)
    }
}

impl LinearCombination {
    /// `LinearCombination::new` of `ark_relations`: a combination without
    /// entries.
    #[verifier::external_body]
    pub(crate) fn new() -> (r: LinearCombination)
        ensures
            linear_combination_terms(r) == (Map::<Variable, nat>::empty()),
    {
        LinearCombination { inner: ark_relations::r1cs::LinearCombination::new() }
    }

    /// `+=` of `ark_relations`' `LinearCombination` with a pair of a
    /// coefficient and a variable. It adds the coefficient to an entry of that
    /// variable, or inserts the pair as a new entry: either way the
    /// variable's sum grows by the coefficient and no other variable's sum
    /// changes.
    #[verifier::external_body]
    pub(crate) fn add_assign(&mut self, coeff: FieldElement, var: Variable)
        ensures
            linear_combination_terms(*final(self)) == add_term(
                linear_combination_terms(*old(self)),
                coeff@,
                var,
            ),
    {
        let coeff = ark_bn254::Fr::from_le_bytes_mod_order(
            &ark_ff::BigInt::new(coeff.limbs).to_bytes_le(),
        );
        self.inner += (coeff, match var {
            Variable::Zero => ark_relations::r1cs::Variable::Zero,
            Variable::One => ark_relations::r1cs::Variable::One,
            Variable::Instance(index) => ark_relations::r1cs::Variable::Instance(index),
            Variable::Witness(index) => ark_relations::r1cs::Variable::Witness(index),
        });
    }
}

impl ConstraintSystem {
    /// `ConstraintSystem::new` and `ConstraintSystemRef::new` of
    /// `ark_relations`: a handle on a new system, which is in prove mode and
    /// keeps the shape.
    #[verifier::external_body]
    pub(crate) fn fresh_prove() -> (r: ConstraintSystem)
        ensures
            constraint_system_model(r) == CsModel::fresh(
                (Mode::Prove { construct_matrices: true }),
            ),
    {
        let cs = ark_relations::r1cs::ConstraintSystem::new();
        ConstraintSystem { inner: ark_relations::r1cs::ConstraintSystemRef::new(cs) }
    }

    /// `ConstraintSystem::new` and `ConstraintSystemRef::new` of
    /// `ark_relations`, with the field `mode` set to `Setup` in between: a
    /// handle on a new system in setup mode.
    #[verifier::external_body]
    pub(crate) fn fresh_setup() -> (r: ConstraintSystem)
        ensures
            constraint_system_model(r) == CsModel::fresh(Mode::Setup),
    {
        let mut cs = ark_relations::r1cs::ConstraintSystem::new();
        cs.mode = ark_relations::r1cs::SynthesisMode::Setup;
        ConstraintSystem { inner: ark_relations::r1cs::ConstraintSystemRef::new(cs) }
    }

    /// A handle on a new system, in setup mode or in prove mode.
    pub fn new(setup: bool) -> (r: ConstraintSystem)
        ensures
            r@ == CsModel::fresh(
                if setup {
                    Mode::Setup
                } else {
                    Mode::Prove { construct_matrices: true }
                },
            ),
    {
        if setup {
            ConstraintSystem::fresh_setup()
        } else {
            ConstraintSystem::fresh_prove()
        }
    }

    /// `ConstraintSystemRef::num_instance_variables` of `ark_relations`.
    #[verifier::external_body]
    pub(crate) fn num_instance_variables(&self) -> (r: usize)
        ensures
            r == constraint_system_model(*self).num_instance,
    {
        self.inner.num_instance_variables()
    }

    /// `ConstraintSystemRef::num_witness_variables` of `ark_relations`.
    #[verifier::external_body]
    pub(crate) fn num_witness_variables(&self) -> (r: usize)
        ensures
            r == constraint_system_model(*self).num_witness,
    {
        self.inner.num_witness_variables()
    }

    /// `ConstraintSystemRef::num_constraints` of `ark_relations`.
    #[verifier::external_body]
    pub(crate) fn num_constraints(&self) -> (r: usize)
        ensures
            r == constraint_system_model(*self).num_constraints,
    {
        self.inner.num_constraints()
    }

    /// The field `num_linear_combinations` of `ark_relations`'
    /// `ConstraintSystem`, read through `ConstraintSystemRef::borrow`; zero
    /// for a handle without a system.
    #[verifier::external_body]
    pub(crate) fn num_linear_combinations(&self) -> (r: usize)
        ensures
            r == constraint_system_model(*self).num_linear_combinations,
    {
        self.inner.borrow().map_or(0, |cs| cs.num_linear_combinations)
    }

    /// How many instance variables, witness variables and constraints the
    /// system has.
    pub fn counts(&self) -> (r: (usize, usize, usize))
        ensures
            r.0 == self@.num_instance,
            r.1 == self@.num_witness,
            r.2 == self@.num_constraints,
    {
        (self.num_instance_variables(), self.num_witness_variables(), self.num_constraints())
    }

    /// Whether the counters leave room for so many more witness variables
    /// and constraints.
    pub fn has_room(&self, witnesses: usize, constraints: usize) -> (r: bool)
        ensures
            r == self@.room(witnesses as nat, constraints as nat),
    {
        let linear_combinations = match constraints.checked_mul(3) {
            Some(n) => n,
            None => {
                return false;
            },
        };
        self.num_witness_variables() <= usize::MAX - witnesses && self.num_constraints()
            <= usize::MAX - constraints && self.num_linear_combinations() <= usize::MAX
            - linear_combinations
    }

    /// `ConstraintSystemRef::new_witness_variable` of `ark_relations`, with a
    /// closure that yields `value` or, where there is none,
    /// `AssignmentMissing`. It hands out a witness variable, or fails with
    /// `MissingCS` or with the closure's error, and in no other way. The call
    /// adds one to the counter unchecked, so the counter after it must be one
    /// that the machine can hold.
    #[verifier::external_body]
    pub(crate) fn new_witness_variable(&mut self, value: Option<FieldElement>) -> (r: Result<
        Variable,
        SynthesisError,
    >)
        requires
            constraint_system_model(*old(self)).new_witness(option_value(value)).0.num_witness
                <= usize::MAX,
        ensures
            (constraint_system_model(*final(self)), r) == constraint_system_model(
                *old(self),
            ).new_witness(option_value(value)),
    {
        let value = value.map(
            |v| ark_bn254::Fr::from_le_bytes_mod_order(&ark_ff::BigInt::new(v.limbs).to_bytes_le()),
        );
        let missing = ark_relations::r1cs::SynthesisError::AssignmentMissing;
        match self.inner.new_witness_variable(|| value.ok_or(missing)) {
            Ok(ark_relations::r1cs::Variable::Witness(index)) => Ok(Variable::Witness(index)),
            Err(ark_relations::r1cs::SynthesisError::MissingCS) => Err(SynthesisError::MissingCS),
            _ => Err(SynthesisError::AssignmentMissing),
        }
    }

    /// `FpVar::new_witness` of `ark_r1cs_std`, with the same closure. It
    /// allocates as `new_witness_variable` does; the value handed back is
    /// what `R1CSVar::value` reads from the system for the new variable.
    #[verifier::external_body]
    pub(crate) fn new_witness_fp(&mut self, value: Option<FieldElement>) -> (r: Result<
        AllocatedFp,
        SynthesisError,
    >)
        requires
            constraint_system_model(*old(self)).new_witness(option_value(value)).0.num_witness
                <= usize::MAX,
        ensures
            constraint_system_model(*final(self)) == constraint_system_model(
                *old(self),
            ).new_witness(option_value(value)).0,
            match r {
                Ok(fp) => {
                    &&& constraint_system_model(*old(self)).new_witness(option_value(value)).1
                        == Ok::<Variable, SynthesisError>(fp.variable)
                    &&& option_value(fp.value) == constraint_system_model(
                        *final(self),
                    ).witness_value(constraint_system_model(*old(self)).num_witness)
                    &&& fp.value matches Some(v) ==> v.is_canonical()
                },
                Err(e) => constraint_system_model(*old(self)).new_witness(option_value(value)).1
                    == Err::<Variable, SynthesisError>(e),
            },
    {
        let value = value.map(
            |v| ark_bn254::Fr::from_le_bytes_mod_order(&ark_ff::BigInt::new(v.limbs).to_bytes_le()),
        );
        let missing = ark_relations::r1cs::SynthesisError::AssignmentMissing;
        match FpVar::new_witness(self.inner.clone(), || value.ok_or(missing)) {
            Ok(FpVar::Var(fp)) => match (fp.variable, fp.value().ok()) {
                (ark_relations::r1cs::Variable::Witness(index), value) => Ok(AllocatedFp {
                    value: value.map(|f| FieldElement { limbs: f.into_bigint().0 }),
                    variable: Variable::Witness(index),
                }),
                _ => Err(SynthesisError::AssignmentMissing),
            },
            Err(ark_relations::r1cs::SynthesisError::MissingCS) => Err(SynthesisError::MissingCS),
            _ => Err(SynthesisError::AssignmentMissing),
        }
    }

    /// `ConstraintSystemRef::enforce_constraint` of `ark_relations`. The call
    /// adds to two counters unchecked, so the counters after it must be ones
    /// that the machine can hold.
    #[verifier::external_body]
    pub(crate) fn enforce_constraint(
        &mut self,
        a: LinearCombination,
        b: LinearCombination,
        c: LinearCombination,
    ) -> (r: Result<(), SynthesisError>)
        requires
            constraint_system_model(*old(self)).enforce(
                (Constraint {
                    a: linear_combination_terms(a),
                    b: linear_combination_terms(b),
                    c: linear_combination_terms(c),
                }),
            ).0.num_constraints <= usize::MAX,
            constraint_system_model(*old(self)).enforce(
                (Constraint {
                    a: linear_combination_terms(a),
                    b: linear_combination_terms(b),
                    c: linear_combination_terms(c),
                }),
            ).0.num_linear_combinations <= usize::MAX,
        ensures
            (constraint_system_model(*final(self)), r) == constraint_system_model(
                *old(self),
            ).enforce(
                (Constraint {
                    a: linear_combination_terms(a),
                    b: linear_combination_terms(b),
                    c: linear_combination_terms(c),
                }),
            ),
    {
        match self.inner.enforce_constraint(a.inner, b.inner, c.inner) {
            Ok(()) => Ok(()),
            Err(ark_relations::r1cs::SynthesisError::MissingCS) => Err(SynthesisError::MissingCS),
            Err(_) => Err(SynthesisError::AssignmentMissing),
        }
    }
}

} // verus!
