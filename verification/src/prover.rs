//! The constraint system that the Groth16 prover fills while a circuit is
//! synthesized: the rows of the constraint matrices and the assignment of
//! every variable.

use vstd::prelude::*;

use crate::field::Field;

verus! {

/// The index of a variable: among the public inputs or among the private ones.
#[derive(Clone, Copy, Debug, PartialEq, Eq)]
pub enum Index {
    Public(usize),
    Private(usize),
}

/// A variable of the constraint system.
#[derive(Clone, Copy, Debug, PartialEq, Eq)]
pub struct Variable {
    pub index: Index,
}

/// A linear combination of variables: each variable with its coefficient.
#[derive(Clone, Debug, PartialEq, Eq)]
pub struct LinearCombination {
    pub terms: Vec<(Variable, Field)>,
}

impl LinearCombination {
    /// Returns the empty linear combination.
    pub fn zero() -> (r: LinearCombination)
        ensures
            r.terms@.len() == 0,
    {
        LinearCombination { terms: Vec::new() }
    }
}

/// Why a circuit could not be synthesized (as when a value was not assigned).
#[derive(Clone, Copy, Debug, PartialEq, Eq)]
pub struct SynthesisError;

/// The row of a constraint matrix that a linear combination gives: each
/// coefficient with the index of its variable.
pub open spec fn constraint_row(terms: Seq<(Variable, Field)>) -> Seq<(Field, Index)> {
    terms.map_values(|t: (Variable, Field)| (t.1, t.0.index))
}

/// The constraint system of the prover.
pub struct ProvingAssignment {
    at: Vec<Vec<(Field, Index)>>,
    bt: Vec<Vec<(Field, Index)>>,
    ct: Vec<Vec<(Field, Index)>>,
    public_variables: Vec<Field>,
    private_variables: Vec<Field>,
}

/// The rows of a constraint matrix, as sequences.
pub open spec fn rows(m: Seq<Vec<(Field, Index)>>) -> Seq<Seq<(Field, Index)>> {
    m.map_values(|row: Vec<(Field, Index)>| row@)
}

/// Adds the row that `l` gives to the matrix `constraints`.
fn push_constraints(l: LinearCombination, constraints: &mut Vec<Vec<(Field, Index)>>)
    ensures
        rows(final(constraints)@) == rows(old(constraints)@).push(constraint_row(l.terms@)),
{
    let mut row: Vec<(Field, Index)> = Vec::new();
    let mut i: usize = 0;
    while i < l.terms.len()
        invariant
            i <= l.terms@.len(),
            row@ == constraint_row(l.terms@.subrange(0, i as int)),
        decreases l.terms@.len() - i,
    {
        let (variable, coefficient) = l.terms[i];
        row.push((coefficient, variable.index));
        assert(constraint_row(l.terms@.subrange(0, i + 1)) =~= constraint_row(l.terms@.subrange(0, i as int)).push(
            (coefficient, variable.index),
        ));
        i = i + 1;
    }
    assert(l.terms@.subrange(0, l.terms@.len() as int) =~= l.terms@);
    let ghost row_view = row@;
    constraints.push(row);
    assert(rows(constraints@) =~= rows(old(constraints)@).push(row_view));
}

impl ProvingAssignment {
    /// The rows of the three constraint matrices.
    pub closed spec fn a_rows(&self) -> Seq<Seq<(Field, Index)>> {
        rows(self.at@)
    }

    pub closed spec fn b_rows(&self) -> Seq<Seq<(Field, Index)>> {
        rows(self.bt@)
    }

    pub closed spec fn c_rows(&self) -> Seq<Seq<(Field, Index)>> {
        rows(self.ct@)
    }

    /// The values of the public variables, in the order they were allocated.
    pub closed spec fn public_values(&self) -> Seq<Field> {
        self.public_variables@
    }

    /// The values of the private variables, in the order they were allocated.
    pub closed spec fn private_values(&self) -> Seq<Field> {
        self.private_variables@
    }

    /// Returns an empty constraint system.
    pub fn new() -> (r: ProvingAssignment)
        ensures
            r.a_rows().len() == 0,
            r.b_rows().len() == 0,
            r.c_rows().len() == 0,
            r.public_values().len() == 0,
            r.private_values().len() == 0,
    {
        ProvingAssignment {
            at: Vec::new(),
            bt: Vec::new(),
            ct: Vec::new(),
            public_variables: Vec::new(),
            private_variables: Vec::new(),
        }
    }

    /// Allocates a private variable with the value that `f` gives, and returns
    /// it; where `f` fails, nothing is allocated and its error is returned.
    pub fn alloc_private<F: FnOnce() -> Result<Field, SynthesisError>>(&mut self, f: F) -> (r: Result<Variable, SynthesisError>)
        requires
            call_requires(f, ()),
        ensures
            final(self).public_values() == old(self).public_values(),
            final(self).a_rows() == old(self).a_rows(),
            final(self).b_rows() == old(self).b_rows(),
            final(self).c_rows() == old(self).c_rows(),
            match r {
                Ok(v) => v.index == Index::Private(old(self).private_values().len() as usize) && exists|value: Field|
                    #[trigger] call_ensures(f, (), Ok::<Field, SynthesisError>(value)) && final(self).private_values()
                        == old(self).private_values().push(value),
                Err(e) => call_ensures(f, (), Err::<Field, SynthesisError>(e)) && final(self).private_values()
                    == old(self).private_values(),
            },
    {
        let index = self.private_variables.len();
        let value = f()?;
        self.private_variables.push(value);
        Ok(Variable { index: Index::Private(index) })
    }

    /// Allocates a public variable with the value that `f` gives, and returns
    /// it; where `f` fails, nothing is allocated and its error is returned.
    pub fn alloc_input<F: FnOnce() -> Result<Field, SynthesisError>>(&mut self, f: F) -> (r: Result<Variable, SynthesisError>)
        requires
            call_requires(f, ()),
        ensures
            final(self).private_values() == old(self).private_values(),
            final(self).a_rows() == old(self).a_rows(),
            final(self).b_rows() == old(self).b_rows(),
            final(self).c_rows() == old(self).c_rows(),
            match r {
                Ok(v) => v.index == Index::Public(old(self).public_values().len() as usize) && exists|value: Field|
                    #[trigger] call_ensures(f, (), Ok::<Field, SynthesisError>(value)) && final(self).public_values()
                        == old(self).public_values().push(value),
                Err(e) => call_ensures(f, (), Err::<Field, SynthesisError>(e)) && final(self).public_values()
                    == old(self).public_values(),
            },
    {
        let index = self.public_variables.len();
        let value = f()?;
        self.public_variables.push(value);
        Ok(Variable { index: Index::Public(index) })
    }

    /// Adds the constraint `a * b = c`: each of `a`, `b` and `c` is given the
    /// empty linear combination and returns one, whose row is added to its matrix.
    pub fn enforce<
        LA: FnOnce(LinearCombination) -> LinearCombination,
        LB: FnOnce(LinearCombination) -> LinearCombination,
        LC: FnOnce(LinearCombination) -> LinearCombination,
    >(&mut self, a: LA, b: LB, c: LC)
        requires
            forall|l: LinearCombination| #[trigger] call_requires(a, (l,)),
            forall|l: LinearCombination| #[trigger] call_requires(b, (l,)),
            forall|l: LinearCombination| #[trigger] call_requires(c, (l,)),
        ensures
            final(self).public_values() == old(self).public_values(),
            final(self).private_values() == old(self).private_values(),
            exists|za: LinearCombination, la: LinearCombination|
                za.terms@.len() == 0 && #[trigger] call_ensures(a, (za,), la) && final(self).a_rows()
                    == old(self).a_rows().push(constraint_row(la.terms@)),
            exists|zb: LinearCombination, lb: LinearCombination|
                zb.terms@.len() == 0 && #[trigger] call_ensures(b, (zb,), lb) && final(self).b_rows()
                    == old(self).b_rows().push(constraint_row(lb.terms@)),
            exists|zc: LinearCombination, lc: LinearCombination|
                zc.terms@.len() == 0 && #[trigger] call_ensures(c, (zc,), lc) && final(self).c_rows()
                    == old(self).c_rows().push(constraint_row(lc.terms@)),
    {
        let za = LinearCombination::zero();
        let ghost za_ghost = za;
        let la = a(za);
        let ghost la_ghost = la;
        push_constraints(la, &mut self.at);
        let zb = LinearCombination::zero();
        let ghost zb_ghost = zb;
        let lb = b(zb);
        let ghost lb_ghost = lb;
        push_constraints(lb, &mut self.bt);
        let zc = LinearCombination::zero();
        let ghost zc_ghost = zc;
        let lc = c(zc);
        let ghost lc_ghost = lc;
        push_constraints(lc, &mut self.ct);
        assert(call_ensures(a, (za_ghost,), la_ghost));
        assert(call_ensures(b, (zb_ghost,), lb_ghost));
        assert(call_ensures(c, (zc_ghost,), lc_ghost));
    }

    /// Enters a namespace: namespaces are not kept here, so nothing changes.
    pub fn push_namespace(&mut self)
        ensures
            *final(self) == *old(self),
    {
    }

    /// Leaves a namespace: namespaces are not kept here, so nothing changes.
    pub fn pop_namespace(&mut self)
        ensures
            *final(self) == *old(self),
    {
    }

    /// Returns the root constraint system: this one.
    pub fn get_root(&mut self) -> (r: &mut ProvingAssignment)
        ensures
            *r == *old(self),
            *final(self) == *final(r),
    {
        self
    }

    /// Returns the number of constraints.
    pub fn num_constraints(&self) -> (r: usize)
        ensures
            r == self.a_rows().len(),
    {
        self.at.len()
    }

    /// Returns the number of public variables.
    pub fn num_public_variables(&self) -> (r: usize)
        ensures
            r == self.public_values().len(),
    {
        self.public_variables.len()
    }

    /// Returns the number of private variables.
    pub fn num_private_variables(&self) -> (r: usize)
        ensures
            r == self.private_values().len(),
    {
        self.private_variables.len()
    }

    /// The prover never runs in setup mode.
    pub fn is_in_setup_mode(&self) -> (r: bool)
        ensures
            !r,
    {
        false
    }

    /// Returns the assignment the proof commits to: the public values after
    /// the first (the constant one), then the private values.
    pub fn witness_assignment(&self) -> (r: Vec<Field>)
        ensures
            r@ == (if self.public_values().len() == 0 {
                Seq::empty()
            } else {
                self.public_values().subrange(1, self.public_values().len() as int)
            }) + self.private_values(),
    {
        let mut r: Vec<Field> = Vec::new();
        let n = self.public_variables.len();
        if n > 0 {
            let mut i: usize = 1;
            while i < n
                invariant
                    n == self.public_variables@.len(),
                    1 <= i <= n,
                    r@ == self.public_variables@.subrange(1, i as int),
                decreases n - i,
            {
                r.push(self.public_variables[i]);
                assert(self.public_variables@.subrange(1, i + 1) =~= self.public_variables@.subrange(1, i as int).push(
                    self.public_variables@[i as int],
                ));
                i = i + 1;
            }
        }
        let ghost head = r@;
        assert(head =~= if self.public_variables@.len() == 0 {
            Seq::empty()
        } else {
            self.public_variables@.subrange(1, self.public_variables@.len() as int)
        });
        let mut j: usize = 0;
        while j < self.private_variables.len()
            invariant
                j <= self.private_variables@.len(),
                r@ == head + self.private_variables@.subrange(0, j as int),
            decreases self.private_variables@.len() - j,
        {
            r.push(self.private_variables[j]);
            assert(self.private_variables@.subrange(0, j + 1) =~= self.private_variables@.subrange(0, j as int).push(
                self.private_variables@[j as int],
            ));
            j = j + 1;
        }
        assert(self.private_variables@.subrange(0, self.private_variables@.len() as int) =~= self.private_variables@);
        r
    }
}


/// Whether `p` is the constraint system a synthesis starts from: no
/// constraints, and the constant one as its only variable, a public one.
pub open spec fn synthesis_start(p: ProvingAssignment) -> bool {
    &&& p.a_rows().len() == 0
    &&& p.b_rows().len() == 0
    &&& p.c_rows().len() == 0
    &&& p.public_values() == seq![Field::spec_one()]
    &&& p.private_values().len() == 0
}

/// Synthesizes a circuit for the prover: allocates the constant one as the
/// first public variable, then runs the circuit on the constraint system,
/// and returns the system it left, or the circuit's error.
pub fn synthesize<C: FnOnce(&mut ProvingAssignment) -> Result<(), SynthesisError>>(circuit: C) -> (r: Result<ProvingAssignment, SynthesisError>)
    requires
        forall|p: &mut ProvingAssignment| #[trigger] call_requires(circuit, (p,)),
    ensures
        exists|p: &mut ProvingAssignment, out: Result<(), SynthesisError>|
            synthesis_start(*p) && #[trigger] call_ensures(circuit, (p,), out) && match out {
                Ok(_) => r == Ok::<ProvingAssignment, SynthesisError>(*final(p)),
                Err(e) => r == Err::<ProvingAssignment, SynthesisError>(e),
            },
{
    let mut prover = ProvingAssignment::new();
    let one = || -> (r: Result<Field, SynthesisError>)
        ensures
            r == Ok::<Field, SynthesisError>(Field::spec_one()),
    { Ok(Field::one()) };
    let _ = prover.alloc_input(one);
    assert(prover.public_values() =~= seq![Field::spec_one()]);
    assert(synthesis_start(prover));
    let out = circuit(&mut prover);
    match out {
        Ok(()) => Ok(prover),
        Err(e) => Err(e),
    }
}

/// A result of one of the prover's jobs: a point of the first group or of the second.
#[derive(Clone, Copy, Debug, PartialEq, Eq)]
pub enum ResultWrapper<G1, G2> {
    G1(G1),
    G2(G2),
}

impl<G1, G2> ResultWrapper<G1, G2> {
    pub fn from_g1(g: G1) -> (r: Self)
        ensures
            r == ResultWrapper::<G1, G2>::G1(g),
    {
        ResultWrapper::G1(g)
    }

    pub fn from_g2(g: G2) -> (r: Self)
        ensures
            r == ResultWrapper::<G1, G2>::G2(g),
    {
        ResultWrapper::G2(g)
    }

    /// Returns the point of the first group; the result must be one.
    pub fn into_g1(self) -> (r: G1)
        requires
            self is G1,
        ensures
            self == ResultWrapper::<G1, G2>::G1(r),
    {
        match self {
            ResultWrapper::G1(g) => g,
            ResultWrapper::G2(_) => vstd::pervasive::unreached(),
        }
    }

    /// Returns the point of the second group; the result must be one.
    pub fn into_g2(self) -> (r: G2)
        requires
            self is G2,
        ensures
            self == ResultWrapper::<G1, G2>::G2(r),
    {
        match self {
            ResultWrapper::G2(g) => g,
            ResultWrapper::G1(_) => vstd::pervasive::unreached(),
        }
    }
}

/// Whether each job the prover runs gives a point of the first group, in the
/// order the jobs are added: B in the first group (only where `r` is not
/// zero), B in the second group, then H and L in the first group.
pub open spec fn job_groups(r_is_zero: bool) -> Seq<bool> {
    if r_is_zero {
        seq![false, true, true]
    } else {
        seq![true, false, true, true]
    }
}

/// Where the results are laid out as the jobs were added: where `r` is not
/// zero, B in the first group at 0, B in the second group at 1, H at 2 and L
/// at 3; where `r` is zero (no B in the first group is computed), B in the
/// second group at 0, H at 1 and L at 2.
pub open spec fn results_readable<G1, G2>(r_is_zero: bool, results: Seq<ResultWrapper<G1, G2>>) -> bool {
    if r_is_zero {
        &&& results.len() >= 3
        &&& results[0] is G2
        &&& results[1] is G1
        &&& results[2] is G1
    } else {
        &&& results.len() >= 4
        &&& results[0] is G1
        &&& results[1] is G2
        &&& results[2] is G1
        &&& results[3] is G1
    }
}

/// Reads B in the first group (or `zero` where `r` is zero, as none is
/// computed then), B in the second group, H and L from the results of the
/// prover's jobs, at the positions in which the jobs were added.
pub fn read_job_results<G1: Copy, G2: Copy>(
    r_is_zero: bool,
    results: &Vec<ResultWrapper<G1, G2>>,
    zero: G1,
) -> (r: (G1, G2, G1, G1))
    requires
        results_readable(r_is_zero, results@),
    ensures
        r_is_zero ==> {
            &&& r.0 == zero
            &&& results@[0] == ResultWrapper::<G1, G2>::G2(r.1)
            &&& results@[1] == ResultWrapper::<G1, G2>::G1(r.2)
            &&& results@[2] == ResultWrapper::<G1, G2>::G1(r.3)
        },
        !r_is_zero ==> {
            &&& results@[0] == ResultWrapper::<G1, G2>::G1(r.0)
            &&& results@[1] == ResultWrapper::<G1, G2>::G2(r.1)
            &&& results@[2] == ResultWrapper::<G1, G2>::G1(r.2)
            &&& results@[3] == ResultWrapper::<G1, G2>::G1(r.3)
        },
{
    if r_is_zero {
        let g2_b = results[0].into_g2();
        let h_acc = results[1].into_g1();
        let l_aux_acc = results[2].into_g1();
        (zero, g2_b, h_acc, l_aux_acc)
    } else {
        let g1_b = results[0].into_g1();
        let g2_b = results[1].into_g2();
        let h_acc = results[2].into_g1();
        let l_aux_acc = results[3].into_g1();
        (g1_b, g2_b, h_acc, l_aux_acc)
    }
}

/// The results of the jobs, in the order they were added, are laid out as
/// they are read, whether or not `r` is zero.
pub proof fn law_job_layout<G1, G2>(r_is_zero: bool, results: Seq<ResultWrapper<G1, G2>>)
    requires
        results.len() == job_groups(r_is_zero).len(),
        forall|i: int| 0 <= i < results.len() ==> (#[trigger] results[i] is G1) == job_groups(r_is_zero)[i],
    ensures
        results_readable(r_is_zero, results),
{
    if r_is_zero {
        assert(!(results[0] is G1));
        assert(results[1] is G1);
        assert(results[2] is G1);
    } else {
        assert(results[0] is G1);
        assert(!(results[1] is G1));
        assert(results[2] is G1);
        assert(results[3] is G1);
    }
}

} // verus!
