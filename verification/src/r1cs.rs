//! Rank-1 constraint systems over the message field.
//!
//! A constraint is a triple of coefficient vectors `(a, b, c)` and holds of
//! an assignment `x` when `<a,x> * <b,x> == <c,x>`; an R1CS is an ordered
//! list of such constraints together with the declared public input/output
//! counts.

use vstd::prelude::*;
use vstd::arithmetic::div_mod::{lemma_add_mod_noop, lemma_mul_mod_noop, lemma_mod_twice,
    lemma_small_mod};
use crate::field::{MOD_P, is_fp, add_p, mul_p};
use crate::poly::{ints, canon_p, dot, tail};

verus! {

/// Why an R1CS or a constraint could not be built.
#[derive(Debug, PartialEq, Eq, Structural)]
pub enum CreationError {
    VectorsSizeMismatch,
    MatrixesSizeMismatch,
    /// Number of IOs should be less than witness size - 1
    InputOutputTooBig,
}

/// One constraint `<a,x> * <b,x> = <c,x>`; index 0 of each vector is the
/// coefficient of the constant wire.
#[derive(Clone, Debug)]
pub struct Constraint {
    pub a: Vec<u64>,
    pub b: Vec<u64>,
    pub c: Vec<u64>,
}

impl Constraint {
    /// All three vectors hold canonical field elements.
    pub open spec fn canon(&self) -> bool {
        canon_p(self.a@) && canon_p(self.b@) && canon_p(self.c@)
    }

    /// The three vectors have one common length.
    pub open spec fn wf(&self) -> bool {
        &&& self.canon()
        &&& self.a@.len() == self.b@.len()
        &&& self.a@.len() == self.c@.len()
    }

    /// The constraint holds of the assignment `x`.
    pub open spec fn holds(&self, x: Seq<int>) -> bool {
        (dot(ints(self.a@), x) * dot(ints(self.b@), x)) % (MOD_P as int)
            == dot(ints(self.c@), x) % (MOD_P as int)
    }

    /// Builds a constraint from three coefficient vectors of one length.
    pub fn new(a: Vec<u64>, b: Vec<u64>, c: Vec<u64>) -> (r: Result<Self, CreationError>)
        requires
            canon_p(a@),
            canon_p(b@),
            canon_p(c@),
        ensures
            match r {
                Ok(cs) => {
                    &&& a@.len() == b@.len() && a@.len() == c@.len()
                    &&& cs.a@ == a@ && cs.b@ == b@ && cs.c@ == c@
                    &&& cs.wf()
                },
                Err(e) => {
                    &&& e == CreationError::VectorsSizeMismatch
                    &&& (a@.len() != b@.len() || a@.len() != c@.len())
                },
            },
    {
        if a.len() != b.len() || a.len() != c.len() || b.len() != c.len() {
            Err(CreationError::VectorsSizeMismatch)
        } else {
            Ok(Self { a, b, c })
        }
    }

    /// Decides whether the assignment satisfies this constraint.
    pub fn verify_solution(&self, s: &Vec<u64>) -> (r: bool)
        requires
            self.canon(),
            canon_p(s@),
        ensures
            r == self.holds(ints(s@)),
    {
        let left_a: u64 = inner_product(&self.a, s);
        let left_b: u64 = inner_product(&self.b, s);
        let left: u64 = mul_p(left_a, left_b);
        let right: u64 = inner_product(&self.c, s);
        proof {
            let da = dot(ints(self.a@), ints(s@));
            let db = dot(ints(self.b@), ints(s@));
            let dc = dot(ints(self.c@), ints(s@));
            lemma_mul_mod_noop(da, db, MOD_P as int);
            lemma_mod_twice(da * db, MOD_P as int);
            assert(left == (da * db) % (MOD_P as int));
            lemma_mod_twice(dc, MOD_P as int);
        }
        left == right
    }
}

/// An R1CS: the constraints plus the declared public input and output counts.
#[derive(Clone, Debug)]
pub struct R1CS {
    pub constraints: Vec<Constraint>,
    pub number_of_inputs: usize,
    pub number_of_outputs: usize,
}

impl R1CS {
    /// Every constraint holds canonical field elements.
    pub open spec fn canon(&self) -> bool {
        forall|i: int| 0 <= i < self.constraints@.len()
            ==> (#[trigger] self.constraints@[i]).canon()
    }

    /// Structural invariant: at least one constraint, one shared vector
    /// length, and input/output counts that fit beside the constant wire.
    pub open spec fn wf(&self) -> bool {
        &&& self.constraints@.len() > 0
        &&& forall|i: int| 0 <= i < self.constraints@.len()
            ==> (#[trigger] self.constraints@[i]).wf()
        &&& forall|i: int| 0 <= i < self.constraints@.len()
            ==> (#[trigger] self.constraints@[i]).a@.len() == self.spec_witness_size()
        &&& self.number_of_inputs + self.number_of_outputs + 1 <= self.spec_witness_size()
    }

    /// The common vector length of the constraints.
    pub open spec fn spec_witness_size(&self) -> int {
        self.constraints@[0].a@.len() as int
    }

    /// The assignment satisfies every constraint.
    pub open spec fn satisfied(&self, x: Seq<int>) -> bool {
        forall|i: int| 0 <= i < self.constraints@.len()
            ==> (#[trigger] self.constraints@[i]).holds(x)
    }

    /// Builds an R1CS, refusing constraint vectors of unequal lengths and
    /// input/output counts that exceed the witness capacity.
    pub fn new(constraints: Vec<Constraint>, number_of_inputs: usize, number_of_outputs: usize)
        -> (r: Result<Self, CreationError>)
        requires
            constraints@.len() > 0,
            constraints@[0].a@.len() > 0,
            forall|i: int| 0 <= i < constraints@.len()
                ==> (#[trigger] constraints@[i]).canon(),
            number_of_inputs + number_of_outputs <= usize::MAX,
        ensures
            match r {
                Ok(sys) => {
                    &&& sys.constraints@ == constraints@
                    &&& sys.number_of_inputs == number_of_inputs
                    &&& sys.number_of_outputs == number_of_outputs
                    &&& sys.wf()
                },
                Err(CreationError::VectorsSizeMismatch) => {
                    exists|i: int| 0 <= i < constraints@.len()
                        && ((#[trigger] constraints@[i]).a@.len() != constraints@[0].a@.len()
                            || constraints@[i].b@.len() != constraints@[0].a@.len()
                            || constraints@[i].c@.len() != constraints@[0].a@.len())
                },
                Err(CreationError::InputOutputTooBig) => {
                    &&& forall|i: int| 0 <= i < constraints@.len()
                        ==> ((#[trigger] constraints@[i]).a@.len() == constraints@[0].a@.len()
                            && constraints@[i].b@.len() == constraints@[0].a@.len()
                            && constraints@[i].c@.len() == constraints@[0].a@.len())
                    &&& number_of_inputs + number_of_outputs + 1 > constraints@[0].a@.len()
                },
                Err(CreationError::MatrixesSizeMismatch) => false,
            },
    {
        let witness_size: usize = constraints[0].a.len();
        let mut all_same_length: bool = true;
        let mut i: usize = 0;
        while i < constraints.len()
            invariant
                i <= constraints@.len(),
                all_same_length == forall|j: int| 0 <= j < i
                    ==> ((#[trigger] constraints@[j]).a@.len() == witness_size
                        && constraints@[j].b@.len() == witness_size
                        && constraints@[j].c@.len() == witness_size),
                witness_size == constraints@[0].a@.len(),
                constraints@.len() > 0,
            decreases constraints@.len() - i,
        {
            if constraints[i].a.len() != witness_size
                || constraints[i].b.len() != witness_size
                || constraints[i].c.len() != witness_size {
                all_same_length = false;
            }
            i = i + 1;
        }
        if !all_same_length {
            Err(CreationError::VectorsSizeMismatch)
        } else if number_of_inputs + number_of_outputs > witness_size - 1 {
            Err(CreationError::InputOutputTooBig)
        } else {
            Ok(Self { constraints, number_of_inputs, number_of_outputs })
        }
    }

    /// Materializes the constraints as three row-major matrices, in
    /// constraint order.
    pub fn constraints_to_matrix(&self) -> (r: (Vec<Vec<u64>>, Vec<Vec<u64>>, Vec<Vec<u64>>))
        requires
            self.constraints@.len() > 0,
        ensures
            r.0@.len() == self.constraints@.len(),
            r.1@.len() == self.constraints@.len(),
            r.2@.len() == self.constraints@.len(),
            forall|i: int| 0 <= i < self.constraints@.len()
                ==> (#[trigger] r.0@[i])@ == self.constraints@[i].a@,
            forall|i: int| 0 <= i < self.constraints@.len()
                ==> (#[trigger] r.1@[i])@ == self.constraints@[i].b@,
            forall|i: int| 0 <= i < self.constraints@.len()
                ==> (#[trigger] r.2@[i])@ == self.constraints@[i].c@,
    {
        let mut a_matrix: Vec<Vec<u64>> = Vec::new();
        let mut b_matrix: Vec<Vec<u64>> = Vec::new();
        let mut c_matrix: Vec<Vec<u64>> = Vec::new();
        let mut i: usize = 0;
        while i < self.constraints.len()
            invariant
                i <= self.constraints@.len(),
                a_matrix@.len() == i,
                b_matrix@.len() == i,
                c_matrix@.len() == i,
                forall|j: int| 0 <= j < i
                    ==> (#[trigger] a_matrix@[j])@ == self.constraints@[j].a@,
                forall|j: int| 0 <= j < i
                    ==> (#[trigger] b_matrix@[j])@ == self.constraints@[j].b@,
                forall|j: int| 0 <= j < i
                    ==> (#[trigger] c_matrix@[j])@ == self.constraints@[j].c@,
            decreases self.constraints@.len() - i,
        {
            a_matrix.push(self.constraints[i].a.clone());
            b_matrix.push(self.constraints[i].b.clone());
            c_matrix.push(self.constraints[i].c.clone());
            i = i + 1;
        }
        (a_matrix, b_matrix, c_matrix)
    }

    /// Builds an R1CS from three row-major matrices.
    pub fn new_with_matrixes(a: Vec<Vec<u64>>, b: Vec<Vec<u64>>, c: Vec<Vec<u64>>,
        num_inputs: usize, num_outputs: usize) -> (r: Result<Self, CreationError>)
        requires
            a@.len() > 0,
            a@[0]@.len() > 0,
            forall|i: int| 0 <= i < a@.len() ==> canon_p((#[trigger] a@[i])@),
            forall|i: int| 0 <= i < b@.len() ==> canon_p((#[trigger] b@[i])@),
            forall|i: int| 0 <= i < c@.len() ==> canon_p((#[trigger] c@[i])@),
            num_inputs + num_outputs <= usize::MAX,
        ensures
            match r {
                Ok(sys) => {
                    &&& sys.constraints@.len() == a@.len()
                    &&& b@.len() == a@.len() && c@.len() == a@.len()
                    &&& forall|i: int| 0 <= i < a@.len()
                        ==> (#[trigger] sys.constraints@[i]).a@ == a@[i]@
                            && sys.constraints@[i].b@ == b@[i]@
                            && sys.constraints@[i].c@ == c@[i]@
                    &&& sys.number_of_inputs == num_inputs
                    &&& sys.number_of_outputs == num_outputs
                    &&& sys.wf()
                },
                Err(CreationError::MatrixesSizeMismatch) => {
                    b@.len() != a@.len() || c@.len() != a@.len()
                },
                Err(CreationError::VectorsSizeMismatch) => {
                    &&& b@.len() == a@.len() && c@.len() == a@.len()
                    &&& exists|i: int| 0 <= i < a@.len()
                        && ((#[trigger] a@[i])@.len() != b@[i]@.len()
                            || a@[i]@.len() != c@[i]@.len()
                            || a@[i]@.len() != a@[0]@.len())
                },
                Err(CreationError::InputOutputTooBig) => {
                    &&& b@.len() == a@.len() && c@.len() == a@.len()
                    &&& forall|i: int| 0 <= i < a@.len()
                        ==> ((#[trigger] a@[i])@.len() == b@[i]@.len()
                            && a@[i]@.len() == c@[i]@.len()
                            && a@[i]@.len() == a@[0]@.len())
                    &&& num_inputs + num_outputs + 1 > a@[0]@.len()
                },
            },
    {
        if b.len() != a.len() || c.len() != a.len() {
            return Err(CreationError::MatrixesSizeMismatch);
        }
        let mut constraints: Vec<Constraint> = Vec::new();
        let mut i: usize = 0;
        while i < a.len()
            invariant
                i <= a@.len(),
                b@.len() == a@.len(),
                c@.len() == a@.len(),
                forall|j: int| 0 <= j < a@.len() ==> canon_p((#[trigger] a@[j])@),
                forall|j: int| 0 <= j < b@.len() ==> canon_p((#[trigger] b@[j])@),
                forall|j: int| 0 <= j < c@.len() ==> canon_p((#[trigger] c@[j])@),
                constraints@.len() == i,
                forall|j: int| 0 <= j < i
                    ==> (#[trigger] constraints@[j]).a@ == a@[j]@
                        && constraints@[j].b@ == b@[j]@
                        && constraints@[j].c@ == c@[j]@,
                forall|j: int| 0 <= j < i ==> (#[trigger] constraints@[j]).wf(),
                forall|j: int| 0 <= j < i
                    ==> (#[trigger] a@[j])@.len() == b@[j]@.len()
                        && a@[j]@.len() == c@[j]@.len(),
            decreases a@.len() - i,
        {
            match Constraint::new(a[i].clone(), b[i].clone(), c[i].clone()) {
                Ok(constraint) => {
                    constraints.push(constraint);
                },
                Err(e) => {
                    proof {
                        assert(a@[i as int]@.len() != b@[i as int]@.len()
                            || a@[i as int]@.len() != c@[i as int]@.len());
                        assert(exists|j: int| 0 <= j < a@.len()
                            && ((#[trigger] a@[j])@.len() != b@[j]@.len()
                                || a@[j]@.len() != c@[j]@.len()
                                || a@[j]@.len() != a@[0]@.len()));
                    }
                    return Err(e);
                },
            }
            i = i + 1;
        }
        let r = R1CS::new(constraints, num_inputs, num_outputs);
        proof {
            match &r {
                Ok(_) => {},
                Err(CreationError::InputOutputTooBig) => {
                    assert forall|i: int| 0 <= i < a@.len() implies
                        ((#[trigger] a@[i])@.len() == b@[i]@.len()
                            && a@[i]@.len() == c@[i]@.len()
                            && a@[i]@.len() == a@[0]@.len()) by {
                        assert(constraints@[i].a@.len() == constraints@[0].a@.len()
                            && constraints@[i].b@.len() == constraints@[0].a@.len()
                            && constraints@[i].c@.len() == constraints@[0].a@.len());
                    }
                },
                Err(CreationError::VectorsSizeMismatch) => {
                    let w = choose|i: int| 0 <= i < constraints@.len()
                        && ((#[trigger] constraints@[i]).a@.len() != constraints@[0].a@.len()
                            || constraints@[i].b@.len() != constraints@[0].a@.len()
                            || constraints@[i].c@.len() != constraints@[0].a@.len());
                    assert(0 <= w < a@.len());
                    assert(a@[w]@.len() != b@[w]@.len()
                        || a@[w]@.len() != c@[w]@.len()
                        || a@[w]@.len() != a@[0]@.len());
                    assert(exists|j: int| 0 <= j < a@.len()
                        && ((#[trigger] a@[j])@.len() != b@[j]@.len()
                            || a@[j]@.len() != c@[j]@.len()
                            || a@[j]@.len() != a@[0]@.len()));
                },
                Err(_) => {},
            }
        }
        r
    }

    /// Decides whether the assignment satisfies every constraint,
    /// short-circuiting on the first violated one.
    pub fn verify_solution(self, s: &Vec<u64>) -> (r: bool)
        requires
            self.canon(),
            canon_p(s@),
        ensures
            r == self.satisfied(ints(s@)),
    {
        let mut i: usize = 0;
        while i < self.constraints.len()
            invariant
                i <= self.constraints@.len(),
                self.canon(),
                canon_p(s@),
                forall|j: int| 0 <= j < i
                    ==> (#[trigger] self.constraints@[j]).holds(ints(s@)),
            decreases self.constraints@.len() - i,
        {
            if !self.constraints[i].verify_solution(s) {
                return false;
            }
            i = i + 1;
        }
        true
    }

    /// Number of constraints.
    pub fn num_of_constraints(&self) -> (r: usize)
        ensures
            r == self.constraints@.len(),
    {
        self.constraints.len()
    }

    /// Number of instance variables, the leading constant included.
    pub fn num_instance_variables(&self) -> (r: usize)
        requires
            self.number_of_inputs + 1 <= usize::MAX,
        ensures
            r == self.number_of_inputs + 1,
    {
        self.number_of_inputs + 1
    }

    /// Number of private (auxiliary) variables.
    pub fn num_r1cs_aux_variables(&self) -> (r: usize)
        requires
            self.constraints@.len() > 0,
            self.number_of_inputs + 1 <= self.spec_witness_size(),
        ensures
            r == self.spec_witness_size() - 1 - self.number_of_inputs,
    {
        self.witness_size() - 1 - self.number_of_inputs
    }

    /// The common length of the constraint vectors: constant wire, inputs,
    /// intermediate values and outputs together.
    pub fn witness_size(&self) -> (r: usize)
        requires
            self.constraints@.len() > 0,
        ensures
            r == self.spec_witness_size(),
    {
        self.constraints[0].a.len()
    }
}

/// Inner product of two vectors over the message field, truncated to the
/// shorter one.
pub fn inner_product(v1: &Vec<u64>, v2: &Vec<u64>) -> (r: u64)
    requires
        canon_p(v1@),
        canon_p(v2@),
    ensures
        is_fp(r),
        r == dot(ints(v1@), ints(v2@)) % (MOD_P as int),
{
    let n: usize = if v1.len() <= v2.len() { v1.len() } else { v2.len() };
    let mut acc: u64 = 0;
    let mut i: usize = n;
    proof {
        lemma_small_mod(0nat, MOD_P as nat);
        lemma_dot_skip_zero(ints(v1@), ints(v2@), n as int);
    }
    while i > 0
        invariant
            i <= n,
            n == if v1@.len() <= v2@.len() { v1@.len() } else { v2@.len() },
            canon_p(v1@),
            canon_p(v2@),
            is_fp(acc),
            acc == dot(ints(v1@).skip(i as int), ints(v2@).skip(i as int)) % (MOD_P as int),
        decreases i,
    {
        i = i - 1;
        let m: u64 = mul_p(v1[i], v2[i]);
        let next: u64 = add_p(m, acc);
        proof {
            let s1 = ints(v1@).skip(i as int);
            let s2 = ints(v2@).skip(i as int);
            assert(tail(s1) =~= ints(v1@).skip(i as int + 1));
            assert(tail(s2) =~= ints(v2@).skip(i as int + 1));
            assert(dot(s1, s2) == v1@[i as int] * v2@[i as int] + dot(tail(s1), tail(s2)));
            let prod = v1@[i as int] * v2@[i as int];
            let rest = dot(tail(s1), tail(s2));
            lemma_add_mod_noop(prod, rest, MOD_P as int);
            lemma_mod_twice(prod, MOD_P as int);
            lemma_mod_twice(rest, MOD_P as int);
        }
        acc = next;
    }
    proof {
        assert(ints(v1@).skip(0) =~= ints(v1@));
        assert(ints(v2@).skip(0) =~= ints(v2@));
    }
    acc
}

/// The inner product of suffixes past the shorter vector's length is zero.
proof fn lemma_dot_skip_zero(a: Seq<int>, b: Seq<int>, n: int)
    requires
        0 <= n,
        n == if a.len() <= b.len() { a.len() as int } else { b.len() as int },
    ensures
        dot(a.skip(n), b.skip(n)) == 0,
{
    if a.len() <= b.len() {
        assert(a.skip(n) =~= Seq::<int>::empty());
    } else {
        assert(b.skip(n) =~= Seq::<int>::empty());
    }
}

} // verus!
