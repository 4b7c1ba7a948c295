//! Literals, instances in conjunctive normal form, and assignments, with
//! the mathematical models that the contracts of this crate speak of.

use vstd::prelude::*;
use vstd::std_specs::ops::NotSpec;

verus! {

/// The mathematical literal: a variable index and whether the occurrence is
/// negated.
pub struct Lit {
    pub var: nat,
    pub negated: bool,
}

impl Lit {
    /// The literal over the same variable with the opposite polarity.
    pub open spec fn negate(self) -> Lit {
        Lit { var: self.var, negated: !self.negated }
    }

    /// The non-negated literal over the same variable.
    pub open spec fn positive(self) -> Lit {
        Lit { var: self.var, negated: false }
    }

    /// The truth value of this literal when variable `i` has value `values[i]`.
    pub open spec fn eval(self, values: Seq<bool>) -> bool {
        self.negated != values[self.var as int]
    }
}

/// The literals of a clause as the contracts see them, in order.
pub open spec fn literals(clause: Seq<Literal>) -> Seq<Lit> {
    Seq::new(clause.len(), |j: int| clause[j]@)
}

/// The truth values of the variables of which `negated` records, one by one,
/// whether an assignment negates them.
pub open spec fn truth_values(negated: Seq<bool>) -> Seq<bool> {
    Seq::new(negated.len(), |i: int| !negated[i])
}

/// The mathematical instance: a number of variables and the clauses asserted
/// so far, oldest first. It stands for the conjunction of its clauses, each
/// of which is the disjunction of its literals.
pub struct Cnf {
    pub num_vars: nat,
    pub clauses: Seq<Seq<Lit>>,
}

impl Cnf {
    /// Every literal refers to a variable that has been allocated.
    pub open spec fn well_formed(self) -> bool {
        forall|i: int, j: int|
            0 <= i < self.clauses.len() && 0 <= j < self.clauses[i].len() ==> (
            #[trigger] self.clauses[i][j]).var < self.num_vars
    }

    /// At least one literal of `clause` is true under `values`.
    pub open spec fn clause_holds(clause: Seq<Lit>, values: Seq<bool>) -> bool {
        exists|j: int| 0 <= j < clause.len() && (#[trigger] clause[j]).eval(values)
    }

    /// `values` gives one truth value to each variable and makes every clause
    /// hold.
    pub open spec fn satisfied_by(self, values: Seq<bool>) -> bool {
        &&& values.len() == self.num_vars
        &&& forall|i: int|
            0 <= i < self.clauses.len() ==> Self::clause_holds(#[trigger] self.clauses[i], values)
    }

    /// Some assignment of truth values makes every clause hold.
    pub open spec fn satisfiable(self) -> bool {
        exists|values: Seq<bool>| self.satisfied_by(values)
    }
}

/// A literal; a variable or negated variable.
///
/// Literals support the `!` (negation) operator.
#[derive(Clone, Copy, Debug, PartialEq, Eq, Structural)]
pub struct Literal {
    var: usize,
    negated: bool,
}

impl View for Literal {
    type V = Lit;

    closed spec fn view(&self) -> Lit {
        Lit { var: self.var as nat, negated: self.negated }
    }
}

impl Literal {
    /// The index of the variable this literal refers to.
    pub fn var(&self) -> (index: usize)
        ensures
            index == self@.var,
    {
        self.var
    }

    /// Whether this occurrence of the variable is negated.
    pub fn is_negated(&self) -> (negated: bool)
        ensures
            negated == self@.negated,
    {
        self.negated
    }
}

impl core::ops::Not for Literal {
    type Output = Literal;

    /// The literal over the same variable with the opposite polarity.
    fn not(self) -> (negation: Literal)
        ensures
            negation@ == self@.negate(),
    {
        Literal { var: self.var, negated: !self.negated }
    }
}

impl vstd::std_specs::ops::NotSpecImpl for Literal {
    open spec fn obeys_not_spec() -> bool {
        true
    }

    open spec fn not_req(self) -> bool {
        true
    }

    closed spec fn not_spec(self) -> Literal {
        Literal { var: self.var, negated: !self.negated }
    }
}

/// Negation is an involution: the negation of a literal is over the same
/// variable with the opposite polarity, and negating twice gives the
/// literal back, equal in variable and polarity.
pub proof fn lemma_double_negation(literal: Literal)
    ensures
        literal.not_spec()@ == literal@.negate(),
        literal.not_spec().not_spec() == literal,
        literal@.negate().negate() == literal@,
{
}

/// The truth value of a literal goes by its polarity: a non-negated literal
/// has the value of its variable, and a literal is true exactly where
/// being negated differs from what its non-negated form evaluates to. So
/// a literal and its negation never agree.
pub proof fn lemma_polarity(literal: Lit, values: Seq<bool>)
    ensures
        literal.positive().eval(values) == values[literal.var as int],
        literal.eval(values) == (literal.negated != literal.positive().eval(values)),
        literal.negate().eval(values) == !literal.eval(values),
{
}

/// An instance of the SAT problem.
pub struct Instance {
    num_vars: usize,
    cnf_clauses: Vec<Vec<Literal>>,
}

impl View for Instance {
    type V = Cnf;

    closed spec fn view(&self) -> Cnf {
        Cnf {
            num_vars: self.num_vars as nat,
            clauses: Seq::new(
                self.cnf_clauses@.len(),
                |i: int| literals(self.cnf_clauses@[i]@),
            ),
        }
    }
}

impl Instance {
    /// Create a new, empty SAT instance.
    pub fn new() -> (instance: Instance)
        ensures
            instance@ == (Cnf { num_vars: 0, clauses: Seq::empty() }),
    {
        let instance = Instance { num_vars: 0, cnf_clauses: Vec::new() };
        assert(instance@.clauses =~= Seq::empty());
        instance
    }

    /// Create a fresh variable.
    ///
    /// Variables are numbered from zero in the order of their creation. The
    /// literal returned is the non-negated occurrence of the new variable.
    /// There must be an index left for it.
    pub fn fresh_var(&mut self) -> (literal: Literal)
        requires
            old(self)@.num_vars < usize::MAX,
        ensures
            literal@ == (Lit { var: old(self)@.num_vars, negated: false }),
            final(self)@ == (Cnf {
                num_vars: old(self)@.num_vars + 1,
                clauses: old(self)@.clauses,
            }),
    {
        let v = self.num_vars;
        self.num_vars += 1;
        Literal { var: v, negated: false }
    }

    /// Assert that at least one of the provided literals must
    /// evaluate to true.
    ///
    /// This is a CNF (conjunctive normal form) constraint, which
    /// is the basic type of constraint in most solvers. The clause is kept
    /// as given: same literals, same order, no check against the variables
    /// allocated so far.
    pub fn assert_any(&mut self, lits: &[Literal])
        ensures
            final(self)@ == (Cnf {
                num_vars: old(self)@.num_vars,
                clauses: old(self)@.clauses.push(literals(lits@)),
            }),
    {
        let mut clause: Vec<Literal> = Vec::new();
        let mut j: usize = 0;
        while j < lits.len()
            invariant
                j <= lits.len(),
                clause@ == lits@.take(j as int),
            decreases lits.len() - j,
        {
            clause.push(lits[j]);
            j += 1;
            assert(clause@ =~= lits@.take(j as int));
        }
        assert(clause@ =~= lits@);
        self.cnf_clauses.push(clause);
        assert(self@.clauses =~= old(self)@.clauses.push(literals(lits@)));
    }

    /// The number of variables allocated so far.
    pub fn num_vars(&self) -> (count: usize)
        ensures
            count == self@.num_vars,
    {
        self.num_vars
    }

    /// The number of clauses asserted so far.
    pub fn num_clauses(&self) -> (count: usize)
        ensures
            count == self@.clauses.len(),
    {
        self.cnf_clauses.len()
    }

    /// The clause asserted as the `index`-th, counting from zero.
    pub fn clause(&self, index: usize) -> (clause: &[Literal])
        requires
            index < self@.clauses.len(),
        ensures
            literals(clause@) == self@.clauses[index as int],
    {
        self.cnf_clauses[index].as_slice()
    }
}

/// An assignment of truth values to variables.
///
/// This is the output of a successful solve. Its view is the sequence of
/// truth values, indexed by variable.
pub struct Assignment {
    negated: Vec<bool>,
}

impl View for Assignment {
    type V = Seq<bool>;

    closed spec fn view(&self) -> Seq<bool> {
        truth_values(self.negated@)
    }
}

impl Assignment {
    /// The assignment that makes variable `i` false exactly where
    /// `negated[i]` is set.
    pub(crate) fn from_negations(negated: Vec<bool>) -> (assignment: Assignment)
        ensures
            assignment@ == truth_values(negated@),
    {
        Assignment { negated }
    }

    /// The number of variables that the assignment covers: those that the
    /// instance had when it was solved.
    pub fn num_vars(&self) -> (count: usize)
        ensures
            count == self@.len(),
    {
        self.negated.len()
    }

    /// Get the value assigned to a literal.
    ///
    /// The literal must refer to one of the variables that the assignment
    /// covers.
    pub fn get(&self, lit: Literal) -> (value: bool)
        requires
            lit@.var < self@.len(),
        ensures
            value == lit@.eval(self@),
    {
        lit.negated ^ (!self.negated[lit.var])
    }
}

} // verus!
