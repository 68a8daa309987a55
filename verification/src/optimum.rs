//! What it means for an assignment to be optimal, and two changes to an
//! objective that leave the optima where they are.
//!
//! Finding an optimum is the engine's work. What is proved here is about the
//! problem that the engine is given: the same assignments are optimal when a
//! maximisation is turned into the minimisation of the negated objective, and
//! when the constant of the objective is changed.

use vstd::prelude::*;
use crate::expr::{binds, Arithmetic, ExprView};
use crate::schema::{Direction, ProblemView, TermView};

verus! {

/// A set of assignments, each giving the variable behind every handle a
/// value: what the rows and bounds of a model leave to choose from.
pub type Region<N> = spec_fn(spec_fn(usize) -> N) -> bool;

impl<N> Arithmetic<N> {
    /// Taking the opposite goes through sums, goes through products on the
    /// side of the factor, and turns the order around.
    pub open spec fn opposite_mirrors(self) -> bool {
        &&& forall|a: N, b: N|
            self.neg(#[trigger] self.plus(a, b)) == self.plus(self.neg(a), self.neg(b))
        &&& forall|a: N, b: N| self.neg(#[trigger] self.times(a, b)) == self.times(self.neg(a), b)
        &&& forall|a: N, b: N| #[trigger] self.le(a, b) <==> self.le(self.neg(b), self.neg(a))
    }

    /// Sums may be regrouped, adding the same number in front of two numbers
    /// leaves their order, and every number is at most itself.
    pub open spec fn sums_shift(self) -> bool {
        &&& forall|a: N, b: N, c: N|
            #[trigger] self.plus(self.plus(a, b), c) == self.plus(a, self.plus(b, c))
        &&& forall|a: N, b: N, c: N|
            #[trigger] self.le(self.plus(c, a), self.plus(c, b)) <==> self.le(a, b)
        &&& forall|a: N| #[trigger] self.le(a, a)
    }

    /// Under `direction`, the objective value `a` is no worse than `b`.
    pub open spec fn no_worse(self, direction: Direction, a: N, b: N) -> bool {
        match direction {
            Direction::Max => self.le(b, a),
            Direction::Min => self.le(a, b),
        }
    }
}

impl<N> ExprView<N> {
    /// The expression with the opposite constant and the opposite of every
    /// factor.
    pub open spec fn negated(self, ops: Arithmetic<N>) -> ExprView<N> {
        ExprView {
            constant: ops.neg(self.constant),
            terms: Seq::new(self.terms.len(), |i: int| (self.terms[i].0, ops.neg(self.terms[i].1))),
        }
    }

    /// The expression with another constant.
    pub open spec fn with_constant(self, constant: N) -> ExprView<N> {
        ExprView { constant, terms: self.terms }
    }

    /// What the terms alone come to, where there is at least one.
    pub open spec fn terms_value(self, ops: Arithmetic<N>, at: spec_fn(usize) -> N) -> N
        decreases self.terms.len(),
    {
        let (handle, factor) = self.terms.last();
        if self.terms.len() <= 1 {
            ops.times(factor, at(handle))
        } else {
            let rest = ExprView { constant: self.constant, terms: self.terms.drop_last() };
            ops.plus(rest.terms_value(ops, at), ops.times(factor, at(handle)))
        }
    }

    /// The assignment `at` lies in `region`, and no assignment of `region`
    /// gives the expression a better value under `direction`.
    pub open spec fn optimal_at(
        self,
        ops: Arithmetic<N>,
        region: Region<N>,
        direction: Direction,
        at: spec_fn(usize) -> N,
    ) -> bool {
        &&& region(at)
        &&& forall|other: spec_fn(usize) -> N| #[trigger]
            region(other) ==> ops.no_worse(
                direction,
                self.value(ops, at),
                self.value(ops, other),
            )
    }
}

/// The negated expression comes to the opposite of what the expression
/// comes to.
pub proof fn lemma_negated_value<N>(e: ExprView<N>, ops: Arithmetic<N>, at: spec_fn(usize) -> N)
    requires
        ops.opposite_mirrors(),
    ensures
        e.negated(ops).value(ops, at) == ops.neg(e.value(ops, at)),
    decreases e.terms.len(),
{
    if e.terms.len() > 0 {
        let rest = ExprView { constant: e.constant, terms: e.terms.drop_last() };
        let (handle, factor) = e.terms.last();
        assert(e.negated(ops).terms.drop_last() =~= rest.negated(ops).terms);
        lemma_negated_value(rest, ops, at);
        assert(e.value(ops, at) == ops.plus(rest.value(ops, at), ops.times(factor, at(handle))));
        assert(ops.neg(ops.times(factor, at(handle))) == ops.times(ops.neg(factor), at(handle)));
    }
}

/// For a fixed region, the assignments that maximise an objective are those
/// that minimise the negated objective.
pub proof fn lemma_max_is_min_of_negated<N>(
    objective: ExprView<N>,
    ops: Arithmetic<N>,
    region: Region<N>,
    at: spec_fn(usize) -> N,
)
    requires
        ops.opposite_mirrors(),
    ensures
        objective.optimal_at(ops, region, Direction::Max, at) <==> objective.negated(
            ops,
        ).optimal_at(ops, region, Direction::Min, at),
{
    let negated = objective.negated(ops);
    lemma_negated_value(objective, ops, at);
    assert forall|other: spec_fn(usize) -> N|
        ops.no_worse(Direction::Max, objective.value(ops, at), objective.value(ops, other))
            <==> ops.no_worse(Direction::Min, negated.value(ops, at), negated.value(ops, other)) by {
        lemma_negated_value(objective, ops, other);
        assert(ops.le(objective.value(ops, other), objective.value(ops, at)) <==> ops.le(
            ops.neg(objective.value(ops, at)),
            ops.neg(objective.value(ops, other)),
        ));
    }
}

/// With at least one term, the expression comes to its constant plus what
/// its terms come to.
pub proof fn lemma_constant_in_front<N>(e: ExprView<N>, ops: Arithmetic<N>, at: spec_fn(usize) -> N)
    requires
        ops.sums_shift(),
        e.terms.len() > 0,
    ensures
        e.value(ops, at) == ops.plus(e.constant, e.terms_value(ops, at)),
    decreases e.terms.len(),
{
    let rest = ExprView { constant: e.constant, terms: e.terms.drop_last() };
    let (handle, factor) = e.terms.last();
    let last = ops.times(factor, at(handle));
    if e.terms.len() > 1 {
        lemma_constant_in_front(rest, ops, at);
        assert(ops.plus(ops.plus(e.constant, rest.terms_value(ops, at)), last) == ops.plus(
            e.constant,
            ops.plus(rest.terms_value(ops, at), last),
        ));
    } else {
        assert(rest.value(ops, at) == e.constant);
    }
}

/// For a fixed region and direction, the constant of the objective has no
/// bearing on which assignments are optimal.
pub proof fn lemma_constant_keeps_optima<N>(
    objective: ExprView<N>,
    constant: N,
    ops: Arithmetic<N>,
    region: Region<N>,
    direction: Direction,
    at: spec_fn(usize) -> N,
)
    requires
        ops.sums_shift(),
    ensures
        objective.optimal_at(ops, region, direction, at) <==> objective.with_constant(
            constant,
        ).optimal_at(ops, region, direction, at),
{
    let moved = objective.with_constant(constant);
    assert forall|other: spec_fn(usize) -> N|
        ops.no_worse(direction, objective.value(ops, at), objective.value(ops, other))
            <==> ops.no_worse(direction, moved.value(ops, at), moved.value(ops, other)) by {
        if objective.terms.len() > 0 {
            lemma_constant_in_front(objective, ops, at);
            lemma_constant_in_front(objective, ops, other);
            lemma_constant_in_front(moved, ops, at);
            lemma_constant_in_front(moved, ops, other);
            lemma_terms_value_ignores_constant(objective, constant, ops, at);
            lemma_terms_value_ignores_constant(objective, constant, ops, other);
            let a = objective.terms_value(ops, at);
            let b = objective.terms_value(ops, other);
            assert(ops.le(ops.plus(objective.constant, a), ops.plus(objective.constant, b))
                <==> ops.le(a, b));
            assert(ops.le(ops.plus(objective.constant, b), ops.plus(objective.constant, a))
                <==> ops.le(b, a));
            assert(ops.le(ops.plus(constant, a), ops.plus(constant, b)) <==> ops.le(a, b));
            assert(ops.le(ops.plus(constant, b), ops.plus(constant, a)) <==> ops.le(b, a));
        } else {
            assert(ops.le(objective.constant, objective.constant));
            assert(ops.le(constant, constant));
        }
    }
}

/// What the terms alone come to does not depend on the constant.
pub proof fn lemma_terms_value_ignores_constant<N>(
    e: ExprView<N>,
    constant: N,
    ops: Arithmetic<N>,
    at: spec_fn(usize) -> N,
)
    requires
        e.terms.len() > 0,
    ensures
        e.with_constant(constant).terms_value(ops, at) == e.terms_value(ops, at),
    decreases e.terms.len(),
{
    if e.terms.len() > 1 {
        let rest = ExprView { constant: e.constant, terms: e.terms.drop_last() };
        lemma_terms_value_ignores_constant(rest, constant, ops, at);
        assert(rest.with_constant(constant) == (ExprView {
            constant,
            terms: e.with_constant(constant).terms.drop_last(),
        }));
    }
}

/// The terms with the opposite of every factor.
pub open spec fn negated_terms<N>(terms: Seq<TermView<N>>, ops: Arithmetic<N>) -> Seq<TermView<N>> {
    Seq::new(terms.len(), |i: int| TermView { name: terms[i].name, factor: ops.neg(terms[i].factor) })
}

impl<N> ProblemView<N> {
    /// The request that minimises the negated objective of this one, over
    /// the same variables and rows.
    pub open spec fn turned_around(self, ops: Arithmetic<N>) -> ProblemView<N> {
        ProblemView {
            direction: Direction::Min,
            objective: negated_terms(self.objective, ops),
            objective_offset: ops.neg(self.objective_offset),
            ..self
        }
    }

    /// The same request with another offset on its objective.
    pub open spec fn with_objective_offset(self, offset: N) -> ProblemView<N> {
        ProblemView { objective_offset: offset, ..self }
    }
}

/// A request that maximises and the request that minimises its negated
/// objective have models with the same variables and rows, and over any one
/// region the same assignments are optimal for both.
pub proof fn lemma_direction_sensitivity<N>(
    p: ProblemView<N>,
    ops: Arithmetic<N>,
    region: Region<N>,
    at: spec_fn(usize) -> N,
)
    requires
        ops.opposite_mirrors(),
        p.well_formed(),
        p.direction == Direction::Max,
    ensures
        ({
            let q = p.turned_around(ops);
            &&& q.well_formed()
            &&& q.model().variables == p.model().variables
            &&& q.model().rows == p.model().rows
            &&& p.model().objective.optimal_at(ops, region, p.direction, at)
                <==> q.model().objective.optimal_at(ops, region, q.direction, at)
        }),
{
    let q = p.turned_around(ops);
    assert(q.mapping() == p.mapping());
    assert forall|t: int| 0 <= t < q.objective.len() implies binds(
        q.mapping(),
        (#[trigger] q.objective[t]).name,
    ) by {
        assert(binds(p.mapping(), p.objective[t].name));
    }
    assert(q.model().objective.terms =~= p.model().objective.negated(ops).terms);
    lemma_max_is_min_of_negated(p.model().objective, ops, region, at);
}

/// Two requests that differ in the offset of the objective alone have
/// models with the same variables and rows, and over any one region the same
/// assignments are optimal for both.
pub proof fn lemma_offset_invariance<N>(
    p: ProblemView<N>,
    offset: N,
    ops: Arithmetic<N>,
    region: Region<N>,
    at: spec_fn(usize) -> N,
)
    requires
        ops.sums_shift(),
        p.well_formed(),
    ensures
        ({
            let q = p.with_objective_offset(offset);
            &&& q.well_formed()
            &&& q.model().variables == p.model().variables
            &&& q.model().rows == p.model().rows
            &&& p.model().objective.optimal_at(ops, region, p.direction, at)
                <==> q.model().objective.optimal_at(ops, region, q.direction, at)
        }),
{
    lemma_constant_keeps_optima(p.model().objective, offset, ops, region, p.direction, at);
}

/// Exact arithmetic on the integers.
pub open spec fn exact() -> Arithmetic<int> {
    Arithmetic {
        sum: |a: int, b: int| a + b,
        product: |a: int, b: int| a * b,
        opposite: |a: int| -a,
        at_most: |a: int, b: int| a <= b,
    }
}

/// Exact arithmetic has every property that the laws above ask for.
pub proof fn lemma_exact_qualifies()
    ensures
        exact().opposite_mirrors(),
        exact().sums_shift(),
{
    let ops = exact();
    assert forall|a: int, b: int| ops.neg(#[trigger] ops.times(a, b)) == ops.times(
        ops.neg(a),
        b,
    ) by {
        assert(-(a * b) == (-a) * b) by (nonlinear_arith);
    }
}

} // verus!
