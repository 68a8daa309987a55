//! Request and response data, with their mathematical views.

use vstd::prelude::*;

verus! {

/// Objective sense of a request.
#[derive(Clone, Copy, Debug, PartialEq, Eq, Structural)]
pub enum Direction {
    Min,
    Max,
}

/// How a solve ended, as reported in a response.
#[derive(Clone, Copy, Debug, PartialEq, Eq, Structural)]
pub enum Status {
    Optimal,
    Unbounded,
    Infeasible,
}

/// One decision variable of a request.
///
/// An absent bound leaves the engine's default in place; `initial` is
/// advisory; `integer` forces integrality.
#[derive(Clone, Debug, PartialEq)]
pub struct VariableDef<N> {
    pub name: String,
    pub min: Option<N>,
    pub max: Option<N>,
    pub initial: Option<N>,
    pub integer: bool,
}

/// View of a [`VariableDef`].
pub struct VariableView<N> {
    pub name: Seq<char>,
    pub min: Option<N>,
    pub max: Option<N>,
    pub initial: Option<N>,
    pub integer: bool,
}

impl<N> View for VariableDef<N> {
    type V = VariableView<N>;

    open spec fn view(&self) -> VariableView<N> {
        VariableView {
            name: self.name@,
            min: self.min,
            max: self.max,
            initial: self.initial,
            integer: self.integer,
        }
    }
}

impl<N> DeepView for VariableDef<N> {
    type V = VariableView<N>;

    #[verifier::inline]
    open spec fn deep_view(&self) -> VariableView<N> {
        self@
    }
}

/// One sparse term: a factor on the variable called `name`.
#[derive(Clone, Debug, PartialEq)]
pub struct CoeffVar<N> {
    pub name: String,
    pub factor: N,
}

/// View of a [`CoeffVar`].
pub struct TermView<N> {
    pub name: Seq<char>,
    pub factor: N,
}

impl<N> View for CoeffVar<N> {
    type V = TermView<N>;

    open spec fn view(&self) -> TermView<N> {
        TermView { name: self.name@, factor: self.factor }
    }
}

impl<N> DeepView for CoeffVar<N> {
    type V = TermView<N>;

    #[verifier::inline]
    open spec fn deep_view(&self) -> TermView<N> {
        self@
    }
}

/// A solve request.
///
/// Row `i` of `constraints` together with `constraint_offsets[i]` reads
/// `terms + offset <= 0`; row `i` of `equalities` together with
/// `equalities_offsets[i]` reads `terms + offset == 0`.
#[derive(Clone, Debug, PartialEq)]
pub struct MessageProblem<N> {
    pub direction: Direction,
    pub variables: Vec<VariableDef<N>>,
    pub objective: Vec<CoeffVar<N>>,
    pub objective_offset: N,
    pub constraints: Vec<Vec<CoeffVar<N>>>,
    pub constraint_offsets: Vec<N>,
    pub equalities: Vec<Vec<CoeffVar<N>>>,
    pub equalities_offsets: Vec<N>,
}

/// View of a [`MessageProblem`].
pub struct ProblemView<N> {
    pub direction: Direction,
    pub variables: Seq<VariableView<N>>,
    pub objective: Seq<TermView<N>>,
    pub objective_offset: N,
    pub constraints: Seq<Seq<TermView<N>>>,
    pub constraint_offsets: Seq<N>,
    pub equalities: Seq<Seq<TermView<N>>>,
    pub equalities_offsets: Seq<N>,
}

impl<N> View for MessageProblem<N> {
    type V = ProblemView<N>;

    open spec fn view(&self) -> ProblemView<N> {
        ProblemView {
            direction: self.direction,
            variables: self.variables.deep_view(),
            objective: self.objective.deep_view(),
            objective_offset: self.objective_offset,
            constraints: self.constraints.deep_view(),
            constraint_offsets: self.constraint_offsets@,
            equalities: self.equalities.deep_view(),
            equalities_offsets: self.equalities_offsets@,
        }
    }
}

/// A solve response: the status and, for `Optimal` only, one value per
/// variable of the request, in the request's order.
#[derive(Clone, Debug, PartialEq)]
pub struct MessageSolution<N> {
    pub status: Status,
    pub values: Vec<N>,
}

/// View of a [`MessageSolution`].
pub struct SolutionView<N> {
    pub status: Status,
    pub values: Seq<N>,
}

impl<N> View for MessageSolution<N> {
    type V = SolutionView<N>;

    open spec fn view(&self) -> SolutionView<N> {
        SolutionView { status: self.status, values: self.values@ }
    }
}

impl<N> MessageSolution<N> {
    /// The response to a problem whose objective has no finite optimum.
    pub fn unbounded() -> (r: Self)
        ensures
            r@ == (SolutionView::<N> { status: Status::Unbounded, values: Seq::empty() }),
    {
        MessageSolution { status: Status::Unbounded, values: Vec::new() }
    }

    /// The response to a problem that no assignment satisfies.
    pub fn infeasible() -> (r: Self)
        ensures
            r@ == (SolutionView::<N> { status: Status::Infeasible, values: Seq::empty() }),
    {
        MessageSolution { status: Status::Infeasible, values: Vec::new() }
    }

    /// The response that carries an optimal assignment.
    pub fn optimal(values: Vec<N>) -> (r: Self)
        ensures
            r@ == (SolutionView { status: Status::Optimal, values: values@ }),
    {
        MessageSolution { status: Status::Optimal, values }
    }
}

} // verus!
