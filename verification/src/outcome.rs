//! From the verdict of an engine to the response.

use vstd::prelude::*;
use crate::error::{result_view, Cause, Failure};
use crate::model::Model;
use crate::schema::{MessageSolution, SolutionView, Status};

verus! {

/// What one solve attempt came to.
#[derive(Clone, Debug, PartialEq)]
pub enum Outcome<N> {
    /// A best assignment: one value for each variable, in the model's order.
    Optimal(Vec<N>),
    /// The objective improves without limit.
    Unbounded,
    /// No assignment satisfies every row.
    Infeasible,
    /// The engine failed for a reason of its own, which the text holds.
    InternalError(String),
}

/// View of an [`Outcome`].
pub enum OutcomeView<N> {
    Optimal(Seq<N>),
    Unbounded,
    Infeasible,
    InternalError(Seq<char>),
}

impl<N> View for Outcome<N> {
    type V = OutcomeView<N>;

    open spec fn view(&self) -> OutcomeView<N> {
        match self {
            Outcome::Optimal(values) => OutcomeView::Optimal(values@),
            Outcome::Unbounded => OutcomeView::Unbounded,
            Outcome::Infeasible => OutcomeView::Infeasible,
            Outcome::InternalError(text) => OutcomeView::InternalError(text@),
        }
    }
}

/// The response owed for an outcome of solving a model of `count` variables.
///
/// An optimum is passed on with its values, provided there is one for each
/// variable. An unbounded or infeasible problem has a response without
/// values. An engine failure has none.
pub open spec fn response<N>(count: nat, outcome: OutcomeView<N>) -> Result<
    SolutionView<N>,
    Cause,
> {
    match outcome {
        OutcomeView::Optimal(values) => if values.len() == count {
            Ok(SolutionView { status: Status::Optimal, values })
        } else {
            Err(Cause::ValueCount)
        },
        OutcomeView::Unbounded => Ok(
            SolutionView { status: Status::Unbounded, values: Seq::empty() },
        ),
        OutcomeView::Infeasible => Ok(
            SolutionView { status: Status::Infeasible, values: Seq::empty() },
        ),
        OutcomeView::InternalError(text) => Err(Cause::Engine(text)),
    }
}

impl<N> Model<N> {
    /// The response to the request behind this model, given what the engine
    /// made of the model.
    pub fn respond(&self, outcome: Outcome<N>) -> (r: Result<MessageSolution<N>, Failure>)
        ensures
            result_view(r) == response(self@.variables.len(), outcome@),
    {
        match outcome {
            Outcome::Optimal(values) => {
                if values.len() == self.variables.len() {
                    Ok(MessageSolution::optimal(values))
                } else {
                    Err(Failure::ValueCount)
                }
            },
            Outcome::Unbounded => Ok(MessageSolution::unbounded()),
            Outcome::Infeasible => Ok(MessageSolution::infeasible()),
            Outcome::InternalError(text) => Err(Failure::Engine(text)),
        }
    }
}

/// A response holds values only for an optimum, and then one for each
/// variable of the model.
pub proof fn lemma_response_shape<N>(count: nat, outcome: OutcomeView<N>)
    ensures
        response(count, outcome) matches Ok(s) ==> {
            &&& s.status == Status::Optimal ==> s.values.len() == count
            &&& s.status != Status::Optimal ==> s.values.len() == 0
        },
{
}

} // verus!
