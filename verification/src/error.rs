//! Why a call fails.

use vstd::prelude::*;

verus! {

/// The reasons for which a call gives no response.
///
/// An unbounded or infeasible problem is no failure: it has a response of
/// its own.
#[derive(Clone, Debug, PartialEq, Eq)]
pub enum Failure {
    /// The request has not one offset for each constraint row.
    ConstraintOffsets,
    /// The request has not one offset for each equality row.
    EqualityOffsets,
    /// A term names a variable that the request does not declare.
    UnknownVariable(String),
    /// The engine gave up for a reason of its own, which the text holds.
    Engine(String),
    /// The engine reported an optimum without one value for each variable.
    ValueCount,
    /// The encoded response holds a zero byte, which would cut the buffer short.
    InteriorNul,
}

/// View of a [`Failure`]: the same reasons, with each text as a sequence of
/// characters.
pub enum Cause {
    ConstraintOffsets,
    EqualityOffsets,
    UnknownVariable(Seq<char>),
    Engine(Seq<char>),
    ValueCount,
    InteriorNul,
}

impl View for Failure {
    type V = Cause;

    open spec fn view(&self) -> Cause {
        match self {
            Failure::ConstraintOffsets => Cause::ConstraintOffsets,
            Failure::EqualityOffsets => Cause::EqualityOffsets,
            Failure::UnknownVariable(name) => Cause::UnknownVariable(name@),
            Failure::Engine(text) => Cause::Engine(text@),
            Failure::ValueCount => Cause::ValueCount,
            Failure::InteriorNul => Cause::InteriorNul,
        }
    }
}

/// View of what a call gives: the view of its result, or of its failure.
pub open spec fn result_view<T: View>(r: Result<T, Failure>) -> Result<T::V, Cause> {
    match r {
        Ok(value) => Ok(value@),
        Err(failure) => Err(failure@),
    }
}

impl Cause {
    /// The line that tells a person what went wrong.
    pub open spec fn message(self) -> Seq<char> {
        match self {
            Cause::ConstraintOffsets => "constraints and constraint_offsets differ in length"@,
            Cause::EqualityOffsets => "equalities and equalities_offsets differ in length"@,
            Cause::UnknownVariable(name) => "undeclared variable: "@ + name,
            Cause::Engine(text) => text,
            Cause::ValueCount => "the engine returned a wrong number of values"@,
            Cause::InteriorNul => "the encoded response holds a zero byte"@,
        }
    }
}

impl Failure {
    /// The line that tells a person what went wrong. For an unknown variable
    /// it ends in the name; for an engine failure it is the engine's own text.
    pub fn message(&self) -> (r: String)
        ensures
            r@ == self@.message(),
    {
        match self {
            Failure::ConstraintOffsets => {
                "constraints and constraint_offsets differ in length".to_owned()
            },
            Failure::EqualityOffsets => {
                "equalities and equalities_offsets differ in length".to_owned()
            },
            Failure::UnknownVariable(name) => {
                let mut line = "undeclared variable: ".to_owned();
                line.append(name.as_str());
                line
            },
            Failure::Engine(text) => text.clone(),
            Failure::ValueCount => "the engine returned a wrong number of values".to_owned(),
            Failure::InteriorNul => "the encoded response holds a zero byte".to_owned(),
        }
    }
}

} // verus!
