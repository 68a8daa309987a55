//! Wire spellings of the two enums of the schema.
//!
//! The spellings are part of the wire contract: a request spells its
//! direction `min` or `max`, a response spells its status `optimal`,
//! `unbounded` or `infeasible`. Anything else is not a spelling.

use vstd::prelude::*;
use crate::outcome::{response, OutcomeView};
use crate::schema::{Direction, SolutionView, Status};

verus! {

impl Direction {
    /// The spelling of a direction.
    pub open spec fn spec_wire_name(self) -> Seq<char> {
        match self {
            Direction::Min => "min"@,
            Direction::Max => "max"@,
        }
    }

    /// The direction that `text` spells, if it spells one.
    pub open spec fn spec_from_wire(text: Seq<char>) -> Option<Direction> {
        if text == "min"@ {
            Some(Direction::Min)
        } else if text == "max"@ {
            Some(Direction::Max)
        } else {
            None
        }
    }

    pub fn wire_name(&self) -> (r: &'static str)
        ensures
            r@ == self.spec_wire_name(),
    {
        match self {
            Direction::Min => "min",
            Direction::Max => "max",
        }
    }

    pub fn from_wire(text: &String) -> (r: Option<Direction>)
        ensures
            r == Self::spec_from_wire(text@),
    {
        if *text == "min".to_owned() {
            Some(Direction::Min)
        } else if *text == "max".to_owned() {
            Some(Direction::Max)
        } else {
            None
        }
    }
}

impl Status {
    /// The spelling of a status.
    pub open spec fn spec_wire_name(self) -> Seq<char> {
        match self {
            Status::Optimal => "optimal"@,
            Status::Unbounded => "unbounded"@,
            Status::Infeasible => "infeasible"@,
        }
    }

    /// The status that `text` spells, if it spells one.
    pub open spec fn spec_from_wire(text: Seq<char>) -> Option<Status> {
        if text == "optimal"@ {
            Some(Status::Optimal)
        } else if text == "unbounded"@ {
            Some(Status::Unbounded)
        } else if text == "infeasible"@ {
            Some(Status::Infeasible)
        } else {
            None
        }
    }

    pub fn wire_name(&self) -> (r: &'static str)
        ensures
            r@ == self.spec_wire_name(),
    {
        match self {
            Status::Optimal => "optimal",
            Status::Unbounded => "unbounded",
            Status::Infeasible => "infeasible",
        }
    }

    pub fn from_wire(text: &String) -> (r: Option<Status>)
        ensures
            r == Self::spec_from_wire(text@),
    {
        if *text == "optimal".to_owned() {
            Some(Status::Optimal)
        } else if *text == "unbounded".to_owned() {
            Some(Status::Unbounded)
        } else if *text == "infeasible".to_owned() {
            Some(Status::Infeasible)
        } else {
            None
        }
    }
}

/// Spelling a direction and reading the spelling back gives the direction.
pub proof fn lemma_direction_round_trip(d: Direction)
    ensures
        Direction::spec_from_wire(d.spec_wire_name()) == Some(d),
{
    reveal_strlit("min");
    reveal_strlit("max");
    assert("max"@[1] != "min"@[1]);
}

/// Spelling a status and reading the spelling back gives the status.
pub proof fn lemma_status_round_trip(s: Status)
    ensures
        Status::spec_from_wire(s.spec_wire_name()) == Some(s),
{
    reveal_strlit("optimal");
    reveal_strlit("unbounded");
    reveal_strlit("infeasible");
    assert("optimal"@.len() == 7 && "unbounded"@.len() == 9 && "infeasible"@.len() == 10);
}

/// A text spells at most one status, and only the text that `wire_name`
/// gives for it.
pub proof fn lemma_status_spelling_unique(text: Seq<char>, s: Status)
    ensures
        Status::spec_from_wire(text) == Some(s) <==> text == s.spec_wire_name(),
{
    lemma_status_round_trip(s);
}

/// A text spells at most one direction, and only the text that `wire_name`
/// gives for it.
pub proof fn lemma_direction_spelling_unique(text: Seq<char>, d: Direction)
    ensures
        Direction::spec_from_wire(text) == Some(d) <==> text == d.spec_wire_name(),
{
    lemma_direction_round_trip(d);
}

impl<N> SolutionView<N> {
    /// What a response says on the wire: its status by its spelling, and
    /// its values.
    pub open spec fn spelled(self) -> (Seq<char>, Seq<N>) {
        (self.status.spec_wire_name(), self.values)
    }

    /// The response that a status text and a list of values stand for, if
    /// the text spells a status.
    pub open spec fn read(status: Seq<char>, values: Seq<N>) -> Option<SolutionView<N>> {
        match Status::spec_from_wire(status) {
            Some(status) => Some(SolutionView { status, values }),
            None => None,
        }
    }
}

/// A response that is spelled out and read back is the same response, and
/// reads the same when spelled out again. If it answers a model of `count`
/// variables, it still has `count` values for an optimum and none otherwise.
pub proof fn lemma_response_round_trip<N>(count: nat, outcome: OutcomeView<N>)
    ensures
        response(count, outcome) matches Ok(sent) ==> {
            &&& SolutionView::read(sent.spelled().0, sent.spelled().1) matches Some(got)
            &&& got == sent
            &&& got.spelled() == sent.spelled()
            &&& got.status == Status::Optimal ==> got.values.len() == count
            &&& got.status != Status::Optimal ==> got.values.len() == 0
        },
{
    if let Ok(sent) = response(count, outcome) {
        lemma_status_round_trip(sent.status);
    }
}

} // verus!
