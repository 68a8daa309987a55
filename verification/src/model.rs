//! Assembling a request into a model that an engine can take as it stands.

use vstd::prelude::*;
use crate::error::{result_view, Cause, Failure};
use crate::expr::{
    binds, first_unbound, handle_of, is_first_entry, lemma_build_keeps_value,
    lemma_first_unbound_exists, lemma_resolve, named_value, resolvable, resolve, resolved_terms,
    to_expr, Arithmetic, ExprView, LinearExpr, Mapping,
};
use crate::outcome::{response, OutcomeView};
use crate::schema::{
    CoeffVar, Direction, MessageProblem, ProblemView, TermView, VariableDef, VariableView,
};

verus! {

/// What a row demands of its expression.
#[derive(Clone, Copy, Debug, PartialEq, Eq, Structural)]
pub enum Relation {
    /// The expression is at most zero.
    AtMostZero,
    /// The expression is zero.
    EqualZero,
}

/// One row of a model: an expression and what is demanded of it.
#[derive(Clone, Debug, PartialEq)]
pub struct Row<N> {
    pub relation: Relation,
    pub expr: LinearExpr<N>,
}

/// View of a [`Row`].
pub struct RowView<N> {
    pub relation: Relation,
    pub expr: ExprView<N>,
}

impl<N> View for Row<N> {
    type V = RowView<N>;

    open spec fn view(&self) -> RowView<N> {
        RowView { relation: self.relation, expr: self.expr@ }
    }
}

impl<N> DeepView for Row<N> {
    type V = RowView<N>;

    #[verifier::inline]
    open spec fn deep_view(&self) -> RowView<N> {
        self@
    }
}

/// A request with every name resolved. The handle of a variable is its
/// position in `variables`, which is the request's order.
#[derive(Clone, Debug, PartialEq)]
pub struct Model<N> {
    pub direction: Direction,
    pub variables: Vec<VariableDef<N>>,
    pub objective: LinearExpr<N>,
    pub rows: Vec<Row<N>>,
}

/// View of a [`Model`].
pub struct ModelView<N> {
    pub direction: Direction,
    pub variables: Seq<VariableView<N>>,
    pub objective: ExprView<N>,
    pub rows: Seq<RowView<N>>,
}

impl<N> View for Model<N> {
    type V = ModelView<N>;

    open spec fn view(&self) -> ModelView<N> {
        ModelView {
            direction: self.direction,
            variables: self.variables.deep_view(),
            objective: self.objective@,
            rows: self.rows.deep_view(),
        }
    }
}

impl<N> ExprView<N> {
    /// Every handle of the expression is below `count`.
    pub open spec fn within(self, count: nat) -> bool {
        forall|i: int| 0 <= i < self.terms.len() ==> (#[trigger] self.terms[i]).0 < count
    }
}

impl<N> ModelView<N> {
    /// Every handle in the model stands for one of its variables.
    pub open spec fn wf(self) -> bool {
        &&& self.objective.within(self.variables.len())
        &&& forall|r: int|
            0 <= r < self.rows.len() ==> (#[trigger] self.rows[r]).expr.within(self.variables.len())
    }
}

/// The mapping that a list of variables stands for: each name, with its
/// position as the handle.
pub open spec fn mapping_of<N>(variables: Seq<VariableView<N>>) -> Mapping {
    Seq::new(variables.len(), |i: int| (variables[i].name, i as usize))
}

/// `mapping` binds every name in every row.
pub open spec fn rows_resolvable<N>(mapping: Mapping, rows: Seq<Seq<TermView<N>>>) -> bool {
    forall|r: int| 0 <= r < rows.len() ==> resolvable(mapping, #[trigger] rows[r])
}

/// Row `r` is the first one with a name that `mapping` does not bind.
pub open spec fn is_first_unbound_row<N>(
    mapping: Mapping,
    rows: Seq<Seq<TermView<N>>>,
    r: int,
) -> bool {
    &&& 0 <= r < rows.len()
    &&& !resolvable(mapping, rows[r])
    &&& forall|q: int| 0 <= q < r ==> resolvable(mapping, #[trigger] rows[q])
}

/// The first unbound name of the first row that has one.
pub open spec fn first_unbound_in_rows<N>(mapping: Mapping, rows: Seq<Seq<TermView<N>>>) -> Seq<
    char,
> {
    first_unbound(mapping, rows[choose|r: int| is_first_unbound_row(mapping, rows, r)])
}

/// The rows of a model that stand for the rows of a request, each under the
/// same relation and with the offset of the same index as its constant.
pub open spec fn resolved_rows<N>(
    mapping: Mapping,
    relation: Relation,
    rows: Seq<Seq<TermView<N>>>,
    offsets: Seq<N>,
) -> Seq<RowView<N>> {
    Seq::new(
        rows.len(),
        |r: int|
            RowView {
                relation,
                expr: ExprView { constant: offsets[r], terms: resolved_terms(mapping, rows[r]) },
            },
    )
}

impl<N> ProblemView<N> {
    /// The mapping from names to handles that the variables define.
    pub open spec fn mapping(self) -> Mapping {
        mapping_of(self.variables)
    }

    /// Some variable of the request is called `name`.
    pub open spec fn declares(self, name: Seq<char>) -> bool {
        exists|i: int| 0 <= i < self.variables.len() && (#[trigger] self.variables[i]).name == name
    }

    /// Every term of the request names a variable that it declares.
    pub open spec fn references_resolve(self) -> bool {
        &&& resolvable(self.mapping(), self.objective)
        &&& rows_resolvable(self.mapping(), self.constraints)
        &&& rows_resolvable(self.mapping(), self.equalities)
    }

    /// The request has one offset for each row and names only variables that
    /// it declares.
    pub open spec fn well_formed(self) -> bool {
        &&& self.constraints.len() == self.constraint_offsets.len()
        &&& self.equalities.len() == self.equalities_offsets.len()
        &&& self.references_resolve()
    }

    /// The first name that the request uses without declaring it: in the
    /// objective, else in the constraints, else in the equalities.
    pub open spec fn first_unknown(self) -> Seq<char> {
        if !resolvable(self.mapping(), self.objective) {
            first_unbound(self.mapping(), self.objective)
        } else if !rows_resolvable(self.mapping(), self.constraints) {
            first_unbound_in_rows(self.mapping(), self.constraints)
        } else {
            first_unbound_in_rows(self.mapping(), self.equalities)
        }
    }

    /// The model of a well-formed request: its direction and variables, the
    /// objective over handles, then one row for each constraint and one for
    /// each equality, in the request's order.
    pub open spec fn model(self) -> ModelView<N> {
        ModelView {
            direction: self.direction,
            variables: self.variables,
            objective: ExprView {
                constant: self.objective_offset,
                terms: resolved_terms(self.mapping(), self.objective),
            },
            rows: resolved_rows(
                self.mapping(),
                Relation::AtMostZero,
                self.constraints,
                self.constraint_offsets,
            ) + resolved_rows(
                self.mapping(),
                Relation::EqualZero,
                self.equalities,
                self.equalities_offsets,
            ),
        }
    }

    /// What assembling the request gives: its model where it is well formed,
    /// and otherwise the first of the failures that applies.
    pub open spec fn assembled(self) -> Result<ModelView<N>, Cause> {
        if self.constraints.len() != self.constraint_offsets.len() {
            Err(Cause::ConstraintOffsets)
        } else if self.equalities.len() != self.equalities_offsets.len() {
            Err(Cause::EqualityOffsets)
        } else if !self.references_resolve() {
            Err(Cause::UnknownVariable(self.first_unknown()))
        } else {
            Ok(self.model())
        }
    }
}

/// View of the result of resolving rows.
spec fn rows_view<N>(r: Result<Vec<Row<N>>, Failure>) -> Result<
    Seq<RowView<N>>,
    Cause,
> {
    match r {
        Ok(rows) => Ok(rows.deep_view()),
        Err(f) => Err(f@),
    }
}

/// What resolving rows gives: the rows over handles, where every name is
/// bound, and otherwise the failure that carries the first unbound name.
pub open spec fn build_rows<N>(
    mapping: Mapping,
    relation: Relation,
    rows: Seq<Seq<TermView<N>>>,
    offsets: Seq<N>,
) -> Result<Seq<RowView<N>>, Cause> {
    if rows_resolvable(mapping, rows) {
        Ok(resolved_rows(mapping, relation, rows, offsets))
    } else {
        Err(Cause::UnknownVariable(first_unbound_in_rows(mapping, rows)))
    }
}

/// There is at most one first row with an unbound name.
pub proof fn lemma_first_unbound_row_unique<N>(
    mapping: Mapping,
    rows: Seq<Seq<TermView<N>>>,
    r: int,
)
    requires
        is_first_unbound_row(mapping, rows, r),
    ensures
        !rows_resolvable(mapping, rows),
        first_unbound_in_rows(mapping, rows) == first_unbound(mapping, rows[r]),
{
    let c = choose|k: int| is_first_unbound_row(mapping, rows, k);
    if c < r {
        assert(resolvable(mapping, rows[c]));
    } else if r < c {
        assert(resolvable(mapping, rows[r]));
    }
}

/// The mapping that `variables` stands for, as a list of owned pairs.
pub fn name_mapping<N>(variables: &Vec<VariableDef<N>>) -> (r: Vec<(String, usize)>)
    ensures
        r.deep_view() == mapping_of(variables.deep_view()),
{
    let mut mapping: Vec<(String, usize)> = Vec::new();
    let mut i: usize = 0;
    while i < variables.len()
        invariant
            i <= variables.len(),
            mapping@.len() == i,
            forall|j: int|
                0 <= j < i ==> (#[trigger] mapping@[j]).0@ == variables@[j].name@ && mapping@[j].1
                    == j,
        decreases variables.len() - i,
    {
        mapping.push((variables[i].name.clone(), i));
        i += 1;
    }
    assert(mapping.deep_view() =~= mapping_of(variables.deep_view()));
    mapping
}

/// Resolves each row of a request against `vars`, pairing row `i` with
/// offset `i` under `relation`.
fn to_rows<N: Copy>(
    vars: &Vec<(String, usize)>,
    relation: Relation,
    rows: &Vec<Vec<CoeffVar<N>>>,
    offsets: &Vec<N>,
) -> (r: Result<Vec<Row<N>>, Failure>)
    requires
        rows.len() == offsets.len(),
    ensures
        rows_view(r) == build_rows(vars.deep_view(), relation, rows.deep_view(), offsets@),
{
    let ghost mapping = vars.deep_view();
    let ghost all = rows.deep_view();
    let mut out: Vec<Row<N>> = Vec::new();
    let mut i: usize = 0;
    while i < rows.len()
        invariant
            i <= rows.len(),
            rows.len() == offsets.len(),
            mapping == vars.deep_view(),
            all == rows.deep_view(),
            out@.len() == i,
            forall|q: int| 0 <= q < i ==> resolvable(mapping, #[trigger] all[q]),
            forall|q: int|
                0 <= q < i ==> (#[trigger] out@[q])@ == (RowView {
                    relation,
                    expr: ExprView { constant: offsets@[q], terms: resolved_terms(mapping, all[q]) },
                }),
        decreases rows.len() - i,
    {
        assert(all[i as int] == rows@[i as int].deep_view());
        match to_expr(vars, offsets[i], &rows[i]) {
            Ok(expr) => {
                out.push(Row { relation, expr });
            },
            Err(f) => {
                proof {
                    assert(is_first_unbound_row(mapping, all, i as int));
                    lemma_first_unbound_row_unique(mapping, all, i as int);
                }
                return Err(f);
            },
        }
        i += 1;
    }
    assert(out.deep_view() =~= resolved_rows(mapping, relation, all, offsets@));
    Ok(out)
}

/// Assembles a request into the model that an engine is to solve.
///
/// Gives no model unless the request has one offset for each row and every
/// term names a declared variable; the failure says which of these it lacks.
pub fn assemble<N: Copy>(problem: MessageProblem<N>) -> (r: Result<Model<N>, Failure>)
    ensures
        result_view(r) == problem@.assembled(),
        r is Ok <==> problem@.well_formed(),
        r matches Ok(m) ==> m@.wf(),
{
    let ghost p = problem@;
    let MessageProblem {
        direction,
        variables,
        objective,
        objective_offset,
        constraints,
        constraint_offsets,
        equalities,
        equalities_offsets,
    } = problem;
    if constraints.len() != constraint_offsets.len() {
        return Err(Failure::ConstraintOffsets);
    }
    if equalities.len() != equalities_offsets.len() {
        return Err(Failure::EqualityOffsets);
    }
    let vars = name_mapping(&variables);
    let objective = match to_expr(&vars, objective_offset, &objective) {
        Ok(expr) => expr,
        Err(f) => {
            return Err(f);
        },
    };
    let mut rows = match to_rows(&vars, Relation::AtMostZero, &constraints, &constraint_offsets) {
        Ok(rows) => rows,
        Err(f) => {
            return Err(f);
        },
    };
    let mut more = match to_rows(&vars, Relation::EqualZero, &equalities, &equalities_offsets) {
        Ok(rows) => rows,
        Err(f) => {
            return Err(f);
        },
    };
    let ghost first = rows.deep_view();
    let ghost second = more.deep_view();
    rows.append(&mut more);
    let model = Model { direction, variables, objective, rows };
    proof {
        assert(model@.rows =~= first + second);
        lemma_model_wf(p);
    }
    Ok(model)
}

/// In the model of a request whose references resolve, every handle stands
/// for a variable of the request.
pub proof fn lemma_model_wf<N>(p: ProblemView<N>)
    requires
        p.references_resolve(),
    ensures
        p.model().wf(),
{
    let m = p.model();
    let mapping = p.mapping();
    let count = p.variables.len();
    let rows = p.constraints.len();
    assert forall|i: int| 0 <= i < mapping.len() implies (#[trigger] mapping[i]).1 < count by {
        assert(mapping[i].1 == i as usize);
    }
    lemma_resolved_within(mapping, p.objective, count);
    assert forall|r: int| 0 <= r < m.rows.len() implies (#[trigger] m.rows[r]).expr.within(
        count,
    ) by {
        if r < rows {
            assert(m.rows[r].expr.terms == resolved_terms(mapping, p.constraints[r]));
            lemma_resolved_within(mapping, p.constraints[r], count);
        } else {
            assert(m.rows[r].expr.terms == resolved_terms(mapping, p.equalities[r - rows]));
            lemma_resolved_within(mapping, p.equalities[r - rows], count);
        }
    }
}

/// Where every handle of `mapping` is below `count`, so is every handle of
/// the terms resolved against it.
pub proof fn lemma_resolved_within<N>(mapping: Mapping, terms: Seq<TermView<N>>, count: nat)
    requires
        resolvable(mapping, terms),
        forall|i: int| 0 <= i < mapping.len() ==> (#[trigger] mapping[i]).1 < count,
    ensures
        forall|i: int|
            0 <= i < terms.len() ==> (#[trigger] resolved_terms(mapping, terms)[i]).0 < count,
{
    assert forall|i: int| 0 <= i < terms.len() implies (#[trigger] resolved_terms(
        mapping,
        terms,
    )[i]).0 < count by {
        assert(binds(mapping, terms[i].name));
        lemma_resolve(mapping, terms[i].name);
    }
}

/// A request declares a name exactly when its mapping binds it.
pub proof fn lemma_declares_binds<N>(p: ProblemView<N>, name: Seq<char>)
    ensures
        p.declares(name) <==> binds(p.mapping(), name),
{
    let mapping = p.mapping();
    if p.declares(name) {
        let i = choose|i: int|
            0 <= i < p.variables.len() && (#[trigger] p.variables[i]).name == name;
        assert(mapping[i].0 == name);
    }
    if binds(mapping, name) {
        let i = choose|i: int| 0 <= i < mapping.len() && (#[trigger] mapping[i]).0 == name;
        assert(p.variables[i].name == name);
    }
}

impl<N> ProblemView<N> {
    /// Some term of the request, in the objective or in a row, names `name`.
    pub open spec fn uses(self, name: Seq<char>) -> bool {
        ||| exists|t: int| 0 <= t < self.objective.len() && (#[trigger] self.objective[t]).name == name
        ||| exists|r: int, t: int|
            0 <= r < self.constraints.len() && 0 <= t < self.constraints[r].len() && (
            #[trigger] self.constraints[r][t]).name == name
        ||| exists|r: int, t: int|
            0 <= r < self.equalities.len() && 0 <= t < self.equalities[r].len() && (
            #[trigger] self.equalities[r][t]).name == name
    }
}

/// A request that uses a name without declaring it has no model, wherever
/// the name stands: assembling it fails.
pub proof fn lemma_undeclared_name_fails<N>(p: ProblemView<N>, name: Seq<char>)
    requires
        p.uses(name),
        !p.declares(name),
    ensures
        p.assembled() is Err,
        !p.well_formed(),
{
    lemma_declares_binds(p, name);
    let mapping = p.mapping();
    if exists|t: int| 0 <= t < p.objective.len() && (#[trigger] p.objective[t]).name == name {
        let t = choose|t: int| 0 <= t < p.objective.len() && (#[trigger] p.objective[t]).name == name;
        assert(!binds(mapping, p.objective[t].name));
        assert(!resolvable(mapping, p.objective));
    } else if exists|r: int, t: int|
        0 <= r < p.constraints.len() && 0 <= t < p.constraints[r].len() && (
        #[trigger] p.constraints[r][t]).name == name {
        let (r, t) = choose|r: int, t: int|
            0 <= r < p.constraints.len() && 0 <= t < p.constraints[r].len() && (
            #[trigger] p.constraints[r][t]).name == name;
        assert(!binds(mapping, p.constraints[r][t].name));
        assert(!resolvable(mapping, p.constraints[r]));
        assert(!rows_resolvable(mapping, p.constraints));
    } else {
        let (r, t) = choose|r: int, t: int|
            0 <= r < p.equalities.len() && 0 <= t < p.equalities[r].len() && (
            #[trigger] p.equalities[r][t]).name == name;
        assert(!binds(mapping, p.equalities[r][t].name));
        assert(!resolvable(mapping, p.equalities[r]));
        assert(!rows_resolvable(mapping, p.equalities));
    }
}

/// A request in which a term of a constraint row names a variable that it
/// does not declare has no model: assembling it fails.
pub proof fn lemma_undeclared_constraint_term_fails<N>(p: ProblemView<N>, row: int, term: int)
    requires
        0 <= row < p.constraints.len(),
        0 <= term < p.constraints[row].len(),
        !p.declares(p.constraints[row][term].name),
    ensures
        p.assembled() is Err,
{
    let name = p.constraints[row][term].name;
    assert(p.constraints[row][term].name == name);
    lemma_undeclared_name_fails(p, name);
}

/// The name that a failure for an unknown variable carries is one that the
/// request uses and does not declare.
pub proof fn lemma_unknown_name_is_undeclared<N>(p: ProblemView<N>)
    requires
        !p.references_resolve(),
    ensures
        p.uses(p.first_unknown()),
        !p.declares(p.first_unknown()),
{
    let mapping = p.mapping();
    let name = p.first_unknown();
    if !resolvable(mapping, p.objective) {
        let t = lemma_first_unbound_exists(mapping, p.objective);
        assert(p.objective[t].name == name);
    } else if !rows_resolvable(mapping, p.constraints) {
        let r = lemma_first_unbound_row_exists(mapping, p.constraints);
        let t = lemma_first_unbound_exists(mapping, p.constraints[r]);
        assert(p.constraints[r][t].name == name);
    } else {
        let r = lemma_first_unbound_row_exists(mapping, p.equalities);
        let t = lemma_first_unbound_exists(mapping, p.equalities[r]);
        assert(p.equalities[r][t].name == name);
    }
    lemma_declares_binds(p, name);
}

/// Rows that are not all resolvable have a first row with an unbound name.
pub proof fn lemma_first_unbound_row_exists<N>(mapping: Mapping, rows: Seq<Seq<TermView<N>>>) -> (r:
    int)
    requires
        !rows_resolvable(mapping, rows),
    ensures
        is_first_unbound_row(mapping, rows, r),
        first_unbound_in_rows(mapping, rows) == first_unbound(mapping, rows[r]),
{
    let k = choose|k: int| 0 <= k < rows.len() && !resolvable(mapping, #[trigger] rows[k]);
    let r = least_unbound_row(mapping, rows, k);
    lemma_first_unbound_row_unique(mapping, rows, r);
    r
}

proof fn least_unbound_row<N>(mapping: Mapping, rows: Seq<Seq<TermView<N>>>, k: int) -> (r: int)
    requires
        0 <= k < rows.len(),
        !resolvable(mapping, rows[k]),
    ensures
        is_first_unbound_row(mapping, rows, r),
    decreases k,
{
    if forall|q: int| 0 <= q < k ==> resolvable(mapping, #[trigger] rows[q]) {
        k
    } else {
        let q = choose|q: int| 0 <= q < k && !resolvable(mapping, #[trigger] rows[q]);
        least_unbound_row(mapping, rows, q)
    }
}

/// The references of a request resolve exactly when it declares every name
/// that it uses.
pub proof fn lemma_references_resolve<N>(p: ProblemView<N>)
    ensures
        p.references_resolve() <==> forall|name: Seq<char>|
            #[trigger] p.uses(name) ==> p.declares(name),
{
    let mapping = p.mapping();
    if p.references_resolve() {
        assert forall|name: Seq<char>| #[trigger] p.uses(name) implies p.declares(name) by {
            if !p.declares(name) {
                lemma_undeclared_name_fails(p, name);
            }
        }
    } else {
        lemma_unknown_name_is_undeclared(p);
        assert(p.uses(p.first_unknown()));
    }
}

impl<N> ProblemView<N> {
    /// No two variables of the request have the same name.
    pub open spec fn names_unique(self) -> bool {
        forall|i: int, j: int|
            0 <= i < j < self.variables.len() ==> (#[trigger] self.variables[i]).name != (
            #[trigger] self.variables[j]).name
    }
}

/// Where no name is declared twice, the handle of a variable's name is the
/// position of that variable.
pub proof fn lemma_unique_name_resolves_to_position<N>(p: ProblemView<N>, i: int)
    requires
        p.names_unique(),
        0 <= i < p.variables.len() <= usize::MAX,
    ensures
        resolve(p.mapping(), p.variables[i].name) == Some(i as usize),
{
    let mapping = p.mapping();
    let name = p.variables[i].name;
    assert(mapping[i] == (name, i as usize));
    assert forall|j: int| 0 <= j < i implies (#[trigger] mapping[j]).0 != name by {
        assert(p.variables[j].name != p.variables[i].name);
    }
    assert(is_first_entry(mapping, name, i));
    lemma_resolve(mapping, name);
}

/// The model means what the request means: however numbers add and
/// multiply, and whatever value each variable has, the objective and every
/// row of the model come to what the request's own terms come to when each
/// name has the value of the variable it resolves to. Constraints stay
/// bounded by zero, equalities stay equal to zero, and the rows keep the
/// request's order.
pub proof fn lemma_model_keeps_meaning<N>(
    p: ProblemView<N>,
    ops: Arithmetic<N>,
    at: spec_fn(usize) -> N,
)
    requires
        p.well_formed(),
    ensures
        ({
            let m = p.model();
            let by_name = |name: Seq<char>| at(handle_of(p.mapping(), name));
            &&& m.objective.value(ops, at) == named_value(
                p.objective_offset,
                p.objective,
                ops,
                by_name,
            )
            &&& m.rows.len() == p.constraints.len() + p.equalities.len()
            &&& forall|r: int|
                #![trigger p.constraints[r]]
                0 <= r < p.constraints.len() ==> {
                    &&& m.rows[r].relation == Relation::AtMostZero
                    &&& m.rows[r].expr.value(ops, at) == named_value(
                        p.constraint_offsets[r],
                        p.constraints[r],
                        ops,
                        by_name,
                    )
                }
            &&& forall|r: int|
                #![trigger p.equalities[r]]
                0 <= r < p.equalities.len() ==> {
                    &&& m.rows[p.constraints.len() + r].relation == Relation::EqualZero
                    &&& m.rows[p.constraints.len() + r].expr.value(ops, at) == named_value(
                        p.equalities_offsets[r],
                        p.equalities[r],
                        ops,
                        by_name,
                    )
                }
        }),
{
    let m = p.model();
    let mapping = p.mapping();
    lemma_build_keeps_value(mapping, p.objective_offset, p.objective, ops, at);
    assert forall|r: int| 0 <= r < p.constraints.len() implies m.rows[r].expr.value(ops, at)
        == named_value(
        p.constraint_offsets[r],
        #[trigger] p.constraints[r],
        ops,
        |name: Seq<char>| at(handle_of(mapping, name)),
    ) by {
        lemma_build_keeps_value(mapping, p.constraint_offsets[r], p.constraints[r], ops, at);
    }
    assert forall|r: int| 0 <= r < p.equalities.len() implies m.rows[p.constraints.len()
        + r].expr.value(ops, at) == named_value(
        p.equalities_offsets[r],
        #[trigger] p.equalities[r],
        ops,
        |name: Seq<char>| at(handle_of(mapping, name)),
    ) by {
        lemma_build_keeps_value(mapping, p.equalities_offsets[r], p.equalities[r], ops, at);
    }
}

/// The direction of a request reaches the model as its direction and
/// nowhere else: two requests that differ in direction alone fail alike or
/// have models that differ in direction alone.
pub proof fn lemma_direction_moves_sense_only<N>(p: ProblemView<N>, direction: Direction)
    ensures
        ({
            let q = ProblemView { direction, ..p };
            match (p.assembled(), q.assembled()) {
                (Ok(m), Ok(n)) => n == ModelView { direction, ..m },
                (Err(e), Err(f)) => e == f,
                _ => false,
            }
        }),
{
}

/// The offset of the objective reaches the model as the constant of its
/// objective and nowhere else: two requests that differ in that offset alone
/// fail alike or have models that differ in that constant alone, and every
/// outcome has the same response under both.
pub proof fn lemma_offset_moves_constant_only<N>(p: ProblemView<N>, offset: N)
    ensures
        ({
            let q = ProblemView { objective_offset: offset, ..p };
            match (p.assembled(), q.assembled()) {
                (Ok(m), Ok(n)) => {
                    &&& n == ModelView {
                        objective: ExprView { constant: offset, ..m.objective },
                        ..m
                    }
                    &&& forall|outcome: OutcomeView<N>|
                        response(n.variables.len(), outcome) == response(
                            m.variables.len(),
                            outcome,
                        )
                },
                (Err(e), Err(f)) => e == f,
                _ => false,
            }
        }),
{
}

} // verus!
