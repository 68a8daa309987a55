use milp_bridge::error::Failure;
use milp_bridge::expr::LinearExpr;
use milp_bridge::model::{assemble, name_mapping, Model, Relation, Row};
use milp_bridge::schema::{CoeffVar, Direction, MessageProblem, VariableDef};

fn var(name: &str) -> VariableDef<f64> {
    VariableDef { name: name.to_string(), min: None, max: None, initial: None, integer: false }
}

fn term(name: &str, factor: f64) -> CoeffVar<f64> {
    CoeffVar { name: name.to_string(), factor }
}

fn problem() -> MessageProblem<f64> {
    MessageProblem {
        direction: Direction::Max,
        variables: vec![var("x"), var("y")],
        objective: vec![term("x", 1.0), term("y", 2.0)],
        objective_offset: 0.5,
        constraints: vec![vec![term("x", 1.0), term("y", 1.0)], vec![term("y", 3.0)]],
        constraint_offsets: vec![-4.0, -6.0],
        equalities: vec![vec![term("x", 1.0), term("y", -1.0)]],
        equalities_offsets: vec![0.25],
    }
}

#[test]
fn name_mapping_numbers_names_by_position() {
    let m = name_mapping(&vec![var("a"), var("b"), var("a")]);
    assert_eq!(m, vec![("a".to_string(), 0), ("b".to_string(), 1), ("a".to_string(), 2)]);
}

#[test]
fn name_mapping_of_nothing_is_empty() {
    let m = name_mapping(&Vec::<VariableDef<f64>>::new());
    assert!(m.is_empty());
}

#[test]
fn assemble_resolves_whole_problem() {
    let m = assemble(problem()).unwrap();
    assert_eq!(
        m,
        Model {
            direction: Direction::Max,
            variables: vec![var("x"), var("y")],
            objective: LinearExpr { constant: 0.5, terms: vec![(0, 1.0), (1, 2.0)] },
            rows: vec![
                Row {
                    relation: Relation::AtMostZero,
                    expr: LinearExpr { constant: -4.0, terms: vec![(0, 1.0), (1, 1.0)] },
                },
                Row {
                    relation: Relation::AtMostZero,
                    expr: LinearExpr { constant: -6.0, terms: vec![(1, 3.0)] },
                },
                Row {
                    relation: Relation::EqualZero,
                    expr: LinearExpr { constant: 0.25, terms: vec![(0, 1.0), (1, -1.0)] },
                },
            ],
        }
    );
}

#[test]
fn assemble_keeps_direction() {
    let mut p = problem();
    p.direction = Direction::Min;
    assert_eq!(assemble(p).unwrap().direction, Direction::Min);
}

#[test]
fn assemble_keeps_variable_definitions() {
    let mut p = problem();
    p.variables[1] = VariableDef {
        name: "y".to_string(),
        min: Some(-1.0),
        max: Some(8.0),
        initial: Some(2.0),
        integer: true,
    };
    let m = assemble(p).unwrap();
    assert_eq!(m.variables[0], var("x"));
    assert_eq!(m.variables[1].min, Some(-1.0));
    assert_eq!(m.variables[1].max, Some(8.0));
    assert_eq!(m.variables[1].initial, Some(2.0));
    assert!(m.variables[1].integer);
}

#[test]
fn assemble_empty_problem() {
    let p: MessageProblem<f64> = MessageProblem {
        direction: Direction::Min,
        variables: vec![],
        objective: vec![],
        objective_offset: 0.0,
        constraints: vec![],
        constraint_offsets: vec![],
        equalities: vec![],
        equalities_offsets: vec![],
    };
    let m = assemble(p).unwrap();
    assert!(m.variables.is_empty());
    assert!(m.rows.is_empty());
    assert_eq!(m.objective, LinearExpr { constant: 0.0, terms: vec![] });
}

#[test]
fn assemble_accepts_empty_rows() {
    let mut p = problem();
    p.constraints = vec![vec![]];
    p.constraint_offsets = vec![-1.0];
    let m = assemble(p).unwrap();
    assert_eq!(
        m.rows[0],
        Row { relation: Relation::AtMostZero, expr: LinearExpr { constant: -1.0, terms: vec![] } }
    );
}

#[test]
fn assemble_resolves_repeated_declaration_to_first() {
    let mut p = problem();
    p.variables = vec![var("x"), var("y"), var("x")];
    let m = assemble(p).unwrap();
    assert_eq!(m.objective.terms, vec![(0, 1.0), (1, 2.0)]);
}

#[test]
fn assemble_rejects_missing_constraint_offset() {
    let mut p = problem();
    p.constraint_offsets = vec![-4.0];
    assert_eq!(assemble(p), Err(Failure::ConstraintOffsets));
}

#[test]
fn assemble_rejects_surplus_constraint_offset() {
    let mut p = problem();
    p.constraint_offsets = vec![-4.0, -6.0, 0.0];
    assert_eq!(assemble(p), Err(Failure::ConstraintOffsets));
}

#[test]
fn assemble_rejects_missing_equality_offset() {
    let mut p = problem();
    p.equalities_offsets = vec![];
    assert_eq!(assemble(p), Err(Failure::EqualityOffsets));
}

#[test]
fn assemble_rejects_surplus_equality_offset() {
    let mut p = problem();
    p.equalities_offsets = vec![0.25, 0.5];
    assert_eq!(assemble(p), Err(Failure::EqualityOffsets));
}

#[test]
fn assemble_reports_constraint_offsets_before_equality_offsets() {
    let mut p = problem();
    p.constraint_offsets = vec![];
    p.equalities_offsets = vec![];
    assert_eq!(assemble(p), Err(Failure::ConstraintOffsets));
}

#[test]
fn assemble_reports_offsets_before_names() {
    let mut p = problem();
    p.objective = vec![term("nope", 1.0)];
    p.equalities_offsets = vec![];
    assert_eq!(assemble(p), Err(Failure::EqualityOffsets));
}

#[test]
fn assemble_rejects_unknown_name_in_objective() {
    let mut p = problem();
    p.objective = vec![term("x", 1.0), term("q", 2.0)];
    assert_eq!(assemble(p), Err(Failure::UnknownVariable("q".to_string())));
}

#[test]
fn assemble_rejects_unknown_name_in_constraint() {
    let mut p = problem();
    p.constraints[1] = vec![term("y", 3.0), term("ghost", 1.0)];
    assert_eq!(assemble(p), Err(Failure::UnknownVariable("ghost".to_string())));
}

#[test]
fn assemble_rejects_unknown_name_in_equality() {
    let mut p = problem();
    p.equalities[0] = vec![term("z", 1.0)];
    assert_eq!(assemble(p), Err(Failure::UnknownVariable("z".to_string())));
}

#[test]
fn assemble_reports_first_unknown_name() {
    let mut p = problem();
    p.constraints[0] = vec![term("c", 1.0)];
    p.equalities[0] = vec![term("e", 1.0)];
    assert_eq!(assemble(p), Err(Failure::UnknownVariable("c".to_string())));
    let mut p = problem();
    p.objective = vec![term("o1", 1.0), term("o2", 1.0)];
    p.constraints[0] = vec![term("c", 1.0)];
    assert_eq!(assemble(p), Err(Failure::UnknownVariable("o1".to_string())));
}

#[test]
fn assemble_rejects_any_name_without_variables() {
    let mut p = problem();
    p.variables = vec![];
    assert_eq!(assemble(p), Err(Failure::UnknownVariable("x".to_string())));
}

#[test]
fn assemble_names_are_case_sensitive() {
    let mut p = problem();
    p.objective = vec![term("X", 1.0)];
    assert_eq!(assemble(p), Err(Failure::UnknownVariable("X".to_string())));
}

#[test]
fn assemble_ignores_objective_offset_elsewhere() {
    let a = assemble(problem()).unwrap();
    let mut p = problem();
    p.objective_offset = 1000.0;
    let b = assemble(p).unwrap();
    assert_eq!(b.objective.constant, 1000.0);
    assert_eq!(a.objective.terms, b.objective.terms);
    assert_eq!(a.rows, b.rows);
    assert_eq!(a.variables, b.variables);
    assert_eq!(a.direction, b.direction);
}

#[test]
fn assemble_handles_stay_below_variable_count() {
    let m = assemble(problem()).unwrap();
    let n = m.variables.len();
    assert!(m.objective.terms.iter().all(|t| t.0 < n));
    assert!(m.rows.iter().all(|r| r.expr.terms.iter().all(|t| t.0 < n)));
}
