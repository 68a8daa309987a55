use milp_bridge::error::Failure;
use milp_bridge::expr::{lookup, to_expr, LinearExpr};
use milp_bridge::schema::CoeffVar;

fn mapping(names: &[&str]) -> Vec<(String, usize)> {
    names.iter().enumerate().map(|(i, n)| (n.to_string(), i)).collect()
}

fn term(name: &str, factor: f64) -> CoeffVar<f64> {
    CoeffVar { name: name.to_string(), factor }
}

#[test]
fn lookup_finds_handle() {
    let vars = mapping(&["x", "y", "z"]);
    assert_eq!(lookup(&vars, &"x".to_string()), Some(0));
    assert_eq!(lookup(&vars, &"y".to_string()), Some(1));
    assert_eq!(lookup(&vars, &"z".to_string()), Some(2));
}

#[test]
fn lookup_misses_absent_name() {
    let vars = mapping(&["x", "y"]);
    assert_eq!(lookup(&vars, &"w".to_string()), None);
    assert_eq!(lookup(&vars, &"".to_string()), None);
    assert_eq!(lookup(&vars, &"X".to_string()), None);
}

#[test]
fn lookup_in_empty_mapping() {
    let vars: Vec<(String, usize)> = Vec::new();
    assert_eq!(lookup(&vars, &"x".to_string()), None);
}

#[test]
fn lookup_takes_first_of_repeated_name() {
    let vars = vec![("x".to_string(), 7), ("y".to_string(), 8), ("x".to_string(), 9)];
    assert_eq!(lookup(&vars, &"x".to_string()), Some(7));
}

#[test]
fn lookup_returns_the_handle_not_the_position() {
    let vars = vec![("a".to_string(), 40), ("b".to_string(), 2)];
    assert_eq!(lookup(&vars, &"b".to_string()), Some(2));
    assert_eq!(lookup(&vars, &"a".to_string()), Some(40));
}

#[test]
fn to_expr_resolves_each_term() {
    let vars = mapping(&["x", "y"]);
    let e = to_expr(&vars, -10.0, &vec![term("y", 2.0), term("x", 1.0)]).unwrap();
    assert_eq!(e, LinearExpr { constant: -10.0, terms: vec![(1, 2.0), (0, 1.0)] });
}

#[test]
fn to_expr_of_no_terms_is_the_offset() {
    let vars = mapping(&["x"]);
    let e = to_expr(&vars, 3.25, &Vec::new()).unwrap();
    assert_eq!(e, LinearExpr { constant: 3.25, terms: vec![] });
}

#[test]
fn to_expr_keeps_repeated_names_apart() {
    let vars = mapping(&["x"]);
    let e = to_expr(&vars, 0.0, &vec![term("x", 1.0), term("x", 2.5)]).unwrap();
    assert_eq!(e.terms, vec![(0, 1.0), (0, 2.5)]);
}

#[test]
fn to_expr_fails_on_unknown_name() {
    let vars = mapping(&["x", "y"]);
    let r = to_expr(&vars, 0.0, &vec![term("x", 1.0), term("w", 2.0), term("v", 3.0)]);
    assert_eq!(r, Err(Failure::UnknownVariable("w".to_string())));
}

#[test]
fn to_expr_fails_on_empty_mapping() {
    let vars: Vec<(String, usize)> = Vec::new();
    let r = to_expr(&vars, 1.0, &vec![term("x", 1.0)]);
    assert_eq!(r, Err(Failure::UnknownVariable("x".to_string())));
}

#[test]
fn to_expr_works_on_integers_too() {
    let vars = mapping(&["x", "y"]);
    let coeff = vec![CoeffVar { name: "y".to_string(), factor: 4i64 }];
    let e = to_expr(&vars, 9i64, &coeff).unwrap();
    assert_eq!(e, LinearExpr { constant: 9i64, terms: vec![(1, 4i64)] });
}
