use specgraphen::logic::{compress, CompressedTable, DecisionTable, Error, Rule, Tri};
use specgraphen::logic::Tri::{Any, False as F, True as T};

fn table(vars: &[&str], rows: &[(&[Tri], &str)]) -> DecisionTable {
    let mut t = DecisionTable::new(vars.iter().map(|s| s.to_string()).collect());
    for (inputs, outcome) in rows {
        t.add_row(inputs.to_vec(), *outcome).unwrap();
    }
    t
}

/// Every observed minterm must be matched by at least one rule of its own
/// outcome and by no rule of any other outcome.
fn assert_faithful(t: &DecisionTable, c: &CompressedTable) {
    let n = t.variables().len();
    for row in t.rows() {
        let free: Vec<usize> = (0..n).filter(|&i| row.inputs[i] == Any).collect();
        let base: u32 = (0..n)
            .filter(|&i| row.inputs[i] == T)
            .fold(0, |acc, i| acc | 1 << i);
        for combo in 0u32..(1 << free.len()) {
            let mut m = base;
            for (j, &pos) in free.iter().enumerate() {
                if combo >> j & 1 == 1 {
                    m |= 1 << pos;
                }
            }
            let matches = |rule: &Rule| {
                rule.when.iter().enumerate().all(|(i, tri)| match tri {
                    Tri::Any => true,
                    Tri::True => m >> i & 1 == 1,
                    Tri::False => m >> i & 1 == 0,
                })
            };
            assert!(
                c.rules
                    .iter()
                    .any(|r| r.outcome == row.outcome && matches(r)),
                "minterm {m:b} of outcome {} unmatched",
                row.outcome
            );
            assert!(
                !c.rules
                    .iter()
                    .any(|r| r.outcome != row.outcome && matches(r)),
                "minterm {m:b} matched by foreign rule"
            );
        }
    }
}

#[test]
fn dead_variable_is_eliminated() {
    // outcome depends only on `a`; `b` is patch noise
    let t = table(
        &["a", "b"],
        &[
            (&[T, T], "yes"),
            (&[T, F], "yes"),
            (&[F, T], "no"),
            (&[F, F], "no"),
        ],
    );
    let c = compress(&t).unwrap();
    assert_faithful(&t, &c);
    assert_eq!(c.dead_variables, vec!["b"]);
    assert_eq!(c.rules.len(), 2);
    assert!(c.rules.iter().all(|r| r.when[1] == Any));
}

#[test]
fn independent_variables_do_not_compress() {
    // XNOR: both variables genuinely matter
    let t = table(
        &["a", "b"],
        &[
            (&[T, T], "eq"),
            (&[F, F], "eq"),
            (&[T, F], "ne"),
            (&[F, T], "ne"),
        ],
    );
    let c = compress(&t).unwrap();
    assert_faithful(&t, &c);
    assert!(c.dead_variables.is_empty());
    assert_eq!(c.rules.len(), 4);
}

#[test]
fn unobserved_combinations_are_dont_cares() {
    // (T,F) never observed; using it as don't-care kills `b` entirely
    let t = table(
        &["a", "b"],
        &[(&[T, T], "yes"), (&[F, T], "no"), (&[F, F], "no")],
    );
    let c = compress(&t).unwrap();
    assert_faithful(&t, &c);
    assert_eq!(c.dead_variables, vec!["b"]);
    assert_eq!(c.rules.len(), 2);
}

#[test]
fn partial_rows_expand_to_dont_cares() {
    let t = table(&["a", "b"], &[(&[T, Any], "yes"), (&[F, Any], "no")]);
    let c = compress(&t).unwrap();
    assert_faithful(&t, &c);
    assert_eq!(c.dead_variables, vec!["b"]);
    assert_eq!(c.rules.len(), 2);
}

#[test]
fn three_outcomes() {
    let t = table(
        &["a", "b"],
        &[(&[T, T], "A"), (&[T, F], "B"), (&[F, Any], "C")],
    );
    let c = compress(&t).unwrap();
    assert_faithful(&t, &c);
    assert!(c.dead_variables.is_empty());
    // A and B each need both variables; C needs only `a`
    let c_rules: Vec<_> = c.rules.iter().filter(|r| r.outcome == "C").collect();
    assert_eq!(c_rules.len(), 1);
    assert_eq!(c_rules[0].when, vec![F, Any]);
}

#[test]
fn single_outcome_makes_everything_dead() {
    let t = table(&["a", "b"], &[(&[T, T], "ok"), (&[F, F], "ok")]);
    let c = compress(&t).unwrap();
    assert_faithful(&t, &c);
    assert_eq!(c.rules.len(), 1);
    assert_eq!(c.rules[0].when, vec![Any, Any]);
    assert_eq!(c.dead_variables, vec!["a", "b"]);
}

#[test]
fn conflict_is_detected() {
    let t = table(&["a", "b"], &[(&[T, Any], "yes"), (&[T, T], "no")]);
    match compress(&t) {
        Err(Error::Conflict {
            assignment,
            outcomes,
        }) => {
            assert_eq!(
                assignment,
                vec![("a".to_string(), true), ("b".to_string(), true)]
            );
            assert_eq!(outcomes, ("yes".to_string(), "no".to_string()));
        }
        other => panic!("expected conflict, got {other:?}"),
    }
}

#[test]
fn duplicate_consistent_rows_are_fine() {
    let t = table(&["a"], &[(&[T], "yes"), (&[T], "yes"), (&[F], "no")]);
    let c = compress(&t).unwrap();
    assert_faithful(&t, &c);
    assert_eq!(c.rules.len(), 2);
}

#[test]
fn empty_table_is_an_error() {
    let t = DecisionTable::new(vec!["a".to_string()]);
    assert_eq!(compress(&t), Err(Error::EmptyTable));
}

#[test]
fn arity_mismatch_is_an_error() {
    let mut t = DecisionTable::new(vec!["a".to_string(), "b".to_string()]);
    assert_eq!(
        t.add_row(vec![T], "yes"),
        Err(Error::ArityMismatch {
            row: 0,
            expected: 2,
            got: 1
        })
    );
}

#[test]
fn too_many_variables_is_an_error() {
    let vars: Vec<String> = (0..17).map(|i| format!("v{i}")).collect();
    let mut t = DecisionTable::new(vars);
    t.add_row(vec![Any; 17], "x").unwrap();
    assert_eq!(
        compress(&t),
        Err(Error::TooManyVariables { count: 17, max: 16 })
    );
}

#[test]
fn compression_is_deterministic() {
    let t = table(
        &["a", "b", "c"],
        &[
            (&[T, T, Any], "x"),
            (&[T, F, T], "y"),
            (&[F, Any, F], "x"),
            (&[F, T, T], "y"),
        ],
    );
    let c1 = compress(&t).unwrap();
    let c2 = compress(&t).unwrap();
    assert_eq!(c1, c2);
    assert_faithful(&t, &c1);
}

#[test]
fn nested_redundant_conditions_collapse() {
    // Three nested ifs where only the innermost matters:
    //   if (a) { if (b) { if (c) X else Y } else { if (c) X else Y } } ...
    let t = table(
        &["a", "b", "c"],
        &[
            (&[T, T, T], "X"),
            (&[T, T, F], "Y"),
            (&[T, F, T], "X"),
            (&[T, F, F], "Y"),
            (&[F, T, T], "X"),
            (&[F, T, F], "Y"),
            (&[F, F, T], "X"),
            (&[F, F, F], "Y"),
        ],
    );
    let c = compress(&t).unwrap();
    assert_faithful(&t, &c);
    assert_eq!(c.dead_variables, vec!["a", "b"]);
    assert_eq!(c.rules.len(), 2);
}

#[test]
fn markdown_rendering() {
    let t = table(
        &["isAdmin", "legacyFlag"],
        &[
            (&[T, T], "allow"),
            (&[T, F], "allow"),
            (&[F, T], "deny"),
            (&[F, F], "deny"),
        ],
    );
    let md = compress(&t).unwrap().to_markdown();
    assert!(md.contains("| isAdmin | outcome |"), "got:\n{md}");
    assert!(!md.contains("legacyFlag |"), "dead column leaked:\n{md}");
    assert!(md.contains("Dead variables"), "got:\n{md}");
    assert!(md.contains("legacyFlag"), "dead var not listed:\n{md}");
}

#[test]
fn tables_that_observe_the_same_compress_to_the_same() {
    let t = table(&["a", "b"], &[(&[T, Any], "x"), (&[F, T], "y"), (&[F, F], "x")]);
    let u = table(&["a", "b"], &[(&[F, F], "x"), (&[F, T], "y"), (&[T, F], "x"), (&[T, T], "x"), (&[F, T], "y")]);
    assert_eq!(compress(&t).unwrap(), compress(&u).unwrap());
}

#[test]
fn live_variables_are_those_that_rules_consult() {
    let t = table(&["a", "b"], &[(&[T, Any], "x"), (&[F, Any], "y")]);
    let c = compress(&t).unwrap();
    assert_eq!(c.live_variables(), vec!["a"]);
    assert_eq!(c.dead_variables, vec!["b".to_string()]);
}
