use specgraphen::lift::{DecisionExtraction, DecisionExtractor, MethodDecision};
use specgraphen::logic::cube_min::{minimize, BitCube};
use specgraphen::logic::{compress, DecisionTable, Tri};

fn extract(java: &str) -> DecisionExtraction {
    DecisionExtractor::new().unwrap().extract(java).unwrap()
}

fn single(java: &str) -> MethodDecision {
    let mut e = extract(java);
    assert_eq!(e.methods.len(), 1, "skipped: {:?}", e.skipped);
    e.methods.remove(0)
}

#[test]
fn simple_if_else() {
    let m = single(
        r#"
            package com.example;
            class A {
                String m(boolean a) {
                    if (a) { return "x"; } else { return "y"; }
                }
            }
            "#,
    );
    assert_eq!(m.fqn(), "com.example.A.m");
    assert_eq!(m.table.variables(), ["a"]);
    assert_eq!(m.table.rows().len(), 2);
    assert!(!m.incomplete);
}

#[test]
fn redundant_nesting_compresses_to_dead_variable() {
    // `b` is checked but both branches do the same thing
    let m = single(
        r#"
            class A {
                String m(boolean a, boolean b) {
                    if (a) {
                        if (b) { return "x"; } else { return "x"; }
                    }
                    return "y";
                }
            }
            "#,
    );
    let c = compress(&m.table).unwrap();
    assert_eq!(c.dead_variables, vec!["b"]);
    assert_eq!(c.rules.len(), 2);
}

#[test]
fn short_circuit_and_decomposes_paths() {
    let m = single(
        r#"
            class A {
                String m(boolean a, boolean b) {
                    if (a && b) { return "x"; }
                    return "y";
                }
            }
            "#,
    );
    assert_eq!(m.table.variables(), ["a", "b"]);
    // paths: a=T,b=T → x; a=F → y; a=T,b=F → y
    assert_eq!(m.table.rows().len(), 3);
    let y_rows: Vec<_> = m
        .table
        .rows()
        .iter()
        .filter(|r| r.outcome == "return \"y\"")
        .collect();
    assert_eq!(y_rows.len(), 2);
    // the a=F path must not constrain b (short-circuit)
    assert!(y_rows
        .iter()
        .any(|r| r.inputs == vec![Tri::False, Tri::Any]));
}

#[test]
fn negation_flips_branch_value() {
    let m = single(
        r#"
            class A {
                String m(boolean a) {
                    if (!a) { return "x"; }
                    return "y";
                }
            }
            "#,
    );
    assert_eq!(m.table.variables(), ["a"]);
    let x_row = m
        .table
        .rows()
        .iter()
        .find(|r| r.outcome == "return \"x\"")
        .unwrap();
    assert_eq!(x_row.inputs, vec![Tri::False]);
}

#[test]
fn repeated_condition_follows_assigned_value() {
    // The second `if (a)` is unreachable with a different value:
    // no path may yield "y" with a=F, and a=T already returned.
    let m = single(
        r#"
            class A {
                String m(boolean a) {
                    if (a) { return "x"; }
                    if (a) { return "y"; }
                    return "z";
                }
            }
            "#,
    );
    assert!(
        !m.table.rows().iter().any(|r| r.outcome == "return \"y\""),
        "infeasible path was enumerated: {:?}",
        m.table.rows()
    );
    assert_eq!(m.table.rows().len(), 2); // x (a=T), z (a=F)
}

#[test]
fn else_if_chain() {
    let m = single(
        r#"
            class A {
                int m(boolean a, boolean b) {
                    if (a) { return 1; } else if (b) { return 2; }
                    return 3;
                }
            }
            "#,
    );
    assert_eq!(m.table.rows().len(), 3);
    let c = compress(&m.table).unwrap();
    assert!(c.dead_variables.is_empty());
}

#[test]
fn throw_is_an_outcome() {
    let m = single(
        r#"
            class A {
                void m(boolean valid) {
                    if (!valid) { throw new IllegalArgumentException("bad"); }
                }
            }
            "#,
    );
    let outcomes: Vec<_> = m.table.rows().iter().map(|r| r.outcome.as_str()).collect();
    assert!(outcomes
        .iter()
        .any(|o| o.starts_with("throw new IllegalArgumentException")));
    assert!(outcomes.contains(&"(fall-through)"));
}

#[test]
fn loop_with_return_marks_incomplete() {
    let m = single(
        r#"
            class A {
                String m(boolean a, java.util.List<String> xs) {
                    if (a) { return "x"; }
                    for (String x : xs) { if (x.isEmpty()) return "found"; }
                    return "y";
                }
            }
            "#,
    );
    assert!(m.incomplete);
}

#[test]
fn loop_without_exit_is_harmless() {
    let m = single(
        r#"
            class A {
                String m(boolean a, java.util.List<String> xs) {
                    if (a) { return "x"; }
                    for (String x : xs) { System.out.println(x); }
                    return "y";
                }
            }
            "#,
    );
    assert!(!m.incomplete);
    assert_eq!(m.table.rows().len(), 2);
}

#[test]
fn non_branching_method_is_not_reported() {
    let e = extract(
        r#"
            class A {
                int m() { return 1; }
            }
            "#,
    );
    assert!(e.methods.is_empty());
    assert!(e.skipped.is_empty());
}

#[test]
fn too_many_atoms_is_skipped_with_reason() {
    let conditions: String = (0..65)
        .map(|i| format!("if (c{i}) {{ return {i}; }}\n"))
        .collect();
    let java = format!("class A {{ int m() {{ {conditions} return -1; }} }}");
    let e = extract(&java);
    assert!(e.methods.is_empty());
    assert_eq!(e.skipped.len(), 1);
    assert!(e.skipped[0].0.ends_with("A.m"));
    assert!(e.skipped[0].1.contains("distinct conditions"));
}

#[test]
fn merge_respects_later_reuse_of_the_condition() {
    // The first `if (a)` is effect-free, but `a` is tested again later:
    // merging would forge infeasible rows, so it must not happen.
    let m = single(
        r#"
            class A {
                int m(boolean a) {
                    if (a) { logger.info("seen"); }
                    if (a) { return 1; }
                    return 2;
                }
            }
            "#,
    );
    let one = m
        .table
        .rows()
        .iter()
        .find(|r| r.outcome == "return 1")
        .unwrap();
    assert_eq!(one.inputs, vec![Tri::True]);
    let two = m
        .table
        .rows()
        .iter()
        .find(|r| r.outcome == "return 2")
        .unwrap();
    assert_eq!(two.inputs, vec![Tri::False]);
}

#[test]
fn merge_respects_differing_writes() {
    // Branches with different field writes must stay separate paths.
    let m = single(
        r#"
            class A {
                void m(boolean c) {
                    if (c) { this.x = 1; } else { this.x = 2; }
                }
            }
            "#,
    );
    assert_eq!(m.table.rows().len(), 2);
    let c = compress(&m.table).unwrap();
    assert!(c.dead_variables.is_empty());
}

#[test]
fn assignment_to_returned_variable_distinguishes_outcomes() {
    // The BF-batch validation pattern: branches only assign, single return
    let m = single(
        r#"
            class A {
                int m(boolean c1, boolean c2) {
                    int a = 0;
                    if (c1) { a = -1; }
                    if (c2) { a = -1; }
                    return a;
                }
            }
            "#,
    );
    let outcomes: std::collections::HashSet<_> =
        m.table.rows().iter().map(|r| r.outcome.clone()).collect();
    assert!(outcomes.contains("return -1"), "{outcomes:?}");
    assert!(outcomes.contains("return 0"), "{outcomes:?}");
    let c = compress(&m.table).unwrap();
    assert!(
        c.dead_variables.is_empty(),
        "conditions wrongly dead: {:?}",
        c.dead_variables
    );
}

#[test]
fn declaration_initializer_feeds_substitution() {
    let m = single(
        r#"
            class A {
                String m(boolean c) {
                    String r = "A";
                    if (c) { r = "B"; }
                    return r;
                }
            }
            "#,
    );
    let outcomes: Vec<_> = m.table.rows().iter().map(|r| r.outcome.as_str()).collect();
    assert!(outcomes.contains(&"return \"B\""), "{outcomes:?}");
    assert!(outcomes.contains(&"return \"A\""), "{outcomes:?}");
}

#[test]
fn field_write_is_an_observable_outcome() {
    // Setter pattern: previously reported the condition as falsely dead
    let m = single(
        r#"
            class A {
                void setKbn(String x) {
                    if (x.equals("1")) { this.flag = true; }
                }
            }
            "#,
    );
    let c = compress(&m.table).unwrap();
    assert!(
        c.dead_variables.is_empty(),
        "field-writing condition wrongly dead: {:?}",
        c.dead_variables
    );
    assert!(
        m.table
            .rows()
            .iter()
            .any(|r| r.outcome.contains("this.flag = true")),
        "{:?}",
        m.table.rows()
    );
}

#[test]
fn local_only_write_stays_invisible() {
    // A branch that only touches a local has no observable effect:
    // the condition is genuinely dead and must stay so.
    let m = single(
        r#"
            class A {
                void m(boolean c) {
                    int tmp = 0;
                    if (c) { tmp = 1; }
                }
            }
            "#,
    );
    let c = compress(&m.table).unwrap();
    assert_eq!(c.dead_variables, vec!["c"]);
}

#[test]
fn parameter_write_stays_invisible() {
    let m = single(
        r#"
            class A {
                void m(boolean c, int a) {
                    if (c) { a = 1; }
                }
            }
            "#,
    );
    let c = compress(&m.table).unwrap();
    assert_eq!(c.dead_variables, vec!["c"]);
}

#[test]
fn call_only_branch_is_observable() {
    // The legacy error-exit pattern: the branch only logs and calls an
    // exit helper. Previously reported the condition as falsely dead.
    let m = single(
        r#"
            class A {
                void check(String dir) {
                    if (dir.equals("")) {
                        logger.error("missing");
                        abortOnError();
                    }
                }
            }
            "#,
    );
    let c = compress(&m.table).unwrap();
    assert!(c.dead_variables.is_empty(), "{:?}", c.dead_variables);
    assert!(
        m.table
            .rows()
            .iter()
            .any(|r| r.outcome.contains("abortOnError()")),
        "{:?}",
        m.table.rows()
    );
}

#[test]
fn clean_switch_models_as_sequential_cases() {
    let m = single(
        r#"
            class A {
                String m(String code) {
                    switch (code) {
                        case "A": return "alpha";
                        case "B": return "beta";
                        default: return "other";
                    }
                }
            }
            "#,
    );
    assert!(!m.incomplete);
    assert_eq!(m.table.variables(), ["code == \"A\"", "code == \"B\""]);
    assert_eq!(m.table.rows().len(), 3);
    let beta = m
        .table
        .rows()
        .iter()
        .find(|r| r.outcome == "return \"beta\"")
        .unwrap();
    // sequential semantics: case "B" implies case "A" compared false
    assert_eq!(beta.inputs, vec![Tri::False, Tri::True]);
    let c = compress(&m.table).unwrap();
    assert!(c.dead_variables.is_empty());
}

#[test]
fn switch_with_breaks_and_assignments() {
    let m = single(
        r#"
            class A {
                int m(int code) {
                    int r = 0;
                    switch (code) {
                        case 1:
                            r = 10;
                            break;
                        case 2:
                            r = 20;
                            break;
                        default:
                            r = -1;
                            break;
                    }
                    return r;
                }
            }
            "#,
    );
    assert!(!m.incomplete);
    let outcomes: std::collections::HashSet<_> =
        m.table.rows().iter().map(|r| r.outcome.clone()).collect();
    assert!(outcomes.contains("return 10"), "{outcomes:?}");
    assert!(outcomes.contains("return 20"), "{outcomes:?}");
    assert!(outcomes.contains("return -1"), "{outcomes:?}");
}

#[test]
fn stacked_case_labels_share_a_body() {
    let m = single(
        r#"
            class A {
                String m(int x) {
                    switch (x) {
                        case 1:
                        case 2:
                            return "low";
                        default:
                            return "high";
                    }
                }
            }
            "#,
    );
    assert!(!m.incomplete);
    let low: Vec<_> = m
        .table
        .rows()
        .iter()
        .filter(|r| r.outcome == "return \"low\"")
        .collect();
    assert_eq!(low.len(), 2, "{:?}", m.table.rows());
}

#[test]
fn switch_without_default_can_skip_through() {
    let m = single(
        r#"
            class A {
                String m(int x) {
                    switch (x) {
                        case 1: return "one";
                    }
                    return "other";
                }
            }
            "#,
    );
    assert!(!m.incomplete);
    let outcomes: Vec<_> = m.table.rows().iter().map(|r| r.outcome.as_str()).collect();
    assert!(outcomes.contains(&"return \"one\""), "{outcomes:?}");
    assert!(outcomes.contains(&"return \"other\""), "{outcomes:?}");
}

#[test]
fn fall_through_switch_is_not_modeled() {
    // case 1 falls into case 2 (no break) — faithful modeling is not
    // possible, so the old behavior applies: incomplete, no fabrication.
    let m = single(
        r#"
            class A {
                String m(int x, boolean c) {
                    if (c) { return "early"; }
                    switch (x) {
                        case 1:
                            doOne();
                        case 2:
                            doTwo();
                            return "fell";
                        default:
                            return "other";
                    }
                }
            }
            "#,
    );
    assert!(m.incomplete);
    // switch atoms must not appear
    assert_eq!(m.table.variables(), ["c"]);
}

#[test]
fn conditional_break_switch_is_not_modeled() {
    let m = single(
        r#"
            class A {
                int m(int x, boolean c) {
                    int r = 0;
                    if (c) { r = 1; }
                    switch (x) {
                        case 1:
                            if (r == 1) break;
                            return 99;
                        default:
                            break;
                    }
                    return r;
                }
            }
            "#,
    );
    assert!(m.incomplete);
}

#[test]
fn arrow_switch_is_clean_by_construction() {
    let m = single(
        r#"
            class A {
                String m(int x) {
                    switch (x) {
                        case 1 -> { return "one"; }
                        default -> { return "other"; }
                    }
                }
            }
            "#,
    );
    assert!(!m.incomplete);
    assert_eq!(m.table.rows().len(), 2);
}

#[test]
fn system_exit_terminates_the_path() {
    let m = single(
        r#"
            class A {
                String m(boolean c) {
                    if (c) { System.exit(1); }
                    return "ok";
                }
            }
            "#,
    );
    let outcomes: Vec<_> = m.table.rows().iter().map(|r| r.outcome.as_str()).collect();
    assert!(outcomes.contains(&"System.exit(1)"), "{outcomes:?}");
    // the exiting path must NOT also show the unreachable return
    assert!(
        !outcomes
            .iter()
            .any(|o| o.contains("exit") && o.contains("ok")),
        "{outcomes:?}"
    );
}

#[test]
fn configured_terminal_call_terminates_the_path() {
    let java = r#"
            class A {
                String m(boolean c) {
                    if (c) { abortOnError(); }
                    return "ok";
                }
            }
        "#;
    let mut e = DecisionExtractor::new()
        .unwrap()
        .with_terminal_calls(vec!["abortOnError".to_string()]);
    let mut x = e.extract(java).unwrap();
    let m = x.methods.remove(0);
    let outcomes: Vec<_> = m.table.rows().iter().map(|r| r.outcome.as_str()).collect();
    assert!(outcomes.contains(&"abortOnError()"), "{outcomes:?}");
    assert!(outcomes.contains(&"return \"ok\""), "{outcomes:?}");
}

#[test]
fn unconfigured_helper_call_does_not_terminate() {
    // Without configuration the same call is just an effect; the path
    // continues to the return (the pre-2b behavior, still the default).
    let m = single(
        r#"
            class A {
                String m(boolean c) {
                    if (c) { abortOnError(); }
                    return "ok";
                }
            }
            "#,
    );
    assert!(
        m.table
            .rows()
            .iter()
            .any(|r| r.outcome.contains("abortOnError()") && r.outcome.contains("ok")),
        "{:?}",
        m.table.rows()
    );
}

#[test]
fn logging_only_branch_reads_as_no_effect() {
    // A branch that only logs is not business behavior: for spec
    // extraction the condition is correctly reported dead.
    let m = single(
        r#"
            class A {
                void m(boolean c) {
                    if (c) { logger.warn("odd"); }
                }
            }
            "#,
    );
    let c = compress(&m.table).unwrap();
    assert_eq!(c.dead_variables, vec!["c"]);
}

#[test]
fn effects_common_to_all_paths_are_not_shown() {
    // Both paths write this.audit and call init(); only the branch-
    // dependent write should appear in outcome labels.
    let m = single(
        r#"
            class A {
                void m(boolean c) {
                    init();
                    this.audit = "yes";
                    if (c) { this.flag = true; }
                }
            }
            "#,
    );
    for row in m.table.rows() {
        assert!(!row.outcome.contains("audit"), "{}", row.outcome);
        assert!(!row.outcome.contains("init()"), "{}", row.outcome);
    }
    assert!(m
        .table
        .rows()
        .iter()
        .any(|r| r.outcome.contains("this.flag = true")));
}

#[test]
fn extracted_table_round_trips_through_compress() {
    // End-to-end: legacy-looking method where one flag is patch noise
    let m = single(
        r#"
            package com.example;
            class Pricing {
                int discount(boolean member, boolean legacyFlag, boolean campaign) {
                    if (member) {
                        if (legacyFlag) {
                            if (campaign) { return 20; } else { return 10; }
                        } else {
                            if (campaign) { return 20; } else { return 10; }
                        }
                    }
                    if (campaign) { return 5; }
                    return 0;
                }
            }
            "#,
    );
    let c = compress(&m.table).unwrap();
    assert_eq!(c.dead_variables, vec!["legacyFlag"]);
    let md = c.to_markdown();
    assert!(md.contains("member"), "{md}");
    assert!(!md.contains("| legacyFlag |"), "{md}");
}

/// The rules that the cube heuristic finds, outcome by outcome.
fn heuristic_rules(table: &DecisionTable) -> Vec<Vec<Tri>> {
    let n = table.variables().len();
    let mut outcomes: Vec<&str> = table.rows().iter().map(|r| r.outcome.as_str()).collect();
    outcomes.sort();
    outcomes.dedup();
    let mut rules = Vec::new();
    for outcome in outcomes {
        let cubes = |own: bool| -> Vec<BitCube> {
            let rows = table.rows().iter().filter(|r| (r.outcome == outcome) == own);
            rows.map(|r| BitCube::from_tris(&r.inputs)).collect()
        };
        rules.extend(minimize(&cubes(true), &cubes(false), n).into_iter().map(|c| c.to_tris(n)));
    }
    rules
}

fn dead_variables(table: &DecisionTable, rules: &[Vec<Tri>]) -> usize {
    (0..table.variables().len()).filter(|&i| rules.iter().all(|r| r[i] == Tri::Any)).count()
}

#[test]
fn effect_free_conditional_chains_do_not_explode() {
    // 30 sequential log-only ifs would be 2^30 paths without state
    // merging; with it the join collapses every fork.
    let conditions: String = (0..30).map(|i| format!("if (c{i}) {{ logger.info(\"x\"); }}\n")).collect();
    let java = format!("class A {{ String m() {{ {conditions} return \"ok\"; }} }}");
    let mut e = extract(&java);
    assert_eq!(e.methods.len(), 1, "skipped: {:?}", e.skipped);
    let m = e.methods.remove(0);
    assert_eq!(m.table.rows().len(), 1, "{:?}", m.table.rows());
    assert_eq!(m.table.variables().len(), 30);
    let rules = heuristic_rules(&m.table);
    assert_eq!(dead_variables(&m.table, &rules), 30);
}

#[test]
fn wide_method_compresses_via_heuristic() {
    // 20 sequential guard clauses — past the exact limit, but the cube
    // heuristic handles it: each guard becomes one rule.
    let conditions: String = (0..20).map(|i| format!("if (c{i}) {{ return {i}; }}\n")).collect();
    let java = format!("class A {{ int m() {{ {conditions} return -1; }} }}");
    let mut e = extract(&java);
    assert_eq!(e.methods.len(), 1, "skipped: {:?}", e.skipped);
    let m = e.methods.remove(0);
    assert_eq!(m.table.variables().len(), 20);
    assert_eq!(m.table.rows().len(), 21);
    let rules = heuristic_rules(&m.table);
    assert_eq!(rules.len(), 21); // 20 guards + fall-through default
    assert_eq!(dead_variables(&m.table, &rules), 0);
}

#[test]
fn sixty_four_conditions_are_still_followed() {
    let conditions: String = (0..64).map(|i| format!("if (c{i}) {{ return {i}; }}\n")).collect();
    let java = format!("class A {{ int m() {{ {conditions} return -1; }} }}");
    let e = extract(&java);
    assert_eq!(e.methods.len(), 1, "skipped: {:?}", e.skipped);
    assert_eq!(e.methods[0].table.variables().len(), 64);
}
