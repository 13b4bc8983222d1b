use specgraphen::cli::report::RulesReport;
use specgraphen::cli::setup::{
    any_match, choose_llm, count_severity, is_excluded, is_useful, keep_resolutions, key_variable, unique_uses, write_lift_summary,
    LiftCounts,
};
use specgraphen::corroboration::CorroborationStats;
use specgraphen::invariants::{
    report_cycles, AcyclicityCheck, ConsistencyCheck, GroundingCheck, InvariantCheck, InvariantChecker,
    ReachabilityCheck, ViolationSeverity,
};
use specgraphen::lift::debug::{find_method_body, first_line, Replay, ReplayAction, Stop};
use specgraphen::lift::encoding::{decode_shown, decode_source};
use specgraphen::lift::lifter::SourceFile;
use specgraphen::lift::syntax::parse_java;
use specgraphen::lift::{
    DecisionExtractor, DiagnosticSeverity, JavaLifter, LiftConfig, LiftDiagnostic, TagExtractor, TraceResult,
    TraceStatus, TraceStep, UnresolvedInfo,
};
use specgraphen::llm::ProviderType;
use specgraphen::mcp::trace_text::write_trace;
use specgraphen::model::{Confidence, SpaceData};
use specgraphen::query::domain::{report_clusters, DomainCluster};

fn lift(text: &str) -> SpaceData {
    let files = vec![SourceFile {
        path: "/A.java".to_string(),
        rel_path: "A.java".to_string(),
        content: Ok(text.as_bytes().to_vec()),
    }];
    let config = LiftConfig { space_id: "space".to_string(), space_label: "Space".to_string(), ..Default::default() };
    JavaLifter::new().unwrap().lift(&config, &files).unwrap().space_data
}

#[test]
fn lifted_spaces_are_grounded() {
    let data = lift("package p; class A { void m() {} }");
    assert!(GroundingCheck.check(&data).is_empty());
    assert!(ConsistencyCheck.check(&data).is_empty());
    assert!(ReachabilityCheck.check(&data).is_empty());
    assert!(AcyclicityCheck.check(&data).is_empty());
    assert!(InvariantChecker::default_checks().check_all(&data).is_empty());
}

#[test]
fn cells_without_a_witness_are_reported() {
    let mut data = lift("package p; class A { int x; }");
    data.cells[1].provenance = None;
    data.cells[2].provenance.as_mut().unwrap().uri = None;
    let found = GroundingCheck.check(&data);
    assert_eq!(found.len(), 2);
    assert_eq!(found[0].severity, ViolationSeverity::Error);
    assert!(found[0].message.ends_with("' has no provenance (witness)"), "{}", found[0].message);
    assert_eq!(found[0].cell_id.as_deref(), Some(data.cells[1].id.as_str()));
    assert_eq!(found[1].severity, ViolationSeverity::Warning);
    assert!(found[1].message.ends_with("' provenance has no source URI"), "{}", found[1].message);
    assert_eq!(found[1].invariant_name, GroundingCheck.name());
}

#[test]
fn cut_off_cells_are_reported_with_and_without_a_store() {
    let mut data = lift("package p; class A { int x; }");
    data.incidences.clear();
    data.rebuild_store();
    let found = ReachabilityCheck.check(&data);
    assert_eq!(found.len(), data.cells.len() - 1);
    assert!(found[0].message.ends_with("is unreachable from the space root (HG engine)"));
    data.store = None;
    let found = ReachabilityCheck.check(&data);
    assert_eq!(found.len(), data.cells.len() - 1);
    assert!(found[0].message.ends_with("is unreachable from the space root"));
}

#[test]
fn types_that_extend_one_another_are_a_cycle() {
    let data = lift("package p; class A extends B { } class B extends A { }");
    let found = AcyclicityCheck.check(&data);
    assert!(!found.is_empty());
    assert_eq!(found[0].severity, ViolationSeverity::Error);
    assert!(found[0].message.starts_with("Inheritance cycle detected via HG engine: "), "{}", found[0].message);
    let ids = vec![vec![data.cells[1].id.clone(), data.cells[2].id.clone(), "nothing".to_string()]];
    let told = report_cycles(&data.cells, &ids);
    assert_eq!(told[0].cell_id.as_deref(), Some(data.cells[1].id.as_str()));
    assert_eq!(told[0].message, "Inheritance cycle detected via HG engine: A → B");
}

#[test]
fn reports_tell_rules_and_what_was_left_out() {
    let source = "class A { int m(boolean a) { if (a) { return 1; } return 2; } }";
    let extraction = DecisionExtractor::new().unwrap().extract(source).unwrap();
    let mut report = RulesReport::new();
    let text = report.add_methods(extraction, "A.java", &None);
    assert_eq!(
        text,
        "## A.m (A.java:1)\n\n| a | outcome |\n|---|---|\n| T | return 1 |\n| F | return 2 |\n\n"
    );
    assert!(report.found);
    assert_eq!(report.finish(), "");
}

#[test]
fn filters_leave_methods_and_screens_out() {
    let source = "class A { int m(boolean a) { if (a) { return 1; } return 2; } }";
    let extraction = DecisionExtractor::new().unwrap().extract(source).unwrap();
    let mut report = RulesReport::new();
    let filter = Some("B.".to_string());
    assert_eq!(report.add_methods(extraction, "A.java", &filter), "");
    let screen = TagExtractor::new().extract("<c:if test=\"${a}\">x</c:if>");
    assert_eq!(report.add_screen(screen, "list.jsp", &filter), "");
    assert_eq!(report.finish(), "(no branching methods matched)\n");
    let screen = TagExtractor::new().extract("<c:if test=\"${a}\">x</c:if>");
    let text = report.add_screen(screen, "list.jsp", &None);
    assert!(text.starts_with("## list.jsp:1\n\n| "), "{text}");
    report.skipped.push(("A.x".to_string(), "too wide".to_string()));
    assert_eq!(report.finish(), "---\nSkipped methods:\n- A.x: too wide\n");
}

#[test]
fn summaries_count_everything() {
    let counts = LiftCounts { entities: 3, relations: 2, warnings: 1, errors: 0, violations: 4 };
    let mut stats = CorroborationStats::default();
    assert_eq!(
        write_lift_summary(&counts, &stats, ".specgraphen", "shop"),
        "Lift complete:\n  Entities:    3\n  Relations:   2\n  Warnings:    1\n  Errors:      0\n  Invariant violations: 4\n  Stored at:   .specgraphen/spaces/shop/space.json\n"
    );
    stats.corroborated = 5;
    assert!(write_lift_summary(&counts, &stats, "s", "i").contains("\n  LLM corroborated: 5\n  LLM parse fails:  0\n"));
}

#[test]
fn providers_need_a_key() {
    let key = || Some("key".to_string());
    let name = format!("{:?}", ProviderType::Claude).to_lowercase();
    assert!(choose_llm(None, "", key(), None, None, None).is_none());
    assert!(choose_llm(Some(ProviderType::OpenAi), "openai", None, None, None, None).is_none());
    assert!(choose_llm(Some(ProviderType::Claude), &name, None, None, Some("m".to_string()), None).is_none());
    let config = choose_llm(Some(ProviderType::Claude), &name, key(), None, None, None).unwrap();
    assert_eq!(config.model, format!("{name}-sonnet-4-20250514"));
    assert_eq!((config.provider, config.api_key.as_str()), (ProviderType::Claude, "key"));
    let config = choose_llm(Some(ProviderType::OpenAi), "openai", None, key(), None, None).unwrap();
    assert_eq!((config.model.as_str(), config.api_key.as_str()), ("gpt-4o", "key"));
    let other = Some("other".to_string());
    let named = choose_llm(Some(ProviderType::Claude), &name, key(), other, Some("m".to_string()), None).unwrap();
    assert_eq!((named.model.as_str(), named.api_key.as_str()), ("m", "key"));
    assert_eq!(key_variable(ProviderType::OpenAi), "OPENAI_API_KEY");
}

#[test]
fn diagnostics_are_counted_by_severity() {
    let item = |severity| LiftDiagnostic { file: "f".to_string(), message: "m".to_string(), severity };
    let all = vec![
        item(DiagnosticSeverity::Warning),
        item(DiagnosticSeverity::Error),
        item(DiagnosticSeverity::Warning),
    ];
    assert_eq!(count_severity(&all, DiagnosticSeverity::Warning), 2);
    assert_eq!(count_severity(&all, DiagnosticSeverity::Error), 1);
}

#[test]
fn only_mappers_are_useful_xml() {
    assert!(is_useful(false, "create table t"));
    assert!(is_useful(true, "<?xml?><mapper namespace=\"x\">"));
    assert!(!is_useful(true, "<project/>"));
}

#[test]
fn uses_at_one_place_are_asked_once() {
    let place = |line, column| UnresolvedInfo {
        target_text: "x".to_string(),
        file: "A.java".to_string(),
        line,
        column,
    };
    let kept = unique_uses(&vec![place(1, 2), place(1, 3), place(1, 2)]);
    assert_eq!(kept.len(), 2);
    assert_eq!((kept[1].line, kept[1].column), (1, 3));
}

#[test]
fn the_first_answer_resolves_a_use() {
    let name = |text: &str| UnresolvedInfo { target_text: text.to_string(), file: "A.java".to_string(), line: 1, column: 1 };
    let answers = vec![vec!["p.X.a".to_string(), "p.Y.a".to_string()], vec![], vec!["p.Z.a".to_string()]];
    let cache = keep_resolutions(&vec![name("a"), name("b"), name("a")], &answers);
    assert_eq!(cache.len(), 1);
    assert_eq!(cache.get("a").unwrap(), "p.Z.a");
}

#[test]
fn patterns_exclude_paths() {
    let patterns = vec!["**/target/**".to_string(), "[".to_string()];
    assert!(is_excluded("/a/target/B.java", &patterns));
    assert!(!is_excluded("/a/src/B.java", &patterns));
    assert!(!is_excluded("/a/src/B.java", &vec![]));
    assert!(any_match(&vec![None, Some(false), Some(true)]));
    assert!(!any_match(&vec![None, Some(false)]));
}

#[test]
fn bytes_are_decoded() {
    assert_eq!(decode_source("字".as_bytes()), "字");
    assert_eq!(decode_source(&[0x8e, 0x9a]), "字");
    assert_eq!(decode_source(&[0xbb, 0xfa]), "字");
    assert_eq!(decode_shown("字".as_bytes()), "字");
    assert_eq!(decode_shown(&[0x8e, 0x9a]), "字");
}

#[test]
fn replays_take_choices_in_order() {
    let mut replay = Replay::start(vec![1, 0]);
    assert_eq!(replay.decide(true), ReplayAction::Choose(1));
    assert_eq!(replay.decide(false), ReplayAction::Step);
    let step = TraceStep { line: 3, text: "x();".to_string() };
    assert!(replay.record(Some(step), Stop::Stepped).is_none());
    assert_eq!(replay.decide(true), ReplayAction::Choose(0));
    assert_eq!(replay.decide(true), ReplayAction::Await);
    assert!(matches!(replay.record(None, Stop::FallThrough), Some(TraceStatus::FallThrough)));
    assert_eq!((replay.executed.len(), replay.steps), (1, 2));
    while replay.steps < 2000 {
        replay.record(None, Stop::Branch);
    }
    assert_eq!(replay.decide(false), ReplayAction::Cap);
}

#[test]
fn bodies_are_found_by_line() {
    let tree = parse_java("class A {\n  abstract void a();\n  int m() {\n    return 1; }\n}").unwrap();
    assert!(find_method_body(&tree, 2).is_none());
    let (lo, _) = find_method_body(&tree, 3).unwrap();
    assert!(tree.is_kind(lo, "block"));
    assert_eq!(first_line("if (a)   {\n  b();"), "if (a) {");
    assert_eq!(first_line(""), "");
}

#[test]
fn traces_are_written_out() {
    let result = TraceResult {
        executed: vec![TraceStep { line: 2, text: "int a = 0;".to_string() }],
        variables: vec![("a".to_string(), "0".to_string())],
        context_rules: vec!["b".to_string(), "!c".to_string()],
        call_stack: vec!["m".to_string(), "n".to_string()],
        status: TraceStatus::AwaitingChoice { branches: vec!["d".to_string(), "!d".to_string()] },
        incomplete: false,
    };
    assert_eq!(
        write_trace("A.m", "A.java", 1, &[1, 0], &result),
        "# Debug trace: A.m (A.java:1)\n\nChoices replayed: [1, 0]\n\n## Executed\n- L2  int a = 0;\n\n## State\n- Call stack: m › n\n- Variables: a = 0\n- Context Rules: b ∧ !c\n\n## Status\nPaused at a branch — choose a world line by appending its index to `choices`:\n- 0: d\n- 1: !d\n"
    );
    let empty = TraceResult {
        executed: vec![],
        variables: vec![],
        context_rules: vec![],
        call_stack: vec![],
        status: TraceStatus::Terminated { outcome: "return 1".to_string() },
        incomplete: true,
    };
    let text = write_trace("A.m", "A.java", 1, &[], &empty);
    assert!(text.contains("(nothing — already at a branch or the start)\n"));
    assert!(text.contains("> ⚠ incomplete: "));
    assert!(text.ends_with("## Status\nTerminated → return 1\n"));
}

#[test]
fn clusters_over_packages_are_drifts() {
    let cluster = |packages: &[&str]| DomainCluster {
        member_fqns: vec!["p.A".to_string()],
        packages: packages.iter().map(|p| p.to_string()).collect(),
        confidence: Confidence { bits: 0.5f64.to_bits() },
        persistence_lifetime: 3,
    };
    let r = report_clusters(vec![cluster(&["p"]), cluster(&["p", "q"])]);
    assert_eq!((r.cluster_count, r.boundary_drift_count), (2, 1));
    assert!(!r.clusters[0].crosses_package_boundary);
    assert!(r.clusters[1].crosses_package_boundary);
}
