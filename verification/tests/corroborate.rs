use specgraphen::corroboration::completion::{run_obstruction_completion, split_candidates};
use specgraphen::corroboration::confidence::{
    compute_corroboration, supporting_evidence, DeterministicFacts, LlmAnnotation,
};
use specgraphen::corroboration::correspondence::{
    build_typed_relations_from_incidences, check_derivation_correspondence, summarize, CandidateFacts, GluingOutcome,
    TypedRelation,
};
use specgraphen::corroboration::engine::{can_name_evidence, LlmReply};
use specgraphen::corroboration::fusion::merge_annotations;
use specgraphen::corroboration::{CorrespondenceAgreement, CorroborationConfig, CorroborationEngine};
use specgraphen::lift::lifter::SourceFile;
use specgraphen::lift::{JavaLifter, LiftConfig};
use specgraphen::llm::{behavior_extraction_prompt, LlmConfig, MessageRole, ProviderType, ResponseFormat};
use specgraphen::model::graph::{at_least, less};
use specgraphen::model::{Confidence, SemanticAnnotation, SpaceData};

const CODE: &str = "package p;\n\npublic class Shop {\n    private int stock;\n\n    public void sell() {\n        check();\n        printer.print();\n    }\n\n    private void check() {\n    }\n}\n";

fn space() -> SpaceData {
    let files = vec![SourceFile {
        path: "/Shop.java".to_string(),
        rel_path: "Shop.java".to_string(),
        content: Ok(CODE.as_bytes().to_vec()),
    }];
    let config = LiftConfig { space_id: "shop".to_string(), space_label: "Shop".to_string(), ..Default::default() };
    JavaLifter::new().unwrap().lift(&config, &files).unwrap().space_data
}

fn cell_of(data: &SpaceData, fqn: &str) -> String {
    data.fqn_to_cell_id.get(fqn).unwrap().clone()
}

fn facts() -> DeterministicFacts {
    DeterministicFacts {
        entity_type: "method".to_string(),
        label: "sell".to_string(),
        has_provenance: true,
        caller_count: 0,
        callee_count: 1,
    }
}

#[test]
fn a_reply_is_read_field_by_field() {
    let a = LlmAnnotation::from_json(
        "{\"intent\": \"sells\", \"preconditions\": [\"stock\", 4], \"side_effects\": \"none\", \"witnesses\": [{}]}",
    )
    .unwrap();
    assert_eq!(a.intent, "sells");
    assert_eq!(a.behavior, "");
    assert_eq!(a.preconditions, vec!["stock".to_string()]);
    assert!(a.postconditions.is_empty());
    assert!(a.side_effects.is_empty());
    assert!(a.has_witnesses);
    assert!(LlmAnnotation::from_json("no json").is_none());
    assert!(!LlmAnnotation::from_json("[]").unwrap().has_witnesses);
}

#[test]
fn evidence_raises_the_posterior() {
    let full = LlmAnnotation::from_json(
        "{\"intent\": \"sells\", \"preconditions\": [\"a\"], \"side_effects\": [\"b\"], \"witnesses\": [1]}",
    )
    .unwrap();
    let evidence = supporting_evidence(&full, "c1");
    let ids: Vec<_> = evidence.iter().map(|e| e.id.as_str()).collect();
    assert_eq!(ids, vec!["c1:witness", "c1:intent", "c1:precond", "c1:sideeffects"]);
    let outcome = compute_corroboration(&facts(), &full, "c1");
    let odds = (0.85 / 0.25) * (0.7 / 0.4) * (0.75 / 0.35) * (0.75 / 0.35);
    let posterior = f64::from_bits(outcome.posterior.bits);
    assert!((posterior - odds / (1.0 + odds)).abs() < 1e-9, "{posterior}");
    assert!(outcome.discrepancies.is_empty());
    assert_eq!(outcome.annotation.intent.as_deref(), Some("sells"));
    assert_eq!(outcome.annotation.behavior, None);
}

#[test]
fn without_evidence_the_prior_stays() {
    let empty = LlmAnnotation::from_json("{}").unwrap();
    let outcome = compute_corroboration(&facts(), &empty, "c1");
    assert_eq!(f64::from_bits(outcome.posterior.bits), 0.5);
    assert_eq!(outcome.discrepancies, vec!["LLM annotation lacks witness citations".to_string()]);
}

#[test]
fn doubles_compare_by_their_bits() {
    let numbers = [-2.0, -0.5, -0.0, 0.0, 0.25, 0.5, 1.0, f64::INFINITY, f64::NEG_INFINITY, f64::NAN];
    for a in numbers {
        for b in numbers {
            assert_eq!(less(a.to_bits(), b.to_bits()), a < b, "{a} < {b}");
            assert_eq!(at_least(a.to_bits(), b.to_bits()), a >= b, "{a} >= {b}");
        }
    }
}

#[test]
fn candidates_split_by_confidence() {
    let all: Vec<_> = [0.9, 0.8, 0.5, 0.4, 0.1].iter().map(|c: &f64| Confidence { bits: c.to_bits() }).collect();
    let stats = split_candidates(&all, 0.8f64.to_bits(), 0.4f64.to_bits());
    assert_eq!((stats.candidates, stats.auto_accepted, stats.auto_rejected, stats.pending), (5, 2, 1, 2));
}

#[test]
fn unresolved_references_become_pending_candidates() {
    let data = space();
    assert!(!data.unresolved.is_empty());
    let n = data.unresolved.len();
    let stats = run_obstruction_completion(&data, 0.8f64.to_bits(), 0.4f64.to_bits()).unwrap();
    assert_eq!((stats.candidates, stats.auto_accepted, stats.auto_rejected, stats.pending), (n, 0, 0, n));
    let eager = run_obstruction_completion(&data, 0.5f64.to_bits(), 0.4f64.to_bits()).unwrap();
    assert_eq!(eager.auto_accepted, n);
    let strict = run_obstruction_completion(&data, 0.8f64.to_bits(), 0.6f64.to_bits()).unwrap();
    assert_eq!(strict.auto_rejected, n);
}

#[test]
fn nothing_unresolved_gives_no_candidates() {
    let mut data = space();
    data.unresolved.clear();
    let stats = run_obstruction_completion(&data, 0.8f64.to_bits(), 0.4f64.to_bits()).unwrap();
    assert_eq!(stats.candidates, 0);
}

#[test]
fn a_cell_that_is_no_identifier_stops_completion() {
    let mut data = space();
    let name = data.unresolved[0].from_fqn.clone();
    data.fqn_to_cell_id.insert(name, " ".to_string());
    let error = run_obstruction_completion(&data, 0, 0).err().unwrap();
    assert_eq!(error, "invalid_id: invalid id \" \": identifier must not be empty after trimming");
}

#[test]
fn annotations_are_laid_over_one_another() {
    let base = SemanticAnnotation {
        intent: Some("old".to_string()),
        preconditions: vec!["a".to_string()],
        ..Default::default()
    };
    let overlay = SemanticAnnotation {
        intent: Some("new".to_string()),
        postconditions: vec!["b".to_string()],
        ..Default::default()
    };
    let merged = merge_annotations(&base, &overlay);
    assert_eq!(merged.intent.as_deref(), Some("new"));
    assert_eq!(merged.preconditions, vec!["a".to_string()]);
    assert_eq!(merged.postconditions, vec!["b".to_string()]);
}

#[test]
fn candidates_sum_up_to_an_agreement() {
    let candidate = |overlaps, differences, gluing| CandidateFacts { overlaps, differences, gluing };
    assert_eq!(summarize("c", &vec![]).agreement, CorrespondenceAgreement::NoCorrespondence);
    let agreeing = summarize("c", &vec![candidate(2, 0, Some(GluingOutcome::Success))]);
    assert_eq!(agreeing.agreement, CorrespondenceAgreement::Agreeing);
    assert_eq!((agreeing.cell_id.as_str(), agreeing.overlap_count, agreeing.difference_count), ("c", 2, 0));
    let partly = vec![candidate(2, 1, Some(GluingOutcome::Success)), candidate(1, 0, None)];
    assert_eq!(summarize("c", &partly).agreement, CorrespondenceAgreement::PartialAgreement);
    assert_eq!(summarize("c", &partly).overlap_count, 3);
    let failed = vec![candidate(2, 0, Some(GluingOutcome::Success)), candidate(1, 1, Some(GluingOutcome::Failure))];
    assert_eq!(summarize("c", &failed).agreement, CorrespondenceAgreement::Conflicting);
    let open = vec![candidate(2, 0, Some(GluingOutcome::Candidate))];
    assert_eq!(summarize("c", &open).agreement, CorrespondenceAgreement::PartialAgreement);
}

#[test]
fn relations_are_named_by_both_ends() {
    let data = space();
    let cell = cell_of(&data, "p.Shop.check");
    let relations = build_typed_relations_from_incidences(&data, &cell);
    assert!(
        relations.iter().any(|r| r.subject == "p.Shop.sell" && r.relation == "java.calls" && r.object == cell),
        "{relations:?}"
    );
    assert!(relations.iter().any(|r| r.subject == cell && r.object == "p.Shop"), "{relations:?}");
}

#[test]
fn derivations_of_one_cell_correspond() {
    let data = space();
    let relation = || TypedRelation {
        subject: "p.Shop.sell".to_string(),
        relation: "java.calls".to_string(),
        object: "p.Shop.check".to_string(),
    };
    let same = check_derivation_correspondence(&data, "cell:1", vec![relation()], vec![relation()]).unwrap();
    assert_eq!(same.cell_id, "cell:1");
    assert_eq!(same.agreement, CorrespondenceAgreement::Conflicting);
    assert_eq!((same.overlap_count, same.difference_count), (3, 1));
    let silent = check_derivation_correspondence(&data, "cell:1", vec![], vec![]).unwrap();
    assert_eq!(silent.agreement, CorrespondenceAgreement::PartialAgreement);
    assert_eq!((silent.overlap_count, silent.difference_count), (1, 0));
    let error = check_derivation_correspondence(&data, "", vec![], vec![]).err().unwrap();
    assert_eq!(error, "invalid_id: invalid id \"\": identifier must not be empty after trimming");
    let inner = check_derivation_correspondence(&data, "\nx", vec![], vec![]).err().unwrap();
    assert!(inner.ends_with("identifier must not contain control characters"), "{inner}");
}

#[test]
fn without_a_model_every_entity_is_annotated_emptily() {
    let engine = CorroborationEngine::new(CorroborationConfig::default());
    assert!(!engine.asks_model(false));
    assert!(engine.asks_model(true));
    let mut data = space();
    let n = data.entities.len();
    let stats = engine.deterministic_pass(&mut data);
    assert_eq!(stats.deterministic_only, n);
    assert_eq!(data.annotations.len(), n);
}

#[test]
fn the_model_is_asked_about_types_and_methods_with_sources() {
    let mut engine = CorroborationEngine::new(CorroborationConfig::default());
    let data = space();
    let (none, missing) = engine.plan(&data);
    assert!(none.is_empty());
    assert_eq!(missing, 3);
    engine.load_source("Shop.java".to_string(), CODE.to_string());
    let (tasks, missing) = engine.plan(&data);
    assert_eq!((tasks.len(), missing), (3, 0));
    assert!(tasks[0].request.messages[0].content.starts_with("Analyze this Java Class `"));
}

#[test]
fn replies_are_taken_in() {
    let engine = CorroborationEngine::new(CorroborationConfig::default());
    let mut data = space();
    let cell = cell_of(&data, "p.Shop.sell");
    assert!(can_name_evidence(&cell));
    assert!(!can_name_evidence("a\u{0}"));
    let before = data.obstructions.len();
    let replies = vec![
        LlmReply::Answer { cell_id: cell.clone(), content: "{\"intent\": \"sells\"}".to_string() },
        LlmReply::Answer { cell_id: cell.clone(), content: "oops".to_string() },
        LlmReply::Failure { cell_id: cell.clone(), reason: "timeout".to_string() },
        LlmReply::Lost,
    ];
    let stats = engine.corroborate(&mut data, &replies, 2);
    assert_eq!(stats.corroborated, 1);
    assert_eq!(stats.with_discrepancies, 1);
    assert_eq!(stats.parse_failures, 1);
    assert_eq!(stats.llm_errors, 2);
    assert_eq!(stats.no_source, 2);
    assert_eq!(data.annotations.get(&cell).unwrap().intent.as_deref(), Some("sells"));
    assert_eq!(data.obstructions[before], format!("LLM response parse failure for {cell}"));
    assert_eq!(data.obstructions[before + 1], format!("LLM error for {cell}: timeout"));
}

#[test]
fn thresholds_are_eight_and_four_tenths() {
    let config = CorroborationConfig::default();
    assert_eq!(f64::from_bits(config.high_confidence_threshold), 0.8);
    assert_eq!(f64::from_bits(config.low_confidence_threshold), 0.4);
    assert_eq!(config.max_concurrent_llm_calls, 5);
}

#[test]
fn the_prompt_holds_code_and_context() {
    let plain = behavior_extraction_prompt("sell", "Method", "void sell() {}", &[]);
    assert_eq!(plain.messages.len(), 1);
    assert_eq!(plain.messages[0].role, MessageRole::User);
    assert_eq!(plain.messages[0].content, "Analyze this Java Method `sell`:\n\n```java\nvoid sell() {}\n```");
    assert_eq!(plain.max_tokens, 2048);
    assert_eq!(f32::from_bits(plain.temperature_bits), 0.0);
    assert_eq!(plain.response_format, Some(ResponseFormat::JsonObject));
    assert!(plain.system_prompt.starts_with("You are a precise Java code analyzer."));
    assert!(plain.system_prompt.ends_with("[start_line, end_line]}]\n}"));
    let more = behavior_extraction_prompt("sell", "Method", "x", &["a".to_string(), "b".to_string()]);
    assert!(more.messages[0].content.ends_with("\n```\n\n## Related code:\na\n---\nb"));
    let config = LlmConfig::default();
    assert_eq!(config.provider, ProviderType::Claude);
    assert_eq!(config.max_tokens, 4096);
}
