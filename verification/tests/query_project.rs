use specgraphen::lift::lifter::SourceFile;
use specgraphen::lift::{JavaLifter, LiftConfig};
use specgraphen::model::{Confidence, SemanticAnnotation, Space, SpaceData};
use specgraphen::query::crud_lines::{called_method_on, repository_bindings};
use specgraphen::query::hotspots::decision_points;
use specgraphen::query::places::read_range;
use specgraphen::query::projection::spec_loss_report;
use specgraphen::query::QueryEngine;
use specgraphen::text_map::TextMap;

fn source(path: &str, text: &str) -> SourceFile {
    SourceFile { path: format!("/project/{path}"), rel_path: path.to_string(), content: Ok(text.as_bytes().to_vec()) }
}

fn sources() -> Vec<SourceFile> {
    vec![
        source(
            "src/main/java/com/example/model/User.java",
            "package com.example.model;\n\npublic class User {\n    private Long id;\n    private String name;\n    private String email;\n\n    public User(String name, String email) {\n        this.name = name;\n        this.email = email;\n    }\n\n    public Long getId() {\n        return id;\n    }\n\n    public String getName() {\n        return name;\n    }\n\n    public String getEmail() {\n        return email;\n    }\n}\n",
        ),
        source(
            "src/main/java/com/example/repository/UserRepository.java",
            "package com.example.repository;\n\nimport com.example.model.User;\n\npublic interface UserRepository {\n    User save(User user);\n    User findById(Long id);\n    void delete(User user);\n}\n",
        ),
        source(
            "src/main/java/com/example/exception/ValidationException.java",
            "package com.example.exception;\n\npublic class ValidationException extends RuntimeException {\n    public ValidationException(String message) {\n        super(message);\n    }\n}\n",
        ),
        source(
            "src/main/java/com/example/service/NotificationService.java",
            "package com.example.service;\n\nimport com.example.model.User;\n\npublic class NotificationService {\n    public void notifyUser(User user) {\n        System.out.println(\"Welcome \" + user.getEmail());\n    }\n}\n",
        ),
        source(
            "src/main/java/com/example/service/UserService.java",
            "package com.example.service;\n\nimport com.example.model.User;\nimport com.example.repository.UserRepository;\nimport com.example.exception.ValidationException;\n\npublic class UserService {\n    private final UserRepository repository;\n    private final NotificationService notificationService;\n\n    public UserService(UserRepository repository, NotificationService notificationService) {\n        this.repository = repository;\n        this.notificationService = notificationService;\n    }\n\n    public User createUser(String name, String email) {\n        if (name == null || name.isEmpty()) {\n            throw new ValidationException(\"Name is required\");\n        }\n        if (email == null) {\n            throw new ValidationException(\"Email is required\");\n        }\n        User user = new User(name, email);\n        return repository.save(user);\n    }\n\n    public User getUser(Long id) {\n        User user = repository.findById(id);\n        if (user == null) {\n            throw new ValidationException(\"User not found\");\n        }\n        return user;\n    }\n\n    public void deleteUser(Long id) {\n        User user = getUser(id);\n        repository.delete(user);\n    }\n}\n",
        ),
    ]
}

fn config(space_id: &str) -> LiftConfig {
    LiftConfig { space_id: space_id.to_string(), space_label: "Test Project".to_string(), ..Default::default() }
}

fn build_engine() -> QueryEngine {
    let mut lifter = JavaLifter::new().expect("Failed to create lifter");
    QueryEngine::new(lifter.lift(&config("test"), &sources()).expect("Lift failed").space_data)
}

fn build_engine_with_sources() -> QueryEngine {
    let mut map: TextMap<String> = TextMap::new();
    for file in sources() {
        map.insert(file.rel_path, String::from_utf8(file.content.unwrap()).unwrap());
    }
    build_engine().with_sources(map)
}

#[test]
fn extracts_repository_bindings_and_calls() {
    let source = "public class S { private final UserRepository repository;\n\
                  public S(OrderDao orderDao) {} }";
    let bindings = repository_bindings(source);
    assert!(bindings.contains(&("repository".to_string(), "User".to_string())));
    assert!(bindings.contains(&("orderDao".to_string(), "Order".to_string())));
    assert_eq!(called_method_on("return repository.save(user);", "repository"), Some("save".to_string()));
    assert_eq!(called_method_on("myrepository.save(x)", "repository"), None);
}

#[test]
fn counts_decision_points_with_boundaries() {
    assert_eq!(decision_points("if (a && b) {"), 2);
    assert_eq!(decision_points("notifyAll(); // modifier"), 0);
    assert_eq!(decision_points("} catch (Exception e) {"), 1);
    assert_eq!(decision_points("String gift = forty;"), 0);
}

#[test]
fn reports_sections_and_severity() {
    let engine = build_engine();
    let r = spec_loss_report(engine.space_data()).unwrap();
    assert!(r.projected_sections > 0, "fixture has class entities");
    assert!(matches!(r.risk_severity.as_str(), "low" | "medium" | "high"));
    assert!(r.total_sources >= r.projected_sections);
    assert_eq!(r.risk_severity, "high");
    assert_eq!((r.total_sources, r.projected_sections, r.omitted_count), (28, 5, 10));
    assert_eq!((r.collapsed_pair_count, r.missing_loss_declarations), (28, 15));
    assert_eq!(r.omitted_examples[0], "com.example.model");
    assert_eq!(r.obstructions, vec!["UndeclaredProjectionLoss".to_string()]);
}

#[test]
fn empty_space_is_low_risk() {
    let space = Space {
        id: "empty".to_string(),
        name: "empty".to_string(),
        cell_ids: vec![],
        incidence_ids: vec![],
    };
    let sd = SpaceData::new(space, vec![], vec![], vec![], vec![], TextMap::new());
    let r = spec_loss_report(&sd).unwrap();
    assert_eq!(r.projected_sections, 0);
    assert_eq!(r.risk_severity, "low");
}

#[test]
fn a_blank_intent_makes_no_section() {
    let mut engine = build_engine();
    let annotation = SemanticAnnotation { intent: Some("  ".to_string()), ..Default::default() };
    engine.annotate_by_fqn("com.example.model.User", annotation).unwrap();
    let error = engine.spec_loss_report().err().unwrap();
    assert!(error.starts_with("HG projection error: "), "{error}");
    assert!(error.contains("body"), "{error}");
}

#[test]
fn test_column_usage_plain_java_class() {
    let engine = build_engine_with_sources();
    let result = engine.column_usage("User").expect("column_usage failed");
    assert_eq!(result.table_class, "com.example.model.User");
    let email = result.columns.iter().find(|c| c.field_name == "email").expect("email column should be present");
    assert_eq!(email.data_type, "String");
    assert_eq!(email.column_name, "email");
    assert!(!email.readers.is_empty(), "getEmail() callers should be detected as readers");
    let id = result.columns.iter().find(|c| c.field_name == "id").expect("id column should be present");
    assert_eq!(id.data_type, "Long");
}

#[test]
fn test_explain_method() {
    let engine = build_engine();
    let result = engine.explain("com.example.service.UserService.createUser").expect("explain failed");
    assert_eq!(result.symbol, "com.example.service.UserService.createUser");
    assert_eq!(result.entity_type, "java.method");
    assert_eq!(result.signature, "createUser(String, String)");
    assert!(!result.witnesses.is_empty(), "Should have witnesses");
    assert!(result.witnesses[0].start_line > 0, "Witness should have line number");
}

#[test]
fn test_explain_class() {
    let result = build_engine().explain("com.example.model.User").expect("explain failed");
    assert_eq!(result.entity_type, "java.class");
}

#[test]
fn test_explain_interface() {
    let result = build_engine().explain("com.example.repository.UserRepository").expect("explain failed");
    assert_eq!(result.entity_type, "java.interface");
}

#[test]
fn test_explain_short_name() {
    let result = build_engine().explain("UserService").expect("explain failed");
    assert!(result.symbol.ends_with("UserService"));
}

#[test]
fn test_explain_not_found() {
    assert!(build_engine().explain("com.example.NonExistent").is_err());
}

#[test]
fn test_callees_delete_user() {
    let result = build_engine().callees("com.example.service.UserService.deleteUser").expect("callees failed");
    assert!(!result.relations.is_empty(), "deleteUser should have callees");
    let callees: Vec<_> = result.relations.iter().map(|r| r.target.as_str()).collect();
    assert!(callees.iter().any(|f| f.contains("getUser")), "deleteUser should call getUser. Found: {callees:?}");
}

#[test]
fn test_callers_returns_results() {
    let result = build_engine().callers("com.example.service.UserService.getUser").expect("callers failed");
    let callers: Vec<_> = result.relations.iter().map(|r| r.target.as_str()).collect();
    assert!(callers.iter().any(|f| f.contains("deleteUser")), "Found: {callers:?}");
}

#[test]
fn test_explain_has_callees_as_fqn() {
    let result = build_engine().explain("com.example.service.UserService.createUser").expect("explain failed");
    for callee in &result.callees {
        assert!(callee.contains('.'), "Callee should be FQN, got: {callee}");
    }
}

#[test]
fn test_overview() {
    let result = build_engine().overview();
    assert!(result.total_entities > 0);
    assert!(result.total_relations > 0);
    assert!(result.total_files > 0);
    assert!(!result.entities_by_type.is_empty());
    assert!(!result.packages.is_empty());
    let kinds: Vec<_> = result.entities_by_type.iter().map(|t| t.name.as_str()).collect();
    assert!(kinds.contains(&"java.class"));
    assert!(kinds.contains(&"java.method"));
}

#[test]
fn test_search_by_name() {
    let result = build_engine().search("User", None, 50);
    assert!(result.total_matches > 0, "Should find User-related entities");
    assert!(result.matches.iter().any(|m| m.fqn.contains("UserService")), "Should find UserService");
}

#[test]
fn test_search_with_type_filter() {
    let result = build_engine().search("User", Some("interface"), 50);
    assert!(!result.matches.is_empty());
    for m in &result.matches {
        assert_eq!(m.entity_type, "java.interface", "Should only return interfaces");
    }
}

#[test]
fn test_feature_analysis() {
    let result = build_engine().feature("User").expect("feature failed");
    assert!(!result.matched_classes.is_empty(), "Should find User classes");
    assert!(result.matched_classes.iter().any(|c| c.fqn.contains("UserService")), "Should include UserService");
    assert!(result.total_methods > 0);
}

#[test]
fn test_feature_not_found() {
    assert!(build_engine().feature("NonExistentFeature").is_err());
}

#[test]
fn test_impact_analysis() {
    let result = build_engine().impact("com.example.service.UserService.getUser", 3).expect("impact failed");
    assert_eq!(result.changed_symbol, "com.example.service.UserService.getUser");
    assert!(
        result.direct_impacts.iter().any(|i| i.fqn.contains("deleteUser")),
        "getUser change should impact deleteUser. Found: {:?}",
        result.direct_impacts.iter().map(|i| &i.fqn).collect::<Vec<_>>()
    );
}

#[test]
fn impact_without_a_store_finds_the_same_callers() {
    let mut engine = build_engine();
    engine.space_data.store = None;
    let result = engine.impact("com.example.service.UserService.getUser", 3).unwrap();
    assert!(result.direct_impacts.iter().any(|i| i.fqn.contains("deleteUser")));
}

#[test]
fn test_unknowns() {
    let result = build_engine().unknowns(None);
    assert_eq!(result.scope, "all");
}

#[test]
fn test_annotate_and_explain() {
    let mut engine = build_engine();
    engine
        .annotate_by_fqn(
            "com.example.service.UserService.createUser",
            SemanticAnnotation {
                intent: Some("Create a new user with validation".to_string()),
                behavior: Some("Validates name and email, creates User, saves via repository".to_string()),
                preconditions: vec!["name must not be null or empty".to_string()],
                postconditions: vec!["user is persisted".to_string()],
                invariants: Vec::new(),
                side_effects: vec!["writes to repository".to_string()],
                error_behavior: Some("throws ValidationException on invalid input".to_string()),
            },
        )
        .expect("annotate failed");
    let result = engine.explain("com.example.service.UserService.createUser").expect("explain failed");
    assert!(result.intent.is_some(), "Should have intent after annotation");
    assert_eq!(result.intent.unwrap().value, "Create a new user with validation");
    assert!(result.behavior.is_some());
    assert!(!result.preconditions.is_empty());
    assert!(!result.side_effects.is_empty());
    assert!(result.error_behavior.is_some());
}

#[test]
fn an_unknown_name_is_not_annotated() {
    let mut engine = build_engine();
    let error = engine.annotate_by_fqn("com.example.Nothing", SemanticAnnotation::default()).err().unwrap();
    assert_eq!(error, "FQN not found: com.example.Nothing");
}

#[test]
fn calls_are_reachable_and_extension_is_not() {
    let engine = build_engine();
    let calls = engine.enforces("com.example.service.UserService.deleteUser", "java.calls", 5).unwrap();
    assert_eq!(calls.status, "satisfied");
    let other = engine.enforces("com.example.service.UserService.deleteUser", "no.such.relation", 5).unwrap();
    assert_eq!(other.status, "violated");
    assert_eq!(
        other.obstructions,
        vec!["RequiredEventMissing: no required event was reachable from the initial states".to_string()]
    );
    assert_eq!(other.visited[0], "com.example.service.UserService.deleteUser");
    assert!(engine.enforces("com.example.Nothing", "java.calls", 5).is_err());
    assert!(engine.enforces("com.example.model.User", "  ", 5).is_err());
}

#[test]
fn extracted_cells_are_ninety_five_percent_sure() {
    let engine = build_engine();
    let bits = 0.95f64.to_bits();
    assert!(engine.space_data().cells.iter().all(|c| c.provenance.as_ref().unwrap().confidence == Confidence { bits }));
}

#[test]
fn a_snapshot_holds_the_annotations() {
    let mut engine = build_engine();
    let annotation = SemanticAnnotation { intent: Some("users".to_string()), ..Default::default() };
    engine.annotate_by_fqn("com.example.model.User", annotation).unwrap();
    let snapshot = engine.save_snapshot();
    assert_eq!(snapshot.annotations.len(), 1);
    assert!(snapshot.store.is_none());
    assert!(!snapshot.unresolved.is_empty());
    assert_eq!(snapshot.unresolved.len(), engine.space_data().unresolved.len());
    assert_eq!(snapshot.cells.len(), engine.space_data().cells.len());
}

#[test]
fn the_store_changes_nothing_about_impact() {
    let with_store = build_engine();
    let mut without = build_engine();
    without.space_data.store = None;
    for i in 0..with_store.space_data().fqn_to_cell_id.len() {
        let name = with_store.space_data().fqn_to_cell_id.key_at(i).clone();
        let mut names = Vec::new();
        for engine in [&with_store, &without] {
            let r = engine.impact(&name, 2).unwrap();
            let mut all: Vec<_> =
                r.direct_impacts.iter().chain(r.transitive_impacts.iter()).map(|e| (e.depth, e.fqn.clone())).collect();
            all.sort();
            names.push(all);
        }
        assert_eq!(names[0], names[1], "{name}");
    }
}

#[test]
fn dead_methods_are_not_called() {
    let engine = build_engine_with_sources();
    let dead = engine.dead_code();
    assert!(dead.unused_methods.iter().any(|m| m.fqn == "com.example.service.UserService.deleteUser"));
    assert!(dead.unused_methods.iter().all(|m| m.fqn != "com.example.service.UserService.getUser"));
    assert_eq!(dead.total, dead.unused_methods.len() + dead.unused_classes.len());
}

#[test]
fn hotspots_are_ranked_and_limited() {
    let engine = build_engine_with_sources();
    let all = engine.hotspots(100).unwrap();
    assert_eq!(all.hotspots[0].fqn, "com.example.service.UserService.createUser");
    assert!(all.hotspots.windows(2).all(|w| w[0].complexity >= w[1].complexity));
    assert_eq!(engine.hotspots(2).unwrap().hotspots.len(), 2);
    assert!(build_engine().hotspots(2).is_err());
}

#[test]
fn package_dependencies_lead_to_other_packages() {
    let graph = build_engine().package_dependencies();
    assert!(!graph.edges.is_empty());
    assert!(graph.edges.iter().all(|e| e.from != e.to));
    assert!(graph.edges.iter().any(|e| e.from == "com.example.service"));
}

#[test]
fn batches_are_limited_and_leave_annotated_entities_out() {
    let mut engine = build_engine_with_sources();
    let first = engine.enrich_batch(Some("UserService"), 1);
    assert_eq!(first.entities.len(), 1);
    let name = first.entities[0].symbol.clone();
    assert!(!first.entities[0].source_code.is_empty());
    engine.annotate_by_fqn(&name, SemanticAnnotation::default()).unwrap();
    let second = engine.enrich_batch(Some("UserService"), 50);
    assert!(second.entities.iter().all(|e| e.symbol != name));
}

#[test]
fn cell_types_lead_back_to_entity_types() {
    let engine = build_engine();
    for e in &engine.space_data().entities {
        let back = specgraphen::model::entity::cell_type_to_entity_type(e.entity_type.cell_type_str());
        assert_eq!(back, e.entity_type);
    }
}

#[test]
fn searches_count_what_they_cut_off() {
    let engine = build_engine();
    let all = engine.search("user", None, 1000);
    assert!(!all.truncated);
    assert_eq!(all.matches.len(), all.total_matches);
    let some = engine.search("user", None, 2);
    assert!(some.truncated);
    assert_eq!((some.matches.len(), some.total_matches), (2, all.total_matches));
}

#[test]
fn calls_are_seen_from_both_ends() {
    let engine = build_engine();
    let callees = engine.callees("com.example.service.UserService.createUser").unwrap();
    for relation in &callees.relations {
        let callers = engine.callers(&relation.target).unwrap();
        assert!(callers.relations.iter().any(|r| r.target == "com.example.service.UserService.createUser"));
    }
}

#[test]
fn entry_points_are_called_from_outside() {
    let result = build_engine().feature("UserRepository").unwrap();
    assert!(result.entry_points.iter().all(|p| p.caller_count > 0), "{:?}", result.entry_points);
    let service = build_engine().feature("UserService").unwrap();
    assert!(service.entry_points.iter().all(|p| p.fqn != "com.example.service.UserService.createUser"));
}

#[test]
fn a_line_can_read_and_write_a_column() {
    let mut engine = build_engine_with_sources();
    engine.source_files.insert(
        "src/main/java/com/example/service/Sync.java".to_string(),
        "class Sync {\n  void m() {\n    b.email.set(a.email.get());\n    b.email = a.email;\n    b.email = d;\n  }\n}\n".to_string(),
    );
    let result = engine.column_usage("User").unwrap();
    let email = result.columns.iter().find(|c| c.field_name == "email").unwrap();
    let sites = |sites: &[specgraphen::query::column_usage::UsageSite]| -> Vec<(u32, String)> {
        let here = sites.iter().filter(|s| s.file.ends_with("Sync.java"));
        here.map(|s| (s.line, s.access_type.clone())).collect()
    };
    assert_eq!(sites(&email.readers), vec![]);
    let expected = [(3, "read_write"), (4, "write"), (5, "write")].map(|(line, kind)| (line, kind.to_string()));
    assert_eq!(sites(&email.writers), expected.to_vec());
}

#[test]
fn unresolved_references_are_unknown() {
    let engine = build_engine();
    let all = engine.unknowns(None);
    assert_eq!(all.unresolved_references.len(), engine.space_data().unresolved.len());
    assert_eq!(
        all.total_unknowns,
        all.unresolved_references.len() + all.low_confidence_entities.len() + all.obstructions.len()
    );
    let file = "src/main/java/com/example/service/NotificationService.java";
    let caller = "com.example.service.NotificationService.notifyUser";
    let messages = |scope: &str| -> Vec<String> {
        engine.unknowns(Some(scope)).unresolved_references.into_iter().map(|u| u.message).collect()
    };
    let here = messages("NOTIFYUSER");
    assert_eq!(here.len(), 2);
    assert!(here.contains(&format!("Unresolved Calls: {caller} → user.getEmail ({file}:7)")), "{here:?}");
    assert_eq!(messages("println"), vec![format!("Unresolved Calls: {caller} → System.out.println ({file}:7)")]);
    assert!(engine.unknowns(Some("nothing.like.this")).unresolved_references.is_empty());
}

#[test]
fn what_is_saved_keeps_what_is_unknown() {
    let engine = build_engine();
    let before = engine.unknowns(None);
    let after = QueryEngine::new(engine.save_snapshot()).unknowns(None);
    let messages = |r: &specgraphen::query::unknowns::UnknownsResult| -> Vec<String> {
        r.unresolved_references.iter().map(|u| u.message.clone()).collect()
    };
    assert_eq!(messages(&before), messages(&after));
    assert_eq!(before.total_unknowns, after.total_unknowns);
}

#[test]
fn negative_zero_is_a_low_confidence() {
    let mut engine = build_engine();
    let bits = (-0.0f64).to_bits();
    engine.space_data.cells[0].provenance.as_mut().unwrap().confidence = Confidence { bits };
    let low = engine.unknowns(None).low_confidence_entities;
    assert_eq!(low.len(), 1);
    assert_eq!(low[0].confidence, Confidence { bits });
    assert_eq!(low[0].reason, "Low corroboration confidence");
}

#[test]
fn classes_are_found_by_their_simple_name() {
    let engine = build_engine();
    let full = engine.class_dependencies("com.example.service.UserService").unwrap();
    assert_eq!(full.scope, "class:com.example.service.UserService");
    for name in ["UserService", "userservice"] {
        let simple = engine.class_dependencies(name).unwrap();
        assert_eq!(simple.scope, format!("class:{name}"));
        assert_eq!(simple.nodes[0].name, "com.example.service.UserService");
        let edges = |g: &specgraphen::query::DependencyResult| -> Vec<(String, String, usize)> {
            g.edges.iter().map(|e| (e.from.clone(), e.to.clone(), e.relation_count)).collect()
        };
        assert!(!simple.edges.is_empty());
        assert_eq!(edges(&simple), edges(&full));
        let nodes = |g: &specgraphen::query::DependencyResult| -> Vec<(String, usize)> {
            g.nodes.iter().map(|n| (n.name.clone(), n.entity_count)).collect()
        };
        assert_eq!(nodes(&simple), nodes(&full));
    }
    assert_eq!(engine.class_dependencies("Nothing").unwrap_err(), "Class not found: Nothing");
}

#[test]
fn calls_come_with_their_lines() {
    let mut engine = build_engine();
    let callers = engine.callers("com.example.service.UserService.getUser").unwrap();
    assert_eq!(callers.relations.len(), 1);
    let seen = callers.relations[0].witness.as_ref().unwrap();
    assert_eq!(seen.file, "src/main/java/com/example/service/UserService.java");
    assert_eq!((seen.start_line, seen.end_line), (36, 36));
    for link in &mut engine.space_data.incidences {
        link.provenance.as_mut().unwrap().uri = Some("UserService.java".to_string());
    }
    let callers = engine.callers("com.example.service.UserService.getUser").unwrap();
    let seen = callers.relations[0].witness.as_ref().unwrap();
    assert_eq!((seen.start_line, seen.end_line), (0, 0));
}

#[test]
fn cells_without_an_entity_are_placed_by_their_provenance() {
    let mut engine = build_engine();
    let name = "com.example.service.UserService.deleteUser";
    let before = engine.explain(name).unwrap().witnesses;
    engine.space_data.entities.clear();
    let after = engine.explain(name).unwrap().witnesses;
    assert_eq!((before[0].start_line, before[0].end_line), (35, 38));
    assert_eq!((after[0].start_line, after[0].end_line), (35, 38));
}

#[test]
fn line_ranges_are_read_from_the_end() {
    assert_eq!(read_range("a/B.java#L3-L17"), Some((3, 17)));
    assert_eq!(read_range("a#L9-L9/B.java#L1-L4294967295"), Some((1, 4294967295)));
    assert_eq!(read_range("B.java#L1-L4294967296"), None);
    for text in ["", "B.java", "B.java#L3", "B.java#L3-L", "B.java#L-L3", "B.java-L3", "B.java#L3-L4 "] {
        assert_eq!(read_range(text), None, "{text}");
    }
}

#[test]
fn classes_of_created_tables_are_in_the_matrix() {
    let mut engine = build_engine_with_sources();
    let held = |engine: &QueryEngine, name: &str| {
        engine.crud_matrix().unwrap().tables.iter().any(|t| t.table_class == name)
    };
    let class = "com.example.service.NotificationService";
    engine.source_files.insert(
        "src/main/java/com/example/service/UserService.java".to_string(),
        String::from_utf8(sources().remove(4).content.unwrap())
            .unwrap()
            .replace("User user = getUser(id);", "User user = getUser(id); run(\"DELETE FROM notification_service\");"),
    );
    assert!(!held(&engine, class));
    engine.source_files.insert("schema.txt".to_string(), "CREATE TABLE notification_service (id INT);".to_string());
    assert!(!held(&engine, class));
    engine.source_files.insert("schema.sql".to_string(), "CREATE TABLE NOTIFICATION_SERVICE (id INT);".to_string());
    assert!(held(&engine, class));
}
