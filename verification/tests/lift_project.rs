use specgraphen::lift::lifter::{have_paths, SourceFile};
use specgraphen::lift::{DiagnosticSeverity, JavaLifter, LiftConfig, LiftResult};
use specgraphen::model::JavaEntityType;

fn source(path: &str, text: &str) -> SourceFile {
    SourceFile { path: format!("/project/{path}"), rel_path: path.to_string(), content: Ok(text.as_bytes().to_vec()) }
}

fn sources() -> Vec<SourceFile> {
    vec![
        source(
            "src/main/java/com/example/model/User.java",
            "package com.example.model;\n\npublic class User {\n    private Long id;\n    private String name;\n    private String email;\n\n    public User(String name, String email) {\n        this.name = name;\n        this.email = email;\n    }\n\n    public Long getId() {\n        return id;\n    }\n\n    public String getName() {\n        return name;\n    }\n\n    public String getEmail() {\n        return email;\n    }\n}\n",
        ),
        source(
            "src/main/java/com/example/repository/UserRepository.java",
            "package com.example.repository;\n\nimport com.example.model.User;\n\npublic interface UserRepository {\n    User save(User user);\n    User findById(Long id);\n    void delete(User user);\n}\n",
        ),
        source(
            "src/main/java/com/example/exception/ValidationException.java",
            "package com.example.exception;\n\npublic class ValidationException extends RuntimeException {\n    public ValidationException(String message) {\n        super(message);\n    }\n}\n",
        ),
        source(
            "src/main/java/com/example/service/NotificationService.java",
            "package com.example.service;\n\nimport com.example.model.User;\n\npublic class NotificationService {\n    public void notifyUser(User user) {\n        System.out.println(\"Welcome \" + user.getEmail());\n    }\n}\n",
        ),
        source(
            "src/main/java/com/example/service/UserService.java",
            "package com.example.service;\n\nimport com.example.model.User;\nimport com.example.repository.UserRepository;\nimport com.example.exception.ValidationException;\n\npublic class UserService {\n    private final UserRepository repository;\n    private final NotificationService notificationService;\n\n    public UserService(UserRepository repository, NotificationService notificationService) {\n        this.repository = repository;\n        this.notificationService = notificationService;\n    }\n\n    public User createUser(String name, String email) {\n        if (name == null || name.isEmpty()) {\n            throw new ValidationException(\"Name is required\");\n        }\n        if (email == null) {\n            throw new ValidationException(\"Email is required\");\n        }\n        User user = new User(name, email);\n        return repository.save(user);\n    }\n\n    public User getUser(Long id) {\n        User user = repository.findById(id);\n        if (user == null) {\n            throw new ValidationException(\"User not found\");\n        }\n        return user;\n    }\n\n    public void deleteUser(Long id) {\n        User user = getUser(id);\n        repository.delete(user);\n    }\n}\n",
        ),
    ]
}

fn config(space_id: &str) -> LiftConfig {
    LiftConfig { space_id: space_id.to_string(), space_label: "Test Project".to_string(), ..Default::default() }
}

fn lift() -> LiftResult {
    let mut lifter = JavaLifter::new().expect("Failed to create lifter");
    lifter.lift(&config("test-project"), &sources()).expect("Lift failed")
}

fn names(result: &LiftResult) -> Vec<String> {
    let map = &result.space_data.fqn_to_cell_id;
    (0..map.len()).map(|i| map.key_at(i).clone()).collect()
}

#[test]
fn test_lift_extracts_entities() {
    let result = lift();
    let data = &result.space_data;
    assert!(!data.cells.is_empty(), "Should have extracted cells");
    assert!(!data.entities.is_empty(), "Should have entity records");
    let kinds: Vec<_> = data.entities.iter().map(|e| e.entity_type).collect();
    assert!(kinds.contains(&JavaEntityType::Package), "Should have Package entity");
    assert!(kinds.contains(&JavaEntityType::Class), "Should have Class entity");
    assert!(kinds.contains(&JavaEntityType::Interface), "Should have Interface entity");
    assert!(kinds.contains(&JavaEntityType::Method), "Should have Method entity");
    assert!(kinds.contains(&JavaEntityType::Field), "Should have Field entity");
    assert!(kinds.contains(&JavaEntityType::Constructor), "Should have Constructor entity");
}

#[test]
fn test_lift_extracts_known_classes() {
    let keys = names(&lift());
    let expected_fqns = [
        "com.example.model",
        "com.example.model.User",
        "com.example.service.UserService",
        "com.example.service.NotificationService",
        "com.example.repository.UserRepository",
        "com.example.exception.ValidationException",
    ];
    for expected in expected_fqns {
        assert!(keys.iter().any(|k| k == expected), "Missing FQN: {expected}. Found: {keys:?}");
    }
}

#[test]
fn test_lift_extracts_methods() {
    let keys = names(&lift());
    let expected_methods = [
        "com.example.service.UserService.createUser",
        "com.example.service.UserService.getUser",
        "com.example.service.UserService.deleteUser",
        "com.example.model.User.getName",
        "com.example.model.User.getEmail",
        "com.example.repository.UserRepository.save",
        "com.example.repository.UserRepository.findById",
    ];
    for expected in expected_methods {
        assert!(keys.iter().any(|k| k == expected), "Missing method FQN: {expected}");
    }
}

#[test]
fn test_lift_extracts_relations() {
    let result = lift();
    let data = &result.space_data;
    assert!(!data.incidences.is_empty(), "Should have extracted relations");
    let kinds: Vec<_> = data.incidences.iter().map(|i| i.relation_type.as_str()).collect();
    assert!(kinds.contains(&"java.contained_in"), "Should have ContainedIn relations");
}

#[test]
fn test_lift_all_cells_have_provenance() {
    for cell in &lift().space_data.cells {
        assert!(cell.provenance.is_some(), "Cell {} should have provenance", cell.id);
    }
}

#[test]
fn test_lift_space_references_all_cells() {
    let result = lift();
    let data = &result.space_data;
    assert_eq!(data.space.cell_ids.len(), data.cells.len());
    assert_eq!(data.space.incidence_ids.len(), data.incidences.len());
}

#[test]
fn test_lift_diagnostics_reports_unresolved() {
    let result = lift();
    assert!(result.diagnostics.iter().any(|d| d.severity == DiagnosticSeverity::Warning));
}

#[test]
fn a_file_that_cannot_be_read_is_an_error_diagnostic() {
    let mut files = sources();
    files.push(SourceFile {
        path: "/project/Broken.java".to_string(),
        rel_path: "Broken.java".to_string(),
        content: Err("permission denied".to_string()),
    });
    let mut lifter = JavaLifter::new().unwrap();
    let result = lifter.lift(&config("test-project"), &files).unwrap();
    let broken: Vec<_> = result.diagnostics.iter().filter(|d| d.severity == DiagnosticSeverity::Error).collect();
    assert!(!broken.is_empty());
    assert!(broken[0].message.contains("permission denied"), "{:?}", broken[0]);
}

#[test]
fn a_blank_space_identifier_is_refused() {
    let mut lifter = JavaLifter::new().unwrap();
    let error = lifter.lift(&config("  "), &sources()).err().unwrap();
    assert_eq!(error, "invalid_id: invalid id \"  \": identifier must not be empty after trimming");
}

#[test]
fn a_control_character_in_the_space_identifier_is_refused() {
    let mut lifter = JavaLifter::new().unwrap();
    let error = lifter.lift(&config("a\u{1}b"), &sources()).err().unwrap();
    assert!(error.ends_with("identifier must not contain control characters"), "{error}");
}

#[test]
fn unresolved_uses_have_places() {
    let mut lifter = JavaLifter::new().unwrap();
    let uses = lifter.collect_unresolved(&config("test-project"), &sources()).unwrap();
    assert!(!uses.is_empty());
    assert!(uses.iter().all(|u| u.line > 0 && !u.file.is_empty()));
}

#[test]
fn shift_jis_sources_are_decoded() {
    let mut bytes = b"package p;\nclass A { String ".to_vec();
    bytes.extend([0x8e, 0x9a]);
    bytes.extend(b"; }\n");
    let files = vec![SourceFile { path: "/A.java".to_string(), rel_path: "A.java".to_string(), content: Ok(bytes) }];
    let mut lifter = JavaLifter::new().unwrap();
    let result = lifter.lift(&config("sjis"), &files).unwrap();
    assert!(names(&result).iter().any(|n| n == "p.A.\u{5b57}"), "{:?}", names(&result));
}

#[test]
fn blank_paths_are_noticed() {
    let mut files = sources();
    assert!(have_paths(&files));
    files[1].rel_path = "  ".to_string();
    assert!(!have_paths(&files));
}
