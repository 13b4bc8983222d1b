use serde_json::Value;
use specgraphen::json::list_texts;
use specgraphen::lift::lifter::SourceFile;
use specgraphen::lift::{JavaLifter, LiftConfig};
use specgraphen::mcp::calls::{read_tool_call, ToolCall};
use specgraphen::mcp::dispatch::{write_saved, ToolReply};
use specgraphen::mcp::server::{needs_answer, text_content, RpcReply};
use specgraphen::mcp::SpecGraphenServer;
use specgraphen::query::QueryEngine;
use specgraphen::text_map::TextMap;

fn source(path: &str, text: &str) -> SourceFile {
    SourceFile { path: format!("/project/{path}"), rel_path: path.to_string(), content: Ok(text.as_bytes().to_vec()) }
}

fn sources() -> Vec<SourceFile> {
    vec![
        source(
            "src/main/java/com/example/model/User.java",
            "package com.example.model;\n\npublic class User {\n    private Long id;\n    private String name;\n    private String email;\n\n    public User(String name, String email) {\n        this.name = name;\n        this.email = email;\n    }\n\n    public Long getId() {\n        return id;\n    }\n\n    public String getName() {\n        return name;\n    }\n\n    public String getEmail() {\n        return email;\n    }\n}\n",
        ),
        source(
            "src/main/java/com/example/repository/UserRepository.java",
            "package com.example.repository;\n\nimport com.example.model.User;\n\npublic interface UserRepository {\n    User save(User user);\n    User findById(Long id);\n    void delete(User user);\n}\n",
        ),
        source(
            "src/main/java/com/example/exception/ValidationException.java",
            "package com.example.exception;\n\npublic class ValidationException extends RuntimeException {\n    public ValidationException(String message) {\n        super(message);\n    }\n}\n",
        ),
        source(
            "src/main/java/com/example/service/NotificationService.java",
            "package com.example.service;\n\nimport com.example.model.User;\n\npublic class NotificationService {\n    public void notifyUser(User user) {\n        System.out.println(\"Welcome \" + user.getEmail());\n    }\n}\n",
        ),
        source(
            "src/main/java/com/example/service/UserService.java",
            "package com.example.service;\n\nimport com.example.model.User;\nimport com.example.repository.UserRepository;\nimport com.example.exception.ValidationException;\n\npublic class UserService {\n    private final UserRepository repository;\n    private final NotificationService notificationService;\n\n    public UserService(UserRepository repository, NotificationService notificationService) {\n        this.repository = repository;\n        this.notificationService = notificationService;\n    }\n\n    public User createUser(String name, String email) {\n        if (name == null || name.isEmpty()) {\n            throw new ValidationException(\"Name is required\");\n        }\n        if (email == null) {\n            throw new ValidationException(\"Email is required\");\n        }\n        User user = new User(name, email);\n        return repository.save(user);\n    }\n\n    public User getUser(Long id) {\n        User user = repository.findById(id);\n        if (user == null) {\n            throw new ValidationException(\"User not found\");\n        }\n        return user;\n    }\n\n    public void deleteUser(Long id) {\n        User user = getUser(id);\n        repository.delete(user);\n    }\n}\n",
        ),
    ]
}

fn config(space_id: &str) -> LiftConfig {
    LiftConfig { space_id: space_id.to_string(), space_label: "Test Project".to_string(), ..Default::default() }
}

fn server() -> SpecGraphenServer {
    let mut lifter = JavaLifter::new().unwrap();
    let result = lifter.lift(&config("mcp-test"), &sources()).unwrap();
    let mut map: TextMap<String> = TextMap::new();
    for file in sources() {
        map.insert(file.rel_path, String::from_utf8(file.content.unwrap()).unwrap());
    }
    SpecGraphenServer::new(QueryEngine::new(result.space_data).with_sources(map))
}

fn value(text: &str) -> Value {
    serde_json::from_str(text).unwrap()
}

fn text_of(reply: Result<RpcReply, specgraphen::mcp::calls::RpcError>) -> String {
    match reply {
        Ok(RpcReply::Tool(ToolReply::Text(text))) => text,
        Ok(_) => panic!("not a text"),
        Err(e) => panic!("tool returned error: {} {}", e.code, e.message),
    }
}

fn call_tool(server: &mut SpecGraphenServer, symbol: &str) -> String {
    let params = format!("{{\"name\": \"extract_core_rules\", \"arguments\": {{\"symbol\": \"{symbol}\"}}}}");
    text_of(server.handle_request("tools/call", &value(&params)))
}

#[test]
fn method_symbol_returns_compressed_table() {
    let text = call_tool(&mut server(), "UserService.createUser");
    assert!(text.contains("com.example.service.UserService.createUser"), "{text}");
    assert!(text.contains("| outcome |"), "{text}");
    assert!(text.contains("compressed to"), "{text}");
}

#[test]
fn class_symbol_returns_all_branching_methods() {
    let text = call_tool(&mut server(), "com.example.service.UserService");
    assert!(text.contains("createUser"), "{text}");
    assert!(text.contains("getUser"), "{text}");
}

#[test]
fn tool_is_listed() {
    match server().handle_request("tools/list", &value("{}")) {
        Ok(RpcReply::Tools(tools)) => {
            assert!(tools.iter().any(|t| t.name == "extract_core_rules"));
            assert_eq!(tools.len(), 24);
        }
        _ => panic!("no tools"),
    }
}

#[test]
fn requests_are_told_from_other_lines() {
    assert!(!needs_answer("   "));
    assert!(!needs_answer("{\"method\": \"initialized\"}"));
    assert!(!needs_answer("[1]"));
    assert!(needs_answer("{\"id\": 1, \"method\": \"ping\"}"));
    assert!(needs_answer("not json"));
}

#[test]
fn the_protocol_is_answered() {
    let mut server = server();
    match server.handle_request("initialize", &value("{}")) {
        Ok(RpcReply::Initialized(info)) => {
            assert_eq!(info.protocol_version, "2024-11-05");
            assert_eq!(info.name, "specgraphen");
            assert_eq!(info.version, "0.1.0");
        }
        _ => panic!("not initialized"),
    }
    assert!(matches!(server.handle_request("ping", &value("{}")), Ok(RpcReply::Pong)));
    let error = server.handle_request("resources/list", &value("{}")).err().unwrap();
    assert_eq!((error.code, error.message.as_str()), (-32601, "Method not found: resources/list"));
}

#[test]
fn wrong_calls_are_refused() {
    let none = read_tool_call(&value("{}")).err().unwrap();
    assert_eq!((none.code, none.message.as_str()), (-32602, "Missing tool name"));
    let unknown = read_tool_call(&value("{\"name\": \"fly\"}")).err().unwrap();
    assert_eq!((unknown.code, unknown.message.as_str()), (-32602, "Unknown tool: fly"));
    let bare = read_tool_call(&value("{\"name\": \"enforces\", \"arguments\": {\"entry_symbol\": \"a\"}}"))
        .err()
        .unwrap();
    assert_eq!((bare.code, bare.message.as_str()), (-32602, "Missing required_relation argument"));
}

#[test]
fn arguments_have_defaults() {
    match read_tool_call(&value("{\"name\": \"search\", \"arguments\": {\"query\": \"User\"}}")) {
        Ok(ToolCall::Search { query, entity_type, limit }) => {
            assert_eq!((query.as_str(), entity_type, limit), ("User", None, 30));
        }
        _ => panic!("no search"),
    }
    match read_tool_call(&value("{\"name\": \"impact\", \"arguments\": {\"symbol\": \"a\", \"max_depth\": 7}}")) {
        Ok(ToolCall::Impact { symbol, max_depth }) => assert_eq!((symbol.as_str(), max_depth), ("a", 7)),
        _ => panic!("no impact"),
    }
    match read_tool_call(&value(
        "{\"name\": \"debug_trace\", \"arguments\": {\"symbol\": \"a\", \"choices\": [1, -2, \"x\", 0], \"terminal_calls\": [\"die\", 3]}}",
    )) {
        Ok(ToolCall::DebugTrace { choices, terminal_calls, .. }) => {
            assert_eq!(choices, vec![1, 0]);
            assert_eq!(terminal_calls, vec!["die".to_string()]);
        }
        _ => panic!("no trace"),
    }
}

#[test]
fn an_annotation_changes_what_is_explained() {
    let mut server = server();
    let params = "{\"name\": \"annotate\", \"arguments\": {\"symbol\": \"com.example.model.User\", \"intent\": \"a user\", \"preconditions\": [\"named\"]}}";
    let text = text_of(server.handle_request("tools/call", &value(params)));
    assert_eq!(text, "{\"status\": \"ok\", \"symbol\": \"com.example.model.User\"}");
    let explained = server
        .handle_tools_call(&value("{\"name\": \"explain\", \"arguments\": {\"symbol\": \"com.example.model.User\"}}"));
    match explained {
        Ok(ToolReply::Explain(x)) => {
            assert_eq!(x.intent.unwrap().value, "a user");
            assert_eq!(x.preconditions.len(), 1);
        }
        _ => panic!("not explained"),
    }
    let error = server
        .handle_tools_call(&value("{\"name\": \"annotate\", \"arguments\": {\"symbol\": \"Nobody\"}}"))
        .err()
        .unwrap();
    assert_eq!((error.code, error.message.as_str()), (-32000, "Error: FQN not found: Nobody"));
}

#[test]
fn every_listed_tool_answers_or_names_what_is_missing() {
    let mut server = server();
    let names: Vec<String> = match server.handle_request("tools/list", &value("{}")) {
        Ok(RpcReply::Tools(tools)) => tools.iter().map(|t| t.name.clone()).collect(),
        _ => panic!("no tools"),
    };
    for name in names {
        let params = format!("{{\"name\": \"{name}\", \"arguments\": {{}}}}");
        match server.handle_tools_call(&value(&params)) {
            Ok(_) => {}
            Err(e) => assert!(e.message.starts_with("Missing "), "{name}: {}", e.message),
        }
    }
}

#[test]
fn rules_need_a_symbol_with_a_source() {
    let mut server = server();
    let params = value("{\"name\": \"extract_core_rules\", \"arguments\": {\"symbol\": \"Nobody\"}}");
    assert_eq!(server.handle_tools_call(&params).err().unwrap().message, "Symbol not found: Nobody");
    server.query_engine.source_files = TextMap::new();
    let params = value("{\"name\": \"extract_core_rules\", \"arguments\": {\"symbol\": \"UserService.getUser\"}}");
    assert_eq!(
        server.handle_tools_call(&params).err().unwrap().message,
        "Source for src/main/java/com/example/service/UserService.java is not loaded. Start the server with --source-root pointing at the Java source tree."
    );
}

#[test]
fn methods_without_branches_have_no_rules() {
    assert_eq!(
        call_tool(&mut server(), "com.example.model.User.getName"),
        "com.example.model.User.getName has no extractable branching logic (no if/else, or only unmodeled constructs)."
    );
}

#[test]
fn the_rules_of_a_method_are_told_in_full() {
    assert_eq!(
        call_tool(&mut server(), "com.example.service.UserService.getUser"),
        "## com.example.service.UserService.getUser (src/main/java/com/example/service/UserService.java:27)\n\n2 observed paths compressed to 2 rules.\n\n| user == null | outcome |\n|---|---|\n| F | return repository.findById(id) |\n| T | throw new ValidationException(\"User not found\") |\n\n"
    );
}

#[test]
fn a_store_is_needed_to_save() {
    let server = server();
    let error = server.store_target().err().unwrap();
    assert_eq!((error.code, error.message.as_str()), (-32000, "Store path not configured"));
    let server = server.with_store("/store".to_string(), "space".to_string());
    assert_eq!(server.store_target().unwrap(), ("/store", "space"));
    assert_eq!(write_saved("/store/x", 3), "{\"status\": \"saved\", \"path\": \"/store/x\", \"annotations\": 3}");
}

#[test]
fn texts_are_read_from_lists() {
    let v = value("{\"a\": [\"x\", 1, \"y\"], \"b\": \"z\"}");
    assert_eq!(list_texts(&v, "a"), vec!["x".to_string(), "y".to_string()]);
    assert!(list_texts(&v, "b").is_empty());
    assert!(list_texts(&v, "c").is_empty());
}

#[test]
fn a_trace_needs_a_known_method_with_a_source() {
    let mut server = server();
    let params = value("{\"name\": \"debug_trace\", \"arguments\": {\"symbol\": \"UserService.getUser\", \"choices\": [1]}}");
    match server.handle_tools_call(&params) {
        Ok(ToolReply::Trace { fqn, file, line, source, choices, terminal_calls }) => {
            assert_eq!(fqn, "com.example.service.UserService.getUser");
            assert!(file.ends_with("UserService.java"));
            assert_eq!(line, 27);
            assert!(source.contains("class UserService"));
            assert_eq!(choices, vec![1]);
            assert!(terminal_calls.is_empty());
        }
        _ => panic!("no trace"),
    }
    let params = value("{\"name\": \"debug_trace\", \"arguments\": {\"symbol\": \"Nobody\"}}");
    assert_eq!(server.handle_tools_call(&params).err().unwrap().message, "Symbol not found: Nobody");
}

#[test]
fn a_result_is_one_text() {
    let content = text_content("x".to_string());
    assert_eq!(content.len(), 1);
    assert_eq!((content[0].kind.as_str(), content[0].text.as_str()), ("text", "x"));
}
