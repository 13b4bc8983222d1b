use specgraphen::query::java::{has_direct_field_access, is_direct_field_write, parse_field_declarations};

#[test]
fn parses_plain_field_declarations() {
    let source = r#"
public class User {
    private Long id;
    private String name = "anonymous";
    private java.util.Map<String, Integer> scores;

    public String getName() {
        return name;
    }
}
"#;
    let decls = parse_field_declarations(source);
    assert_eq!(decls.len(), 3);
    assert_eq!(decls[0].field_name, "id");
    assert_eq!(decls[0].declared_type, "Long");
    assert_eq!(decls[1].field_name, "name");
    assert_eq!(decls[1].declared_type, "String");
    assert_eq!(decls[2].field_name, "scores");
    assert_eq!(decls[2].declared_type, "java.util.Map<String, Integer>");
}

#[test]
fn attaches_jpa_column_and_javadoc() {
    let source = r#"
public class Customer {
    /** Customer mail address */
    @Column(name = "mail_address", length = 255)
    private String email;

    private boolean active; // soft-delete flag
}
"#;
    let decls = parse_field_declarations(source);
    assert_eq!(decls.len(), 2);
    assert_eq!(decls[0].column_name.as_deref(), Some("mail_address"));
    assert_eq!(decls[0].doc.as_deref(), Some("Customer mail address"));
    assert_eq!(decls[1].column_name, None);
    assert_eq!(decls[1].doc.as_deref(), Some("soft-delete flag"));
}

#[test]
fn field_access_respects_identifier_boundary() {
    assert!(has_direct_field_access("user.id == 1", "id"));
    assert!(!has_direct_field_access("user.identifier == 1", "id"));
    assert!(is_direct_field_write("user.id = 1;", "id"));
    assert!(!is_direct_field_write("user.id == 1", "id"));
}

fn fields(source: &str) -> Vec<(String, String)> {
    parse_field_declarations(source).into_iter().map(|d| (d.field_name, d.declared_type)).collect()
}

fn field(name: &str, declared_type: &str) -> (String, String) {
    (name.to_string(), declared_type.to_string())
}

#[test]
fn comment_signs_in_literals_are_no_comments() {
    assert_eq!(fields("private String url = \"http://x\";"), vec![field("url", "String")]);
    assert_eq!(fields("private char c = '\"'; // a \"quote\""), vec![field("c", "char")]);
    let decls = parse_field_declarations("private String a = \"x\\\"//y\"; // the a");
    assert_eq!(decls[0].field_name, "a");
    assert_eq!(decls[0].doc.as_deref(), Some("the a"));
}

#[test]
fn every_declarator_is_a_field() {
    assert_eq!(fields("private int a, b = f(1, 2), c;"), vec![field("a", "int"), field("b", "int"), field("c", "int")]);
    assert_eq!(
        fields("Map<String, List<X>> m = new HashMap<String, List<X>>(), n;"),
        vec![field("m", "Map<String, List<X>>"), field("n", "Map<String, List<X>>")]
    );
    assert_eq!(fields("RED, GREEN, BLUE;"), vec![]);
    assert_eq!(fields("foo(a, b);"), vec![]);
}

#[test]
fn annotations_on_the_line_of_a_field_belong_to_it() {
    let decls = parse_field_declarations("@NotNull @Column(name = \"mail (x)\") private String email, other;");
    assert_eq!(decls.len(), 2);
    assert_eq!(decls[0].field_name, "email");
    assert_eq!(decls[0].declared_type, "String");
    assert_eq!(decls[0].column_name.as_deref(), Some("mail (x)"));
    assert_eq!(decls[1].column_name.as_deref(), Some("mail (x)"));
}

#[test]
fn any_assignment_on_the_line_is_a_write() {
    assert!(is_direct_field_write("if (a.id == 0) b.id = 1;", "id"));
    assert!(!is_direct_field_write("if (a.id == b.id) return;", "id"));
    assert!(!is_direct_field_write("a.identity = b.id;", "id"));
}
