use specgraphen::query::mybatis::{is_mapper_xml, parse_mapper_statements};

#[test]
fn parses_mapper_statements() {
    let xml = r#"<?xml version="1.0" encoding="UTF-8"?>
<mapper namespace="com.example.mapper.UserMapper">
    <select id="findById" resultType="User">
        SELECT id, name, email FROM user WHERE id = #{id}
    </select>
    <update id="updateEmail">UPDATE user SET email = #{email} WHERE id = #{id}</update>
</mapper>
"#;
    let statements = parse_mapper_statements(xml);
    assert_eq!(statements.len(), 2);
    assert_eq!(statements[0].fqn, "com.example.mapper.UserMapper.findById");
    assert!(statements[0].sql.contains("FROM user"));
    assert_eq!(
        statements[1].fqn,
        "com.example.mapper.UserMapper.updateEmail"
    );
    assert!(statements[1].sql.contains("SET email"));
}

#[test]
fn detects_mapper_files() {
    assert!(is_mapper_xml("UserMapper.xml", "<mapper namespace=\"x\">"));
    assert!(!is_mapper_xml("pom.xml", "<project></project>"));
    assert!(!is_mapper_xml("User.java", "<mapper"));
}

#[test]
fn all_statements_are_parsed_with_all_their_lines() {
    let xml = "<mapper namespace=\"m\"><select id=\"a\">SELECT *\n FROM t</select><delete id=\"b\">DELETE FROM t</delete>\n<!-- <update id=\"x\">UPDATE t</update> --><insert resultType=\"R\" id=\"c\">\n INSERT INTO t\n</insert></mapper>\n";
    let found: Vec<_> = parse_mapper_statements(xml).into_iter().map(|s| (s.fqn, s.sql)).collect();
    let expected = [("m.a", "SELECT *\nFROM t"), ("m.b", "DELETE FROM t"), ("m.c", "INSERT INTO t")];
    assert_eq!(found, expected.map(|(f, s)| (f.to_string(), s.to_string())));
}

#[test]
fn marks_in_quotes_do_not_end_a_tag() {
    let xml = "<mapper note='a > b' namespace=\"x.M\">\n<select a=\"x>y\" id=\"f\">SELECT 1</select>\n<delete id=\"g\" b='>'>\nDELETE FROM t\n</delete>\n</mapper>";
    let found: Vec<_> = parse_mapper_statements(xml).into_iter().map(|s| (s.fqn, s.sql)).collect();
    assert_eq!(
        found,
        vec![("x.M.f".to_string(), "SELECT 1".to_string()), ("x.M.g".to_string(), "DELETE FROM t".to_string())]
    );
}
