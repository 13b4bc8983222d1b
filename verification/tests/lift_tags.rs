use specgraphen::lift::{TagDecision, TagExtraction, TagExtractor};
use specgraphen::logic::{compress, Tri};

fn extract(jsp: &str) -> TagExtraction {
    TagExtractor::new().extract(jsp)
}

fn single(jsp: &str) -> TagDecision {
    let mut e = extract(jsp);
    assert_eq!(e.clusters.len(), 1, "skipped: {:?}", e.skipped);
    e.clusters.remove(0)
}

#[test]
fn simple_if_controls_content() {
    let d = single(
        r#"<div>
                <c:if test="${user.premium}">
                    <span>PREMIUM</span>
                </c:if>
            </div>"#,
    );
    assert_eq!(d.table.variables(), ["${user.premium}"]);
    let outcomes: Vec<_> = d.table.rows().iter().map(|r| r.outcome.as_str()).collect();
    assert!(
        outcomes.iter().any(|o| o.contains("PREMIUM")),
        "{outcomes:?}"
    );
    assert!(
        outcomes.contains(&"(no conditional content)"),
        "{outcomes:?}"
    );
}

#[test]
fn choose_when_chain_is_sequentially_exclusive() {
    let d = single(
        r#"<c:choose>
                <c:when test="${type == 'A'}">alpha</c:when>
                <c:when test="${type == 'B'}">beta</c:when>
                <c:otherwise>other</c:otherwise>
            </c:choose>"#,
    );
    assert_eq!(d.table.rows().len(), 3);
    let beta = d
        .table
        .rows()
        .iter()
        .find(|r| r.outcome.contains("beta"))
        .unwrap();
    assert_eq!(beta.inputs, vec![Tri::False, Tri::True]);
}

#[test]
fn identical_branches_compress_to_dead_condition() {
    // Both branches render the same thing — the condition is patch noise
    let d = single(
        r#"<c:choose>
                <c:when test="${flag}">same text</c:when>
                <c:otherwise>same text</c:otherwise>
            </c:choose>"#,
    );
    let c = compress(&d.table).unwrap();
    assert_eq!(c.dead_variables, vec!["${flag}"]);
}

#[test]
fn nested_if_inside_when() {
    let d = single(
        r#"<c:choose>
                <c:when test="${member}">
                    hello
                    <c:if test="${birthday}">CAKE</c:if>
                </c:when>
                <c:otherwise>guest</c:otherwise>
            </c:choose>"#,
    );
    assert_eq!(d.table.variables().len(), 2);
    let cake = d
        .table
        .rows()
        .iter()
        .find(|r| r.outcome.contains("CAKE"))
        .unwrap();
    assert_eq!(cake.inputs, vec![Tri::True, Tri::True]);
    // guest path must not constrain the birthday atom
    let guest = d
        .table
        .rows()
        .iter()
        .find(|r| r.outcome.contains("guest"))
        .unwrap();
    assert_eq!(guest.inputs, vec![Tri::False, Tri::Any]);
}

#[test]
fn repeated_el_expression_is_feasibility_tracked() {
    let jsp = r#"
            <c:if test="${on}">first</c:if>
            <c:if test="${on}">second</c:if>
        "#;
    // two top-level clusters share nothing; each is its own table
    let e = extract(jsp);
    assert_eq!(e.clusters.len(), 2);
}

#[test]
fn scriptlet_inside_cluster_marks_incomplete() {
    let d = single(
        r#"<c:if test="${y}">
                <% if (request.getAttribute("x") != null) { %>legacy<% } %>
                modern
            </c:if>"#,
    );
    assert!(d.incomplete);
}

#[test]
fn scriptlet_outside_cluster_does_not_taint_it() {
    let d = single(
        r#"<% if (request.getAttribute("x") != null) { %>
                legacy region, separate from the cluster below
            <% } %>
            <c:if test="${y}">modern</c:if>"#,
    );
    assert!(!d.incomplete);
}

#[test]
fn other_c_tags_are_content() {
    let d = single(
        r#"<c:if test="${list != null}">
                <c:forEach items="${list}" var="x">row</c:forEach>
            </c:if>"#,
    );
    assert_eq!(d.table.variables(), ["${list != null}"]);
}

#[test]
fn unbalanced_markup_is_skipped_not_panicking() {
    let e = extract(r#"<c:if test="${a}">never closed"#);
    assert!(e.clusters.is_empty());
    assert_eq!(e.skipped.len(), 1);
}

#[test]
fn quoted_gt_in_el_does_not_end_the_tag() {
    let d = single(r#"<c:if test="${count > 3}">many</c:if>"#);
    assert_eq!(d.table.variables(), ["${count > 3}"]);
}

#[test]
fn no_conditionals_means_no_clusters() {
    let e = extract("<div>plain</div>");
    assert!(e.clusters.is_empty());
    assert!(e.skipped.is_empty());
}

#[test]
fn no_two_rows_apply_together() {
    let d = single(
        "<c:choose><c:when test=\"${a}\">A</c:when><c:when test=\"${b}\">B</c:when><c:otherwise>C</c:otherwise></c:choose>",
    );
    let rows = d.table.rows();
    assert_eq!(rows.len(), 3);
    for m in 0..4u32 {
        let applies = |inputs: &[Tri]| {
            inputs.iter().enumerate().all(|(i, t)| match t {
                Tri::Any => true,
                Tri::True => m >> i & 1 == 1,
                Tri::False => m >> i & 1 == 0,
            })
        };
        assert_eq!(rows.iter().filter(|r| applies(&r.inputs)).count(), 1);
    }
}
