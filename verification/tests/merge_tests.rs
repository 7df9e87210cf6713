use docx_handlebars::merge::merge_segments;
use docx_handlebars::segment::{serialize, tokenize, Segment};
use docx_handlebars::utils::{merge_handlebars_in_xml, xml_escape_to_normal};
use docx_handlebars::DocxHandlebarsError;

fn merged_text(xml: &str) -> String {
    merge_handlebars_in_xml(xml.to_string()).unwrap()
}

#[test]
fn test_merge_three_fragments_of_a_variable() {
    assert_eq!(
        merged_text("<t>部门: {{</t><t>employee.department</t><t>}}</t>"),
        "<t>部门: {{employee.department}}</t>"
    );
    let segs = tokenize("<t>部门: {{</t><t>employee.department</t><t>}}</t>").unwrap();
    let joined = merge_segments(&segs);
    assert_eq!(joined.len(), 3);
    assert_eq!(
        joined[1],
        Segment::Literal { text: "部门: {{employee.department}}".to_string() }
    );
}

#[test]
fn test_merge_three_fragments_of_a_block_opening() {
    assert_eq!(
        merged_text("<t>{{#if </t><t>employee.has_bonus</t><t>}}</t>"),
        "<t>{{#if employee.has_bonus}}</t>"
    );
}

#[test]
fn test_merge_two_fragments() {
    assert_eq!(merged_text("<t>{{na</t><t>me}}</t>"), "<t>{{name}}</t>");
}

#[test]
fn test_merge_leaves_an_intact_expression_alone() {
    let xml = "<p><t>{{a}}</t><t>x</t><t>{{b</t><t>}}</t></p>";
    assert_eq!(merged_text(xml), "<p><t>{{a}}</t><t>x</t><t>{{b}}</t></p>");
}

#[test]
fn test_merge_without_open_brace_changes_nothing() {
    let xml = "<p><t>one</t><t>two</t></p>";
    assert_eq!(merged_text(xml), xml);
    let balanced = "<p><t>{{a}}</t><t>{{b}}</t></p>";
    assert_eq!(merged_text(balanced), balanced);
}

#[test]
fn test_merge_never_joins_across_different_elements() {
    let xml = "<a><t>{{x</t><u>}}</u></a>";
    assert_eq!(merged_text(xml), xml);
}

#[test]
fn test_merge_never_joins_across_two_openings() {
    let xml = "<a>{{x<t><t>}}</t></t></a>";
    assert_eq!(merged_text(xml), xml);
}

#[test]
fn test_merge_needs_the_tags_to_be_adjacent() {
    let xml = "<r><t>{{x</t></r><r><t>}}</t></r>";
    assert_eq!(merged_text(xml), xml);
}

#[test]
fn test_merge_ignores_a_stray_closing_brace() {
    let xml = "<p><t>}}</t><t>a</t></p>";
    assert_eq!(merged_text(xml), xml);
}

#[test]
fn test_merge_stops_when_the_braces_balance() {
    assert_eq!(
        merged_text("<p><t>{{a</t><t>}}</t><t>b</t></p>"),
        "<p><t>{{a}}</t><t>b</t></p>"
    );
}

#[test]
fn test_merge_is_idempotent() {
    let inputs = [
        "<t>部门: {{</t><t>employee.department</t><t>}}</t>",
        "<p><t>{{a}}</t><t>x</t><t>{{b</t><t>}}</t></p>",
        "<p><t>{</t><t>{</t><t>a</t><u>b</u></p>",
        "<p><t>{{a</t><t>b</t></p>",
        "plain",
    ];
    for input in inputs {
        let segs = tokenize(input).unwrap();
        let once = merge_segments(&segs);
        let twice = merge_segments(&once);
        assert_eq!(once, twice);
        let text_once = merged_text(input);
        assert_eq!(merged_text(&text_once), text_once);
    }
}

#[test]
fn test_merge_keeps_the_literal_text() {
    let segs = tokenize("<p><t>a{{b</t><t>c}}d</t></p>").unwrap();
    let joined = merge_segments(&segs);
    assert_eq!(serialize(&joined), "<p><t>a{{bc}}d</t></p>");
}

#[test]
fn test_merge_rejects_malformed_markup() {
    assert_eq!(
        merge_handlebars_in_xml("<t>{{a</t".to_string()),
        Err(DocxHandlebarsError::Xml("a tag is not closed".to_string()))
    );
    assert_eq!(
        merge_handlebars_in_xml("<t>{{a".to_string()),
        Err(DocxHandlebarsError::Xml("the elements are not balanced".to_string()))
    );
}

#[test]
fn test_xml_escape_to_normal() {
    assert_eq!(
        xml_escape_to_normal("&lt;a&gt; &amp; &quot;b&quot; &apos;c&apos;".to_string()),
        "<a> & \"b\" 'c'"
    );
    assert_eq!(xml_escape_to_normal("no entities".to_string()), "no entities");
    assert_eq!(xml_escape_to_normal(String::new()), "");
    assert_eq!(xml_escape_to_normal("&amp;lt;".to_string()), "&lt;");
    assert_eq!(xml_escape_to_normal("&amp;quot;".to_string()), "&quot;");
    assert_eq!(xml_escape_to_normal("&amp;apos;&amp;amp;".to_string()), "&apos;&amp;");
    assert_eq!(xml_escape_to_normal("&amp&amp;&".to_string()), "&amp&&");
    assert_eq!(xml_escape_to_normal("&lt".to_string()), "&lt");
}

#[test]
fn test_merge_four_fragments() {
    assert_eq!(
        merged_text("<p><t>{{</t><t>na</t><t>me}</t><t>}</t><t>tail</t></p>"),
        "<p><t>{{name}}</t><t>tail</t></p>"
    );
}

#[test]
fn test_merged_segments_are_the_tokens_of_their_text() {
    let inputs = [
        "<t>部门: {{</t><t>employee.department</t><t>}}</t>",
        "<p><t>{{a}}</t><t>x</t><t>{{b</t><t>}}</t></p>",
        "lead<p><t>{{a</t><t>b</t></p>tail",
    ];
    for input in inputs {
        let joined = merge_segments(&tokenize(input).unwrap());
        assert_eq!(tokenize(&serialize(&joined)).unwrap(), joined);
    }
}

#[test]
fn test_merge_leaves_a_lone_brace_alone() {
    let lone = "<t>a{</t><t>b</t>";
    assert_eq!(merged_text(lone), lone);
    let apart = "<p><t>{</t><t>{na</t><t>me}}</t></p>";
    assert_eq!(merged_text(apart), apart);
    let closing = "<p><t>a}}</t><t>{b</t><t>c</t></p>";
    assert_eq!(merged_text(closing), closing);
}

#[test]
fn test_unescaping_undoes_escaping() {
    let escape = |s: &str| {
        s.replace('&', "&amp;")
            .replace('<', "&lt;")
            .replace('>', "&gt;")
            .replace('"', "&quot;")
            .replace('\'', "&apos;")
    };
    for text in ["", "plain", "&quot;", "a < b & c > \"d\" 'e'", "&amp;lt;", "&&;amp;"] {
        assert_eq!(xml_escape_to_normal(escape(text)), text);
    }
}
