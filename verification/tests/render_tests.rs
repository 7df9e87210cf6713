use docx_handlebars::evaluator::{
    fault_to_error, new_engine, parse_json, rendered_or_error, settle, verdict_of,
    EvaluationFault,
};
use docx_handlebars::utils::apply_handlebars_template;
use docx_handlebars::DocxHandlebarsError;

fn render(template: &str, json: &str) -> String {
    let engine = new_engine();
    let data = parse_json(json).unwrap();
    apply_handlebars_template(&engine, template, &data).unwrap()
}

#[test]
fn test_render_plain_variables() {
    assert_eq!(
        render(
            "Hello {{name}}, you are {{age}} years old.",
            "{\"name\": \"张三\", \"age\": 25}"
        ),
        "Hello 张三, you are 25 years old."
    );
}

#[test]
fn test_render_conditional() {
    let template = "{{#if has_bonus}}奖金: ¥{{bonus_amount}}{{/if}}";
    assert_eq!(
        render(template, "{\"has_bonus\": true, \"bonus_amount\": 5000}"),
        "奖金: ¥5000"
    );
    assert_eq!(
        render(template, "{\"has_bonus\": false, \"bonus_amount\": 5000}"),
        ""
    );
}

#[test]
fn test_render_loop_keeps_input_order() {
    assert_eq!(
        render(
            "{{#each projects}} - {{name}}{{/each}}",
            "{\"projects\": [{\"name\": \"A\"}, {\"name\": \"B\"}, {\"name\": \"C\"}]}"
        ),
        " - A - B - C"
    );
}

#[test]
fn test_handlebars_template_syntax() {
    assert_eq!(render("Hello {{name}}!", "{\"name\": \"World\"}"), "Hello World!");
    assert_eq!(
        render(
            "{{#if active}}用户活跃{{else}}用户不活跃{{/if}}",
            "{\"active\": true}"
        ),
        "用户活跃"
    );
    assert_eq!(
        render(
            "{{#each items}}{{name}} {{/each}}",
            "{\"items\": [{\"name\": \"A\"}, {\"name\": \"B\"}]}"
        ),
        "A B "
    );
}

#[test]
fn test_template_validation() {
    let engine = new_engine();
    let data = parse_json("{}").unwrap();
    let valid_templates = vec![
        "Hello {{name}}",
        "{{#if condition}}Yes{{/if}}",
        "{{#each items}}{{name}}{{/each}}",
        "{{#unless empty}}Not empty{{/unless}}",
    ];
    for template in valid_templates {
        let result = apply_handlebars_template(&engine, template, &data);
        assert!(result.is_ok(), "模板应该有效: {}", template);
    }
}

#[test]
fn test_error_handling() {
    let parse_result = parse_json("{ invalid json }");
    assert!(parse_result.is_err());
    assert!(matches!(parse_result, Err(DocxHandlebarsError::Json(_))));

    let engine = new_engine();
    let data = parse_json("{}").unwrap();
    let result = apply_handlebars_template(&engine, "{{nonexistent.property.chain}}", &data);
    assert!(result.is_ok());
    assert_eq!(result.unwrap(), "");
}

#[test]
fn test_new_engine_is_not_strict() {
    let engine = new_engine();
    assert!(!engine.strict_mode());
    assert_eq!(render("[{{missing}}]", "{}"), "[]");
}

#[test]
fn test_a_template_that_does_not_parse_is_a_template_error() {
    let engine = new_engine();
    let data = parse_json("{}").unwrap();
    let result = apply_handlebars_template(&engine, "{{#if a}}never closed", &data);
    assert!(matches!(result, Err(DocxHandlebarsError::Template(_))));
}

#[test]
fn test_a_template_that_fails_while_rendering_is_a_render_error() {
    let engine = new_engine();
    let data = parse_json("{}").unwrap();
    let result = apply_handlebars_template(&engine, "{{> missing_partial}}", &data);
    assert!(matches!(result, Err(DocxHandlebarsError::Render(_))));
}

#[test]
fn test_settle_keeps_the_text_of_a_failed_region() {
    assert_eq!(settle("{{a}}", Some("1".to_string())), "1");
    assert_eq!(settle("{{a}}", Some(String::new())), "");
    assert_eq!(settle("{{a}}", None), "{{a}}");
}

#[test]
fn test_verdict_of_and_fault_to_error() {
    assert_eq!(verdict_of(Ok("x".to_string())), Some("x".to_string()));
    assert_eq!(verdict_of(Err(EvaluationFault::Syntax("s".to_string()))), None);
    assert_eq!(verdict_of(Err(EvaluationFault::Render("r".to_string()))), None);
    assert_eq!(
        fault_to_error(EvaluationFault::Syntax("s".to_string())),
        DocxHandlebarsError::Template("s".to_string())
    );
    assert_eq!(
        fault_to_error(EvaluationFault::Render("r".to_string())),
        DocxHandlebarsError::Render("r".to_string())
    );
}

#[test]
fn test_parse_json_gives_the_value_of_the_text() {
    let value = parse_json("{\"a\": [1, \"x\", null], \"b\": {\"c\": true}}").unwrap();
    assert_eq!(value["a"][0], 1);
    assert_eq!(value["a"][1], "x");
    assert!(value["a"][2].is_null());
    assert_eq!(value["b"]["c"], true);
    assert!(matches!(parse_json(""), Err(DocxHandlebarsError::Json(_))));
}

#[test]
fn test_rendered_or_error() {
    assert_eq!(rendered_or_error(Ok("x".to_string())), Ok("x".to_string()));
    assert_eq!(
        rendered_or_error(Err(EvaluationFault::Syntax("s".to_string()))),
        Err(DocxHandlebarsError::Template("s".to_string()))
    );
    assert_eq!(
        rendered_or_error(Err(EvaluationFault::Render("r".to_string()))),
        Err(DocxHandlebarsError::Render("r".to_string()))
    );
}
