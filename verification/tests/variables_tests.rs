use docx_handlebars::variables::extract_variables;

#[test]
fn test_extract_variables_leaves_block_keywords_out() {
    let text = "{{employee.name}} {{#each projects}}{{name}}{{/each}}";
    assert_eq!(extract_variables(text), vec!["employee.name", "name"]);
}

#[test]
fn test_extract_variables_gives_each_once() {
    assert_eq!(extract_variables("{{a}}{{b}}{{a}}{{ b }}"), vec!["a", "b"]);
}

#[test]
fn test_extract_variables_takes_the_first_token() {
    assert_eq!(extract_variables("{{upper name}}"), vec!["upper"]);
    assert_eq!(extract_variables("{{  spaced.path  }}"), vec!["spaced.path"]);
}

#[test]
fn test_extract_variables_skips_every_keyword() {
    let text = "{{#if a}}{{else}}{{/if}}{{#unless b}}{{/unless}}{{#with c}}{{/with}}{{#each d}}{{/each}}";
    assert_eq!(extract_variables(text), Vec::<String>::new());
}

#[test]
fn test_extract_variables_strips_markers_of_other_blocks() {
    assert_eq!(extract_variables("{{#custom x}}{{/custom}}"), vec!["custom"]);
}

#[test]
fn test_extract_variables_without_expressions() {
    assert_eq!(extract_variables(""), Vec::<String>::new());
    assert_eq!(extract_variables("no braces { here }"), Vec::<String>::new());
    assert_eq!(extract_variables("{{}}"), Vec::<String>::new());
}

#[test]
fn test_extract_variables_stops_at_an_unclosed_expression() {
    assert_eq!(extract_variables("{{a}} {{b"), vec!["a"]);
}
