use docx_handlebars::evaluator::{new_engine, parse_json};
use docx_handlebars::reconstruct::{
    document_scoped_markup, gather_region_text, hybrid_markup, lay_out, paragraph_templates,
    rebuild_paragraphs, render_document_scoped, render_hybrid, render_paragraphs, split_text,
    table_bounds, wrap_in_envelope, ENVELOPE_CLOSE, ENVELOPE_OPEN,
};
use docx_handlebars::segment::{serialize, tokenize};
use docx_handlebars::strategy::RenderStrategy;
use docx_handlebars::template::{classify_segments, process_xml};
use docx_handlebars::DocxHandlebarsError;

const TWO_PARAGRAPHS: &str = "<w:body><w:p><w:r><w:t>Hello {{</w:t></w:r><w:r><w:rPr><w:b/></w:rPr><w:t>name}}</w:t></w:r></w:p><w:p><w:r><w:t>plain</w:t></w:r></w:p></w:body>";

fn enveloped(body: &str) -> String {
    format!("{}{}{}", ENVELOPE_OPEN, body, ENVELOPE_CLOSE)
}

#[test]
fn test_paragraph_templates_are_the_paragraphs_with_expressions() {
    let segs = tokenize(TWO_PARAGRAPHS).unwrap();
    assert_eq!(paragraph_templates(&segs), vec!["Hello {{name}}"]);
}

#[test]
fn test_rebuild_writes_into_the_first_leaf_and_empties_the_rest() {
    let segs = tokenize(TWO_PARAGRAPHS).unwrap();
    let out = rebuild_paragraphs(&segs, &vec![Some("Hello World".to_string())]);
    assert_eq!(out.len(), segs.len());
    assert_eq!(
        serialize(&out),
        "<w:body><w:p><w:r><w:t>Hello World</w:t></w:r><w:r><w:rPr><w:b/></w:rPr><w:t></w:t></w:r></w:p><w:p><w:r><w:t>plain</w:t></w:r></w:p></w:body>"
    );
}

#[test]
fn test_rebuild_leaves_a_failed_paragraph_as_it_was() {
    let segs = tokenize(TWO_PARAGRAPHS).unwrap();
    assert_eq!(rebuild_paragraphs(&segs, &vec![None]), segs);
    assert_eq!(rebuild_paragraphs(&segs, &vec![]), segs);
}

#[test]
fn test_rebuild_takes_the_verdicts_in_order() {
    let xml = "<w:p><w:t>{{a}}</w:t></w:p><w:p><w:t>x</w:t></w:p><w:p><w:t>{{b}}</w:t></w:p><w:p><w:t>{{c}}</w:t></w:p>";
    let segs = tokenize(xml).unwrap();
    assert_eq!(paragraph_templates(&segs), vec!["{{a}}", "{{b}}", "{{c}}"]);
    let out = rebuild_paragraphs(
        &segs,
        &vec![Some("1".to_string()), None, Some("3".to_string())],
    );
    assert_eq!(
        serialize(&out),
        "<w:p><w:t>1</w:t></w:p><w:p><w:t>x</w:t></w:p><w:p><w:t>{{b}}</w:t></w:p><w:p><w:t>3</w:t></w:p>"
    );
}

#[test]
fn test_render_paragraphs_with_the_engine() {
    let engine = new_engine();
    let data = parse_json("{\"name\": \"World\"}").unwrap();
    let segs = tokenize(TWO_PARAGRAPHS).unwrap();
    let out = render_paragraphs(&segs, &engine, &data);
    assert_eq!(
        serialize(&out),
        "<w:body><w:p><w:r><w:t>Hello World</w:t></w:r><w:r><w:rPr><w:b/></w:rPr><w:t></w:t></w:r></w:p><w:p><w:r><w:t>plain</w:t></w:r></w:p></w:body>"
    );
}

#[test]
fn test_fail_soft_paragraph_keeps_a_template_that_does_not_parse() {
    let engine = new_engine();
    let data = parse_json("{\"name\": \"World\"}").unwrap();
    let xml = "<w:body><w:p><w:r><w:t>{{name}}</w:t></w:r></w:p><w:p><w:r><w:t>{{/if}}</w:t></w:r></w:p></w:body>";
    assert_eq!(
        process_xml(xml, &engine, &data).unwrap(),
        "<w:body><w:p><w:r><w:t>World</w:t></w:r></w:p><w:p><w:r><w:t>{{/if}}</w:t></w:r></w:p></w:body>"
    );
}

#[test]
fn test_region_text_breaks_lines_between_paragraphs() {
    let segs = tokenize(TWO_PARAGRAPHS).unwrap();
    assert_eq!(
        gather_region_text(&segs, 0, segs.len()),
        "Hello {{name}}\nplain"
    );
    assert_eq!(gather_region_text(&segs, 3, 2), "");
    assert_eq!(gather_region_text(&segs, 0, segs.len() + 1), "");
}

#[test]
fn test_split_text() {
    let chars = |s: &str| s.chars().collect::<Vec<char>>();
    assert_eq!(split_text(""), vec![chars("")]);
    assert_eq!(split_text("a"), vec![chars("a")]);
    assert_eq!(split_text("a\n\nb"), vec![chars("a"), chars(""), chars("b")]);
    assert_eq!(split_text("a\n"), vec![chars("a"), chars("")]);
}

#[test]
fn test_lay_out_one_paragraph_per_line() {
    assert_eq!(lay_out(""), "");
    assert_eq!(
        lay_out("a"),
        "<w:p><w:r><w:t xml:space=\"preserve\">a</w:t></w:r></w:p>"
    );
    assert_eq!(
        lay_out("a\n\nb"),
        "<w:p><w:r><w:t xml:space=\"preserve\">a</w:t></w:r></w:p><w:p></w:p><w:p><w:r><w:t xml:space=\"preserve\">b</w:t></w:r></w:p>"
    );
}

#[test]
fn test_wrap_in_envelope() {
    assert_eq!(
        wrap_in_envelope("X"),
        "<?xml version=\"1.0\" encoding=\"UTF-8\" standalone=\"yes\"?><w:document xmlns:w=\"http://schemas.openxmlformats.org/wordprocessingml/2006/main\"><w:body>X</w:body></w:document>"
    );
}

#[test]
fn test_document_scoped_markup() {
    let segs = tokenize("<w:body><w:p><w:r><w:t>{{#each items}}{{name}};{{/each}}</w:t></w:r></w:p></w:body>").unwrap();
    assert_eq!(
        document_scoped_markup(&segs, Some("A;B;".to_string())),
        enveloped("<w:p><w:r><w:t xml:space=\"preserve\">A;B;</w:t></w:r></w:p>")
    );
    assert_eq!(
        document_scoped_markup(&segs, None),
        enveloped("<w:p><w:r><w:t xml:space=\"preserve\">{{#each items}}{{name}};{{/each}}</w:t></w:r></w:p>")
    );
    assert_eq!(document_scoped_markup(&segs, Some(String::new())), enveloped(""));
}

#[test]
fn test_render_document_scoped_with_the_engine() {
    let engine = new_engine();
    let data = parse_json("{\"items\": [{\"name\": \"A\"}, {\"name\": \"B\"}]}").unwrap();
    let xml = "<w:body><w:p><w:r><w:t>{{#each items}}{{name}};{{/each}}</w:t></w:r></w:p></w:body>";
    let expected = enveloped("<w:p><w:r><w:t xml:space=\"preserve\">A;B;</w:t></w:r></w:p>");
    let segs = tokenize(xml).unwrap();
    assert_eq!(render_document_scoped(&segs, &engine, &data), expected);
    assert_eq!(process_xml(xml, &engine, &data).unwrap(), expected);
}

#[test]
fn test_fail_soft_document_keeps_its_text() {
    let engine = new_engine();
    let data = parse_json("{}").unwrap();
    let xml = "<w:body><w:p><w:r><w:t>{{#if a}}never closed</w:t></w:r></w:p><w:p><w:r><w:t>second</w:t></w:r></w:p></w:body>";
    assert_eq!(
        process_xml(xml, &engine, &data).unwrap(),
        enveloped("<w:p><w:r><w:t xml:space=\"preserve\">{{#if a}}never closed</w:t></w:r></w:p><w:p><w:r><w:t xml:space=\"preserve\">second</w:t></w:r></w:p>")
    );
}

const WITH_TABLE: &str = "<w:body><w:p><w:r><w:t>{{#if a}}yes{{/if}}</w:t></w:r></w:p><w:tbl><w:tr><w:tc><w:p><w:r><w:t>{{cell}}</w:t></w:r></w:p></w:tc></w:tr></w:tbl><w:p><w:r><w:t>after {{b}}</w:t></w:r></w:p></w:body>";

const TABLE: &str = "<w:tbl><w:tr><w:tc><w:p><w:r><w:t>{{cell}}</w:t></w:r></w:p></w:tc></w:tr></w:tbl>";

#[test]
fn test_table_bounds() {
    let segs = tokenize(WITH_TABLE).unwrap();
    let (a, b) = table_bounds(&segs);
    assert_eq!(serialize(&segs[a..b].to_vec()), TABLE);
    let none = tokenize("<w:p></w:p>").unwrap();
    assert_eq!(table_bounds(&none), (2, 2));
}

#[test]
fn test_hybrid_markup_copies_the_table_as_it_stands() {
    let segs = tokenize(WITH_TABLE).unwrap();
    assert_eq!(
        hybrid_markup(&segs, Some("yes".to_string()), Some("after 2".to_string())),
        enveloped(&format!(
            "<w:p><w:r><w:t xml:space=\"preserve\">yes</w:t></w:r></w:p>{}<w:p><w:r><w:t xml:space=\"preserve\">after 2</w:t></w:r></w:p>",
            TABLE
        ))
    );
    assert_eq!(
        hybrid_markup(&segs, None, Some("after 2".to_string())),
        enveloped(&format!(
            "<w:p><w:r><w:t xml:space=\"preserve\">{{{{#if a}}}}yes{{{{/if}}}}</w:t></w:r></w:p>{}<w:p><w:r><w:t xml:space=\"preserve\">after 2</w:t></w:r></w:p>",
            TABLE
        ))
    );
}

#[test]
fn test_render_hybrid_with_the_engine() {
    let engine = new_engine();
    let data = parse_json("{\"a\": true, \"b\": 2, \"cell\": \"never used\"}").unwrap();
    let expected = enveloped(&format!(
        "<w:p><w:r><w:t xml:space=\"preserve\">yes</w:t></w:r></w:p>{}<w:p><w:r><w:t xml:space=\"preserve\">after 2</w:t></w:r></w:p>",
        TABLE
    ));
    let segs = tokenize(WITH_TABLE).unwrap();
    assert_eq!(render_hybrid(&segs, &engine, &data), expected);
    assert_eq!(process_xml(WITH_TABLE, &engine, &data).unwrap(), expected);
}

#[test]
fn test_process_xml_table_without_block_renders_paragraphs() {
    let engine = new_engine();
    let data = parse_json("{\"cell\": \"C\"}").unwrap();
    assert_eq!(
        process_xml(TABLE, &engine, &data).unwrap(),
        "<w:tbl><w:tr><w:tc><w:p><w:r><w:t>C</w:t></w:r></w:p></w:tc></w:tr></w:tbl>"
    );
}

#[test]
fn test_process_xml_joins_a_split_expression_first() {
    let engine = new_engine();
    let data = parse_json("{\"name\": \"World\"}").unwrap();
    assert_eq!(
        process_xml("<w:p><w:t>{{na</w:t><w:t>me}}</w:t></w:p>", &engine, &data).unwrap(),
        "<w:p><w:t>World</w:t></w:p>"
    );
}

#[test]
fn test_process_xml_rejects_malformed_markup() {
    let engine = new_engine();
    let data = parse_json("{}").unwrap();
    assert_eq!(
        process_xml("<w:p><w:t>{{a}}</w:t>", &engine, &data),
        Err(DocxHandlebarsError::Xml("the elements are not balanced".to_string()))
    );
}

#[test]
fn test_classify_segments_reads_the_text_across_runs() {
    let split = tokenize("<w:p><w:r><w:t>{{</w:t></w:r><w:r><w:t>#each items}}{{name}};{{/each}}</w:t></w:r></w:p>").unwrap();
    assert_eq!(classify_segments(&split), RenderStrategy::DocumentScoped);
    assert_eq!(
        classify_segments(&tokenize(TWO_PARAGRAPHS).unwrap()),
        RenderStrategy::ParagraphScoped
    );
    assert_eq!(
        classify_segments(&tokenize(TABLE).unwrap()),
        RenderStrategy::ParagraphScoped
    );
    assert_eq!(
        classify_segments(&tokenize(WITH_TABLE).unwrap()),
        RenderStrategy::Hybrid
    );
    assert_eq!(classify_segments(&vec![]), RenderStrategy::ParagraphScoped);
}

#[test]
fn test_process_xml_renders_a_block_that_runs_have_split() {
    let engine = new_engine();
    let data = parse_json("{\"items\": [{\"name\": \"A\"}, {\"name\": \"B\"}]}").unwrap();
    let xml = "<w:p><w:r><w:t>{{</w:t></w:r><w:r><w:t>#each items}}{{name}};{{/each}}</w:t></w:r></w:p>";
    assert_eq!(
        process_xml(xml, &engine, &data).unwrap(),
        enveloped("<w:p><w:r><w:t xml:space=\"preserve\">A;B;</w:t></w:r></w:p>")
    );
}

#[test]
fn test_process_xml_gives_plain_markup_back() {
    let engine = new_engine();
    let data = parse_json("{\"name\": \"World\"}").unwrap();
    for xml in [
        "",
        "<w:p><w:r><w:t>no expression here</w:t></w:r></w:p>",
        "<t>a{</t><t>b</t>",
        "<w:body><w:p><w:t>a } b { c</w:t></w:p><w:p/><w:p><w:t>&amp;</w:t></w:p></w:body>",
        "<?xml version=\"1.0\"?><w:document><w:body><w:sectPr/></w:body></w:document>",
    ] {
        assert_eq!(process_xml(xml, &engine, &data), Ok(xml.to_string()));
    }
}
